use vstd::prelude::*;
use vstd::arithmetic::div_mod::{lemma_add_mod_noop, lemma_mod_twice, lemma_small_mod, lemma_mod_add_multiples_vanish};
use crate::board::TileKind;
use crate::game::{advanced, bot_turn_taken, landed, moved, turn_taken, Game, CHANCE_MAX, CHANCE_MIN};
use crate::player::{salary, lemma_property_value_prefix, lemma_stock_value_bound, PlayerKind, CASH_BOUND, STOCK_BOUND};

verus! {

/// A purchase happens only when the lander has at least the price in cash
/// and nobody owns the tile; it then costs exactly the price and adds
/// exactly that tile to the lander's holdings.
pub proof fn law_purchase(pre: Game, post: Game, p: int, t: usize, delta: int)
    requires
        pre.wf(),
        0 <= p < pre.players.len(),
        t < pre.board.len(),
        pre.board[t as int].kind is Property,
        !pre.players[p].owns(t),
        landed(pre, post, p, t, delta),
    ensures
        post.players[p].owns(t) <==> (!pre.has_owner(t) && pre.players[p].cash
            >= pre.board[t as int].kind->Property_price),
        post.players[p].owns(t) ==> post.players[p].cash == pre.players[p].cash
            - pre.board[t as int].kind->Property_price && post.players[p].properties@
            == pre.players[p].properties@.push(t),
        !post.players[p].owns(t) ==> post.players[p].cash <= pre.players[p].cash
            && post.players[p].properties@ == pre.players[p].properties@,
{
    if pre.has_owner(t) {
        let o = pre.owner(t);
        assert(o != p);
    }
    assert(pre.players[p].properties@.push(t).last() == t);
}

/// A fee moves exactly the base fee from the lander to the owner, so their
/// combined cash is unchanged.
pub proof fn law_fee_transfer(pre: Game, post: Game, p: int, t: usize, delta: int)
    requires
        pre.wf(),
        0 <= p < pre.players.len(),
        t < pre.board.len(),
        pre.board[t as int].kind is Property,
        pre.has_owner(t),
        pre.owner(t) != p,
        landed(pre, post, p, t, delta),
    ensures
        ({
            let o = pre.owner(t);
            &&& post.players[p].cash + post.players[o].cash == pre.players[p].cash + pre.players[o].cash
            &&& post.players[p].cash == pre.players[p].cash - pre.board[t as int].kind->Property_base_fee
        }),
{
}

/// Landing on the bank levels the player up exactly when all four suits are
/// held; the suits are then cleared and the salary for the net worth before
/// landing is paid.
pub proof fn law_bank(pre: Game, post: Game, p: int, t: usize, delta: int)
    requires
        pre.wf(),
        0 <= p < pre.players.len(),
        t < pre.board.len(),
        pre.board[t as int].kind is Bank,
        landed(pre, post, p, t, delta),
    ensures
        (post.players[p].level == pre.players[p].level + 1) <==> pre.players[p].suits@.len() == 4,
        pre.players[p].suits@.len() == 4 ==> {
            &&& post.players[p].suits@.len() == 0
            &&& post.players[p].cash == pre.players[p].cash + salary(pre.players[p].worth(pre.board@))
        },
        pre.players[p].suits@.len() != 4 ==> post.players[p].suits == pre.players[p].suits
            && post.players[p].cash == pre.players[p].cash && post.players[p].level == pre.players[p].level,
{
    pre.players[p].suits.lemma_view();
    post.players[p].suits.lemma_view();
}

/// Landing twice on a suit tile collects the suit once: the second landing
/// leaves the collected suits as they were.
pub proof fn law_suit_idempotent(g0: Game, g1: Game, g2: Game, p: int, t: usize, d1: int, d2: int)
    requires
        g0.wf(),
        0 <= p < g0.players.len(),
        t < g0.board.len(),
        g0.board[t as int].kind is Suit,
        landed(g0, g1, p, t, d1),
        landed(g1, g2, p, t, d2),
    ensures
        g2.players[p].suits@ == g1.players[p].suits@,
        g1.players[p].suits@ == g0.players[p].suits@.insert(g0.board[t as int].kind->Suit_0),
{
    let s = g0.board[t as int].kind->Suit_0;
    g0.players[p].suits.lemma_view();
    g1.players[p].suits.lemma_view();
    g2.players[p].suits.lemma_view();
    assert(g1.players[p].suits == g0.players[p].suits.with(s));
    assert(g2.players[p].suits == g1.players[p].suits.with(s));
    assert(g2.players[p].suits == g1.players[p].suits);
    assert(g1.players[p].suits@ =~= g0.players[p].suits@.insert(s));
}

/// `post` has the same roster as `pre`, with the turn passed to the next
/// player.
pub open spec fn passes_turn(pre: Game, post: Game) -> bool {
    &&& post.players.len() == pre.players.len()
    &&& post.current_turn == (pre.current_turn + 1) % (pre.players.len() as int)
}

proof fn lemma_passes_rotate(gs: Seq<Game>, k: int)
    requires
        gs.len() >= 1,
        gs[0].players.len() > 0,
        gs[0].current_turn < gs[0].players.len(),
        forall|i: int| 0 <= i < gs.len() - 1 ==> #[trigger] passes_turn(gs[i], gs[i + 1]),
        0 <= k < gs.len(),
    ensures
        gs[k].players.len() == gs[0].players.len(),
        gs[k].current_turn == (gs[0].current_turn + k) % (gs[0].players.len() as int),
    decreases k,
{
    let n = gs[0].players.len() as int;
    if k == 0 {
        lemma_small_mod(gs[0].current_turn as nat, n as nat);
    } else {
        lemma_passes_rotate(gs, k - 1);
        let i = k - 1;
        assert(passes_turn(gs[i], gs[i + 1]));
        let x = gs[0].current_turn + k - 1;
        lemma_add_mod_noop(x, 1, n);
        lemma_add_mod_noop(x % n, 1, n);
        lemma_mod_twice(x, n);
    }
}

proof fn lemma_cycle(gs: Seq<Game>)
    requires
        gs.len() >= 1,
        gs[0].players.len() > 0,
        gs[0].current_turn < gs[0].players.len(),
        gs.len() == gs[0].players.len() + 1,
        forall|i: int| 0 <= i < gs.len() - 1 ==> #[trigger] passes_turn(gs[i], gs[i + 1]),
    ensures
        gs.last().current_turn == gs[0].current_turn,
{
    let n = gs[0].players.len() as int;
    lemma_passes_rotate(gs, n);
    lemma_mod_add_multiples_vanish(gs[0].current_turn as int, n);
    lemma_small_mod(gs[0].current_turn as nat, n as nat);
}

/// Turns go round the table: after as many turns as there are players, the
/// turn is back with the player who had it at the start.
pub proof fn law_rotation_cycle(gs: Seq<Game>, rolls: Seq<int>, deltas: Seq<int>)
    requires
        gs.len() >= 1,
        gs[0].wf(),
        gs[0].players.len() > 0,
        gs.len() == gs[0].players.len() + 1,
        rolls.len() == gs[0].players.len(),
        deltas.len() == gs[0].players.len(),
        forall|i: int| 0 <= i < gs.len() - 1 ==> #[trigger] turn_taken(gs[i], gs[i + 1], rolls[i], deltas[i]),
    ensures
        gs.last().current_turn == gs[0].current_turn,
{
    assert forall|i: int| 0 <= i < gs.len() - 1 implies #[trigger] passes_turn(gs[i], gs[i + 1]) by {
        assert(turn_taken(gs[i], gs[i + 1], rolls[i], deltas[i]));
        assert(gs[i].players.len() > 0) by {
            lemma_passes_rotate_len(gs, rolls, deltas, i);
        }
    }
    lemma_cycle(gs);
}

proof fn lemma_passes_rotate_len(gs: Seq<Game>, rolls: Seq<int>, deltas: Seq<int>, k: int)
    requires
        gs.len() >= 1,
        gs[0].players.len() > 0,
        rolls.len() >= gs.len() - 1,
        deltas.len() >= gs.len() - 1,
        forall|i: int| 0 <= i < gs.len() - 1 ==> #[trigger] turn_taken(gs[i], gs[i + 1], rolls[i], deltas[i]),
        0 <= k < gs.len(),
    ensures
        gs[k].players.len() == gs[0].players.len(),
    decreases k,
{
    if k > 0 {
        lemma_passes_rotate_len(gs, rolls, deltas, k - 1);
        let i = k - 1;
        assert(turn_taken(gs[i], gs[i + 1], rolls[i], deltas[i]));
    }
}

proof fn lemma_bot_turns_keep_roster(gs: Seq<Game>, rolls: Seq<int>, deltas: Seq<int>, k: int)
    requires
        gs.len() >= 1,
        gs[0].players.len() > 0,
        rolls.len() >= gs.len() - 1,
        deltas.len() >= gs.len() - 1,
        forall|i: int| 0 <= i < gs.len() - 1 ==> #[trigger] bot_turn_taken(gs[i], gs[i + 1], rolls[i], deltas[i]),
        0 <= k < gs.len(),
    ensures
        gs[k].players.len() == gs[0].players.len(),
    decreases k,
{
    if k > 0 {
        lemma_bot_turns_keep_roster(gs, rolls, deltas, k - 1);
        let i = k - 1;
        assert(bot_turn_taken(gs[i], gs[i + 1], rolls[i], deltas[i]));
        assert(gs[i + 1].players@.len() == gs[i].players@.len());
    }
}

/// Automated play goes round the table too: a bot plays and a human is
/// passed over, and either way, after as many ticks as there are players, the
/// turn is back with the player who had it at the start.
pub proof fn law_bot_rotation_cycle(gs: Seq<Game>, rolls: Seq<int>, deltas: Seq<int>)
    requires
        gs.len() >= 1,
        gs[0].wf(),
        gs[0].players.len() > 0,
        gs.len() == gs[0].players.len() + 1,
        rolls.len() == gs[0].players.len(),
        deltas.len() == gs[0].players.len(),
        forall|i: int| 0 <= i < gs.len() - 1 ==> #[trigger] bot_turn_taken(gs[i], gs[i + 1], rolls[i], deltas[i]),
    ensures
        gs.last().current_turn == gs[0].current_turn,
{
    assert forall|i: int| 0 <= i < gs.len() - 1 implies #[trigger] passes_turn(gs[i], gs[i + 1]) by {
        lemma_bot_turns_keep_roster(gs, rolls, deltas, i);
        assert(bot_turn_taken(gs[i], gs[i + 1], rolls[i], deltas[i]));
        assert(gs[i + 1].players@.len() == gs[i].players@.len());
    }
    lemma_cycle(gs);
}

} // verus!

verus! {

proof fn lemma_landed_growth(pre: Game, post: Game, p: int, t: usize, delta: int, b: int, m: int)
    requires
        pre.wf(),
        0 <= p < pre.players.len(),
        t < pre.board.len(),
        pre.within(b, m),
        STOCK_BOUND <= b,
        0 <= m,
        CHANCE_MIN <= delta <= CHANCE_MAX,
        landed(pre, post, p, t, delta),
    ensures
        post.within(2 * b, m + 1),
        post.board@ == pre.board@,
        post.players.len() == pre.players.len(),
{
    let a = pre.players[p];
    assert(a.within(pre.board@, b, m));
    lemma_property_value_prefix(pre.board@, a.properties@, 0);
    assert(a.properties@.take(0) =~= Seq::<usize>::empty());
    lemma_stock_value_bound(a.stocks@);
    let o = pre.owner(t);
    assert forall|i: int| 0 <= i < post.players.len() implies (#[trigger] post.players[i]).within(
        post.board@,
        2 * b,
        m + 1,
    ) by {
        assert(pre.players[i].within(pre.board@, b, m));
        if i == p {
            match pre.board[t as int].kind {
                TileKind::Property { district, price, base_fee } => {
                    if !pre.has_owner(t) && a.cash >= price {
                        assert(post.players[p].properties@.drop_last() =~= a.properties@);
                    }
                },
                _ => {},
            }
        }
    }
    assert forall|d: int| 0 <= d < post.district_shop_count.len() implies #[trigger] post.district_shop_count[d]
        <= m + 1 by {
        assert(d < pre.district_shop_count.len() ==> pre.district_shop_count[d] <= m);
    }
}

/// One turn at most doubles a magnitude bound of at least `STOCK_BOUND`
/// and raises levels and district counts by at most one; so from a session
/// within `STOCK_BOUND`, several turns in a row keep within `fits`.
pub proof fn law_turn_growth(pre: Game, post: Game, roll: int, delta: int, b: int, m: int)
    requires
        pre.wf(),
        pre.within(b, m),
        STOCK_BOUND <= b,
        0 <= m,
        CHANCE_MIN <= delta <= CHANCE_MAX,
        turn_taken(pre, post, roll, delta),
    ensures
        post.within(2 * b, m + 1),
{
    if pre.players.len() > 0 {
        let p = pre.current_turn as int;
        let mid = choose|mid: Game| #[trigger]
            advanced(pre, mid, p, roll, delta) && post.board@ == mid.board@ && post.players@ == mid.players@
                && post.district_shop_count@ == mid.district_shop_count@;
        let m2 = choose|m2: Game| #[trigger]
            moved(pre, m2, p, roll) && landed(m2, mid, p, m2.players[p].position, delta);
        assert(m2.within(b, m)) by {
            assert forall|i: int| 0 <= i < m2.players.len() implies (#[trigger] m2.players[i]).within(
                m2.board@,
                b,
                m,
            ) by {
                assert(pre.players[i].within(pre.board@, b, m));
            }
            assert forall|d: int| 0 <= d < m2.district_shop_count.len() implies #[trigger] m2.district_shop_count[d]
                <= m by {
                assert(pre.district_shop_count[d] <= m);
            }
        }
        lemma_moved_wf(pre, m2, p, roll);
        lemma_landed_growth(m2, mid, p, m2.players[p].position, delta, b, m);
        assert forall|i: int| 0 <= i < post.players.len() implies (#[trigger] post.players[i]).within(
            post.board@,
            2 * b,
            m + 1,
        ) by {
            assert(post.players[i] == mid.players[i]);
        }
        assert forall|d: int| 0 <= d < post.district_shop_count.len() implies #[trigger] post.district_shop_count[d]
            <= m + 1 by {
            assert(post.district_shop_count[d] == mid.district_shop_count[d]);
        }
    }
}

/// The same bound for a tick of automated play.
pub proof fn law_bot_turn_growth(pre: Game, post: Game, roll: int, delta: int, b: int, m: int)
    requires
        pre.wf(),
        pre.within(b, m),
        STOCK_BOUND <= b,
        0 <= m,
        CHANCE_MIN <= delta <= CHANCE_MAX,
        bot_turn_taken(pre, post, roll, delta),
    ensures
        post.within(2 * b, m + 1),
{
    if pre.players.len() > 0 && pre.players[pre.current_turn as int].kind != PlayerKind::Bot {
        assert forall|i: int| 0 <= i < post.players.len() implies (#[trigger] post.players[i]).within(
            post.board@,
            2 * b,
            m + 1,
        ) by {
            assert(post.players[i] == pre.players[i]);
            assert(pre.players[i].within(pre.board@, b, m));
        }
        assert forall|d: int| 0 <= d < post.district_shop_count.len() implies #[trigger] post.district_shop_count[d]
            <= m + 1 by {
            assert(post.district_shop_count[d] == pre.district_shop_count[d]);
        }
    } else {
        law_turn_growth(pre, post, roll, delta, b, m);
    }
}

/// A session within a bound no larger than `CASH_BOUND`, with levels below
/// the largest `u32`, meets `fits`.
pub proof fn law_within_fits(g: Game, b: int, m: int)
    requires
        g.within(b, m),
        b <= CASH_BOUND,
        m < u32::MAX,
    ensures
        g.fits(),
{
    assert forall|i: int| 0 <= i < g.players.len() implies (#[trigger] g.players[i]).fits(g.board@) by {
        assert(g.players[i].within(g.board@, b, m));
    }
    assert forall|d: int| 0 <= d < g.district_shop_count.len() implies #[trigger] g.district_shop_count[d]
        < u64::MAX by {
        assert(g.district_shop_count[d] <= m);
    }
}

proof fn lemma_moved_wf(pre: Game, mid: Game, p: int, roll: int)
    requires
        pre.wf(),
        0 <= p < pre.players.len(),
        moved(pre, mid, p, roll),
    ensures
        mid.wf(),
{
    assert(pre.board.len() > 0);
    assert forall|i: int| 0 <= i < mid.players.len() implies {
        &&& (#[trigger] mid.players[i]).position < mid.board.len()
        &&& mid.players[i].properties@.no_duplicates()
        &&& forall|k: int|
            0 <= k < mid.players[i].properties.len() ==> #[trigger] mid.players[i].properties[k]
                < mid.board.len()
    } by {
        assert(pre.players[i].properties@ == mid.players[i].properties@);
    }
    assert forall|i: int, j: int, u: usize|
        0 <= i < mid.players.len() && 0 <= j < mid.players.len() && i != j implies !(
        #[trigger] mid.players[i].owns(u) && #[trigger] mid.players[j].owns(u)) by {
        assert(pre.players[i].properties@ == mid.players[i].properties@);
        assert(pre.players[j].properties@ == mid.players[j].properties@);
        assert(!(pre.players[i].owns(u) && pre.players[j].owns(u)));
    }
}

} // verus!
