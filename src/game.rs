use vstd::prelude::*;
use vstd::arithmetic::div_mod::lemma_small_mod;
use crate::board::{board_wf, generate_board, standard_kind, track_cell, SuitSet, Tile, TileKind, DISTRICT_COUNT};
use crate::player::{
    lemma_property_value_prefix, property_value, salary, same_but_cash, same_but_position, same_player, PlayerKind,
    PlayerState, BASE_SALARY, CASH_BOUND, STOCK_BOUND,
};

verus! {

/// Cash each player starts a session with.
pub const STARTING_CASH: i64 = 2500;

/// Smallest cash change a chance tile can bring.
pub const CHANCE_MIN: i64 = -150;

/// Largest cash change a chance tile can bring.
pub const CHANCE_MAX: i64 = 200;

/// A game session: the board, the roster, whose turn it is and how many
/// shops have been bought in each district.
#[derive(Debug)]
pub struct Game {
    pub board: Vec<Tile>,
    pub players: Vec<PlayerState>,
    pub current_turn: usize,
    /// Purchases per district, indexed by `District::index`.
    pub district_shop_count: Vec<u64>,
}

impl Game {
    /// The session's invariants: a well-formed board, positions and holdings
    /// on the board, each player's holdings without repeats, no tile owned
    /// by two players, and a turn pointer on an existing player.
    pub open spec fn wf(&self) -> bool {
        &&& board_wf(self.board@)
        &&& self.district_shop_count.len() == DISTRICT_COUNT
        &&& if self.players.len() == 0 {
            self.current_turn == 0
        } else {
            self.current_turn < self.players.len()
        }
        &&& forall|i: int| 0 <= i < self.players.len() ==> {
            &&& (#[trigger] self.players[i]).position < self.board.len()
            &&& self.players[i].properties@.no_duplicates()
            &&& forall|k: int|
                0 <= k < self.players[i].properties.len() ==> #[trigger] self.players[i].properties[k]
                    < self.board.len()
        }
        &&& self.exclusive()
    }

    /// No tile is owned by two players.
    pub open spec fn exclusive(&self) -> bool {
        forall|i: int, j: int, t: usize|
            0 <= i < self.players.len() && 0 <= j < self.players.len() && i != j ==> !(
            #[trigger] self.players[i].owns(t) && #[trigger] self.players[j].owns(t))
    }

    /// Every player's numbers are small enough for a turn to be computed
    /// without overflow, and each district count can still grow.
    pub open spec fn fits(&self) -> bool {
        &&& forall|i: int| 0 <= i < self.players.len() ==> (#[trigger] self.players[i]).fits(self.board@)
        &&& forall|d: int| 0 <= d < self.district_shop_count.len() ==> #[trigger] self.district_shop_count[d] < u64::MAX
    }

    /// Every cash amount and property value is at most `b` in magnitude,
    /// stock holdings are within their bound, and levels and district
    /// counts are at most `m`.
    pub open spec fn within(&self, b: int, m: int) -> bool {
        &&& forall|i: int| 0 <= i < self.players.len() ==> (#[trigger] self.players[i]).within(self.board@, b, m)
        &&& forall|d: int| 0 <= d < self.district_shop_count.len() ==> #[trigger] self.district_shop_count[d] <= m
    }

    /// Some player owns tile `t`.
    pub open spec fn has_owner(&self, t: usize) -> bool {
        exists|j: int| 0 <= j < self.players.len() && #[trigger] self.players[j].owns(t)
    }

    /// The player who owns tile `t`, where there is one.
    pub open spec fn owner(&self, t: usize) -> int {
        choose|j: int| 0 <= j < self.players.len() && #[trigger] self.players[j].owns(t)
    }
}

/// Every player of `post` but `a` and `b` is as in `pre`.
pub open spec fn others_same(pre: Game, post: Game, a: int, b: int) -> bool {
    &&& post.players.len() == pre.players.len()
    &&& forall|i: int|
        0 <= i < pre.players.len() && i != a && i != b ==> same_player(
            #[trigger] pre.players[i],
            post.players[i],
        )
}

/// What landing on tile `t` does to player `p` of `pre`, with `delta` the
/// cash change a chance tile brings.
pub open spec fn landed(pre: Game, post: Game, p: int, t: usize, delta: int) -> bool {
    let a = pre.players[p];
    let b = post.players[p];
    &&& post.board@ == pre.board@
    &&& post.current_turn == pre.current_turn
    &&& match pre.board[t as int].kind {
        TileKind::Bank => {
            &&& post.district_shop_count@ == pre.district_shop_count@
            &&& others_same(pre, post, p, p)
            &&& if a.suits.count() == 4 {
                &&& b.level == a.level + 1
                &&& b.suits == SuitSet { spade: false, heart: false, diamond: false, club: false }
                &&& b.cash == a.cash + salary(a.worth(pre.board@))
                &&& b.name@ == a.name@
                &&& b.kind == a.kind
                &&& b.stocks@ == a.stocks@
                &&& b.properties@ == a.properties@
                &&& b.position == a.position
            } else {
                same_player(a, b)
            }
        },
        TileKind::Property { district, price, base_fee } => {
            if pre.has_owner(t) {
                let o = pre.owner(t);
                &&& post.district_shop_count@ == pre.district_shop_count@
                &&& others_same(pre, post, p, o)
                &&& if o == p {
                    same_player(a, b)
                } else {
                    &&& same_but_cash(a, b)
                    &&& b.cash == a.cash - base_fee
                    &&& same_but_cash(pre.players[o], post.players[o])
                    &&& post.players[o].cash == pre.players[o].cash + base_fee
                }
            } else if a.cash >= price {
                &&& others_same(pre, post, p, p)
                &&& b.cash == a.cash - price
                &&& b.properties@ == a.properties@.push(t)
                &&& b.name@ == a.name@
                &&& b.kind == a.kind
                &&& b.stocks@ == a.stocks@
                &&& b.suits == a.suits
                &&& b.position == a.position
                &&& b.level == a.level
                &&& post.district_shop_count@ == pre.district_shop_count@.update(
                    district.slot() as int,
                    (pre.district_shop_count[district.slot() as int] + 1) as u64,
                )
            } else {
                &&& post.district_shop_count@ == pre.district_shop_count@
                &&& others_same(pre, post, p, p)
                &&& same_player(a, b)
            }
        },
        TileKind::Suit(s) => {
            &&& post.district_shop_count@ == pre.district_shop_count@
            &&& others_same(pre, post, p, p)
            &&& b.suits == a.suits.with(s)
            &&& b.cash == a.cash
            &&& b.name@ == a.name@
            &&& b.kind == a.kind
            &&& b.stocks@ == a.stocks@
            &&& b.properties@ == a.properties@
            &&& b.position == a.position
            &&& b.level == a.level
        },
        TileKind::Chance => {
            &&& post.district_shop_count@ == pre.district_shop_count@
            &&& others_same(pre, post, p, p)
            &&& same_but_cash(a, b)
            &&& b.cash == a.cash + delta
        },
    }
}

impl Game {
    /// The player who owns tile `t`, if any.
    pub fn find_owner(&self, t: usize) -> (r: Option<usize>)
        requires
            self.wf(),
        ensures
            r.is_none() <==> !self.has_owner(t),
            r.is_some() ==> r.unwrap() < self.players.len() && r.unwrap() == self.owner(t)
                && self.players[r.unwrap() as int].owns(t),
    {
        let mut j: usize = 0;
        while j < self.players.len()
            invariant
                self.wf(),
                j <= self.players.len(),
                forall|k: int| 0 <= k < j ==> !(#[trigger] self.players[k]).owns(t),
            decreases self.players.len() - j,
        {
            if self.players[j].owns_tile(t) {
                assert(self.players[j as int].owns(t));
                assert(self.has_owner(t));
                let ghost o = self.owner(t);
                assert(self.players[o].owns(t));
                assert(o == j);
                return Some(j);
            }
            j = j + 1;
        }
        None
    }

    proof fn lemma_holdings_kept(&self, pre: Game)
        requires
            pre.wf(),
            self.board@ == pre.board@,
            if self.players.len() == 0 {
                self.current_turn == 0
            } else {
                self.current_turn < self.players.len()
            },
            self.district_shop_count.len() == DISTRICT_COUNT,
            self.players.len() == pre.players.len(),
            forall|i: int|
                0 <= i < self.players.len() ==> (#[trigger] self.players[i]).properties@
                    == pre.players[i].properties@ && self.players[i].position < self.board.len(),
        ensures
            self.wf(),
    {
        assert forall|i: int, j: int, u: usize|
            0 <= i < self.players.len() && 0 <= j < self.players.len() && i != j implies !(
            #[trigger] self.players[i].owns(u) && #[trigger] self.players[j].owns(u)) by {
            assert(self.players[i].properties@ == pre.players[i].properties@);
            assert(self.players[j].properties@ == pre.players[j].properties@);
            assert(!(pre.players[i].owns(u) && pre.players[j].owns(u)));
        }
    }

    proof fn lemma_purchase_keeps_wf(&self, pre: Game, p: int, t: usize)
        requires
            pre.wf(),
            0 <= p < pre.players.len(),
            t < pre.board.len(),
            !pre.has_owner(t),
            self.board@ == pre.board@,
            self.current_turn == pre.current_turn,
            self.district_shop_count.len() == DISTRICT_COUNT,
            others_same(pre, *self, p, p),
            self.players[p].properties@ == pre.players[p].properties@.push(t),
            self.players[p].position == pre.players[p].position,
        ensures
            self.wf(),
    {
        assert forall|i: int| 0 <= i < self.players.len() implies {
            &&& (#[trigger] self.players[i]).position < self.board.len()
            &&& self.players[i].properties@.no_duplicates()
            &&& forall|k: int|
                0 <= k < self.players[i].properties.len() ==> #[trigger] self.players[i].properties[k]
                    < self.board.len()
        } by {
            if i == p {
                assert(!pre.players[p].owns(t));
                let q = self.players[i].properties@;
                assert forall|k: int| 0 <= k < q.len() implies q[k] < self.board.len() by {
                    if k < q.len() - 1 {
                        assert(q[k] == pre.players[p].properties@[k]);
                    }
                }
            } else {
                assert(same_player(pre.players[i], self.players[i]));
            }
        }
        assert forall|i: int, j: int, u: usize|
            0 <= i < self.players.len() && 0 <= j < self.players.len() && i != j implies !(
            #[trigger] self.players[i].owns(u) && #[trigger] self.players[j].owns(u)) by {
            if self.players[i].owns(u) && self.players[j].owns(u) {
                if i != p {
                    assert(same_player(pre.players[i], self.players[i]));
                }
                if j != p {
                    assert(same_player(pre.players[j], self.players[j]));
                }
                if u == t {
                    if i != p {
                        assert(pre.players[i].owns(t));
                    } else {
                        assert(pre.players[j].owns(t));
                    }
                } else {
                    if i == p {
                        assert(pre.players[p].properties@.push(t).contains(u));
                        assert(pre.players[p].owns(u));
                    }
                    if j == p {
                        assert(pre.players[p].properties@.push(t).contains(u));
                        assert(pre.players[p].owns(u));
                    }
                    assert(pre.players[i].owns(u) && pre.players[j].owns(u));
                }
            }
        }
    }

    /// A session on the standard board with one human and two bots, each
    /// holding the starting cash.
    pub fn new() -> (r: Game)
        ensures
            r.wf(),
            r.fits(),
            r.within(STOCK_BOUND as int, 0),
            r.board.len() == crate::board::TRACK_LEN,
            forall|i: int|
                0 <= i < r.board.len() ==> (#[trigger] r.board[i]).kind == standard_kind(i) && (r.board[i].col,
                r.board[i].row) == track_cell(i),
            r.players.len() == 3,
            r.players[0].name@ == "Hero"@,
            r.players[1].name@ == "Bot A"@,
            r.players[2].name@ == "Bot B"@,
            r.players[0].kind == PlayerKind::Human,
            r.players[1].kind == PlayerKind::Bot,
            r.players[2].kind == PlayerKind::Bot,
            forall|i: int|
                0 <= i < r.players.len() ==> {
                    &&& (#[trigger] r.players[i]).cash == STARTING_CASH
                    &&& r.players[i].position == 0
                    &&& r.players[i].level == 0
                    &&& r.players[i].properties@.len() == 0
                    &&& r.players[i].suits.count() == 0
                    &&& r.players[i].stocks@ == seq![0i64, 0i64, 0i64, 0i64]
                },
            r.current_turn == 0,
            r.district_shop_count@ == seq![0u64, 0u64, 0u64, 0u64],
    {
        let board = generate_board();
        let mut players: Vec<PlayerState> = Vec::new();
        players.push(PlayerState::new(String::from_str("Hero"), PlayerKind::Human, STARTING_CASH));
        players.push(PlayerState::new(String::from_str("Bot A"), PlayerKind::Bot, STARTING_CASH));
        players.push(PlayerState::new(String::from_str("Bot B"), PlayerKind::Bot, STARTING_CASH));
        let g = Game { board, players, current_turn: 0, district_shop_count: vec![0u64, 0u64, 0u64, 0u64] };
        proof {
            assert forall|i: int| 0 <= i < g.players.len() implies (#[trigger] g.players[i]).within(
                g.board@,
                STOCK_BOUND as int,
                0,
            ) by {
                assert(g.players[i].properties@ =~= Seq::<usize>::empty());
            }
            assert forall|i: int| 0 <= i < g.players.len() implies (#[trigger] g.players[i]).fits(g.board@) by {
                assert(g.players[i].within(g.board@, STOCK_BOUND as int, 0));
            }
        }
        g
    }

    /// Applies the rule of tile `t` to player `p`: a full suit set cashes
    /// out at the bank, a property is bought or its fee paid to its owner, a
    /// suit is collected, a chance tile changes cash by `chance_delta`.
    pub fn handle_tile(&mut self, t: usize, p: usize, chance_delta: i64)
        requires
            old(self).wf(),
            old(self).fits(),
            p < old(self).players.len(),
            t < old(self).board.len(),
            CHANCE_MIN <= chance_delta <= CHANCE_MAX,
        ensures
            final(self).wf(),
            landed(*old(self), *final(self), p as int, t, chance_delta as int),
    {
        let ghost pre = *self;
        let kind = self.board[t].kind;
        match kind {
            TileKind::Bank => {
                if self.players[p].suits.len() == 4 {
                    let worth = self.players[p].net_worth(&self.board);
                    proof { self.players[p as int].lemma_worth_bounds(self.board@); }
                    let tenth: i64 = if worth >= 0 {
                        ((worth as u64) / 10) as i64
                    } else {
                        let m: u64 = (-worth) as u64;
                        -(((m + 9) / 10) as i64)
                    };
                    assert(tenth == worth as int / 10);
                    let pay = BASE_SALARY + tenth;
                    let cash = self.players[p].cash + pay;
                    let level = self.players[p].level + 1;
                    self.players[p].level = level;
                    self.players[p].cash = cash;
                    self.players[p].suits = SuitSet::new();
                }
                proof { self.lemma_holdings_kept(pre); }
            },
            TileKind::Property { district, price, base_fee } => {
                match self.find_owner(t) {
                    Some(o) => {
                        if o != p {
                            let paid = self.players[p].cash - base_fee as i64;
                            self.players[p].cash = paid;
                            let got = self.players[o].cash + base_fee as i64;
                            self.players[o].cash = got;
                        }
                        proof { self.lemma_holdings_kept(pre); }
                    },
                    None => {
                        if self.players[p].cash >= price as i64 {
                            let left = self.players[p].cash - price as i64;
                            self.players[p].cash = left;
                            self.players[p].properties.push(t);
                            let d = district.index();
                            let n = self.district_shop_count[d] + 1;
                            self.district_shop_count.set(d, n);
                            proof { self.lemma_purchase_keeps_wf(pre, p as int, t); }
                        } else {
                            proof { self.lemma_holdings_kept(pre); }
                        }
                    },
                }
            },
            TileKind::Suit(s) => {
                self.players[p].suits.insert(s);
                proof { self.lemma_holdings_kept(pre); }
            },
            TileKind::Chance => {
                let cash = self.players[p].cash + chance_delta;
                self.players[p].cash = cash;
                proof { self.lemma_holdings_kept(pre); }
            },
        }
    }

    /// Moves player `p` forward by `roll` tiles around the loop and applies
    /// the rule of the tile it lands on.
    pub fn advance_player(&mut self, p: usize, roll: u64, chance_delta: i64)
        requires
            old(self).wf(),
            old(self).fits(),
            p < old(self).players.len(),
            CHANCE_MIN <= chance_delta <= CHANCE_MAX,
        ensures
            final(self).wf(),
            final(self).players[p as int].position == (old(self).players[p as int].position + roll)
                % (old(self).board.len() as int),
            advanced(*old(self), *final(self), p as int, roll as int, chance_delta as int),
    {
        let ghost pre = *self;
        let len = self.board.len();
        let to = ((self.players[p].position as u128 + roll as u128) % (len as u128)) as usize;
        self.players[p].position = to;
        let ghost mid = *self;
        proof {
            self.lemma_holdings_kept(pre);
            assert(self.fits()) by {
                assert forall|i: int| 0 <= i < self.players.len() implies (
                #[trigger] self.players[i]).fits(self.board@) by {
                    assert(pre.players[i].fits(pre.board@));
                }
            }
        }
        self.handle_tile(to, p, chance_delta);
        proof {
            assert(moved(pre, mid, p as int, roll as int));
            let b = self.players[p as int];
            let a = mid.players[p as int];
            assert(b.position == a.position);
        }
    }

    /// Plays one turn: the active player moves by `roll` and resolves the
    /// tile it lands on, then the turn passes to the next player. Without
    /// players nothing happens.
    pub fn take_turn(&mut self, roll: u64, chance_delta: i64)
        requires
            old(self).wf(),
            old(self).fits(),
            CHANCE_MIN <= chance_delta <= CHANCE_MAX,
        ensures
            final(self).wf(),
            turn_taken(*old(self), *final(self), roll as int, chance_delta as int),
    {
        if self.players.len() == 0 {
            return;
        }
        let ghost pre = *self;
        let p = self.current_turn;
        self.advance_player(p, roll, chance_delta);
        let ghost mid = *self;
        self.current_turn = (self.current_turn + 1) % self.players.len();
        proof {
            assert(advanced(pre, mid, p as int, roll as int, chance_delta as int));
            self.lemma_holdings_kept(mid);
        }
    }

    /// Passes the turn to the next player without playing.
    fn pass_turn(&mut self)
        requires
            old(self).wf(),
            old(self).players.len() > 0,
        ensures
            final(self).wf(),
            final(self).board@ == old(self).board@,
            final(self).players@ == old(self).players@,
            final(self).district_shop_count@ == old(self).district_shop_count@,
            final(self).current_turn == (old(self).current_turn + 1) % (old(self).players.len() as int),
    {
        let ghost pre = *self;
        self.current_turn = (self.current_turn + 1) % self.players.len();
        proof { self.lemma_holdings_kept(pre); }
    }

    /// One tick of automated play: a bot whose turn it is plays with `roll`
    /// and `chance_delta`; a human's turn is passed.
    pub fn bot_turn(&mut self, roll: u64, chance_delta: i64)
        requires
            old(self).wf(),
            old(self).fits(),
            CHANCE_MIN <= chance_delta <= CHANCE_MAX,
        ensures
            final(self).wf(),
            bot_turn_taken(*old(self), *final(self), roll as int, chance_delta as int),
    {
        if self.players.len() == 0 {
            return;
        }
        let current = self.current_turn % self.players.len();
        proof { lemma_small_mod(self.current_turn as nat, self.players.len() as nat); }
        if self.players[current].kind != PlayerKind::Bot {
            self.pass_turn();
        } else {
            self.take_turn(roll, chance_delta);
        }
    }
}

/// `mid` is `pre` with player `p` moved forward by `roll` around the loop.
pub open spec fn moved(pre: Game, mid: Game, p: int, roll: int) -> bool {
    &&& mid.board@ == pre.board@
    &&& mid.current_turn == pre.current_turn
    &&& mid.district_shop_count@ == pre.district_shop_count@
    &&& others_same(pre, mid, p, p)
    &&& same_but_position(pre.players[p], mid.players[p])
    &&& mid.players[p].position == (pre.players[p].position + roll) % (pre.board.len() as int)
}

/// `post` is `pre` after player `p` moved by `roll` and resolved the tile it
/// landed on.
pub open spec fn advanced(pre: Game, post: Game, p: int, roll: int, delta: int) -> bool {
    exists|mid: Game| #[trigger]
        moved(pre, mid, p, roll) && landed(mid, post, p, mid.players[p].position, delta)
}

/// `post` is `pre` after one turn with the given roll and chance draw.
pub open spec fn turn_taken(pre: Game, post: Game, roll: int, delta: int) -> bool {
    if pre.players.len() == 0 {
        post == pre
    } else {
        &&& post.players.len() == pre.players.len()
        &&& post.current_turn == (pre.current_turn + 1) % (pre.players.len() as int)
        &&& post.players[pre.current_turn as int].position == (pre.players[pre.current_turn as int].position
            + roll) % (pre.board.len() as int)
        &&& exists|mid: Game| #[trigger]
            advanced(pre, mid, pre.current_turn as int, roll, delta) && post.board@ == mid.board@
                && post.players@ == mid.players@ && post.district_shop_count@ == mid.district_shop_count@
    }
}

/// `post` is `pre` after one tick of automated play.
pub open spec fn bot_turn_taken(pre: Game, post: Game, roll: int, delta: int) -> bool {
    if pre.players.len() > 0 && pre.players[pre.current_turn as int].kind != PlayerKind::Bot {
        &&& post.board@ == pre.board@
        &&& post.players@ == pre.players@
        &&& post.district_shop_count@ == pre.district_shop_count@
        &&& post.current_turn == (pre.current_turn + 1) % (pre.players.len() as int)
    } else {
        turn_taken(pre, post, roll, delta)
    }
}

impl Game {
    fn board_ok(&self) -> (r: bool)
        ensures
            r == board_wf(self.board@),
    {
        if self.board.len() == 0 {
            return false;
        }
        let mut i: usize = 0;
        while i < self.board.len()
            invariant
                i <= self.board.len(),
                forall|k: int| 0 <= k < i ==> (#[trigger] self.board@[k]).index == k && self.board@[k].kind.wf(),
            decreases self.board.len() - i,
        {
            let t = self.board[i];
            if t.index != i {
                return false;
            }
            match t.kind {
                TileKind::Property { price, base_fee, .. } => {
                    if price == 0 || base_fee == 0 {
                        return false;
                    }
                },
                _ => {},
            }
            i = i + 1;
        }
        true
    }

    /// Whether player `i` sits on the board and holds distinct tiles of it.
    fn holdings_ok(&self, i: usize) -> (r: bool)
        requires
            i < self.players.len(),
        ensures
            r == ({
                &&& self.players[i as int].position < self.board.len()
                &&& self.players[i as int].properties@.no_duplicates()
                &&& forall|k: int|
                    0 <= k < self.players[i as int].properties.len() ==> #[trigger] self.players[i as int].properties[k]
                        < self.board.len()
            }),
    {
        let p = &self.players[i];
        if p.position >= self.board.len() {
            return false;
        }
        let mut k: usize = 0;
        while k < p.properties.len()
            invariant
                p == &self.players[i as int],
                k <= p.properties.len(),
                forall|a: int| 0 <= a < k ==> #[trigger] p.properties@[a] < self.board.len(),
                forall|a: int, b: int| 0 <= a < b < k ==> p.properties@[a] != p.properties@[b],
            decreases p.properties.len() - k,
        {
            let t = p.properties[k];
            if t >= self.board.len() {
                return false;
            }
            let mut m: usize = 0;
            while m < k
                invariant
                    p == &self.players[i as int],
                    m <= k < p.properties.len(),
                    t == p.properties@[k as int],
                    forall|a: int| 0 <= a < m ==> p.properties@[a] != t,
                decreases k - m,
            {
                if p.properties[m] == t {
                    return false;
                }
                m = m + 1;
            }
            k = k + 1;
        }
        true
    }

    /// Whether no tile owned by player `i` is owned by another player.
    fn exclusive_for(&self, i: usize) -> (r: bool)
        requires
            i < self.players.len(),
        ensures
            r == forall|j: int, t: usize|
                0 <= j < self.players.len() && j != i ==> !(#[trigger] self.players[i as int].owns(t)
                    && #[trigger] self.players[j].owns(t)),
    {
        let p = &self.players[i];
        let mut k: usize = 0;
        while k < p.properties.len()
            invariant
                p == &self.players[i as int],
                k <= p.properties.len(),
                forall|a: int, j: int|
                    0 <= a < k && 0 <= j < self.players.len() && j != i ==> !(#[trigger] self.players[j].owns(
                        p.properties@[a],
                    )),
            decreases p.properties.len() - k,
        {
            let t = p.properties[k];
            let mut j: usize = 0;
            while j < self.players.len()
                invariant
                    p == &self.players[i as int],
                    k < p.properties.len(),
                    t == p.properties@[k as int],
                    j <= self.players.len(),
                    forall|a: int, jj: int|
                        0 <= a < k && 0 <= jj < self.players.len() && jj != i ==> !(
                        #[trigger] self.players[jj].owns(p.properties@[a])),
                    forall|jj: int| 0 <= jj < j && jj != i ==> !(#[trigger] self.players[jj].owns(t)),
                decreases self.players.len() - j,
            {
                if j != i && self.players[j].owns_tile(t) {
                    assert(p.owns(t));
                    return false;
                }
                j = j + 1;
            }
            k = k + 1;
        }
        assert forall|j: int, t: usize|
            0 <= j < self.players.len() && j != i implies !(#[trigger] self.players[i as int].owns(t)
                && #[trigger] self.players[j].owns(t)) by {
            if p.owns(t) {
                let a = choose|a: int| 0 <= a < p.properties@.len() && p.properties@[a] == t;
                assert(!self.players[j].owns(p.properties@[a]));
            }
        }
        true
    }
}

impl Game {
    /// Whether player `i`'s numbers are within the bounds of `fits`.
    fn player_fits(&self, i: usize) -> (r: bool)
        requires
            i < self.players.len(),
        ensures
            r == self.players[i as int].fits(self.board@),
    {
        let p = &self.players[i];
        if p.cash < -CASH_BOUND || p.cash > CASH_BOUND || p.level == u32::MAX || p.stocks.len() != DISTRICT_COUNT {
            return false;
        }
        let mut k: usize = 0;
        while k < p.stocks.len()
            invariant
                p == &self.players[i as int],
                k <= p.stocks.len(),
                forall|a: int| 0 <= a < k ==> -STOCK_BOUND <= #[trigger] p.stocks@[a] <= STOCK_BOUND,
            decreases p.stocks.len() - k,
        {
            if p.stocks[k] < -STOCK_BOUND || p.stocks[k] > STOCK_BOUND {
                return false;
            }
            k = k + 1;
        }
        let mut sum: i64 = 0;
        let mut n: usize = 0;
        while n < p.properties.len()
            invariant
                p == &self.players[i as int],
                n <= p.properties.len(),
                sum == property_value(self.board@, p.properties@.take(n as int)),
                0 <= sum <= CASH_BOUND,
            decreases p.properties.len() - n,
        {
            proof {
                assert(p.properties@.take(n + 1).drop_last() =~= p.properties@.take(n as int));
            }
            let t = p.properties[n];
            let price: i64 = if t < self.board.len() {
                match self.board[t].kind {
                    TileKind::Property { price, .. } => price as i64,
                    _ => 0,
                }
            } else {
                0
            };
            sum = sum + price;
            n = n + 1;
            if sum > CASH_BOUND {
                proof { lemma_property_value_prefix(self.board@, p.properties@, n as int); }
                return false;
            }
        }
        assert(p.properties@.take(n as int) =~= p.properties@);
        true
    }

    /// Whether the session meets its invariants and its numbers are small
    /// enough for a turn: exactly the preconditions of `take_turn`, apart
    /// from the chance draw.
    pub fn is_valid(&self) -> (r: bool)
        ensures
            r == (self.wf() && self.fits()),
    {
        if !self.board_ok() || self.district_shop_count.len() != DISTRICT_COUNT {
            return false;
        }
        if self.players.len() == 0 {
            if self.current_turn != 0 {
                return false;
            }
        } else if self.current_turn >= self.players.len() {
            return false;
        }
        let mut i: usize = 0;
        while i < self.players.len()
            invariant
                i <= self.players.len(),
                forall|a: int| 0 <= a < i ==> {
                    &&& (#[trigger] self.players[a]).position < self.board.len()
                    &&& self.players[a].properties@.no_duplicates()
                    &&& forall|k: int|
                        0 <= k < self.players[a].properties.len() ==> #[trigger] self.players[a].properties[k]
                            < self.board.len()
                },
                forall|a: int, j: int, t: usize|
                    0 <= a < i && 0 <= j < self.players.len() && j != a ==> !(
                    #[trigger] self.players[a].owns(t) && #[trigger] self.players[j].owns(t)),
                forall|a: int| 0 <= a < i ==> (#[trigger] self.players[a]).fits(self.board@),
            decreases self.players.len() - i,
        {
            if !self.holdings_ok(i) || !self.exclusive_for(i) || !self.player_fits(i) {
                return false;
            }
            i = i + 1;
        }
        let mut d: usize = 0;
        while d < self.district_shop_count.len()
            invariant
                d <= self.district_shop_count.len(),
                forall|a: int| 0 <= a < d ==> #[trigger] self.district_shop_count@[a] < u64::MAX,
            decreases self.district_shop_count.len() - d,
        {
            if self.district_shop_count[d] == u64::MAX {
                return false;
            }
            d = d + 1;
        }
        true
    }
}

} // verus!
