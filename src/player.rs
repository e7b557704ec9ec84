use vstd::prelude::*;
use crate::board::{board_wf, SuitSet, Tile, TileKind, DISTRICT_COUNT};

verus! {

/// Who drives a player.
#[derive(Debug, Clone, Copy, PartialEq, Eq, Structural)]
pub enum PlayerKind {
    Human,
    Bot,
}

impl Default for PlayerKind {
    fn default() -> (r: PlayerKind)
        ensures
            r == PlayerKind::Human,
    {
        PlayerKind::Human
    }
}

/// Largest cash, property value or stock value magnitude for which a turn is
/// guaranteed to stay within machine integers.
pub const CASH_BOUND: i64 = 0x1000_0000_0000_0000;

/// Largest magnitude of a single stock holding.
pub const STOCK_BOUND: i64 = 0x0100_0000_0000_0000;

/// A player's ledger.
#[derive(Debug)]
pub struct PlayerState {
    pub name: String,
    pub kind: PlayerKind,
    pub cash: i64,
    /// Invested amount per district, indexed by `District::index`.
    pub stocks: Vec<i64>,
    /// Owned tile indices, in order of purchase.
    pub properties: Vec<usize>,
    pub suits: SuitSet,
    pub position: usize,
    pub level: u32,
}

/// The price of tile `t` if it is a property, else nothing.
pub open spec fn tile_price(board: Seq<Tile>, t: int) -> int {
    if 0 <= t < board.len() {
        match board[t].kind {
            TileKind::Property { price, .. } => price as int,
            _ => 0,
        }
    } else {
        0
    }
}

/// The summed prices of the listed tiles.
pub open spec fn property_value(board: Seq<Tile>, props: Seq<usize>) -> int
    decreases props.len(),
{
    if props.len() == 0 {
        0
    } else {
        property_value(board, props.drop_last()) + tile_price(board, props.last() as int)
    }
}

/// The summed stock holdings.
pub open spec fn stock_value(stocks: Seq<i64>) -> int
    decreases stocks.len(),
{
    if stocks.len() == 0 {
        0
    } else {
        stock_value(stocks.drop_last()) + stocks.last() as int
    }
}

/// Base of the bank salary.
pub const BASE_SALARY: i64 = 500;

/// Bank salary paid for a given net worth: the base plus a tenth of the net
/// worth, rounded down.
pub open spec fn salary(net_worth: int) -> int {
    BASE_SALARY + net_worth / 10
}

/// Prices are never negative, so a prefix of the holdings is worth at most
/// the whole.
pub proof fn lemma_property_value_prefix(board: Seq<Tile>, props: Seq<usize>, i: int)
    requires
        0 <= i <= props.len(),
    ensures
        property_value(board, props.take(i)) <= property_value(board, props),
        property_value(board, props.take(i)) >= 0,
    decreases props.len(),
{
    if props.len() > 0 {
        if i == props.len() {
            assert(props.take(i) =~= props);
            lemma_property_value_prefix(board, props.drop_last(), i - 1);
            assert(props.drop_last().take(i - 1) =~= props.drop_last());
        } else {
            lemma_property_value_prefix(board, props.drop_last(), i);
            assert(props.drop_last().take(i) =~= props.take(i));
        }
        assert(tile_price(board, props.last() as int) >= 0);
    }
}

/// Bounded holdings have a bounded sum.
pub proof fn lemma_stock_value_bound(stocks: Seq<i64>)
    requires
        forall|k: int| 0 <= k < stocks.len() ==> -STOCK_BOUND <= #[trigger] stocks[k] <= STOCK_BOUND,
    ensures
        -0x0100_0000_0000_0000 * stocks.len() <= stock_value(stocks) <= 0x0100_0000_0000_0000 * stocks.len(),
    decreases stocks.len(),
{
    if stocks.len() > 0 {
        lemma_stock_value_bound(stocks.drop_last());
        assert(stocks.last() == stocks[stocks.len() - 1]);
    }
}

impl PlayerState {
    /// The parts of the net worth of a player within bounds, and their sum.
    pub proof fn lemma_worth_bounds(&self, board: Seq<Tile>)
        requires
            self.worth_fits(board),
        ensures
            0 <= property_value(board, self.properties@) <= CASH_BOUND,
            -0x0400_0000_0000_0000 <= stock_value(self.stocks@) <= 0x0400_0000_0000_0000,
            -0x1400_0000_0000_0000 <= self.worth(board) <= 0x2400_0000_0000_0000,
    {
        lemma_property_value_prefix(board, self.properties@, 0);
        assert(self.properties@.take(0) =~= Seq::<usize>::empty());
        lemma_stock_value_bound(self.stocks@);
    }

    /// A player at the start: given cash, on tile 0, holding nothing.
    pub fn new(name: String, kind: PlayerKind, cash: i64) -> (r: PlayerState)
        ensures
            r.name@ == name@,
            r.kind == kind,
            r.cash == cash,
            r.stocks@ == seq![0i64, 0i64, 0i64, 0i64],
            r.properties@.len() == 0,
            r.suits.count() == 0,
            r.position == 0,
            r.level == 0,
    {
        let stocks = vec![0i64, 0i64, 0i64, 0i64];
        PlayerState {
            name,
            kind,
            cash,
            stocks,
            properties: Vec::new(),
            suits: SuitSet::new(),
            position: 0,
            level: 0,
        }
    }

    /// Cash plus the prices of owned properties plus stock holdings.
    pub open spec fn worth(&self, board: Seq<Tile>) -> int {
        self.cash + property_value(board, self.properties@) + stock_value(self.stocks@)
    }

    /// The magnitudes stay small enough for any turn to be computed exactly.
    pub open spec fn fits(&self, board: Seq<Tile>) -> bool {
        &&& self.worth_fits(board)
        &&& self.level < u32::MAX
    }

    /// Cash, property value and each of the district stock holdings are
    /// small enough for the net worth to be computed exactly.
    pub open spec fn worth_fits(&self, board: Seq<Tile>) -> bool {
        &&& -CASH_BOUND <= self.cash <= CASH_BOUND
        &&& property_value(board, self.properties@) <= CASH_BOUND
        &&& self.stocks.len() == DISTRICT_COUNT
        &&& forall|k: int| 0 <= k < self.stocks.len() ==> -STOCK_BOUND <= #[trigger] self.stocks[k] <= STOCK_BOUND
    }

    /// Cash and property value are at most `b` in magnitude, stock holdings
    /// are within their bound, and the level is at most `m`.
    pub open spec fn within(&self, board: Seq<Tile>, b: int, m: int) -> bool {
        &&& -b <= self.cash <= b
        &&& property_value(board, self.properties@) <= b
        &&& self.stocks.len() == DISTRICT_COUNT
        &&& forall|k: int| 0 <= k < self.stocks.len() ==> -STOCK_BOUND <= #[trigger] self.stocks[k] <= STOCK_BOUND
        &&& self.level <= m
    }

    /// Every owned tile is a tile of the board.
    pub open spec fn holds_on(&self, board: Seq<Tile>) -> bool {
        forall|k: int| 0 <= k < self.properties.len() ==> #[trigger] self.properties[k] < board.len()
    }

    /// Cash plus the prices of owned properties plus stock holdings.
    pub fn net_worth(&self, board: &Vec<Tile>) -> (r: i64)
        requires
            self.worth_fits(board@),
            self.holds_on(board@),
        ensures
            r == self.worth(board@),
    {
        let mut props: i64 = 0;
        let mut i: usize = 0;
        while i < self.properties.len()
            invariant
                self.worth_fits(board@),
                self.holds_on(board@),
                i <= self.properties.len(),
                props == property_value(board@, self.properties@.take(i as int)),
            decreases self.properties.len() - i,
        {
            proof {
                lemma_property_value_prefix(board@, self.properties@, i + 1);
                assert(self.properties@.take(i + 1).drop_last() =~= self.properties@.take(i as int));
            }
            let t = self.properties[i];
            let price: i64 = match board[t].kind {
                TileKind::Property { price, .. } => price as i64,
                _ => 0,
            };
            props = props + price;
            i = i + 1;
        }
        assert(self.properties@.take(i as int) =~= self.properties@);
        proof { lemma_property_value_prefix(board@, self.properties@, i as int); }
        let mut stocks: i64 = 0;
        let mut k: usize = 0;
        while k < self.stocks.len()
            invariant
                self.worth_fits(board@),
                k <= self.stocks.len(),
                stocks == stock_value(self.stocks@.take(k as int)),
                STOCK_BOUND == 0x0100_0000_0000_0000,
                -0x0100_0000_0000_0000 * (k as int) <= stocks <= 0x0100_0000_0000_0000 * (k as int),
            decreases self.stocks.len() - k,
        {
            assert(self.stocks@.take(k + 1).drop_last() =~= self.stocks@.take(k as int));
            stocks = stocks + self.stocks[k];
            k = k + 1;
        }
        assert(self.stocks@.take(k as int) =~= self.stocks@);
        self.cash + props + stocks
    }
}

} // verus!

verus! {

/// `b` holds what `a` holds, except possibly its cash.
pub open spec fn same_but_cash(a: PlayerState, b: PlayerState) -> bool {
    &&& b.name@ == a.name@
    &&& b.kind == a.kind
    &&& b.stocks@ == a.stocks@
    &&& b.properties@ == a.properties@
    &&& b.suits == a.suits
    &&& b.position == a.position
    &&& b.level == a.level
}

/// `b` holds what `a` holds, except possibly its position.
pub open spec fn same_but_position(a: PlayerState, b: PlayerState) -> bool {
    &&& b.name@ == a.name@
    &&& b.kind == a.kind
    &&& b.cash == a.cash
    &&& b.stocks@ == a.stocks@
    &&& b.properties@ == a.properties@
    &&& b.suits == a.suits
    &&& b.level == a.level
}

/// `b` holds exactly what `a` holds.
pub open spec fn same_player(a: PlayerState, b: PlayerState) -> bool {
    same_but_cash(a, b) && b.cash == a.cash
}

impl PlayerState {
    /// Whether tile `t` is among the owned properties.
    pub open spec fn owns(&self, t: usize) -> bool {
        self.properties@.contains(t)
    }

    /// Whether tile `t` is among the owned properties.
    pub fn owns_tile(&self, t: usize) -> (r: bool)
        ensures
            r == self.owns(t),
    {
        let mut i: usize = 0;
        while i < self.properties.len()
            invariant
                i <= self.properties.len(),
                forall|k: int| 0 <= k < i ==> self.properties[k] != t,
            decreases self.properties.len() - i,
        {
            if self.properties[i] == t {
                return true;
            }
            i = i + 1;
        }
        false
    }
}

} // verus!
