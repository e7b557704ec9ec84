use vstd::prelude::*;

verus! {

/// One of the four collectible suits.
#[derive(Debug, Clone, Copy, PartialEq, Eq, Hash, Structural)]
pub enum Suit {
    Spade,
    Heart,
    Diamond,
    Club,
}


/// The distinct suits a player holds: one flag per suit.
#[derive(Debug, Clone, Copy, PartialEq, Eq, Structural)]
pub struct SuitSet {
    pub spade: bool,
    pub heart: bool,
    pub diamond: bool,
    pub club: bool,
}

impl SuitSet {
    pub open spec fn has(self, s: Suit) -> bool {
        match s {
            Suit::Spade => self.spade,
            Suit::Heart => self.heart,
            Suit::Diamond => self.diamond,
            Suit::Club => self.club,
        }
    }

    /// The set of suits held.
    pub open spec fn view(self) -> Set<Suit> {
        let s0 = Set::<Suit>::empty();
        let s1 = if self.spade { s0.insert(Suit::Spade) } else { s0 };
        let s2 = if self.heart { s1.insert(Suit::Heart) } else { s1 };
        let s3 = if self.diamond { s2.insert(Suit::Diamond) } else { s2 };
        if self.club { s3.insert(Suit::Club) } else { s3 }
    }

    /// The set view is finite, holds exactly the flagged suits, and has
    /// `count` elements.
    pub proof fn lemma_view(self)
        ensures
            self@.finite(),
            forall|s: Suit| #[trigger] self@.contains(s) <==> self.has(s),
            self@.len() == self.count(),
    {
    }

    /// How many distinct suits are held.
    pub open spec fn count(self) -> nat {
        (if self.spade { 1nat } else { 0nat }) + (if self.heart { 1nat } else { 0nat }) + (if self.diamond {
            1nat
        } else {
            0nat
        }) + (if self.club { 1nat } else { 0nat })
    }

    /// The set with `s` added.
    pub open spec fn with(self, s: Suit) -> SuitSet {
        match s {
            Suit::Spade => SuitSet { spade: true, ..self },
            Suit::Heart => SuitSet { heart: true, ..self },
            Suit::Diamond => SuitSet { diamond: true, ..self },
            Suit::Club => SuitSet { club: true, ..self },
        }
    }

    /// The empty set.
    pub fn new() -> (r: SuitSet)
        ensures
            r.count() == 0,
            r@ == Set::<Suit>::empty(),
    {
        SuitSet { spade: false, heart: false, diamond: false, club: false }
    }

    /// Whether suit `s` is held.
    pub fn contains(&self, s: Suit) -> (r: bool)
        ensures
            r == self@.contains(s),
    {
        proof { self.lemma_view(); }
        match s {
            Suit::Spade => self.spade,
            Suit::Heart => self.heart,
            Suit::Diamond => self.diamond,
            Suit::Club => self.club,
        }
    }

    /// Adds suit `s`; adding a held suit changes nothing.
    pub fn insert(&mut self, s: Suit)
        ensures
            *final(self) == old(self).with(s),
            final(self)@ == old(self)@.insert(s),
    {
        proof {
            old(self).lemma_view();
            old(self).with(s).lemma_view();
            assert(old(self).with(s)@ =~= old(self)@.insert(s));
        }
        match s {
            Suit::Spade => self.spade = true,
            Suit::Heart => self.heart = true,
            Suit::Diamond => self.diamond = true,
            Suit::Club => self.club = true,
        }
    }

    /// The number of distinct suits held.
    pub fn len(&self) -> (r: usize)
        ensures
            r == self.count(),
            r == self@.len(),
    {
        proof { self.lemma_view(); }
        let mut n: usize = 0;
        if self.spade { n = n + 1; }
        if self.heart { n = n + 1; }
        if self.diamond { n = n + 1; }
        if self.club { n = n + 1; }
        n
    }
}

/// The one-character symbol shown for a suit.
pub open spec fn suit_icon(s: Suit) -> Seq<char> {
    match s {
        Suit::Spade => seq!['\u{2660}'],
        Suit::Heart => seq!['\u{2665}'],
        Suit::Diamond => seq!['\u{2666}'],
        Suit::Club => seq!['\u{2663}'],
    }
}

impl Suit {
    /// The symbol shown for the suit.
    pub fn icon(&self) -> (r: &'static str)
        ensures
            r@ == suit_icon(*self),
    {
        match self {
            Suit::Spade => {
                proof { reveal_strlit("\u{2660}"); }
                "\u{2660}"
            },
            Suit::Heart => {
                proof { reveal_strlit("\u{2665}"); }
                "\u{2665}"
            },
            Suit::Diamond => {
                proof { reveal_strlit("\u{2666}"); }
                "\u{2666}"
            },
            Suit::Club => {
                proof { reveal_strlit("\u{2663}"); }
                "\u{2663}"
            },
        }
    }
}

} // verus!

verus! {

/// A named group of property tiles.
#[derive(Debug, Clone, Copy, PartialEq, Eq, Hash, Structural)]
pub enum District {
    Downtown,
    Plaza,
    Harbor,
    Grove,
}

/// The number of districts; per-district tables have this length.
pub const DISTRICT_COUNT: usize = 4;

impl District {
    /// Position of the district in per-district tables.
    pub open spec fn slot(self) -> nat {
        match self {
            District::Downtown => 0,
            District::Plaza => 1,
            District::Harbor => 2,
            District::Grove => 3,
        }
    }

    /// The district's slot in per-district tables.
    pub fn index(&self) -> (r: usize)
        ensures
            r == self.slot(),
            r < DISTRICT_COUNT,
    {
        match self {
            District::Downtown => 0,
            District::Plaza => 1,
            District::Harbor => 2,
            District::Grove => 3,
        }
    }

    pub open spec fn label(self) -> Seq<char> {
        match self {
            District::Downtown => "Downtown"@,
            District::Plaza => "Plaza"@,
            District::Harbor => "Harbor"@,
            District::Grove => "Grove"@,
        }
    }

    /// The district's display name.
    pub fn name(&self) -> (r: &'static str)
        ensures
            r@ == self.label(),
    {
        match self {
            District::Downtown => "Downtown",
            District::Plaza => "Plaza",
            District::Harbor => "Harbor",
            District::Grove => "Grove",
        }
    }
}

/// What a tile does to the player who lands on it.
#[derive(Debug, Clone, Copy, PartialEq, Eq, Structural)]
pub enum TileKind {
    Bank,
    Property { district: District, price: u32, base_fee: u32 },
    Suit(Suit),
    Chance,
}

/// A tile of the track: its place in the loop, its grid cell for display,
/// and its kind.
#[derive(Debug, Clone, Copy, PartialEq, Eq, Structural)]
pub struct Tile {
    pub index: usize,
    pub col: u32,
    pub row: u32,
    pub kind: TileKind,
}

impl TileKind {
    /// Property tiles carry a positive price and a positive fee.
    pub open spec fn wf(self) -> bool {
        match self {
            TileKind::Property { price, base_fee, .. } => price > 0 && base_fee > 0,
            _ => true,
        }
    }
}

/// A board is a non-empty loop whose tiles are numbered by their place.
pub open spec fn board_wf(board: Seq<Tile>) -> bool {
    &&& board.len() >= 1
    &&& forall|i: int| 0 <= i < board.len() ==> (#[trigger] board[i]).index == i && board[i].kind.wf()
}

/// The kind pattern of the standard board: the bank, then groups of
/// property, suit, property, chance, two properties per district.
pub open spec fn standard_kind(i: int) -> TileKind {
    if i == 0 {
        TileKind::Bank
    } else if i == 1 {
        TileKind::Property { district: District::Downtown, price: 300, base_fee: 80 }
    } else if i == 2 {
        TileKind::Suit(Suit::Spade)
    } else if i == 3 {
        TileKind::Property { district: District::Downtown, price: 320, base_fee: 90 }
    } else if i == 4 {
        TileKind::Chance
    } else if i == 5 {
        TileKind::Property { district: District::Plaza, price: 280, base_fee: 75 }
    } else if i == 6 {
        TileKind::Suit(Suit::Heart)
    } else if i == 7 {
        TileKind::Property { district: District::Plaza, price: 260, base_fee: 70 }
    } else if i == 8 {
        TileKind::Chance
    } else if i == 9 {
        TileKind::Property { district: District::Harbor, price: 350, base_fee: 95 }
    } else if i == 10 {
        TileKind::Suit(Suit::Diamond)
    } else if i == 11 {
        TileKind::Property { district: District::Harbor, price: 360, base_fee: 105 }
    } else if i == 12 {
        TileKind::Chance
    } else if i == 13 {
        TileKind::Property { district: District::Grove, price: 240, base_fee: 60 }
    } else if i == 14 {
        TileKind::Suit(Suit::Club)
    } else if i == 15 {
        TileKind::Property { district: District::Grove, price: 260, base_fee: 65 }
    } else {
        TileKind::Chance
    }
}

/// Number of kinds in the standard pattern.
pub const LAYOUT_LEN: usize = 17;

/// Side of the square track, in cells.
pub const TRACK_SIDE: u32 = 4;

/// Number of cells on the square track.
pub const TRACK_LEN: usize = 12;

/// The grid cell of the `i`-th track cell: along the bottom edge, up the
/// right edge, back along the top edge and down the left edge.
pub open spec fn track_cell(i: int) -> (u32, u32) {
    if i < 4 {
        (i as u32, 0)
    } else if i < 7 {
        (3, (i - 3) as u32)
    } else if i < 10 {
        ((9 - i) as u32, 3)
    } else {
        (0, (12 - i) as u32)
    }
}

fn layout() -> (r: Vec<TileKind>)
    ensures
        r.len() == LAYOUT_LEN,
        forall|i: int| 0 <= i < r.len() ==> #[trigger] r[i] == standard_kind(i),
{
    let mut v: Vec<TileKind> = Vec::new();
    v.push(TileKind::Bank);
    v.push(TileKind::Property { district: District::Downtown, price: 300, base_fee: 80 });
    v.push(TileKind::Suit(Suit::Spade));
    v.push(TileKind::Property { district: District::Downtown, price: 320, base_fee: 90 });
    v.push(TileKind::Chance);
    v.push(TileKind::Property { district: District::Plaza, price: 280, base_fee: 75 });
    v.push(TileKind::Suit(Suit::Heart));
    v.push(TileKind::Property { district: District::Plaza, price: 260, base_fee: 70 });
    v.push(TileKind::Chance);
    v.push(TileKind::Property { district: District::Harbor, price: 350, base_fee: 95 });
    v.push(TileKind::Suit(Suit::Diamond));
    v.push(TileKind::Property { district: District::Harbor, price: 360, base_fee: 105 });
    v.push(TileKind::Chance);
    v.push(TileKind::Property { district: District::Grove, price: 240, base_fee: 60 });
    v.push(TileKind::Suit(Suit::Club));
    v.push(TileKind::Property { district: District::Grove, price: 260, base_fee: 65 });
    v.push(TileKind::Chance);
    v
}

fn track() -> (r: Vec<(u32, u32)>)
    ensures
        r.len() == TRACK_LEN,
        forall|i: int| 0 <= i < r.len() ==> #[trigger] r[i] == track_cell(i),
{
    let mut coords: Vec<(u32, u32)> = Vec::new();
    let mut x: u32 = 0;
    while x < TRACK_SIDE
        invariant
            x <= TRACK_SIDE,
            coords.len() == x,
            forall|i: int| 0 <= i < coords.len() ==> #[trigger] coords[i] == track_cell(i),
        decreases TRACK_SIDE - x,
    {
        coords.push((x, 0));
        x = x + 1;
    }
    let mut y: u32 = 1;
    while y < TRACK_SIDE
        invariant
            1 <= y <= TRACK_SIDE,
            coords.len() == 3 + y,
            forall|i: int| 0 <= i < coords.len() ==> #[trigger] coords[i] == track_cell(i),
        decreases TRACK_SIDE - y,
    {
        coords.push((TRACK_SIDE - 1, y));
        y = y + 1;
    }
    let mut x: u32 = TRACK_SIDE - 1;
    while x > 0
        invariant
            x <= TRACK_SIDE - 1,
            coords.len() == 10 - x,
            forall|i: int| 0 <= i < coords.len() ==> #[trigger] coords[i] == track_cell(i),
        decreases x,
    {
        x = x - 1;
        coords.push((x, TRACK_SIDE - 1));
    }
    let mut y: u32 = TRACK_SIDE - 2;
    while y > 0
        invariant
            y <= TRACK_SIDE - 2,
            coords.len() == 12 - y,
            forall|i: int| 0 <= i < coords.len() ==> #[trigger] coords[i] == track_cell(i),
        decreases y,
    {
        coords.push((0, y));
        y = y - 1;
    }
    coords
}

/// Builds the standard board: one tile per track cell, the kinds following
/// the standard pattern.
pub fn generate_board() -> (r: Vec<Tile>)
    ensures
        r.len() == TRACK_LEN,
        board_wf(r@),
        forall|i: int|
            0 <= i < r.len() ==> (#[trigger] r[i]).kind == standard_kind(i) && (r[i].col, r[i].row)
                == track_cell(i),
{
    let kinds = layout();
    let cells = track();
    let n: usize = if kinds.len() < cells.len() { kinds.len() } else { cells.len() };
    let mut tiles: Vec<Tile> = Vec::new();
    let mut i: usize = 0;
    while i < n
        invariant
            n == TRACK_LEN,
            kinds.len() == LAYOUT_LEN,
            cells.len() == TRACK_LEN,
            forall|k: int| 0 <= k < kinds.len() ==> #[trigger] kinds[k] == standard_kind(k),
            forall|k: int| 0 <= k < cells.len() ==> #[trigger] cells[k] == track_cell(k),
            i <= n,
            tiles.len() == i,
            forall|k: int|
                0 <= k < i ==> (#[trigger] tiles[k]).index == k && tiles[k].kind == standard_kind(k)
                    && (tiles[k].col, tiles[k].row) == track_cell(k),
        decreases n - i,
    {
        let (col, row) = cells[i];
        tiles.push(Tile { index: i, col, row, kind: kinds[i] });
        i = i + 1;
    }
    assert forall|k: int| 0 <= k < tiles.len() implies (#[trigger] tiles[k]).kind.wf() by {
        assert(tiles[k].kind == standard_kind(k));
    }
    tiles
}

} // verus!
