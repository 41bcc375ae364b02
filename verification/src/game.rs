//! The shared game-state model: buildings, scores, prices, and the
//! snapshot that the listener fills and the presentation layer reads.

use vstd::prelude::*;

verus! {

/// The closed set of building kinds that can stand on the map.
#[derive(Clone, Copy, Debug, PartialEq, Eq, Structural, Hash)]
pub enum Building {
    House,
    Villa,
    Tower,
}

/// The lowercase wire name of a building kind.
pub open spec fn building_name(b: Building) -> Seq<char> {
    match b {
        Building::House => "house"@,
        Building::Villa => "villa"@,
        Building::Tower => "tower"@,
    }
}

/// ASCII-lowercased counterpart of a character; all others are unchanged.
pub open spec fn lower_char(c: char) -> char {
    if 'A' <= c && c <= 'Z' {
        ((c as u8) + 32) as char
    } else {
        c
    }
}

/// ASCII-lowercased counterpart of a character sequence.
pub open spec fn lower(s: Seq<char>) -> Seq<char> {
    s.map_values(|c: char| lower_char(c))
}

/// What parsing free-form text as a building yields: a case-insensitive
/// match of one of the three names, and a failure on everything else.
pub open spec fn parse_building_spec(s: Seq<char>) -> Option<Building> {
    if lower(s) == building_name(Building::House) {
        Some(Building::House)
    } else if lower(s) == building_name(Building::Villa) {
        Some(Building::Villa)
    } else if lower(s) == building_name(Building::Tower) {
        Some(Building::Tower)
    } else {
        None
    }
}

/// Lowercases one character, ASCII-only.
pub fn to_lower(c: char) -> (r: char)
    ensures
        r == lower_char(c),
{
    if 'A' <= c && c <= 'Z' {
        let b = c as u8;
        (b + 32) as char
    } else {
        c
    }
}

/// Whether `s`, lowercased, equals `t` (which callers pass already lowercase).
pub fn lower_eq(s: &str, t: &str) -> (r: bool)
    ensures
        r == (lower(s@) == t@),
{
    let n = s.unicode_len();
    let m = t.unicode_len();
    if n != m {
        proof {
            assert(lower(s@).len() == s@.len());
        }
        return false;
    }
    let mut i: usize = 0;
    while i < n
        invariant
            n == s@.len(),
            n == t@.len(),
            i <= n,
            forall|j: int| 0 <= j < i ==> lower(s@)[j] == t@[j],
        decreases n - i,
    {
        let c = to_lower(s.get_char(i));
        let d = t.get_char(i);
        if c != d {
            proof {
                assert(lower(s@)[i as int] != t@[i as int]);
            }
            return false;
        }
        i += 1;
    }
    proof {
        assert(lower(s@) =~= t@);
    }
    true
}

impl Building {
    /// Parses free-form text as a building kind, case-insensitively.
    pub fn parse(s: &str) -> (r: Option<Building>)
        ensures
            r == parse_building_spec(s@),
    {
        if lower_eq(s, "house") {
            Some(Building::House)
        } else if lower_eq(s, "villa") {
            Some(Building::Villa)
        } else if lower_eq(s, "tower") {
            Some(Building::Tower)
        } else {
            None
        }
    }

    /// The lowercase wire name of this building kind.
    pub fn name(&self) -> (r: &'static str)
        ensures
            r@ == building_name(*self),
    {
        match self {
            Building::House => "house",
            Building::Villa => "villa",
            Building::Tower => "tower",
        }
    }
}

/// Lowercasing is idempotent, so parsing is insensitive to the case of its input.
pub proof fn lemma_lower_idempotent(s: Seq<char>)
    ensures
        lower(lower(s)) == lower(s),
{
    assert forall|j: int| 0 <= j < s.len() implies lower_char(lower_char(s[j])) == lower_char(
        s[j],
    ) by {
        let c = s[j];
        if 'A' <= c && c <= 'Z' {
            assert(!('A' <= lower_char(c) && lower_char(c) <= 'Z'));
        }
    }
    assert(lower(lower(s)) =~= lower(s));
}

/// Every building's printed lowercase name parses back to the same
/// building; parsing is case-insensitive; and a parse succeeds only on
/// text whose lowercase form is exactly one of the three names.
pub proof fn lemma_building_parse_round_trip(b: Building, s: Seq<char>)
    ensures
        parse_building_spec(building_name(b)) == Some(b),
        parse_building_spec(s) == parse_building_spec(lower(s)),
        parse_building_spec(s) == Some(b) <==> lower(s) == building_name(b),
{
    reveal_strlit("house");
    reveal_strlit("villa");
    reveal_strlit("tower");
    assert(lower("house"@) =~= "house"@);
    assert(lower("villa"@) =~= "villa"@);
    assert(lower("tower"@) =~= "tower"@);
    assert(building_name(Building::House)[0] == 'h');
    assert(building_name(Building::Villa)[0] == 'v');
    assert(building_name(Building::Tower)[0] == 't');
    lemma_lower_idempotent(s);
}

/// One row of the score table, as the server ranked it.
#[derive(Debug, Clone, PartialEq)]
pub struct ScoreEntry {
    pub name: String,
    pub score: isize,
}

impl View for ScoreEntry {
    type V = (Seq<char>, isize);

    open spec fn view(&self) -> (Seq<char>, isize) {
        (self.name@, self.score)
    }
}

/// The current price of each building kind, as far as the server has
/// announced one.
#[derive(Debug, Clone, PartialEq)]
pub struct PriceList {
    pub house: Option<u32>,
    pub villa: Option<u32>,
    pub tower: Option<u32>,
}

impl View for PriceList {
    type V = Map<Building, u32>;

    open spec fn view(&self) -> Map<Building, u32> {
        let m = Map::<Building, u32>::empty();
        let m = if self.house is Some {
            m.insert(Building::House, self.house->0)
        } else {
            m
        };
        let m = if self.villa is Some {
            m.insert(Building::Villa, self.villa->0)
        } else {
            m
        };
        if self.tower is Some {
            m.insert(Building::Tower, self.tower->0)
        } else {
            m
        }
    }
}

impl PriceList {
    /// A price list with no prices announced yet.
    pub fn empty() -> (r: PriceList)
        ensures
            r@ == Map::<Building, u32>::empty(),
            r.house is None && r.villa is None && r.tower is None,
    {
        let r = PriceList { house: None, villa: None, tower: None };
        proof {
            assert(r@ =~= Map::<Building, u32>::empty());
        }
        r
    }

    /// Records the price of one building kind, replacing an earlier one.
    pub fn set(&mut self, b: Building, price: u32)
        ensures
            final(self)@ == old(self)@.insert(b, price),
    {
        match b {
            Building::House => {
                self.house = Some(price);
            },
            Building::Villa => {
                self.villa = Some(price);
            },
            Building::Tower => {
                self.tower = Some(price);
            },
        }
        proof {
            assert(final(self)@ =~= old(self)@.insert(b, price));
        }
    }

    /// Looks up the announced price of a building kind.
    pub fn get(&self, b: Building) -> (r: Option<u32>)
        ensures
            r is Some <==> self@.dom().contains(b),
            r is Some ==> r->0 == self@[b],
    {
        match b {
            Building::House => self.house,
            Building::Villa => self.villa,
            Building::Tower => self.tower,
        }
    }
}

/// One building placement: what stands where. This is both a map entry
/// of an end-of-turn broadcast and an entry of the game snapshot.
#[derive(Debug, Clone, Copy, PartialEq)]
pub struct MapAnswer {
    pub pos: (u32, u32),
    pub building: Building,
}

/// The placements of a list as a mathematical map from grid position
/// to building; a later entry for the same position wins.
pub open spec fn map_of_grid(entries: Seq<MapAnswer>) -> Map<(u32, u32), Building>
    decreases entries.len(),
{
    if entries.len() == 0 {
        Map::empty()
    } else {
        map_of_grid(entries.drop_last()).insert(entries.last().pos, entries.last().building)
    }
}

/// Whether no two grid entries name the same position.
pub open spec fn grid_unique(entries: Seq<MapAnswer>) -> bool {
    forall|i: int, j: int| 0 <= i < j < entries.len() ==> entries[i].pos != entries[j].pos
}

/// A position is on the grid exactly when some entry names it.
pub proof fn lemma_map_of_grid_dom(entries: Seq<MapAnswer>)
    ensures
        forall|p: (u32, u32)|
            #[trigger] map_of_grid(entries).dom().contains(p) <==> exists|i: int|
                0 <= i < entries.len() && #[trigger] entries[i].pos == p,
    decreases entries.len(),
{
    if entries.len() > 0 {
        lemma_map_of_grid_dom(entries.drop_last());
        let prev = entries.drop_last();
        assert forall|p: (u32, u32)| #[trigger]
            map_of_grid(entries).dom().contains(p) implies exists|i: int|
            0 <= i < entries.len() && #[trigger] entries[i].pos == p by {
            if p == entries.last().pos {
                assert(entries[entries.len() - 1].pos == p);
            } else {
                assert(map_of_grid(prev).dom().contains(p));
                let i = choose|i: int| 0 <= i < prev.len() && #[trigger] prev[i].pos == p;
                assert(entries[i].pos == p);
            }
        }
        assert forall|p: (u32, u32)|
            (exists|i: int|
                0 <= i < entries.len() && #[trigger] entries[i].pos == p) implies #[trigger]
            map_of_grid(entries).dom().contains(p) by {
            let i = choose|i: int| 0 <= i < entries.len() && #[trigger] entries[i].pos == p;
            if i == entries.len() - 1 {
            } else {
                assert(prev[i].pos == p);
                assert(map_of_grid(prev).dom().contains(p));
            }
        }
    }
}

/// One client session's snapshot of the game, as of the last server
/// broadcast. A single instance is shared between the listener, which
/// alone mutates it, and the readers of the presentation layer.
#[derive(Debug)]
pub struct Game {
    pub player: Option<usize>,
    pub size: (u32, u32),
    pub scores: Vec<ScoreEntry>,
    pub buildings: Vec<MapAnswer>,
    pub prices: PriceList,
    pub tower_count: u32,
    pub turn: u32,
    pub rejoin: String,
}

/// The game snapshot as pure mathematics: what every contract of the
/// listener speaks about.
#[verifier::ext_equal]
pub struct GameView {
    pub player: Option<usize>,
    pub size: (u32, u32),
    pub scores: Seq<(Seq<char>, isize)>,
    pub buildings: Map<(u32, u32), Building>,
    pub prices: Map<Building, u32>,
    pub tower_count: u32,
    pub turn: u32,
    pub rejoin: Seq<char>,
}

impl View for Game {
    type V = GameView;

    open spec fn view(&self) -> GameView {
        GameView {
            player: self.player,
            size: self.size,
            scores: self.scores@.map_values(|e: ScoreEntry| e@),
            buildings: map_of_grid(self.buildings@),
            prices: self.prices@,
            tower_count: self.tower_count,
            turn: self.turn,
            rejoin: self.rejoin@,
        }
    }
}

/// The state a fresh session starts from: no player assigned, a
/// placeholder map size, nothing built, nothing scored, turn zero.
pub open spec fn initial_game() -> GameView {
    GameView {
        player: None,
        size: (5, 5),
        scores: Seq::empty(),
        buildings: Map::empty(),
        prices: Map::empty(),
        tower_count: 0,
        turn: 0,
        rejoin: Seq::empty(),
    }
}

impl Game {
    /// Whether no two building entries name the same position — the
    /// snapshot's well-formedness, which the listener keeps.
    pub fn has_unique_grid(&self) -> (r: bool)
        ensures
            r == grid_unique(self.buildings@),
    {
        let n = self.buildings.len();
        let mut i: usize = 0;
        while i < n
            invariant
                n == self.buildings@.len(),
                i <= n,
                forall|a: int, b: int|
                    0 <= a < b < self.buildings@.len() && a < i ==> self.buildings@[a].pos
                        != self.buildings@[b].pos,
            decreases n - i,
        {
            let mut j = i + 1;
            while j < n
                invariant
                    n == self.buildings@.len(),
                    i < n,
                    i + 1 <= j <= n,
                    forall|b: int|
                        i < b < j ==> self.buildings@[i as int].pos != self.buildings@[b].pos,
                decreases n - j,
            {
                if self.buildings[i].pos.0 == self.buildings[j].pos.0 && self.buildings[i].pos.1
                    == self.buildings[j].pos.1 {
                    proof {
                        assert(self.buildings@[i as int].pos == self.buildings@[j as int].pos);
                    }
                    return false;
                }
                j += 1;
            }
            i += 1;
        }
        true
    }

    /// Creates the empty snapshot a session starts from.
    pub fn new() -> (r: Game)
        ensures
            r@ == initial_game(),
            grid_unique(r.buildings@),
    {
        let r = Game {
            player: None,
            size: (5, 5),
            scores: Vec::new(),
            buildings: Vec::new(),
            turn: 0,
            rejoin: String::new(),
            tower_count: 0,
            prices: PriceList::empty(),
        };
        proof {
            assert(r@ =~= initial_game());
        }
        r
    }
}

} // verus!
