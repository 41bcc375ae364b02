//! The two closed message vocabularies of the wire protocol — outgoing
//! commands and incoming answers — and their tagged-union JSON forms.
//!
//! A command is encoded as one object whose `type` member names the
//! variant in snake case; an answer is decoded from the same shape.
//! Decoding is tolerant the way the connection demands: member order is
//! free, unknown members are ignored, optional members may be absent or
//! null, and building names match case-insensitively.

use vstd::prelude::*;

use crate::game::Building;
use crate::game::MapAnswer;
use crate::game::PriceList;
use crate::game::ScoreEntry;
use crate::game::building_name;
use crate::game::parse_building_spec;
use crate::json::JVal;
use crate::json::Json;
use crate::json::chars_to_string;
use crate::json::encode_json;
use crate::json::jencode;
use crate::json::jview_items;
use crate::json::jview_members;
use crate::json::lemma_jview_members_props;
use crate::json::obj_lookup;
use crate::json::parse_json;
use crate::json::parse_json_spec;

verus! {

/// A player-originated wire message.
#[derive(Debug, PartialEq)]
pub enum Command {
    Welcome { name: String },
    Rejoin { token: String },
    EndTurn,
    Build { x: u32, y: u32, building: Building },
    Excavate { x: u32, y: u32 },
}

/// The mathematical counterpart of [`Command`].
pub enum CommandV {
    Welcome { name: Seq<char> },
    Rejoin { token: Seq<char> },
    EndTurn,
    Build { x: u32, y: u32, building: Building },
    Excavate { x: u32, y: u32 },
}

impl View for Command {
    type V = CommandV;

    open spec fn view(&self) -> CommandV {
        match self {
            Command::Welcome { name } => CommandV::Welcome { name: name@ },
            Command::Rejoin { token } => CommandV::Rejoin { token: token@ },
            Command::EndTurn => CommandV::EndTurn,
            Command::Build { x, y, building } => CommandV::Build {
                x: *x,
                y: *y,
                building: *building,
            },
            Command::Excavate { x, y } => CommandV::Excavate { x: *x, y: *y },
        }
    }
}

/// The JSON tree a command is sent as: the `type` member first, then
/// the variant's fields in declaration order.
pub open spec fn command_jval(c: CommandV) -> JVal {
    match c {
        CommandV::Welcome { name } => JVal::Obj(
            seq![("type"@, JVal::Str("welcome"@)), ("name"@, JVal::Str(name))],
        ),
        CommandV::Rejoin { token } => JVal::Obj(
            seq![("type"@, JVal::Str("rejoin"@)), ("token"@, JVal::Str(token))],
        ),
        CommandV::EndTurn => JVal::Obj(seq![("type"@, JVal::Str("end_turn"@))]),
        CommandV::Build { x, y, building } => JVal::Obj(
            seq![
                ("type"@, JVal::Str("build"@)),
                ("x"@, JVal::Int(x as i64)),
                ("y"@, JVal::Int(y as i64)),
                ("building"@, JVal::Str(building_name(building))),
            ],
        ),
        CommandV::Excavate { x, y } => JVal::Obj(
            seq![
                ("type"@, JVal::Str("excavate"@)),
                ("x"@, JVal::Int(x as i64)),
                ("y"@, JVal::Int(y as i64)),
            ],
        ),
    }
}

/// The canonical wire text of a command, newline not included.
pub open spec fn encode_command_spec(c: CommandV) -> Seq<char> {
    jencode(command_jval(c))
}

/// What decoding one line as a command yields.
pub open spec fn decode_command_spec(s: Seq<char>) -> Option<CommandV> {
    match parse_json_spec(s) {
        Some(j) => json_to_command(j),
        None => None,
    }
}

/// Reads a command back from its JSON tree; `None` on any tree the
/// vocabulary does not cover.
pub open spec fn json_to_command(j: JVal) -> Option<CommandV> {
    match j {
        JVal::Obj(ms) => match obj_lookup(ms, "type"@) {
            Some(JVal::Str(t)) => {
                if t == "welcome"@ {
                    match obj_lookup(ms, "name"@) {
                        Some(JVal::Str(n)) => Some(CommandV::Welcome { name: n }),
                        _ => None,
                    }
                } else if t == "rejoin"@ {
                    match obj_lookup(ms, "token"@) {
                        Some(JVal::Str(n)) => Some(CommandV::Rejoin { token: n }),
                        _ => None,
                    }
                } else if t == "end_turn"@ {
                    Some(CommandV::EndTurn)
                } else if t == "build"@ {
                    match (obj_lookup(ms, "x"@), obj_lookup(ms, "y"@), obj_lookup(
                        ms,
                        "building"@,
                    )) {
                        (Some(xv), Some(yv), Some(bv)) => match (jv_u32(xv), jv_u32(yv), jv_building(
                            bv,
                        )) {
                            (Some(x), Some(y), Some(b)) => Some(
                                CommandV::Build { x, y, building: b },
                            ),
                            _ => None,
                        },
                        _ => None,
                    }
                } else if t == "excavate"@ {
                    match (obj_lookup(ms, "x"@), obj_lookup(ms, "y"@)) {
                        (Some(xv), Some(yv)) => match (jv_u32(xv), jv_u32(yv)) {
                            (Some(x), Some(y)) => Some(CommandV::Excavate { x, y }),
                            _ => None,
                        },
                        _ => None,
                    }
                } else {
                    None
                }
            },
            _ => None,
        },
        _ => None,
    }
}

// ------------------------------------------------------------------
// Reading plain values out of JSON trees
// ------------------------------------------------------------------
/// A number that fits an unsigned 32-bit integer.
pub open spec fn jv_u32(v: JVal) -> Option<u32> {
    match v {
        JVal::Int(n) => if 0 <= n && n <= u32::MAX {
            Some(n as u32)
        } else {
            None
        },
        _ => None,
    }
}

/// A number that fits a signed 32-bit integer.
pub open spec fn jv_i32(v: JVal) -> Option<i32> {
    match v {
        JVal::Int(n) => if i32::MIN <= n && n <= i32::MAX {
            Some(n as i32)
        } else {
            None
        },
        _ => None,
    }
}

/// A number that fits this machine's `usize`.
pub open spec fn jv_usize(v: JVal) -> Option<usize> {
    match v {
        JVal::Int(n) => if 0 <= n && n <= usize::MAX {
            Some(n as usize)
        } else {
            None
        },
        _ => None,
    }
}

/// A number that fits this machine's `isize`.
pub open spec fn jv_isize(v: JVal) -> Option<isize> {
    match v {
        JVal::Int(n) => if isize::MIN <= n && n <= isize::MAX {
            Some(n as isize)
        } else {
            None
        },
        _ => None,
    }
}

/// A coordinate pair: an array of exactly two unsigned numbers.
pub open spec fn jv_pair(v: JVal) -> Option<(u32, u32)> {
    match v {
        JVal::Arr(items) => if items.len() == 2 {
            match (jv_u32(items[0]), jv_u32(items[1])) {
                (Some(a), Some(b)) => Some((a, b)),
                _ => None,
            }
        } else {
            None
        },
        _ => None,
    }
}

/// A building, from its wire name.
pub open spec fn jv_building(v: JVal) -> Option<Building> {
    match v {
        JVal::Str(s) => parse_building_spec(s),
        _ => None,
    }
}

// ------------------------------------------------------------------
// The command codec round-trips
// ------------------------------------------------------------------
proof fn lemma_json_to_command_inverts(c: CommandV)
    ensures
        json_to_command(command_jval(c)) == Some(c),
{
    reveal_strlit("type");
    reveal_strlit("welcome");
    reveal_strlit("rejoin");
    reveal_strlit("end_turn");
    reveal_strlit("build");
    reveal_strlit("excavate");
    reveal_strlit("name");
    reveal_strlit("token");
    reveal_strlit("x");
    reveal_strlit("y");
    reveal_strlit("building");
    assert("type"@.len() == 4);
    assert("welcome"@.len() == 7);
    assert("rejoin"@.len() == 6);
    assert("end_turn"@.len() == 8);
    assert("build"@.len() == 5);
    assert("excavate"@.len() == 8);
    assert("name"@.len() == 4);
    assert("token"@.len() == 5);
    assert("x"@.len() == 1);
    assert("y"@.len() == 1);
    assert("building"@.len() == 8);
    assert("type"@[0] == 't');
    assert("name"@[0] == 'n');
    assert("x"@[0] == 'x');
    assert("y"@[0] == 'y');
    assert("end_turn"@[1] == 'n');
    assert("excavate"@[1] == 'x');
    match c {
        CommandV::Welcome { name } => {
            let ms = seq![("type"@, JVal::Str("welcome"@)), ("name"@, JVal::Str(name))];
            assert(obj_lookup(ms, "type"@) == Some(JVal::Str("welcome"@)));
            assert(ms.drop_first() =~= seq![("name"@, JVal::Str(name))]);
            assert(obj_lookup(ms.drop_first(), "name"@) == Some(JVal::Str(name)));
            assert(obj_lookup(ms, "name"@) == Some(JVal::Str(name)));
        },
        CommandV::Rejoin { token } => {
            let ms = seq![("type"@, JVal::Str("rejoin"@)), ("token"@, JVal::Str(token))];
            assert(obj_lookup(ms, "type"@) == Some(JVal::Str("rejoin"@)));
            assert(ms.drop_first() =~= seq![("token"@, JVal::Str(token))]);
            assert(obj_lookup(ms.drop_first(), "token"@) == Some(JVal::Str(token)));
            assert(obj_lookup(ms, "token"@) == Some(JVal::Str(token)));
            assert(!("rejoin"@ == "welcome"@));
        },
        CommandV::EndTurn => {
            let ms = seq![("type"@, JVal::Str("end_turn"@))];
            assert(obj_lookup(ms, "type"@) == Some(JVal::Str("end_turn"@)));
            assert(!("end_turn"@ == "welcome"@));
            assert(!("end_turn"@ == "rejoin"@));
        },
        CommandV::Build { x, y, building } => {
            let ms = seq![
                ("type"@, JVal::Str("build"@)),
                ("x"@, JVal::Int(x as i64)),
                ("y"@, JVal::Int(y as i64)),
                ("building"@, JVal::Str(building_name(building))),
            ];
            assert(obj_lookup(ms, "type"@) == Some(JVal::Str("build"@)));
            assert(!("build"@ == "welcome"@));
            assert(!("build"@ == "rejoin"@));
            assert(!("build"@ == "end_turn"@));
            let ms1 = ms.drop_first();
            assert(ms1 =~= seq![
                ("x"@, JVal::Int(x as i64)),
                ("y"@, JVal::Int(y as i64)),
                ("building"@, JVal::Str(building_name(building))),
            ]);
            let ms2 = ms1.drop_first();
            assert(ms2 =~= seq![
                ("y"@, JVal::Int(y as i64)),
                ("building"@, JVal::Str(building_name(building))),
            ]);
            let ms3 = ms2.drop_first();
            assert(ms3 =~= seq![("building"@, JVal::Str(building_name(building)))]);
            assert(obj_lookup(ms1, "x"@) == Some(JVal::Int(x as i64)));
            assert(obj_lookup(ms, "x"@) == Some(JVal::Int(x as i64)));
            assert(obj_lookup(ms2, "y"@) == Some(JVal::Int(y as i64)));
            assert(obj_lookup(ms1, "y"@) == Some(JVal::Int(y as i64)));
            assert(obj_lookup(ms, "y"@) == Some(JVal::Int(y as i64)));
            assert(obj_lookup(ms3, "building"@) == Some(JVal::Str(building_name(building))));
            assert(obj_lookup(ms2, "building"@) == Some(JVal::Str(building_name(building))));
            assert(obj_lookup(ms1, "building"@) == Some(JVal::Str(building_name(building))));
            assert(obj_lookup(ms, "building"@) == Some(JVal::Str(building_name(building))));
            assert(jv_u32(JVal::Int(x as i64)) == Some(x));
            assert(jv_u32(JVal::Int(y as i64)) == Some(y));
            crate::game::lemma_building_parse_round_trip(building, building_name(building));
            assert(jv_building(JVal::Str(building_name(building))) == Some(building));
        },
        CommandV::Excavate { x, y } => {
            let ms = seq![
                ("type"@, JVal::Str("excavate"@)),
                ("x"@, JVal::Int(x as i64)),
                ("y"@, JVal::Int(y as i64)),
            ];
            assert(obj_lookup(ms, "type"@) == Some(JVal::Str("excavate"@)));
            assert(!("excavate"@ == "welcome"@));
            assert(!("excavate"@ == "rejoin"@));
            assert(!("excavate"@ == "end_turn"@));
            assert(!("excavate"@ == "build"@));
            let ms1 = ms.drop_first();
            assert(ms1 =~= seq![("x"@, JVal::Int(x as i64)), ("y"@, JVal::Int(y as i64))]);
            let ms2 = ms1.drop_first();
            assert(ms2 =~= seq![("y"@, JVal::Int(y as i64))]);
            assert(obj_lookup(ms1, "x"@) == Some(JVal::Int(x as i64)));
            assert(obj_lookup(ms, "x"@) == Some(JVal::Int(x as i64)));
            assert(obj_lookup(ms2, "y"@) == Some(JVal::Int(y as i64)));
            assert(obj_lookup(ms1, "y"@) == Some(JVal::Int(y as i64)));
            assert(obj_lookup(ms, "y"@) == Some(JVal::Int(y as i64)));
            assert(jv_u32(JVal::Int(x as i64)) == Some(x));
            assert(jv_u32(JVal::Int(y as i64)) == Some(y));
        },
    }
}

/// The round-trip law of the wire codec: every command, encoded and
/// decoded again, comes back equal to the original — and its encoded
/// form is a single line, holding no newline anywhere.
pub proof fn lemma_command_round_trip(c: CommandV)
    ensures
        decode_command_spec(encode_command_spec(c)) == Some(c),
        forall|i: int|
            0 <= i < encode_command_spec(c).len() ==> #[trigger] encode_command_spec(c)[i]
                != '\n',
{
    crate::json::lemma_parse_of_jencode(command_jval(c));
    lemma_json_to_command_inverts(c);
    crate::json::lemma_jencode_one_line(command_jval(c));
    assert forall|i: int|
        0 <= i < encode_command_spec(c).len() implies #[trigger] encode_command_spec(c)[i]
        != '\n' by {
        assert((jencode(command_jval(c))[i] as u32) >= 32);
    }
}

// ------------------------------------------------------------------
// Answers
// ------------------------------------------------------------------
/// The outcome of an excavation, reported with an end-of-turn broadcast.
#[derive(Debug, Clone, Copy, PartialEq)]
pub struct ExcavateAnswer {
    pub depth: i32,
    pub building: Option<Building>,
    pub pos: (u32, u32),
}

/// A server-originated wire message.
#[derive(Debug, PartialEq)]
pub enum Answer {
    Welcome { player: usize, map_size: (u32, u32), rejoin: String },
    EndOfTurn {
        scores: Vec<ScoreEntry>,
        map: Vec<MapAnswer>,
        turn: u32,
        excavate_result: Option<ExcavateAnswer>,
        current_prices: PriceList,
        tower_count: u32,
    },
    Error {
        message: String,
        subtype: Option<String>,
        pos: Option<(u32, u32)>,
        building: Option<Building>,
    },
    GameOver { message: String, score: i32 },
    Debug { message: String },
}

/// The mathematical counterpart of [`Answer`].
pub enum AnswerV {
    Welcome { player: usize, map_size: (u32, u32), rejoin: Seq<char> },
    EndOfTurn {
        scores: Seq<(Seq<char>, isize)>,
        map: Seq<MapAnswer>,
        turn: u32,
        excavate_result: Option<ExcavateAnswer>,
        current_prices: Map<Building, u32>,
        tower_count: u32,
    },
    Error {
        message: Seq<char>,
        subtype: Option<Seq<char>>,
        pos: Option<(u32, u32)>,
        building: Option<Building>,
    },
    GameOver { message: Seq<char>, score: i32 },
    Debug { message: Seq<char> },
}

impl View for Answer {
    type V = AnswerV;

    open spec fn view(&self) -> AnswerV {
        match self {
            Answer::Welcome { player, map_size, rejoin } => AnswerV::Welcome {
                player: *player,
                map_size: *map_size,
                rejoin: rejoin@,
            },
            Answer::EndOfTurn {
                scores,
                map,
                turn,
                excavate_result,
                current_prices,
                tower_count,
            } => AnswerV::EndOfTurn {
                scores: scores@.map_values(|e: ScoreEntry| e@),
                map: map@,
                turn: *turn,
                excavate_result: *excavate_result,
                current_prices: current_prices@,
                tower_count: *tower_count,
            },
            Answer::Error { message, subtype, pos, building } => AnswerV::Error {
                message: message@,
                subtype: match subtype {
                    Some(s) => Some(s@),
                    None => None,
                },
                pos: *pos,
                building: *building,
            },
            Answer::GameOver { message, score } => AnswerV::GameOver {
                message: message@,
                score: *score,
            },
            Answer::Debug { message } => AnswerV::Debug { message: message@ },
        }
    }
}

// ------------------------------------------------------------------
// Reading an answer out of a JSON tree
// ------------------------------------------------------------------
/// One score-table row: an object with a `name` string and a `score`
/// number.
pub open spec fn parse_score_one(v: JVal) -> Option<(Seq<char>, isize)> {
    match v {
        JVal::Obj(ms) => match (obj_lookup(ms, "name"@), obj_lookup(ms, "score"@)) {
            (Some(JVal::Str(n)), Some(sv)) => match jv_isize(sv) {
                Some(sc) => Some((n, sc)),
                None => None,
            },
            _ => None,
        },
        _ => None,
    }
}

/// The whole score table, in the order the server sent it.
pub open spec fn parse_scores(items: Seq<JVal>) -> Option<Seq<(Seq<char>, isize)>>
    decreases items.len(),
{
    if items.len() == 0 {
        Some(Seq::empty())
    } else {
        match parse_score_one(items[0]) {
            Some(e) => match parse_scores(items.drop_first()) {
                Some(rest) => Some(seq![e] + rest),
                None => None,
            },
            None => None,
        }
    }
}

/// One map entry: an object with a `pos` pair and a `building` name.
pub open spec fn parse_map_one(v: JVal) -> Option<MapAnswer> {
    match v {
        JVal::Obj(ms) => match (obj_lookup(ms, "pos"@), obj_lookup(ms, "building"@)) {
            (Some(pv), Some(bv)) => match (jv_pair(pv), jv_building(bv)) {
                (Some(p), Some(b)) => Some(MapAnswer { pos: p, building: b }),
                _ => None,
            },
            _ => None,
        },
        _ => None,
    }
}

/// The whole map list, in the order the server sent it.
pub open spec fn parse_map_list(items: Seq<JVal>) -> Option<Seq<MapAnswer>>
    decreases items.len(),
{
    if items.len() == 0 {
        Some(Seq::empty())
    } else {
        match parse_map_one(items[0]) {
            Some(e) => match parse_map_list(items.drop_first()) {
                Some(rest) => Some(seq![e] + rest),
                None => None,
            },
            None => None,
        }
    }
}

/// The price table: building names (matched case-insensitively) to
/// prices; a later member for the same building wins.
pub open spec fn parse_prices(ms: Seq<(Seq<char>, JVal)>) -> Option<Map<Building, u32>>
    decreases ms.len(),
{
    if ms.len() == 0 {
        Some(Map::empty())
    } else {
        match parse_prices(ms.drop_last()) {
            Some(m) => match parse_building_spec(ms.last().0) {
                Some(b) => match jv_u32(ms.last().1) {
                    Some(p) => Some(m.insert(b, p)),
                    None => None,
                },
                None => None,
            },
            None => None,
        }
    }
}

/// An optional string member: absent or null means none.
pub open spec fn opt_string(o: Option<JVal>) -> Option<Option<Seq<char>>> {
    match o {
        None => Some(None),
        Some(JVal::Null) => Some(None),
        Some(JVal::Str(s)) => Some(Some(s)),
        Some(_) => None,
    }
}

/// An optional coordinate-pair member: absent or null means none.
pub open spec fn opt_pos(o: Option<JVal>) -> Option<Option<(u32, u32)>> {
    match o {
        None => Some(None),
        Some(JVal::Null) => Some(None),
        Some(v) => match jv_pair(v) {
            Some(p) => Some(Some(p)),
            None => None,
        },
    }
}

/// An optional building member: absent or null means none.
pub open spec fn opt_building(o: Option<JVal>) -> Option<Option<Building>> {
    match o {
        None => Some(None),
        Some(JVal::Null) => Some(None),
        Some(v) => match jv_building(v) {
            Some(b) => Some(Some(b)),
            None => None,
        },
    }
}

/// An excavation result: an object with `depth`, `pos` and an optional
/// `building`.
pub open spec fn parse_excavate(v: JVal) -> Option<ExcavateAnswer> {
    match v {
        JVal::Obj(ms) => match (obj_lookup(ms, "depth"@), obj_lookup(ms, "pos"@)) {
            (Some(dv), Some(pv)) => match (jv_i32(dv), jv_pair(pv), opt_building(
                obj_lookup(ms, "building"@),
            )) {
                (Some(d), Some(p), Some(b)) => Some(ExcavateAnswer { depth: d, building: b, pos: p }),
                _ => None,
            },
            _ => None,
        },
        _ => None,
    }
}

/// An optional excavation result: absent or null means none.
pub open spec fn opt_excavate(o: Option<JVal>) -> Option<Option<ExcavateAnswer>> {
    match o {
        None => Some(None),
        Some(JVal::Null) => Some(None),
        Some(v) => match parse_excavate(v) {
            Some(e) => Some(Some(e)),
            None => None,
        },
    }
}

/// Reads an answer from its JSON tree; `None` on any tree the
/// vocabulary does not cover.
pub open spec fn json_to_answer(j: JVal) -> Option<AnswerV> {
    match j {
        JVal::Obj(ms) => match obj_lookup(ms, "type"@) {
            Some(JVal::Str(t)) => {
                if t == "welcome"@ {
                    match (obj_lookup(ms, "player"@), obj_lookup(ms, "map_size"@), obj_lookup(
                        ms,
                        "rejoin"@,
                    )) {
                        (Some(pv), Some(sv), Some(JVal::Str(r))) => match (jv_usize(pv), jv_pair(
                            sv,
                        )) {
                            (Some(p), Some(size)) => Some(
                                AnswerV::Welcome { player: p, map_size: size, rejoin: r },
                            ),
                            _ => None,
                        },
                        _ => None,
                    }
                } else if t == "end_of_turn"@ {
                    match (obj_lookup(ms, "scores"@), obj_lookup(ms, "map"@), obj_lookup(
                        ms,
                        "turn"@,
                    ), obj_lookup(ms, "current_prices"@), obj_lookup(ms, "tower_count"@)) {
                        (
                            Some(JVal::Arr(sc)),
                            Some(JVal::Arr(mp)),
                            Some(tv),
                            Some(JVal::Obj(pr)),
                            Some(cv),
                        ) => match (parse_scores(sc), parse_map_list(mp), jv_u32(tv), parse_prices(
                            pr,
                        ), jv_u32(cv), opt_excavate(obj_lookup(ms, "excavate_result"@))) {
                            (Some(scores), Some(map), Some(turn), Some(prices), Some(tc), Some(er)) => Some(
                                AnswerV::EndOfTurn {
                                    scores,
                                    map,
                                    turn,
                                    excavate_result: er,
                                    current_prices: prices,
                                    tower_count: tc,
                                },
                            ),
                            _ => None,
                        },
                        _ => None,
                    }
                } else if t == "error"@ {
                    match obj_lookup(ms, "message"@) {
                        Some(JVal::Str(msg)) => match (opt_string(obj_lookup(ms, "subtype"@)), opt_pos(
                            obj_lookup(ms, "pos"@),
                        ), opt_building(obj_lookup(ms, "building"@))) {
                            (Some(st), Some(p), Some(b)) => Some(
                                AnswerV::Error { message: msg, subtype: st, pos: p, building: b },
                            ),
                            _ => None,
                        },
                        _ => None,
                    }
                } else if t == "game_over"@ {
                    match (obj_lookup(ms, "message"@), obj_lookup(ms, "score"@)) {
                        (Some(JVal::Str(msg)), Some(sv)) => match jv_i32(sv) {
                            Some(sc) => Some(AnswerV::GameOver { message: msg, score: sc }),
                            None => None,
                        },
                        _ => None,
                    }
                } else if t == "debug"@ {
                    match obj_lookup(ms, "message"@) {
                        Some(JVal::Str(msg)) => Some(AnswerV::Debug { message: msg }),
                        _ => None,
                    }
                } else {
                    None
                }
            },
            _ => None,
        },
        _ => None,
    }
}

/// What decoding one line as an answer yields.
pub open spec fn decode_answer_spec(s: Seq<char>) -> Option<AnswerV> {
    match parse_json_spec(s) {
        Some(j) => json_to_answer(j),
        None => None,
    }
}

// ------------------------------------------------------------------
// Executable command codec
// ------------------------------------------------------------------
/// Whether two string slices hold the same characters.
pub fn str_eq_str(a: &str, b: &str) -> (r: bool)
    ensures
        r == (a@ == b@),
{
    let n = a.unicode_len();
    let m = b.unicode_len();
    if n != m {
        return false;
    }
    let mut i: usize = 0;
    while i < n
        invariant
            n == a@.len(),
            n == b@.len(),
            i <= n,
            forall|j: int| 0 <= j < i ==> a@[j] == b@[j],
        decreases n - i,
    {
        if a.get_char(i) != b.get_char(i) {
            return false;
        }
        i += 1;
    }
    proof {
        assert(a@ =~= b@);
    }
    true
}

impl Json {
    /// The member bound to `key`, where this value is an object that
    /// has one.
    pub fn get<'a>(&'a self, key: &str) -> (r: Option<&'a Json>)
        ensures
            (match r {
                Some(v) => self@ matches JVal::Obj(ms) && obj_lookup(ms, key@) == Some(v@),
                None => !(self@ matches JVal::Obj(ms) && obj_lookup(ms, key@) is Some),
            }),
{
        match self {
            Json::Obj(ms) => {
                proof {
                    lemma_jview_members_props(ms@);
                    assert(jview_members(ms@).skip(0) =~= jview_members(ms@));
                }
                let n = ms.len();
                let mut k: usize = 0;
                while k < n
                    invariant
                        self@ == JVal::Obj(jview_members(ms@)),
                        n == ms@.len(),
                        k <= n,
                        obj_lookup(jview_members(ms@), key@) == obj_lookup(
                            jview_members(ms@).skip(k as int),
                            key@,
                        ),
                        forall|i: int|
                            0 <= i < ms@.len() ==> jview_members(ms@)[i] == (
                            ms@[i].0@,
                            crate::json::jview(ms@[i].1),
                            ),
                        jview_members(ms@).len() == ms@.len(),
                    decreases n - k,
                {
                    let ghost tail = jview_members(ms@).skip(k as int);
                    proof {
                        assert(tail[0] == jview_members(ms@)[k as int]);
                    }
                    if str_eq_str(ms[k].0.as_str(), key) {
                        proof {
                            assert(tail[0].0 == key@);
                            assert(obj_lookup(tail, key@) == Some(tail[0].1));
                            assert(tail[0].1 == crate::json::jview(ms@[k as int].1));
                            assert(obj_lookup(jview_members(ms@), key@) == Some(
                                crate::json::jview(ms@[k as int].1),
                            ));
                        }
                        return Some(&ms[k].1);
                    }
                    proof {
                        assert(tail.drop_first() =~= jview_members(ms@).skip(k + 1));
                    }
                    k += 1;
                }
                proof {
                    assert(jview_members(ms@).skip(n as int) =~= Seq::<(Seq<char>, JVal)>::empty());
                }
                None
            },
            _ => None,
        }
    }
}

impl Command {
    /// The JSON tree this command is sent as.
    fn to_json(&self) -> (j: Json)
        ensures
            j@ == command_jval(self@),
    {
        match self {
            Command::Welcome { name } => {
                let mut ms: Vec<(String, Json)> = Vec::new();
                ms.push((String::from_str("type"), Json::Str(String::from_str("welcome"))));
                ms.push((String::from_str("name"), Json::Str(name.clone())));
                proof {
                    lemma_jview_members_props(ms@);
                    assert(jview_members(ms@) =~= seq![
                        ("type"@, JVal::Str("welcome"@)),
                        ("name"@, JVal::Str(name@)),
                    ]);
                }
                Json::Obj(ms)
            },
            Command::Rejoin { token } => {
                let mut ms: Vec<(String, Json)> = Vec::new();
                ms.push((String::from_str("type"), Json::Str(String::from_str("rejoin"))));
                ms.push((String::from_str("token"), Json::Str(token.clone())));
                proof {
                    lemma_jview_members_props(ms@);
                    assert(jview_members(ms@) =~= seq![
                        ("type"@, JVal::Str("rejoin"@)),
                        ("token"@, JVal::Str(token@)),
                    ]);
                }
                Json::Obj(ms)
            },
            Command::EndTurn => {
                let mut ms: Vec<(String, Json)> = Vec::new();
                ms.push((String::from_str("type"), Json::Str(String::from_str("end_turn"))));
                proof {
                    lemma_jview_members_props(ms@);
                    assert(jview_members(ms@) =~= seq![("type"@, JVal::Str("end_turn"@))]);
                }
                Json::Obj(ms)
            },
            Command::Build { x, y, building } => {
                let mut ms: Vec<(String, Json)> = Vec::new();
                ms.push((String::from_str("type"), Json::Str(String::from_str("build"))));
                ms.push((String::from_str("x"), Json::Int(*x as i64)));
                ms.push((String::from_str("y"), Json::Int(*y as i64)));
                ms.push((String::from_str("building"), Json::Str(String::from_str(
                    building.name(),
                ))));
                proof {
                    lemma_jview_members_props(ms@);
                    assert(jview_members(ms@) =~= seq![
                        ("type"@, JVal::Str("build"@)),
                        ("x"@, JVal::Int(*x as i64)),
                        ("y"@, JVal::Int(*y as i64)),
                        ("building"@, JVal::Str(building_name(*building))),
                    ]);
                }
                Json::Obj(ms)
            },
            Command::Excavate { x, y } => {
                let mut ms: Vec<(String, Json)> = Vec::new();
                ms.push((String::from_str("type"), Json::Str(String::from_str("excavate"))));
                ms.push((String::from_str("x"), Json::Int(*x as i64)));
                ms.push((String::from_str("y"), Json::Int(*y as i64)));
                proof {
                    lemma_jview_members_props(ms@);
                    assert(jview_members(ms@) =~= seq![
                        ("type"@, JVal::Str("excavate"@)),
                        ("x"@, JVal::Int(*x as i64)),
                        ("y"@, JVal::Int(*y as i64)),
                    ]);
                }
                Json::Obj(ms)
            },
        }
    }

    /// The canonical wire text of this command, without the newline.
    pub fn encode(&self) -> (r: String)
        ensures
            r@ == encode_command_spec(self@),
    {
        let j = self.to_json();
        let chars = encode_json(&j);
        chars_to_string(&chars)
    }

    /// The full wire form of this command: its canonical text and the
    /// terminating newline.
    pub fn encode_line(&self) -> (r: String)
        ensures
            r@ == encode_command_spec(self@).push('\n'),
    {
        let j = self.to_json();
        let mut chars = encode_json(&j);
        chars.push('\n');
        chars_to_string(&chars)
    }

    /// Reads a command back from one line of wire text.
    pub fn decode(line: &str) -> (r: Option<Command>)
        ensures
            (match r {
                Some(c) => decode_command_spec(line@) == Some(c@),
                None => decode_command_spec(line@) is None,
            }),
    {
        match parse_json(line) {
            Some(j) => Command::from_json(&j),
            None => None,
        }
    }

    /// Reads a command from its JSON tree.
    fn from_json(j: &Json) -> (r: Option<Command>)
        ensures
            (match r {
                Some(c) => json_to_command(j@) == Some(c@),
                None => json_to_command(j@) is None,
            }),
    {
        let t = match j.get("type") {
            Some(tv) => match tv {
                Json::Str(t) => t,
                _ => { return None; },
            },
            None => { return None; },
        };
        if str_eq_str(t.as_str(), "welcome") {
            match j.get("name") {
                Some(Json::Str(n)) => Some(Command::Welcome { name: n.clone() }),
                _ => None,
            }
        } else if str_eq_str(t.as_str(), "rejoin") {
            match j.get("token") {
                Some(Json::Str(n)) => Some(Command::Rejoin { token: n.clone() }),
                _ => None,
            }
        } else if str_eq_str(t.as_str(), "end_turn") {
            Some(Command::EndTurn)
        } else if str_eq_str(t.as_str(), "build") {
            let x = match j.get("x") {
                Some(Json::Int(n)) => *n,
                _ => { return None; },
            };
            let y = match j.get("y") {
                Some(Json::Int(n)) => *n,
                _ => { return None; },
            };
            let b = match j.get("building") {
                Some(Json::Str(s)) => match Building::parse(s.as_str()) {
                    Some(b) => b,
                    None => { return None; },
                },
                _ => { return None; },
            };
            if 0 <= x && x <= u32::MAX as i64 && 0 <= y && y <= u32::MAX as i64 {
                Some(Command::Build { x: x as u32, y: y as u32, building: b })
            } else {
                None
            }
        } else if str_eq_str(t.as_str(), "excavate") {
            let x = match j.get("x") {
                Some(Json::Int(n)) => *n,
                _ => { return None; },
            };
            let y = match j.get("y") {
                Some(Json::Int(n)) => *n,
                _ => { return None; },
            };
            if 0 <= x && x <= u32::MAX as i64 && 0 <= y && y <= u32::MAX as i64 {
                Some(Command::Excavate { x: x as u32, y: y as u32 })
            } else {
                None
            }
        } else {
            None
        }
    }
}

// ------------------------------------------------------------------
// Executable answer codec
// ------------------------------------------------------------------
fn u32_x(j: &Json) -> (r: Option<u32>)
    ensures
        r == jv_u32(j@),
{
    match j {
        Json::Int(n) => if 0 <= *n && *n <= u32::MAX as i64 {
            Some(*n as u32)
        } else {
            None
        },
        _ => None,
    }
}

fn i32_x(j: &Json) -> (r: Option<i32>)
    ensures
        r == jv_i32(j@),
{
    match j {
        Json::Int(n) => if i32::MIN as i64 <= *n && *n <= i32::MAX as i64 {
            Some(*n as i32)
        } else {
            None
        },
        _ => None,
    }
}

fn usize_x(j: &Json) -> (r: Option<usize>)
    ensures
        r == jv_usize(j@),
{
    match j {
        Json::Int(n) => if 0 <= *n && (*n as u64) <= (usize::MAX as u64) {
            Some(*n as usize)
        } else {
            None
        },
        _ => None,
    }
}

fn isize_x(j: &Json) -> (r: Option<isize>)
    ensures
        r == jv_isize(j@),
{
    match j {
        Json::Int(n) => if (isize::MIN as i64) <= *n && *n <= (isize::MAX as i64) {
            Some(*n as isize)
        } else {
            None
        },
        _ => None,
    }
}

fn pair_x(j: &Json) -> (r: Option<(u32, u32)>)
    ensures
        r == jv_pair(j@),
{
    match j {
        Json::Arr(items) => {
            proof {
                crate::json::lemma_jview_items_props(items@);
            }
            if items.len() == 2 {
                let a = u32_x(&items[0]);
                let b = u32_x(&items[1]);
                match (a, b) {
                    (Some(x), Some(y)) => Some((x, y)),
                    _ => None,
                }
            } else {
                None
            }
        },
        _ => None,
    }
}

fn building_x(j: &Json) -> (r: Option<Building>)
    ensures
        r == jv_building(j@),
{
    match j {
        Json::Str(s) => Building::parse(s.as_str()),
        _ => None,
    }
}

fn score_one_x(j: &Json) -> (r: Option<ScoreEntry>)
    ensures
        (match r {
            Some(e) => parse_score_one(j@) == Some(e@),
            None => parse_score_one(j@) is None,
        }),
{
    let n = match j.get("name") {
        Some(Json::Str(s)) => s.clone(),
        _ => { return None; },
    };
    let sv = match j.get("score") {
        Some(v) => v,
        None => { return None; },
    };
    match isize_x(sv) {
        Some(sc) => Some(ScoreEntry { name: n, score: sc }),
        None => None,
    }
}

fn scores_from(items: &Vec<Json>, k: usize) -> (r: Option<Vec<ScoreEntry>>)
    requires
        k <= items@.len(),
    ensures
        (match r {
            Some(v) => parse_scores(jview_items(items@).skip(k as int)) == Some(
                v@.map_values(|e: ScoreEntry| e@),
            ),
            None => parse_scores(jview_items(items@).skip(k as int)) is None,
        }),
    decreases items@.len() - k,
{
    proof {
        crate::json::lemma_jview_items_props(items@);
    }
    if k == items.len() {
        proof {
            assert(jview_items(items@).skip(k as int) =~= Seq::<JVal>::empty());
            assert(Seq::<ScoreEntry>::empty().map_values(|e: ScoreEntry| e@) =~= Seq::<
                (Seq<char>, isize),
            >::empty());
        }
        Some(Vec::new())
    } else {
        let ghost tail = jview_items(items@).skip(k as int);
        proof {
            assert(tail[0] == crate::json::jview(items@[k as int]));
            assert(tail.drop_first() =~= jview_items(items@).skip(k + 1));
        }
        match score_one_x(&items[k]) {
            Some(e) => match scores_from(items, k + 1) {
                Some(mut v) => {
                    let ghost prev = v@;
                    let ghost ev = e@;
                    v.insert(0, e);
                    proof {
                        assert(v@.map_values(|x: ScoreEntry| x@) =~= seq![ev] + prev.map_values(
                            |x: ScoreEntry| x@,
                        ));
                    }
                    Some(v)
                },
                None => None,
            },
            None => None,
        }
    }
}

fn map_one_x(j: &Json) -> (r: Option<MapAnswer>)
    ensures
        r == parse_map_one(j@),
{
    let pv = match j.get("pos") {
        Some(v) => v,
        None => { return None; },
    };
    let bv = match j.get("building") {
        Some(v) => v,
        None => { return None; },
    };
    match (pair_x(pv), building_x(bv)) {
        (Some(p), Some(b)) => Some(MapAnswer { pos: p, building: b }),
        _ => None,
    }
}

fn map_from(items: &Vec<Json>, k: usize) -> (r: Option<Vec<MapAnswer>>)
    requires
        k <= items@.len(),
    ensures
        (match r {
            Some(v) => parse_map_list(jview_items(items@).skip(k as int)) == Some(v@),
            None => parse_map_list(jview_items(items@).skip(k as int)) is None,
        }),
    decreases items@.len() - k,
{
    proof {
        crate::json::lemma_jview_items_props(items@);
    }
    if k == items.len() {
        proof {
            assert(jview_items(items@).skip(k as int) =~= Seq::<JVal>::empty());
        }
        Some(Vec::new())
    } else {
        let ghost tail = jview_items(items@).skip(k as int);
        proof {
            assert(tail[0] == crate::json::jview(items@[k as int]));
            assert(tail.drop_first() =~= jview_items(items@).skip(k + 1));
        }
        match map_one_x(&items[k]) {
            Some(e) => match map_from(items, k + 1) {
                Some(mut v) => {
                    let ghost prev = v@;
                    v.insert(0, e);
                    proof {
                        assert(v@ =~= seq![e] + prev);
                    }
                    Some(v)
                },
                None => None,
            },
            None => None,
        }
    }
}

proof fn lemma_parse_prices_none(ms: Seq<(Seq<char>, JVal)>, k: int)
    requires
        0 <= k <= ms.len(),
        parse_prices(ms.take(k)) is None,
    ensures
        parse_prices(ms) is None,
    decreases ms.len() - k,
{
    if k < ms.len() {
        assert(ms.take(k + 1).drop_last() =~= ms.take(k));
        lemma_parse_prices_none(ms, k + 1);
    } else {
        assert(ms.take(k) =~= ms);
    }
}

fn prices_x(pr: &Vec<(String, Json)>) -> (r: Option<PriceList>)
    ensures
        (match r {
            Some(pl) => parse_prices(jview_members(pr@)) == Some(pl@),
            None => parse_prices(jview_members(pr@)) is None,
        }),
{
    proof {
        lemma_jview_members_props(pr@);
        assert(jview_members(pr@).take(0) =~= Seq::<(Seq<char>, JVal)>::empty());
    }
    let ghost msv = jview_members(pr@);
    let n = pr.len();
    let mut pl = PriceList::empty();
    let mut k: usize = 0;
    while k < n
        invariant
            n == pr@.len(),
            k <= n,
            msv == jview_members(pr@),
            msv.len() == n,
            forall|i: int|
                0 <= i < n ==> msv[i] == (pr@[i].0@, crate::json::jview(pr@[i].1)),
            parse_prices(msv.take(k as int)) == Some(pl@),
        decreases n - k,
    {
        proof {
            assert(msv.take(k + 1).drop_last() =~= msv.take(k as int));
            assert(msv.take(k + 1).last() == msv[k as int]);
        }
        let b = match Building::parse(pr[k].0.as_str()) {
            Some(b) => b,
            None => {
                proof {
                    lemma_parse_prices_none(msv, k + 1);
                }
                return None;
            },
        };
        let p = u32_x(&pr[k].1);
        let p = match p {
            Some(p) => p,
            None => {
                proof {
                    lemma_parse_prices_none(msv, k + 1);
                }
                return None;
            },
        };
        pl.set(b, p);
        k += 1;
    }
    proof {
        assert(msv.take(n as int) =~= msv);
    }
    Some(pl)
}

fn excavate_one_x(j: &Json) -> (r: Option<ExcavateAnswer>)
    ensures
        r == parse_excavate(j@),
{
    let dv = match j.get("depth") {
        Some(v) => v,
        None => { return None; },
    };
    let pv = match j.get("pos") {
        Some(v) => v,
        None => { return None; },
    };
    let d = match i32_x(dv) {
        Some(d) => d,
        None => { return None; },
    };
    let p = match pair_x(pv) {
        Some(p) => p,
        None => { return None; },
    };
    let b = match j.get("building") {
        None => None,
        Some(Json::Null) => None,
        Some(bv) => match building_x(bv) {
            Some(b) => Some(b),
            None => { return None; },
        },
    };
    Some(ExcavateAnswer { depth: d, building: b, pos: p })
}

impl Answer {
    /// Reads an answer back from one line of wire text.
    pub fn decode(line: &str) -> (r: Option<Answer>)
        ensures
            (match r {
                Some(a) => decode_answer_spec(line@) == Some(a@),
                None => decode_answer_spec(line@) is None,
            }),
    {
        match parse_json(line) {
            Some(j) => Answer::from_json(&j),
            None => None,
        }
    }

    /// Reads an answer from its JSON tree.
    fn from_json(j: &Json) -> (r: Option<Answer>)
        ensures
            (match r {
                Some(a) => json_to_answer(j@) == Some(a@),
                None => json_to_answer(j@) is None,
            }),
    {
        let t = match j.get("type") {
            Some(tv) => match tv {
                Json::Str(t) => t,
                _ => { return None; },
            },
            None => { return None; },
        };
        if str_eq_str(t.as_str(), "welcome") {
            let player = match j.get("player") {
                Some(v) => match usize_x(v) {
                    Some(p) => p,
                    None => { return None; },
                },
                None => { return None; },
            };
            let size = match j.get("map_size") {
                Some(v) => match pair_x(v) {
                    Some(s) => s,
                    None => { return None; },
                },
                None => { return None; },
            };
            let rejoin = match j.get("rejoin") {
                Some(Json::Str(r)) => r.clone(),
                _ => { return None; },
            };
            Some(Answer::Welcome { player, map_size: size, rejoin })
        } else if str_eq_str(t.as_str(), "end_of_turn") {
            let sc_items = match j.get("scores") {
                Some(Json::Arr(items)) => items,
                _ => { return None; },
            };
            let mp_items = match j.get("map") {
                Some(Json::Arr(items)) => items,
                _ => { return None; },
            };
            let turn = match j.get("turn") {
                Some(v) => match u32_x(v) {
                    Some(t) => t,
                    None => { return None; },
                },
                None => { return None; },
            };
            let pr_ms = match j.get("current_prices") {
                Some(Json::Obj(ms)) => ms,
                _ => { return None; },
            };
            let tc = match j.get("tower_count") {
                Some(v) => match u32_x(v) {
                    Some(t) => t,
                    None => { return None; },
                },
                None => { return None; },
            };
            proof {
                assert(jview_items(sc_items@).skip(0) =~= jview_items(sc_items@));
                assert(jview_items(mp_items@).skip(0) =~= jview_items(mp_items@));
            }
            let scores = match scores_from(sc_items, 0) {
                Some(v) => v,
                None => { return None; },
            };
            let map = match map_from(mp_items, 0) {
                Some(v) => v,
                None => { return None; },
            };
            let prices = match prices_x(pr_ms) {
                Some(p) => p,
                None => { return None; },
            };
            let er = match j.get("excavate_result") {
                None => None,
                Some(Json::Null) => None,
                Some(ev) => match excavate_one_x(ev) {
                    Some(e) => Some(e),
                    None => { return None; },
                },
            };
            Some(
                Answer::EndOfTurn {
                    scores,
                    map,
                    turn,
                    excavate_result: er,
                    current_prices: prices,
                    tower_count: tc,
                },
            )
        } else if str_eq_str(t.as_str(), "error") {
            let msg = match j.get("message") {
                Some(Json::Str(s)) => s.clone(),
                _ => { return None; },
            };
            let st: Option<String> = match j.get("subtype") {
                None => None,
                Some(Json::Null) => None,
                Some(Json::Str(s)) => Some(s.clone()),
                Some(_) => { return None; },
            };
            let p = match j.get("pos") {
                None => None,
                Some(Json::Null) => None,
                Some(v) => match pair_x(v) {
                    Some(p) => Some(p),
                    None => { return None; },
                },
            };
            let b = match j.get("building") {
                None => None,
                Some(Json::Null) => None,
                Some(v) => match building_x(v) {
                    Some(b) => Some(b),
                    None => { return None; },
                },
            };
            Some(Answer::Error { message: msg, subtype: st, pos: p, building: b })
        } else if str_eq_str(t.as_str(), "game_over") {
            let msg = match j.get("message") {
                Some(Json::Str(s)) => s.clone(),
                _ => { return None; },
            };
            let sc = match j.get("score") {
                Some(v) => match i32_x(v) {
                    Some(s) => s,
                    None => { return None; },
                },
                None => { return None; },
            };
            Some(Answer::GameOver { message: msg, score: sc })
        } else if str_eq_str(t.as_str(), "debug") {
            let msg = match j.get("message") {
                Some(Json::Str(s)) => s.clone(),
                _ => { return None; },
            };
            Some(Answer::Debug { message: msg })
        } else {
            None
        }
    }
}

} // verus!
