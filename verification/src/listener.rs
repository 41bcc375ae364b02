//! The listener's dispatch: what one line from the server does to the
//! game snapshot, and which notifications the presentation layer gets.
//!
//! The surrounding read loop lives outside the library: it reads one
//! line, takes the snapshot's lock, calls [`handle_line`], releases the
//! lock, and only then sends the returned notifications — so a reader
//! never sees a half-replaced snapshot, and no channel send happens
//! under the lock.

use vstd::prelude::*;

use crate::codec::Answer;
use crate::codec::AnswerV;
use crate::codec::decode_answer_spec;
use crate::game::Building;
use crate::game::Game;
use crate::game::GameView;
use crate::game::MapAnswer;
use crate::game::grid_unique;
use crate::game::lemma_map_of_grid_dom;
use crate::game::lower;
use crate::game::map_of_grid;
use crate::json::chars_to_string;
use crate::json::dec_i;
use crate::json::int_chars;
use crate::json::str_to_chars;
use crate::message::ToGuiMessage;

verus! {

/// What applying one answer leaves in the game snapshot: a welcome
/// fills in the identity fields, an end of turn replaces the whole
/// turn-scoped state (buildings wholesale, never merged), everything
/// else leaves the snapshot alone.
pub open spec fn game_after(v: GameView, a: AnswerV) -> GameView {
    match a {
        AnswerV::Welcome { player, map_size, rejoin } => GameView {
            player: Some(player),
            size: map_size,
            rejoin: rejoin,
            scores: v.scores,
            buildings: v.buildings,
            prices: v.prices,
            tower_count: v.tower_count,
            turn: v.turn,
        },
        AnswerV::EndOfTurn { scores, map, turn, excavate_result, current_prices, tower_count } => GameView {
            player: v.player,
            size: v.size,
            rejoin: v.rejoin,
            scores: scores,
            buildings: map_of_grid(map),
            prices: current_prices,
            tower_count: tower_count,
            turn: turn,
        },
        _ => v,
    }
}

/// The exact notification sequence an answer produces, and whether the
/// listener stops afterwards.
pub open spec fn dispatch_ok(notes: Seq<ToGuiMessage>, stop: bool, a: AnswerV) -> bool {
    match a {
        AnswerV::Welcome { .. } => notes.len() == 2 && notes[0] == ToGuiMessage::UpdateGrid
            && notes[1] == ToGuiMessage::Start && !stop,
        AnswerV::EndOfTurn { excavate_result, .. } => {
            &&& !stop
            &&& notes[0] == ToGuiMessage::UpdateGrid
            &&& notes[1] == ToGuiMessage::UpdateBuildings
            &&& notes[2] == ToGuiMessage::ClearBuilding
            &&& notes[3] == ToGuiMessage::ClearExcavate
            &&& (match excavate_result {
                Some(er) => notes.len() == 5 && notes[4] == ToGuiMessage::ExcavateResult(
                    er.depth,
                    er.building,
                    er.pos,
                ),
                None => notes.len() == 4,
            })
        },
        AnswerV::GameOver { message, score } => {
            &&& !stop
            &&& notes.len() == 2
            &&& (notes[0] matches ToGuiMessage::Message(t, b) && t@ == "Finish"@ && b@ == message
                + "\nScore: "@ + dec_i(score as int))
            &&& notes[1] == ToGuiMessage::RequestQuit
        },
        AnswerV::Debug { .. } => notes.len() == 0 && !stop,
        AnswerV::Error { message, subtype, pos, building } => {
            &&& notes.len() >= 1
            &&& (notes[0] matches ToGuiMessage::Message(t, b) && t@ == "Error"@ && b@ == message)
            &&& (if subtype matches Some(st) && lower(st) == "invalid_build_error"@ {
                notes.len() == 2 && notes[1] == ToGuiMessage::ClearBuilding && !stop
            } else if subtype matches Some(st) && lower(st) == "build_action_already_used_error"@ {
                !stop && (if pos is Some && building is Some {
                    notes.len() == 3 && notes[1] == ToGuiMessage::ClearBuilding && notes[2]
                        == ToGuiMessage::SetBuilding(pos->0, building->0)
                } else {
                    notes.len() == 2 && notes[1] == ToGuiMessage::ClearBuilding
                })
            } else if subtype matches Some(st) && lower(st) == "game_already_running"@ {
                notes.len() == 2 && notes[1] == ToGuiMessage::Quit && stop
            } else {
                notes.len() == 1 && !stop
            })
        },
    }
}

/// What the listener hands back for one line: the notifications to
/// send (after the lock is released), and whether to stop listening.
pub struct Dispatch {
    pub notes: Vec<ToGuiMessage>,
    pub stop: bool,
}

/// Folding a placement onto a list from the left: an already-placed
/// position keeps its later (winning) entry.
proof fn lemma_map_of_grid_cons(e: MapAnswer, s: Seq<MapAnswer>)
    ensures
        map_of_grid(seq![e] + s) == if map_of_grid(s).dom().contains(e.pos) {
            map_of_grid(s)
        } else {
            map_of_grid(s).insert(e.pos, e.building)
        },
    decreases s.len(),
{
    let c = seq![e] + s;
    if s.len() == 0 {
        assert(c.drop_last() =~= Seq::<MapAnswer>::empty());
        assert(c.last() == e);
        assert(s =~= Seq::<MapAnswer>::empty());
        assert(map_of_grid(Seq::<MapAnswer>::empty()) =~= Map::<(u32, u32), Building>::empty());
        assert(map_of_grid(c) =~= map_of_grid(s).insert(e.pos, e.building));
    } else {
        lemma_map_of_grid_cons(e, s.drop_last());
        assert(c.drop_last() =~= seq![e] + s.drop_last());
        let md = map_of_grid(s.drop_last());
        if md.dom().contains(e.pos) {
            assert(map_of_grid(s).dom().contains(e.pos));
            assert(map_of_grid(c) =~= map_of_grid(s));
        } else if e.pos == s.last().pos {
            assert(map_of_grid(s).dom().contains(e.pos));
            assert(map_of_grid(c) =~= map_of_grid(s));
        } else {
            assert(!map_of_grid(s).dom().contains(e.pos));
            assert(map_of_grid(c) =~= map_of_grid(s).insert(e.pos, e.building));
        }
    }
}

/// Whether some entry of the grid names this position.
fn grid_contains(grid: &Vec<MapAnswer>, pos: (u32, u32)) -> (r: bool)
    ensures
        r == map_of_grid(grid@).dom().contains(pos),
{
    proof {
        lemma_map_of_grid_dom(grid@);
    }
    let n = grid.len();
    let mut k: usize = 0;
    while k < n
        invariant
            n == grid@.len(),
            k <= n,
            forall|i: int| 0 <= i < k ==> grid@[i].pos != pos,
        decreases n - k,
    {
        if grid[k].pos.0 == pos.0 && grid[k].pos.1 == pos.1 {
            proof {
                lemma_map_of_grid_dom(grid@);
                assert(grid@[k as int].pos == pos);
            }
            return true;
        }
        k += 1;
    }
    proof {
        lemma_map_of_grid_dom(grid@);
    }
    false
}

/// Rebuilds the building grid from a broadcast map list: the result
/// holds exactly the positions the list names, each with its winning
/// entry, and no position twice.
fn rebuild_grid(map: &Vec<MapAnswer>) -> (grid: Vec<MapAnswer>)
    ensures
        map_of_grid(grid@) == map_of_grid(map@),
        grid_unique(grid@),
{
    let mut grid: Vec<MapAnswer> = Vec::new();
    let mut k = map.len();
    proof {
        assert(map@.skip(map@.len() as int) =~= Seq::<MapAnswer>::empty());
        assert(map_of_grid(Seq::<MapAnswer>::empty()) =~= Map::<(u32, u32), Building>::empty());
    }
    while k > 0
        invariant
            k <= map@.len(),
            map_of_grid(grid@) == map_of_grid(map@.skip(k as int)),
            grid_unique(grid@),
        decreases k,
    {
        k -= 1;
        let e = map[k];
        proof {
            assert(map@.skip(k as int) =~= seq![map@[k as int]] + map@.skip(k + 1));
            lemma_map_of_grid_cons(map@[k as int], map@.skip(k + 1));
        }
        if !grid_contains(&grid, e.pos) {
            let ghost prev = grid@;
            proof {
                lemma_map_of_grid_dom(prev);
            }
            grid.push(e);
            proof {
                assert(grid@.drop_last() =~= prev);
                assert(grid@.last() == e);
                assert(map_of_grid(grid@) == map_of_grid(prev).insert(e.pos, e.building));
                assert forall|i: int| 0 <= i < prev.len() implies prev[i].pos != e.pos by {
                    if prev[i].pos == e.pos {
                        assert(map_of_grid(prev).dom().contains(e.pos));
                    }
                }
                assert(grid_unique(grid@));
            }
        }
    }
    proof {
        assert(map@.skip(0) =~= map@);
    }
    grid
}

/// Applies one decoded answer to the game snapshot and says what to
/// tell the presentation layer. The snapshot change is exactly
/// [`game_after`]; the notifications are exactly [`dispatch_ok`].
pub fn handle_answer(g: &mut Game, a: Answer) -> (r: Dispatch)
    requires
        grid_unique(old(g).buildings@),
    ensures
        final(g)@ == game_after(old(g)@, a@),
        grid_unique(final(g).buildings@),
        dispatch_ok(r.notes@, r.stop, a@),
{
    let mut notes: Vec<ToGuiMessage> = Vec::new();
    match a {
        Answer::Welcome { player, map_size, rejoin } => {
            g.player = Some(player);
            g.size = map_size;
            g.rejoin = rejoin;
            notes.push(ToGuiMessage::UpdateGrid);
            notes.push(ToGuiMessage::Start);
            proof {
                assert(final(g)@ =~= game_after(old(g)@, a@));
            }
            Dispatch { notes, stop: false }
        },
        Answer::EndOfTurn { scores, map, turn, excavate_result, current_prices, tower_count } => {
            notes.push(ToGuiMessage::UpdateGrid);
            notes.push(ToGuiMessage::UpdateBuildings);
            notes.push(ToGuiMessage::ClearBuilding);
            notes.push(ToGuiMessage::ClearExcavate);
            g.scores = scores;
            g.buildings = rebuild_grid(&map);
            g.turn = turn;
            g.prices = current_prices;
            g.tower_count = tower_count;
            match excavate_result {
                Some(er) => {
                    notes.push(ToGuiMessage::ExcavateResult(er.depth, er.building, er.pos));
                },
                None => {},
            }
            proof {
                assert(final(g)@ =~= game_after(old(g)@, a@));
            }
            Dispatch { notes, stop: false }
        },
        Answer::GameOver { message, score } => {
            let mut body = str_to_chars(message.as_str());
            body.push('\n');
            body.push('S');
            body.push('c');
            body.push('o');
            body.push('r');
            body.push('e');
            body.push(':');
            body.push(' ');
            let mut num = int_chars(score as i64);
            body.append(&mut num);
            let body_s = chars_to_string(&body);
            proof {
                reveal_strlit("\nScore: ");
                assert(body_s@ =~= message@ + "\nScore: "@ + dec_i(score as int));
            }
            notes.push(ToGuiMessage::Message(String::from_str("Finish"), body_s));
            notes.push(ToGuiMessage::RequestQuit);
            Dispatch { notes, stop: false }
        },
        Answer::Debug { message: _ } => Dispatch { notes, stop: false },
        Answer::Error { message, subtype, pos, building } => {
            notes.push(ToGuiMessage::Message(String::from_str("Error"), message));
            match &subtype {
                Some(st) => {
                    if crate::game::lower_eq(st.as_str(), "invalid_build_error") {
                        notes.push(ToGuiMessage::ClearBuilding);
                        Dispatch { notes, stop: false }
                    } else if crate::game::lower_eq(st.as_str(), "build_action_already_used_error") {
                        notes.push(ToGuiMessage::ClearBuilding);
                        match (pos, building) {
                            (Some(p), Some(b)) => {
                                notes.push(ToGuiMessage::SetBuilding(p, b));
                                Dispatch { notes, stop: false }
                            },
                            _ => Dispatch { notes, stop: false },
                        }
                    } else if crate::game::lower_eq(st.as_str(), "game_already_running") {
                        notes.push(ToGuiMessage::Quit);
                        Dispatch { notes, stop: true }
                    } else {
                        Dispatch { notes, stop: false }
                    }
                },
                None => Dispatch { notes, stop: false },
            }
        },
    }
}

/// Handles one raw line from the server: a line the codec rejects is
/// skipped — the snapshot stands, nothing is notified, listening goes
/// on — so one bad line never ends the stream; a decoded answer is
/// applied as [`handle_answer`] says.
pub fn handle_line(g: &mut Game, line: &str) -> (r: Dispatch)
    requires
        grid_unique(old(g).buildings@),
    ensures
        grid_unique(final(g).buildings@),
        (match decode_answer_spec(line@) {
            Some(av) => final(g)@ == game_after(old(g)@, av) && dispatch_ok(r.notes@, r.stop, av),
            None => final(g)@ == old(g)@ && r.notes@ == Seq::<ToGuiMessage>::empty() && !r.stop,
        }),
{
    match Answer::decode(line) {
        Some(a) => handle_answer(g, a),
        None => Dispatch { notes: Vec::new(), stop: false },
    }
}

/// Applying the same answer twice leaves the same snapshot as applying
/// it once: every end-of-turn replaces the turn-scoped state wholesale,
/// and every other answer writes fields that depend on the answer
/// alone.
pub proof fn lemma_answer_idempotent(v: GameView, a: AnswerV)
    ensures
        game_after(game_after(v, a), a) == game_after(v, a),
{
    assert(game_after(game_after(v, a), a) =~= game_after(v, a));
}

/// After an end of turn, the snapshot holds a building exactly at the
/// positions the broadcast map list names — whatever stood before is
/// gone.
pub proof fn lemma_end_of_turn_buildings(v: GameView, a: AnswerV)
    requires
        a is EndOfTurn,
    ensures
        forall|p: (u32, u32)|
            #[trigger] game_after(v, a).buildings.dom().contains(p) <==> exists|i: int|
                0 <= i < a->map.len() && #[trigger] a->map[i].pos == p,
{
    lemma_map_of_grid_dom(a->map);
}

} // verus!
