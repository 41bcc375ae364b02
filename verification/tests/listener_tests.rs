use epoch_client::codec::Answer;
use epoch_client::codec::ExcavateAnswer;
use epoch_client::game::Building;
use epoch_client::game::Game;
use epoch_client::game::MapAnswer;
use epoch_client::game::PriceList;
use epoch_client::game::ScoreEntry;
use epoch_client::listener::handle_answer;
use epoch_client::listener::handle_line;
use epoch_client::message::ToGuiMessage;

fn building_at(g: &Game, pos: (u32, u32)) -> Option<Building> {
    let mut found = None;
    for e in &g.buildings {
        if e.pos == pos {
            found = Some(e.building);
        }
    }
    found
}

#[test]
fn welcome_fills_identity_and_notifies() {
    let mut g = Game::new();
    let a = Answer::Welcome { player: 2, map_size: (8, 8), rejoin: String::from("abc123") };
    let d = handle_answer(&mut g, a);
    assert_eq!(g.player, Some(2));
    assert_eq!(g.size, (8, 8));
    assert_eq!(g.rejoin, "abc123");
    assert_eq!(d.notes, vec![ToGuiMessage::UpdateGrid, ToGuiMessage::Start]);
    assert!(!d.stop);
    assert_eq!(g.turn, 0);
    assert!(g.scores.is_empty());
}

fn end_of_turn(map: Vec<MapAnswer>, turn: u32) -> Answer {
    let mut prices = PriceList::empty();
    prices.set(Building::House, 10);
    Answer::EndOfTurn {
        scores: vec![ScoreEntry { name: String::from("Ada"), score: 12 }],
        map,
        turn,
        excavate_result: None,
        current_prices: prices,
        tower_count: 3,
    }
}

#[test]
fn end_of_turn_replaces_turn_state() {
    let mut g = Game::new();
    let a = end_of_turn(
        vec![
            MapAnswer { pos: (1, 2), building: Building::House },
            MapAnswer { pos: (3, 4), building: Building::Tower },
        ],
        7,
    );
    let d = handle_answer(&mut g, a);
    assert_eq!(g.turn, 7);
    assert_eq!(g.tower_count, 3);
    assert_eq!(g.scores.len(), 1);
    assert_eq!(g.scores[0].name, "Ada");
    assert_eq!(g.prices.get(Building::House), Some(10));
    assert_eq!(g.prices.get(Building::Villa), None);
    assert_eq!(g.buildings.len(), 2);
    assert_eq!(building_at(&g, (1, 2)), Some(Building::House));
    assert_eq!(building_at(&g, (3, 4)), Some(Building::Tower));
    assert_eq!(
        d.notes,
        vec![
            ToGuiMessage::UpdateGrid,
            ToGuiMessage::UpdateBuildings,
            ToGuiMessage::ClearBuilding,
            ToGuiMessage::ClearExcavate,
        ],
    );
    assert!(!d.stop);
}

#[test]
fn end_of_turn_is_wholesale_and_idempotent() {
    let mut g = Game::new();
    handle_answer(&mut g, end_of_turn(vec![MapAnswer { pos: (1, 1), building: Building::House }], 1));
    assert_eq!(building_at(&g, (1, 1)), Some(Building::House));

    // old entries not present in the new list are gone
    handle_answer(&mut g, end_of_turn(vec![MapAnswer { pos: (2, 2), building: Building::Villa }], 2));
    assert_eq!(building_at(&g, (1, 1)), None);
    assert_eq!(building_at(&g, (2, 2)), Some(Building::Villa));
    assert_eq!(g.buildings.len(), 1);

    // applying the same answer again leaves the same state
    let before = (g.buildings.clone(), g.turn, g.tower_count);
    handle_answer(&mut g, end_of_turn(vec![MapAnswer { pos: (2, 2), building: Building::Villa }], 2));
    assert_eq!(building_at(&g, (2, 2)), Some(Building::Villa));
    assert_eq!(g.buildings.len(), 1);
    assert_eq!((g.buildings.clone(), g.turn, g.tower_count), before);
}

#[test]
fn end_of_turn_duplicate_positions_last_wins() {
    let mut g = Game::new();
    handle_answer(
        &mut g,
        end_of_turn(
            vec![
                MapAnswer { pos: (1, 1), building: Building::House },
                MapAnswer { pos: (1, 1), building: Building::Villa },
            ],
            1,
        ),
    );
    assert_eq!(g.buildings.len(), 1);
    assert_eq!(building_at(&g, (1, 1)), Some(Building::Villa));
}

#[test]
fn end_of_turn_reports_excavation() {
    let mut g = Game::new();
    let a = Answer::EndOfTurn {
        scores: vec![],
        map: vec![],
        turn: 1,
        excavate_result: Some(ExcavateAnswer { depth: -2, building: Some(Building::Tower), pos: (5, 6) }),
        current_prices: PriceList::empty(),
        tower_count: 0,
    };
    let d = handle_answer(&mut g, a);
    assert_eq!(d.notes.len(), 5);
    assert_eq!(d.notes[4], ToGuiMessage::ExcavateResult(-2, Some(Building::Tower), (5, 6)));
}

#[test]
fn game_over_notifies_and_requests_quit() {
    let mut g = Game::new();
    let a = Answer::GameOver { message: String::from("The end"), score: 10 };
    let d = handle_answer(&mut g, a);
    assert_eq!(
        d.notes,
        vec![
            ToGuiMessage::Message(String::from("Finish"), String::from("The end\nScore: 10")),
            ToGuiMessage::RequestQuit,
        ],
    );
    assert!(!d.stop);
    assert_eq!(g.player, None);
}

#[test]
fn game_over_negative_score_text() {
    let mut g = Game::new();
    let d = handle_answer(&mut g, Answer::GameOver { message: String::from("m"), score: -7 });
    assert_eq!(
        d.notes[0],
        ToGuiMessage::Message(String::from("Finish"), String::from("m\nScore: -7")),
    );
}

#[test]
fn debug_changes_nothing() {
    let mut g = Game::new();
    let d = handle_answer(&mut g, Answer::Debug { message: String::from("hi") });
    assert!(d.notes.is_empty());
    assert!(!d.stop);
}

fn error_answer(subtype: Option<&str>, pos: Option<(u32, u32)>, b: Option<Building>) -> Answer {
    Answer::Error {
        message: String::from("oops"),
        subtype: subtype.map(String::from),
        pos,
        building: b,
    }
}

#[test]
fn error_always_surfaces_a_message() {
    let mut g = Game::new();
    let d = handle_answer(&mut g, error_answer(None, None, None));
    assert_eq!(d.notes, vec![ToGuiMessage::Message(String::from("Error"), String::from("oops"))]);
    assert!(!d.stop);
}

#[test]
fn error_invalid_build_clears_marker() {
    let mut g = Game::new();
    let d = handle_answer(&mut g, error_answer(Some("invalid_build_error"), None, None));
    assert_eq!(
        d.notes,
        vec![
            ToGuiMessage::Message(String::from("Error"), String::from("oops")),
            ToGuiMessage::ClearBuilding,
        ],
    );
    assert!(!d.stop);
}

#[test]
fn error_build_already_used_resets_marker() {
    let mut g = Game::new();
    let d = handle_answer(
        &mut g,
        error_answer(Some("build_action_already_used_error"), Some((3, 4)), Some(Building::Villa)),
    );
    assert_eq!(
        d.notes,
        vec![
            ToGuiMessage::Message(String::from("Error"), String::from("oops")),
            ToGuiMessage::ClearBuilding,
            ToGuiMessage::SetBuilding((3, 4), Building::Villa),
        ],
    );
    assert!(!d.stop);
}

#[test]
fn error_build_already_used_without_position_only_clears() {
    let mut g = Game::new();
    let d = handle_answer(
        &mut g,
        error_answer(Some("build_action_already_used_error"), None, Some(Building::Villa)),
    );
    assert_eq!(
        d.notes,
        vec![
            ToGuiMessage::Message(String::from("Error"), String::from("oops")),
            ToGuiMessage::ClearBuilding,
        ],
    );
}

#[test]
fn error_game_already_running_quits_and_stops() {
    let mut g = Game::new();
    let d = handle_answer(&mut g, error_answer(Some("Game_Already_Running"), None, None));
    assert_eq!(
        d.notes,
        vec![
            ToGuiMessage::Message(String::from("Error"), String::from("oops")),
            ToGuiMessage::Quit,
        ],
    );
    assert!(d.stop);
}

#[test]
fn error_unknown_subtype_is_inert() {
    let mut g = Game::new();
    let d = handle_answer(&mut g, error_answer(Some("mystery_error"), None, None));
    assert_eq!(d.notes, vec![ToGuiMessage::Message(String::from("Error"), String::from("oops"))]);
    assert!(!d.stop);
}

#[test]
fn raw_lines_keep_their_newline() {
    let mut g = Game::new();
    let d = handle_line(&mut g, "{\"type\":\"welcome\",\"player\":3,\"map_size\":[4,4],\"rejoin\":\"r\"}\r\n");
    assert_eq!(d.notes, vec![ToGuiMessage::UpdateGrid, ToGuiMessage::Start]);
    assert_eq!(g.player, Some(3));
}

#[test]
fn malformed_line_between_debug_lines_is_skipped() {
    let mut g = Game::new();
    let d1 = handle_line(&mut g, "{\"type\":\"debug\",\"message\":\"one\"}");
    assert!(d1.notes.is_empty() && !d1.stop);
    let d2 = handle_line(&mut g, "{not json");
    assert!(d2.notes.is_empty() && !d2.stop);
    assert_eq!(g.player, None);
    assert_eq!(g.turn, 0);
    let d3 = handle_line(&mut g, "{\"type\":\"debug\",\"message\":\"two\"}");
    assert!(d3.notes.is_empty() && !d3.stop);
    // and a real answer after the bad line still lands
    let d4 = handle_line(&mut g, "{\"type\":\"welcome\",\"player\":1,\"map_size\":[2,2],\"rejoin\":\"r\"}");
    assert_eq!(d4.notes, vec![ToGuiMessage::UpdateGrid, ToGuiMessage::Start]);
    assert_eq!(g.player, Some(1));
}
