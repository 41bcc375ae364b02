use epoch_client::client::EpochClient;
use epoch_client::client::intent_to_command;
use epoch_client::client::locator_target;
use epoch_client::codec::Command;
use epoch_client::game::Building;
use epoch_client::game::Game;
use epoch_client::game::PriceList;
use epoch_client::message::FromGuiMessage;

#[test]
fn new_remembers_the_configuration() {
    let c = EpochClient::new("host:4200", "Ada", Some("tok"));
    assert_eq!(c.address, "host:4200");
    assert_eq!(c.name, "Ada");
    assert_eq!(c.token, Some(String::from("tok")));
    let d = EpochClient::new("host:4200", "Ada", None);
    assert_eq!(d.token, None);
}

#[test]
fn handshake_prefers_the_rejoin_token() {
    let c = EpochClient::new("a", "Ada", Some("tok"));
    assert_eq!(c.handshake_command(), Command::Rejoin { token: String::from("tok") });
    let d = EpochClient::new("a", "Ada", None);
    assert_eq!(d.handshake_command(), Command::Welcome { name: String::from("Ada") });
}

#[test]
fn intents_translate_one_to_one() {
    assert_eq!(
        intent_to_command(FromGuiMessage::Build((3, 4), Building::Tower)),
        Some(Command::Build { x: 3, y: 4, building: Building::Tower }),
    );
    assert_eq!(
        intent_to_command(FromGuiMessage::Excavate((1, 2))),
        Some(Command::Excavate { x: 1, y: 2 }),
    );
    assert_eq!(intent_to_command(FromGuiMessage::Skip), Some(Command::EndTurn));
    assert_eq!(intent_to_command(FromGuiMessage::Quit), None);
}

#[test]
fn locator_line_names_the_second_hop() {
    assert_eq!(locator_target("127.0.0.1:9000\n"), "127.0.0.1:9000");
    assert_eq!(locator_target("127.0.0.1:9000"), "127.0.0.1:9000");
    assert_eq!(locator_target("  game.example:1234 \r\n"), "game.example:1234");
    assert_eq!(locator_target("\r\n"), "");
    assert_eq!(locator_target(""), "");
}

#[test]
fn a_fresh_game_is_empty() {
    let g = Game::new();
    assert_eq!(g.player, None);
    assert_eq!(g.size, (5, 5));
    assert!(g.scores.is_empty());
    assert!(g.buildings.is_empty());
    assert_eq!(g.turn, 0);
    assert_eq!(g.tower_count, 0);
    assert_eq!(g.rejoin, "");
    assert_eq!(g.prices.get(Building::House), None);
    assert_eq!(g.prices.get(Building::Villa), None);
    assert_eq!(g.prices.get(Building::Tower), None);
}

#[test]
fn price_list_keeps_the_latest_price() {
    let mut p = PriceList::empty();
    p.set(Building::Villa, 5);
    assert_eq!(p.get(Building::Villa), Some(5));
    p.set(Building::Villa, 9);
    assert_eq!(p.get(Building::Villa), Some(9));
    assert_eq!(p.get(Building::House), None);
}

#[test]
fn building_names_parse_back() {
    for b in [Building::House, Building::Villa, Building::Tower] {
        assert_eq!(Building::parse(b.name()), Some(b));
    }
    assert_eq!(Building::parse("HOUSE"), Some(Building::House));
    assert_eq!(Building::parse("ViLlA"), Some(Building::Villa));
    assert_eq!(Building::parse("tower"), Some(Building::Tower));
    assert_eq!(Building::parse("castle"), None);
    assert_eq!(Building::parse(""), None);
    assert_eq!(Building::parse("housee"), None);
    assert_eq!(Building::parse("hous"), None);
}

#[test]
fn building_names_print_lowercase() {
    assert_eq!(Building::House.name(), "house");
    assert_eq!(Building::Villa.name(), "villa");
    assert_eq!(Building::Tower.name(), "tower");
}
