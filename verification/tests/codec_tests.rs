use epoch_client::codec::Command;
use epoch_client::game::Building;

fn round_trips(c: Command) {
    let line = c.encode();
    let back = Command::decode(line.as_str());
    assert_eq!(back, Some(c));
}

#[test]
fn welcome_round_trip() {
    round_trips(Command::Welcome { name: String::from("Ada") });
}

#[test]
fn welcome_encodes_canonically() {
    let c = Command::Welcome { name: String::from("Ada") };
    assert_eq!(c.encode(), "{\"type\":\"welcome\",\"name\":\"Ada\"}");
}

#[test]
fn rejoin_round_trip() {
    round_trips(Command::Rejoin { token: String::from("abc123") });
}

#[test]
fn end_turn_round_trip() {
    round_trips(Command::EndTurn);
    assert_eq!(Command::EndTurn.encode(), "{\"type\":\"end_turn\"}");
}

#[test]
fn build_round_trip() {
    round_trips(Command::Build { x: 3, y: 4, building: Building::Villa });
    let c = Command::Build { x: 3, y: 4, building: Building::Villa };
    assert_eq!(c.encode(), "{\"type\":\"build\",\"x\":3,\"y\":4,\"building\":\"villa\"}");
}

#[test]
fn excavate_round_trip() {
    round_trips(Command::Excavate { x: 0, y: 4294967295 });
    let c = Command::Excavate { x: 0, y: 4294967295 };
    assert_eq!(c.encode(), "{\"type\":\"excavate\",\"x\":0,\"y\":4294967295}");
}

#[test]
fn tricky_names_round_trip() {
    round_trips(Command::Welcome { name: String::from("a \"quoted\" name") });
    round_trips(Command::Welcome { name: String::from("back\\slash") });
    round_trips(Command::Welcome { name: String::from("line\nbreak\ttab\rret") });
    round_trips(Command::Welcome { name: String::from("control\u{1}\u{1f}chars") });
    round_trips(Command::Welcome { name: String::from("unicode \u{263a} smile") });
    round_trips(Command::Welcome { name: String::new() });
}

#[test]
fn encoded_form_is_one_line_with_trailing_newline() {
    let cases = vec![
        Command::Welcome { name: String::from("new\nline") },
        Command::Rejoin { token: String::from("t") },
        Command::EndTurn,
        Command::Build { x: 1, y: 2, building: Building::House },
        Command::Excavate { x: 9, y: 9 },
    ];
    for c in cases {
        let line = c.encode_line();
        assert!(line.ends_with('\n'));
        let body = &line[..line.len() - 1];
        assert!(!body.contains('\n'));
        assert_eq!(line.matches('\n').count(), 1);
        assert_eq!(body, c.encode());
    }
}

#[test]
fn decode_tolerates_whitespace_and_field_order() {
    let got = Command::decode("  { \"name\" : \"Ada\" , \"type\" : \"welcome\" }  ");
    assert_eq!(got, Some(Command::Welcome { name: String::from("Ada") }));
}

#[test]
fn decode_ignores_unknown_fields() {
    let got = Command::decode("{\"type\":\"end_turn\",\"extra\":[1,2,{\"a\":null}]}");
    assert_eq!(got, Some(Command::EndTurn));
}

#[test]
fn decode_building_name_case_insensitively() {
    let got = Command::decode("{\"type\":\"build\",\"x\":1,\"y\":2,\"building\":\"VILLA\"}");
    assert_eq!(got, Some(Command::Build { x: 1, y: 2, building: Building::Villa }));
}

#[test]
fn decode_rejects_bad_commands() {
    assert_eq!(Command::decode("{not json"), None);
    assert_eq!(Command::decode(""), None);
    assert_eq!(Command::decode("{\"type\":\"warp\"}"), None);
    assert_eq!(Command::decode("{\"type\":\"welcome\"}"), None);
    assert_eq!(Command::decode("{\"type\":\"build\",\"x\":-1,\"y\":2,\"building\":\"villa\"}"), None);
    assert_eq!(
        Command::decode("{\"type\":\"build\",\"x\":4294967296,\"y\":2,\"building\":\"villa\"}"),
        None,
    );
    assert_eq!(Command::decode("{\"type\":\"build\",\"x\":1,\"y\":2,\"building\":\"castle\"}"), None);
    assert_eq!(Command::decode("{\"type\":\"end_turn\"} trailing"), None);
}

#[test]
fn decode_resolves_string_escapes() {
    let got = Command::decode("{\"type\":\"welcome\",\"name\":\"\\u0041\\n\\t\\\"x\\\\\"}");
    assert_eq!(got, Some(Command::Welcome { name: String::from("A\n\t\"x\\") }));
}

#[test]
fn decode_rejects_surrogate_escape() {
    assert_eq!(Command::decode("{\"type\":\"welcome\",\"name\":\"\\ud800\"}"), None);
}
