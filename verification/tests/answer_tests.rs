use epoch_client::codec::Answer;
use epoch_client::codec::ExcavateAnswer;
use epoch_client::game::Building;
use epoch_client::game::MapAnswer;
use epoch_client::json::Json;
use epoch_client::json::parse_json;

#[test]
fn decode_welcome() {
    let got = Answer::decode("{\"type\":\"welcome\",\"player\":2,\"map_size\":[8,8],\"rejoin\":\"abc123\"}");
    assert_eq!(
        got,
        Some(Answer::Welcome { player: 2, map_size: (8, 8), rejoin: String::from("abc123") }),
    );
}

#[test]
fn decode_welcome_any_field_order() {
    let got = Answer::decode("{\"rejoin\":\"r\",\"map_size\":[3,5],\"player\":0,\"type\":\"welcome\"}");
    assert_eq!(got, Some(Answer::Welcome { player: 0, map_size: (3, 5), rejoin: String::from("r") }));
}

#[test]
fn decode_end_of_turn_full() {
    let line = String::from("{\"type\":\"end_of_turn\",")
        + "\"scores\":[{\"name\":\"Ada\",\"score\":12},{\"name\":\"Bo\",\"score\":-3}],"
        + "\"map\":[{\"pos\":[1,2],\"building\":\"house\"},{\"pos\":[3,4],\"building\":\"tower\"}],"
        + "\"turn\":7,"
        + "\"excavate_result\":{\"depth\":-2,\"building\":\"villa\",\"pos\":[5,6]},"
        + "\"current_prices\":{\"house\":10,\"villa\":20,\"tower\":30},"
        + "\"tower_count\":1}";
    let got = Answer::decode(&line).expect("should decode");
    match got {
        Answer::EndOfTurn { scores, map, turn, excavate_result, current_prices, tower_count } => {
            assert_eq!(scores.len(), 2);
            assert_eq!(scores[0].name, "Ada");
            assert_eq!(scores[0].score, 12);
            assert_eq!(scores[1].name, "Bo");
            assert_eq!(scores[1].score, -3);
            assert_eq!(
                map,
                vec![
                    MapAnswer { pos: (1, 2), building: Building::House },
                    MapAnswer { pos: (3, 4), building: Building::Tower },
                ],
            );
            assert_eq!(turn, 7);
            assert_eq!(
                excavate_result,
                Some(ExcavateAnswer { depth: -2, building: Some(Building::Villa), pos: (5, 6) }),
            );
            assert_eq!(current_prices.get(Building::House), Some(10));
            assert_eq!(current_prices.get(Building::Villa), Some(20));
            assert_eq!(current_prices.get(Building::Tower), Some(30));
            assert_eq!(tower_count, 1);
        },
        other => panic!("wrong variant: {:?}", other),
    }
}

#[test]
fn decode_end_of_turn_minimal() {
    let line = "{\"type\":\"end_of_turn\",\"scores\":[],\"map\":[],\"turn\":0,\"current_prices\":{},\"tower_count\":0}";
    let got = Answer::decode(line).expect("should decode");
    match got {
        Answer::EndOfTurn { scores, map, turn, excavate_result, current_prices, tower_count } => {
            assert!(scores.is_empty());
            assert!(map.is_empty());
            assert_eq!(turn, 0);
            assert_eq!(excavate_result, None);
            assert_eq!(current_prices.get(Building::House), None);
            assert_eq!(tower_count, 0);
        },
        other => panic!("wrong variant: {:?}", other),
    }
}

#[test]
fn decode_end_of_turn_null_excavate() {
    let line = "{\"type\":\"end_of_turn\",\"scores\":[],\"map\":[],\"turn\":1,\"excavate_result\":null,\"current_prices\":{},\"tower_count\":0}";
    match Answer::decode(line).expect("should decode") {
        Answer::EndOfTurn { excavate_result, .. } => assert_eq!(excavate_result, None),
        other => panic!("wrong variant: {:?}", other),
    }
}

#[test]
fn decode_excavate_without_building() {
    let line = "{\"type\":\"end_of_turn\",\"scores\":[],\"map\":[],\"turn\":1,\"excavate_result\":{\"depth\":3,\"pos\":[0,0]},\"current_prices\":{},\"tower_count\":0}";
    match Answer::decode(line).expect("should decode") {
        Answer::EndOfTurn { excavate_result, .. } => {
            assert_eq!(excavate_result, Some(ExcavateAnswer { depth: 3, building: None, pos: (0, 0) }));
        },
        other => panic!("wrong variant: {:?}", other),
    }
}

#[test]
fn decode_prices_case_insensitive_and_last_wins() {
    let line = "{\"type\":\"end_of_turn\",\"scores\":[],\"map\":[],\"turn\":1,\"current_prices\":{\"House\":5,\"HOUSE\":8},\"tower_count\":0}";
    match Answer::decode(line).expect("should decode") {
        Answer::EndOfTurn { current_prices, .. } => {
            assert_eq!(current_prices.get(Building::House), Some(8));
        },
        other => panic!("wrong variant: {:?}", other),
    }
}

#[test]
fn decode_rejects_unknown_price_key() {
    let line = "{\"type\":\"end_of_turn\",\"scores\":[],\"map\":[],\"turn\":1,\"current_prices\":{\"castle\":5},\"tower_count\":0}";
    assert_eq!(Answer::decode(line), None);
}

#[test]
fn decode_error_with_everything() {
    let line = "{\"type\":\"error\",\"message\":\"no\",\"subtype\":\"invalid_build_error\",\"pos\":[3,4],\"building\":\"villa\"}";
    assert_eq!(
        Answer::decode(line),
        Some(Answer::Error {
            message: String::from("no"),
            subtype: Some(String::from("invalid_build_error")),
            pos: Some((3, 4)),
            building: Some(Building::Villa),
        }),
    );
}

#[test]
fn decode_error_minimal() {
    let line = "{\"type\":\"error\",\"message\":\"no\"}";
    assert_eq!(
        Answer::decode(line),
        Some(Answer::Error { message: String::from("no"), subtype: None, pos: None, building: None }),
    );
}

#[test]
fn decode_error_null_optionals() {
    let line = "{\"type\":\"error\",\"message\":\"no\",\"subtype\":null,\"pos\":null,\"building\":null}";
    assert_eq!(
        Answer::decode(line),
        Some(Answer::Error { message: String::from("no"), subtype: None, pos: None, building: None }),
    );
}

#[test]
fn decode_game_over() {
    let line = "{\"type\":\"game_over\",\"message\":\"done\",\"score\":-42}";
    assert_eq!(
        Answer::decode(line),
        Some(Answer::GameOver { message: String::from("done"), score: -42 }),
    );
}

#[test]
fn decode_debug() {
    let line = "{\"type\":\"debug\",\"message\":\"hi\"}";
    assert_eq!(Answer::decode(line), Some(Answer::Debug { message: String::from("hi") }));
}

#[test]
fn decode_rejects_malformed_lines() {
    assert_eq!(Answer::decode("{not json"), None);
    assert_eq!(Answer::decode("[1,2,3]"), None);
    assert_eq!(Answer::decode("{\"type\":\"mystery\"}"), None);
    assert_eq!(Answer::decode("{\"type\":\"welcome\",\"player\":-1,\"map_size\":[8,8],\"rejoin\":\"r\"}"), None);
    assert_eq!(Answer::decode("{\"type\":\"welcome\",\"player\":2,\"map_size\":[8],\"rejoin\":\"r\"}"), None);
    assert_eq!(Answer::decode("{\"type\":\"game_over\",\"message\":\"m\",\"score\":2.5}"), None);
}

#[test]
fn parse_json_handles_nesting_and_limits() {
    assert!(parse_json("[1,[2,[3,[4]]],{\"a\":[true,false,null]}]").is_some());
    assert_eq!(parse_json("9223372036854775807"), Some(Json::Int(9223372036854775807)));
    assert_eq!(parse_json("-9223372036854775808"), Some(Json::Int(-9223372036854775808)));
    assert_eq!(parse_json("9223372036854775808"), None);
    assert_eq!(parse_json("1.5"), None);
    assert_eq!(parse_json("1e3"), None);
    assert_eq!(parse_json("\"\\u0041\""), Some(Json::Str(String::from("A"))));
}
