use f1gp::codec::{
    decode_position_infos, decode_qualis, decode_races, encode_position_infos, encode_qualis,
    encode_races,
};
use f1gp::error::Error;
use f1gp::json::{parse_json, Json};
use f1gp::quali::CompletedQualifying;
use f1gp::results::CompletedRace;
use f1gp::schedule::{decode_schedule, encode_schedule, GrandPrix, NormalWeekend, Schedule,
    Sessions, SprintWeekend};
use f1gp::utils::{PositionInfo, QualiPositionInfo};

fn sample_rows() -> Vec<PositionInfo> {
    vec![
        PositionInfo { position: 1, name: "Max Verstappen".to_string(), points: 575 },
        PositionInfo { position: 2, name: "Sergio Perez".to_string(), points: 285 },
    ]
}

#[test]
fn standings_cache_roundtrip() {
    let rows = sample_rows();
    let text = encode_position_infos(&rows);
    let back = decode_position_infos(&text).unwrap();
    assert_eq!(back, rows);
}

#[test]
fn standings_cache_roundtrip_with_awkward_names() {
    let rows = vec![
        PositionInfo { position: 0, name: "A\"B\\C\nD\tE".to_string(), points: 0 },
        PositionInfo { position: 2, name: "".to_string(), points: usize::MAX },
    ];
    let text = encode_position_infos(&rows);
    let back = decode_position_infos(&text).unwrap();
    assert_eq!(back, rows);
}

#[test]
fn empty_standings_cache_roundtrip() {
    let rows: Vec<PositionInfo> = Vec::new();
    let text = encode_position_infos(&rows);
    assert_eq!(text, "[]");
    let back = decode_position_infos(&text).unwrap();
    assert_eq!(back, rows);
}

#[test]
fn standings_cache_has_the_expected_shape() {
    let rows = vec![PositionInfo { position: 1, name: "Max".to_string(), points: 25 }];
    let text = encode_position_infos(&rows);
    assert_eq!(text, "[{\"position\":1,\"name\":\"Max\",\"points\":25}]");
}

#[test]
fn corrupt_standings_cache_reports_decode() {
    assert_eq!(decode_position_infos("not json").unwrap_err(), Error::Decode);
    assert_eq!(decode_position_infos("{\"x\":1}").unwrap_err(), Error::Decode);
    assert_eq!(decode_position_infos("[{\"position\":1}]").unwrap_err(), Error::Decode);
}

#[test]
fn races_cache_roundtrip() {
    let races = vec![
        CompletedRace::new(1, "Bahrain".to_string(), sample_rows()),
        CompletedRace::new(2, "Saudi Arabia".to_string(), Vec::new()),
    ];
    let text = encode_races(&races);
    let back = decode_races(&text).unwrap();
    assert_eq!(back, races);
}

#[test]
fn qualis_cache_roundtrip() {
    let qualis = vec![CompletedQualifying::new(
        1,
        "Bahrain".to_string(),
        vec![
            QualiPositionInfo {
                position: 1,
                name: "Max Verstappen".to_string(),
                q1: Some("1:28.877".to_string()),
                q2: Some("1:28.740".to_string()),
                q3: Some("1:28.265".to_string()),
            },
            QualiPositionInfo {
                position: 16,
                name: "Logan Sargeant".to_string(),
                q1: Some("1:30.214".to_string()),
                q2: None,
                q3: None,
            },
        ],
    )];
    let text = encode_qualis(&qualis);
    let back = decode_qualis(&text).unwrap();
    assert_eq!(back, qualis);
}

#[test]
fn schedule_cache_roundtrip() {
    let schedule = Schedule::new(vec![
        GrandPrix::new(
            "Bahrain".to_string(),
            "Sakhir".to_string(),
            Sessions::Normal(NormalWeekend {
                fp1: 1709283600,
                fp2: 1709298000,
                fp3: 1709369100,
                qualifying: 1709383500,
                gp: 1709470800,
            }),
        ),
        GrandPrix::new(
            "Chinese".to_string(),
            "Shanghai".to_string(),
            Sessions::Sprint(SprintWeekend {
                fp1: 1713497400,
                sprint_qualifying: 1713511800,
                sprint: 1713582000,
                qualifying: 1713596400,
                gp: 1713682800,
            }),
        ),
    ]);
    let text = encode_schedule(&schedule);
    let back = decode_schedule(&text).unwrap();
    assert_eq!(back, schedule);
}

#[test]
fn schedule_cache_roundtrip_with_pre_epoch_times() {
    let schedule = Schedule::new(vec![GrandPrix::new(
        "Somewhere".to_string(),
        "Past".to_string(),
        Sessions::Normal(NormalWeekend { fp1: -10, fp2: -5, fp3: 0, qualifying: 5, gp: 10 }),
    )]);
    let text = encode_schedule(&schedule);
    let back = decode_schedule(&text).unwrap();
    assert_eq!(back, schedule);
}

#[test]
fn corrupt_schedule_cache_reports_decode() {
    assert_eq!(decode_schedule("[]").unwrap_err(), Error::Decode);
    assert_eq!(decode_schedule("{\"races\":[{}]}").unwrap_err(), Error::Decode);
}

#[test]
fn json_reader_accepts_the_grammar() {
    assert!(matches!(parse_json("null"), Ok(Json::Null)));
    assert!(matches!(parse_json(" true "), Ok(Json::Bool(true))));
    assert!(matches!(parse_json("false"), Ok(Json::Bool(false))));
    match parse_json("\"a\\nb\"").unwrap() {
        Json::Str(s) => assert_eq!(s, "a\nb"),
        other => panic!("expected a string, got {:?}", other),
    }
    match parse_json("-12.5e3").unwrap() {
        Json::Num(s) => assert_eq!(s, "-12.5e3"),
        other => panic!("expected a number, got {:?}", other),
    }
    match parse_json("[1, 2,\t3]").unwrap() {
        Json::Arr(items) => assert_eq!(items.len(), 3),
        other => panic!("expected an array, got {:?}", other),
    }
    match parse_json("{ \"a\" : [ { } ] , \"b\" : \"c\" }").unwrap() {
        Json::Obj(fields) => {
            assert_eq!(fields.len(), 2);
            assert_eq!(fields[0].0, "a");
            assert_eq!(fields[1].0, "b");
        },
        other => panic!("expected an object, got {:?}", other),
    }
}

#[test]
fn json_reader_rejects_malformed_text() {
    assert!(parse_json("").is_err());
    assert!(parse_json("[1,]").is_err());
    assert!(parse_json("{\"a\":}").is_err());
    assert!(parse_json("\"unterminated").is_err());
    assert!(parse_json("\"bad\\u0041escape\"").is_err());
    assert!(parse_json("nul").is_err());
    assert!(parse_json("1 2").is_err());
}
