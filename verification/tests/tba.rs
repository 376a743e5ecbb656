use base64::Engine;
use infiniscouter::cache::Fetch;
use infiniscouter::config::{
    DisplayConfig, GameConfig, PreMatchDisplay, StatboticsConfig, TbaConfig, TbaMatchProp,
    TbaMatchPropOption, TbaMatchPropType,
};
use infiniscouter::data::{CounterEntry, MatchBoolEntry, MatchEntryValue, MatchEnumEntry};
use infiniscouter::str_map::StrMap;
use infiniscouter::tba::{
    avatar_of, custom_entries_for, event_teams, EventInfo, MatchId, MatchResult, RawTbaAlliance,
    RawTbaAlliances, RawTbaImage, RawTbaImageDetails, RawTbaMatch, RawTbaScoreBreakdownValue,
    RawTbaScoreBreakdowns, RawTbaTeam, RawTbaTeamInfo, SetMatch, Tba, TbaError, TeamInfo,
};

fn prop(ty: TbaMatchPropType, property: &str, options: Option<Vec<(&str, Option<&str>)>>) -> TbaMatchProp {
    TbaMatchProp {
        ty,
        property: property.to_string(),
        name: property.to_string(),
        options: options.map(|list| {
            list.into_iter()
                .map(|(id, name)| TbaMatchPropOption { id: id.to_string(), name: name.map(|n| n.to_string()) })
                .collect()
        }),
    }
}

fn game(props: Vec<(&str, TbaMatchProp)>) -> GameConfig {
    let mut map = StrMap::new();
    for (id, p) in props {
        map.insert(id.to_string(), p);
    }
    GameConfig {
        name: "Test Game".to_string(),
        year: 2024,
        categories: StrMap::new(),
        tba: TbaConfig { order: 1, props: map },
        statbotics: StatboticsConfig { props: StrMap::new() },
        ranking_points: vec![],
        display: DisplayConfig {
            team_row: vec![],
            pre_match: PreMatchDisplay { score: String::new(), graph: vec![], metrics: vec![] },
        },
    }
}

fn sample_game() -> GameConfig {
    game(vec![
        ("auto_line", prop(TbaMatchPropType::Bool, "autoLineRobot{N}", None)),
        (
            "endgame",
            prop(
                TbaMatchPropType::Enum,
                "endGameRobot{N}",
                Some(vec![("None", None), ("Parked", Some("Park")), ("DeepCage", Some("Deep"))]),
            ),
        ),
        ("fouls", prop(TbaMatchPropType::Number, "foulCount", None)),
        (
            "bonuses",
            prop(
                TbaMatchPropType::Sum,
                "autoBonusAchieved",
                Some(vec![("autoBonusAchieved", None), ("coralBonusAchieved", None), ("bargeBonusAchieved", None)]),
            ),
        ),
    ])
}

fn breakdown(values: Vec<(&str, RawTbaScoreBreakdownValue)>) -> StrMap<RawTbaScoreBreakdownValue> {
    let mut map = StrMap::new();
    for (id, value) in values {
        map.insert(id.to_string(), value);
    }
    map
}

fn text(s: &str) -> RawTbaScoreBreakdownValue {
    RawTbaScoreBreakdownValue::Text(s.to_string())
}

fn from_feed_bool(value: bool) -> MatchEntryValue {
    MatchEntryValue::Bool(MatchBoolEntry { value, scout: "TBA".to_string(), timestamp_ms: 0 })
}

fn from_feed_count(count: i32) -> MatchEntryValue {
    MatchEntryValue::Counter(CounterEntry { count, scout: "TBA".to_string(), timestamp_ms: 0 })
}

fn from_feed_choice(value: &str) -> MatchEntryValue {
    MatchEntryValue::Enum(MatchEnumEntry { value: value.to_string(), scout: "TBA".to_string(), timestamp_ms: 0 })
}

fn raw_match(level: &str, number: u32, time: Option<u64>, blue: &[&str], red: &[&str]) -> RawTbaMatch {
    RawTbaMatch {
        alliances: RawTbaAlliances {
            blue: RawTbaAlliance { score: Some(10), team_keys: blue.iter().map(|k| k.to_string()).collect() },
            red: RawTbaAlliance { score: Some(20), team_keys: red.iter().map(|k| k.to_string()).collect() },
        },
        actual_time: time,
        predicted_time: Some(1),
        comp_level: level.to_string(),
        set_number: 1,
        match_number: number,
        score_breakdown: None,
        winning_alliance: Some("red".to_string()),
    }
}

#[test]
fn properties_are_read_for_each_place() {
    let values = breakdown(vec![
        ("autoLineRobot1", text("Yes")),
        ("autoLineRobot2", text("No")),
        ("autoLineRobot3", RawTbaScoreBreakdownValue::Boolean(true)),
        ("endGameRobot1", text("Parked")),
        ("endGameRobot3", text("None")),
        ("foulCount", RawTbaScoreBreakdownValue::Number(4)),
        ("autoBonusAchieved", RawTbaScoreBreakdownValue::Boolean(true)),
        ("coralBonusAchieved", text("yes")),
        ("bargeBonusAchieved", RawTbaScoreBreakdownValue::Boolean(false)),
    ]);
    let places = custom_entries_for(&sample_game(), Some(&values)).unwrap();
    assert_eq!(places[0].len(), 4);
    assert_eq!(places[0].get("tba-auto_line"), Some(&from_feed_bool(true)));
    assert_eq!(places[1].get("tba-auto_line"), Some(&from_feed_bool(false)));
    assert_eq!(places[2].get("tba-auto_line"), Some(&from_feed_bool(true)));
    assert_eq!(places[0].get("tba-endgame"), Some(&from_feed_choice("Park")));
    assert_eq!(places[1].get("tba-endgame"), None);
    assert_eq!(places[2].get("tba-endgame"), Some(&from_feed_choice("None")));
    for place in &places {
        assert_eq!(place.get("tba-fouls"), Some(&from_feed_count(4)));
        assert_eq!(place.get("tba-bonuses"), Some(&from_feed_count(2)));
    }
    let none = custom_entries_for(&sample_game(), None).unwrap();
    assert!(none.iter().all(|place| place.is_empty()));
}

#[test]
fn a_property_of_another_type_is_an_error() {
    let wrong = [
        breakdown(vec![("autoLineRobot2", RawTbaScoreBreakdownValue::Number(1))]),
        breakdown(vec![("endGameRobot1", text("Flying"))]),
        breakdown(vec![("endGameRobot3", RawTbaScoreBreakdownValue::Boolean(true))]),
        breakdown(vec![("foulCount", text("4"))]),
        breakdown(vec![("foulCount", RawTbaScoreBreakdownValue::Unknown)]),
    ];
    for values in wrong {
        assert_eq!(custom_entries_for(&sample_game(), Some(&values)), Err(TbaError::PropertyMismatch));
    }
}

#[test]
fn a_match_of_the_feed_is_read() {
    let mut raw = raw_match("qm", 7, Some(5_000), &["frc118", "frc254", "1678"], &["frc1", "frc2", "frc3"]);
    raw.winning_alliance = None;
    raw.alliances.blue.score = Some(55);
    raw.alliances.red.score = Some(55);
    raw.score_breakdown = Some(RawTbaScoreBreakdowns {
        blue: breakdown(vec![("rp", RawTbaScoreBreakdownValue::Number(3)), ("foulCount", RawTbaScoreBreakdownValue::Number(2))]),
        red: breakdown(vec![("rp", text("4"))]),
    });
    let m = raw.into_match(&sample_game()).unwrap();
    assert_eq!(m.id, MatchId::Qualification(SetMatch { set: 1, num: 7 }));
    assert_eq!(m.start_time, 5_000);
    assert_eq!(m.teams_blue, vec![118, 254, 1678]);
    assert_eq!(m.teams_red, vec![1, 2, 3]);
    assert_eq!(m.score_blue, Some(55));
    assert_eq!(m.result, MatchResult::Tie);
    assert_eq!(m.rp_blue, Some(3));
    assert_eq!(m.rp_red, None);
    assert_eq!(m.custom_entries.blue[1].get("tba-fouls"), Some(&from_feed_count(2)));
    assert!(m.custom_entries.red[0].is_empty());
}

#[test]
fn levels_scores_and_results_of_matches() {
    let game = sample_game();
    let levels = [
        ("q", Some(MatchId::Qualification(SetMatch { set: 1, num: 2 }))),
        ("qm", Some(MatchId::Qualification(SetMatch { set: 1, num: 2 }))),
        ("qf", Some(MatchId::Quarterfinal(SetMatch { set: 1, num: 2 }))),
        ("sf", Some(MatchId::Semifinal(SetMatch { set: 1, num: 2 }))),
        ("f", Some(MatchId::Final(SetMatch { set: 1, num: 2 }))),
        ("ef", None),
        ("", None),
    ];
    for (level, id) in levels {
        let read = raw_match(level, 2, None, &[], &[]).into_match(&game);
        assert_eq!(read.as_ref().ok().map(|m| m.id), id, "{level}");
        if id.is_none() {
            assert_eq!(read, Err(TbaError::UnknownCompLevel));
        }
    }
    let m = raw_match("f", 1, None, &[], &[]).into_match(&game).unwrap();
    assert_eq!(m.start_time, 1);
    assert_eq!(m.result, MatchResult::Red);
    let mut raw = raw_match("f", 1, None, &[], &[]);
    raw.predicted_time = None;
    raw.winning_alliance = Some("blue".to_string());
    raw.alliances.blue.score = Some(-1);
    let m = raw.into_match(&game).unwrap();
    assert_eq!(m.start_time, 0);
    assert_eq!(m.result, MatchResult::Blue);
    assert_eq!(m.score_blue, None);
    let mut raw = raw_match("f", 1, None, &[], &[]);
    raw.winning_alliance = Some("".to_string());
    assert_eq!(raw.into_match(&game).unwrap().result, MatchResult::Tbd);
    assert_eq!(raw_match("f", 1, None, &["frcx"], &[]).into_match(&game), Err(TbaError::BadTeamKey));
    assert_eq!(raw_match("zz", 1, None, &["frcx"], &[]).into_match(&game), Err(TbaError::UnknownCompLevel));
    let mut raw = raw_match("f", 1, None, &[], &[]);
    raw.score_breakdown = Some(RawTbaScoreBreakdowns {
        blue: breakdown(vec![("rp", RawTbaScoreBreakdownValue::Number(-1))]),
        red: breakdown(vec![("rp", RawTbaScoreBreakdownValue::Number(65_537))]),
    });
    let m = raw.into_match(&game).unwrap();
    assert_eq!(m.rp_blue, Some(65_535));
    assert_eq!(m.rp_red, Some(1));
}

#[test]
fn an_event_sorts_its_matches_and_counts_the_records() {
    let mut third = raw_match("qm", 3, Some(300), &["frc1", "frc2"], &["frc3", "frc4"]);
    third.winning_alliance = Some("blue".to_string());
    third.score_breakdown = Some(RawTbaScoreBreakdowns {
        blue: breakdown(vec![("rp", RawTbaScoreBreakdownValue::Number(4))]),
        red: breakdown(vec![("rp", RawTbaScoreBreakdownValue::Number(1))]),
    });
    let mut tie = raw_match("qm", 2, Some(200), &["frc1", "frc3"], &["frc2", "frc4"]);
    tie.winning_alliance = None;
    tie.alliances.red.score = Some(10);
    let raws = vec![
        third,
        raw_match("practice", 9, Some(50), &["frc1"], &["frc2"]),
        tie,
        raw_match("qm", 1, Some(100), &["frc1", "frc2"], &["frc3", "frc4"]),
        raw_match("f", 1, Some(200), &["frc1", "frc2"], &["frc3", "frc4"]),
    ];
    let teams = vec![
        RawTbaTeamInfo { num: 1, name: "One".to_string(), has_avatar: true },
        RawTbaTeamInfo { num: 3, name: "Three".to_string(), has_avatar: false },
        RawTbaTeamInfo { num: 9, name: "Nine".to_string(), has_avatar: false },
    ];
    let event = EventInfo::new(raws, teams, 2024, "2024test", &sample_game(), 42).unwrap();
    let ids: Vec<MatchId> = event.match_infos.iter().map(|m| m.id).collect();
    assert_eq!(
        ids,
        vec![
            MatchId::Qualification(SetMatch { set: 1, num: 1 }),
            MatchId::Qualification(SetMatch { set: 1, num: 2 }),
            MatchId::Final(SetMatch { set: 1, num: 1 }),
            MatchId::Qualification(SetMatch { set: 1, num: 3 }),
        ]
    );
    assert_eq!(event.event, "2024test");
    assert_eq!(event.year, 2024);
    assert_eq!(event.last_update, 42);
    assert_eq!(
        event.team_infos,
        vec![
            TeamInfo { num: 1, name: "One".to_string(), has_avatar: true, wins: 1, losses: 2, ties: 1, ranking_points: 4 },
            TeamInfo { num: 3, name: "Three".to_string(), has_avatar: false, wins: 2, losses: 1, ties: 1, ranking_points: 1 },
            TeamInfo { num: 9, name: "Nine".to_string(), has_avatar: false, wins: 0, losses: 0, ties: 0, ranking_points: 0 },
        ]
    );
    assert_eq!(event.team(3).map(|t| t.name.as_str()), Some("Three"));
    assert_eq!(event.team(2), None);
    assert_eq!(
        event.find_match(MatchId::Final(SetMatch { set: 1, num: 1 })).map(|m| m.start_time),
        Some(200)
    );
    assert_eq!(event.find_match(MatchId::Practice(SetMatch { set: 1, num: 9 })), None);
    assert_eq!(event.team_infos[0].get_icon_url(), Some("/avatar/1".to_string()));
    assert_eq!(event.team_infos[1].get_icon_url(), None);
}

#[test]
fn a_match_that_cannot_be_read_fails_the_event() {
    let raws = vec![
        raw_match("zz", 1, None, &[], &[]),
        raw_match("qm", 1, None, &["frc1"], &["two"]),
    ];
    assert_eq!(EventInfo::new(raws, vec![], 2024, "e", &sample_game(), 0), Err(TbaError::BadTeamKey));
    let mut bad = raw_match("qm", 1, None, &["frc1"], &["frc2"]);
    bad.score_breakdown = Some(RawTbaScoreBreakdowns {
        blue: StrMap::new(),
        red: breakdown(vec![("foulCount", text("many"))]),
    });
    assert_eq!(
        EventInfo::new(vec![bad], vec![], 2024, "e", &sample_game(), 0),
        Err(TbaError::PropertyMismatch)
    );
    let empty = EventInfo::new(vec![raw_match("zz", 1, None, &[], &[])], vec![], 2024, "e", &sample_game(), 0).unwrap();
    assert!(empty.match_infos.is_empty());
}

#[test]
fn teams_that_stand_in_are_dropped() {
    let team = |n: u32, name: Option<&str>, nickname: Option<&str>| RawTbaTeam {
        team_number: n,
        name: name.map(|s| s.to_string()),
        nickname: nickname.map(|s| s.to_string()),
    };
    let kept = event_teams(vec![
        team(118, Some("Long Name"), Some("Robonauts")),
        team(9990, None, None),
        team(9989, Some("Plain"), None),
        team(9999, None, None),
        team(10000, None, None),
    ]);
    let numbers: Vec<u32> = kept.iter().map(|t| t.team_number).collect();
    assert_eq!(numbers, vec![118, 9989, 10000]);
    let named: Vec<RawTbaTeamInfo> = kept.into_iter().map(|t| RawTbaTeamInfo::named(t, true)).collect();
    assert_eq!(named[0], RawTbaTeamInfo { num: 118, name: "Robonauts".to_string(), has_avatar: true });
    assert_eq!(named[1].name, "Plain");
    assert_eq!(named[2].name, "unknown");
}

#[test]
fn the_avatar_is_decoded_from_the_first_encoded_avatar() {
    let image = |ty: &str, data: Option<Option<&str>>| RawTbaImage {
        image_type: ty.to_string(),
        details: data.map(|d| RawTbaImageDetails { base64_image: d.map(|s| s.to_string()) }),
    };
    let media = vec![
        image("youtube", Some(Some("AAAA"))),
        image("avatar", None),
        image("avatar", Some(None)),
        image("avatar", Some(Some("aGVsbG8gd29ybGQ="))),
        image("avatar", Some(Some("AAAA"))),
    ];
    assert_eq!(avatar_of(&media), Some(b"hello world".to_vec()));
    let encoded = base64::engine::general_purpose::STANDARD.encode([0u8, 255, 7, 9]);
    assert_eq!(avatar_of(&vec![image("avatar", Some(Some(&encoded)))]), Some(vec![0u8, 255, 7, 9]));
    assert_eq!(avatar_of(&vec![image("avatar", Some(Some("not base64!"))), image("avatar", Some(Some("AAAA")))]), None);
    assert_eq!(avatar_of(&vec![image("youtube", Some(Some("AAAA")))]), None);
    assert_eq!(avatar_of(&vec![]), None);
}

#[test]
fn the_feed_cache_serves_events_and_avatars() {
    let event = |wins: u32, now: u64| EventInfo {
        match_infos: vec![],
        team_infos: vec![TeamInfo { num: 1, name: String::new(), has_avatar: false, wins, losses: 0, ties: 0, ranking_points: 0 }],
        event: "2024test".to_string(),
        year: 2024,
        last_update: now,
    };
    let mut tba = Tba::new();
    assert_eq!(tba.get_event("2024test", 5), Fetch::Load);
    assert_eq!(tba.cached_event("2024test"), None);
    tba.loaded("2024test", event(1, 10));
    assert_eq!(tba.cached_event("2024test").map(|e| e.team_infos[0].wins), Some(1));
    assert_eq!(tba.cached_event("2024other"), None);
    assert_eq!(tba.get_event("2024test", 300_010), Fetch::Nothing);
    assert_eq!(tba.get_event("2024test", 300_011), Fetch::Refresh);
    assert_eq!(tba.get_event("2024test", 300_012), Fetch::Nothing);
    assert_eq!(tba.get_event("2024other", 300_012), Fetch::Load);
    tba.refreshed("2024test", Some(event(2, 300_020)));
    assert_eq!(tba.cached_event("2024test").map(|e| e.team_infos[0].wins), Some(2));
    assert_eq!(tba.get_event("2024test", 300_021), Fetch::Nothing);
    assert_eq!(tba.cached_avatar(118, 2024), None);
    tba.store_avatar(118, 2024, Some(vec![1, 2, 3]));
    tba.store_avatar(254, 2024, None);
    tba.store_avatar(118, 2024, None);
    assert_eq!(tba.cached_avatar(118, 2024), Some(&Some(vec![1, 2, 3])));
    assert_eq!(tba.cached_avatar(254, 2024), Some(&None));
    assert_eq!(tba.cached_avatar(118, 2023), None);
}
