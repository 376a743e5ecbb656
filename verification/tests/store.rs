use infiniscouter::api::{
    analysis_match, driver_entry_filtered_data, match_entry_filtered_data,
    pit_entry_filtered_data,
};
use infiniscouter::config::match_entry::{MatchEntry, MatchEntryFields, MatchEntryType};
use infiniscouter::config::{BoolMetric, CounterMetric, TimerMetric};
use infiniscouter::data::{
    CounterEntry, DriverEntryIdData, DriverEntryTimedId, MatchBoolEntry, MatchEntryData,
    MatchEntryIdData, MatchEntryTimedId, MatchEntryValue, MatchTimerEntry, PitEntryIdData,
    PitEntryTimedId,
};
use infiniscouter::data_validation::validate_match;
use infiniscouter::database::{
    driver_entry_key, driver_entry_prefix, get_all_driver_entries, get_all_match_entries,
    get_all_pit_entries, get_driver_entry, get_match_entry, get_pit_entry,
    image_key, match_entry_key, match_entry_prefix, needs_small_copy, parse_entry_key,
    parse_pit_entry_key, pit_entry_key, pit_entry_prefix, split_key, ImageSize,
};
use infiniscouter::leaderboard::{get_leaderboard, LeaderboardPerson};
use infiniscouter::str_map::StrMap;
use infiniscouter::tba::{MatchId, SetMatch};

fn counter(count: i32, scout: &str, timestamp_ms: u64) -> MatchEntryValue {
    MatchEntryValue::Counter(CounterEntry { count, scout: scout.to_string(), timestamp_ms })
}

fn record(fields: Vec<(&str, MatchEntryValue)>) -> MatchEntryData {
    let mut entries = StrMap::new();
    for (id, value) in fields {
        entries.insert(id.to_string(), value);
    }
    MatchEntryData { entries, scout: None, timestamp_ms: None }
}

fn in_match(match_id: &str, team_id: &str, scout: &str, timestamp_ms: u64) -> MatchEntryIdData {
    MatchEntryIdData {
        match_id: match_id.to_string(),
        team_id: team_id.to_string(),
        data: record(vec![("cones", counter(1, scout, timestamp_ms))]),
    }
}

fn by_drivers(match_id: &str, team_id: &str, scout: &str, timestamp_ms: u64) -> DriverEntryIdData {
    DriverEntryIdData {
        match_id: match_id.to_string(),
        team_id: team_id.to_string(),
        data: record(vec![("cones", counter(1, scout, timestamp_ms))]),
    }
}

#[test]
fn keys_have_the_kind_the_year_and_the_event_before_the_rest() {
    let mut expected = b"match_entry".to_vec();
    expected.push(255);
    expected.extend_from_slice(&2024u32.to_le_bytes());
    expected.push(255);
    expected.extend_from_slice("2024tést".as_bytes());
    expected.push(255);
    assert_eq!(match_entry_prefix(2024, "2024tést"), expected);
    expected.extend_from_slice(b"qm7");
    expected.push(255);
    expected.extend_from_slice(b"118");
    assert_eq!(match_entry_key(2024, "2024tést", "qm7", "118"), expected);
    assert_eq!(&driver_entry_prefix(2024, "e")[..13], b"driver_entry\xff");
    assert!(driver_entry_key(2024, "e", "1", "2").starts_with(&driver_entry_prefix(2024, "e")));
    assert_eq!(&driver_entry_key(2024, "e", "1", "2")[20..], b"1\xff2");
    let mut pit = b"pit_entry\xff".to_vec();
    pit.extend_from_slice(&[0xe8, 0x07, 0, 0, 255, b'e', 255]);
    assert_eq!(pit_entry_prefix(2024, "e"), pit);
    pit.extend_from_slice(b"\xff254");
    assert_eq!(pit_entry_key(2024, "e", "254"), pit);
    assert_eq!(image_key("abc", ImageSize::Full), b"image-full:abc".to_vec());
    assert_eq!(image_key("abc", ImageSize::Small), b"image-small:abc".to_vec());
}

#[test]
fn keys_are_read_back() {
    let key = match_entry_key(2024, "2024test", "qm7", "118");
    assert_eq!(parse_entry_key(&key), Some(("qm7".to_string(), "118".to_string())));
    assert_eq!(parse_pit_entry_key(&pit_entry_key(2024, "2024test", "254")), Some("254".to_string()));
    assert_eq!(
        parse_entry_key(&pit_entry_key(2024, "2024test", "254")),
        Some((String::new(), "254".to_string()))
    );
    assert_eq!(parse_pit_entry_key(&pit_entry_prefix(2024, "2024test")), None);
    assert_eq!(parse_entry_key(&vec![]), None);
    assert_eq!(split_key(&vec![]), vec![Vec::<u8>::new()]);
    assert_eq!(split_key(&vec![1, 255, 255, 2, 3, 255]), vec![vec![1], vec![], vec![2, 3], vec![]]);
    let mut broken = match_entry_prefix(2024, "e");
    broken.extend_from_slice(&[b'q', 0xc3, 255, b'1']);
    assert_eq!(parse_entry_key(&broken), Some(("q\u{fffd}".to_string(), "1".to_string())));
    let mut data = record(vec![("cones", counter(1, "", 0))]);
    data.scout = Some("A".to_string());
    let entry = get_match_entry(&key, data.clone()).unwrap();
    assert_eq!((entry.match_id.as_str(), entry.team_id.as_str()), ("qm7", "118"));
    assert_eq!(entry.data, record(vec![("cones", counter(1, "A", 0))]));
    assert_eq!(get_driver_entry(&key, data.clone()).map(|e| e.team_id), Some("118".to_string()));
    assert_eq!(get_match_entry(&vec![1, 2], data.clone()), None);
    let pit = get_pit_entry(&pit_entry_key(2024, "e", "254"), data).unwrap();
    assert_eq!(pit.0, "254");
    assert_eq!(pit.1.scout, None);
}

#[test]
fn stored_rows_are_read_as_records() {
    let mut first = record(vec![("cones", counter(1, "", 0))]);
    first.scout = Some("A".to_string());
    first.timestamp_ms = Some(5);
    let second = record(vec![("cones", counter(2, "B", 7))]);
    let rows = vec![
        (match_entry_key(2024, "e", "1", "118"), first.clone()),
        (vec![1, 2, 3], second.clone()),
        (match_entry_key(2024, "e", "2", "254"), second.clone()),
    ];
    let entries = get_all_match_entries(rows.clone());
    assert_eq!(
        entries,
        vec![
            MatchEntryIdData {
                match_id: "1".to_string(),
                team_id: "118".to_string(),
                data: record(vec![("cones", counter(1, "A", 5))]),
            },
            MatchEntryIdData { match_id: "2".to_string(), team_id: "254".to_string(), data: second.clone() },
        ]
    );
    let drivers = get_all_driver_entries(rows);
    assert_eq!(drivers.len(), 2);
    assert_eq!(drivers[1].team_id, "254");
    let pits = get_all_pit_entries(vec![
        (pit_entry_key(2024, "e", "118"), first),
        (pit_entry_key(2024, "e", "254"), second.clone()),
        (pit_entry_key(2024, "e", "118"), second.clone()),
        (pit_entry_prefix(2024, "e"), second.clone()),
    ]);
    assert_eq!(pits.len(), 2);
    assert_eq!(pits.get("118"), Some(&second));
    assert_eq!(pits.get("254"), Some(&second));
    assert!(get_all_match_entries(vec![]).is_empty());
}

#[test]
fn only_large_images_get_a_small_copy() {
    assert!(!needs_small_copy(300, 300));
    assert!(needs_small_copy(301, 1));
    assert!(needs_small_copy(1, 301));
    assert!(!needs_small_copy(0, 0));
}

#[test]
fn values_that_fit_no_field_are_dropped() {
    let mut entries = StrMap::new();
    let field = |entry: MatchEntryType| MatchEntry {
        title: String::new(),
        description: String::new(),
        page: String::new(),
        entry,
    };
    entries.insert("cones".to_string(), field(MatchEntryType::Counter(CounterMetric { limit_range: None })));
    entries.insert("mobility".to_string(), field(MatchEntryType::Bool(BoolMetric {})));
    entries.insert("cycle_time".to_string(), field(MatchEntryType::Timer(TimerMetric {})));
    let fields = MatchEntryFields { pages: vec![], entries };
    let boolean = MatchEntryValue::Bool(MatchBoolEntry { value: true, scout: "A".to_string(), timestamp_ms: 1 });
    let timer = MatchEntryValue::Timer(MatchTimerEntry { time_micros: 5, scout: "A".to_string(), timestamp_ms: 1 });
    let mut data = record(vec![
        ("unknown", counter(1, "A", 1)),
        ("cones", counter(2, "A", 1)),
        ("mobility", counter(3, "A", 1)),
        ("cycle_time", timer.clone()),
        ("other", boolean.clone()),
    ]);
    data.scout = Some("S".to_string());
    data.timestamp_ms = Some(9);
    let valid = validate_match(data, &fields);
    let mut expected = record(vec![("cones", counter(2, "A", 1)), ("cycle_time", timer)]);
    expected.scout = Some("S".to_string());
    expected.timestamp_ms = Some(9);
    assert_eq!(valid, expected);
    assert_eq!(validate_match(record(vec![]), &fields), record(vec![]));
}

#[test]
fn scouts_are_counted_under_their_names_in_lower_case() {
    let matches = vec![
        in_match("1", "118", "Alice", 1),
        in_match("2", "118", " alice ", 1),
        in_match("3", "254", "ALICE", 1),
        in_match("4", "254", "Bob", 1),
        in_match("5", "x", "Bob", 1),
        MatchEntryIdData { match_id: "6".to_string(), team_id: "1".to_string(), data: record(vec![]) },
    ];
    let mut pits = StrMap::new();
    pits.insert("118".to_string(), record(vec![("a", counter(1, "Bob", 1)), ("b", counter(1, "alice", 2))]));
    let drivers = vec![by_drivers("1", "118", "Carol", 1)];
    let board = get_leaderboard(&matches, &pits, &drivers).leaderboard;
    assert_eq!(board.len(), 3);
    assert_eq!(
        board.get("alice"),
        Some(&LeaderboardPerson {
            name: "Alice".to_string(),
            matches_scouted: 3,
            pits_scouted: 1,
            drivers_scouted: 0,
            teams_scouted: vec![(118, 3), (254, 1)],
        })
    );
    assert_eq!(
        board.get("bob"),
        Some(&LeaderboardPerson {
            name: "Bob".to_string(),
            matches_scouted: 2,
            pits_scouted: 0,
            drivers_scouted: 0,
            teams_scouted: vec![(254, 1)],
        })
    );
    assert_eq!(board.get("carol").map(|p| (p.drivers_scouted, p.teams_scouted.clone())), Some((1, vec![(118, 1)])));
    assert_eq!(board.get("Alice"), None);
    assert!(get_leaderboard(&vec![], &StrMap::new(), &vec![]).leaderboard.is_empty());
}

#[test]
fn clients_are_sent_what_is_news_to_them() {
    let all = vec![in_match("1", "118", "A", 10), in_match("2", "118", "A", 20), in_match("3", "118", "A", 30)];
    let known = vec![
        MatchEntryTimedId { match_id: "1".to_string(), team_id: "118".to_string(), timestamp_ms: 10 },
        MatchEntryTimedId { match_id: "2".to_string(), team_id: "118".to_string(), timestamp_ms: 25 },
        MatchEntryTimedId { match_id: "2".to_string(), team_id: "118".to_string(), timestamp_ms: 19 },
        MatchEntryTimedId { match_id: "3".to_string(), team_id: "254".to_string(), timestamp_ms: 99 },
    ];
    let news = match_entry_filtered_data(all.clone(), &known);
    assert_eq!(news, vec![all[1].clone(), all[2].clone()]);
    assert_eq!(match_entry_filtered_data(all.clone(), &vec![]), all);
    let drivers = vec![by_drivers("1", "118", "A", 10), by_drivers("1", "254", "A", 10)];
    let known = vec![DriverEntryTimedId { match_id: "1".to_string(), team_id: "254".to_string(), timestamp_ms: 10 }];
    assert_eq!(driver_entry_filtered_data(drivers.clone(), &known), vec![drivers[0].clone()]);
    let mut pits = StrMap::new();
    pits.insert("118".to_string(), record(vec![("a", counter(1, "A", 5))]));
    pits.insert("254".to_string(), record(vec![("a", counter(1, "A", 5))]));
    pits.insert("1".to_string(), record(vec![]));
    let known = vec![
        PitEntryTimedId { team_id: "118".to_string(), timestamp_ms: 4 },
        PitEntryTimedId { team_id: "254".to_string(), timestamp_ms: 5 },
    ];
    assert_eq!(
        pit_entry_filtered_data(pits, &known),
        vec![
            PitEntryIdData { team_id: "118".to_string(), data: record(vec![("a", counter(1, "A", 5))]) },
            PitEntryIdData { team_id: "1".to_string(), data: record(vec![]) },
        ]
    );
}

#[test]
fn a_path_names_a_match() {
    let id = SetMatch { set: 2, num: 7 };
    assert_eq!(analysis_match("practice", 7, 2), Some(MatchId::Practice(id)));
    assert_eq!(analysis_match("qualification", 7, 2), Some(MatchId::Qualification(id)));
    assert_eq!(analysis_match("quarterfinal", 7, 2), Some(MatchId::Quarterfinal(id)));
    assert_eq!(analysis_match("semifinal", 7, 2), Some(MatchId::Semifinal(id)));
    assert_eq!(analysis_match("final", 7, 2), Some(MatchId::Final(id)));
    assert_eq!(analysis_match("qm", 7, 2), None);
    assert_eq!(analysis_match("", 7, 2), None);
}

#[test]
fn the_map_keeps_the_order_of_first_insertion() {
    let mut map: StrMap<u32> = StrMap::new();
    assert!(map.is_empty());
    map.insert("b".to_string(), 1);
    map.insert("a".to_string(), 2);
    map.insert("b".to_string(), 3);
    assert_eq!(map.len(), 2);
    assert_eq!((map.key_at(0).as_str(), *map.value_at(0)), ("b", 3));
    assert_eq!((map.key_at(1).as_str(), *map.value_at(1)), ("a", 2));
    assert_eq!(map.position("a"), Some(1));
    assert_eq!(map.position("c"), None);
    assert!(map.contains_key("b") && !map.contains_key("B"));
    *map.value_mut(1) += 10;
    map.set_value(0, 7);
    assert_eq!(map.get("a"), Some(&12));
    assert_eq!(map.get("b"), Some(&7));
    assert_eq!(map.remove_at(0), ("b".to_string(), 7));
    map.push("z".to_string(), 0);
    assert_eq!(map.position("z"), Some(1));
    assert_eq!(map.get("b"), None);
}

#[test]
fn the_year_is_written_from_its_lowest_byte() {
    let prefix = pit_entry_prefix(0x0102_0304, "e");
    assert_eq!(&prefix[10..14], &[4, 3, 2, 1]);
    assert_eq!(&prefix[10..14], &0x0102_0304u32.to_le_bytes());
    let key = match_entry_key(0xffff_ffff, "e", "1", "2");
    assert_eq!(&key[12..16], &[255, 255, 255, 255]);
}
