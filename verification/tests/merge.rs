use infiniscouter::data::{
    CounterEntry, ImageEntry, ImageEntryItem, MatchAbilityEntry, MatchAbilityValue,
    MatchBoolEntry, MatchEntryData, MatchEntryValue, MatchEnumEntry, MatchTimerEntry,
    TextFieldEntry,
};
use infiniscouter::database::{get_merged_data, set_entry, tidy_entry_data, MergeOutcome};
use infiniscouter::str_map::StrMap;

fn timer(seconds: i64, scout: &str, timestamp_ms: u64) -> MatchEntryValue {
    MatchEntryValue::Timer(MatchTimerEntry {
        time_micros: seconds * 1_000_000,
        scout: scout.to_string(),
        timestamp_ms,
    })
}

fn counter(count: i32, scout: &str, timestamp_ms: u64) -> MatchEntryValue {
    MatchEntryValue::Counter(CounterEntry { count, scout: scout.to_string(), timestamp_ms })
}

fn boolean(value: bool, scout: &str, timestamp_ms: u64) -> MatchEntryValue {
    MatchEntryValue::Bool(MatchBoolEntry { value, scout: scout.to_string(), timestamp_ms })
}

fn record(fields: Vec<(&str, MatchEntryValue)>) -> MatchEntryData {
    let mut entries = StrMap::new();
    for (id, value) in fields {
        entries.insert(id.to_string(), value);
    }
    MatchEntryData { entries, scout: None, timestamp_ms: None }
}

fn stored_after(stored: Option<MatchEntryData>, incoming: MatchEntryData) -> Option<MatchEntryData> {
    match get_merged_data(stored.clone(), incoming).to_write() {
        Some(record) => Some(record),
        None => stored,
    }
}

#[test]
fn older_submission_is_rejected() {
    let first = record(vec![("cycle_time", timer(12, "A", 100))]);
    let stored = match get_merged_data(None, first.clone()) {
        MergeOutcome::Created { record, scout } => {
            assert_eq!(scout, "A");
            record
        }
        other => panic!("unexpected outcome {:?}", other),
    };
    assert_eq!(stored, first);
    let second = record(vec![("cycle_time", timer(9, "B", 50))]);
    let outcome = get_merged_data(Some(stored.clone()), second.clone());
    assert_eq!(outcome, MergeOutcome::Unchanged { scout: "B".to_string() });
    assert_eq!(outcome.to_write(), None);
    let after = stored_after(Some(stored), second).unwrap();
    assert_eq!(after.entries.get("cycle_time"), Some(&timer(12, "A", 100)));
    assert_eq!(after.entries.get("cycle_time").unwrap().get_scout(), "A");
}

#[test]
fn empty_submission_is_ignored() {
    let stored = record(vec![("cycle_time", timer(12, "A", 100))]);
    assert_eq!(set_entry(Some(stored.clone()), record(vec![])), MergeOutcome::Ignored);
    assert_eq!(get_merged_data(Some(stored), record(vec![])), MergeOutcome::Ignored);
    assert_eq!(get_merged_data(None, record(vec![])), MergeOutcome::Ignored);
    assert_eq!(MergeOutcome::Ignored.to_write(), None);
}

#[test]
fn newer_and_different_fields_are_taken_over() {
    let stored = record(vec![
        ("cycle_time", timer(12, "A", 100)),
        ("cones", counter(3, "A", 100)),
        ("mobility", boolean(true, "A", 100)),
    ]);
    let incoming = record(vec![
        ("cones", counter(4, "B", 200)),
        ("cycle_time", timer(12, "B", 300)),
        ("mobility", boolean(false, "B", 100)),
        ("climb", boolean(true, "C", 1)),
    ]);
    let outcome = get_merged_data(Some(stored), incoming);
    let expected = record(vec![
        ("cycle_time", timer(12, "A", 100)),
        ("cones", counter(4, "B", 200)),
        ("mobility", boolean(true, "A", 100)),
        ("climb", boolean(true, "C", 1)),
    ]);
    assert_eq!(
        outcome,
        MergeOutcome::Updated { record: expected, scout: "B".to_string(), count: 2 }
    );
}

#[test]
fn equal_timestamps_never_win() {
    let stored = record(vec![("cones", counter(3, "A", 100))]);
    let outcome = get_merged_data(Some(stored), record(vec![("cones", counter(9, "B", 100))]));
    assert_eq!(outcome, MergeOutcome::Unchanged { scout: "B".to_string() });
}

#[test]
fn a_value_of_another_kind_is_different() {
    let stored = record(vec![("cones", counter(3, "A", 100))]);
    let outcome = get_merged_data(Some(stored), record(vec![("cones", boolean(true, "B", 101))]));
    assert_eq!(
        outcome,
        MergeOutcome::Updated {
            record: record(vec![("cones", boolean(true, "B", 101))]),
            scout: "B".to_string(),
            count: 1,
        }
    );
}

#[test]
fn merging_twice_is_merging_once() {
    let stores = [
        None,
        Some(record(vec![("cones", counter(3, "A", 100)), ("mobility", boolean(true, "A", 5))])),
    ];
    let incoming = record(vec![
        ("cones", counter(4, "B", 200)),
        ("mobility", boolean(true, "B", 300)),
        ("climb", boolean(false, "B", 0)),
    ]);
    for stored in stores {
        let once = stored_after(stored, incoming.clone());
        let twice = stored_after(once.clone(), incoming.clone());
        assert_eq!(once, twice);
        match get_merged_data(once, incoming.clone()) {
            MergeOutcome::Unchanged { scout } => assert_eq!(scout, "B"),
            other => panic!("unexpected outcome {:?}", other),
        }
    }
}

#[test]
fn stamps_of_the_record_are_handed_down() {
    let mut entries = StrMap::new();
    entries.insert("cones".to_string(), counter(3, "", 0));
    entries.insert("cycle_time".to_string(), timer(12, "B", 0));
    entries.insert("mobility".to_string(), boolean(true, "", 7));
    let data = MatchEntryData { entries, scout: Some("A".to_string()), timestamp_ms: Some(100) };
    let tidy = tidy_entry_data(data);
    assert_eq!(
        tidy,
        record(vec![
            ("cones", counter(3, "A", 100)),
            ("cycle_time", timer(12, "B", 100)),
            ("mobility", boolean(true, "A", 7)),
        ])
    );
    let plain = record(vec![("cones", counter(3, "", 0))]);
    assert_eq!(tidy_entry_data(plain.clone()), plain);
}

#[test]
fn set_entry_tidies_before_it_merges() {
    let mut entries = StrMap::new();
    entries.insert("cones".to_string(), counter(3, "", 0));
    let stored = MatchEntryData { entries, scout: Some("A".to_string()), timestamp_ms: Some(100) };
    let mut entries = StrMap::new();
    entries.insert("cones".to_string(), counter(5, "", 0));
    let incoming = MatchEntryData { entries, scout: Some("B".to_string()), timestamp_ms: Some(200) };
    assert_eq!(
        set_entry(Some(stored.clone()), incoming.clone()),
        MergeOutcome::Updated {
            record: record(vec![("cones", counter(5, "B", 200))]),
            scout: "B".to_string(),
            count: 1,
        }
    );
    assert_eq!(
        set_entry(Some(incoming.clone()), stored.clone()),
        MergeOutcome::Unchanged { scout: "A".to_string() }
    );
    assert_eq!(
        set_entry(None, stored),
        MergeOutcome::Created { record: record(vec![("cones", counter(3, "A", 100))]), scout: "A".to_string() }
    );
}

#[test]
fn the_latest_scout_is_that_of_the_latest_field() {
    let data = record(vec![
        ("a", counter(1, "A", 5)),
        ("b", counter(1, "B", 9)),
        ("c", counter(1, "C", 9)),
        ("d", counter(1, "D", 2)),
    ]);
    assert_eq!(data.get_latest_scout(), Some("C".to_string()));
    assert_eq!(data.get_timestamp(), 9);
    assert_eq!(record(vec![]).get_latest_scout(), None);
    assert_eq!(record(vec![]).get_timestamp(), 0);
}

#[test]
fn scouts_are_listed_by_name_with_their_fields() {
    let data = record(vec![
        ("a", counter(1, "Zoe", 5)),
        ("b", counter(1, "Al", 9)),
        ("c", counter(1, "Zoe", 9)),
        ("d", counter(1, "", 2)),
        ("e", counter(1, "Al", 2)),
        ("f", counter(1, "Zoe", 2)),
    ]);
    assert_eq!(
        data.get_scouts(),
        vec![("".to_string(), 1), ("Al".to_string(), 2), ("Zoe".to_string(), 3)]
    );
    assert_eq!(record(vec![]).get_scouts(), vec![]);
}

#[test]
fn values_differ_by_what_they_say_alone() {
    let image = |ids: &[&str], scout: &str| {
        MatchEntryValue::Image(ImageEntry {
            images: ids
                .iter()
                .map(|id| ImageEntryItem { image_id: id.to_string(), image_mime: "image/png".to_string() })
                .collect(),
            scout: scout.to_string(),
            timestamp_ms: 0,
        })
    };
    let text = |text: &str, scout: &str| {
        MatchEntryValue::TextEntry(TextFieldEntry {
            text: text.to_string(),
            sentiment: 0,
            scout: scout.to_string(),
            timestamp_ms: 0,
        })
    };
    let choice = |value: &str| {
        MatchEntryValue::Enum(MatchEnumEntry { value: value.to_string(), scout: "A".to_string(), timestamp_ms: 0 })
    };
    let ability = |value| MatchEntryValue::Ability(MatchAbilityEntry { value, scout: "A".to_string(), timestamp_ms: 0 });
    assert!(!timer(12, "A", 1).is_different(&timer(12, "B", 2)));
    assert!(timer(12, "A", 1).is_different(&timer(9, "A", 1)));
    assert!(!image(&["a", "b"], "A").is_different(&image(&["a", "b"], "B")));
    assert!(image(&["a", "b"], "A").is_different(&image(&["b", "a"], "A")));
    assert!(image(&["a"], "A").is_different(&image(&["a", "b"], "A")));
    assert!(!text("x", "A").is_different(&text("x", "B")));
    assert!(text("x", "A").is_different(&text("y", "A")));
    assert!(choice("x").is_different(&choice("y")));
    assert!(!choice("x").is_different(&choice("x")));
    assert!(ability(MatchAbilityValue::Nothing).is_different(&ability(MatchAbilityValue::Attempted)));
    assert!(counter(1, "A", 1).is_different(&boolean(true, "A", 1)));
    assert!(counter(1, "A", 1).is_different(&timer(1, "A", 1)));
}

#[test]
fn blank_stamps_are_filled_in() {
    let mut value = counter(1, "", 0);
    value.set_scout_if_blank("A");
    value.set_timestamp_if_blank(9);
    assert_eq!(value, counter(1, "A", 9));
    value.set_scout_if_blank("B");
    value.set_timestamp_if_blank(10);
    assert_eq!(value, counter(1, "A", 9));
    assert_eq!(value.get_scout(), "A");
    assert_eq!(value.get_timestamp(), 9);
    assert_eq!(value.duplicate(), value);
}
