use infiniscouter::cache::{DefaultInstant, Fetch, Slot, SlotState, TTL_MS};
use infiniscouter::config::StatboticsConfig;
use infiniscouter::statbotics::{
    StatboticsCache, StatboticsEpa, StatboticsEpaBreakdown, StatboticsRecordOuter,
    StatboticsRecordQuals, StatboticsRecordSimple, StatboticsTeam, StatboticsTeamEvent,
    StatboticsTeamYear, StatboticsTotalPoints,
};
use infiniscouter::config::{MatchStatisticsPropType, StatboticsProp};
use infiniscouter::str_map::StrMap;

fn epa(extra: Vec<(&str, i64)>) -> StatboticsEpa {
    let mut map = StrMap::new();
    for (name, value) in extra {
        map.insert(name.to_string(), value);
    }
    StatboticsEpa {
        total_points: StatboticsTotalPoints { mean: 1, sd: 2 },
        breakdown: StatboticsEpaBreakdown {
            total_points: 3,
            auto_points: 4,
            teleop_points: 5,
            endgame_points: 6,
            rp_1: 7,
            rp_2: 8,
            rp_3: None,
            extra: map,
        },
    }
}

fn team(wins: u32, last_update: u64) -> StatboticsTeam {
    StatboticsTeam {
        epa: epa(vec![]),
        record: StatboticsRecordQuals { wins, losses: 0, ties: 0, count: wins, rps: 0 },
        other_details: StrMap::new(),
        last_update,
    }
}

#[test]
fn an_empty_slot_asks_the_caller_to_load() {
    let mut slot: Slot<u32> = Slot::new();
    assert_eq!(slot.get(10), Fetch::Load);
    assert_eq!(slot.get(11), Fetch::Load);
    assert_eq!(slot.cached(), None);
    assert!(!slot.refreshing);
    slot.loaded(7, 12);
    assert_eq!(slot.cached(), Some(&7));
    assert_eq!(slot.get(13), Fetch::Nothing);
}

#[test]
fn a_stale_slot_is_refreshed_by_one_fetch() {
    let mut slot: Slot<u32> = Slot::new();
    slot.loaded(7, 1_000);
    assert_eq!(slot.get(1_000 + TTL_MS), Fetch::Nothing);
    let mut refreshes = 0;
    for caller in 0..100 {
        if slot.get(1_001 + TTL_MS + caller) == Fetch::Refresh {
            refreshes += 1;
        }
        assert_eq!(slot.cached(), Some(&7));
    }
    assert_eq!(refreshes, 1);
    assert!(slot.refreshing);
    slot.refreshed(None, 5_000_000);
    assert!(!slot.refreshing);
    assert_eq!(slot.cached(), Some(&7));
    assert_eq!(slot.get(5_000_000), Fetch::Refresh);
    slot.refreshed(Some(8), 5_000_001);
    assert_eq!(slot.cached(), Some(&8));
    assert_eq!(slot.loaded_at, 5_000_001);
    assert_eq!(slot.get(5_000_002), Fetch::Nothing);
    assert_eq!(slot.get(0), Fetch::Nothing);
}

#[test]
fn five_minutes_are_the_limit() {
    assert_eq!(TTL_MS, 5 * 60 * 1000);
    assert_eq!(DefaultInstant(100).elapsed(DefaultInstant(350)), 250);
    assert_eq!(DefaultInstant(350).elapsed(DefaultInstant(100)), 0);
    assert_eq!(SlotState::Empty, SlotState::Empty);
}

#[test]
fn the_statistics_cache_keeps_one_slot_for_each_team() {
    let mut cache = StatboticsCache::new("2024test", 2024, StatboticsConfig { props: StrMap::new() });
    assert_eq!(cache.event(), "2024test");
    assert_eq!(cache.year(), 2024);
    assert_eq!(cache.get(118, 0), Fetch::Load);
    assert_eq!(cache.cached(118), None);
    cache.loaded(118, team(3, 1_000));
    cache.loaded(254, team(9, 400_000));
    assert_eq!(cache.cached(118).map(|t| t.record.wins), Some(3));
    assert_eq!(cache.cached(254).map(|t| t.record.wins), Some(9));
    assert_eq!(cache.get(118, 2_000), Fetch::Nothing);
    assert_eq!(cache.get(118, 400_000), Fetch::Refresh);
    assert_eq!(cache.get(118, 400_001), Fetch::Nothing);
    assert_eq!(cache.get(254, 400_001), Fetch::Nothing);
    assert_eq!(cache.get(254, 800_000), Fetch::Refresh);
    cache.refreshed(118, None);
    assert_eq!(cache.cached(118).map(|t| t.record.wins), Some(3));
    assert_eq!(cache.get(118, 400_002), Fetch::Refresh);
    cache.refreshed(118, Some(team(4, 400_003)));
    assert_eq!(cache.cached(118).map(|t| t.record.wins), Some(4));
    assert_eq!(cache.get(118, 400_004), Fetch::Nothing);
    assert_eq!(cache.get(254, 800_001), Fetch::Nothing);
    assert_eq!(cache.get(1, 800_001), Fetch::Load);
    cache.refreshed(1, None);
    assert_eq!(cache.get(1, 800_001), Fetch::Load);
}

#[test]
fn statistics_are_built_from_what_the_service_sends() {
    let mut props = StrMap::new();
    props.insert(
        "coral".to_string(),
        StatboticsProp { ty: MatchStatisticsPropType::Number, property: Some("coral_points".to_string()), properties: None },
    );
    props.insert(
        "algae".to_string(),
        StatboticsProp {
            ty: MatchStatisticsPropType::Sum,
            property: None,
            properties: Some(vec!["net".to_string(), "processor".to_string(), "absent".to_string()]),
        },
    );
    props.insert(
        "missing".to_string(),
        StatboticsProp { ty: MatchStatisticsPropType::Number, property: Some("absent".to_string()), properties: None },
    );
    props.insert(
        "flag".to_string(),
        StatboticsProp { ty: MatchStatisticsPropType::Bool, property: Some("coral_points".to_string()), properties: None },
    );
    let config = StatboticsConfig { props };
    let extra = vec![("coral_points", 12_500_000), ("net", 1_000_000), ("processor", 2_250_000)];
    let simple = StatboticsRecordSimple { wins: 5, losses: 4, ties: 1, count: 10 };
    let event = StatboticsTeamEvent {
        epa: epa(extra.clone()),
        record: StatboticsRecordOuter {
            qual: StatboticsRecordQuals { wins: 3, losses: 3, ties: 1, count: 7, rps: 11 },
            elim: StatboticsRecordSimple { wins: 2, losses: 1, ties: 0, count: 3 },
            total: simple,
        },
    };
    let built = StatboticsTeam::from_event(event, &config, 77);
    assert_eq!(built.record, StatboticsRecordQuals { wins: 5, losses: 4, ties: 1, count: 10, rps: 11 });
    assert_eq!(built.last_update, 77);
    assert_eq!(built.other_details.len(), 2);
    assert_eq!(built.other_details.get("coral"), Some(&12_500_000));
    assert_eq!(built.other_details.get("algae"), Some(&3_250_000));
    assert_eq!(built.other_details.get("missing"), None);
    assert_eq!(built.other_details.get("flag"), None);
    let year = StatboticsTeamYear { epa: epa(extra), record: simple };
    let built = StatboticsTeam::from_year(year, &config, 78);
    assert_eq!(built.record, StatboticsRecordQuals { wins: 5, losses: 4, ties: 1, count: 10, rps: 0 });
    assert_eq!(built.epa.breakdown.rp_2, 8);
    assert_eq!(
        StatboticsCache::get_other_details(&built.epa.breakdown, &config).get("algae"),
        Some(&3_250_000)
    );
}
