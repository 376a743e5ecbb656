use infiniscouter::analysis::{compare_columns, get_analysis_list, get_match_analysis, get_single_team_analysis, DataSource, MinMaxAvg, TeamInfoDisplay, TeamInfoEntry, TeamInfoGraphic, TeamInfoNumericEntry, TeamNameEntry};
use infiniscouter::analysis::resolve::{default_display, get_match_entries, get_single_team_match_preview, single_team_impl, table_labels};
use infiniscouter::config::{
    BoolMetric, CollectedMetric, CollectedMetricType, CollectionOption, CommonYearSpecificMetrics,
    CounterMetric, DisplayColumn, DisplayConfig, FilteredMetric, GameConfig, GameConfigs,
    MetricCategory, PreMatchDisplay, PreMatchGraphElement, SingleMetric, StatboticsConfig,
    TbaConfig, TbaMatchProp, TbaMatchPropType, TeamNameMetric,
};
use infiniscouter::data::{
    CounterEntry, DriverEntryIdData, MatchBoolEntry, MatchEntryData, MatchEntryIdData,
    MatchEntryValue,
};
use infiniscouter::number::{NO_DATA, NO_STATISTICS, NOT_SHOWN, SCALE};
use infiniscouter::statbotics::{
    StatboticsCache, StatboticsEpa, StatboticsEpaBreakdown, StatboticsRecordQuals, StatboticsTeam,
    StatboticsTotalPoints,
};
use infiniscouter::str_map::StrMap;
use infiniscouter::tba::{
    CustomEntries, EventInfo, MatchId, MatchInfo, MatchResult, SetMatch, TeamInfo,
};

fn config() -> GameConfigs {
    let mut metrics = StrMap::new();
    metrics.insert(
        "cones".to_string(),
        CollectedMetric {
            name: "Cones".to_string(),
            order: 1,
            description: String::new(),
            collect: CollectionOption::MatchOnly,
            metric: CollectedMetricType::Counter(CounterMetric { limit_range: None }),
        },
    );
    metrics.insert(
        "mobility".to_string(),
        CollectedMetric {
            name: "Mobility".to_string(),
            order: 2,
            description: String::new(),
            collect: CollectionOption::MatchPit,
            metric: CollectedMetricType::Bool(BoolMetric {}),
        },
    );
    let mut categories = StrMap::new();
    categories.insert("auto".to_string(), MetricCategory { name: "Auto".to_string(), order: None, metrics });
    let mut props = StrMap::new();
    props.insert(
        "auto_line".to_string(),
        TbaMatchProp { ty: TbaMatchPropType::Bool, property: "autoLineRobot{N}".to_string(), name: "Auto Line".to_string(), options: None },
    );
    GameConfigs::from(GameConfig {
        name: "Test Game".to_string(),
        year: 2024,
        categories,
        tba: TbaConfig { order: 9, props },
        statbotics: StatboticsConfig { props: StrMap::new() },
        ranking_points: vec![],
        display: DisplayConfig {
            team_row: vec![
                DisplayColumn::TeamName(TeamNameMetric { display: true }),
                DisplayColumn::Single(SingleMetric { metric: "cones".to_string(), display: false }),
                DisplayColumn::Filtered(FilteredMetric { metric: "cones".to_string(), filter_by: "mobility".to_string(), display: true }),
                DisplayColumn::Single(SingleMetric { metric: "statbotics-wins".to_string(), display: true }),
                DisplayColumn::CommonYearSpecific(CommonYearSpecificMetrics {}),
                DisplayColumn::Single(SingleMetric { metric: "tba-auto_line".to_string(), display: true }),
            ],
            pre_match: PreMatchDisplay {
                score: "statbotics-points".to_string(),
                graph: vec![
                    PreMatchGraphElement { name: "Auto".to_string(), metric: "statbotics-auto-points".to_string() },
                    PreMatchGraphElement { name: "Cones".to_string(), metric: "cones".to_string() },
                ],
                metrics: vec!["cones".to_string(), "mobility".to_string()],
            },
        },
    })
}

fn counter(count: i32) -> MatchEntryValue {
    MatchEntryValue::Counter(CounterEntry { count, scout: "A".to_string(), timestamp_ms: 1 })
}

fn boolean(value: bool) -> MatchEntryValue {
    MatchEntryValue::Bool(MatchBoolEntry { value, scout: "A".to_string(), timestamp_ms: 1 })
}

fn record(fields: Vec<(&str, MatchEntryValue)>) -> MatchEntryData {
    let mut entries = StrMap::new();
    for (id, value) in fields {
        entries.insert(id.to_string(), value);
    }
    MatchEntryData { entries, scout: None, timestamp_ms: None }
}

fn in_match(match_id: &str, team_id: &str, fields: Vec<(&str, MatchEntryValue)>) -> MatchEntryIdData {
    MatchEntryIdData { match_id: match_id.to_string(), team_id: team_id.to_string(), data: record(fields) }
}

fn team(num: u32, name: &str, has_avatar: bool) -> TeamInfo {
    TeamInfo { num, name: name.to_string(), has_avatar, wins: 0, losses: 0, ties: 0, ranking_points: 0 }
}

fn place(fields: Vec<(&str, MatchEntryValue)>) -> StrMap<MatchEntryValue> {
    record(fields).entries
}

fn event() -> EventInfo {
    let line = |value: bool| {
        MatchEntryValue::Bool(MatchBoolEntry { value, scout: "TBA".to_string(), timestamp_ms: 0 })
    };
    EventInfo {
        match_infos: vec![
            MatchInfo {
                id: MatchId::Qualification(SetMatch { set: 1, num: 1 }),
                start_time: 1,
                teams_blue: vec![118, 254],
                teams_red: vec![1, 2, 3, 4],
                result: MatchResult::Tbd,
                score_blue: None,
                score_red: None,
                rp_blue: None,
                rp_red: None,
                custom_entries: CustomEntries {
                    blue: [place(vec![("tba-auto_line", line(true))]), place(vec![("tba-auto_line", line(false))]), place(vec![])],
                    red: [place(vec![("tba-auto_line", line(true))]), place(vec![]), place(vec![])],
                },
            },
            MatchInfo {
                id: MatchId::Final(SetMatch { set: 1, num: 1 }),
                start_time: 2,
                teams_blue: vec![118],
                teams_red: vec![254],
                result: MatchResult::Tbd,
                score_blue: None,
                score_red: None,
                rp_blue: None,
                rp_red: None,
                custom_entries: CustomEntries {
                    blue: [place(vec![("tba-auto_line", line(false))]), place(vec![]), place(vec![])],
                    red: [place(vec![]), place(vec![]), place(vec![])],
                },
            },
        ],
        team_infos: vec![team(118, "Robonauts", true), team(254, "Cheesy Poofs", false), team(1, "Juggernauts", false)],
        event: "2024test".to_string(),
        year: 2024,
        last_update: 0,
    }
}

fn statistics(wins: u32, points: i64) -> StatboticsTeam {
    StatboticsTeam {
        epa: StatboticsEpa {
            total_points: StatboticsTotalPoints { mean: points, sd: 0 },
            breakdown: StatboticsEpaBreakdown {
                total_points: points,
                auto_points: points / 4,
                teleop_points: 0,
                endgame_points: 0,
                rp_1: 0,
                rp_2: 0,
                rp_3: None,
                extra: StrMap::new(),
            },
        },
        record: StatboticsRecordQuals { wins, losses: 0, ties: 0, count: wins, rps: 0 },
        other_details: StrMap::new(),
        last_update: 0,
    }
}

fn cache() -> StatboticsCache {
    let mut cache = StatboticsCache::new("2024test", 2024, StatboticsConfig { props: StrMap::new() });
    cache.loaded(118, statistics(8, 40 * SCALE));
    cache.loaded(254, statistics(8, 60 * SCALE));
    cache
}

fn stored() -> Vec<MatchEntryIdData> {
    vec![
        in_match("1", "118", vec![("cones", counter(2)), ("mobility", boolean(true))]),
        in_match("2", "118", vec![("cones", counter(6)), ("mobility", boolean(false))]),
        in_match("1", "254", vec![("cones", counter(8)), ("mobility", boolean(true))]),
        in_match("1", "1", vec![("mobility", boolean(true))]),
    ]
}

fn numeric(entry: &TeamInfoEntry) -> TeamInfoNumericEntry {
    match &entry.graphic {
        Some(TeamInfoGraphic::Numeric(n)) => *n,
        other => panic!("no number: {other:?}"),
    }
}

#[test]
fn the_feed_adds_records_for_qualification_matches() {
    let entries = get_match_entries(stored(), &event());
    assert_eq!(entries.len(), 4 + 5);
    assert_eq!(&entries[..4], &stored()[..]);
    let added: Vec<(&str, &str, usize)> = entries[4..]
        .iter()
        .map(|e| (e.match_id.as_str(), e.team_id.as_str(), e.data.entries.len()))
        .collect();
    assert_eq!(added, vec![("1", "1", 1), ("1", "2", 0), ("1", "3", 0), ("1", "118", 1), ("1", "254", 1)]);
    assert!(entries[4..].iter().all(|e| e.data.scout.is_none() && e.data.timestamp_ms.is_none()));
}

#[test]
fn headings_and_default_columns_follow_the_team_row() {
    let config = config();
    let labels = table_labels(&config);
    let names: Vec<(&str, &str, DataSource)> = labels.iter().map(|l| (l.name.as_str(), l.page.as_str(), l.source)).collect();
    assert_eq!(
        names,
        vec![
            ("Team Name", "N/A", DataSource::System),
            ("Cones", "Auto", DataSource::Match),
            ("Cones", "Auto", DataSource::Match),
            ("Wins", "Data", DataSource::Statbotics),
            ("INVALID", "Unknown", DataSource::Unknown),
            ("Auto Line", "The Blue Alliance", DataSource::Tba),
        ]
    );
    assert_eq!(default_display(&config), vec![0, 3, 5]);
}

#[test]
fn the_row_of_a_team_has_an_entry_for_each_column() {
    let config = config();
    let entries = get_match_entries(stored(), &event());
    let team_info = team(118, "Robonauts", true);
    let sb = statistics(8, 0);
    let row = single_team_impl(&config, &entries, &vec![], None, &team_info, Some(&sb));
    assert_eq!(row.len(), 6);
    assert_eq!(row[0].text, "118 - Robonauts");
    assert_eq!(row[0].sort_value, 118 * SCALE);
    assert_eq!(
        row[0].graphic,
        Some(TeamInfoGraphic::TeamName(TeamNameEntry {
            number: 118,
            name: "Robonauts".to_string(),
            icon_uri: Some("/avatar/118".to_string()),
        }))
    );
    assert_eq!(row[1].sort_value, 4 * SCALE);
    assert_eq!(row[2].sort_value, 2 * SCALE);
    assert_eq!(row[3].sort_value, 8 * SCALE);
    assert_eq!(row[4].text, "ERROR");
    assert_eq!(row[4].sort_value, NOT_SHOWN);
    assert_eq!(row[5].sort_value, SCALE);
    assert_eq!(row[5].text, "100%");
}

#[test]
fn numbers_are_set_against_their_column() {
    let list = get_analysis_list(&config(), stored(), &vec![], &StrMap::new(), &event(), &cache());
    assert_eq!(list.heading.len(), 6);
    assert_eq!(list.default_display, vec![0, 3, 5]);
    assert_eq!(list.list.len(), 3);
    // Cones: 4 for 118, 8 for 254, nothing for 1.
    let spread = MinMaxAvg { min: 4 * SCALE, max: 8 * SCALE, avg: 6 * SCALE, stddev: 2 * SCALE };
    assert_eq!(numeric(&list.list[0].info[1]).compare_other_numbers, Some(spread));
    assert_eq!(numeric(&list.list[1].info[1]).compare_other_numbers, Some(spread));
    assert_eq!(list.list[0].info[1].colour, [255, 127, 127]);
    assert_eq!(list.list[1].info[1].colour, [127, 255, 127]);
    assert_eq!(list.list[2].info[1].sort_value, NO_DATA);
    assert_eq!(list.list[2].info[1].graphic, None);
    assert_eq!(list.list[2].info[1].colour, [255, 255, 255]);
    // Wins: 8 for both teams with statistics; the third has none and does not count.
    let even = MinMaxAvg { min: 8 * SCALE, max: 8 * SCALE, avg: 8 * SCALE, stddev: 0 };
    for row in 0..2 {
        assert_eq!(numeric(&list.list[row].info[3]).compare_other_numbers, Some(even));
        assert_eq!(list.list[row].info[3].colour, [255, 255, 255]);
    }
    assert_eq!(list.list[2].info[3].sort_value, NO_STATISTICS);
    for row in 0..3 {
        assert_eq!(list.list[row].info[0].colour, [255, 255, 255]);
        assert_eq!(list.list[row].info[4].text, "ERROR");
    }
    assert_eq!(list.list[2].info[5].sort_value, SCALE);
    assert_eq!(list.list[1].info[5].sort_value, 0);
}

#[test]
fn a_uniform_column_is_neutral() {
    let entry = |number: i64| TeamInfoEntry {
        text: String::new(),
        pit_value: None,
        sort_value: number,
        colour: [0, 0, 0],
        graphic: Some(TeamInfoGraphic::Numeric(TeamInfoNumericEntry {
            number,
            collected_std_dev: None,
            collected_min_max: None,
            compare_other_numbers: None,
            is_time: false,
        })),
    };
    let blank = TeamInfoEntry { text: String::new(), pit_value: None, sort_value: NO_DATA, colour: [1, 2, 3], graphic: None };
    let mut list = vec![
        TeamInfoDisplay { info: vec![entry(7 * SCALE), entry(-3)] },
        TeamInfoDisplay { info: vec![entry(7 * SCALE), blank.clone()] },
        TeamInfoDisplay { info: vec![entry(7 * SCALE), entry(3)] },
    ];
    compare_columns(&mut list, 2);
    let even = MinMaxAvg { min: 7 * SCALE, max: 7 * SCALE, avg: 7 * SCALE, stddev: 0 };
    for row in &list {
        assert_eq!(row.info[0].colour, [255, 255, 255]);
        assert_eq!(numeric(&row.info[0]).compare_other_numbers, Some(even));
    }
    assert_eq!(list[1].info[1], blank);
    assert_eq!(numeric(&list[0].info[1]).compare_other_numbers, Some(MinMaxAvg { min: -3, max: 3, avg: 0, stddev: 3 }));
    assert_eq!(list[0].info[1].colour, [255, 127, 127]);
    assert_eq!(list[2].info[1].colour, [127, 255, 127]);
    let mut none: Vec<TeamInfoDisplay> = vec![];
    compare_columns(&mut none, 5);
    assert!(none.is_empty());
}

#[test]
fn every_metric_of_a_team_is_resolved() {
    let config = config();
    let pit = record(vec![("mobility", boolean(false))]);
    let info = get_single_team_analysis(&config, stored(), &vec![], Some(&pit), &event(), &cache(), 118);
    assert_eq!(info.team_number, 118);
    assert_eq!(info.team_name, "Robonauts");
    assert_eq!(info.team_icon_uri, Some("/avatar/118".to_string()));
    let names: Vec<&str> = info.data.iter().map(|d| d.name.name.as_str()).collect();
    assert_eq!(names, vec!["Cones", "Mobility", "Auto Line"]);
    assert_eq!(info.data[0].entry.sort_value, 4 * SCALE);
    assert_eq!(info.data[1].entry.sort_value, SCALE / 2);
    assert_eq!(info.data[1].entry.pit_value, Some("No".to_string()));
    assert_eq!(info.data[2].entry.sort_value, SCALE);
    let stranger = get_single_team_analysis(&config, stored(), &vec![], None, &event(), &cache(), 9);
    assert_eq!(stranger.team_name, "");
    assert_eq!(stranger.team_icon_uri, None);
    assert_eq!(stranger.data[0].entry.sort_value, NO_DATA);
}

#[test]
fn the_preview_of_a_match_shows_both_alliances() {
    let config = config();
    let drivers: Vec<DriverEntryIdData> = vec![];
    let preview = get_match_analysis(
        &config,
        stored(),
        &drivers,
        &StrMap::new(),
        &event(),
        &cache(),
        MatchId::Qualification(SetMatch { set: 1, num: 1 }),
    );
    assert_eq!(preview.other_data_names, vec!["Cones", "Mobility"]);
    let blue: Vec<u32> = preview.blue_teams.iter().map(|t| t.team_number).collect();
    let red: Vec<u32> = preview.red_teams.iter().map(|t| t.team_number).collect();
    assert_eq!(blue, vec![118, 254]);
    assert_eq!(red, vec![1, 2, 3, 4]);
    let first = &preview.blue_teams[0];
    assert_eq!(first.team_name, "Robonauts");
    assert_eq!(first.expected_score, 40 * SCALE);
    let parts: Vec<(&str, i64)> = first.expected_score_parts.iter().map(|p| (p.name.as_str(), p.score)).collect();
    assert_eq!(parts, vec![("Auto", 10 * SCALE), ("Cones", 4 * SCALE)]);
    assert_eq!(first.other_data.len(), 2);
    assert_eq!(first.other_data[0].sort_value, 4 * SCALE);
    let unknown = &preview.red_teams[1];
    assert_eq!(unknown.team_name, "");
    assert_eq!(unknown.expected_score, NO_STATISTICS);
    let missing = get_match_analysis(
        &config,
        stored(),
        &drivers,
        &StrMap::new(),
        &event(),
        &cache(),
        MatchId::Practice(SetMatch { set: 1, num: 1 }),
    );
    assert!(missing.red_teams.is_empty() && missing.blue_teams.is_empty());
    assert_eq!(missing.other_data_names, vec!["Cones", "Mobility"]);
    let alone = get_single_team_match_preview(
        None,
        None,
        &config,
        &stored(),
        &drivers,
        &event(),
        &config.game_config.display.pre_match,
        254,
    );
    assert_eq!(alone.team_name, "Cheesy Poofs");
    assert_eq!(alone.team_icon_uri, None);
    assert_eq!(alone.expected_score_parts[1].score, 8 * SCALE);
}
