use infiniscouter::config::match_entry::{
    EntryType, MatchEntry, MatchEntryFields, MatchEntryPage, MatchEntryType,
};
use infiniscouter::config::{
    AbilityMetric, BoolMetric, CollectedMetric, CollectedMetricType, CollectionOption,
    CommonYearSpecificMetrics, ConfigManager, CounterMetric, CounterRange, DisplayColumn,
    DisplayConfig, EnumMetric, FilteredMetric, GameConfig, GameConfigs, ImageMetric,
    MetricCategory, PreMatchDisplay, SingleMetric, StatboticsConfig, StatboticsTeamMetric,
    TbaConfig, TbaMatchProp, TbaMatchPropType, TeamConfig, TeamNameMetric, TextEntryMetric,
    TimerMetric,
};
use infiniscouter::str_map::StrMap;

fn metric(name: &str, order: u32, collect: CollectionOption, ty: CollectedMetricType) -> CollectedMetric {
    CollectedMetric { name: name.to_string(), order, description: format!("about {name}"), collect, metric: ty }
}

fn category(name: &str, order: Option<u32>, metrics: Vec<(&str, CollectedMetric)>) -> MetricCategory {
    let mut map = StrMap::new();
    for (id, m) in metrics {
        map.insert(id.to_string(), m);
    }
    MetricCategory { name: name.to_string(), order, metrics: map }
}

fn game(year: u32, categories: Vec<(&str, MetricCategory)>, team_row: Vec<DisplayColumn>) -> GameConfig {
    let mut map = StrMap::new();
    for (id, c) in categories {
        map.insert(id.to_string(), c);
    }
    let mut props = StrMap::new();
    for id in ["auto_line", "endgame"] {
        props.insert(
            id.to_string(),
            TbaMatchProp { ty: TbaMatchPropType::Bool, property: id.to_string(), name: id.to_string(), options: None },
        );
    }
    GameConfig {
        name: format!("Game {year}"),
        year,
        categories: map,
        tba: TbaConfig { order: 2, props },
        statbotics: StatboticsConfig { props: StrMap::new() },
        ranking_points: vec![],
        display: DisplayConfig {
            team_row,
            pre_match: PreMatchDisplay { score: "statbotics-points".to_string(), graph: vec![], metrics: vec![] },
        },
    }
}

fn bool_type() -> CollectedMetricType {
    CollectedMetricType::Bool(BoolMetric {})
}

fn sample() -> GameConfig {
    game(
        2024,
        vec![
            (
                "teleop",
                category(
                    "Teleop",
                    Some(3),
                    vec![
                        ("cycle_time", metric("Cycle Time", 2, CollectionOption::MatchOnly, CollectedMetricType::Timer(TimerMetric {}))),
                        ("cones", metric("Cones", 1, CollectionOption::MatchOnly, CollectedMetricType::Counter(CounterMetric { limit_range: Some(CounterRange { start: 0, end_inclusive: 9 }) }))),
                        ("defence", metric("Defence", 1, CollectionOption::DriveOnly, bool_type())),
                    ],
                ),
            ),
            (
                "robot",
                category(
                    "Robot",
                    None,
                    vec![
                        ("photos", metric("Photos", 9, CollectionOption::PitOnly, CollectedMetricType::Image(ImageMetric { allow_video: true }))),
                        ("climb", metric("Climb", 4, CollectionOption::MatchPit, CollectedMetricType::Ability(AbilityMetric { implies: vec!["mobility".to_string()] }))),
                        ("drive", metric("Drive", 4, CollectionOption::MatchPit, CollectedMetricType::Enum(EnumMetric { options: vec!["Tank".to_string(), "Swerve".to_string()] }))),
                        ("notes", metric("Notes", 1, CollectionOption::Never, CollectedMetricType::TextEntry(TextEntryMetric { multiline: false }))),
                    ],
                ),
            ),
            (
                "stats",
                category(
                    "Statistics",
                    Some(1),
                    vec![(
                        "statbotics",
                        metric(
                            "Statbotics",
                            1,
                            CollectionOption::Never,
                            CollectedMetricType::StatboticsTeam(StatboticsTeamMetric { props: vec!["points".to_string(), "wlt-ratio".to_string()] }),
                        ),
                    )],
                ),
            ),
        ],
        vec![DisplayColumn::Single(SingleMetric { metric: "cones".to_string(), display: true })],
    )
}

fn page(title: &str, layout: &[&str]) -> MatchEntryPage {
    MatchEntryPage { title: title.to_string(), description: None, layout: layout.iter().map(|s| s.to_string()).collect() }
}

#[test]
fn collection_options_say_where_a_metric_is_entered() {
    let all = [
        (CollectionOption::MatchOnly, true, false, false),
        (CollectionOption::MatchPit, true, true, false),
        (CollectionOption::PitOnly, false, true, false),
        (CollectionOption::DriveOnly, false, false, true),
        (CollectionOption::Never, false, false, false),
    ];
    for (option, in_match, in_pit, from_drive) in all {
        assert_eq!(option.collect_in_match(), in_match);
        assert_eq!(option.collect_in_pit(), in_pit);
        assert_eq!(option.collect_from_drive(), from_drive);
    }
    assert_eq!(CollectionOption::default(), CollectionOption::MatchOnly);
}

#[test]
fn match_fields_have_pages_by_category() {
    let fields = MatchEntryFields::from_game_config(&sample(), EntryType::Match);
    assert_eq!(
        fields.pages,
        vec![page("Teleop", &["cones", "cycle_time"]), page("Robot", &["climb", "drive"])]
    );
    assert_eq!(fields.entries.len(), 4);
    assert_eq!(
        fields.entries.get("climb"),
        Some(&MatchEntry {
            title: "Climb".to_string(),
            description: "about Climb".to_string(),
            page: "Robot".to_string(),
            entry: MatchEntryType::Ability(AbilityMetric { implies: vec!["mobility".to_string()] }),
        })
    );
    assert_eq!(
        fields.entries.get("cones").map(|e| &e.entry),
        Some(&MatchEntryType::Counter(CounterMetric { limit_range: Some(CounterRange { start: 0, end_inclusive: 9 }) }))
    );
    assert_eq!(fields.entries.get("photos"), None);
    assert_eq!(fields.entries.get("defence"), None);
}

#[test]
fn pit_fields_ask_for_abilities_as_yes_or_no() {
    let fields = MatchEntryFields::from_game_config(&sample(), EntryType::Pit);
    assert_eq!(fields.pages, vec![page("Robot", &["climb", "drive", "photos"])]);
    assert_eq!(fields.entries.get("climb").map(|e| &e.entry), Some(&MatchEntryType::Bool(BoolMetric {})));
    assert_eq!(
        fields.entries.get("photos").map(|e| &e.entry),
        Some(&MatchEntryType::Image(ImageMetric { allow_video: true }))
    );
    let drive = MatchEntryFields::from_game_config(&sample(), EntryType::DriveTeam);
    assert_eq!(drive.pages, vec![page("Teleop", &["defence"])]);
    assert_eq!(drive.entries.len(), 1);
    assert_eq!(
        MatchEntryType::from(&CollectedMetricType::Ability(AbilityMetric { implies: vec![] }), EntryType::DriveTeam),
        MatchEntryType::Ability(AbilityMetric { implies: vec![] })
    );
}

#[test]
fn all_metrics_come_by_category_and_place() {
    let configs = GameConfigs::from(sample());
    assert_eq!(
        configs.all_metrics,
        vec![
            "notes", "climb", "drive", "photos",
            "statbotics-points", "statbotics-wlt-ratio",
            "tba-auto_line", "tba-endgame",
            "cones", "defence", "cycle_time",
        ]
    );
    assert_eq!(configs.game_config, sample());
    assert_eq!(configs.match_entry_fields, MatchEntryFields::from_game_config(&sample(), EntryType::Match));
    assert_eq!(configs.pit_entry_fields, MatchEntryFields::from_game_config(&sample(), EntryType::Pit));
    assert_eq!(configs.driver_entry_fields, MatchEntryFields::from_game_config(&sample(), EntryType::DriveTeam));
}

#[test]
fn the_shared_configuration_is_set_into_a_game() {
    let common = game(
        0,
        vec![
            (
                "robot",
                category(
                    "Common Robot",
                    Some(7),
                    vec![
                        ("drive", metric("Shared Drive", 0, CollectionOption::PitOnly, bool_type())),
                        ("weight", metric("Weight", 5, CollectionOption::PitOnly, CollectedMetricType::Counter(CounterMetric { limit_range: None }))),
                    ],
                ),
            ),
            (
                "outside",
                category(
                    "Outside",
                    Some(9),
                    vec![(
                        "statbotics",
                        metric(
                            "Statbotics",
                            1,
                            CollectionOption::MatchOnly,
                            CollectedMetricType::StatboticsTeam(StatboticsTeamMetric { props: vec!["wins".to_string()] }),
                        ),
                    )],
                ),
            ),
        ],
        vec![
            DisplayColumn::TeamName(TeamNameMetric { display: true }),
            DisplayColumn::CommonYearSpecific(CommonYearSpecificMetrics {}),
            DisplayColumn::Filtered(FilteredMetric { metric: "a".to_string(), filter_by: "b".to_string(), display: false }),
        ],
    );
    let merged = sample().with_common(&common);
    assert_eq!(merged.year, 2024);
    assert_eq!(
        merged.display.team_row,
        vec![
            DisplayColumn::TeamName(TeamNameMetric { display: true }),
            DisplayColumn::Single(SingleMetric { metric: "cones".to_string(), display: true }),
            DisplayColumn::Filtered(FilteredMetric { metric: "a".to_string(), filter_by: "b".to_string(), display: false }),
        ]
    );
    assert_eq!(merged.categories.len(), 4);
    let robot = merged.categories.get("robot").unwrap();
    assert_eq!(robot.name, "Robot");
    assert_eq!(robot.order, Some(7));
    assert_eq!(robot.metrics.len(), 5);
    assert_eq!(robot.metrics.get("drive").map(|m| m.name.as_str()), Some("Shared Drive"));
    assert_eq!(robot.metrics.get("weight").map(|m| m.order), Some(5));
    assert_eq!(merged.categories.get("teleop"), sample().categories.get("teleop"));
    let outside = merged.categories.get("outside").unwrap();
    assert_eq!(outside.metrics.get("statbotics").map(|m| m.collect), Some(CollectionOption::Never));
    let loaded = GameConfigs::load(sample(), &common);
    assert_eq!(loaded.game_config, merged);
    assert_eq!(loaded.all_metrics.last().map(|s| s.as_str()), Some("statbotics-wins"));
    assert_eq!(loaded.pit_entry_fields.pages[0].layout, vec!["drive", "climb", "weight", "photos"]);
}

#[test]
fn the_manager_knows_the_game_of_the_current_year() {
    let team = |year: u32| TeamConfig {
        team: 118,
        current_year: year,
        current_event: "2024test".to_string(),
        tba_auth_key: "SECRET".to_string(),
    };
    let games = || vec![GameConfigs::from(game(2023, vec![], vec![])), GameConfigs::from(sample())];
    assert_eq!(ConfigManager::new(games(), team(2022)), None);
    assert_eq!(ConfigManager::new(vec![], team(2024)), None);
    let manager = ConfigManager::new(games(), team(2024)).unwrap();
    assert_eq!(manager.get_current_game_config().game_config.name, "Game 2024");
    assert_eq!(manager.get_game_config(2023).map(|g| g.game_config.year), Some(2023));
    assert_eq!(manager.get_game_config(2022), None);
    assert_eq!(manager.get_server_config(), &team(2024));
    assert_eq!(manager.get_tba_auth_key(), "SECRET");
}
