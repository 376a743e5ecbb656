use infiniscouter::analysis::{DataSource, PieChartEntry, PieChartOption, TeamInfoEntry, TeamInfoGraphic, TeamInfoNumericEntry};
use infiniscouter::analysis::pie::{get_pie_chart, PieText};
use infiniscouter::analysis::reduce::{get_numeric_entry, get_text_entry, number_entry, reduce, MetricKind};
use infiniscouter::analysis::resolve::{get_metric_name, get_single_metric, metric_kind};
use infiniscouter::analysis::statistics::{get_statistics_entry};
use infiniscouter::config::{
    AbilityMetric, BoolMetric, CollectedMetric, CollectedMetricType, CollectionOption,
    CounterMetric, DisplayConfig, EnumMetric, GameConfig, GameConfigs, ImageMetric,
    MetricCategory, PreMatchDisplay, StatboticsConfig, TbaConfig, TbaMatchProp,
    TbaMatchPropOption, TbaMatchPropType, TextEntryMetric, TimerMetric,
};
use infiniscouter::data::{
    CounterEntry, DriverEntryIdData, ImageEntry, ImageEntryItem, MatchAbilityEntry,
    MatchAbilityValue, MatchBoolEntry, MatchEntryData, MatchEntryIdData, MatchEntryValue,
    MatchEnumEntry, MatchTimerEntry, TextFieldEntry,
};
use infiniscouter::number::{NO_DATA, NO_STATISTICS, NOT_SHOWN, SCALE};
use infiniscouter::statbotics::{
    StatboticsEpa, StatboticsEpaBreakdown, StatboticsRecordQuals, StatboticsTeam,
    StatboticsTotalPoints,
};
use infiniscouter::str_map::StrMap;

fn metric(name: &str, order: u32, collect: CollectionOption, ty: CollectedMetricType) -> CollectedMetric {
    CollectedMetric {
        name: name.to_string(),
        order,
        description: format!("about {name}"),
        collect,
        metric: ty,
    }
}

fn config() -> GameConfigs {
    let mut metrics = StrMap::new();
    metrics.insert(
        "climb".to_string(),
        metric("Climb", 1, CollectionOption::MatchPit, CollectedMetricType::Ability(AbilityMetric { implies: vec![] })),
    );
    metrics.insert(
        "mobility".to_string(),
        metric("Mobility", 2, CollectionOption::MatchOnly, CollectedMetricType::Bool(BoolMetric {})),
    );
    metrics.insert(
        "drive".to_string(),
        metric(
            "Drive Train",
            3,
            CollectionOption::MatchPit,
            CollectedMetricType::Enum(EnumMetric {
                options: vec!["Tank".to_string(), "Swerve".to_string(), "Mecanum".to_string(), "Other".to_string()],
            }),
        ),
    );
    metrics.insert(
        "cycle_time".to_string(),
        metric("Cycle Time", 4, CollectionOption::MatchOnly, CollectedMetricType::Timer(TimerMetric {})),
    );
    metrics.insert(
        "cones".to_string(),
        metric("Cones", 5, CollectionOption::MatchOnly, CollectedMetricType::Counter(CounterMetric { limit_range: None })),
    );
    metrics.insert(
        "notes".to_string(),
        metric("Notes", 6, CollectionOption::MatchPit, CollectedMetricType::TextEntry(TextEntryMetric { multiline: true })),
    );
    metrics.insert(
        "photos".to_string(),
        metric("Photos", 7, CollectionOption::PitOnly, CollectedMetricType::Image(ImageMetric { allow_video: false })),
    );
    metrics.insert(
        "driver_rating".to_string(),
        metric("Driver Rating", 8, CollectionOption::DriveOnly, CollectedMetricType::Counter(CounterMetric { limit_range: None })),
    );
    let mut categories = StrMap::new();
    categories.insert(
        "robot".to_string(),
        MetricCategory { name: "Robot".to_string(), order: Some(1), metrics },
    );
    let mut props = StrMap::new();
    props.insert(
        "auto_line".to_string(),
        TbaMatchProp {
            ty: TbaMatchPropType::Bool,
            property: "autoLineRobot{N}".to_string(),
            name: "Auto Line".to_string(),
            options: None,
        },
    );
    props.insert(
        "endgame".to_string(),
        TbaMatchProp {
            ty: TbaMatchPropType::Enum,
            property: "endGameRobot{N}".to_string(),
            name: "Endgame".to_string(),
            options: Some(vec![
                TbaMatchPropOption { id: "None".to_string(), name: None },
                TbaMatchPropOption { id: "Parked".to_string(), name: Some("Park".to_string()) },
            ]),
        },
    );
    GameConfigs::from(GameConfig {
        name: "Test Game".to_string(),
        year: 2024,
        categories,
        tba: TbaConfig { order: 50, props },
        statbotics: StatboticsConfig { props: StrMap::new() },
        ranking_points: vec!["Melody".to_string()],
        display: DisplayConfig {
            team_row: vec![],
            pre_match: PreMatchDisplay { score: "statbotics-points".to_string(), graph: vec![], metrics: vec![] },
        },
    })
}

fn boolean(value: bool) -> MatchEntryValue {
    MatchEntryValue::Bool(MatchBoolEntry { value, scout: "A".to_string(), timestamp_ms: 1 })
}

fn ability(value: MatchAbilityValue) -> MatchEntryValue {
    MatchEntryValue::Ability(MatchAbilityEntry { value, scout: "A".to_string(), timestamp_ms: 1 })
}

fn choice(value: &str) -> MatchEntryValue {
    MatchEntryValue::Enum(MatchEnumEntry { value: value.to_string(), scout: "A".to_string(), timestamp_ms: 1 })
}

fn timer(micros: i64) -> MatchEntryValue {
    MatchEntryValue::Timer(MatchTimerEntry { time_micros: micros, scout: "A".to_string(), timestamp_ms: 1 })
}

fn counter(count: i32) -> MatchEntryValue {
    MatchEntryValue::Counter(CounterEntry { count, scout: "A".to_string(), timestamp_ms: 1 })
}

fn text(text: &str, sentiment: i64) -> MatchEntryValue {
    MatchEntryValue::TextEntry(TextFieldEntry { text: text.to_string(), sentiment, scout: "A".to_string(), timestamp_ms: 1 })
}

fn images(ids: &[&str]) -> MatchEntryValue {
    MatchEntryValue::Image(ImageEntry {
        images: ids
            .iter()
            .map(|id| ImageEntryItem { image_id: id.to_string(), image_mime: "image/png".to_string() })
            .collect(),
        scout: "A".to_string(),
        timestamp_ms: 1,
    })
}

fn record(fields: Vec<(&str, MatchEntryValue)>) -> MatchEntryData {
    let mut entries = StrMap::new();
    for (id, value) in fields {
        entries.insert(id.to_string(), value);
    }
    MatchEntryData { entries, scout: None, timestamp_ms: None }
}

fn in_match(match_id: &str, team_id: &str, fields: Vec<(&str, MatchEntryValue)>) -> MatchEntryIdData {
    MatchEntryIdData { match_id: match_id.to_string(), team_id: team_id.to_string(), data: record(fields) }
}

fn by_drivers(match_id: &str, team_id: &str, fields: Vec<(&str, MatchEntryValue)>) -> DriverEntryIdData {
    DriverEntryIdData { match_id: match_id.to_string(), team_id: team_id.to_string(), data: record(fields) }
}

fn statistics(wins: u32, losses: u32, ties: u32) -> StatboticsTeam {
    StatboticsTeam {
        epa: StatboticsEpa {
            total_points: StatboticsTotalPoints { mean: 41_500_000, sd: 3_250_000 },
            breakdown: StatboticsEpaBreakdown {
                total_points: 41_000_000,
                auto_points: 10_000_000,
                teleop_points: 20_000_000,
                endgame_points: 11_000_000,
                rp_1: 300_000,
                rp_2: 450_000,
                rp_3: None,
                extra: StrMap::new(),
            },
        },
        record: StatboticsRecordQuals { wins, losses, ties, count: wins + losses + ties, rps: 17 },
        other_details: StrMap::new(),
        last_update: 0,
    }
}

fn slices(entry: &TeamInfoEntry) -> Vec<(String, i64)> {
    match &entry.graphic {
        Some(TeamInfoGraphic::PieChart(PieChartEntry { options })) => {
            options.iter().map(|o| (o.label.clone(), o.value)).collect()
        }
        other => panic!("no pie chart: {other:?}"),
    }
}

fn bool_weights() -> Vec<(String, Option<i64>)> {
    vec![("No".to_string(), Some(0)), ("Yes".to_string(), Some(SCALE))]
}

#[test]
fn win_loss_tie_ratio_of_ten_wins_and_two_losses() {
    let sb = statistics(10, 2, 0);
    let entry = get_single_metric(&config(), &vec![], &vec![], None, Some(&sb), 118, "statbotics-wlt-ratio", None);
    assert_eq!(entry.sort_value, 833_333);
    assert_eq!(
        slices(&entry),
        vec![
            ("Wins".to_string(), 10 * SCALE),
            ("Losses".to_string(), 2 * SCALE),
            ("Ties".to_string(), 0),
        ]
    );
    assert_eq!(entry.text, "10-2");
    assert_eq!(entry.colour, [255, 255, 255]);
    assert_eq!(entry.pit_value, None);
}

#[test]
fn a_tie_counts_as_half_a_win() {
    let entry = get_statistics_entry(Some(&statistics(1, 1, 2)), "wlt-ratio", "statbotics-wlt-ratio");
    assert_eq!(entry.sort_value, SCALE / 2);
    assert_eq!(entry.text, "1-1-2");
    let unplayed = get_statistics_entry(Some(&statistics(0, 0, 0)), "wlt-ratio", "statbotics-wlt-ratio");
    assert_eq!(unplayed.sort_value, NO_DATA);
    assert_eq!(unplayed.text, "0-0");
}

#[test]
fn ranking_points_of_the_statistics() {
    let entry = get_statistics_entry(Some(&statistics(1, 1, 2)), "rps-ratio", "statbotics-rps-ratio");
    assert_eq!(entry.sort_value, 750_000);
    assert_eq!(entry.text, "");
    assert_eq!(
        slices(&entry),
        vec![("None".to_string(), 250_000), ("RP 1".to_string(), 300_000), ("RP 2".to_string(), 450_000)]
    );
    let mut sure = statistics(1, 1, 2);
    sure.epa.breakdown.rp_1 = 900_000;
    let full = get_statistics_entry(Some(&sure), "rps-ratio", "statbotics-rps-ratio");
    assert_eq!(slices(&full)[0], ("None".to_string(), 0));
    assert_eq!(full.sort_value, 1_350_000);
}

#[test]
fn single_statistics_are_numbers() {
    let sb = statistics(10, 2, 1);
    let expected = [
        ("points", 41_500_000, Some(3_250_000)),
        ("auto-points", 10_000_000, None),
        ("teleop-points", 20_000_000, None),
        ("endgame-points", 11_000_000, None),
        ("wins", 10 * SCALE, None),
        ("losses", 2 * SCALE, None),
        ("ties", SCALE, None),
        ("rps", 17 * SCALE, None),
        ("games", 13 * SCALE, None),
        ("rp-1", 300_000, None),
        ("rp-2", 450_000, None),
    ];
    for (stat, value, std_dev) in expected {
        let metric = format!("statbotics-{stat}");
        let entry = get_single_metric(&config(), &vec![], &vec![], None, Some(&sb), 118, &metric, None);
        assert_eq!(entry.sort_value, value, "{stat}");
        assert_eq!(
            entry.graphic,
            Some(TeamInfoGraphic::Numeric(TeamInfoNumericEntry {
                number: value,
                collected_std_dev: std_dev,
                collected_min_max: None,
                compare_other_numbers: None,
                is_time: false,
            })),
            "{stat}"
        );
    }
    let points = get_statistics_entry(Some(&sb), "points", "statbotics-points");
    assert_eq!(points.text, "41.50");
}

#[test]
fn missing_statistics_sort_last() {
    let entry = get_single_metric(&config(), &vec![], &vec![], None, None, 118, "statbotics-wins", None);
    assert_eq!(entry.sort_value, NO_STATISTICS);
    assert_eq!(entry.text, "ERROR: No statbotics for team");
    assert_eq!(entry.graphic, None);
    assert!(entry.sort_value > NOT_SHOWN);
}

#[test]
fn unknown_metrics_are_echoed() {
    let sb = statistics(1, 0, 0);
    let entry = get_single_metric(&config(), &vec![], &vec![], None, Some(&sb), 118, "statbotics-bruh", None);
    assert_eq!(entry.sort_value, NOT_SHOWN);
    assert_eq!(entry.text, "statbotics-bruh");
    let entry = get_single_metric(&config(), &vec![], &vec![], None, None, 118, "nonsense", None);
    assert_eq!(entry.sort_value, NOT_SHOWN);
    assert_eq!(entry.text, "nonsense");
    assert_eq!(entry.graphic, None);
    assert_eq!(metric_kind(&config(), "nonsense"), MetricKind::Unknown);
    let name = get_metric_name(&config(), "nonsense");
    assert_eq!(name.name, "nonsense");
    assert_eq!(name.page, "Unknown");
    assert_eq!(name.source, DataSource::Unknown);
}

#[test]
fn no_observations_sort_as_no_data() {
    let config = config();
    for metric in ["climb", "mobility", "drive", "cycle_time", "cones", "notes", "driver_rating", "tba-auto_line"] {
        let entry = get_single_metric(&config, &vec![], &vec![], None, None, 118, metric, None);
        assert_eq!(entry.sort_value, NO_DATA, "{metric}");
        assert_eq!(entry.text, "", "{metric}");
    }
    let photos = get_single_metric(&config, &vec![], &vec![], None, None, 118, "photos", None);
    assert_eq!(photos.sort_value, 0);
    assert_eq!(photos.text, "");
}

#[test]
fn yes_no_answers_make_a_pie_chart() {
    let matches = vec![
        in_match("1", "118", vec![("mobility", boolean(true))]),
        in_match("2", "118", vec![("mobility", boolean(true))]),
        in_match("3", "118", vec![("mobility", boolean(false))]),
        in_match("3", "254", vec![("mobility", boolean(false))]),
        in_match("4", "0118", vec![("mobility", boolean(true))]),
        in_match("5", "frc118", vec![("mobility", boolean(false))]),
    ];
    let entry = get_single_metric(&config(), &matches, &vec![], None, None, 118, "mobility", None);
    assert_eq!(entry.sort_value, 750_000);
    assert_eq!(entry.text, "75%");
    assert_eq!(slices(&entry), vec![("No".to_string(), SCALE), ("Yes".to_string(), 3 * SCALE)]);
    let other = get_single_metric(&config(), &matches, &vec![], None, None, 254, "mobility", None);
    assert_eq!(other.sort_value, 0);
    assert_eq!(other.text, "0%");
}

#[test]
fn pie_chart_does_not_depend_on_the_order_of_observations() {
    let a = boolean(true);
    let b = boolean(false);
    let c = boolean(true);
    let d = choice("Yes");
    let weights = bool_weights();
    let one = get_pie_chart(&vec![&a, &b, &c, &d], None, &weights, PieText::Share);
    let other = get_pie_chart(&vec![&d, &c, &b, &a], None, &weights, PieText::Share);
    let third = get_pie_chart(&vec![&b, &a, &d, &c], None, &weights, PieText::Share);
    assert_eq!(one.sort_value, 750_000);
    assert_eq!(one, other);
    assert_eq!(one, third);
}

#[test]
fn abilities_weigh_success_against_attempts() {
    let values = [
        ability(MatchAbilityValue::Succeeded),
        ability(MatchAbilityValue::Attempted),
        ability(MatchAbilityValue::Attempted),
        ability(MatchAbilityValue::Nothing),
        ability(MatchAbilityValue::Nothing),
    ];
    let points: Vec<&MatchEntryValue> = values.iter().collect();
    let pit = boolean(true);
    let entry = reduce(&MetricKind::Ability, "climb", &points, Some(&pit));
    assert_eq!(entry.sort_value, 333_333);
    assert_eq!(entry.text, "33%");
    assert_eq!(entry.pit_value, Some("Yes".to_string()));
    assert_eq!(slices(&entry), vec![("Attempted".to_string(), 2 * SCALE), ("Succeeded".to_string(), SCALE)]);
    let nothing = [ability(MatchAbilityValue::Nothing)];
    let idle = reduce(&MetricKind::Ability, "climb", &nothing.iter().collect(), None);
    assert_eq!(idle.sort_value, NO_DATA);
    assert_eq!(idle.graphic, None);
    assert_eq!(idle.text, "");
}

#[test]
fn selections_name_their_most_frequent_option() {
    let config = config();
    let matches = vec![
        in_match("1", "118", vec![("drive", choice("Swerve"))]),
        in_match("2", "118", vec![("drive", choice("Swerve"))]),
        in_match("3", "118", vec![("drive", choice("Other"))]),
        in_match("4", "118", vec![("drive", choice("Wheels"))]),
    ];
    let pit = record(vec![("drive", choice("Swerve"))]);
    let entry = get_single_metric(&config, &matches, &vec![], Some(&pit), None, 118, "drive", None);
    // Swerve weighs 1/4 and Other 3/4; Wheels is no option and does not count.
    assert_eq!(entry.sort_value, (250_000 + 250_000 + 750_000) / 3);
    assert_eq!(entry.text, "67% Swerve");
    assert_eq!(entry.pit_value, Some("Swerve".to_string()));
    assert_eq!(
        slices(&entry),
        vec![
            ("Tank".to_string(), 0),
            ("Swerve".to_string(), 2 * SCALE),
            ("Mecanum".to_string(), 0),
            ("Other".to_string(), SCALE),
        ]
    );
    let alone = get_single_metric(&config, &matches[..2].to_vec(), &vec![], None, None, 118, "drive", None);
    assert_eq!(alone.text, "Swerve");
    assert_eq!(alone.sort_value, 250_000);
    let tank = vec![in_match("1", "118", vec![("drive", choice("Tank"))])];
    let first = get_single_metric(&config, &tank, &vec![], None, None, 118, "drive", None);
    assert_eq!(first.sort_value, 0);
    assert_eq!(first.text, "Tank");
}

#[test]
fn timers_and_counters_are_averaged() {
    let values = [timer(12_000_000), timer(9_000_000)];
    let entry = get_numeric_entry(&values.iter().collect(), None, true);
    assert_eq!(entry.sort_value, 10_500_000);
    assert_eq!(entry.text, "10.50");
    assert_eq!(
        entry.graphic,
        Some(TeamInfoGraphic::Numeric(TeamInfoNumericEntry {
            number: 10_500_000,
            collected_std_dev: Some(3_240_370),
            collected_min_max: Some((9_000_000, 12_000_000)),
            compare_other_numbers: None,
            is_time: true,
        }))
    );
    let counts = [counter(3), counter(4), counter(-1), timer(5)];
    let entry = get_numeric_entry(&counts.iter().collect(), Some(&counter(9)), false);
    assert_eq!(entry.sort_value, 2 * SCALE);
    assert_eq!(entry.text, "2.00");
    assert_eq!(entry.pit_value, None);
    let below = number_entry(vec![-4 * SCALE], false);
    assert_eq!(below.sort_value, -4 * SCALE);
    assert_eq!(
        below.graphic,
        Some(TeamInfoGraphic::Numeric(TeamInfoNumericEntry {
            number: -4 * SCALE,
            collected_std_dev: None,
            collected_min_max: Some((-4 * SCALE, -4 * SCALE)),
            compare_other_numbers: None,
            is_time: false,
        }))
    );
}

#[test]
fn timers_and_counters_without_observations_show_the_pits() {
    let entry = get_numeric_entry(&vec![], Some(&timer(9_500_000)), true);
    assert_eq!(entry.sort_value, NO_DATA);
    assert_eq!(entry.text, "");
    assert_eq!(entry.pit_value, Some("9.5s".to_string()));
    assert_eq!(entry.graphic, None);
    let entry = get_numeric_entry(&vec![], Some(&counter(-12)), false);
    assert_eq!(entry.pit_value, Some("-12".to_string()));
    let other = [boolean(true)];
    let entry = get_numeric_entry(&other.iter().collect(), Some(&counter(3)), true);
    assert_eq!(entry.sort_value, NO_DATA);
    assert_eq!(entry.pit_value, None);
}

#[test]
fn texts_are_listed_with_their_sentiment() {
    let values = [text("great robot", 620_000), text("slow", -150_000), counter(1)];
    let pit = text("tidy wiring", 100_000);
    let entry = get_text_entry(&values.iter().collect(), Some(&pit));
    assert_eq!(entry.text, "great robot");
    assert_eq!(entry.sort_value, 570_000);
    assert_eq!(
        entry.graphic,
        Some(TeamInfoGraphic::MultiText(infiniscouter::analysis::MultiTextEntry {
            strings: vec!["great robot".to_string(), "slow".to_string(), "tidy wiring".to_string()],
            sentiment: 570_000,
        }))
    );
    let empty = get_text_entry(&vec![], None);
    assert_eq!(empty.sort_value, NO_DATA);
    assert_eq!(empty.text, "");
}

#[test]
fn more_images_sort_first() {
    let config = config();
    let pit = record(vec![("photos", images(&["a", "b"]))]);
    let drivers = vec![by_drivers("1", "118", vec![("photos", images(&["c"]))])];
    let entry = get_single_metric(&config, &vec![], &drivers, Some(&pit), None, 118, "photos", None);
    assert_eq!(entry.sort_value, -3 * SCALE);
    assert_eq!(entry.text, "3 images");
    match &entry.graphic {
        Some(TeamInfoGraphic::Images(list)) => {
            let ids: Vec<&str> = list.images.iter().map(|i| i.image_id.as_str()).collect();
            assert_eq!(ids, vec!["c", "a", "b"]);
        }
        other => panic!("no images: {other:?}"),
    }
    let one = record(vec![("photos", images(&["a"]))]);
    let entry = get_single_metric(&config, &vec![], &vec![], Some(&one), None, 118, "photos", None);
    assert_eq!(entry.text, "1 image");
    assert_eq!(entry.sort_value, -SCALE);
}

#[test]
fn a_filter_counts_only_the_matches_that_say_yes() {
    let config = config();
    let matches = vec![
        in_match("1", "118", vec![("cycle_time", timer(8_000_000)), ("mobility", boolean(true))]),
        in_match("2", "118", vec![("cycle_time", timer(20_000_000)), ("mobility", boolean(false))]),
        in_match("3", "118", vec![("cycle_time", timer(30_000_000))]),
        in_match("4", "118", vec![("cycle_time", timer(10_000_000)), ("mobility", boolean(true))]),
        in_match("5", "118", vec![("cycle_time", timer(40_000_000)), ("mobility", counter(1))]),
    ];
    let drivers = vec![by_drivers("1", "118", vec![("cycle_time", timer(12_000_000))])];
    let all = get_single_metric(&config, &matches, &drivers, None, None, 118, "cycle_time", None);
    assert_eq!(all.sort_value, 20 * SCALE);
    let filtered = get_single_metric(&config, &matches, &drivers, None, None, 118, "cycle_time", Some("mobility"));
    // The two matches that say yes, and what the drive team says, which no filter touches.
    assert_eq!(filtered.sort_value, 10 * SCALE);
}

#[test]
fn metrics_of_the_feed_go_by_the_type_of_their_property() {
    let config = config();
    assert_eq!(metric_kind(&config, "tba-auto_line"), MetricKind::Bool);
    assert_eq!(metric_kind(&config, "tba-endgame"), MetricKind::Enum(vec!["None".to_string(), "Park".to_string()]));
    assert_eq!(metric_kind(&config, "tba-other"), MetricKind::Unknown);
    assert_eq!(metric_kind(&config, "climb"), MetricKind::Ability);
    assert_eq!(metric_kind(&config, "photos"), MetricKind::Image);
    assert_eq!(metric_kind(&config, "driver_rating"), MetricKind::Counter);
    let matches = vec![
        in_match("1", "118", vec![("tba-auto_line", boolean(true))]),
        in_match("2", "118", vec![("tba-auto_line", boolean(false))]),
    ];
    let entry = get_single_metric(&config, &matches, &vec![], None, None, 118, "tba-auto_line", None);
    assert_eq!(entry.sort_value, SCALE / 2);
    assert_eq!(entry.text, "50%");
}

#[test]
fn metrics_are_named_by_their_source() {
    let config = config();
    let expected = [
        ("climb", "Climb", "Robot", DataSource::Match),
        ("photos", "Photos", "Robot", DataSource::Pit),
        ("driver_rating", "Driver Rating", "Robot", DataSource::Driver),
        ("statbotics-wlt-ratio", "W/L/T", "Data", DataSource::Statbotics),
        ("statbotics-statbotics-wins", "Wins", "Data", DataSource::Statbotics),
        ("statbotics-rp-1", "Melody", "Data", DataSource::Statbotics),
        ("statbotics-rp-2", "RP 2", "Data", DataSource::Statbotics),
        ("statbotics-x", "Unknown Statbotics", "Data", DataSource::Statbotics),
        ("tba-endgame", "Endgame", "The Blue Alliance", DataSource::Tba),
        ("tba-missing", "tba-missing", "Unknown", DataSource::Unknown),
    ];
    for (metric, name, page, source) in expected {
        let found = get_metric_name(&config, metric);
        assert_eq!(found.name, name, "{metric}");
        assert_eq!(found.page, page, "{metric}");
        assert_eq!(found.source, source, "{metric}");
    }
}

#[test]
fn slices_carry_their_labels() {
    let entry = get_pie_chart(&vec![], None, &bool_weights(), PieText::TopOption);
    assert_eq!(entry.graphic, None);
    assert_eq!(entry.text, "");
    let yes = boolean(true);
    let entry = get_pie_chart(&vec![&yes], Some(&choice("Maybe")), &bool_weights(), PieText::TopOption);
    assert_eq!(entry.text, "Yes");
    assert_eq!(entry.pit_value, Some("Maybe".to_string()));
    assert_eq!(
        entry.graphic,
        Some(TeamInfoGraphic::PieChart(PieChartEntry {
            options: vec![
                PieChartOption { label: "No".to_string(), value: 0 },
                PieChartOption { label: "Yes".to_string(), value: SCALE },
            ],
        }))
    );
}
