//! The resolution of metrics: one metric of one team is reduced, from all that
//! was observed of it, to one entry of the table; the entries of one column
//! are then set against each other.
use vstd::prelude::*;
use vstd::string::*;

use crate::analysis::resolve::{
    column_label, default_columns, default_display, feed_records, get_match_entries,
    get_metric_name, get_single_metric, get_single_team_match_preview, lemma_team_info_num,
    name_of, names_of, opt_fields, parts_of, pit_entry_of, pit_fields, single_metric,
    single_team_impl, table_labels, team_row, views_of,
};
use crate::analysis::statistics::opt_statistics;
use crate::config::GameConfigs;
use crate::data::{
    driver_records, image_list, match_records, DriverEntryIdData, ImageEntryItem, MatchEntryData,
    MatchEntryIdData, Record,
};
use crate::number::{
    average, colour, colour_of, colour_value, deviation, greatest, least, maximum, mean, minimum,
    std_dev,
};
use crate::statbotics::StatboticsCache;
use crate::str_map::StrMap;
use crate::tba::{icon_url, match_info, team_info, EventInfo, MatchId, TeamInfo};
use crate::text::texts;

pub mod pie;
pub mod reduce;
pub mod resolve;
pub mod statistics;

verus! {

/// The rows of one team in the table
#[derive(Debug, Clone, PartialEq)]
pub struct TeamInfoDisplay {
    pub info: Vec<TeamInfoEntry>,
}

/// An entry with the name of its metric.
#[derive(Debug, Clone, PartialEq)]
pub struct InfoEntryWithSource {
    pub name: NameAndSource,
    pub entry: TeamInfoEntry,
}

/// What one metric says of one team: the entry of one cell of the table.
#[derive(Debug, Clone, PartialEq)]
pub struct TeamInfoEntry {
    pub text: String,
    pub pit_value: Option<String>,
    /// The number by which the column is sorted, in millionths
    pub sort_value: i64,
    pub colour: [u8; 3],
    pub graphic: Option<TeamInfoGraphic>,
}

/// What an entry shows beside its text.
#[derive(Debug, Clone, PartialEq)]
pub enum TeamInfoGraphic {
    TeamName(TeamNameEntry),
    Numeric(TeamInfoNumericEntry),
    PieChart(PieChartEntry),
    MultiText(MultiTextEntry),
    Images(ImagesEntry),
}

/// Where a metric comes from
#[derive(Debug, Clone, Copy, PartialEq, Eq, Structural)]
pub enum DataSource {
    Match,
    Pit,
    Driver,
    Statbotics,
    Tba,
    Unknown,
    System,
}

/// The number and the name of a team.
#[derive(Debug, Clone, PartialEq)]
pub struct TeamNameEntry {
    pub number: u32,
    pub name: String,
    pub icon_uri: Option<String>,
}

/// A number, with what is known of the numbers it was averaged from.
#[derive(Debug, Clone, Copy, PartialEq)]
pub struct TeamInfoNumericEntry {
    pub number: i64,
    pub collected_std_dev: Option<i64>,
    pub collected_min_max: Option<(i64, i64)>,
    /// How the column of this entry is spread over all teams
    pub compare_other_numbers: Option<MinMaxAvg>,
    pub is_time: bool,
}

/// The spread of one column over all teams that have a number in it
#[derive(Debug, Clone, Copy, PartialEq, Eq, Structural)]
pub struct MinMaxAvg {
    pub min: i64,
    pub max: i64,
    pub avg: i64,
    pub stddev: i64,
}

/// A pie chart: its slices, in the order of the options.
#[derive(Debug, Clone, PartialEq)]
pub struct PieChartEntry {
    pub options: Vec<PieChartOption>,
}

/// One slice of a pie chart.
#[derive(Debug, Clone, PartialEq)]
pub struct PieChartOption {
    pub label: String,
    /// The weight of the slice, in millionths
    pub value: i64,
}

/// Texts, with the sum of their sentiment scores in millionths.
#[derive(Debug, Clone, PartialEq)]
pub struct MultiTextEntry {
    pub strings: Vec<String>,
    pub sentiment: i64,
}

/// Images.
#[derive(Debug, Clone, PartialEq)]
pub struct ImagesEntry {
    pub images: Vec<ImageEntryItem>,
}

/// Every metric of one team.
#[derive(Debug, Clone, PartialEq)]
pub struct SingleTeamInfo {
    pub team_number: u32,
    pub team_name: String,
    pub team_icon_uri: Option<String>,
    pub data: Vec<InfoEntryWithSource>,
}

/// The name of a metric, the page it is entered on, and where it comes from.
#[derive(Debug, Clone, PartialEq)]
pub struct NameAndSource {
    pub name: String,
    pub page: String,
    pub source: DataSource,
}

/// The preview of a match.
#[derive(Debug, Clone, PartialEq)]
pub struct MatchAnalysisInfo {
    pub red_teams: Vec<MatchAnalysisTeamInfo>,
    pub blue_teams: Vec<MatchAnalysisTeamInfo>,
    pub other_data_names: Vec<String>,
}

/// What is expected of one team in a match.
#[derive(Debug, Clone, PartialEq)]
pub struct MatchAnalysisTeamInfo {
    pub team_number: u32,
    pub team_name: String,
    pub team_icon_uri: Option<String>,
    pub expected_score: i64,
    pub expected_score_parts: Vec<MatchAnalysisScorePart>,
    pub other_data: Vec<TeamInfoEntry>,
}

/// One part of the expected score of a team.
#[derive(Debug, Clone, PartialEq)]
pub struct MatchAnalysisScorePart {
    pub name: String,
    pub score: i64,
}

/// The table of all teams
#[derive(Debug, Clone, PartialEq)]
pub struct TeamInfoList {
    pub heading: Vec<NameAndSource>,
    pub list: Vec<TeamInfoDisplay>,
    pub default_display: Vec<usize>,
}

/// The slices of a pie chart as contracts see them: labels with weights.
pub type Slices = Seq<(Seq<char>, i64)>;

/// The graphic of an entry as contracts see it.
pub enum GraphicView {
    TeamName { number: u32, name: Seq<char>, icon_uri: Option<Seq<char>> },
    Numeric(TeamInfoNumericEntry),
    PieChart(Slices),
    MultiText { strings: Seq<Seq<char>>, sentiment: i64 },
    Images(Seq<(Seq<char>, Seq<char>)>),
}

/// An entry as contracts see it.
pub struct EntryView {
    pub text: Seq<char>,
    pub pit_value: Option<Seq<char>>,
    pub sort_value: i64,
    pub colour: Seq<u8>,
    pub graphic: Option<GraphicView>,
}

/// The slices of a list of pie chart options.
pub open spec fn slices_of(options: Seq<PieChartOption>) -> Slices {
    Seq::new(options.len(), |i: int| (options[i].label@, options[i].value))
}

impl View for TeamInfoGraphic {
    type V = GraphicView;

    open spec fn view(&self) -> GraphicView {
        match *self {
            TeamInfoGraphic::TeamName(e) => GraphicView::TeamName {
                number: e.number,
                name: e.name@,
                icon_uri: crate::data::opt_text(e.icon_uri),
            },
            TeamInfoGraphic::Numeric(e) => GraphicView::Numeric(e),
            TeamInfoGraphic::PieChart(e) => GraphicView::PieChart(slices_of(e.options@)),
            TeamInfoGraphic::MultiText(e) => GraphicView::MultiText {
                strings: texts(e.strings@),
                sentiment: e.sentiment,
            },
            TeamInfoGraphic::Images(e) => GraphicView::Images(image_list(e.images@)),
        }
    }
}

impl View for TeamInfoEntry {
    type V = EntryView;

    open spec fn view(&self) -> EntryView {
        EntryView {
            text: self.text@,
            pit_value: crate::data::opt_text(self.pit_value),
            sort_value: self.sort_value,
            colour: self.colour@,
            graphic: match self.graphic {
                Some(g) => Some(g@),
                None => None,
            },
        }
    }
}

/// A name and source as contracts see them.
pub struct NameView {
    pub name: Seq<char>,
    pub page: Seq<char>,
    pub source: DataSource,
}

impl View for NameAndSource {
    type V = NameView;

    open spec fn view(&self) -> NameView {
        NameView { name: self.name@, page: self.page@, source: self.source }
    }
}

/// The neutral colour of an entry.
pub open spec fn white() -> Seq<u8> {
    seq![255u8, 255u8, 255u8]
}

/// The number of an entry, where it is a number.
pub open spec fn number_in_entry(e: EntryView) -> Option<i64> {
    match e.graphic {
        Some(GraphicView::Numeric(n)) => Some(n.number),
        _ => None,
    }
}

/// The numbers of one column, from the rows that have a number there. A row
/// without a number in the column does not count.
pub open spec fn column_numbers(rows: Seq<Seq<EntryView>>, column: int) -> Seq<i64>
    decreases rows.len(),
{
    if rows.len() == 0 {
        Seq::empty()
    } else {
        let rest = column_numbers(rows.drop_last(), column);
        match number_in_entry(rows.last()[column]) {
            Some(n) => rest.push(n),
            None => rest,
        }
    }
}

/// How numbers are spread: their least, their greatest, their average and
/// their population standard deviation.
pub open spec fn spread_of(numbers: Seq<i64>) -> MinMaxAvg {
    MinMaxAvg {
        min: least(numbers),
        max: greatest(numbers),
        avg: average(numbers) as i64,
        stddev: deviation(numbers) as i64,
    }
}

/// An entry set against the spread of its column: a number is told the
/// spread and takes the colour of its place in it; any other entry stays as
/// it is.
pub open spec fn compared(e: EntryView, spread: MinMaxAvg) -> EntryView {
    match e.graphic {
        Some(GraphicView::Numeric(n)) => EntryView {
            colour: colour_of(colour_value(n.number as int, spread.avg as int, spread.stddev as int)),
            graphic: Some(
                GraphicView::Numeric(
                    TeamInfoNumericEntry { compare_other_numbers: Some(spread), ..n },
                ),
            ),
            ..e
        },
        _ => e,
    }
}

/// The rows of a table as contracts see them.
pub open spec fn rows_of(list: Seq<TeamInfoDisplay>) -> Seq<Seq<EntryView>> {
    Seq::new(list.len(), |r: int| views_of(list[r].info@))
}

/// Every row has `columns` entries.
pub open spec fn is_table(rows: Seq<Seq<EntryView>>, columns: int) -> bool {
    forall|r: int| 0 <= r < rows.len() ==> (#[trigger] rows[r]).len() == columns
}

/// The table with each entry set against the spread of its column.
pub open spec fn compared_rows(rows: Seq<Seq<EntryView>>, columns: int) -> Seq<Seq<EntryView>> {
    Seq::new(
        rows.len(),
        |r: int|
            Seq::new(
                columns as nat,
                |c: int| compared(rows[r][c], spread_of(column_numbers(rows, c))),
            ),
    )
}

fn numbers_in_column(list: &Vec<TeamInfoDisplay>, column: usize) -> (r: Vec<i64>)
    requires
        forall|r: int| 0 <= r < list@.len() ==> column < (#[trigger] list@[r]).info@.len(),
    ensures
        r@ == column_numbers(rows_of(list@), column as int),
{
    let ghost rows = rows_of(list@);
    let mut numbers: Vec<i64> = Vec::new();
    let mut i: usize = 0;
    assert(rows.take(0) =~= Seq::empty());
    while i < list.len()
        invariant
            i <= list@.len(),
            rows == rows_of(list@),
            forall|r: int| 0 <= r < list@.len() ==> column < (#[trigger] list@[r]).info@.len(),
            numbers@ == column_numbers(rows.take(i as int), column as int),
        decreases list@.len() - i,
    {
        proof {
            let next = rows.take(i + 1);
            assert(next.drop_last() =~= rows.take(i as int));
            assert(next.last() == rows[i as int]);
            assert(rows[i as int][column as int] == list@[i as int].info@[column as int]@);
        }
        match &list[i].info[column].graphic {
            Some(TeamInfoGraphic::Numeric(n)) => {
                numbers.push(n.number);
            },
            _ => {},
        }
        i += 1;
    }
    assert(rows.take(i as int) =~= rows);
    numbers
}

fn spread(numbers: &Vec<i64>) -> (r: MinMaxAvg)
    requires
        numbers@.len() > 0,
    ensures
        r == spread_of(numbers@),
{
    MinMaxAvg {
        min: minimum(numbers),
        max: maximum(numbers),
        avg: mean(numbers),
        stddev: std_dev(numbers),
    }
}

fn compare(entry: &mut TeamInfoEntry, spread: MinMaxAvg)
    ensures
        final(entry)@ == compared(old(entry)@, spread),
{
    let number = match &entry.graphic {
        Some(TeamInfoGraphic::Numeric(n)) => Some(*n),
        _ => None,
    };
    match number {
        Some(n) => {
            entry.colour = colour(n.number, spread.avg, spread.stddev);
            entry.graphic = Some(
                TeamInfoGraphic::Numeric(
                    TeamInfoNumericEntry { compare_other_numbers: Some(spread), ..n },
                ),
            );
        },
        None => {},
    }
}

proof fn lemma_column_numbers(rows: Seq<Seq<EntryView>>, column: int, r: int)
    requires
        0 <= r < rows.len(),
        number_in_entry(rows[r][column]) is Some,
    ensures
        column_numbers(rows, column).len() > 0,
    decreases rows.len(),
{
    if r < rows.len() - 1 {
        lemma_column_numbers(rows.drop_last(), column, r);
    }
}

/// Sets each entry of the table against the spread of its column: the
/// numbers of a column are told its least, greatest, average and deviation,
/// and take the colour of their place in it.
pub fn compare_columns(list: &mut Vec<TeamInfoDisplay>, columns: usize)
    requires
        is_table(rows_of(old(list)@), columns as int),
    ensures
        rows_of(final(list)@) == compared_rows(rows_of(old(list)@), columns as int),
{
    let ghost rows = rows_of(list@);
    assert forall|r: int| 0 <= r < list@.len() implies (#[trigger] list@[r]).info@.len()
        == columns by {
        assert(rows[r].len() == columns);
    }
    let mut spreads: Vec<Option<MinMaxAvg>> = Vec::new();
    let mut c: usize = 0;
    while c < columns
        invariant
            c <= columns,
            rows == rows_of(list@),
            forall|r: int| 0 <= r < list@.len() ==> (#[trigger] list@[r]).info@.len() == columns,
            spreads@.len() == c,
            forall|k: int|
                0 <= k < c ==> (#[trigger] spreads@[k]) == (if column_numbers(rows, k).len() > 0 {
                    Some(spread_of(column_numbers(rows, k)))
                } else {
                    None
                }),
        decreases columns - c,
    {
        let numbers = numbers_in_column(list, c);
        if numbers.len() > 0 {
            spreads.push(Some(spread(&numbers)));
        } else {
            spreads.push(None);
        }
        c += 1;
    }
    let ghost start = list@;
    let n: usize = list.len();
    let mut r: usize = 0;
    while r < n
        invariant
            r <= n,
            n == list@.len(),
            n == start.len(),
            rows == rows_of(start),
            spreads@.len() == columns,
            forall|k: int|
                0 <= k < columns ==> (#[trigger] spreads@[k]) == (if column_numbers(rows, k).len()
                    > 0 {
                    Some(spread_of(column_numbers(rows, k)))
                } else {
                    None
                }),
            forall|i: int| 0 <= i < n ==> (#[trigger] list@[i]).info@.len() == columns,
            forall|i: int| 0 <= i < n ==> (#[trigger] start[i]).info@.len() == columns,
            forall|i: int| r <= i < n ==> list@[i] == start[i],
            forall|i: int, k: int|
                0 <= i < r && 0 <= k < columns ==> (#[trigger] list@[i].info@[k])@ == compared(
                    rows[i][k],
                    spread_of(column_numbers(rows, k)),
                ),
        decreases n - r,
    {
        let mut k: usize = 0;
        while k < columns
            invariant
                k <= columns,
                r < n,
                n == list@.len(),
                n == start.len(),
                rows == rows_of(start),
                spreads@.len() == columns,
                forall|k: int|
                    0 <= k < columns ==> (#[trigger] spreads@[k]) == (if column_numbers(
                        rows,
                        k,
                    ).len() > 0 {
                        Some(spread_of(column_numbers(rows, k)))
                    } else {
                        None
                    }),
                forall|i: int| 0 <= i < n ==> (#[trigger] list@[i]).info@.len() == columns,
                forall|i: int| 0 <= i < n ==> (#[trigger] start[i]).info@.len() == columns,
                forall|i: int| r < i < n ==> list@[i] == start[i],
                forall|j: int| k <= j < columns ==> list@[r as int].info@[j] == start[r as int].info@[j],
                forall|i: int, j: int|
                    0 <= i < r && 0 <= j < columns ==> (#[trigger] list@[i].info@[j])@
                        == compared(rows[i][j], spread_of(column_numbers(rows, j))),
                forall|j: int|
                    0 <= j < k ==> (#[trigger] list@[r as int].info@[j])@ == compared(
                        rows[r as int][j],
                        spread_of(column_numbers(rows, j)),
                    ),
            decreases columns - k,
        {
            assert(rows[r as int][k as int] == start[r as int].info@[k as int]@);
            match spreads[k] {
                Some(s) => {
                    compare(&mut list[r].info[k], s);
                },
                None => {
                    proof {
                        if number_in_entry(rows[r as int][k as int]) is Some {
                            lemma_column_numbers(rows, k as int, r as int);
                        }
                    }
                },
            }
            k += 1;
        }
        r += 1;
    }
    assert(rows_of(list@) =~~= compared_rows(rows, columns as int));
}

/// The rows of all teams of an event, before the columns are compared.
pub open spec fn team_rows(
    config: GameConfigs,
    matches: Seq<Record>,
    drivers: Seq<Record>,
    pit_entries: Seq<(Seq<char>, MatchEntryData)>,
    teams: Seq<TeamInfo>,
    statbotics: StatboticsCache,
) -> Seq<Seq<EntryView>> {
    Seq::new(
        teams.len(),
        |t: int|
            team_row(
                config,
                matches,
                drivers,
                pit_fields(pit_entries, teams[t].num),
                statbotics.slot(teams[t].num).value,
                teams[t],
            ),
    )
}

/// Builds the table of all teams of an event.
///
/// Each team of the event has a row, with an entry for each column of the
/// team row. The match records are those that are stored and those that the
/// feed gives. Once every row is resolved, the entries of each column are
/// set against each other: the numbers of a column are told how the column
/// is spread, and are coloured by their place in it.
pub fn get_analysis_list(
    config: &GameConfigs,
    stored_match_entries: Vec<MatchEntryIdData>,
    driver_entries: &Vec<DriverEntryIdData>,
    pit_entries: &StrMap<MatchEntryData>,
    tba_data: &EventInfo,
    statbotics: &StatboticsCache,
) -> (r: TeamInfoList)
    ensures
        names_of(r.heading@) == Seq::new(
            config.game_config.display.team_row@.len(),
            |i: int| column_label(*config, config.game_config.display.team_row@[i]),
        ),
        r.default_display@ == default_columns(config.game_config.display.team_row@),
        rows_of(r.list@) == compared_rows(
            team_rows(
                *config,
                match_records(stored_match_entries@) + feed_records(tba_data.match_infos@),
                driver_records(driver_entries@),
                pit_entries@,
                tba_data.team_infos@,
                *statbotics,
            ),
            config.game_config.display.team_row@.len() as int,
        ),
{
    let match_entries = get_match_entries(stored_match_entries, tba_data);
    let ghost rows = team_rows(
        *config,
        match_records(match_entries@),
        driver_records(driver_entries@),
        pit_entries@,
        tba_data.team_infos@,
        *statbotics,
    );
    let mut list: Vec<TeamInfoDisplay> = Vec::new();
    let mut t: usize = 0;
    while t < tba_data.team_infos.len()
        invariant
            t <= tba_data.team_infos@.len(),
            list@.len() == t,
            rows == team_rows(
                *config,
                match_records(match_entries@),
                driver_records(driver_entries@),
                pit_entries@,
                tba_data.team_infos@,
                *statbotics,
            ),
            forall|i: int| 0 <= i < t ==> views_of((#[trigger] list@[i]).info@) == rows[i],
        decreases tba_data.team_infos@.len() - t,
    {
        let team = &tba_data.team_infos[t];
        let info = single_team_impl(
            config,
            &match_entries,
            driver_entries,
            pit_entry_of(pit_entries, team.num),
            team,
            statbotics.cached(team.num),
        );
        list.push(TeamInfoDisplay { info });
        t += 1;
    }
    assert(rows_of(list@) =~= rows);
    compare_columns(&mut list, config.game_config.display.team_row.len());
    TeamInfoList { heading: table_labels(config), list, default_display: default_display(config) }
}

/// A column whose numbers are all alike has no deviation, and each of its
/// numbers takes the neutral colour.
pub proof fn lemma_uniform_column(rows: Seq<Seq<EntryView>>, columns: int, column: int, v: i64)
    requires
        is_table(rows, columns),
        0 <= column < columns,
        forall|r: int|
            0 <= r < rows.len() ==> (number_in_entry(#[trigger] rows[r][column]) matches Some(n)
                ==> n == v),
    ensures
        column_numbers(rows, column).len() > 0 ==> spread_of(column_numbers(rows, column)).stddev
            == 0,
        forall|r: int|
            0 <= r < rows.len() && number_in_entry(rows[r][column]) is Some ==> (
            #[trigger] compared_rows(rows, columns)[r])[column].colour == white(),
{
    lemma_uniform_numbers(rows, column, v);
    let numbers = column_numbers(rows, column);
    if numbers.len() > 0 {
        crate::number::lemma_uniform(numbers, v);
        crate::number::lemma_neutral();
        assert(colour_of(0) =~= white());
    }
    assert forall|r: int|
        0 <= r < rows.len() && number_in_entry(rows[r][column]) is Some implies (
    #[trigger] compared_rows(rows, columns)[r])[column].colour == white() by {
        lemma_column_numbers(rows, column, r);
    }
}

proof fn lemma_uniform_numbers(rows: Seq<Seq<EntryView>>, column: int, v: i64)
    requires
        forall|r: int|
            0 <= r < rows.len() ==> (number_in_entry(#[trigger] rows[r][column]) matches Some(n)
                ==> n == v),
    ensures
        forall|i: int|
            0 <= i < column_numbers(rows, column).len() ==> column_numbers(rows, column)[i] == v,
    decreases rows.len(),
{
    if rows.len() > 0 {
        let front = rows.drop_last();
        assert forall|r: int| 0 <= r < front.len() implies (number_in_entry(
            #[trigger] front[r][column],
        ) matches Some(n) ==> n == v) by {
            assert(front[r] == rows[r]);
        }
        lemma_uniform_numbers(front, column, v);
        let last = rows.len() - 1;
        let entry = rows[last][column];
        assert(number_in_entry(entry) matches Some(n) ==> n == v);
        let rest = column_numbers(front, column);
        assert forall|i: int| 0 <= i < column_numbers(rows, column).len() implies column_numbers(
            rows,
            column,
        )[i] == v by {
            match number_in_entry(entry) {
                Some(n) => {
                    assert(column_numbers(rows, column) == rest.push(n));
                    if i < rest.len() {
                        assert(rest.push(n)[i] == rest[i]);
                    }
                },
                None => {},
            }
        }
    }
}

/// Resolves every metric of the game for one team of the event.
pub fn get_single_team_analysis(
    config: &GameConfigs,
    stored_match_entries: Vec<MatchEntryIdData>,
    driver_entries: &Vec<DriverEntryIdData>,
    pit_entry: Option<&MatchEntryData>,
    tba_data: &EventInfo,
    statbotics: &StatboticsCache,
    team: u32,
) -> (r: SingleTeamInfo)
    ensures
        r.team_number == team,
        r.team_name@ == (match team_info(tba_data.team_infos@, team) {
            Some(t) => t.name@,
            None => Seq::empty(),
        }),
        crate::data::opt_text(r.team_icon_uri) == (match team_info(tba_data.team_infos@, team) {
            Some(t) => if t.has_avatar {
                Some(icon_url(team))
            } else {
                None
            },
            None => None,
        }),
        r.data@.len() == config.all_metrics@.len(),
        forall|i: int|
            0 <= i < r.data@.len() ==> (#[trigger] r.data@[i]).name@ == name_of(
                *config,
                config.all_metrics@[i]@,
            ) && r.data@[i].entry@ == single_metric(
                *config,
                match_records(stored_match_entries@) + feed_records(tba_data.match_infos@),
                driver_records(driver_entries@),
                opt_fields(pit_entry),
                statbotics.slot(team).value,
                team,
                config.all_metrics@[i]@,
                None,
            ),
{
    let match_entries = get_match_entries(stored_match_entries, tba_data);
    let statbotics_team = statbotics.cached(team);
    let mut data: Vec<InfoEntryWithSource> = Vec::new();
    let mut i: usize = 0;
    while i < config.all_metrics.len()
        invariant
            i <= config.all_metrics@.len(),
            data@.len() == i,
            opt_statistics(statbotics_team) == statbotics.slot(team).value,
            forall|j: int|
                0 <= j < i ==> (#[trigger] data@[j]).name@ == name_of(
                    *config,
                    config.all_metrics@[j]@,
                ) && data@[j].entry@ == single_metric(
                    *config,
                    match_records(match_entries@),
                    driver_records(driver_entries@),
                    opt_fields(pit_entry),
                    statbotics.slot(team).value,
                    team,
                    config.all_metrics@[j]@,
                    None,
                ),
        decreases config.all_metrics@.len() - i,
    {
        let metric = config.all_metrics[i].as_str();
        data.push(
            InfoEntryWithSource {
                name: get_metric_name(config, metric),
                entry: get_single_metric(
                    config,
                    &match_entries,
                    driver_entries,
                    pit_entry,
                    statbotics_team,
                    team,
                    metric,
                    None,
                ),
            },
        );
        i += 1;
    }
    let (team_name, team_icon_uri) = match tba_data.team(team) {
        Some(t) => {
            proof {
                lemma_team_info_num(tba_data.team_infos@, team);
            }
            (t.name.clone(), t.get_icon_url())
        },
        None => (String::new(), None),
    };
    SingleTeamInfo { team_number: team, team_name, team_icon_uri, data }
}

/// The names of a list of metrics.
pub open spec fn metric_names(config: GameConfigs, metrics: Seq<String>) -> Seq<Seq<char>> {
    Seq::new(metrics.len(), |i: int| name_of(config, metrics[i]@).name)
}

/// The teams of one alliance as the preview of a match shows them.
pub open spec fn is_preview_of(
    shown: MatchAnalysisTeamInfo,
    config: GameConfigs,
    matches: Seq<Record>,
    drivers: Seq<Record>,
    pit_entries: Seq<(Seq<char>, MatchEntryData)>,
    teams: Seq<TeamInfo>,
    statbotics: StatboticsCache,
    team: u32,
) -> bool {
    let display = config.game_config.display.pre_match;
    let pit = pit_fields(pit_entries, team);
    let sb = statbotics.slot(team).value;
    &&& shown.team_number == team
    &&& shown.team_name@ == (match team_info(teams, team) {
        Some(t) => t.name@,
        None => Seq::empty(),
    })
    &&& crate::data::opt_text(shown.team_icon_uri) == (match team_info(teams, team) {
        Some(t) => if t.has_avatar {
            Some(icon_url(team))
        } else {
            None
        },
        None => None,
    })
    &&& shown.expected_score == single_metric(
        config,
        matches,
        drivers,
        pit,
        sb,
        team,
        display.score@,
        None,
    ).sort_value
    &&& parts_of(shown.expected_score_parts@) == Seq::new(
        display.graph@.len(),
        |i: int|
            (
                display.graph@[i].name@,
                single_metric(
                    config,
                    matches,
                    drivers,
                    pit,
                    sb,
                    team,
                    display.graph@[i].metric@,
                    None,
                ).sort_value,
            ),
    )
    &&& views_of(shown.other_data@) == Seq::new(
        display.metrics@.len(),
        |i: int| single_metric(config, matches, drivers, pit, sb, team, display.metrics@[i]@, None),
    )
}

fn preview_alliance(
    config: &GameConfigs,
    match_entries: &Vec<MatchEntryIdData>,
    driver_entries: &Vec<DriverEntryIdData>,
    pit_entries: &StrMap<MatchEntryData>,
    tba_data: &EventInfo,
    statbotics: &StatboticsCache,
    teams: &Vec<u32>,
) -> (r: Vec<MatchAnalysisTeamInfo>)
    ensures
        r@.len() == teams@.len(),
        forall|i: int|
            0 <= i < r@.len() ==> is_preview_of(
                #[trigger] r@[i],
                *config,
                match_records(match_entries@),
                driver_records(driver_entries@),
                pit_entries@,
                tba_data.team_infos@,
                *statbotics,
                teams@[i],
            ),
{
    let mut shown: Vec<MatchAnalysisTeamInfo> = Vec::new();
    let mut i: usize = 0;
    while i < teams.len()
        invariant
            i <= teams@.len(),
            shown@.len() == i,
            forall|j: int|
                0 <= j < i ==> is_preview_of(
                    #[trigger] shown@[j],
                    *config,
                    match_records(match_entries@),
                    driver_records(driver_entries@),
                    pit_entries@,
                    tba_data.team_infos@,
                    *statbotics,
                    teams@[j],
                ),
        decreases teams@.len() - i,
    {
        let team = teams[i];
        shown.push(
            get_single_team_match_preview(
                statbotics.cached(team),
                pit_entry_of(pit_entries, team),
                config,
                match_entries,
                driver_entries,
                tba_data,
                &config.game_config.display.pre_match,
                team,
            ),
        );
        i += 1;
    }
    shown
}

/// Builds the preview of a match: what is expected of each team of the red
/// alliance and of the blue, with the names of the metrics that are shown.
/// Of a match that the event does not have, no team is shown.
pub fn get_match_analysis(
    config: &GameConfigs,
    stored_match_entries: Vec<MatchEntryIdData>,
    driver_entries: &Vec<DriverEntryIdData>,
    pit_entries: &StrMap<MatchEntryData>,
    tba_data: &EventInfo,
    statbotics: &StatboticsCache,
    match_id: MatchId,
) -> (r: MatchAnalysisInfo)
    ensures
        texts(r.other_data_names@) == metric_names(
            *config,
            config.game_config.display.pre_match.metrics@,
        ),
        match match_info(tba_data.match_infos@, match_id) {
            None => r.red_teams@.len() == 0 && r.blue_teams@.len() == 0,
            Some(m) => {
                &&& r.red_teams@.len() == m.teams_red@.len()
                &&& r.blue_teams@.len() == m.teams_blue@.len()
                &&& forall|i: int|
                    0 <= i < r.red_teams@.len() ==> is_preview_of(
                        #[trigger] r.red_teams@[i],
                        *config,
                        match_records(stored_match_entries@) + feed_records(
                            tba_data.match_infos@,
                        ),
                        driver_records(driver_entries@),
                        pit_entries@,
                        tba_data.team_infos@,
                        *statbotics,
                        m.teams_red@[i],
                    )
                &&& forall|i: int|
                    0 <= i < r.blue_teams@.len() ==> is_preview_of(
                        #[trigger] r.blue_teams@[i],
                        *config,
                        match_records(stored_match_entries@) + feed_records(
                            tba_data.match_infos@,
                        ),
                        driver_records(driver_entries@),
                        pit_entries@,
                        tba_data.team_infos@,
                        *statbotics,
                        m.teams_blue@[i],
                    )
            },
        },
{
    let match_entries = get_match_entries(stored_match_entries, tba_data);
    let metrics = &config.game_config.display.pre_match.metrics;
    let mut other_data_names: Vec<String> = Vec::new();
    let mut i: usize = 0;
    while i < metrics.len()
        invariant
            i <= metrics@.len(),
            metrics == &config.game_config.display.pre_match.metrics,
            other_data_names@.len() == i,
            forall|j: int|
                0 <= j < i ==> (#[trigger] other_data_names@[j])@ == name_of(
                    *config,
                    metrics@[j]@,
                ).name,
        decreases metrics@.len() - i,
    {
        other_data_names.push(get_metric_name(config, metrics[i].as_str()).name);
        i += 1;
    }
    assert(texts(other_data_names@) =~= metric_names(*config, metrics@));
    match tba_data.find_match(match_id) {
        None => MatchAnalysisInfo {
            red_teams: Vec::new(),
            blue_teams: Vec::new(),
            other_data_names,
        },
        Some(m) => MatchAnalysisInfo {
            red_teams: preview_alliance(
                config,
                &match_entries,
                driver_entries,
                pit_entries,
                tba_data,
                statbotics,
                &m.teams_red,
            ),
            blue_teams: preview_alliance(
                config,
                &match_entries,
                driver_entries,
                pit_entries,
                tba_data,
                statbotics,
                &m.teams_blue,
            ),
            other_data_names,
        },
    }
}

} // verus!
