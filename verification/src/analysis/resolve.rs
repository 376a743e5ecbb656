//! From the id of a metric to its entry: what was observed is gathered, the
//! kind of the metric is looked up, and the observations are reduced.
use vstd::prelude::*;
use vstd::string::*;
use crate::analysis::{
    white, DataSource, EntryView, GraphicView, MatchAnalysisScorePart, MatchAnalysisTeamInfo,
    NameAndSource, NameView, TeamInfoEntry, TeamInfoGraphic, TeamNameEntry,
};

use crate::analysis::reduce::{kind_entry, reduce, white_colour, KindView, MetricKind};
use crate::analysis::statistics::{get_statistics_entry, opt_statistics, statistics_entry};
use crate::config::{
    DisplayColumn, GameConfigs, PreMatchDisplay, TbaMatchProp, TbaMatchPropOption,
    TbaMatchPropType,
};
use crate::config::match_entry::MatchEntryType;
use crate::data::{
    clone_entries, driver_records, fields_of, lemma_fields_lookup, match_records, models_of,
    opt_model, DriverEntryIdData, EntryModel, Fields, MatchEntryData, MatchEntryIdData,
    MatchEntryValue, Payload, Record,
};
use crate::number::{from_u32, NOT_SHOWN, SCALE};
use crate::statbotics::StatboticsTeam;
use crate::str_map::{lookup, StrMap};
use crate::tba::{icon_url, team_info, EventInfo, MatchId, MatchInfo, TeamInfo};
use crate::text::{
    after, clone_strings, decimal, decimal_string, has_prefix, parse_u32, parsed_u32, push_decimal,
    strip_prefix, texts, trim_start_matches, without_leading,
};

verus! {

/// What opens the id of a metric of the statistics service.
pub const SB_PREFIX: &'static str = "statbotics-";

/// What opens the id of a metric of the event feed.
pub const TBA_PREFIX: &'static str = "tba-";

/// Whether a record counts under a filter: there is none, or the record
/// holds a yes for the metric that the filter names.
pub open spec fn passes(fields: Fields, filter: Option<Seq<char>>) -> bool {
    match filter {
        Some(f) => match lookup(fields, f) {
            Some(v) => v.payload == Payload::Bool(true),
            None => false,
        },
        None => true,
    }
}

/// What a record says of a metric of a team: the value it holds for the
/// metric, where it speaks of the team and counts under the filter.
pub open spec fn observation(
    team_id: Seq<char>,
    fields: Fields,
    team: u32,
    metric: Seq<char>,
    filter: Option<Seq<char>>,
) -> Option<EntryModel> {
    if parsed_u32(team_id) == Some(team) && passes(fields, filter) {
        lookup(fields, metric)
    } else {
        None
    }
}

/// What the records say of a metric of a team, in their order.
pub open spec fn observed(
    records: Seq<Record>,
    team: u32,
    metric: Seq<char>,
    filter: Option<Seq<char>>,
) -> Seq<EntryModel>
    decreases records.len(),
{
    if records.len() == 0 {
        Seq::empty()
    } else {
        let rest = observed(records.drop_last(), team, metric, filter);
        match observation(records.last().team_id, records.last().fields, team, metric, filter) {
            Some(v) => rest.push(v),
            None => rest,
        }
    }
}

/// All that was observed of a metric of a team: in the matches, as far as
/// they count under the filter, then by the drive team.
pub open spec fn data_points_of(
    matches: Seq<Record>,
    drivers: Seq<Record>,
    team: u32,
    metric: Seq<char>,
    filter: Option<Seq<char>>,
) -> Seq<EntryModel> {
    observed(matches, team, metric, filter) + observed(drivers, team, metric, None)
}

fn observe<'a>(
    team_id: &str,
    data: &'a MatchEntryData,
    team: u32,
    metric: &str,
    filter_metric: Option<&str>,
) -> (r: Option<&'a MatchEntryValue>)
    ensures
        opt_model(r) == observation(
            team_id@,
            data@.entries,
            team,
            metric@,
            opt_str(filter_metric),
        ),
{
    match parse_u32(team_id) {
        Some(n) => {
            if n != team {
                return None;
            }
        },
        None => {
            return None;
        },
    }
    match filter_metric {
        Some(f) => {
            proof {
                lemma_fields_lookup(data.entries@, f@);
            }
            match data.entries.get(f) {
                Some(MatchEntryValue::Bool(b)) => {
                    if !b.value {
                        return None;
                    }
                },
                _ => {
                    return None;
                },
            }
        },
        None => {},
    }
    proof {
        lemma_fields_lookup(data.entries@, metric@);
    }
    data.entries.get(metric)
}

/// The characters of a string slice that may be missing.
pub open spec fn opt_str(s: Option<&str>) -> Option<Seq<char>> {
    match s {
        Some(s) => Some(s@),
        None => None,
    }
}

fn gather<'a>(
    match_entries: &'a Vec<MatchEntryIdData>,
    driver_entries: &'a Vec<DriverEntryIdData>,
    team: u32,
    metric: &str,
    filter_metric: Option<&str>,
) -> (r: Vec<&'a MatchEntryValue>)
    ensures
        models_of(r@) == data_points_of(
            match_records(match_entries@),
            driver_records(driver_entries@),
            team,
            metric@,
            opt_str(filter_metric),
        ),
{
    let ghost matches = match_records(match_entries@);
    let ghost drivers = driver_records(driver_entries@);
    let ghost filter = opt_str(filter_metric);
    let mut points: Vec<&'a MatchEntryValue> = Vec::new();
    let mut i: usize = 0;
    assert(matches.take(0) =~= Seq::empty());
    assert(models_of(points@) =~= Seq::empty());
    while i < match_entries.len()
        invariant
            i <= match_entries@.len(),
            matches == match_records(match_entries@),
            filter == opt_str(filter_metric),
            models_of(points@) == observed(matches.take(i as int), team, metric@, filter),
        decreases match_entries@.len() - i,
    {
        let ghost before = models_of(points@);
        proof {
            let next = matches.take(i + 1);
            assert(next.drop_last() =~= matches.take(i as int));
            assert(next.last() == matches[i as int]);
        }
        match observe(
            match_entries[i].team_id.as_str(),
            &match_entries[i].data,
            team,
            metric,
            filter_metric,
        ) {
            Some(v) => {
                points.push(v);
                assert(models_of(points@) =~= before.push(v@));
            },
            None => {},
        }
        i += 1;
    }
    assert(matches.take(i as int) =~= matches);
    let ghost from_matches = models_of(points@);
    let mut j: usize = 0;
    assert(drivers.take(0) =~= Seq::empty());
    assert(from_matches + Seq::<EntryModel>::empty() =~= from_matches);
    while j < driver_entries.len()
        invariant
            j <= driver_entries@.len(),
            drivers == driver_records(driver_entries@),
            models_of(points@) == from_matches + observed(drivers.take(j as int), team, metric@, None),
        decreases driver_entries@.len() - j,
    {
        let ghost before = models_of(points@);
        proof {
            let next = drivers.take(j + 1);
            assert(next.drop_last() =~= drivers.take(j as int));
            assert(next.last() == drivers[j as int]);
        }
        match observe(
            driver_entries[j].team_id.as_str(),
            &driver_entries[j].data,
            team,
            metric,
            None,
        ) {
            Some(v) => {
                points.push(v);
                assert(models_of(points@) =~= before.push(v@));
                assert(before.push(v@) =~= from_matches + observed(
                    drivers.take(j as int),
                    team,
                    metric@,
                    None,
                ).push(v@));
            },
            None => {},
        }
        j += 1;
    }
    assert(drivers.take(j as int) =~= drivers);
    points
}

/// The kind of a field that scouts fill in.
pub open spec fn kind_of_type(t: MatchEntryType) -> KindView {
    match t {
        MatchEntryType::Ability(_) => KindView::Ability,
        MatchEntryType::Enum(e) => KindView::Enum(texts(e.options@)),
        MatchEntryType::Bool(_) => KindView::Bool,
        MatchEntryType::Counter(_) => KindView::Counter,
        MatchEntryType::TextEntry(_) => KindView::TextEntry,
        MatchEntryType::Image(_) => KindView::Image,
        MatchEntryType::Timer(_) => KindView::Timer,
    }
}

/// The names under which the options of a property of the event feed are
/// observed: the name of each option, or its id where it has no name.
pub open spec fn option_names(options: Seq<TbaMatchPropOption>) -> Seq<Seq<char>> {
    Seq::new(
        options.len(),
        |i: int|
            match options[i].name {
                Some(n) => n@,
                None => options[i].id@,
            },
    )
}

/// The kind of a property of the event feed.
pub open spec fn kind_of_prop(p: TbaMatchProp) -> KindView {
    match p.ty {
        TbaMatchPropType::Bool => KindView::Bool,
        TbaMatchPropType::Enum => KindView::Enum(
            match p.options {
                Some(o) => option_names(o@),
                None => Seq::empty(),
            },
        ),
        TbaMatchPropType::Number => KindView::Counter,
        TbaMatchPropType::Sum => KindView::Counter,
    }
}

/// The kind of a metric of the event feed: that of the property which the
/// id names behind its prefix.
pub open spec fn feed_kind(config: GameConfigs, metric: Seq<char>) -> KindView {
    if has_prefix(metric, TBA_PREFIX@) {
        match lookup(config.game_config.tba.props@, after(metric, TBA_PREFIX@.len())) {
            Some(p) => kind_of_prop(p),
            None => KindView::Unknown,
        }
    } else {
        KindView::Unknown
    }
}

/// The kind of a metric that is no statistic: that of the field of its id
/// among the match fields, else among the pit fields, else among the fields
/// of the drive team, else that of the property of the event feed that it
/// names; a metric found nowhere is unknown.
pub open spec fn kind_of(config: GameConfigs, metric: Seq<char>) -> KindView {
    match lookup(config.match_entry_fields.entries@, metric) {
        Some(e) => kind_of_type(e.entry),
        None => match lookup(config.pit_entry_fields.entries@, metric) {
            Some(e) => kind_of_type(e.entry),
            None => match lookup(config.driver_entry_fields.entries@, metric) {
                Some(e) => kind_of_type(e.entry),
                None => feed_kind(config, metric),
            },
        },
    }
}

fn type_kind(t: &MatchEntryType) -> (r: MetricKind)
    ensures
        r@ == kind_of_type(*t),
{
    match t {
        MatchEntryType::Ability(_) => MetricKind::Ability,
        MatchEntryType::Enum(e) => MetricKind::Enum(clone_strings(&e.options)),
        MatchEntryType::Bool(_) => MetricKind::Bool,
        MatchEntryType::Counter(_) => MetricKind::Counter,
        MatchEntryType::TextEntry(_) => MetricKind::TextEntry,
        MatchEntryType::Image(_) => MetricKind::Image,
        MatchEntryType::Timer(_) => MetricKind::Timer,
    }
}

fn prop_kind(p: &TbaMatchProp) -> (r: MetricKind)
    ensures
        r@ == kind_of_prop(*p),
{
    match p.ty {
        TbaMatchPropType::Bool => MetricKind::Bool,
        TbaMatchPropType::Enum => {
            let mut names: Vec<String> = Vec::new();
            match &p.options {
                Some(options) => {
                    let mut i: usize = 0;
                    while i < options.len()
                        invariant
                            i <= options@.len(),
                            names@.len() == i,
                            forall|j: int|
                                0 <= j < i ==> names@[j]@ == option_names(options@)[j],
                        decreases options@.len() - i,
                    {
                        let name = match &options[i].name {
                            Some(n) => n.clone(),
                            None => options[i].id.clone(),
                        };
                        names.push(name);
                        i += 1;
                    }
                    assert(texts(names@) =~= option_names(options@));
                },
                None => {
                    assert(texts(names@) =~= Seq::empty());
                },
            }
            MetricKind::Enum(names)
        },
        TbaMatchPropType::Number => MetricKind::Counter,
        TbaMatchPropType::Sum => MetricKind::Counter,
    }
}

/// The kind of a metric that is no statistic.
pub fn metric_kind(config: &GameConfigs, metric: &str) -> (r: MetricKind)
    ensures
        r@ == kind_of(*config, metric@),
{
    match config.match_entry_fields.entries.get(metric) {
        Some(e) => {
            return type_kind(&e.entry);
        },
        None => {},
    }
    match config.pit_entry_fields.entries.get(metric) {
        Some(e) => {
            return type_kind(&e.entry);
        },
        None => {},
    }
    match config.driver_entry_fields.entries.get(metric) {
        Some(e) => {
            return type_kind(&e.entry);
        },
        None => {},
    }
    match strip_prefix(metric, TBA_PREFIX) {
        Some(prop) => match config.game_config.tba.props.get(prop) {
            Some(p) => prop_kind(p),
            None => MetricKind::Unknown,
        },
        None => MetricKind::Unknown,
    }
}

/// What the pits hold for a metric.
pub open spec fn pit_point(pit: Option<Fields>, metric: Seq<char>) -> Option<EntryModel> {
    match pit {
        Some(fields) => lookup(fields, metric),
        None => None,
    }
}

/// The fields of a record that may be missing.
pub open spec fn opt_fields(record: Option<&MatchEntryData>) -> Option<Fields> {
    match record {
        Some(r) => Some(r@.entries),
        None => None,
    }
}

/// The entry of one metric for one team.
///
/// A metric whose id opens with the prefix of the statistics service is
/// resolved from the statistics of the team. Every other metric is resolved
/// from what was observed of it: in the matches of the team, as far as they
/// count under the filter, by the drive team, and in the pits; the kind of
/// the metric decides how the observations are reduced.
pub open spec fn single_metric(
    config: GameConfigs,
    matches: Seq<Record>,
    drivers: Seq<Record>,
    pit: Option<Fields>,
    sb: Option<StatboticsTeam>,
    team: u32,
    metric: Seq<char>,
    filter: Option<Seq<char>>,
) -> EntryView {
    if has_prefix(metric, SB_PREFIX@) {
        statistics_entry(sb, after(metric, SB_PREFIX@.len()), metric)
    } else {
        kind_entry(
            kind_of(config, metric),
            metric,
            data_points_of(matches, drivers, team, metric, filter),
            pit_point(pit, metric),
        )
    }
}

/// Resolves one metric for one team.
pub fn get_single_metric(
    config: &GameConfigs,
    match_entries: &Vec<MatchEntryIdData>,
    driver_entries: &Vec<DriverEntryIdData>,
    pit_entry: Option<&MatchEntryData>,
    statbotics: Option<&StatboticsTeam>,
    team: u32,
    metric: &str,
    filter_metric: Option<&str>,
) -> (r: TeamInfoEntry)
    ensures
        r@ == single_metric(
            *config,
            match_records(match_entries@),
            driver_records(driver_entries@),
            opt_fields(pit_entry),
            opt_statistics(statbotics),
            team,
            metric@,
            opt_str(filter_metric),
        ),
{
    match strip_prefix(metric, SB_PREFIX) {
        Some(stat) => get_statistics_entry(statbotics, stat, metric),
        None => {
            let data_points = gather(match_entries, driver_entries, team, metric, filter_metric);
            let pit_data_point = match pit_entry {
                Some(pe) => {
                    proof {
                        lemma_fields_lookup(pe.entries@, metric@);
                    }
                    pe.entries.get(metric)
                },
                None => None,
            };
            let kind = metric_kind(config, metric);
            reduce(&kind, metric, &data_points, pit_data_point)
        },
    }
}

/// The name of a metric of the statistics service, `stat` being the id of
/// the metric without its prefix.
pub open spec fn statistic_name(ranking_points: Seq<Seq<char>>, stat: Seq<char>) -> Seq<char> {
    if stat == "wlt-ratio"@ {
        "W/L/T"@
    } else if stat == "rps-ratio"@ {
        "Ranking Points"@
    } else if stat == "points"@ {
        "Total Points"@
    } else if stat == "auto-points"@ {
        "Auto Points"@
    } else if stat == "teleop-points"@ {
        "Teleop Points"@
    } else if stat == "endgame-points"@ {
        "Endgame Points"@
    } else if stat == "wins"@ {
        "Wins"@
    } else if stat == "losses"@ {
        "Losses"@
    } else if stat == "ties"@ {
        "Ties"@
    } else if stat == "rps"@ {
        "RPs"@
    } else if stat == "games"@ {
        "Games"@
    } else if stat == "rp-1"@ {
        if ranking_points.len() > 0 {
            ranking_points[0]
        } else {
            "RP 1"@
        }
    } else if stat == "rp-2"@ {
        if ranking_points.len() > 1 {
            ranking_points[1]
        } else {
            "RP 2"@
        }
    } else {
        "Unknown Statbotics"@
    }
}

/// The name of a metric that nothing is known of: its id, echoed.
pub open spec fn unknown_name(metric: Seq<char>) -> NameView {
    NameView { name: metric, page: "Unknown"@, source: DataSource::Unknown }
}

/// The name of a metric and where it comes from.
///
/// An id that opens with the prefix of the statistics service names a
/// statistic; one that opens with the prefix of the event feed names the
/// property behind the prefix. Any other id is looked for among the match
/// fields, then among the pit fields, then among the fields of the drive
/// team, and the first that has it names it.
pub open spec fn name_of(config: GameConfigs, metric: Seq<char>) -> NameView {
    if has_prefix(metric, SB_PREFIX@) {
        NameView {
            name: statistic_name(
                texts(config.game_config.ranking_points@),
                without_leading(metric, SB_PREFIX@),
            ),
            page: "Data"@,
            source: DataSource::Statbotics,
        }
    } else if has_prefix(metric, TBA_PREFIX@) {
        match lookup(config.game_config.tba.props@, after(metric, TBA_PREFIX@.len())) {
            Some(p) => NameView {
                name: p.name@,
                page: "The Blue Alliance"@,
                source: DataSource::Tba,
            },
            None => unknown_name(metric),
        }
    } else {
        match lookup(config.match_entry_fields.entries@, metric) {
            Some(e) => NameView { name: e.title@, page: e.page@, source: DataSource::Match },
            None => match lookup(config.pit_entry_fields.entries@, metric) {
                Some(e) => NameView { name: e.title@, page: e.page@, source: DataSource::Pit },
                None => match lookup(config.driver_entry_fields.entries@, metric) {
                    Some(e) => NameView {
                        name: e.title@,
                        page: e.page@,
                        source: DataSource::Driver,
                    },
                    None => unknown_name(metric),
                },
            },
        }
    }
}

fn statistic_title(ranking_points: &Vec<String>, stat: &str) -> (r: String)
    ensures
        r@ == statistic_name(texts(ranking_points@), stat@),
{
    if stat.eq("wlt-ratio") {
        String::from_str("W/L/T")
    } else if stat.eq("rps-ratio") {
        String::from_str("Ranking Points")
    } else if stat.eq("points") {
        String::from_str("Total Points")
    } else if stat.eq("auto-points") {
        String::from_str("Auto Points")
    } else if stat.eq("teleop-points") {
        String::from_str("Teleop Points")
    } else if stat.eq("endgame-points") {
        String::from_str("Endgame Points")
    } else if stat.eq("wins") {
        String::from_str("Wins")
    } else if stat.eq("losses") {
        String::from_str("Losses")
    } else if stat.eq("ties") {
        String::from_str("Ties")
    } else if stat.eq("rps") {
        String::from_str("RPs")
    } else if stat.eq("games") {
        String::from_str("Games")
    } else if stat.eq("rp-1") {
        if ranking_points.len() > 0 {
            ranking_points[0].clone()
        } else {
            String::from_str("RP 1")
        }
    } else if stat.eq("rp-2") {
        if ranking_points.len() > 1 {
            ranking_points[1].clone()
        } else {
            String::from_str("RP 2")
        }
    } else {
        String::from_str("Unknown Statbotics")
    }
}

fn unknown(metric: &str) -> (r: NameAndSource)
    ensures
        r@ == unknown_name(metric@),
{
    NameAndSource {
        name: String::from_str(metric),
        page: String::from_str("Unknown"),
        source: DataSource::Unknown,
    }
}

/// The name of a metric and where it comes from.
pub fn get_metric_name(config: &GameConfigs, metric: &str) -> (r: NameAndSource)
    ensures
        r@ == name_of(*config, metric@),
{
    match strip_prefix(metric, SB_PREFIX) {
        Some(_) => {
            return NameAndSource {
                name: statistic_title(
                    &config.game_config.ranking_points,
                    trim_start_matches(metric, SB_PREFIX),
                ),
                page: String::from_str("Data"),
                source: DataSource::Statbotics,
            };
        },
        None => {},
    }
    match strip_prefix(metric, TBA_PREFIX) {
        Some(prop) => {
            return match config.game_config.tba.props.get(prop) {
                Some(p) => NameAndSource {
                    name: p.name.clone(),
                    page: String::from_str("The Blue Alliance"),
                    source: DataSource::Tba,
                },
                None => unknown(metric),
            };
        },
        None => {},
    }
    match config.match_entry_fields.entries.get(metric) {
        Some(e) => {
            return NameAndSource {
                name: e.title.clone(),
                page: e.page.clone(),
                source: DataSource::Match,
            };
        },
        None => {},
    }
    match config.pit_entry_fields.entries.get(metric) {
        Some(e) => {
            return NameAndSource {
                name: e.title.clone(),
                page: e.page.clone(),
                source: DataSource::Pit,
            };
        },
        None => {},
    }
    match config.driver_entry_fields.entries.get(metric) {
        Some(e) => NameAndSource {
            name: e.title.clone(),
            page: e.page.clone(),
            source: DataSource::Driver,
        },
        None => unknown(metric),
    }
}

/// The heading of a column.
pub open spec fn column_label(config: GameConfigs, column: DisplayColumn) -> NameView {
    match column {
        DisplayColumn::Single(m) => name_of(config, m.metric@),
        DisplayColumn::Filtered(m) => name_of(config, m.metric@),
        DisplayColumn::TeamName(_) => NameView {
            name: "Team Name"@,
            page: "N/A"@,
            source: DataSource::System,
        },
        DisplayColumn::CommonYearSpecific(_) => NameView {
            name: "INVALID"@,
            page: "Unknown"@,
            source: DataSource::Unknown,
        },
    }
}

/// The views of a list of names.
pub open spec fn names_of(labels: Seq<NameAndSource>) -> Seq<NameView> {
    Seq::new(labels.len(), |i: int| labels[i]@)
}

/// The headings of the table: one for each column of the team row.
pub fn table_labels(config: &GameConfigs) -> (r: Vec<NameAndSource>)
    ensures
        names_of(r@) == Seq::new(
            config.game_config.display.team_row@.len(),
            |i: int| column_label(*config, config.game_config.display.team_row@[i]),
        ),
{
    let columns = &config.game_config.display.team_row;
    let mut labels: Vec<NameAndSource> = Vec::new();
    let mut i: usize = 0;
    while i < columns.len()
        invariant
            i <= columns@.len(),
            columns == &config.game_config.display.team_row,
            labels@.len() == i,
            forall|j: int| 0 <= j < i ==> labels@[j]@ == column_label(*config, columns@[j]),
        decreases columns@.len() - i,
    {
        let label = match &columns[i] {
            DisplayColumn::Single(m) => get_metric_name(config, m.metric.as_str()),
            DisplayColumn::Filtered(m) => get_metric_name(config, m.metric.as_str()),
            DisplayColumn::TeamName(_) => NameAndSource {
                name: String::from_str("Team Name"),
                page: String::from_str("N/A"),
                source: DataSource::System,
            },
            DisplayColumn::CommonYearSpecific(_) => NameAndSource {
                name: String::from_str("INVALID"),
                page: String::from_str("Unknown"),
                source: DataSource::Unknown,
            },
        };
        labels.push(label);
        i += 1;
    }
    assert(names_of(labels@) =~= Seq::new(
        columns@.len(),
        |i: int| column_label(*config, columns@[i]),
    ));
    labels
}

/// Whether a column is shown before the user chooses columns: a single
/// metric or the team name, where it says so.
pub open spec fn shown_by_default(column: DisplayColumn) -> bool {
    match column {
        DisplayColumn::Single(m) => m.display,
        DisplayColumn::TeamName(m) => m.display,
        _ => false,
    }
}

/// The places of the columns that are shown by default, in rising order.
pub open spec fn default_columns(columns: Seq<DisplayColumn>) -> Seq<usize>
    decreases columns.len(),
{
    if columns.len() == 0 {
        Seq::empty()
    } else {
        let rest = default_columns(columns.drop_last());
        if shown_by_default(columns.last()) {
            rest.push((columns.len() - 1) as usize)
        } else {
            rest
        }
    }
}

/// The places of the columns that are shown by default.
pub fn default_display(config: &GameConfigs) -> (r: Vec<usize>)
    ensures
        r@ == default_columns(config.game_config.display.team_row@),
{
    let columns = &config.game_config.display.team_row;
    let mut shown: Vec<usize> = Vec::new();
    let mut i: usize = 0;
    assert(columns@.take(0) =~= Seq::empty());
    while i < columns.len()
        invariant
            i <= columns@.len(),
            shown@ == default_columns(columns@.take(i as int)),
        decreases columns@.len() - i,
    {
        proof {
            let next = columns@.take(i + 1);
            assert(next.drop_last() =~= columns@.take(i as int));
            assert(next.last() == columns@[i as int]);
        }
        let display = match &columns[i] {
            DisplayColumn::Single(m) => m.display,
            DisplayColumn::TeamName(m) => m.display,
            _ => false,
        };
        if display {
            shown.push(i);
        }
        i += 1;
    }
    assert(columns@.take(i as int) =~= columns@);
    shown
}

/// The entry that names a team.
pub open spec fn team_name_view(team: TeamInfo) -> EntryView {
    EntryView {
        text: decimal(team.num as nat) + " - "@ + team.name@,
        pit_value: None,
        sort_value: (team.num * SCALE) as i64,
        colour: white(),
        graphic: Some(
            GraphicView::TeamName {
                number: team.num,
                name: team.name@,
                icon_uri: if team.has_avatar {
                    Some(icon_url(team.num))
                } else {
                    None
                },
            },
        ),
    }
}

/// The entry of a column that stands for nothing.
pub open spec fn error_view() -> EntryView {
    EntryView {
        text: "ERROR"@,
        pit_value: None,
        sort_value: NOT_SHOWN,
        colour: white(),
        graphic: None,
    }
}

/// The entry of one column for one team.
pub open spec fn column_entry(
    config: GameConfigs,
    matches: Seq<Record>,
    drivers: Seq<Record>,
    pit: Option<Fields>,
    sb: Option<StatboticsTeam>,
    team: TeamInfo,
    column: DisplayColumn,
) -> EntryView {
    match column {
        DisplayColumn::Single(m) => single_metric(
            config,
            matches,
            drivers,
            pit,
            sb,
            team.num,
            m.metric@,
            None,
        ),
        DisplayColumn::Filtered(m) => single_metric(
            config,
            matches,
            drivers,
            pit,
            sb,
            team.num,
            m.metric@,
            Some(m.filter_by@),
        ),
        DisplayColumn::TeamName(_) => team_name_view(team),
        DisplayColumn::CommonYearSpecific(_) => error_view(),
    }
}

/// The row of one team: its entry for each column of the team row.
pub open spec fn team_row(
    config: GameConfigs,
    matches: Seq<Record>,
    drivers: Seq<Record>,
    pit: Option<Fields>,
    sb: Option<StatboticsTeam>,
    team: TeamInfo,
) -> Seq<EntryView> {
    Seq::new(
        config.game_config.display.team_row@.len(),
        |i: int|
            column_entry(
                config,
                matches,
                drivers,
                pit,
                sb,
                team,
                config.game_config.display.team_row@[i],
            ),
    )
}

/// The views of a list of entries.
pub open spec fn views_of(entries: Seq<TeamInfoEntry>) -> Seq<EntryView> {
    Seq::new(entries.len(), |i: int| entries[i]@)
}

fn team_name_entry(team: &TeamInfo) -> (r: TeamInfoEntry)
    ensures
        r@ == team_name_view(*team),
{
    let mut text = String::new();
    push_decimal(&mut text, team.num as u128);
    text.append(" - ");
    text.append(team.name.as_str());
    assert(text@ =~= decimal(team.num as nat) + " - "@ + team.name@);
    TeamInfoEntry {
        text,
        pit_value: None,
        sort_value: from_u32(team.num),
        colour: white_colour(),
        graphic: Some(
            TeamInfoGraphic::TeamName(
                TeamNameEntry {
                    number: team.num,
                    name: team.name.clone(),
                    icon_uri: team.get_icon_url(),
                },
            ),
        ),
    }
}

/// Resolves every column of the team row for one team.
pub fn single_team_impl(
    config: &GameConfigs,
    match_entries: &Vec<MatchEntryIdData>,
    driver_entries: &Vec<DriverEntryIdData>,
    pit_entry: Option<&MatchEntryData>,
    team: &TeamInfo,
    statbotics: Option<&StatboticsTeam>,
) -> (r: Vec<TeamInfoEntry>)
    ensures
        views_of(r@) == team_row(
            *config,
            match_records(match_entries@),
            driver_records(driver_entries@),
            opt_fields(pit_entry),
            opt_statistics(statbotics),
            *team,
        ),
{
    let columns = &config.game_config.display.team_row;
    let mut row: Vec<TeamInfoEntry> = Vec::new();
    let mut i: usize = 0;
    while i < columns.len()
        invariant
            i <= columns@.len(),
            columns == &config.game_config.display.team_row,
            row@.len() == i,
            forall|j: int|
                0 <= j < i ==> row@[j]@ == column_entry(
                    *config,
                    match_records(match_entries@),
                    driver_records(driver_entries@),
                    opt_fields(pit_entry),
                    opt_statistics(statbotics),
                    *team,
                    columns@[j],
                ),
        decreases columns@.len() - i,
    {
        let entry = match &columns[i] {
            DisplayColumn::Single(m) => get_single_metric(
                config,
                match_entries,
                driver_entries,
                pit_entry,
                statbotics,
                team.num,
                m.metric.as_str(),
                None,
            ),
            DisplayColumn::Filtered(m) => get_single_metric(
                config,
                match_entries,
                driver_entries,
                pit_entry,
                statbotics,
                team.num,
                m.metric.as_str(),
                Some(m.filter_by.as_str()),
            ),
            DisplayColumn::TeamName(_) => team_name_entry(team),
            DisplayColumn::CommonYearSpecific(_) => TeamInfoEntry {
                text: String::from_str("ERROR"),
                pit_value: None,
                sort_value: NOT_SHOWN,
                colour: white_colour(),
                graphic: None,
            },
        };
        row.push(entry);
        i += 1;
    }
    assert(views_of(row@) =~= team_row(
        *config,
        match_records(match_entries@),
        driver_records(driver_entries@),
        opt_fields(pit_entry),
        opt_statistics(statbotics),
        *team,
    ));
    row
}

/// The fields that the feed gives for the three places of an alliance.
pub open spec fn place_fields(entries: [StrMap<MatchEntryValue>; 3]) -> Seq<Fields> {
    Seq::new(3, |i: int| fields_of(entries@[i]@))
}

/// The records that the feed gives for one alliance of a match: one for each
/// team that has a place.
pub open spec fn alliance_records(num: u32, teams: Seq<u32>, places: Seq<Fields>) -> Seq<Record> {
    Seq::new(
        if teams.len() < places.len() {
            teams.len()
        } else {
            places.len()
        },
        |i: int|
            Record {
                match_id: decimal(num as nat),
                team_id: decimal(teams[i] as nat),
                fields: places[i],
            },
    )
}

/// The records that the feed gives for a match: those of the red alliance,
/// then those of the blue, where it is a qualification match.
pub open spec fn records_of_match(m: MatchInfo) -> Seq<Record> {
    match m.id {
        MatchId::Qualification(id) => alliance_records(
            id.num,
            m.teams_red@,
            place_fields(m.custom_entries.red),
        ) + alliance_records(id.num, m.teams_blue@, place_fields(m.custom_entries.blue)),
        _ => Seq::empty(),
    }
}

/// The records that the feed gives for the matches of an event.
pub open spec fn feed_records(matches: Seq<MatchInfo>) -> Seq<Record>
    decreases matches.len(),
{
    if matches.len() == 0 {
        Seq::empty()
    } else {
        feed_records(matches.drop_last()) + records_of_match(matches.last())
    }
}

fn push_alliance(
    entries: &mut Vec<MatchEntryIdData>,
    num: u32,
    teams: &Vec<u32>,
    places: &[StrMap<MatchEntryValue>; 3],
)
    ensures
        match_records(final(entries)@) == match_records(old(entries)@) + alliance_records(
            num,
            teams@,
            place_fields(*places),
        ),
{
    let ghost start = match_records(entries@);
    let ghost added = alliance_records(num, teams@, place_fields(*places));
    let mut i: usize = 0;
    assert(start + added.take(0) =~= start);
    while i < 3 && i < teams.len()
        invariant
            i <= 3,
            i <= teams@.len(),
            added == alliance_records(num, teams@, place_fields(*places)),
            match_records(entries@) == start + added.take(i as int),
        decreases 3 - i,
    {
        let ghost before = match_records(entries@);
        let record = MatchEntryIdData {
            match_id: decimal_string(num as u128),
            team_id: decimal_string(teams[i] as u128),
            data: MatchEntryData {
                entries: clone_entries(&places[i]),
                scout: None,
                timestamp_ms: None,
            },
        };
        entries.push(record);
        assert(match_records(entries@) =~= before.push(added[i as int]));
        assert(start + added.take(i + 1) =~= (start + added.take(i as int)).push(added[i as int]));
        i += 1;
    }
    assert(added.take(i as int) =~= added);
}

/// The match records of an event: those that are stored, followed by those
/// that the feed gives for its qualification matches.
pub fn get_match_entries(stored: Vec<MatchEntryIdData>, tba_data: &EventInfo) -> (r: Vec<
    MatchEntryIdData,
>)
    ensures
        match_records(r@) == match_records(stored@) + feed_records(tba_data.match_infos@),
{
    let mut entries = stored;
    let ghost start = match_records(stored@);
    let ghost matches = tba_data.match_infos@;
    let mut i: usize = 0;
    assert(matches.take(0) =~= Seq::empty());
    assert(start + Seq::<Record>::empty() =~= start);
    while i < tba_data.match_infos.len()
        invariant
            i <= matches.len(),
            matches == tba_data.match_infos@,
            match_records(entries@) == start + feed_records(matches.take(i as int)),
        decreases matches.len() - i,
    {
        let ghost before = match_records(entries@);
        proof {
            let next = matches.take(i + 1);
            assert(next.drop_last() =~= matches.take(i as int));
            assert(next.last() == matches[i as int]);
        }
        let m = &tba_data.match_infos[i];
        match m.id {
            MatchId::Qualification(id) => {
                push_alliance(&mut entries, id.num, &m.teams_red, &m.custom_entries.red);
                push_alliance(&mut entries, id.num, &m.teams_blue, &m.custom_entries.blue);
                assert(match_records(entries@) =~= before + records_of_match(*m));
            },
            _ => {
                assert(before + Seq::<Record>::empty() =~= before);
            },
        }
        assert(start + feed_records(matches.take(i + 1)) =~= (start + feed_records(
            matches.take(i as int),
        )) + records_of_match(*m));
        i += 1;
    }
    assert(matches.take(i as int) =~= matches);
    entries
}

/// What the pits hold for a team: the fields of the pit record under the
/// number of the team.
pub open spec fn pit_fields(pit_entries: Seq<(Seq<char>, MatchEntryData)>, team: u32) -> Option<
    Fields,
> {
    match lookup(pit_entries, decimal(team as nat)) {
        Some(record) => Some(record@.entries),
        None => None,
    }
}

pub(crate) fn pit_entry_of(pit_entries: &StrMap<MatchEntryData>, team: u32) -> (r: Option<&MatchEntryData>)
    ensures
        opt_fields(r) == pit_fields(pit_entries@, team),
{
    let key = decimal_string(team as u128);
    pit_entries.get(key.as_str())
}

/// One part of the expected score of a team as contracts see it.
pub open spec fn parts_of(parts: Seq<MatchAnalysisScorePart>) -> Seq<(Seq<char>, i64)> {
    Seq::new(parts.len(), |i: int| (parts[i].name@, parts[i].score))
}

/// What is shown of one team before a match: its expected score, the parts
/// that the score is made of, and the other metrics of the preview.
pub fn get_single_team_match_preview(
    statbotics: Option<&StatboticsTeam>,
    pit_entry: Option<&MatchEntryData>,
    config: &GameConfigs,
    match_entries: &Vec<MatchEntryIdData>,
    driver_entries: &Vec<DriverEntryIdData>,
    tba_data: &EventInfo,
    pre_match_display: &PreMatchDisplay,
    team: u32,
) -> (r: MatchAnalysisTeamInfo)
    ensures
        r.team_number == team,
        r.team_name@ == (match team_info(tba_data.team_infos@, team) {
            Some(t) => t.name@,
            None => Seq::empty(),
        }),
        crate::data::opt_text(r.team_icon_uri) == (match team_info(tba_data.team_infos@, team) {
            Some(t) => if t.has_avatar {
                Some(icon_url(team))
            } else {
                None
            },
            None => None,
        }),
        r.expected_score == single_metric(
            *config,
            match_records(match_entries@),
            driver_records(driver_entries@),
            opt_fields(pit_entry),
            opt_statistics(statbotics),
            team,
            pre_match_display.score@,
            None,
        ).sort_value,
        parts_of(r.expected_score_parts@) == Seq::new(
            pre_match_display.graph@.len(),
            |i: int|
                (
                    pre_match_display.graph@[i].name@,
                    single_metric(
                        *config,
                        match_records(match_entries@),
                        driver_records(driver_entries@),
                        opt_fields(pit_entry),
                        opt_statistics(statbotics),
                        team,
                        pre_match_display.graph@[i].metric@,
                        None,
                    ).sort_value,
                ),
        ),
        views_of(r.other_data@) == Seq::new(
            pre_match_display.metrics@.len(),
            |i: int|
                single_metric(
                    *config,
                    match_records(match_entries@),
                    driver_records(driver_entries@),
                    opt_fields(pit_entry),
                    opt_statistics(statbotics),
                    team,
                    pre_match_display.metrics@[i]@,
                    None,
                ),
        ),
{
    let (team_name, team_icon_uri) = match tba_data.team(team) {
        Some(t) => {
            proof {
                lemma_team_info_num(tba_data.team_infos@, team);
            }
            (t.name.clone(), t.get_icon_url())
        },
        None => (String::new(), None),
    };
    let mut other_data: Vec<TeamInfoEntry> = Vec::new();
    let mut i: usize = 0;
    while i < pre_match_display.metrics.len()
        invariant
            i <= pre_match_display.metrics@.len(),
            other_data@.len() == i,
            forall|j: int|
                0 <= j < i ==> (#[trigger] other_data@[j])@ == single_metric(
                    *config,
                    match_records(match_entries@),
                    driver_records(driver_entries@),
                    opt_fields(pit_entry),
                    opt_statistics(statbotics),
                    team,
                    pre_match_display.metrics@[j]@,
                    None,
                ),
        decreases pre_match_display.metrics@.len() - i,
    {
        other_data.push(
            get_single_metric(
                config,
                match_entries,
                driver_entries,
                pit_entry,
                statbotics,
                team,
                pre_match_display.metrics[i].as_str(),
                None,
            ),
        );
        i += 1;
    }
    let mut expected_score_parts: Vec<MatchAnalysisScorePart> = Vec::new();
    let mut k: usize = 0;
    while k < pre_match_display.graph.len()
        invariant
            k <= pre_match_display.graph@.len(),
            expected_score_parts@.len() == k,
            forall|j: int|
                0 <= j < k ==> (#[trigger] expected_score_parts@[j]).name@
                    == pre_match_display.graph@[j].name@ && expected_score_parts@[j].score
                    == single_metric(
                    *config,
                    match_records(match_entries@),
                    driver_records(driver_entries@),
                    opt_fields(pit_entry),
                    opt_statistics(statbotics),
                    team,
                    pre_match_display.graph@[j].metric@,
                    None,
                ).sort_value,
        decreases pre_match_display.graph@.len() - k,
    {
        let element = &pre_match_display.graph[k];
        expected_score_parts.push(
            MatchAnalysisScorePart {
                name: element.name.clone(),
                score: get_single_metric(
                    config,
                    match_entries,
                    driver_entries,
                    pit_entry,
                    statbotics,
                    team,
                    element.metric.as_str(),
                    None,
                ).sort_value,
            },
        );
        k += 1;
    }
    let expected_score = get_single_metric(
        config,
        match_entries,
        driver_entries,
        pit_entry,
        statbotics,
        team,
        pre_match_display.score.as_str(),
        None,
    ).sort_value;
    assert(parts_of(expected_score_parts@) =~= Seq::new(
        pre_match_display.graph@.len(),
        |i: int|
            (
                pre_match_display.graph@[i].name@,
                single_metric(
                    *config,
                    match_records(match_entries@),
                    driver_records(driver_entries@),
                    opt_fields(pit_entry),
                    opt_statistics(statbotics),
                    team,
                    pre_match_display.graph@[i].metric@,
                    None,
                ).sort_value,
            ),
    ));
    assert(views_of(other_data@) =~= Seq::new(
        pre_match_display.metrics@.len(),
        |i: int|
            single_metric(
                *config,
                match_records(match_entries@),
                driver_records(driver_entries@),
                opt_fields(pit_entry),
                opt_statistics(statbotics),
                team,
                pre_match_display.metrics@[i]@,
                None,
            ),
    ));
    MatchAnalysisTeamInfo {
        team_number: team,
        team_name,
        team_icon_uri,
        expected_score,
        expected_score_parts,
        other_data,
    }
}

pub(crate) proof fn lemma_team_info_num(teams: Seq<TeamInfo>, num: u32)
    ensures
        team_info(teams, num) matches Some(t) ==> t.num == num,
    decreases teams.len(),
{
    if teams.len() > 0 {
        lemma_team_info_num(teams.drop_last(), num);
    }
}

} // verus!
