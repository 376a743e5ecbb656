//! Entries of the metrics that the statistics service gives.
use vstd::prelude::*;
use vstd::string::*;
use crate::analysis::{
    slices_of, white, EntryView, GraphicView, PieChartEntry, PieChartOption, TeamInfoEntry,
    TeamInfoGraphic, TeamInfoNumericEntry,
};
use crate::analysis::reduce::{unshown_entry, unshown_view, white_colour};
use crate::number::{
    clamp, clamped, from_u32, quotient, two_places, two_places_text, NO_DATA, NO_STATISTICS, SCALE,
};
use crate::statbotics::{StatboticsEpaBreakdown, StatboticsRecordQuals, StatboticsTeam};
use crate::text::{decimal, push_decimal};

verus! {

/// How a record of wins, losses and ties is told.
pub open spec fn record_text(r: StatboticsRecordQuals) -> Seq<char> {
    if r.ties > 0 {
        decimal(r.wins as nat) + seq!['-'] + decimal(r.losses as nat) + seq!['-'] + decimal(
            r.ties as nat,
        )
    } else {
        decimal(r.wins as nat) + seq!['-'] + decimal(r.losses as nat)
    }
}

/// The share of the games that a team won, a tie counting as half a win; the
/// sort value of no data where it played none.
pub open spec fn record_sort_value(r: StatboticsRecordQuals) -> int {
    let games = r.wins + r.losses + r.ties;
    if games == 0 {
        NO_DATA as int
    } else {
        clamped(quotient((2 * r.wins + r.ties) * SCALE, 2 * games))
    }
}

/// The entry of the record of wins, losses and ties.
pub open spec fn record_view(r: StatboticsRecordQuals) -> EntryView {
    EntryView {
        text: record_text(r),
        pit_value: None,
        sort_value: record_sort_value(r) as i64,
        colour: white(),
        graphic: Some(
            GraphicView::PieChart(
                seq![
                    ("Wins"@, (r.wins * SCALE) as i64),
                    ("Losses"@, (r.losses * SCALE) as i64),
                    ("Ties"@, (r.ties * SCALE) as i64),
                ],
            ),
        ),
    }
}

/// What of one whole the two ranking points leave over, and nothing where
/// they leave nothing.
pub open spec fn no_ranking_point(b: StatboticsEpaBreakdown) -> int {
    if SCALE - (b.rp_1 + b.rp_2) < 0 {
        0
    } else {
        clamped(SCALE - (b.rp_1 + b.rp_2))
    }
}

/// The entry of the ranking points: how often each of the two is earned.
pub open spec fn ranking_points_view(b: StatboticsEpaBreakdown) -> EntryView {
    EntryView {
        text: Seq::empty(),
        pit_value: None,
        sort_value: clamped(b.rp_1 + b.rp_2) as i64,
        colour: white(),
        graphic: Some(
            GraphicView::PieChart(
                seq![
                    ("None"@, no_ranking_point(b) as i64),
                    ("RP 1"@, b.rp_1),
                    ("RP 2"@, b.rp_2),
                ],
            ),
        ),
    }
}

/// The number that the statistics hold under a name.
pub open spec fn statistic(sb: StatboticsTeam, stat: Seq<char>) -> Option<i64> {
    if stat == "points"@ {
        Some(sb.epa.total_points.mean)
    } else if stat == "auto-points"@ {
        Some(sb.epa.breakdown.auto_points)
    } else if stat == "teleop-points"@ {
        Some(sb.epa.breakdown.teleop_points)
    } else if stat == "endgame-points"@ {
        Some(sb.epa.breakdown.endgame_points)
    } else if stat == "wins"@ {
        Some((sb.record.wins * SCALE) as i64)
    } else if stat == "losses"@ {
        Some((sb.record.losses * SCALE) as i64)
    } else if stat == "ties"@ {
        Some((sb.record.ties * SCALE) as i64)
    } else if stat == "rps"@ {
        Some((sb.record.rps * SCALE) as i64)
    } else if stat == "games"@ {
        Some(((sb.record.wins + sb.record.losses + sb.record.ties) * SCALE) as i64)
    } else if stat == "rp-1"@ {
        Some(sb.epa.breakdown.rp_1)
    } else if stat == "rp-2"@ {
        Some(sb.epa.breakdown.rp_2)
    } else {
        None
    }
}

/// The entry of one number of the statistics. The total of points comes
/// with its deviation.
pub open spec fn statistic_view(value: i64, std_dev: Option<i64>) -> EntryView {
    EntryView {
        text: two_places_text(value as int),
        pit_value: None,
        sort_value: value,
        colour: white(),
        graphic: Some(
            GraphicView::Numeric(
                TeamInfoNumericEntry {
                    number: value,
                    collected_std_dev: std_dev,
                    collected_min_max: None,
                    compare_other_numbers: None,
                    is_time: false,
                },
            ),
        ),
    }
}

/// The entry that reports that a team has no statistics.
pub open spec fn no_statistics_view() -> EntryView {
    EntryView {
        text: "ERROR: No statbotics for team"@,
        pit_value: None,
        sort_value: NO_STATISTICS,
        colour: white(),
        graphic: None,
    }
}

/// The entry of a metric of the statistics service, `stat` being the id of
/// the metric behind its prefix.
pub open spec fn statistics_entry(
    sb: Option<StatboticsTeam>,
    stat: Seq<char>,
    metric: Seq<char>,
) -> EntryView {
    match sb {
        None => no_statistics_view(),
        Some(sb) => if stat == "wlt-ratio"@ {
            record_view(sb.record)
        } else if stat == "rps-ratio"@ {
            ranking_points_view(sb.epa.breakdown)
        } else {
            match statistic(sb, stat) {
                Some(value) => statistic_view(
                    value,
                    if stat == "points"@ {
                        Some(sb.epa.total_points.sd)
                    } else {
                        None
                    },
                ),
                None => unshown_view(metric),
            }
        },
    }
}

fn record_entry(r: &StatboticsRecordQuals) -> (e: TeamInfoEntry)
    ensures
        e@ == record_view(*r),
{
    let games: u64 = r.wins as u64 + r.losses as u64 + r.ties as u64;
    let sort_value: i64 = if games == 0 {
        NO_DATA
    } else {
        let top: i128 = (2 * (r.wins as i128) + r.ties as i128) * (SCALE as i128);
        clamp(top / (2 * (games as i128)))
    };
    let mut text = String::new();
    push_decimal(&mut text, r.wins as u128);
    text.push('-');
    push_decimal(&mut text, r.losses as u128);
    if r.ties > 0 {
        text.push('-');
        push_decimal(&mut text, r.ties as u128);
    }
    assert(text@ =~= record_text(*r));
    let mut options: Vec<PieChartOption> = Vec::new();
    options.push(PieChartOption { label: String::from_str("Wins"), value: from_u32(r.wins) });
    options.push(PieChartOption { label: String::from_str("Losses"), value: from_u32(r.losses) });
    options.push(PieChartOption { label: String::from_str("Ties"), value: from_u32(r.ties) });
    assert(slices_of(options@) =~= seq![
        ("Wins"@, (r.wins * SCALE) as i64),
        ("Losses"@, (r.losses * SCALE) as i64),
        ("Ties"@, (r.ties * SCALE) as i64),
    ]);
    TeamInfoEntry {
        text,
        pit_value: None,
        sort_value,
        colour: white_colour(),
        graphic: Some(TeamInfoGraphic::PieChart(PieChartEntry { options })),
    }
}

fn ranking_points_entry(b: &StatboticsEpaBreakdown) -> (e: TeamInfoEntry)
    ensures
        e@ == ranking_points_view(*b),
{
    let both: i128 = b.rp_1 as i128 + b.rp_2 as i128;
    let none: i64 = if (SCALE as i128) - both < 0 {
        0
    } else {
        clamp((SCALE as i128) - both)
    };
    let mut options: Vec<PieChartOption> = Vec::new();
    options.push(PieChartOption { label: String::from_str("None"), value: none });
    options.push(PieChartOption { label: String::from_str("RP 1"), value: b.rp_1 });
    options.push(PieChartOption { label: String::from_str("RP 2"), value: b.rp_2 });
    assert(slices_of(options@) =~= seq![
        ("None"@, no_ranking_point(*b) as i64),
        ("RP 1"@, b.rp_1),
        ("RP 2"@, b.rp_2),
    ]);
    let e = TeamInfoEntry {
        text: String::new(),
        pit_value: None,
        sort_value: clamp(both),
        colour: white_colour(),
        graphic: Some(TeamInfoGraphic::PieChart(PieChartEntry { options })),
    };
    assert(e@.text =~= Seq::<char>::empty());
    e
}

fn read_statistic(sb: &StatboticsTeam, stat: &str) -> (r: Option<i64>)
    ensures
        r == statistic(*sb, stat@),
{
    if stat.eq("points") {
        Some(sb.epa.total_points.mean)
    } else if stat.eq("auto-points") {
        Some(sb.epa.breakdown.auto_points)
    } else if stat.eq("teleop-points") {
        Some(sb.epa.breakdown.teleop_points)
    } else if stat.eq("endgame-points") {
        Some(sb.epa.breakdown.endgame_points)
    } else if stat.eq("wins") {
        Some(from_u32(sb.record.wins))
    } else if stat.eq("losses") {
        Some(from_u32(sb.record.losses))
    } else if stat.eq("ties") {
        Some(from_u32(sb.record.ties))
    } else if stat.eq("rps") {
        Some(from_u32(sb.record.rps))
    } else if stat.eq("games") {
        let games: u64 = sb.record.wins as u64 + sb.record.losses as u64 + sb.record.ties as u64;
        Some((games as i64) * SCALE)
    } else if stat.eq("rp-1") {
        Some(sb.epa.breakdown.rp_1)
    } else if stat.eq("rp-2") {
        Some(sb.epa.breakdown.rp_2)
    } else {
        None
    }
}

/// Resolves a metric of the statistics service for a team.
pub fn get_statistics_entry(statbotics: Option<&StatboticsTeam>, stat: &str, metric: &str) -> (r:
    TeamInfoEntry)
    ensures
        r@ == statistics_entry(opt_statistics(statbotics), stat@, metric@),
{
    match statbotics {
        None => TeamInfoEntry {
            text: String::from_str("ERROR: No statbotics for team"),
            pit_value: None,
            sort_value: NO_STATISTICS,
            colour: white_colour(),
            graphic: None,
        },
        Some(sb) => if stat.eq("wlt-ratio") {
            record_entry(&sb.record)
        } else if stat.eq("rps-ratio") {
            ranking_points_entry(&sb.epa.breakdown)
        } else {
            match read_statistic(sb, stat) {
                Some(value) => TeamInfoEntry {
                    text: two_places(value),
                    pit_value: None,
                    sort_value: value,
                    colour: white_colour(),
                    graphic: Some(
                        TeamInfoGraphic::Numeric(
                            TeamInfoNumericEntry {
                                number: value,
                                collected_std_dev: if stat.eq("points") {
                                    Some(sb.epa.total_points.sd)
                                } else {
                                    None
                                },
                                collected_min_max: None,
                                compare_other_numbers: None,
                                is_time: false,
                            },
                        ),
                    ),
                },
                None => unshown_entry(metric),
            }
        },
    }
}

/// The statistics of a team, where there are any.
pub open spec fn opt_statistics(sb: Option<&StatboticsTeam>) -> Option<StatboticsTeam> {
    match sb {
        Some(sb) => Some(*sb),
        None => None,
    }
}

} // verus!
