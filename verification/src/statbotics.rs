//! What the statistics service says of a team.
use vstd::prelude::*;
use vstd::string::*;
use crate::cache::{Fetch, Slot};
use crate::config::{MatchStatisticsPropType, StatboticsConfig, StatboticsProp};
use crate::number::{clamp, clamped};
use crate::str_map::{lookup, with_entry, StrMap};
use crate::text::texts;

verus! {

/// The statistics of one team as they are cached. Numbers are in millionths.
#[derive(Debug, Clone, PartialEq)]
pub struct StatboticsTeam {
    pub epa: StatboticsEpa,
    pub record: StatboticsRecordQuals,
    /// The extra statistics that the game asks for, by id
    pub other_details: StrMap<i64>,
    /// When the statistics were fetched, in milliseconds
    pub last_update: u64,
}

/// The statistics of a team at one event, as the service sends them.
#[derive(Debug, Clone, PartialEq)]
pub struct StatboticsTeamEvent {
    pub epa: StatboticsEpa,
    pub record: StatboticsRecordOuter,
}

/// The statistics of a team over one year, as the service sends them.
#[derive(Debug, Clone, PartialEq)]
pub struct StatboticsTeamYear {
    pub epa: StatboticsEpa,
    pub record: StatboticsRecordSimple,
}

/// The expected points of a team.
#[derive(Debug, Clone, PartialEq)]
pub struct StatboticsEpa {
    pub total_points: StatboticsTotalPoints,
    pub breakdown: StatboticsEpaBreakdown,
}

/// The expected total of points: its mean and its deviation.
#[derive(Debug, Clone, Copy, PartialEq, Eq, Structural)]
pub struct StatboticsTotalPoints {
    pub mean: i64,
    pub sd: i64,
}

/// The expected points by part of the game, with the rates of the ranking points.
#[derive(Debug, Clone, PartialEq)]
pub struct StatboticsEpaBreakdown {
    pub total_points: i64,
    pub auto_points: i64,
    pub teleop_points: i64,
    pub endgame_points: i64,
    pub rp_1: i64,
    pub rp_2: i64,
    pub rp_3: Option<i64>,
    /// Every other number of the breakdown, by name
    pub extra: StrMap<i64>,
}

/// The record of a team at an event, by kind of match.
#[derive(Debug, Clone, Copy, PartialEq, Eq, Structural)]
pub struct StatboticsRecordOuter {
    pub qual: StatboticsRecordQuals,
    pub elim: StatboticsRecordSimple,
    pub total: StatboticsRecordSimple,
}

/// A record of wins, losses and ties, with ranking points.
#[derive(Debug, Clone, Copy, PartialEq, Eq, Structural)]
pub struct StatboticsRecordQuals {
    pub wins: u32,
    pub losses: u32,
    pub ties: u32,
    pub count: u32,
    pub rps: u32,
}

/// A record of wins, losses and ties.
#[derive(Debug, Clone, Copy, PartialEq, Eq, Structural)]
pub struct StatboticsRecordSimple {
    pub wins: u32,
    pub losses: u32,
    pub ties: u32,
    pub count: u32,
}

/// The sum of the numbers that `extra` holds under the given names; a name
/// that it does not hold adds nothing.
pub open spec fn sum_found(extra: Seq<(Seq<char>, i64)>, names: Seq<Seq<char>>) -> int
    decreases names.len(),
{
    if names.len() == 0 {
        0
    } else {
        sum_found(extra, names.drop_last()) + match lookup(extra, names.last()) {
            Some(v) => v as int,
            None => 0,
        }
    }
}

/// The extra statistic that a property asks for, where the breakdown has it:
/// the number under the name of a number property, or the sum of the numbers
/// under the names of a sum property.
pub open spec fn detail_of(extra: Seq<(Seq<char>, i64)>, prop: StatboticsProp) -> Option<i64> {
    match prop.ty {
        MatchStatisticsPropType::Number => match prop.property {
            Some(p) => lookup(extra, p@),
            None => None,
        },
        MatchStatisticsPropType::Sum => match prop.properties {
            Some(ps) => Some(clamped(sum_found(extra, texts(ps@))) as i64),
            None => None,
        },
        _ => None,
    }
}

/// The extra statistics that the properties ask for, by the ids of the
/// properties.
pub open spec fn other_details(
    extra: Seq<(Seq<char>, i64)>,
    props: Seq<(Seq<char>, StatboticsProp)>,
) -> Seq<(Seq<char>, i64)>
    decreases props.len(),
{
    if props.len() == 0 {
        Seq::empty()
    } else {
        let rest = other_details(extra, props.drop_last());
        match detail_of(extra, props.last().1) {
            Some(v) => with_entry(rest, props.last().0, v),
            None => rest,
        }
    }
}

fn sum_of_found(extra: &StrMap<i64>, names: &Vec<String>) -> (r: i64)
    ensures
        r == clamped(sum_found(extra@, texts(names@))),
{
    let ghost all = texts(names@);
    let mut sum: i128 = 0;
    let mut i: usize = 0;
    assert(all.take(0) =~= Seq::empty());
    assert(0 * (i64::MIN as int) == 0 && 0 * (i64::MAX as int) == 0);
    while i < names.len()
        invariant
            i <= names@.len(),
            all == texts(names@),
            sum == sum_found(extra@, all.take(i as int)),
            i * (i64::MIN as int) <= sum <= i * (i64::MAX as int),
        decreases names@.len() - i,
    {
        proof {
            let next = all.take(i + 1);
            assert(next.drop_last() =~= all.take(i as int));
            assert(next.last() == names@[i as int]@);
            assert((i + 1) * (i64::MIN as int) == i * (i64::MIN as int) + (i64::MIN as int))
                by (nonlinear_arith);
            assert((i + 1) * (i64::MAX as int) == i * (i64::MAX as int) + (i64::MAX as int))
                by (nonlinear_arith);
            assert(i * (i64::MAX as int) <= usize::MAX * (i64::MAX as int)) by (nonlinear_arith)
                requires
                    i <= usize::MAX,
            ;
            assert(i * (i64::MIN as int) >= usize::MAX * (i64::MIN as int)) by (nonlinear_arith)
                requires
                    i <= usize::MAX,
            ;
        }
        match extra.get(names[i].as_str()) {
            Some(v) => {
                sum = sum + *v as i128;
            },
            None => {},
        }
        i += 1;
    }
    assert(all.take(i as int) =~= all);
    clamp(sum)
}

fn detail(extra: &StrMap<i64>, prop: &StatboticsProp) -> (r: Option<i64>)
    ensures
        r == detail_of(extra@, *prop),
{
    match prop.ty {
        MatchStatisticsPropType::Number => match &prop.property {
            Some(p) => match extra.get(p.as_str()) {
                Some(v) => Some(*v),
                None => None,
            },
            None => None,
        },
        MatchStatisticsPropType::Sum => match &prop.properties {
            Some(ps) => Some(sum_of_found(extra, ps)),
            None => None,
        },
        _ => None,
    }
}

impl StatboticsTeam {
    /// The statistics of a team from those of the team at one event, fetched
    /// at the time `now`: the record is the whole record at the event, with
    /// the ranking points of the qualification matches.
    pub fn from_event(team_event: StatboticsTeamEvent, config: &StatboticsConfig, now: u64) -> (r:
        Self)
        ensures
            r.epa == team_event.epa,
            r.record == (StatboticsRecordQuals {
                wins: team_event.record.total.wins,
                losses: team_event.record.total.losses,
                ties: team_event.record.total.ties,
                count: team_event.record.total.count,
                rps: team_event.record.qual.rps,
            }),
            r.other_details@ == other_details(team_event.epa.breakdown.extra@, config.props@),
            r.last_update == now,
    {
        StatboticsTeam {
            other_details: StatboticsCache::get_other_details(&team_event.epa.breakdown, config),
            epa: team_event.epa,
            record: StatboticsRecordQuals {
                wins: team_event.record.total.wins,
                losses: team_event.record.total.losses,
                ties: team_event.record.total.ties,
                count: team_event.record.total.count,
                rps: team_event.record.qual.rps,
            },
            last_update: now,
        }
    }

    /// The statistics of a team from those of the team over one year,
    /// fetched at the time `now`: they know of no ranking points.
    pub fn from_year(team_year: StatboticsTeamYear, config: &StatboticsConfig, now: u64) -> (r:
        Self)
        ensures
            r.epa == team_year.epa,
            r.record == (StatboticsRecordQuals {
                wins: team_year.record.wins,
                losses: team_year.record.losses,
                ties: team_year.record.ties,
                count: team_year.record.count,
                rps: 0,
            }),
            r.other_details@ == other_details(team_year.epa.breakdown.extra@, config.props@),
            r.last_update == now,
    {
        StatboticsTeam {
            other_details: StatboticsCache::get_other_details(&team_year.epa.breakdown, config),
            epa: team_year.epa,
            record: StatboticsRecordQuals {
                wins: team_year.record.wins,
                losses: team_year.record.losses,
                ties: team_year.record.ties,
                count: team_year.record.count,
                rps: 0,
            },
            last_update: now,
        }
    }
}

/// The cache of the statistics of the teams of one event.
#[derive(Debug, Clone, PartialEq)]
pub struct StatboticsCache {
    teams: Vec<(u32, Slot<StatboticsTeam>)>,
    event: String,
    year: u32,
    config: StatboticsConfig,
}

/// The place of the first slot of `team`.
pub open spec fn slot_index(teams: Seq<(u32, Slot<StatboticsTeam>)>, team: u32) -> Option<int>
    decreases teams.len(),
{
    if teams.len() == 0 {
        None
    } else {
        match slot_index(teams.drop_last(), team) {
            Some(i) => Some(i),
            None => if teams.last().0 == team {
                Some(teams.len() - 1)
            } else {
                None
            },
        }
    }
}

proof fn lemma_slot_index(teams: Seq<(u32, Slot<StatboticsTeam>)>, team: u32)
    ensures
        match slot_index(teams, team) {
            Some(i) => 0 <= i < teams.len() && teams[i].0 == team && forall|j: int|
                0 <= j < i ==> teams[j].0 != team,
            None => forall|j: int| 0 <= j < teams.len() ==> teams[j].0 != team,
        },
    decreases teams.len(),
{
    if teams.len() > 0 {
        let front = teams.drop_last();
        lemma_slot_index(front, team);
        assert(forall|j: int| 0 <= j < front.len() ==> front[j] == teams[j]);
    }
}

proof fn lemma_slot_index_same(
    a: Seq<(u32, Slot<StatboticsTeam>)>,
    b: Seq<(u32, Slot<StatboticsTeam>)>,
    team: u32,
)
    requires
        a.len() == b.len(),
        forall|j: int| 0 <= j < a.len() ==> a[j].0 == b[j].0,
    ensures
        slot_index(a, team) == slot_index(b, team),
{
    lemma_slot_index(a, team);
    lemma_slot_index(b, team);
}

impl StatboticsCache {
    /// The slots of the cache, by team.
    pub closed spec fn slots(&self) -> Seq<(u32, Slot<StatboticsTeam>)> {
        self.teams@
    }

    /// The slot of a team; an empty one where the cache has none for it.
    pub open spec fn slot(&self, team: u32) -> Slot<StatboticsTeam> {
        match slot_index(self.slots(), team) {
            Some(i) => self.slots()[i].1,
            None => Slot { value: None, loaded_at: 0, refreshing: false },
        }
    }

    /// The event whose teams are cached.
    pub closed spec fn event_code(&self) -> Seq<char> {
        self.event@
    }

    /// The year of the event.
    pub closed spec fn event_year(&self) -> u32 {
        self.year
    }

    /// The extra statistics that the game asks for.
    pub closed spec fn asked(&self) -> StatboticsConfig {
        self.config
    }

    /// A cache that holds nothing yet.
    pub fn new(event: &str, year: u32, config: StatboticsConfig) -> (r: Self)
        ensures
            r.slots().len() == 0,
            r.event_code() == event@,
            r.event_year() == year,
            r.asked() == config,
    {
        StatboticsCache { teams: Vec::new(), event: String::from_str(event), year, config }
    }

    /// The event whose teams are cached.
    pub fn event(&self) -> (r: &str)
        ensures
            r@ == self.event_code(),
    {
        self.event.as_str()
    }

    /// The year of the event.
    pub fn year(&self) -> (r: u32)
        ensures
            r == self.event_year(),
    {
        self.year
    }

    /// The extra statistics that the game asks for.
    pub fn config(&self) -> (r: &StatboticsConfig)
        ensures
            *r == self.asked(),
    {
        &self.config
    }

    fn find(&self, team: u32) -> (r: Option<usize>)
        ensures
            match r {
                Some(i) => slot_index(self.slots(), team) == Some(i as int) && i
                    < self.slots().len(),
                None => slot_index(self.slots(), team) is None,
            },
    {
        let mut i: usize = 0;
        while i < self.teams.len()
            invariant
                i <= self.teams@.len(),
                forall|j: int| 0 <= j < i ==> self.teams@[j].0 != team,
            decreases self.teams@.len() - i,
        {
            if self.teams[i].0 == team {
                proof {
                    lemma_slot_index(self.teams@, team);
                }
                return Some(i);
            }
            i += 1;
        }
        proof {
            lemma_slot_index(self.teams@, team);
        }
        None
    }

    /// The statistics of `team` that are cached.
    pub fn cached(&self, team: u32) -> (r: Option<&StatboticsTeam>)
        ensures
            r == (match self.slot(team).value {
                Some(v) => Some(&v),
                None => None,
            }),
    {
        match self.find(team) {
            Some(i) => self.teams[i].1.cached(),
            None => None,
        }
    }

    /// Decides what a caller who asks for the statistics of `team` at the
    /// time `now` has to fetch. What is cached is served in any case; it is
    /// refreshed in the background where it is older than five minutes, by
    /// one fetch at a time.
    pub fn get(&mut self, team: u32, now: u64) -> (r: Fetch)
        ensures
            r == old(self).slot(team).fetch_at(now),
            final(self).slot(team) == old(self).slot(team).after_get(now),
            forall|other: u32| other != team ==> final(self).slot(other) == old(self).slot(other),
            final(self).event_code() == old(self).event_code(),
            final(self).event_year() == old(self).event_year(),
            final(self).asked() == old(self).asked(),
    {
        match self.find(team) {
            Some(i) => {
                let r = self.teams[i].1.get(now);
                proof {
                    assert(self.teams@.len() == old(self).teams@.len());
                    assert(self.teams@[i as int].0 == old(self).teams@[i as int].0);
                    assert(forall|j: int|
                        0 <= j < self.teams@.len() && j != i ==> self.teams@[j] == old(
                            self,
                        ).teams@[j]);
                    lemma_slot_index(old(self).teams@, team);
                    assert forall|other: u32| other != team implies self.slot(other) == old(
                        self,
                    ).slot(other) by {
                        lemma_slot_index_same(old(self).teams@, self.teams@, other);
                        lemma_slot_index(self.teams@, other);
                    }
                    lemma_slot_index_same(old(self).teams@, self.teams@, team);
                }
                r
            },
            None => Fetch::Load,
        }
    }

    fn slot_mut(&mut self, team: u32) -> (i: usize)
        ensures
            i < final(self).slots().len(),
            slot_index(final(self).slots(), team) == Some(i as int),
            final(self).slot(team) == old(self).slot(team),
            forall|other: u32| final(self).slot(other) == old(self).slot(other),
            final(self).event_code() == old(self).event_code(),
            final(self).event_year() == old(self).event_year(),
            final(self).asked() == old(self).asked(),
    {
        match self.find(team) {
            Some(i) => i,
            None => {
                let i = self.teams.len();
                self.teams.push((team, Slot::new()));
                proof {
                    assert(self.teams@.drop_last() =~= old(self).teams@);
                    assert forall|other: u32| self.slot(other) == old(self).slot(other) by {
                        lemma_slot_index(old(self).teams@, other);
                        lemma_slot_index(self.teams@, other);
                    }
                }
                i
            },
        }
    }

    /// Caches the statistics that the caller of `get` has loaded for `team`.
    pub fn loaded(&mut self, team: u32, statistics: StatboticsTeam)
        ensures
            final(self).slot(team) == (Slot {
                value: Some(statistics),
                loaded_at: statistics.last_update,
                ..old(self).slot(team)
            }),
            forall|other: u32| other != team ==> final(self).slot(other) == old(self).slot(other),
            final(self).event_code() == old(self).event_code(),
            final(self).event_year() == old(self).event_year(),
            final(self).asked() == old(self).asked(),
    {
        let i = self.slot_mut(team);
        let ghost before = self.teams@;
        let now = statistics.last_update;
        self.teams[i].1.loaded(statistics, now);
        proof {
            lemma_slot_index(before, team);
            assert forall|other: u32| other != team implies self.slot(other) == old(
                self,
            ).slot(other) by {
                lemma_slot_index_same(before, self.teams@, other);
                lemma_slot_index(self.teams@, other);
            }
            lemma_slot_index_same(before, self.teams@, team);
        }
    }

    /// Takes the end of a fetch in the background for `team`, with the
    /// statistics that it brought, if any. The mark of the fetch is cleared
    /// either way.
    pub fn refreshed(&mut self, team: u32, fetched: Option<StatboticsTeam>)
        ensures
            final(self).slot(team) == old(self).slot(team).after_refresh(
                fetched,
                match fetched {
                    Some(s) => s.last_update,
                    None => 0,
                },
            ),
            forall|other: u32| other != team ==> final(self).slot(other) == old(self).slot(other),
            final(self).event_code() == old(self).event_code(),
            final(self).event_year() == old(self).event_year(),
            final(self).asked() == old(self).asked(),
    {
        let i = self.slot_mut(team);
        let ghost before = self.teams@;
        let now: u64 = match &fetched {
            Some(s) => s.last_update,
            None => 0,
        };
        self.teams[i].1.refreshed(fetched, now);
        proof {
            lemma_slot_index(before, team);
            assert forall|other: u32| other != team implies self.slot(other) == old(
                self,
            ).slot(other) by {
                lemma_slot_index_same(before, self.teams@, other);
                lemma_slot_index(self.teams@, other);
            }
            lemma_slot_index_same(before, self.teams@, team);
        }
    }

    /// The extra statistics that the game asks for, read from a breakdown.
    pub fn get_other_details(epa: &StatboticsEpaBreakdown, config: &StatboticsConfig) -> (r:
        StrMap<i64>)
        ensures
            r@ == other_details(epa.extra@, config.props@),
    {
        let mut details: StrMap<i64> = StrMap::new();
        let n: usize = config.props.len();
        let mut i: usize = 0;
        assert(config.props@.take(0) =~= Seq::empty());
        while i < n
            invariant
                i <= n,
                n == config.props@.len(),
                details@ == other_details(epa.extra@, config.props@.take(i as int)),
            decreases n - i,
        {
            proof {
                let next = config.props@.take(i + 1);
                assert(next.drop_last() =~= config.props@.take(i as int));
                assert(next.last() == config.props@[i as int]);
            }
            match detail(&epa.extra, config.props.value_at(i)) {
                Some(v) => {
                    details.insert(config.props.key_at(i).clone(), v);
                },
                None => {},
            }
            i += 1;
        }
        assert(config.props@.take(i as int) =~= config.props@);
        details
    }
}

} // verus!
