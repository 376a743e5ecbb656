//! What the event feed says of an event: its teams and its matches, with the
//! properties of each match that the game asks for.
use vstd::prelude::*;
use vstd::string::*;
use base64::Engine;
use crate::cache::{Fetch, Slot};
use crate::config::{GameConfig, TbaMatchProp, TbaMatchPropOption, TbaMatchPropType};
use crate::data::{
    fields_of, lemma_fields_with_entry, CounterEntry, EntryModel, Fields, MatchBoolEntry,
    MatchEntryValue, MatchEnumEntry, Payload,
};
use crate::order::{arrange, stable_order};
use crate::str_map::{lemma_lookup_insert, lemma_position, lookup, position, with_entry, StrMap};
use crate::tally::sum_over;
use crate::text::{
    decimal, parse_u32, parsed_u32, push_decimal, starts_with_char, texts, trim_start_matches,
    without_leading,
};

verus! {

/// A team as the feed names it.
#[derive(Debug, Clone, PartialEq)]
pub struct RawTbaTeamInfo {
    pub num: u32,
    pub name: String,
    pub has_avatar: bool,
}

/// A team of an event, with its record at the event.
#[derive(Debug, Clone, PartialEq)]
pub struct TeamInfo {
    pub num: u32,
    pub name: String,
    pub has_avatar: bool,
    pub wins: u32,
    pub losses: u32,
    pub ties: u32,
    pub ranking_points: u32,
}

/// Where the avatar of team `num` is served.
pub open spec fn icon_url(num: u32) -> Seq<char> {
    "/avatar/"@ + decimal(num as nat)
}

impl TeamInfo {
    /// Where the avatar of the team is served, where it has one.
    pub fn get_icon_url(&self) -> (r: Option<String>)
        ensures
            crate::data::opt_text(r) == (if self.has_avatar {
                Some(icon_url(self.num))
            } else {
                None
            }),
    {
        if self.has_avatar {
            let mut url = String::from_str("/avatar/");
            push_decimal(&mut url, self.num as u128);
            Some(url)
        } else {
            None
        }
    }
}

/// The set and the number of a match.
#[derive(Debug, Clone, Copy, PartialEq, Eq, Structural)]
pub struct SetMatch {
    pub set: u32,
    pub num: u32,
}

/// The level of a match, with its set and number.
#[derive(Debug, Clone, Copy, PartialEq, Eq, Structural)]
pub enum MatchId {
    Practice(SetMatch),
    Qualification(SetMatch),
    Quarterfinal(SetMatch),
    Semifinal(SetMatch),
    Final(SetMatch),
}

/// How a match ended.
#[derive(Debug, Clone, Copy, PartialEq, Eq, Structural)]
pub enum MatchResult {
    Tbd,
    Red,
    Blue,
    Tie,
}

/// The values that the feed gives for the properties of a match, for each
/// of the three places of either alliance.
#[derive(Debug, Clone, PartialEq)]
pub struct CustomEntries {
    pub blue: [StrMap<MatchEntryValue>; 3],
    pub red: [StrMap<MatchEntryValue>; 3],
}

/// A match of an event.
#[derive(Debug, Clone, PartialEq)]
pub struct MatchInfo {
    pub id: MatchId,
    /// Start time in milliseconds since the unix epoch.
    pub start_time: u64,
    pub teams_blue: Vec<u32>,
    pub teams_red: Vec<u32>,
    pub result: MatchResult,
    pub score_blue: Option<u16>,
    pub score_red: Option<u16>,
    pub rp_blue: Option<u16>,
    pub rp_red: Option<u16>,
    pub custom_entries: CustomEntries,
}

/// All that is known of an event.
#[derive(Debug, Clone, PartialEq)]
pub struct EventInfo {
    /// The matches, by the time they start
    pub match_infos: Vec<MatchInfo>,
    /// The teams, none of them twice
    pub team_infos: Vec<TeamInfo>,
    pub event: String,
    pub year: u32,
    /// When the event was fetched, in milliseconds
    pub last_update: u64,
}

/// The first of `teams` with the number `num`.
pub open spec fn team_info(teams: Seq<TeamInfo>, num: u32) -> Option<TeamInfo>
    decreases teams.len(),
{
    if teams.len() == 0 {
        None
    } else {
        match team_info(teams.drop_last(), num) {
            Some(t) => Some(t),
            None => if teams.last().num == num {
                Some(teams.last())
            } else {
                None
            },
        }
    }
}

/// The first of `matches` with the id `id`.
pub open spec fn match_info(matches: Seq<MatchInfo>, id: MatchId) -> Option<MatchInfo>
    decreases matches.len(),
{
    if matches.len() == 0 {
        None
    } else {
        match match_info(matches.drop_last(), id) {
            Some(m) => Some(m),
            None => if matches.last().id == id {
                Some(matches.last())
            } else {
                None
            },
        }
    }
}

proof fn lemma_team_info_prefix(teams: Seq<TeamInfo>, num: u32, i: int)
    requires
        0 <= i <= teams.len(),
        team_info(teams.take(i), num) is Some,
    ensures
        team_info(teams, num) == team_info(teams.take(i), num),
    decreases teams.len() - i,
{
    if i < teams.len() {
        assert(teams.take(i + 1).drop_last() =~= teams.take(i));
        lemma_team_info_prefix(teams, num, i + 1);
    } else {
        assert(teams.take(i) =~= teams);
    }
}

proof fn lemma_match_info_prefix(matches: Seq<MatchInfo>, id: MatchId, i: int)
    requires
        0 <= i <= matches.len(),
        match_info(matches.take(i), id) is Some,
    ensures
        match_info(matches, id) == match_info(matches.take(i), id),
    decreases matches.len() - i,
{
    if i < matches.len() {
        assert(matches.take(i + 1).drop_last() =~= matches.take(i));
        lemma_match_info_prefix(matches, id, i + 1);
    } else {
        assert(matches.take(i) =~= matches);
    }
}

impl EventInfo {
    /// The team of the event with the number `num`.
    pub fn team(&self, num: u32) -> (r: Option<&TeamInfo>)
        ensures
            r == (match team_info(self.team_infos@, num) {
                Some(t) => Some(&t),
                None => None,
            }),
    {
        let mut i: usize = 0;
        assert(self.team_infos@.take(0) =~= Seq::empty());
        while i < self.team_infos.len()
            invariant
                i <= self.team_infos@.len(),
                team_info(self.team_infos@.take(i as int), num) is None,
            decreases self.team_infos@.len() - i,
        {
            proof {
                let next = self.team_infos@.take(i + 1);
                assert(next.drop_last() =~= self.team_infos@.take(i as int));
                assert(next.last() == self.team_infos@[i as int]);
            }
            if self.team_infos[i].num == num {
                proof {
                    lemma_team_info_prefix(self.team_infos@, num, i + 1);
                }
                return Some(&self.team_infos[i]);
            }
            i += 1;
        }
        assert(self.team_infos@.take(i as int) =~= self.team_infos@);
        None
    }

    /// The match of the event with the id `id`.
    pub fn find_match(&self, id: MatchId) -> (r: Option<&MatchInfo>)
        ensures
            r == (match match_info(self.match_infos@, id) {
                Some(m) => Some(&m),
                None => None,
            }),
    {
        let mut i: usize = 0;
        assert(self.match_infos@.take(0) =~= Seq::empty());
        while i < self.match_infos.len()
            invariant
                i <= self.match_infos@.len(),
                match_info(self.match_infos@.take(i as int), id) is None,
            decreases self.match_infos@.len() - i,
        {
            proof {
                let next = self.match_infos@.take(i + 1);
                assert(next.drop_last() =~= self.match_infos@.take(i as int));
                assert(next.last() == self.match_infos@[i as int]);
            }
            if self.match_infos[i].id == id {
                proof {
                    lemma_match_info_prefix(self.match_infos@, id, i + 1);
                }
                return Some(&self.match_infos[i]);
            }
            i += 1;
        }
        assert(self.match_infos@.take(i as int) =~= self.match_infos@);
        None
    }
}

/// What goes wrong when the feed is read.
#[derive(Debug, Clone, Copy, PartialEq, Eq, Structural)]
pub enum TbaError {
    /// The level of a match is none that is known
    UnknownCompLevel,
    /// The key of a team does not end in a number
    BadTeamKey,
    /// A property of a match is not of the type that the game declares
    PropertyMismatch,
}

/// A value of the score breakdown of a match.
#[derive(Debug, Clone, PartialEq)]
pub enum RawTbaScoreBreakdownValue {
    Number(i32),
    Text(String),
    Boolean(bool),
    /// Anything else
    Unknown,
}

/// The score breakdowns of the two alliances of a match, by property.
#[derive(Debug, Clone, PartialEq)]
pub struct RawTbaScoreBreakdowns {
    pub blue: StrMap<RawTbaScoreBreakdownValue>,
    pub red: StrMap<RawTbaScoreBreakdownValue>,
}

/// An alliance of a match as the feed sends it.
#[derive(Debug, Clone, PartialEq)]
pub struct RawTbaAlliance {
    pub score: Option<i16>,
    pub team_keys: Vec<String>,
}

/// The two alliances of a match as the feed sends them.
#[derive(Debug, Clone, PartialEq)]
pub struct RawTbaAlliances {
    pub blue: RawTbaAlliance,
    pub red: RawTbaAlliance,
}

/// A match as the feed sends it.
#[derive(Debug, Clone, PartialEq)]
pub struct RawTbaMatch {
    pub alliances: RawTbaAlliances,
    pub actual_time: Option<u64>,
    pub predicted_time: Option<u64>,
    pub comp_level: String,
    pub set_number: u32,
    pub match_number: u32,
    pub score_breakdown: Option<RawTbaScoreBreakdowns>,
    pub winning_alliance: Option<String>,
}

/// The values of a score breakdown as contracts see them.
pub type Breakdown = Seq<(Seq<char>, RawTbaScoreBreakdownValue)>;

/// The name of a property for the place `n` of an alliance: each `{N}` in
/// it gives way to the number of the place.
pub open spec fn with_place(s: Seq<char>, n: nat) -> Seq<char>
    decreases s.len(),
{
    if s.len() == 0 {
        Seq::empty()
    } else if s.len() >= 3 && s[0] == '{' && s[1] == 'N' && s[2] == '}' {
        decimal(n) + with_place(s.skip(3), n)
    } else {
        seq![s[0]] + with_place(s.skip(1), n)
    }
}

/// Whether a value says yes: it is true, or a text that begins with a Y.
pub open spec fn says_yes(v: Option<RawTbaScoreBreakdownValue>) -> bool {
    match v {
        Some(RawTbaScoreBreakdownValue::Boolean(b)) => b,
        Some(RawTbaScoreBreakdownValue::Text(s)) => s@.len() > 0 && (s@[0] == 'Y' || s@[0]
            == 'y'),
        _ => false,
    }
}

/// How many of the options say yes in the breakdown.
pub open spec fn count_yes(values: Breakdown, options: Seq<TbaMatchPropOption>) -> int
    decreases options.len(),
{
    if options.len() == 0 {
        0
    } else {
        count_yes(values, options.drop_last()) + if says_yes(lookup(values, options.last().id@)) {
            1int
        } else {
            0int
        }
    }
}

/// The name under which an option of an enum property is observed: that of
/// the first option with the given id, or the id where the option has no
/// name.
pub open spec fn option_name(options: Seq<TbaMatchPropOption>, id: Seq<char>) -> Option<Seq<char>>
    decreases options.len(),
{
    if options.len() == 0 {
        None
    } else {
        match option_name(options.drop_last(), id) {
            Some(n) => Some(n),
            None => if options.last().id@ == id {
                Some(
                    match options.last().name {
                        Some(n) => n@,
                        None => options.last().id@,
                    },
                )
            } else {
                None
            },
        }
    }
}

/// The options of a property; none where it declares none.
pub open spec fn options_of(prop: TbaMatchProp) -> Seq<TbaMatchPropOption> {
    match prop.options {
        Some(o) => o@,
        None => Seq::empty(),
    }
}

/// A value that the feed gives, as an observation: the feed is its scout,
/// and it carries no time.
pub open spec fn feed_value(payload: Payload) -> EntryModel {
    EntryModel { payload, scout: "TBA"@, timestamp_ms: 0, sentiment: 0 }
}

/// The observation that a value of the breakdown stands for under a
/// property, where the value is of the type that the property declares.
pub open spec fn converted(
    prop: TbaMatchProp,
    values: Breakdown,
    data: RawTbaScoreBreakdownValue,
) -> Option<EntryModel> {
    match prop.ty {
        TbaMatchPropType::Bool => match data {
            RawTbaScoreBreakdownValue::Boolean(b) => Some(feed_value(Payload::Bool(b))),
            RawTbaScoreBreakdownValue::Text(_) => Some(
                feed_value(Payload::Bool(says_yes(Some(data)))),
            ),
            _ => None,
        },
        TbaMatchPropType::Sum => Some(
            feed_value(Payload::Counter(count_yes(values, options_of(prop)) as i32)),
        ),
        TbaMatchPropType::Enum => match data {
            RawTbaScoreBreakdownValue::Text(s) => match option_name(options_of(prop), s@) {
                Some(name) => Some(feed_value(Payload::Enum(name))),
                None => None,
            },
            _ => None,
        },
        TbaMatchPropType::Number => match data {
            RawTbaScoreBreakdownValue::Number(n) => Some(feed_value(Payload::Counter(n))),
            _ => None,
        },
    }
}

/// The observations that a breakdown gives for the place `n` of an
/// alliance, by the ids of the metrics of the feed; nothing where a value is
/// not of the type that its property declares.
pub open spec fn place_entries(
    props: Seq<(Seq<char>, TbaMatchProp)>,
    values: Breakdown,
    n: nat,
) -> Option<Fields>
    decreases props.len(),
{
    if props.len() == 0 {
        Some(Seq::empty())
    } else {
        match place_entries(props.drop_last(), values, n) {
            None => None,
            Some(rest) => {
                let (id, prop) = props.last();
                match lookup(values, with_place(prop.property@, n)) {
                    None => Some(rest),
                    Some(data) => match converted(prop, values, data) {
                        Some(v) => Some(with_entry(rest, "tba-"@ + id, v)),
                        None => None,
                    },
                }
            },
        }
    }
}

fn place_name(property: &str, n: u8) -> (r: String)
    ensures
        r@ == with_place(property@, n as nat),
{
    let len: usize = property.unicode_len();
    let mut out = String::new();
    let mut i: usize = 0;
    assert(property@.skip(0) =~= property@);
    assert(out@ + with_place(property@, n as nat) =~= with_place(property@, n as nat));
    while i < len
        invariant
            i <= len,
            len == property@.len(),
            out@ + with_place(property@.skip(i as int), n as nat) == with_place(
                property@,
                n as nat,
            ),
        decreases len - i,
    {
        let ghost rest = property@.skip(i as int);
        let ghost before = out@;
        assert(rest.len() == len - i);
        assert(rest[0] == property@[i as int]);
        if len - i >= 3 && property.get_char(i) == '{' && property.get_char(i + 1) == 'N'
            && property.get_char(i + 2) == '}' {
            assert(rest[1] == property@[i + 1] && rest[2] == property@[i + 2]);
            push_decimal(&mut out, n as u128);
            assert(rest.skip(3) =~= property@.skip(i + 3));
            assert(out@ + with_place(property@.skip(i + 3), n as nat) =~= before + with_place(
                rest,
                n as nat,
            ));
            i += 3;
        } else {
            proof {
                if rest.len() >= 3 {
                    assert(rest[1] == property@[i + 1] && rest[2] == property@[i + 2]);
                }
            }
            out.push(property.get_char(i));
            assert(rest.skip(1) =~= property@.skip(i + 1));
            assert(out@ + with_place(property@.skip(i + 1), n as nat) =~= before + with_place(
                rest,
                n as nat,
            ));
            i += 1;
        }
    }
    assert(with_place(property@.skip(i as int), n as nat) =~= Seq::empty());
    assert(out@ + Seq::<char>::empty() =~= out@);
    out
}

fn yes(v: Option<&RawTbaScoreBreakdownValue>) -> (r: bool)
    ensures
        r == says_yes(
            match v {
                Some(v) => Some(*v),
                None => None,
            },
        ),
{
    match v {
        Some(RawTbaScoreBreakdownValue::Boolean(b)) => *b,
        Some(RawTbaScoreBreakdownValue::Text(s)) => starts_with_char(s.as_str(), 'Y')
            || starts_with_char(s.as_str(), 'y'),
        _ => false,
    }
}

fn yes_count(values: &StrMap<RawTbaScoreBreakdownValue>, options: &Vec<TbaMatchPropOption>) -> (r:
    usize)
    ensures
        r == count_yes(values@, options@),
{
    let mut n: usize = 0;
    let mut i: usize = 0;
    assert(options@.take(0) =~= Seq::empty());
    while i < options.len()
        invariant
            i <= options@.len(),
            n <= i,
            n == count_yes(values@, options@.take(i as int)),
        decreases options@.len() - i,
    {
        proof {
            let next = options@.take(i + 1);
            assert(next.drop_last() =~= options@.take(i as int));
            assert(next.last() == options@[i as int]);
        }
        if yes(values.get(options[i].id.as_str())) {
            n += 1;
        }
        i += 1;
    }
    assert(options@.take(i as int) =~= options@);
    n
}

fn name_of_option(options: &Vec<TbaMatchPropOption>, id: &str) -> (r: Option<String>)
    ensures
        crate::data::opt_text(r) == option_name(options@, id@),
{
    let mut i: usize = 0;
    assert(options@.take(0) =~= Seq::empty());
    while i < options.len()
        invariant
            i <= options@.len(),
            option_name(options@.take(i as int), id@) is None,
        decreases options@.len() - i,
    {
        proof {
            let next = options@.take(i + 1);
            assert(next.drop_last() =~= options@.take(i as int));
            assert(next.last() == options@[i as int]);
        }
        if options[i].id.as_str().eq(id) {
            proof {
                lemma_option_name_prefix(options@, id@, i + 1);
            }
            return Some(
                match &options[i].name {
                    Some(n) => n.clone(),
                    None => options[i].id.clone(),
                },
            );
        }
        i += 1;
    }
    assert(options@.take(i as int) =~= options@);
    None
}

proof fn lemma_option_name_prefix(options: Seq<TbaMatchPropOption>, id: Seq<char>, i: int)
    requires
        0 <= i <= options.len(),
        option_name(options.take(i), id) is Some,
    ensures
        option_name(options, id) == option_name(options.take(i), id),
    decreases options.len() - i,
{
    if i < options.len() {
        assert(options.take(i + 1).drop_last() =~= options.take(i));
        lemma_option_name_prefix(options, id, i + 1);
    } else {
        assert(options.take(i) =~= options);
    }
}

fn from_feed_bool(value: bool) -> (r: MatchEntryValue)
    ensures
        r@ == feed_value(Payload::Bool(value)),
{
    MatchEntryValue::Bool(MatchBoolEntry { value, scout: String::from_str("TBA"), timestamp_ms: 0 })
}

fn from_feed_count(count: i32) -> (r: MatchEntryValue)
    ensures
        r@ == feed_value(Payload::Counter(count)),
{
    MatchEntryValue::Counter(CounterEntry { count, scout: String::from_str("TBA"), timestamp_ms: 0 })
}

fn convert(
    prop: &TbaMatchProp,
    values: &StrMap<RawTbaScoreBreakdownValue>,
    data: &RawTbaScoreBreakdownValue,
) -> (r: Option<MatchEntryValue>)
    ensures
        (match r {
            Some(v) => Some(v@),
            None => None,
        }) == converted(*prop, values@, *data),
{
    match prop.ty {
        TbaMatchPropType::Bool => match data {
            RawTbaScoreBreakdownValue::Boolean(b) => Some(from_feed_bool(*b)),
            RawTbaScoreBreakdownValue::Text(_) => Some(from_feed_bool(yes(Some(data)))),
            _ => None,
        },
        TbaMatchPropType::Sum => {
            let count: usize = match &prop.options {
                Some(options) => yes_count(values, options),
                None => 0,
            };
            Some(from_feed_count(count as i32))
        },
        TbaMatchPropType::Enum => match data {
            RawTbaScoreBreakdownValue::Text(s) => {
                let name = match &prop.options {
                    Some(options) => name_of_option(options, s.as_str()),
                    None => None,
                };
                match name {
                    Some(value) => Some(
                        MatchEntryValue::Enum(
                            MatchEnumEntry {
                                value,
                                scout: String::from_str("TBA"),
                                timestamp_ms: 0,
                            },
                        ),
                    ),
                    None => None,
                }
            },
            _ => None,
        },
        TbaMatchPropType::Number => match data {
            RawTbaScoreBreakdownValue::Number(n) => Some(from_feed_count(*n)),
            _ => None,
        },
    }
}

fn entries_for_place(
    game_config: &GameConfig,
    values: &StrMap<RawTbaScoreBreakdownValue>,
    n: u8,
) -> (r: Result<StrMap<MatchEntryValue>, TbaError>)
    ensures
        match r {
            Ok(entries) => Some(fields_of(entries@)) == place_entries(
                game_config.tba.props@,
                values@,
                n as nat,
            ),
            Err(e) => e == TbaError::PropertyMismatch && place_entries(
                game_config.tba.props@,
                values@,
                n as nat,
            ) is None,
        },
{
    let props = &game_config.tba.props;
    let mut entries: StrMap<MatchEntryValue> = StrMap::new();
    let count: usize = props.len();
    let mut i: usize = 0;
    assert(props@.take(0) =~= Seq::empty());
    assert(fields_of(entries@) =~= Seq::empty());
    while i < count
        invariant
            i <= count,
            count == props@.len(),
            props == &game_config.tba.props,
            Some(fields_of(entries@)) == place_entries(props@.take(i as int), values@, n as nat),
        decreases count - i,
    {
        let ghost before = entries@;
        proof {
            let next = props@.take(i + 1);
            assert(next.drop_last() =~= props@.take(i as int));
            assert(next.last() == props@[i as int]);
        }
        let prop = props.value_at(i);
        let name = place_name(prop.property.as_str(), n);
        match values.get(name.as_str()) {
            Some(data) => match convert(prop, values, data) {
                Some(value) => {
                    let mut id = String::from_str("tba-");
                    id.append(props.key_at(i).as_str());
                    proof {
                        lemma_fields_with_entry(before, id@, value);
                    }
                    entries.insert(id, value);
                },
                None => {
                    proof {
                        lemma_place_entries_fail(props@, values@, n as nat, i + 1);
                    }
                    return Err(TbaError::PropertyMismatch);
                },
            },
            None => {},
        }
        i += 1;
    }
    assert(props@.take(i as int) =~= props@);
    Ok(entries)
}

proof fn lemma_place_entries_fail(
    props: Seq<(Seq<char>, TbaMatchProp)>,
    values: Breakdown,
    n: nat,
    i: int,
)
    requires
        0 <= i <= props.len(),
        place_entries(props.take(i), values, n) is None,
    ensures
        place_entries(props, values, n) is None,
    decreases props.len() - i,
{
    if i < props.len() {
        assert(props.take(i + 1).drop_last() =~= props.take(i));
        lemma_place_entries_fail(props, values, n, i + 1);
    } else {
        assert(props.take(i) =~= props);
    }
}

/// The fields of the three places of an alliance, where they all agree with
/// the declared types.
pub open spec fn alliance_entries(
    props: Seq<(Seq<char>, TbaMatchProp)>,
    values: Option<Breakdown>,
) -> Option<Seq<Fields>> {
    match values {
        None => Some(seq![Seq::empty(), Seq::empty(), Seq::empty()]),
        Some(v) => match (
            place_entries(props, v, 1),
            place_entries(props, v, 2),
            place_entries(props, v, 3),
        ) {
            (Some(a), Some(b), Some(c)) => Some(seq![a, b, c]),
            _ => None,
        },
    }
}

/// The fields of the three maps of an alliance.
pub open spec fn fields_of_places(entries: [StrMap<MatchEntryValue>; 3]) -> Seq<Fields> {
    seq![fields_of(entries@[0]@), fields_of(entries@[1]@), fields_of(entries@[2]@)]
}

/// The values of a breakdown that may be missing.
pub open spec fn opt_breakdown(values: Option<&StrMap<RawTbaScoreBreakdownValue>>) -> Option<
    Breakdown,
> {
    match values {
        Some(v) => Some(v@),
        None => None,
    }
}

/// Reads the properties that the game asks for from the score breakdown of
/// an alliance, for each of its three places.
///
/// A property whose name holds `{N}` is read once for each place. Each value
/// is checked against the type that its property declares and then turned
/// into an observation; a value of another type is an error, and is never
/// made to fit.
pub fn custom_entries_for(
    game_config: &GameConfig,
    values: Option<&StrMap<RawTbaScoreBreakdownValue>>,
) -> (r: Result<[StrMap<MatchEntryValue>; 3], TbaError>)
    ensures
        match r {
            Ok(entries) => Some(fields_of_places(entries)) == alliance_entries(
                game_config.tba.props@,
                opt_breakdown(values),
            ),
            Err(e) => e == TbaError::PropertyMismatch && alliance_entries(
                game_config.tba.props@,
                opt_breakdown(values),
            ) is None,
        },
{
    match values {
        None => {
            let a: StrMap<MatchEntryValue> = StrMap::new();
            let b: StrMap<MatchEntryValue> = StrMap::new();
            let c: StrMap<MatchEntryValue> = StrMap::new();
            assert(fields_of(a@) =~= Seq::empty());
            assert(fields_of(b@) =~= Seq::empty());
            assert(fields_of(c@) =~= Seq::empty());
            Ok([a, b, c])
        },
        Some(v) => {
            let a = match entries_for_place(game_config, v, 1) {
                Ok(e) => e,
                Err(e) => {
                    return Err(e);
                },
            };
            let b = match entries_for_place(game_config, v, 2) {
                Ok(e) => e,
                Err(e) => {
                    return Err(e);
                },
            };
            let c = match entries_for_place(game_config, v, 3) {
                Ok(e) => e,
                Err(e) => {
                    return Err(e);
                },
            };
            Ok([a, b, c])
        },
    }
}

/// The score of an alliance, where it has one that is not negative.
pub open spec fn score_of(score: Option<i16>) -> Option<u16> {
    match score {
        Some(s) => if s >= 0 {
            Some(s as u16)
        } else {
            None
        },
        None => None,
    }
}

/// The id of a match of the given level.
pub open spec fn comp_level_id(level: Seq<char>, set: u32, num: u32) -> Option<MatchId> {
    if level == "q"@ || level == "qm"@ {
        Some(MatchId::Qualification(SetMatch { set, num }))
    } else if level == "qf"@ {
        Some(MatchId::Quarterfinal(SetMatch { set, num }))
    } else if level == "sf"@ {
        Some(MatchId::Semifinal(SetMatch { set, num }))
    } else if level == "f"@ {
        Some(MatchId::Final(SetMatch { set, num }))
    } else {
        None
    }
}

/// When a match starts: when it did start, else when it is expected to,
/// else at no time.
pub open spec fn start_time_of(actual: Option<u64>, predicted: Option<u64>) -> u64 {
    match actual {
        Some(t) => t,
        None => match predicted {
            Some(t) => t,
            None => 0,
        },
    }
}

/// The number of the team that a key names: what stands behind `frc`.
pub open spec fn team_number(key: Seq<char>) -> Option<u32> {
    parsed_u32(without_leading(key, "frc"@))
}

/// The numbers of the teams that the keys name, where each names one.
pub open spec fn team_numbers(keys: Seq<Seq<char>>) -> Option<Seq<u32>>
    decreases keys.len(),
{
    if keys.len() == 0 {
        Some(Seq::empty())
    } else {
        match (team_numbers(keys.drop_last()), team_number(keys.last())) {
            (Some(rest), Some(n)) => Some(rest.push(n)),
            _ => None,
        }
    }
}

/// A number cut down to sixteen bits.
pub open spec fn cut_to_u16(n: i32) -> u16 {
    if n >= 0 {
        (n % 65536) as u16
    } else if (-n) % 65536 == 0 {
        0
    } else {
        (65536 - (-n) % 65536) as u16
    }
}

/// The ranking points that a score breakdown grants.
pub open spec fn ranking_points_of(values: Option<Breakdown>) -> Option<u16> {
    match values {
        Some(v) => match lookup(v, "rp"@) {
            Some(RawTbaScoreBreakdownValue::Number(n)) => Some(cut_to_u16(n)),
            _ => None,
        },
        None => None,
    }
}

/// How a match ended: as the feed says, else in a tie where both alliances
/// have the same score, else not yet.
pub open spec fn result_of(
    winning: Option<Seq<char>>,
    score_blue: Option<u16>,
    score_red: Option<u16>,
) -> MatchResult {
    if winning == Some("red"@) {
        MatchResult::Red
    } else if winning == Some("blue"@) {
        MatchResult::Blue
    } else if score_blue is Some && score_red is Some && score_blue == score_red {
        MatchResult::Tie
    } else {
        MatchResult::Tbd
    }
}

/// The score breakdown of the blue alliance, where there is one.
pub open spec fn blue_breakdown(raw: RawTbaMatch) -> Option<Breakdown> {
    match raw.score_breakdown {
        Some(b) => Some(b.blue@),
        None => None,
    }
}

/// The score breakdown of the red alliance, where there is one.
pub open spec fn red_breakdown(raw: RawTbaMatch) -> Option<Breakdown> {
    match raw.score_breakdown {
        Some(b) => Some(b.red@),
        None => None,
    }
}

/// What is wrong with a match of the feed, if anything: first its level,
/// then the keys of its teams, then the types of its properties.
pub open spec fn match_error(raw: RawTbaMatch, props: Seq<(Seq<char>, TbaMatchProp)>) -> Option<
    TbaError,
> {
    if comp_level_id(raw.comp_level@, raw.set_number, raw.match_number) is None {
        Some(TbaError::UnknownCompLevel)
    } else if team_numbers(texts(raw.alliances.blue.team_keys@)) is None || team_numbers(
        texts(raw.alliances.red.team_keys@),
    ) is None {
        Some(TbaError::BadTeamKey)
    } else if alliance_entries(props, blue_breakdown(raw)) is None || alliance_entries(
        props,
        red_breakdown(raw),
    ) is None {
        Some(TbaError::PropertyMismatch)
    } else {
        None
    }
}

/// `m` is the match that the feed sends as `raw`.
pub open spec fn is_match_of(
    m: MatchInfo,
    raw: RawTbaMatch,
    props: Seq<(Seq<char>, TbaMatchProp)>,
) -> bool {
    &&& Some(m.id) == comp_level_id(raw.comp_level@, raw.set_number, raw.match_number)
    &&& m.start_time == start_time_of(raw.actual_time, raw.predicted_time)
    &&& Some(m.teams_blue@) == team_numbers(texts(raw.alliances.blue.team_keys@))
    &&& Some(m.teams_red@) == team_numbers(texts(raw.alliances.red.team_keys@))
    &&& m.score_blue == score_of(raw.alliances.blue.score)
    &&& m.score_red == score_of(raw.alliances.red.score)
    &&& m.rp_blue == ranking_points_of(blue_breakdown(raw))
    &&& m.rp_red == ranking_points_of(red_breakdown(raw))
    &&& m.result == result_of(
        crate::data::opt_text(raw.winning_alliance),
        score_of(raw.alliances.blue.score),
        score_of(raw.alliances.red.score),
    )
    &&& Some(fields_of_places(m.custom_entries.blue)) == alliance_entries(
        props,
        blue_breakdown(raw),
    )
    &&& Some(fields_of_places(m.custom_entries.red)) == alliance_entries(props, red_breakdown(raw))
}

fn score(given: Option<i16>) -> (r: Option<u16>)
    ensures
        r == score_of(given),
{
    match given {
        Some(s) => if s >= 0 {
            Some(s as u16)
        } else {
            None
        },
        None => None,
    }
}

fn level_id(level: &str, set: u32, num: u32) -> (r: Option<MatchId>)
    ensures
        r == comp_level_id(level@, set, num),
{
    if level.eq("q") || level.eq("qm") {
        Some(MatchId::Qualification(SetMatch { set, num }))
    } else if level.eq("qf") {
        Some(MatchId::Quarterfinal(SetMatch { set, num }))
    } else if level.eq("sf") {
        Some(MatchId::Semifinal(SetMatch { set, num }))
    } else if level.eq("f") {
        Some(MatchId::Final(SetMatch { set, num }))
    } else {
        None
    }
}

fn numbers_of_teams(keys: &Vec<String>) -> (r: Option<Vec<u32>>)
    ensures
        (match r {
            Some(v) => Some(v@),
            None => None,
        }) == team_numbers(texts(keys@)),
{
    let ghost all = texts(keys@);
    let mut numbers: Vec<u32> = Vec::new();
    let mut i: usize = 0;
    assert(all.take(0) =~= Seq::empty());
    while i < keys.len()
        invariant
            i <= keys@.len(),
            all == texts(keys@),
            Some(numbers@) == team_numbers(all.take(i as int)),
        decreases keys@.len() - i,
    {
        proof {
            let next = all.take(i + 1);
            assert(next.drop_last() =~= all.take(i as int));
            assert(next.last() == keys@[i as int]@);
        }
        match parse_u32(trim_start_matches(keys[i].as_str(), "frc")) {
            Some(n) => {
                numbers.push(n);
            },
            None => {
                proof {
                    lemma_team_numbers_fail(all, i + 1);
                }
                return None;
            },
        }
        i += 1;
    }
    assert(all.take(i as int) =~= all);
    Some(numbers)
}

proof fn lemma_team_numbers_fail(keys: Seq<Seq<char>>, i: int)
    requires
        0 <= i <= keys.len(),
        team_numbers(keys.take(i)) is None,
    ensures
        team_numbers(keys) is None,
    decreases keys.len() - i,
{
    if i < keys.len() {
        assert(keys.take(i + 1).drop_last() =~= keys.take(i));
        lemma_team_numbers_fail(keys, i + 1);
    } else {
        assert(keys.take(i) =~= keys);
    }
}

fn cut(n: i32) -> (r: u16)
    ensures
        r == cut_to_u16(n),
{
    if n >= 0 {
        (n % 65536) as u16
    } else {
        let m: i64 = (-(n as i64)) % 65536;
        if m == 0 {
            0
        } else {
            (65536 - m) as u16
        }
    }
}

fn ranking_points(values: Option<&StrMap<RawTbaScoreBreakdownValue>>) -> (r: Option<u16>)
    ensures
        r == ranking_points_of(opt_breakdown(values)),
{
    match values {
        Some(v) => match v.get("rp") {
            Some(RawTbaScoreBreakdownValue::Number(n)) => Some(cut(*n)),
            _ => None,
        },
        None => None,
    }
}

fn result(winning: &Option<String>, score_blue: Option<u16>, score_red: Option<u16>) -> (r:
    MatchResult)
    ensures
        r == result_of(crate::data::opt_text(*winning), score_blue, score_red),
{
    let (red, blue) = match winning {
        Some(w) => (w.as_str().eq("red"), w.as_str().eq("blue")),
        None => (false, false),
    };
    if red {
        MatchResult::Red
    } else if blue {
        MatchResult::Blue
    } else {
        match (score_blue, score_red) {
            (Some(b), Some(r)) => if b == r {
                MatchResult::Tie
            } else {
                MatchResult::Tbd
            },
            _ => MatchResult::Tbd,
        }
    }
}

impl RawTbaMatch {
    /// Reads a match of the feed.
    ///
    /// A match of an unknown level is an error, and so are a team key that
    /// names no number and a property that is not of its declared type.
    pub fn into_match(self, game_config: &GameConfig) -> (r: Result<MatchInfo, TbaError>)
        ensures
            match r {
                Ok(m) => match_error(self, game_config.tba.props@) is None && is_match_of(
                    m,
                    self,
                    game_config.tba.props@,
                ),
                Err(e) => match_error(self, game_config.tba.props@) == Some(e),
            },
    {
        let id = match level_id(self.comp_level.as_str(), self.set_number, self.match_number) {
            Some(id) => id,
            None => {
                return Err(TbaError::UnknownCompLevel);
            },
        };
        let teams_blue = match numbers_of_teams(&self.alliances.blue.team_keys) {
            Some(t) => t,
            None => {
                return Err(TbaError::BadTeamKey);
            },
        };
        let teams_red = match numbers_of_teams(&self.alliances.red.team_keys) {
            Some(t) => t,
            None => {
                return Err(TbaError::BadTeamKey);
            },
        };
        let (blue_values, red_values) = match &self.score_breakdown {
            Some(b) => (Some(&b.blue), Some(&b.red)),
            None => (None, None),
        };
        let blue = match custom_entries_for(game_config, blue_values) {
            Ok(e) => e,
            Err(e) => {
                return Err(e);
            },
        };
        let red = match custom_entries_for(game_config, red_values) {
            Ok(e) => e,
            Err(e) => {
                return Err(e);
            },
        };
        let score_blue = score(self.alliances.blue.score);
        let score_red = score(self.alliances.red.score);
        Ok(
            MatchInfo {
                id,
                start_time: match self.actual_time {
                    Some(t) => t,
                    None => match self.predicted_time {
                        Some(t) => t,
                        None => 0,
                    },
                },
                teams_blue,
                teams_red,
                result: result(&self.winning_alliance, score_blue, score_red),
                score_blue,
                score_red,
                rp_blue: ranking_points(blue_values),
                rp_red: ranking_points(red_values),
                custom_entries: CustomEntries { blue, red },
            },
        )
    }
}

/// The matches of the feed whose level is known, in their order. A match of
/// an unknown level is passed over.
pub open spec fn known_matches(raws: Seq<RawTbaMatch>) -> Seq<RawTbaMatch>
    decreases raws.len(),
{
    if raws.len() == 0 {
        Seq::empty()
    } else {
        let rest = known_matches(raws.drop_last());
        if comp_level_id(raws.last().comp_level@, raws.last().set_number, raws.last().match_number)
            is None {
            rest
        } else {
            rest.push(raws.last())
        }
    }
}

/// What is wrong with the first match of the feed that cannot be read,
/// though its level is known.
pub open spec fn first_error(raws: Seq<RawTbaMatch>, props: Seq<(Seq<char>, TbaMatchProp)>) -> Option<
    TbaError,
>
    decreases raws.len(),
{
    if raws.len() == 0 {
        None
    } else {
        match first_error(raws.drop_last(), props) {
            Some(e) => Some(e),
            None => match match_error(raws.last(), props) {
                Some(TbaError::UnknownCompLevel) => None,
                other => other,
            },
        }
    }
}

/// When each of the matches starts.
pub open spec fn start_times(raws: Seq<RawTbaMatch>) -> Seq<u64> {
    Seq::new(raws.len(), |i: int| start_time_of(raws[i].actual_time, raws[i].predicted_time))
}

/// One for a match that the team won.
pub open spec fn won(team: u32) -> spec_fn(MatchInfo) -> int {
    |m: MatchInfo|
        if (m.teams_blue@.contains(team) && m.result == MatchResult::Blue) || (
        m.teams_red@.contains(team) && m.result == MatchResult::Red) {
            1int
        } else {
            0int
        }
}

/// One for a match that the team lost.
pub open spec fn lost(team: u32) -> spec_fn(MatchInfo) -> int {
    |m: MatchInfo|
        if (m.teams_blue@.contains(team) && m.result == MatchResult::Red) || (
        m.teams_red@.contains(team) && m.result == MatchResult::Blue) {
            1int
        } else {
            0int
        }
}

/// One for a match that the team played and that ended in a tie.
pub open spec fn tied(team: u32) -> spec_fn(MatchInfo) -> int {
    |m: MatchInfo|
        if (m.teams_blue@.contains(team) || m.teams_red@.contains(team)) && m.result
            == MatchResult::Tie {
            1int
        } else {
            0int
        }
}

/// The ranking points that a match granted to the alliance of the team.
pub open spec fn granted(team: u32) -> spec_fn(MatchInfo) -> int {
    |m: MatchInfo|
        if m.teams_blue@.contains(team) {
            match m.rp_blue {
                Some(p) => p as int,
                None => 0,
            }
        } else if m.teams_red@.contains(team) {
            match m.rp_red {
                Some(p) => p as int,
                None => 0,
            }
        } else {
            0
        }
}

/// `n`, or the greatest 32-bit number where `n` is greater.
pub open spec fn capped(n: int) -> u32 {
    if n > u32::MAX {
        u32::MAX
    } else {
        n as u32
    }
}

/// `t` is the team that the feed names as `raw`, with its record over the
/// matches.
pub open spec fn is_team_of(t: TeamInfo, raw: RawTbaTeamInfo, matches: Seq<MatchInfo>) -> bool {
    &&& t.num == raw.num
    &&& t.name@ == raw.name@
    &&& t.has_avatar == raw.has_avatar
    &&& t.wins == capped(sum_over(matches, won(raw.num)))
    &&& t.losses == capped(sum_over(matches, lost(raw.num)))
    &&& t.ties == capped(sum_over(matches, tied(raw.num)))
    &&& t.ranking_points == capped(sum_over(matches, granted(raw.num)))
}

fn has_team(teams: &Vec<u32>, team: u32) -> (r: bool)
    ensures
        r == teams@.contains(team),
{
    let mut i: usize = 0;
    while i < teams.len()
        invariant
            i <= teams@.len(),
            forall|j: int| 0 <= j < i ==> teams@[j] != team,
        decreases teams@.len() - i,
    {
        if teams[i] == team {
            return true;
        }
        i += 1;
    }
    false
}

fn cap(n: u128) -> (r: u32)
    ensures
        r == capped(n as int),
{
    if n > u32::MAX as u128 {
        u32::MAX
    } else {
        n as u32
    }
}

fn team_with_record(raw: RawTbaTeamInfo, matches: &Vec<MatchInfo>) -> (r: TeamInfo)
    ensures
        is_team_of(r, raw, matches@),
{
    let team: u32 = raw.num;
    let mut wins: u128 = 0;
    let mut losses: u128 = 0;
    let mut ties: u128 = 0;
    let mut points: u128 = 0;
    let mut i: usize = 0;
    assert(matches@.take(0) =~= Seq::empty());
    while i < matches.len()
        invariant
            i <= matches@.len(),
            wins == sum_over(matches@.take(i as int), won(team)),
            losses == sum_over(matches@.take(i as int), lost(team)),
            ties == sum_over(matches@.take(i as int), tied(team)),
            points == sum_over(matches@.take(i as int), granted(team)),
            wins <= i,
            losses <= i,
            ties <= i,
            points <= i * 65535,
        decreases matches@.len() - i,
    {
        proof {
            let next = matches@.take(i + 1);
            assert(next.drop_last() =~= matches@.take(i as int));
            assert(next.last() == matches@[i as int]);
        }
        let m = &matches[i];
        let blue = has_team(&m.teams_blue, team);
        let red = has_team(&m.teams_red, team);
        if (blue && m.result == MatchResult::Blue) || (red && m.result == MatchResult::Red) {
            wins = wins + 1;
        }
        if (blue && m.result == MatchResult::Red) || (red && m.result == MatchResult::Blue) {
            losses = losses + 1;
        }
        if (blue || red) && m.result == MatchResult::Tie {
            ties = ties + 1;
        }
        let rp: Option<u16> = if blue {
            m.rp_blue
        } else if red {
            m.rp_red
        } else {
            None
        };
        match rp {
            Some(p) => {
                points = points + p as u128;
            },
            None => {},
        }
        i += 1;
    }
    assert(matches@.take(i as int) =~= matches@);
    TeamInfo {
        num: raw.num,
        name: raw.name,
        has_avatar: raw.has_avatar,
        wins: cap(wins),
        losses: cap(losses),
        ties: cap(ties),
        ranking_points: cap(points),
    }
}

impl EventInfo {
    /// Puts an event together from what the feed sends, fetched at the time
    /// `now`.
    ///
    /// The matches are those of the feed whose level is known, by the time
    /// at which they start, matches of one time in the order of the feed.
    /// Each team has its wins, losses, ties and ranking points over these
    /// matches. A match that cannot be read though its level is known is an
    /// error.
    pub fn new(
        match_infos: Vec<RawTbaMatch>,
        team_infos: Vec<RawTbaTeamInfo>,
        year: u32,
        event: &str,
        game_config: &GameConfig,
        now: u64,
    ) -> (r: Result<EventInfo, TbaError>)
        ensures
            match r {
                Err(e) => first_error(match_infos@, game_config.tba.props@) == Some(e),
                Ok(info) => {
                    let known = known_matches(match_infos@);
                    &&& first_error(match_infos@, game_config.tba.props@) is None
                    &&& info.year == year
                    &&& info.event@ == event@
                    &&& info.last_update == now
                    &&& info.match_infos@.len() == known.len()
                    &&& forall|i: int|
                        0 <= i < known.len() ==> is_match_of(
                            #[trigger] info.match_infos@[i],
                            known[stable_order(start_times(known))[i] as int],
                            game_config.tba.props@,
                        )
                    &&& info.team_infos@.len() == team_infos@.len()
                    &&& forall|i: int|
                        0 <= i < team_infos@.len() ==> is_team_of(
                            #[trigger] info.team_infos@[i],
                            team_infos@[i],
                            info.match_infos@,
                        )
                },
            },
    {
        let ghost raws = match_infos@;
        let ghost props = game_config.tba.props@;
        let mut read: Vec<MatchInfo> = Vec::new();
        let mut keys: Vec<u64> = Vec::new();
        assert(raws.take(0) =~= Seq::empty());
        for raw in it: match_infos
            invariant
                it.seq() == raws,
                props == game_config.tba.props@,
                raws == match_infos@,
                first_error(raws.take(it.index() as int), props) is None,
                read@.len() == known_matches(raws.take(it.index() as int)).len(),
                keys@ == start_times(known_matches(raws.take(it.index() as int))),
                forall|i: int|
                    0 <= i < read@.len() ==> is_match_of(
                        #[trigger] read@[i],
                        known_matches(raws.take(it.index() as int))[i],
                        props,
                    ),
        {
            let ghost done = it.index() as int;
            let ghost next = raws.take(done + 1);
            proof {
                assert(next.drop_last() =~= raws.take(done));
                assert(next.last() == raw);
            }
            let ghost known = known_matches(raws.take(done));
            let ghost level = comp_level_id(raw.comp_level@, raw.set_number, raw.match_number);
            match raw.into_match(game_config) {
                Ok(m) => {
                    assert(level is Some);
                    assert(known_matches(next) == known.push(raw));
                    assert(first_error(next, props) is None);
                    keys.push(m.start_time);
                    read.push(m);
                    assert(keys@ =~= start_times(known.push(raw)));
                },
                Err(TbaError::UnknownCompLevel) => {
                    assert(level is None);
                    assert(known_matches(next) == known);
                    assert(first_error(next, props) is None);
                },
                Err(e) => {
                    proof {
                        assert(first_error(next, props) == Some(e));
                        lemma_first_error(raws, props, done + 1);
                    }
                    return Err(e);
                },
            }
        }
        assert(raws.take(raws.len() as int) =~= raws);
        let ghost known = known_matches(raws);
        let ghost unsorted = read@;
        let sorted = arrange(read, &keys);
        assert forall|i: int| 0 <= i < known.len() implies is_match_of(
            #[trigger] sorted@[i],
            known[stable_order(start_times(known))[i] as int],
            props,
        ) by {
            assert(sorted@[i] == unsorted[stable_order(keys@)[i] as int]);
        }
        let mut teams: Vec<TeamInfo> = Vec::new();
        for raw in it: team_infos
            invariant
                it.seq() == team_infos@,
                teams@.len() == it.index(),
                forall|i: int|
                    0 <= i < teams@.len() ==> is_team_of(
                        #[trigger] teams@[i],
                        team_infos@[i],
                        sorted@,
                    ),
        {
            teams.push(team_with_record(raw, &sorted));
        }
        Ok(
            EventInfo {
                match_infos: sorted,
                team_infos: teams,
                event: String::from_str(event),
                year,
                last_update: now,
            },
        )
    }
}

proof fn lemma_first_error(raws: Seq<RawTbaMatch>, props: Seq<(Seq<char>, TbaMatchProp)>, i: int)
    requires
        0 <= i <= raws.len(),
        first_error(raws.take(i), props) is Some,
    ensures
        first_error(raws, props) == first_error(raws.take(i), props),
    decreases raws.len() - i,
{
    if i < raws.len() {
        assert(raws.take(i + 1).drop_last() =~= raws.take(i));
        lemma_first_error(raws, props, i + 1);
    } else {
        assert(raws.take(i) =~= raws);
    }
}

/// A team as the feed lists it for an event.
#[derive(Debug, Clone, PartialEq)]
pub struct RawTbaTeam {
    pub team_number: u32,
    pub name: Option<String>,
    pub nickname: Option<String>,
}

/// A picture of a team as the feed sends it.
#[derive(Debug, Clone, PartialEq)]
pub struct RawTbaImage {
    pub image_type: String,
    pub details: Option<RawTbaImageDetails>,
}

/// What the feed says of a picture.
#[derive(Debug, Clone, PartialEq)]
pub struct RawTbaImageDetails {
    pub base64_image: Option<String>,
}

/// Whether a number is that of a team that only stands in for another: the
/// numbers from 9990 to 9999 are.
pub open spec fn is_stand_in(number: u32) -> bool {
    9990 <= number <= 9999
}

/// The teams of an event that stand for themselves, in their order.
pub open spec fn real_teams(teams: Seq<RawTbaTeam>) -> Seq<RawTbaTeam>
    decreases teams.len(),
{
    if teams.len() == 0 {
        Seq::empty()
    } else {
        let rest = real_teams(teams.drop_last());
        if is_stand_in(teams.last().team_number) {
            rest
        } else {
            rest.push(teams.last())
        }
    }
}

/// Drops the teams that only stand in for others.
pub fn event_teams(teams: Vec<RawTbaTeam>) -> (r: Vec<RawTbaTeam>)
    ensures
        r@ == real_teams(teams@),
{
    let mut kept: Vec<RawTbaTeam> = Vec::new();
    assert(teams@.take(0) =~= Seq::empty());
    for team in it: teams
        invariant
            it.seq() == teams@,
            kept@ == real_teams(teams@.take(it.index() as int)),
    {
        proof {
            let next = teams@.take(it.index() + 1);
            assert(next.drop_last() =~= teams@.take(it.index() as int));
            assert(next.last() == team);
        }
        if !(team.team_number >= 9990 && team.team_number <= 9999) {
            kept.push(team);
        }
    }
    assert(teams@.take(teams@.len() as int) =~= teams@);
    kept
}

/// The name that a team goes by: its nickname, else its name, else
/// `unknown`.
pub open spec fn shown_name(team: RawTbaTeam) -> Seq<char> {
    match team.nickname {
        Some(n) => n@,
        None => match team.name {
            Some(n) => n@,
            None => "unknown"@,
        },
    }
}

impl RawTbaTeamInfo {
    /// A team of an event under the name it goes by.
    pub fn named(team: RawTbaTeam, has_avatar: bool) -> (r: Self)
        ensures
            r.num == team.team_number,
            r.name@ == shown_name(team),
            r.has_avatar == has_avatar,
    {
        let name = match team.nickname {
            Some(n) => n,
            None => match team.name {
                Some(n) => n,
                None => String::from_str("unknown"),
            },
        };
        RawTbaTeamInfo { num: team.team_number, name, has_avatar }
    }
}

/// What the standard base64 alphabet, with padding, decodes a text to;
/// nothing where the text is no encoding.
pub uninterp spec fn standard_decoding(text: Seq<char>) -> Option<Seq<u8>>;

/// `decode` of the `STANDARD` engine of the base64 crate: the bytes that the
/// text encodes, and nothing where the engine reports an error.
#[verifier::external_body]
fn decode_standard(text: &str) -> (r: Option<Vec<u8>>)
    ensures
        (match r {
            Some(v) => Some(v@),
            None => None,
        }) == standard_decoding(text@),
{
    base64::engine::general_purpose::STANDARD.decode(text).ok()
}

/// The encoded avatar among the pictures of a team: that of the first
/// picture that is an avatar and comes with an encoding.
pub open spec fn avatar_text(media: Seq<RawTbaImage>) -> Option<Seq<char>>
    decreases media.len(),
{
    if media.len() == 0 {
        None
    } else {
        match avatar_text(media.drop_last()) {
            Some(t) => Some(t),
            None => if media.last().image_type@ == "avatar"@ {
                match media.last().details {
                    Some(d) => crate::data::opt_text(d.base64_image),
                    None => None,
                }
            } else {
                None
            },
        }
    }
}

proof fn lemma_avatar_text_prefix(media: Seq<RawTbaImage>, i: int)
    requires
        0 <= i <= media.len(),
        avatar_text(media.take(i)) is Some,
    ensures
        avatar_text(media) == avatar_text(media.take(i)),
    decreases media.len() - i,
{
    if i < media.len() {
        assert(media.take(i + 1).drop_last() =~= media.take(i));
        lemma_avatar_text_prefix(media, i + 1);
    } else {
        assert(media.take(i) =~= media);
    }
}

/// The avatar of a team, decoded from the pictures that the feed sends of
/// it; none where no picture is an encoded avatar, or where the encoding of
/// the first such picture is broken.
pub fn avatar_of(media: &Vec<RawTbaImage>) -> (r: Option<Vec<u8>>)
    ensures
        (match r {
            Some(v) => Some(v@),
            None => None,
        }) == (match avatar_text(media@) {
            Some(t) => standard_decoding(t),
            None => None,
        }),
{
    let mut i: usize = 0;
    assert(media@.take(0) =~= Seq::empty());
    while i < media.len()
        invariant
            i <= media@.len(),
            avatar_text(media@.take(i as int)) is None,
        decreases media@.len() - i,
    {
        proof {
            let next = media@.take(i + 1);
            assert(next.drop_last() =~= media@.take(i as int));
            assert(next.last() == media@[i as int]);
        }
        if media[i].image_type.as_str().eq("avatar") {
            match &media[i].details {
                Some(d) => match &d.base64_image {
                    Some(text) => {
                        proof {
                            lemma_avatar_text_prefix(media@, i + 1);
                        }
                        return decode_standard(text.as_str());
                    },
                    None => {},
                },
                None => {},
            }
        }
        i += 1;
    }
    assert(media@.take(i as int) =~= media@);
    None
}

/// The cache of what the feed says: of events, and of the avatars of teams.
#[derive(Debug, Clone, PartialEq)]
pub struct Tba {
    events: StrMap<Slot<EventInfo>>,
    avatars: Vec<(u32, u32, Option<Vec<u8>>)>,
}

/// The place of the first avatar of a team in a year.
pub open spec fn avatar_index(avatars: Seq<(u32, u32, Option<Vec<u8>>)>, team: u32, year: u32) -> Option<
    int,
>
    decreases avatars.len(),
{
    if avatars.len() == 0 {
        None
    } else {
        match avatar_index(avatars.drop_last(), team, year) {
            Some(i) => Some(i),
            None => if avatars.last().0 == team && avatars.last().1 == year {
                Some(avatars.len() - 1)
            } else {
                None
            },
        }
    }
}

proof fn lemma_avatar_index(avatars: Seq<(u32, u32, Option<Vec<u8>>)>, team: u32, year: u32)
    ensures
        match avatar_index(avatars, team, year) {
            Some(i) => 0 <= i < avatars.len() && avatars[i].0 == team && avatars[i].1 == year
                && forall|j: int|
                0 <= j < i ==> !(avatars[j].0 == team && avatars[j].1 == year),
            None => forall|j: int|
                0 <= j < avatars.len() ==> !(avatars[j].0 == team && avatars[j].1 == year),
        },
    decreases avatars.len(),
{
    if avatars.len() > 0 {
        let front = avatars.drop_last();
        lemma_avatar_index(front, team, year);
        assert(forall|j: int| 0 <= j < front.len() ==> front[j] == avatars[j]);
    }
}

impl Tba {
    /// The slots of the events, by event.
    pub closed spec fn slots(&self) -> Seq<(Seq<char>, Slot<EventInfo>)> {
        self.events@
    }

    /// The slot of an event; an empty one where the cache has none for it.
    pub open spec fn slot(&self, event: Seq<char>) -> Slot<EventInfo> {
        match lookup(self.slots(), event) {
            Some(s) => s,
            None => Slot { value: None, loaded_at: 0, refreshing: false },
        }
    }

    /// The avatars that were asked for, by team and year. An avatar that was
    /// asked for and not found is kept as none, and not asked for again.
    pub closed spec fn known_avatars(&self) -> Seq<(u32, u32, Option<Vec<u8>>)> {
        self.avatars@
    }

    /// What is known of the avatar of a team in a year: nothing, or what
    /// asking for it has brought.
    pub open spec fn avatar(&self, team: u32, year: u32) -> Option<Option<Vec<u8>>> {
        match avatar_index(self.known_avatars(), team, year) {
            Some(i) => Some(self.known_avatars()[i].2),
            None => None,
        }
    }

    /// A cache that holds nothing yet.
    pub fn new() -> (r: Self)
        ensures
            r.slots().len() == 0,
            r.known_avatars().len() == 0,
    {
        Tba { events: StrMap::new(), avatars: Vec::new() }
    }

    /// The event that is cached.
    pub fn cached_event(&self, event: &str) -> (r: Option<&EventInfo>)
        ensures
            r == (match self.slot(event@).value {
                Some(v) => Some(&v),
                None => None,
            }),
    {
        match self.events.get(event) {
            Some(slot) => slot.cached(),
            None => None,
        }
    }

    /// Decides what a caller who asks for an event at the time `now` has to
    /// fetch. What is cached is served in any case; it is refreshed in the
    /// background where it is older than five minutes, by one fetch at a
    /// time.
    pub fn get_event(&mut self, event: &str, now: u64) -> (r: Fetch)
        ensures
            r == old(self).slot(event@).fetch_at(now),
            final(self).slot(event@) == old(self).slot(event@).after_get(now),
            forall|other: Seq<char>|
                other != event@ ==> final(self).slot(other) == old(self).slot(other),
            final(self).known_avatars() == old(self).known_avatars(),
    {
        match self.events.position(event) {
            Some(i) => {
                proof {
                    lemma_position(self.events@, event@);
                }
                let r = self.events.value_mut(i).get(now);
                proof {
                    let updated = self.events@[i as int].1;
                    assert(self.events@ =~= with_entry(old(self).events@, event@, updated));
                    assert forall|other: Seq<char>| other != event@ implies self.slot(other)
                        == old(self).slot(other) by {
                        lemma_lookup_insert(old(self).events@, event@, updated, other);
                    }
                    lemma_lookup_insert(old(self).events@, event@, updated, event@);
                }
                r
            },
            None => Fetch::Load,
        }
    }

    fn slot_of(&mut self, event: &str) -> (i: usize)
        ensures
            i < final(self).slots().len(),
            position(final(self).slots(), event@) == Some(i as int),
            forall|other: Seq<char>| final(self).slot(other) == old(self).slot(other),
            final(self).known_avatars() == old(self).known_avatars(),
    {
        match self.events.position(event) {
            Some(i) => i,
            None => {
                let i = self.events.len();
                self.events.insert(String::from_str(event), Slot::new());
                proof {
                    let empty = Slot::<EventInfo> { value: None, loaded_at: 0, refreshing: false };
                    assert forall|other: Seq<char>| self.slot(other) == old(self).slot(other) by {
                        lemma_lookup_insert(old(self).events@, event@, empty, other);
                    }
                    lemma_position(self.events@, event@);
                    lemma_position(old(self).events@, event@);
                    assert(self.events@.drop_last() =~= old(self).events@);
                }
                i
            },
        }
    }

    /// Caches the event that the caller of `get_event` has loaded.
    pub fn loaded(&mut self, event: &str, info: EventInfo)
        ensures
            final(self).slot(event@) == (Slot {
                value: Some(info),
                loaded_at: info.last_update,
                ..old(self).slot(event@)
            }),
            forall|other: Seq<char>|
                other != event@ ==> final(self).slot(other) == old(self).slot(other),
            final(self).known_avatars() == old(self).known_avatars(),
    {
        let i = self.slot_of(event);
        let ghost before = self.events@;
        proof {
            lemma_position(before, event@);
        }
        let now = info.last_update;
        self.events.value_mut(i).loaded(info, now);
        proof {
            let updated = self.events@[i as int].1;
            assert(self.events@ =~= with_entry(before, event@, updated));
            assert forall|other: Seq<char>| other != event@ implies self.slot(other) == old(
                self,
            ).slot(other) by {
                lemma_lookup_insert(before, event@, updated, other);
            }
            lemma_lookup_insert(before, event@, updated, event@);
        }
    }

    /// Takes the end of a fetch in the background for an event, with what it
    /// brought, if anything. The mark of the fetch is cleared either way.
    pub fn refreshed(&mut self, event: &str, fetched: Option<EventInfo>)
        ensures
            final(self).slot(event@) == old(self).slot(event@).after_refresh(
                fetched,
                match fetched {
                    Some(info) => info.last_update,
                    None => 0,
                },
            ),
            forall|other: Seq<char>|
                other != event@ ==> final(self).slot(other) == old(self).slot(other),
            final(self).known_avatars() == old(self).known_avatars(),
    {
        let i = self.slot_of(event);
        let ghost before = self.events@;
        proof {
            lemma_position(before, event@);
        }
        let now: u64 = match &fetched {
            Some(info) => info.last_update,
            None => 0,
        };
        self.events.value_mut(i).refreshed(fetched, now);
        proof {
            let updated = self.events@[i as int].1;
            assert(self.events@ =~= with_entry(before, event@, updated));
            assert forall|other: Seq<char>| other != event@ implies self.slot(other) == old(
                self,
            ).slot(other) by {
                lemma_lookup_insert(before, event@, updated, other);
            }
            lemma_lookup_insert(before, event@, updated, event@);
        }
    }

    /// What is known of the avatar of a team in a year.
    pub fn cached_avatar(&self, team: u32, year: u32) -> (r: Option<&Option<Vec<u8>>>)
        ensures
            r == (match self.avatar(team, year) {
                Some(a) => Some(&a),
                None => None,
            }),
    {
        let mut i: usize = 0;
        while i < self.avatars.len()
            invariant
                i <= self.avatars@.len(),
                forall|j: int|
                    0 <= j < i ==> !(self.avatars@[j].0 == team && self.avatars@[j].1 == year),
            decreases self.avatars@.len() - i,
        {
            if self.avatars[i].0 == team && self.avatars[i].1 == year {
                proof {
                    lemma_avatar_index(self.avatars@, team, year);
                }
                return Some(&self.avatars[i].2);
            }
            i += 1;
        }
        proof {
            lemma_avatar_index(self.avatars@, team, year);
        }
        None
    }

    /// Keeps what asking for the avatar of a team in a year has brought,
    /// unless something is kept for it already.
    pub fn store_avatar(&mut self, team: u32, year: u32, image: Option<Vec<u8>>)
        ensures
            final(self).avatar(team, year) == (match old(self).avatar(team, year) {
                Some(a) => Some(a),
                None => Some(image),
            }),
            forall|t: u32, y: u32|
                !(t == team && y == year) ==> final(self).avatar(t, y) == old(self).avatar(t, y),
            final(self).slots() == old(self).slots(),
    {
        if self.cached_avatar(team, year).is_none() {
            self.avatars.push((team, year, image));
            proof {
                assert(self.avatars@.drop_last() =~= old(self).avatars@);
                lemma_avatar_index(old(self).avatars@, team, year);
                assert forall|t: u32, y: u32| !(t == team && y == year) implies self.avatar(t, y)
                    == old(self).avatar(t, y) by {
                    lemma_avatar_index(old(self).avatars@, t, y);
                }
            }
        }
    }
}

} // verus!
