//! What scouts submit: one value per metric, each with the scout who recorded
//! it and the time of the change, gathered into one record per match and team.
use vstd::prelude::*;
use vstd::string::*;
use crate::str_map::{
    lemma_position, lemma_position_same_keys, lookup, position, with_entry, StrMap,
};
use crate::tally::sum_over;
use crate::text::{lemma_lex_total, lemma_lex_transitive, less, lex_less};

verus! {

/// How far a robot got with something it may be able to do.
#[derive(Debug, Clone, Copy, PartialEq, Eq, Structural)]
pub enum MatchAbilityValue {
    /// No attempt
    Nothing,
    /// Attempted, but did not succeed
    Attempted,
    /// Attempted and succeeded
    Succeeded,
}

/// Whether the robot did what it may be able to do.
#[derive(Debug, Clone, PartialEq)]
pub struct MatchAbilityEntry {
    pub value: MatchAbilityValue,
    /// The scout that recorded this value
    pub scout: String,
    /// The time of this change, so that old changes do not overwrite new ones
    pub timestamp_ms: u64,
}

/// One of a selection of options.
#[derive(Debug, Clone, PartialEq)]
pub struct MatchEnumEntry {
    pub value: String,
    pub scout: String,
    pub timestamp_ms: u64,
}

/// The answer to a yes/no question.
#[derive(Debug, Clone, PartialEq)]
pub struct MatchBoolEntry {
    pub value: bool,
    pub scout: String,
    pub timestamp_ms: u64,
}

/// An amount of real-world time.
#[derive(Debug, Clone, PartialEq)]
pub struct MatchTimerEntry {
    /// The measured time, in millionths of a second
    pub time_micros: i64,
    pub scout: String,
    pub timestamp_ms: u64,
}

/// An amount of things.
#[derive(Debug, Clone, PartialEq)]
pub struct CounterEntry {
    pub count: i32,
    pub scout: String,
    pub timestamp_ms: u64,
}

/// A text, with its sentiment score.
#[derive(Debug, Clone, PartialEq)]
pub struct TextFieldEntry {
    /// The text gathered from the user
    pub text: String,
    /// The sentiment score of the text, in millionths
    pub sentiment: i64,
    pub scout: String,
    pub timestamp_ms: u64,
}

/// A picture by its id.
#[derive(Debug, Clone, PartialEq)]
pub struct ImageEntryItem {
    /// The unique ID for this image
    pub image_id: String,
    /// The format mime type of the image, e.g. `image/png`
    pub image_mime: String,
}

/// Pictures.
#[derive(Debug, Clone, PartialEq)]
pub struct ImageEntry {
    pub images: Vec<ImageEntryItem>,
    pub scout: String,
    pub timestamp_ms: u64,
}

/// An image as a client uploads it.
#[derive(Debug, Clone, PartialEq)]
pub struct ImageEntryData {
    pub image_id: String,
    pub image_mime: String,
    /// The encoded image
    pub image_data: Vec<u8>,
}

/// One submitted value.
#[derive(Debug, Clone, PartialEq)]
pub enum MatchEntryValue {
    /// Whether the robot has the ability to do something
    Ability(MatchAbilityEntry),
    /// One of a selection of options
    Enum(MatchEnumEntry),
    /// The answer to a yes/no question
    Bool(MatchBoolEntry),
    /// An amount of things
    Counter(CounterEntry),
    /// A text
    TextEntry(TextFieldEntry),
    /// Pictures
    Image(ImageEntry),
    /// An amount of real-world time
    Timer(MatchTimerEntry),
}

/// What a value says, apart from who recorded it and when.
pub enum Payload {
    Ability(MatchAbilityValue),
    Enum(Seq<char>),
    Bool(bool),
    Counter(i32),
    TextEntry(Seq<char>),
    Image(Seq<(Seq<char>, Seq<char>)>),
    Timer(i64),
}

/// A submitted value as contracts see it.
pub struct EntryModel {
    pub payload: Payload,
    pub scout: Seq<char>,
    pub timestamp_ms: u64,
    /// The sentiment score of a text, in millionths; 0 for any other value
    pub sentiment: i64,
}

/// The identifiers and mime types of a list of images.
pub open spec fn image_list(images: Seq<ImageEntryItem>) -> Seq<(Seq<char>, Seq<char>)> {
    Seq::new(images.len(), |i: int| (images[i].image_id@, images[i].image_mime@))
}

impl View for MatchEntryValue {
    type V = EntryModel;

    open spec fn view(&self) -> EntryModel {
        match *self {
            MatchEntryValue::Ability(e) => EntryModel {
                payload: Payload::Ability(e.value),
                scout: e.scout@,
                timestamp_ms: e.timestamp_ms,
                sentiment: 0,
            },
            MatchEntryValue::Enum(e) => EntryModel {
                payload: Payload::Enum(e.value@),
                scout: e.scout@,
                timestamp_ms: e.timestamp_ms,
                sentiment: 0,
            },
            MatchEntryValue::Bool(e) => EntryModel {
                payload: Payload::Bool(e.value),
                scout: e.scout@,
                timestamp_ms: e.timestamp_ms,
                sentiment: 0,
            },
            MatchEntryValue::Counter(e) => EntryModel {
                payload: Payload::Counter(e.count),
                scout: e.scout@,
                timestamp_ms: e.timestamp_ms,
                sentiment: 0,
            },
            MatchEntryValue::TextEntry(e) => EntryModel {
                payload: Payload::TextEntry(e.text@),
                scout: e.scout@,
                timestamp_ms: e.timestamp_ms,
                sentiment: e.sentiment,
            },
            MatchEntryValue::Image(e) => EntryModel {
                payload: Payload::Image(image_list(e.images@)),
                scout: e.scout@,
                timestamp_ms: e.timestamp_ms,
                sentiment: 0,
            },
            MatchEntryValue::Timer(e) => EntryModel {
                payload: Payload::Timer(e.time_micros),
                scout: e.scout@,
                timestamp_ms: e.timestamp_ms,
                sentiment: 0,
            },
        }
    }
}

/// The models of a list of observations.
pub open spec fn models_of(points: Seq<&MatchEntryValue>) -> Seq<EntryModel> {
    Seq::new(points.len(), |i: int| points[i]@)
}

/// The model of an observation that may be missing.
pub open spec fn opt_model(v: Option<&MatchEntryValue>) -> Option<EntryModel> {
    match v {
        Some(v) => Some(v@),
        None => None,
    }
}

/// Whether two lists name the same images in the same order.
pub fn same_images(a: &Vec<ImageEntryItem>, b: &Vec<ImageEntryItem>) -> (r: bool)
    ensures
        r == (image_list(a@) == image_list(b@)),
{
    if a.len() != b.len() {
        assert(image_list(a@).len() != image_list(b@).len());
        return false;
    }
    let mut i: usize = 0;
    while i < a.len()
        invariant
            i <= a@.len(),
            a@.len() == b@.len(),
            forall|j: int| 0 <= j < i ==> image_list(a@)[j] == image_list(b@)[j],
        decreases a@.len() - i,
    {
        if a[i].image_id != b[i].image_id || a[i].image_mime != b[i].image_mime {
            assert(image_list(a@)[i as int] != image_list(b@)[i as int]);
            return false;
        }
        i += 1;
    }
    assert(image_list(a@) =~= image_list(b@));
    true
}

/// A copy of a list of images.
pub fn clone_images(images: &Vec<ImageEntryItem>) -> (r: Vec<ImageEntryItem>)
    ensures
        image_list(r@) == image_list(images@),
{
    let mut r: Vec<ImageEntryItem> = Vec::new();
    let mut i: usize = 0;
    while i < images.len()
        invariant
            i <= images@.len(),
            r@.len() == i,
            forall|j: int| 0 <= j < i ==> image_list(r@)[j] == image_list(images@)[j],
        decreases images@.len() - i,
    {
        r.push(
            ImageEntryItem {
                image_id: images[i].image_id.clone(),
                image_mime: images[i].image_mime.clone(),
            },
        );
        i += 1;
    }
    assert(image_list(r@) =~= image_list(images@));
    r
}

impl MatchEntryValue {
    /// A copy of the value.
    pub fn duplicate(&self) -> (r: MatchEntryValue)
        ensures
            r@ == self@,
    {
        match self {
            MatchEntryValue::Ability(e) => MatchEntryValue::Ability(
                MatchAbilityEntry {
                    value: e.value,
                    scout: e.scout.clone(),
                    timestamp_ms: e.timestamp_ms,
                },
            ),
            MatchEntryValue::Enum(e) => MatchEntryValue::Enum(
                MatchEnumEntry {
                    value: e.value.clone(),
                    scout: e.scout.clone(),
                    timestamp_ms: e.timestamp_ms,
                },
            ),
            MatchEntryValue::Bool(e) => MatchEntryValue::Bool(
                MatchBoolEntry {
                    value: e.value,
                    scout: e.scout.clone(),
                    timestamp_ms: e.timestamp_ms,
                },
            ),
            MatchEntryValue::Counter(e) => MatchEntryValue::Counter(
                CounterEntry {
                    count: e.count,
                    scout: e.scout.clone(),
                    timestamp_ms: e.timestamp_ms,
                },
            ),
            MatchEntryValue::TextEntry(e) => MatchEntryValue::TextEntry(
                TextFieldEntry {
                    text: e.text.clone(),
                    sentiment: e.sentiment,
                    scout: e.scout.clone(),
                    timestamp_ms: e.timestamp_ms,
                },
            ),
            MatchEntryValue::Image(e) => MatchEntryValue::Image(
                ImageEntry {
                    images: clone_images(&e.images),
                    scout: e.scout.clone(),
                    timestamp_ms: e.timestamp_ms,
                },
            ),
            MatchEntryValue::Timer(e) => MatchEntryValue::Timer(
                MatchTimerEntry {
                    time_micros: e.time_micros,
                    scout: e.scout.clone(),
                    timestamp_ms: e.timestamp_ms,
                },
            ),
        }
    }

    /// The scout who recorded the value.
    pub fn get_scout(&self) -> (r: &str)
        ensures
            r@ == self@.scout,
    {
        match self {
            MatchEntryValue::Ability(e) => e.scout.as_str(),
            MatchEntryValue::Enum(e) => e.scout.as_str(),
            MatchEntryValue::Bool(e) => e.scout.as_str(),
            MatchEntryValue::Counter(e) => e.scout.as_str(),
            MatchEntryValue::TextEntry(e) => e.scout.as_str(),
            MatchEntryValue::Image(e) => e.scout.as_str(),
            MatchEntryValue::Timer(e) => e.scout.as_str(),
        }
    }

    /// Names `new_scout` as the scout where the value names none.
    pub fn set_scout_if_blank(&mut self, new_scout: &str)
        ensures
            final(self)@ == (EntryModel {
                scout: if old(self)@.scout.len() == 0 {
                    new_scout@
                } else {
                    old(self)@.scout
                },
                ..old(self)@
            }),
    {
        if self.get_scout().unicode_len() == 0 {
            let name = String::from_str(new_scout);
            match self {
                MatchEntryValue::Ability(e) => {
                    e.scout = name;
                },
                MatchEntryValue::Enum(e) => {
                    e.scout = name;
                },
                MatchEntryValue::Bool(e) => {
                    e.scout = name;
                },
                MatchEntryValue::Counter(e) => {
                    e.scout = name;
                },
                MatchEntryValue::TextEntry(e) => {
                    e.scout = name;
                },
                MatchEntryValue::Image(e) => {
                    e.scout = name;
                },
                MatchEntryValue::Timer(e) => {
                    e.scout = name;
                },
            }
        }
    }

    /// The time of the change, in milliseconds.
    pub fn get_timestamp(&self) -> (r: u64)
        ensures
            r == self@.timestamp_ms,
    {
        match self {
            MatchEntryValue::Ability(e) => e.timestamp_ms,
            MatchEntryValue::Enum(e) => e.timestamp_ms,
            MatchEntryValue::Bool(e) => e.timestamp_ms,
            MatchEntryValue::Counter(e) => e.timestamp_ms,
            MatchEntryValue::TextEntry(e) => e.timestamp_ms,
            MatchEntryValue::Image(e) => e.timestamp_ms,
            MatchEntryValue::Timer(e) => e.timestamp_ms,
        }
    }

    /// Stamps the value with `new_timestamp_ms` where it carries no time.
    pub fn set_timestamp_if_blank(&mut self, new_timestamp_ms: u64)
        ensures
            final(self)@ == (EntryModel {
                timestamp_ms: if old(self)@.timestamp_ms == 0 {
                    new_timestamp_ms
                } else {
                    old(self)@.timestamp_ms
                },
                ..old(self)@
            }),
    {
        if self.get_timestamp() == 0 {
            match self {
                MatchEntryValue::Ability(e) => {
                    e.timestamp_ms = new_timestamp_ms;
                },
                MatchEntryValue::Enum(e) => {
                    e.timestamp_ms = new_timestamp_ms;
                },
                MatchEntryValue::Bool(e) => {
                    e.timestamp_ms = new_timestamp_ms;
                },
                MatchEntryValue::Counter(e) => {
                    e.timestamp_ms = new_timestamp_ms;
                },
                MatchEntryValue::TextEntry(e) => {
                    e.timestamp_ms = new_timestamp_ms;
                },
                MatchEntryValue::Image(e) => {
                    e.timestamp_ms = new_timestamp_ms;
                },
                MatchEntryValue::Timer(e) => {
                    e.timestamp_ms = new_timestamp_ms;
                },
            }
        }
    }

    /// Whether the two values say different things: they are of different
    /// kinds, or of one kind with different contents. Scout and time do not
    /// count.
    pub fn is_different(&self, other: &MatchEntryValue) -> (r: bool)
        ensures
            r == (self@.payload != other@.payload),
    {
        match (self, other) {
            (MatchEntryValue::Ability(a), MatchEntryValue::Ability(b)) => a.value != b.value,
            (MatchEntryValue::Enum(a), MatchEntryValue::Enum(b)) => a.value != b.value,
            (MatchEntryValue::Bool(a), MatchEntryValue::Bool(b)) => a.value != b.value,
            (MatchEntryValue::Counter(a), MatchEntryValue::Counter(b)) => a.count != b.count,
            (MatchEntryValue::TextEntry(a), MatchEntryValue::TextEntry(b)) => a.text != b.text,
            (MatchEntryValue::Image(a), MatchEntryValue::Image(b)) => !same_images(
                &a.images,
                &b.images,
            ),
            (MatchEntryValue::Timer(a), MatchEntryValue::Timer(b)) => a.time_micros
                != b.time_micros,
            _ => true,
        }
    }
}

/// What the drive team said of one team in one match.
#[derive(Debug, Clone, PartialEq)]
pub struct DriverEntryIdData {
    pub match_id: String,
    pub team_id: String,
    pub data: MatchEntryData,
}

/// A record of the drive team that a client knows, with the time it knows.
#[derive(Debug, Clone, PartialEq)]
pub struct DriverEntryTimedId {
    pub match_id: String,
    pub team_id: String,
    pub timestamp_ms: u64,
}

/// What was scouted of one team in one match.
#[derive(Debug, Clone, PartialEq)]
pub struct MatchEntryIdData {
    pub match_id: String,
    pub team_id: String,
    pub data: MatchEntryData,
}

/// A match record that a client knows, with the time it knows.
#[derive(Debug, Clone, PartialEq)]
pub struct MatchEntryTimedId {
    pub match_id: String,
    pub team_id: String,
    pub timestamp_ms: u64,
}

/// What was scouted of one team in the pits.
#[derive(Debug, Clone, PartialEq)]
pub struct PitEntryIdData {
    pub team_id: String,
    pub data: MatchEntryData,
}

/// A pit record that a client knows, with the time it knows.
#[derive(Debug, Clone, PartialEq)]
pub struct PitEntryTimedId {
    pub team_id: String,
    pub timestamp_ms: u64,
}

/// The values of one record: what was submitted for one team in one match,
/// or for one team in the pits.
#[derive(Debug, Clone, PartialEq)]
pub struct MatchEntryData {
    /// The submitted value of each metric, by the metric's id
    pub entries: StrMap<MatchEntryValue>,
    /// The scout of the whole record, as older clients stamp it
    pub scout: Option<String>,
    /// The time of the whole record, as older clients stamp it
    pub timestamp_ms: Option<u64>,
}

/// The fields of a record as contracts see them: metric ids with values.
pub type Fields = Seq<(Seq<char>, EntryModel)>;

/// A record as contracts see it.
pub struct RecordModel {
    pub entries: Fields,
    pub scout: Option<Seq<char>>,
    pub timestamp_ms: Option<u64>,
}

/// The fields of a map of values as contracts see them.
pub open spec fn fields_of(m: Seq<(Seq<char>, MatchEntryValue)>) -> Fields {
    Seq::new(m.len(), |i: int| (m[i].0, m[i].1@))
}

/// A key is found among the fields where it is found among the values.
pub proof fn lemma_fields_lookup(m: Seq<(Seq<char>, MatchEntryValue)>, k: Seq<char>)
    ensures
        position(fields_of(m), k) == position(m, k),
        lookup(fields_of(m), k) == (match lookup(m, k) {
            Some(v) => Some(v@),
            None => None,
        }),
{
    lemma_position_same_keys(fields_of(m), m, k);
    lemma_position(m, k);
}

/// The fields follow the values when one value is set.
pub proof fn lemma_fields_with_entry(m: Seq<(Seq<char>, MatchEntryValue)>, k: Seq<char>, v: MatchEntryValue)
    ensures
        fields_of(with_entry(m, k, v)) == with_entry(fields_of(m), k, v@),
{
    lemma_fields_lookup(m, k);
    lemma_position(m, k);
    assert(fields_of(with_entry(m, k, v)) =~= with_entry(fields_of(m), k, v@));
}

/// The characters of a string that may be missing.
pub open spec fn opt_text(s: Option<String>) -> Option<Seq<char>> {
    match s {
        Some(s) => Some(s@),
        None => None,
    }
}

impl View for MatchEntryData {
    type V = RecordModel;

    open spec fn view(&self) -> RecordModel {
        RecordModel {
            entries: fields_of(self.entries@),
            scout: opt_text(self.scout),
            timestamp_ms: self.timestamp_ms,
        }
    }
}

/// The field at `i` carries the latest time of all, and is the last to do so.
pub open spec fn is_latest(m: Fields, i: int) -> bool {
    &&& 0 <= i < m.len()
    &&& forall|j: int| 0 <= j < m.len() ==> m[j].1.timestamp_ms <= m[i].1.timestamp_ms
    &&& forall|j: int| i < j < m.len() ==> m[j].1.timestamp_ms < m[i].1.timestamp_ms
}

/// The scout named by the latest field of `m`, where `m` has a field.
pub open spec fn latest_scout(m: Fields) -> Option<Seq<char>> {
    if m.len() == 0 {
        None
    } else {
        Some(m[choose|i: int| is_latest(m, i)].1.scout)
    }
}

/// Two fields that are both the latest are one field.
pub proof fn lemma_latest_unique(m: Fields, i: int, j: int)
    requires
        is_latest(m, i),
        is_latest(m, j),
    ensures
        i == j,
{
}

/// The latest time that a field of `m` carries; 0 where `m` has no field.
pub open spec fn latest_timestamp(m: Fields) -> u64 {
    if m.len() == 0 {
        0
    } else {
        m[choose|i: int| is_latest(m, i)].1.timestamp_ms
    }
}

/// A copy of a map of values.
pub fn clone_entries(entries: &StrMap<MatchEntryValue>) -> (r: StrMap<MatchEntryValue>)
    ensures
        fields_of(r@) == fields_of(entries@),
{
    let mut r: StrMap<MatchEntryValue> = StrMap::new();
    let n: usize = entries.len();
    let mut i: usize = 0;
    while i < n
        invariant
            i <= n,
            n == entries@.len(),
            r@.len() == i,
            forall|j: int| 0 <= j < i ==> fields_of(r@)[j] == fields_of(entries@)[j],
        decreases n - i,
    {
        r.push(entries.key_at(i).clone(), entries.value_at(i).duplicate());
        i += 1;
    }
    assert(fields_of(r@) =~= fields_of(entries@));
    r
}

/// One for each field that the scout recorded.
pub open spec fn recorded_by(scout: Seq<char>) -> spec_fn((Seq<char>, EntryModel)) -> int {
    |f: (Seq<char>, EntryModel)|
        if f.1.scout == scout {
            1int
        } else {
            0int
        }
}

/// The scouts of a record with the number of fields that each recorded: the
/// scouts in the order of strings, each once.
pub open spec fn is_scout_list(fields: Fields, scouts: Seq<(String, usize)>) -> bool {
    &&& forall|i: int, j: int|
        0 <= i < j < scouts.len() ==> lex_less(scouts[i].0@, scouts[j].0@)
    &&& forall|i: int|
        0 <= i < scouts.len() ==> (#[trigger] scouts[i]).1 > 0 && scouts[i].1 == sum_over(
            fields,
            recorded_by(scouts[i].0@),
        )
    &&& forall|k: int|
        0 <= k < fields.len() ==> exists|i: int|
            0 <= i < scouts.len() && scouts[i].0@ == (#[trigger] fields[k]).1.scout
}

proof fn lemma_not_recorded(fields: Fields, scout: Seq<char>)
    requires
        forall|k: int| 0 <= k < fields.len() ==> (#[trigger] fields[k]).1.scout != scout,
    ensures
        sum_over(fields, recorded_by(scout)) == 0,
    decreases fields.len(),
{
    if fields.len() > 0 {
        let front = fields.drop_last();
        assert forall|k: int| 0 <= k < front.len() implies (#[trigger] front[k]).1.scout
            != scout by {
            assert(front[k] == fields[k]);
        }
        lemma_not_recorded(front, scout);
        assert(fields.last() == fields[fields.len() - 1]);
    }
}

proof fn lemma_recorded_bound(fields: Fields, scout: Seq<char>)
    ensures
        0 <= sum_over(fields, recorded_by(scout)) <= fields.len(),
    decreases fields.len(),
{
    if fields.len() > 0 {
        lemma_recorded_bound(fields.drop_last(), scout);
    }
}

impl MatchEntryData {
    /// The scouts of the record with the number of fields that each of them
    /// recorded, in the order of their names.
    pub fn get_scouts(&self) -> (r: Vec<(String, usize)>)
        ensures
            is_scout_list(self@.entries, r@),
    {
        let ghost fields = self@.entries;
        let mut scouts: Vec<(String, usize)> = Vec::new();
        let n: usize = self.entries.len();
        let mut k: usize = 0;
        assert(fields.take(0) =~= Seq::empty());
        while k < n
            invariant
                k <= n,
                n == fields.len(),
                fields == self@.entries,
                is_scout_list(fields.take(k as int), scouts@),
            decreases n - k,
        {
            let ghost done = fields.take(k as int);
            let ghost next = fields.take(k + 1);
            let ghost before = scouts@;
            let scout = self.entries.value_at(k).get_scout();
            proof {
                assert(next.drop_last() =~= done);
                assert(next.last() == fields[k as int]);
                assert(fields[k as int].1.scout == scout@);
                assert forall|i: int| 0 <= i < before.len() implies sum_over(
                    next,
                    recorded_by(before[i].0@),
                ) == sum_over(done, recorded_by(before[i].0@)) + (if before[i].0@ == scout@ {
                    1int
                } else {
                    0int
                }) by {}
                lemma_recorded_bound(next, scout@);
            }
            let mut p: usize = 0;
            while p < scouts.len() && less(scouts[p].0.as_str(), scout)
                invariant
                    p <= scouts@.len(),
                    scouts@ == before,
                    forall|i: int| 0 <= i < p ==> lex_less(before[i].0@, scout@),
                decreases scouts@.len() - p,
            {
                p += 1;
            }
            if p < scouts.len() && scouts[p].0.as_str().eq(scout) {
                proof {
                    let c = before[p as int].1;
                    assert(c == sum_over(done, recorded_by(scout@)));
                }
                let count: usize = scouts[p].1 + 1;
                scouts[p].1 = count;
                proof {
                    let after = scouts@;
                    assert forall|i: int, j: int| 0 <= i < j < after.len() implies lex_less(
                        after[i].0@,
                        after[j].0@,
                    ) by {
                        assert(after[i].0@ == before[i].0@ && after[j].0@ == before[j].0@);
                    }
                    assert forall|i: int| 0 <= i < after.len() implies (#[trigger] after[i]).1 > 0
                        && after[i].1 == sum_over(next, recorded_by(after[i].0@)) by {
                        assert(after[i].0@ == before[i].0@);
                        if i != p {
                            assert(after[i] == before[i]);
                            if i < p {
                                assert(lex_less(before[i].0@, before[p as int].0@));
                            } else {
                                assert(lex_less(before[p as int].0@, before[i].0@));
                            }
                            lemma_lex_total(before[i].0@, scout@);
                        }
                    }
                    assert forall|q: int| 0 <= q < next.len() implies exists|i: int|
                        0 <= i < after.len() && after[i].0@ == (#[trigger] next[q]).1.scout by {
                        if q < done.len() {
                            assert(next[q] == done[q]);
                            let i = choose|i: int|
                                0 <= i < before.len() && before[i].0@ == done[q].1.scout;
                            assert(after[i].0@ == before[i].0@);
                        } else {
                            assert(after[p as int].0@ == scout@);
                        }
                    }
                }
            } else {
                proof {
                    assert forall|q: int| 0 <= q < done.len() implies (#[trigger] done[q]).1.scout
                        != scout@ by {
                        let i = choose|i: int|
                            0 <= i < before.len() && before[i].0@ == done[q].1.scout;
                        if i < p {
                            lemma_lex_total(before[i].0@, scout@);
                        } else {
                            lemma_lex_total(before[p as int].0@, scout@);
                            if i > p {
                                lemma_lex_total(before[i].0@, scout@);
                                if lex_less(before[i].0@, scout@) {
                                    lemma_lex_transitive(
                                        before[p as int].0@,
                                        before[i].0@,
                                        scout@,
                                    );
                                }
                            }
                        }
                    }
                    lemma_not_recorded(done, scout@);
                }
                scouts.insert(p, (String::from_str(scout), 1));
                proof {
                    let after = scouts@;
                    assert forall|i: int, j: int| 0 <= i < j < after.len() implies lex_less(
                        after[i].0@,
                        after[j].0@,
                    ) by {
                        if j < p {
                            assert(after[i] == before[i] && after[j] == before[j]);
                        } else if j == p {
                            assert(after[i] == before[i]);
                        } else if i < p {
                            assert(after[i] == before[i] && after[j] == before[j - 1]);
                        } else if i == p {
                            assert(after[j] == before[j - 1]);
                            lemma_lex_total(before[p as int].0@, scout@);
                            if j - 1 > p {
                                lemma_lex_transitive(
                                    scout@,
                                    before[p as int].0@,
                                    before[j - 1].0@,
                                );
                            }
                        } else {
                            assert(after[i] == before[i - 1] && after[j] == before[j - 1]);
                        }
                    }
                    assert forall|i: int| 0 <= i < after.len() implies (#[trigger] after[i]).1 > 0
                        && after[i].1 == sum_over(next, recorded_by(after[i].0@)) by {
                        if i < p {
                            assert(after[i] == before[i]);
                            lemma_lex_total(before[i].0@, scout@);
                        } else if i > p {
                            assert(after[i] == before[i - 1]);
                            lemma_lex_total(before[i - 1].0@, scout@);
                            lemma_lex_total(before[p as int].0@, scout@);
                            if i - 1 > p && before[i - 1].0@ == scout@ {
                                assert(lex_less(before[p as int].0@, before[i - 1].0@));
                            }
                        }
                    }
                    assert forall|q: int| 0 <= q < next.len() implies exists|i: int|
                        0 <= i < after.len() && after[i].0@ == (#[trigger] next[q]).1.scout by {
                        if q < done.len() {
                            assert(next[q] == done[q]);
                            let i = choose|i: int|
                                0 <= i < before.len() && before[i].0@ == done[q].1.scout;
                            if i < p {
                                assert(after[i] == before[i]);
                            } else {
                                assert(after[i + 1] == before[i]);
                            }
                        } else {
                            assert(after[p as int].0@ == scout@);
                        }
                    }
                }
            }
            k += 1;
        }
        assert(fields.take(k as int) =~= fields);
        scouts
    }

    /// A copy of the record.
    pub fn duplicate(&self) -> (r: MatchEntryData)
        ensures
            r@ == self@,
    {
        MatchEntryData {
            entries: clone_entries(&self.entries),
            scout: crate::text::clone_opt_string(&self.scout),
            timestamp_ms: self.timestamp_ms,
        }
    }

    fn latest_index(&self) -> (r: usize)
        requires
            self.entries@.len() > 0,
        ensures
            is_latest(self@.entries, r as int),
    {
        let mut best: usize = 0;
        let mut best_time: u64 = self.entries.value_at(0).get_timestamp();
        let mut i: usize = 1;
        while i < self.entries.len()
            invariant
                1 <= i <= self.entries@.len(),
                best < i,
                best_time == self.entries@[best as int].1@.timestamp_ms,
                forall|j: int| 0 <= j < i ==> self.entries@[j].1@.timestamp_ms <= best_time,
                forall|j: int| best < j < i ==> self.entries@[j].1@.timestamp_ms < best_time,
            decreases self.entries@.len() - i,
        {
            let t: u64 = self.entries.value_at(i).get_timestamp();
            if t >= best_time {
                best = i;
                best_time = t;
            }
            i += 1;
        }
        best
    }

    /// The scout attached to the field that carries the latest time; of
    /// several such fields the last one counts. None where the record has no
    /// field.
    pub fn get_latest_scout(&self) -> (r: Option<String>)
        ensures
            opt_text(r) == latest_scout(self@.entries),
    {
        if self.entries.is_empty() {
            None
        } else {
            let i = self.latest_index();
            proof {
                let c = choose|c: int| is_latest(self@.entries, c);
                lemma_latest_unique(self@.entries, i as int, c);
            }
            Some(String::from_str(self.entries.value_at(i).get_scout()))
        }
    }

    /// The latest time that a field of the record carries; 0 where it has no
    /// field.
    pub fn get_timestamp(&self) -> (r: u64)
        ensures
            r == latest_timestamp(self@.entries),
    {
        if self.entries.is_empty() {
            0
        } else {
            let i = self.latest_index();
            proof {
                let c = choose|c: int| is_latest(self@.entries, c);
                lemma_latest_unique(self@.entries, i as int, c);
            }
            self.entries.value_at(i).get_timestamp()
        }
    }
}

/// A record as contracts see it: the match and the team it speaks of, and
/// its fields.
pub struct Record {
    pub match_id: Seq<char>,
    pub team_id: Seq<char>,
    pub fields: Fields,
}

/// The match records as contracts see them.
pub open spec fn match_records(entries: Seq<MatchEntryIdData>) -> Seq<Record> {
    Seq::new(
        entries.len(),
        |i: int|
            Record {
                match_id: entries[i].match_id@,
                team_id: entries[i].team_id@,
                fields: entries[i].data@.entries,
            },
    )
}

/// The records of the drive team as contracts see them.
pub open spec fn driver_records(entries: Seq<DriverEntryIdData>) -> Seq<Record> {
    Seq::new(
        entries.len(),
        |i: int|
            Record {
                match_id: entries[i].match_id@,
                team_id: entries[i].team_id@,
                fields: entries[i].data@.entries,
            },
    )
}

} // verus!
