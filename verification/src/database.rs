//! The entry store's rules: how a submission is merged, field by field, into
//! the record that is stored under the same key, and the shape of the keys.
use vstd::prelude::*;
use vstd::string::*;
use vstd::utf8::{decode_utf8, encode_utf8, valid_utf8};
use crate::data::{
    fields_of, latest_scout, lemma_fields_lookup, lemma_fields_with_entry, opt_text,
    driver_records, match_records, DriverEntryIdData, EntryModel, Fields, MatchEntryData,
    MatchEntryIdData, Record, RecordModel,
};
use crate::str_map::{
    distinct_keys, entries_of, lemma_lookup_insert, lemma_position, lemma_position_is, lookup,
    with_entry, StrMap,
};

verus! {

/// Whether an incoming field takes the place of what is stored under its
/// metric: nothing is stored there, or the incoming field is strictly newer
/// and says something else.
pub open spec fn supersedes(incoming: EntryModel, stored: Option<EntryModel>) -> bool {
    match stored {
        None => true,
        Some(s) => incoming.timestamp_ms > s.timestamp_ms && incoming.payload != s.payload,
    }
}

/// The stored fields after the incoming fields have been merged into them,
/// one after the other.
pub open spec fn merged(stored: Fields, incoming: Fields) -> Fields
    decreases incoming.len(),
{
    if incoming.len() == 0 {
        stored
    } else {
        let before = merged(stored, incoming.drop_last());
        let (k, v) = incoming.last();
        if supersedes(v, lookup(before, k)) {
            with_entry(before, k, v)
        } else {
            before
        }
    }
}

/// How many of the incoming fields were taken over in the merge.
pub open spec fn changes(stored: Fields, incoming: Fields) -> nat
    decreases incoming.len(),
{
    if incoming.len() == 0 {
        0
    } else {
        let before = merged(stored, incoming.drop_last());
        let (k, v) = incoming.last();
        changes(stored, incoming.drop_last()) + if supersedes(v, lookup(before, k)) {
            1nat
        } else {
            0nat
        }
    }
}

/// What one metric holds after a merge, given what was stored for it and what
/// came in for it.
pub open spec fn merged_field(stored: Option<EntryModel>, incoming: Option<EntryModel>) -> Option<
    EntryModel,
> {
    match incoming {
        Some(v) => if supersedes(v, stored) {
            Some(v)
        } else {
            stored
        },
        None => stored,
    }
}

/// The fields that the store holds under a key after a submission, given
/// those it held before.
pub open spec fn stored_after(stored: Option<Fields>, incoming: Fields) -> Option<Fields> {
    if incoming.len() == 0 {
        stored
    } else {
        match stored {
            None => Some(incoming),
            Some(s) => Some(merged(s, incoming)),
        }
    }
}

/// The fields of a record that may be missing.
pub open spec fn fields_in(record: Option<MatchEntryData>) -> Option<Fields> {
    match record {
        Some(r) => Some(r@.entries),
        None => None,
    }
}

/// What became of a submission.
#[derive(Debug, Clone, PartialEq)]
pub enum MergeOutcome {
    /// The submission held no field: nothing is to be written.
    Ignored,
    /// No record was stored: the submission is to be stored as it came.
    Created { record: MatchEntryData, scout: String },
    /// `count` fields of the submission were new or newer: `record` is to be
    /// stored.
    Updated { record: MatchEntryData, scout: String, count: usize },
    /// The submission held nothing new: nothing is to be written.
    Unchanged { scout: String },
}

impl MergeOutcome {
    /// The record to write, where there is one.
    pub open spec fn written(self) -> Option<MatchEntryData> {
        match self {
            MergeOutcome::Created { record, .. } => Some(record),
            MergeOutcome::Updated { record, .. } => Some(record),
            _ => None,
        }
    }

    /// The record that the store holds after the submission, given the one
    /// that it held before.
    pub open spec fn kept(self, before: Option<MatchEntryData>) -> Option<MatchEntryData> {
        match self.written() {
            Some(record) => Some(record),
            None => before,
        }
    }

    /// The scout whom the submission is credited to.
    pub open spec fn credited(self) -> Option<Seq<char>> {
        match self {
            MergeOutcome::Created { scout, .. } => Some(scout@),
            MergeOutcome::Updated { scout, .. } => Some(scout@),
            MergeOutcome::Unchanged { scout } => Some(scout@),
            MergeOutcome::Ignored => None,
        }
    }

    /// The record to write, where there is one.
    pub fn to_write(self) -> (r: Option<MatchEntryData>)
        ensures
            r == self.written(),
    {
        match self {
            MergeOutcome::Created { record, .. } => Some(record),
            MergeOutcome::Updated { record, .. } => Some(record),
            _ => None,
        }
    }
}

/// A merge that takes nothing over leaves the stored fields as they were.
pub proof fn lemma_no_changes(stored: Fields, incoming: Fields)
    requires
        changes(stored, incoming) == 0,
    ensures
        merged(stored, incoming) == stored,
    decreases incoming.len(),
{
    if incoming.len() > 0 {
        lemma_no_changes(stored, incoming.drop_last());
    }
}

/// Merges a submission into the record stored under the same key.
///
/// A submission without fields is ignored. Where no record is stored, the
/// submission becomes the record. Otherwise each incoming field is stored if
/// its metric has no stored field yet, or if it is strictly newer than the
/// stored field and says something else; every other stored field stays, and
/// so do the stamps of the stored record.
pub fn get_merged_data(old_data: Option<MatchEntryData>, new_data: MatchEntryData) -> (r:
    MergeOutcome)
    ensures
        fields_in(r.kept(old_data)) == stored_after(fields_in(old_data), new_data@.entries),
        r.credited() == latest_scout(new_data@.entries),
        r is Ignored <==> new_data@.entries.len() == 0,
        r is Created <==> new_data@.entries.len() > 0 && old_data is None,
        r is Updated <==> new_data@.entries.len() > 0 && old_data is Some && changes(
            old_data->0@.entries,
            new_data@.entries,
        ) > 0,
        r matches MergeOutcome::Created { record, .. } ==> record == new_data,
        r matches MergeOutcome::Updated { record, count, .. } ==> record@ == (RecordModel {
            entries: merged(old_data->0@.entries, new_data@.entries),
            ..old_data->0@
        }) && count == changes(old_data->0@.entries, new_data@.entries),
{
    if new_data.entries.is_empty() {
        return MergeOutcome::Ignored;
    }
    let scout = match new_data.get_latest_scout() {
        Some(s) => s,
        None => String::new(),
    };
    let mut final_data = match old_data {
        None => {
            return MergeOutcome::Created { record: new_data, scout };
        },
        Some(old) => old,
    };
    let ghost stored = final_data@.entries;
    let ghost incoming = new_data.entries@;
    let items = new_data.entries.into_items();
    let total: usize = items.len();
    let mut count: usize = 0;
    assert(fields_of(incoming).take(0).len() == 0);
    for item in it: items
        invariant
            it.seq() == items@,
            items@.len() == total,
            entries_of(items@) == incoming,
            count <= it.index(),
            final_data@.entries == merged(stored, fields_of(incoming).take(it.index() as int)),
            count == changes(stored, fields_of(incoming).take(it.index() as int)),
            final_data.scout == old_data->0.scout,
            final_data.timestamp_ms == old_data->0.timestamp_ms,
    {
        let ghost before = final_data.entries@;
        let (id, new_value) = item;
        proof {
            let next = fields_of(incoming).take(it.index() + 1);
            assert(next.drop_last() =~= fields_of(incoming).take(it.index() as int));
            assert(incoming[it.index() as int] == (id@, new_value));
            assert(next.last() == (id@, new_value@));
            lemma_fields_lookup(before, id@);
            lemma_fields_with_entry(before, id@, new_value);
        }
        let replace = match final_data.entries.get(id.as_str()) {
            Some(old_value) => new_value.get_timestamp() > old_value.get_timestamp()
                && new_value.is_different(old_value),
            None => true,
        };
        if replace {
            final_data.entries.insert(id, new_value);
            count += 1;
        }
    }
    assert(fields_of(incoming).take(incoming.len() as int) =~= fields_of(incoming));
    proof {
        if count == 0 {
            lemma_no_changes(stored, fields_of(incoming));
        }
    }
    if count > 0 {
        MergeOutcome::Updated { record: final_data, scout, count }
    } else {
        MergeOutcome::Unchanged { scout }
    }
}

/// With no metric twice among the incoming fields, each metric holds after
/// the merge what the rule for one field gives it.
pub proof fn lemma_merged_lookup(stored: Fields, incoming: Fields, q: Seq<char>)
    requires
        distinct_keys(incoming),
    ensures
        lookup(merged(stored, incoming), q) == merged_field(lookup(stored, q), lookup(incoming, q)),
    decreases incoming.len(),
{
    if incoming.len() > 0 {
        let front = incoming.drop_last();
        let (k, v) = incoming.last();
        let before = merged(stored, front);
        lemma_merged_lookup(stored, front, q);
        lemma_merged_lookup(stored, front, k);
        lemma_position(front, k);
        lemma_position(front, q);
        lemma_position(incoming, q);
        lemma_lookup_insert(before, k, v, q);
    }
}

/// A merge keeps the stored metrics distinct.
pub proof fn lemma_merged_distinct(stored: Fields, incoming: Fields)
    requires
        distinct_keys(stored),
    ensures
        distinct_keys(merged(stored, incoming)),
    decreases incoming.len(),
{
    if incoming.len() > 0 {
        let (k, v) = incoming.last();
        lemma_merged_distinct(stored, incoming.drop_last());
        lemma_lookup_insert(merged(stored, incoming.drop_last()), k, v, k);
    }
}

/// Where no incoming field takes the place of what `stored` holds for its
/// metric, the merge changes nothing.
pub proof fn lemma_merge_nothing(stored: Fields, incoming: Fields)
    requires
        forall|i: int|
            0 <= i < incoming.len() ==> !supersedes(
                #[trigger] incoming[i].1,
                lookup(stored, incoming[i].0),
            ),
    ensures
        merged(stored, incoming) == stored,
        changes(stored, incoming) == 0,
    decreases incoming.len(),
{
    if incoming.len() > 0 {
        let front = incoming.drop_last();
        assert forall|i: int| 0 <= i < front.len() implies !supersedes(
            #[trigger] front[i].1,
            lookup(stored, front[i].0),
        ) by {
            assert(front[i] == incoming[i]);
        }
        lemma_merge_nothing(stored, front);
        assert(!supersedes(incoming[incoming.len() - 1].1, lookup(stored, incoming.last().0)));
    }
}

/// Merging is idempotent: a submission that is merged a second time, right
/// after the first, changes nothing, whether a record was stored before the
/// first merge or not.
pub proof fn lemma_merge_idempotent(stored: Option<Fields>, incoming: Fields)
    requires
        distinct_keys(incoming),
    ensures
        stored_after(stored_after(stored, incoming), incoming) == stored_after(stored, incoming),
        stored_after(stored, incoming) matches Some(s) ==> changes(s, incoming) == 0,
{
    if incoming.len() > 0 {
        let once = stored_after(stored, incoming)->0;
        assert forall|i: int| 0 <= i < incoming.len() implies !supersedes(
            #[trigger] incoming[i].1,
            lookup(once, incoming[i].0),
        ) by {
            let k = incoming[i].0;
            lemma_position_is(incoming, k, i);
            match stored {
                Some(s) => {
                    lemma_merged_lookup(s, incoming, k);
                },
                None => {},
            }
        }
        lemma_merge_nothing(once, incoming);
    } else {
        match stored {
            Some(s) => {
                lemma_merge_nothing(s, incoming);
            },
            None => {},
        }
    }
}

/// Merging is monotonic: where every incoming field for a metric is as old
/// as the stored field or older, the stored field stays, whatever the
/// incoming fields say.
pub proof fn lemma_merge_keeps_newer(stored: Fields, incoming: Fields, k: Seq<char>)
    requires
        lookup(stored, k) is Some,
        forall|i: int|
            0 <= i < incoming.len() && incoming[i].0 == k ==> (#[trigger] incoming[i]).1.timestamp_ms
                <= lookup(stored, k)->0.timestamp_ms,
    ensures
        lookup(merged(stored, incoming), k) == lookup(stored, k),
    decreases incoming.len(),
{
    if incoming.len() > 0 {
        let front = incoming.drop_last();
        let (lk, lv) = incoming.last();
        assert forall|i: int| 0 <= i < front.len() && front[i].0 == k implies (
        #[trigger] front[i]).1.timestamp_ms <= lookup(stored, k)->0.timestamp_ms by {
            assert(front[i] == incoming[i]);
        }
        lemma_merge_keeps_newer(stored, front, k);
        lemma_lookup_insert(merged(stored, front), lk, lv, k);
        assert(incoming[incoming.len() - 1] == incoming.last());
    }
}

/// A field after the stamps of its record have been handed down to it: the
/// record's scout where the field names none, the record's time where the
/// field carries none.
pub open spec fn tidied_field(v: EntryModel, scout: Option<Seq<char>>, timestamp_ms: Option<u64>) -> EntryModel {
    EntryModel {
        scout: match scout {
            Some(s) => if v.scout.len() == 0 {
                s
            } else {
                v.scout
            },
            None => v.scout,
        },
        timestamp_ms: match timestamp_ms {
            Some(t) => if v.timestamp_ms == 0 {
                t
            } else {
                v.timestamp_ms
            },
            None => v.timestamp_ms,
        },
        ..v
    }
}

/// A record after its own stamps have been handed down to its fields and
/// cleared.
pub open spec fn tidied(r: RecordModel) -> RecordModel {
    RecordModel {
        entries: Seq::new(
            r.entries.len(),
            |i: int| (r.entries[i].0, tidied_field(r.entries[i].1, r.scout, r.timestamp_ms)),
        ),
        scout: None,
        timestamp_ms: None,
    }
}

/// Hands the stamps of the whole record down to each field that lacks its
/// own, and clears them.
pub fn tidy_entry_data(data: MatchEntryData) -> (r: MatchEntryData)
    ensures
        r@ == tidied(data@),
{
    let MatchEntryData { entries, scout, timestamp_ms } = data;
    let mut entries = entries;
    let n: usize = entries.len();
    let mut i: usize = 0;
    while i < n
        invariant
            i <= n,
            n == entries@.len(),
            n == data.entries@.len(),
            scout == data.scout,
            timestamp_ms == data.timestamp_ms,
            forall|j: int| 0 <= j < n ==> entries@[j].0 == data.entries@[j].0,
            forall|j: int|
                0 <= j < i ==> entries@[j].1@ == tidied_field(
                    data.entries@[j].1@,
                    opt_text(data.scout),
                    data.timestamp_ms,
                ),
            forall|j: int| i <= j < n ==> entries@[j].1 == data.entries@[j].1,
        decreases n - i,
    {
        let value = entries.value_mut(i);
        match &scout {
            Some(s) => {
                value.set_scout_if_blank(s.as_str());
            },
            None => {},
        }
        match timestamp_ms {
            Some(t) => {
                value.set_timestamp_if_blank(t);
            },
            None => {},
        }
        i += 1;
    }
    let r = MatchEntryData { entries, scout: None, timestamp_ms: None };
    assert(r@.entries =~= tidied(data@).entries);
    r
}

/// The fields of a record that may be missing, with the stamps of the record
/// handed down to them.
pub open spec fn tidied_fields_in(record: Option<MatchEntryData>) -> Option<Fields> {
    match record {
        Some(r) => Some(tidied(r@).entries),
        None => None,
    }
}

/// A record whose stamps were handed down has none left to hand down.
pub proof fn lemma_tidied_twice(r: RecordModel)
    ensures
        tidied(tidied(r)) == tidied(r),
{
    assert(tidied(tidied(r)).entries =~= tidied(r).entries);
}

/// Takes a submission for the record stored under one key: the stamps of
/// both records are handed down to their fields, then the submission is
/// merged into the stored record.
pub fn set_entry(stored: Option<MatchEntryData>, incoming: MatchEntryData) -> (r: MergeOutcome)
    ensures
        tidied_fields_in(r.kept(stored)) == stored_after(
            tidied_fields_in(stored),
            tidied(incoming@).entries,
        ),
        r.credited() == latest_scout(tidied(incoming@).entries),
        r is Ignored <==> incoming@.entries.len() == 0,
        r is Created <==> incoming@.entries.len() > 0 && stored is None,
        r is Updated <==> incoming@.entries.len() > 0 && stored is Some && changes(
            tidied(stored->0@).entries,
            tidied(incoming@).entries,
        ) > 0,
        r matches MergeOutcome::Created { record, .. } ==> record@ == tidied(incoming@),
        r matches MergeOutcome::Updated { record, count, .. } ==> record@ == (RecordModel {
            entries: merged(tidied(stored->0@).entries, tidied(incoming@).entries),
            scout: None,
            timestamp_ms: None,
        }) && count == changes(tidied(stored->0@).entries, tidied(incoming@).entries),
{
    proof {
        lemma_tidied_twice(incoming@);
        if stored is Some {
            lemma_tidied_twice(stored->0@);
        }
    }
    let old = match stored {
        Some(s) => Some(tidy_entry_data(s)),
        None => None,
    };
    let r = get_merged_data(old, tidy_entry_data(incoming));
    proof {
        match r.written() {
            Some(record) => {
                assert(tidied(record@).entries =~= record@.entries);
            },
            None => {},
        }
    }
    r
}

/// The byte that parts the parts of a key. No text holds it.
pub const KEY_SEPARATOR: u8 = 255;

/// The size of an image as it is stored.
#[derive(Debug, Clone, Copy, PartialEq, Eq, Structural)]
pub enum ImageSize {
    Full,
    Small,
}

/// An image as it is stored.
#[derive(Debug, Clone, PartialEq)]
pub struct ImageData {
    pub mime_type: String,
    pub width: u32,
    pub height: u32,
    pub image_data: Vec<u8>,
}

/// The greatest width and height of the small copy of an image.
pub const IMAGE_SIZE_SMALL: u32 = 300;

/// The four bytes of a year, from the lowest.
pub open spec fn year_bytes(year: u32) -> Seq<u8> {
    seq![
        (year & 0xff) as u8,
        ((year >> 8) & 0xff) as u8,
        ((year >> 16) & 0xff) as u8,
        ((year >> 24) & 0xff) as u8,
    ]
}

/// What opens the key of every record of one kind of one event: the kind,
/// the year as four bytes from the lowest, and the event, each with the
/// separator behind it. All records of the kind and the event lie under it.
pub open spec fn entry_prefix(kind: Seq<char>, year: u32, event: Seq<char>) -> Seq<u8> {
    encode_utf8(kind) + seq![KEY_SEPARATOR] + year_bytes(year) + seq![KEY_SEPARATOR] + encode_utf8(
        event,
    ) + seq![KEY_SEPARATOR]
}

/// The key of the record of a team in a match.
pub open spec fn entry_key(
    kind: Seq<char>,
    year: u32,
    event: Seq<char>,
    match_id: Seq<char>,
    team: Seq<char>,
) -> Seq<u8> {
    entry_prefix(kind, year, event) + encode_utf8(match_id) + seq![KEY_SEPARATOR] + encode_utf8(
        team,
    )
}

/// The key of the pit record of a team: the place of the match is empty.
pub open spec fn pit_key(year: u32, event: Seq<char>, team: Seq<char>) -> Seq<u8> {
    entry_key("pit_entry"@, year, event, Seq::empty(), team)
}

/// The key of an image of a size.
pub open spec fn image_key_of(id: Seq<char>, size: ImageSize) -> Seq<u8> {
    match size {
        ImageSize::Full => encode_utf8("image-full:"@ + id),
        ImageSize::Small => encode_utf8("image-small:"@ + id),
    }
}

fn prefix(kind: &str, year: u32, event: &str) -> (r: Vec<u8>)
    ensures
        r@ == entry_prefix(kind@, year, event@),
{
    let mut bytes = kind.as_bytes_vec();
    bytes.push(KEY_SEPARATOR);
    bytes.push((year & 0xff) as u8);
    bytes.push(((year >> 8) & 0xff) as u8);
    bytes.push(((year >> 16) & 0xff) as u8);
    bytes.push(((year >> 24) & 0xff) as u8);
    bytes.push(KEY_SEPARATOR);
    let mut event_bytes = event.as_bytes_vec();
    bytes.append(&mut event_bytes);
    bytes.push(KEY_SEPARATOR);
    assert(bytes@ =~= entry_prefix(kind@, year, event@));
    bytes
}

fn key(kind: &str, year: u32, event: &str, match_id: &str, team: &str) -> (r: Vec<u8>)
    ensures
        r@ == entry_key(kind@, year, event@, match_id@, team@),
{
    let mut bytes = prefix(kind, year, event);
    let mut match_bytes = match_id.as_bytes_vec();
    bytes.append(&mut match_bytes);
    bytes.push(KEY_SEPARATOR);
    let mut team_bytes = team.as_bytes_vec();
    bytes.append(&mut team_bytes);
    assert(bytes@ =~= entry_key(kind@, year, event@, match_id@, team@));
    bytes
}

/// What opens the key of every record of the drive team of an event.
pub fn driver_entry_prefix(year: u32, event: &str) -> (r: Vec<u8>)
    ensures
        r@ == entry_prefix("driver_entry"@, year, event@),
{
    prefix("driver_entry", year, event)
}

/// The key of the record of the drive team of a team in a match.
pub fn driver_entry_key(year: u32, event: &str, match_id: &str, team: &str) -> (r: Vec<u8>)
    ensures
        r@ == entry_key("driver_entry"@, year, event@, match_id@, team@),
{
    key("driver_entry", year, event, match_id, team)
}

/// What opens the key of every match record of an event.
pub fn match_entry_prefix(year: u32, event: &str) -> (r: Vec<u8>)
    ensures
        r@ == entry_prefix("match_entry"@, year, event@),
{
    prefix("match_entry", year, event)
}

/// The key of the match record of a team in a match.
pub fn match_entry_key(year: u32, event: &str, match_id: &str, team: &str) -> (r: Vec<u8>)
    ensures
        r@ == entry_key("match_entry"@, year, event@, match_id@, team@),
{
    key("match_entry", year, event, match_id, team)
}

/// What opens the key of every pit record of an event.
pub fn pit_entry_prefix(year: u32, event: &str) -> (r: Vec<u8>)
    ensures
        r@ == entry_prefix("pit_entry"@, year, event@),
{
    prefix("pit_entry", year, event)
}

/// The key of the pit record of a team.
pub fn pit_entry_key(year: u32, event: &str, team: &str) -> (r: Vec<u8>)
    ensures
        r@ == pit_key(year, event@, team@),
{
    proof {
        reveal_strlit("");
        assert(""@ =~= Seq::<char>::empty());
    }
    key("pit_entry", year, event, "", team)
}

/// The key of an image of a size.
pub fn image_key(id: &str, size: ImageSize) -> (r: Vec<u8>)
    ensures
        r@ == image_key_of(id@, size),
{
    let mut name = match size {
        ImageSize::Full => String::from_str("image-full:"),
        ImageSize::Small => String::from_str("image-small:"),
    };
    name.append(id);
    name.as_str().as_bytes_vec()
}

/// Whether an image of this width and height gets a small copy of its own:
/// it does where it is wider or higher than the small size. Any other image
/// is its own small copy.
pub fn needs_small_copy(width: u32, height: u32) -> (r: bool)
    ensures
        r == (width > IMAGE_SIZE_SMALL || height > IMAGE_SIZE_SMALL),
{
    width > IMAGE_SIZE_SMALL || height > IMAGE_SIZE_SMALL
}

/// The parts of a key: what stands between its separators.
pub open spec fn key_parts(bytes: Seq<u8>) -> Seq<Seq<u8>>
    decreases bytes.len(),
{
    if bytes.len() == 0 {
        seq![Seq::empty()]
    } else {
        let rest = key_parts(bytes.drop_last());
        if bytes.last() == KEY_SEPARATOR {
            rest.push(Seq::empty())
        } else {
            rest.update(rest.len() - 1, rest.last().push(bytes.last()))
        }
    }
}

/// The byte strings of a list of byte vectors.
pub open spec fn parts_of(parts: Seq<Vec<u8>>) -> Seq<Seq<u8>> {
    Seq::new(parts.len(), |i: int| parts[i]@)
}

/// No byte of `bytes` is the separator.
pub open spec fn plain(bytes: Seq<u8>) -> bool {
    forall|i: int| 0 <= i < bytes.len() ==> bytes[i] != KEY_SEPARATOR
}

proof fn lemma_scalar_is_plain(c: u32)
    ensures
        plain(vstd::utf8::encode_scalar(c)),
{
    assert((c & 0x7F) as u8 != 255) by (bit_vector);
    assert(0xC0u8 | ((c >> 6) & 0x1F) as u8 != 255) by (bit_vector);
    assert(0xE0u8 | ((c >> 12) & 0x0F) as u8 != 255) by (bit_vector);
    assert(0xF0u8 | ((c >> 18) & 0x7) as u8 != 255) by (bit_vector);
    assert(0x80u8 | (c & 0x3F) as u8 != 255) by (bit_vector);
    assert(0x80u8 | ((c >> 6) & 0x3F) as u8 != 255) by (bit_vector);
    assert(0x80u8 | ((c >> 12) & 0x3F) as u8 != 255) by (bit_vector);
}

/// No text holds the separator.
pub proof fn lemma_text_is_plain(chars: Seq<char>)
    ensures
        plain(encode_utf8(chars)),
    decreases chars.len(),
{
    if chars.len() > 0 {
        lemma_scalar_is_plain(chars[0] as u32);
        lemma_text_is_plain(chars.drop_first());
    }
}

/// What holds no separator is one part.
pub proof fn lemma_parts_of_plain(bytes: Seq<u8>)
    requires
        plain(bytes),
    ensures
        key_parts(bytes) == seq![bytes],
    decreases bytes.len(),
{
    if bytes.len() > 0 {
        let front = bytes.drop_last();
        lemma_parts_of_plain(front);
        assert(front.push(bytes.last()) =~= bytes);
        assert(seq![front].update(0, bytes) =~= seq![bytes]);
    } else {
        assert(bytes =~= Seq::<u8>::empty());
    }
}

/// Behind a separator a new part begins, which what follows makes up as far
/// as it holds no separator.
pub proof fn lemma_parts_with_one_more(head: Seq<u8>, tail: Seq<u8>)
    requires
        plain(tail),
    ensures
        key_parts(head + seq![KEY_SEPARATOR] + tail) == key_parts(head).push(tail),
    decreases tail.len(),
{
    let whole = head + seq![KEY_SEPARATOR] + tail;
    if tail.len() == 0 {
        assert(whole.drop_last() =~= head);
        assert(tail =~= Seq::<u8>::empty());
    } else {
        let front = tail.drop_last();
        lemma_parts_with_one_more(head, front);
        assert(whole.drop_last() =~= head + seq![KEY_SEPARATOR] + front);
        assert(whole.last() == tail.last());
        let before = key_parts(head).push(front);
        assert(before.update(before.len() - 1, before.last().push(tail.last())) =~= key_parts(
            head,
        ).push(tail)) by {
            assert(front.push(tail.last()) =~= tail);
        }
    }
}

/// The bytes of a year below 65280 whose lowest byte is not the separator
/// hold no separator.
pub proof fn lemma_year_is_plain(year: u32)
    requires
        year < 65_280,
        year % 256 != 255,
    ensures
        plain(year_bytes(year)),
{
    assert(year < 65_280 && year % 256 != 255 ==> (year & 0xff) as u8 != 255 && ((year >> 8)
        & 0xff) as u8 != 255 && ((year >> 16) & 0xff) as u8 != 255 && ((year >> 24) & 0xff) as u8
        != 255) by (bit_vector);
    assert(year_bytes(year)[0] == (year & 0xff) as u8);
    assert(year_bytes(year)[1] == ((year >> 8) & 0xff) as u8);
    assert(year_bytes(year)[2] == ((year >> 16) & 0xff) as u8);
    assert(year_bytes(year)[3] == ((year >> 24) & 0xff) as u8);
}

/// The parts of the key of a record are the kind, the year, the event, the
/// match and the team, where no byte of the year is the separator: what
/// is written into a key is read back from it.
pub proof fn lemma_parts_of_key(
    kind: Seq<char>,
    year: u32,
    event: Seq<char>,
    match_id: Seq<char>,
    team: Seq<char>,
)
    requires
        plain(year_bytes(year)),
    ensures
        key_parts(entry_key(kind, year, event, match_id, team)) == seq![
            encode_utf8(kind),
            year_bytes(year),
            encode_utf8(event),
            encode_utf8(match_id),
            encode_utf8(team),
        ],
        decode_utf8(encode_utf8(match_id)) == match_id,
        decode_utf8(encode_utf8(team)) == team,
        valid_utf8(encode_utf8(match_id)),
        valid_utf8(encode_utf8(team)),
{
    lemma_text_is_plain(kind);
    lemma_text_is_plain(event);
    lemma_text_is_plain(match_id);
    lemma_text_is_plain(team);
    let a = encode_utf8(kind);
    let b = a + seq![KEY_SEPARATOR] + year_bytes(year);
    let c = b + seq![KEY_SEPARATOR] + encode_utf8(event);
    let d = c + seq![KEY_SEPARATOR] + encode_utf8(match_id);
    let e = d + seq![KEY_SEPARATOR] + encode_utf8(team);
    lemma_parts_of_plain(a);
    lemma_parts_with_one_more(a, year_bytes(year));
    lemma_parts_with_one_more(b, encode_utf8(event));
    lemma_parts_with_one_more(c, encode_utf8(match_id));
    lemma_parts_with_one_more(d, encode_utf8(team));
    assert(e =~= entry_key(kind, year, event, match_id, team));
    assert(key_parts(e) =~= seq![
        encode_utf8(kind),
        year_bytes(year),
        encode_utf8(event),
        encode_utf8(match_id),
        encode_utf8(team),
    ]);
    vstd::utf8::encode_utf8_valid_utf8(match_id);
    vstd::utf8::encode_utf8_valid_utf8(team);
    vstd::utf8::encode_utf8_decode_utf8(match_id);
    vstd::utf8::encode_utf8_decode_utf8(team);
}

/// Cuts a key into its parts.
pub fn split_key(key: &Vec<u8>) -> (r: Vec<Vec<u8>>)
    ensures
        parts_of(r@) == key_parts(key@),
{
    let mut parts: Vec<Vec<u8>> = Vec::new();
    let mut current: Vec<u8> = Vec::new();
    let mut i: usize = 0;
    assert(key@.take(0) =~= Seq::empty());
    assert(parts_of(parts@).push(current@) =~= seq![Seq::empty()]);
    while i < key.len()
        invariant
            i <= key@.len(),
            parts_of(parts@).push(current@) == key_parts(key@.take(i as int)),
        decreases key@.len() - i,
    {
        let ghost before = parts_of(parts@);
        let ghost part = current@;
        proof {
            let next = key@.take(i + 1);
            assert(next.drop_last() =~= key@.take(i as int));
            assert(next.last() == key@[i as int]);
        }
        if key[i] == KEY_SEPARATOR {
            parts.push(current);
            current = Vec::new();
            assert(parts_of(parts@).push(current@) =~= before.push(part).push(Seq::empty()));
        } else {
            current.push(key[i]);
            assert(parts_of(parts@).push(current@) =~= before.push(part).update(
                before.len() as int,
                part.push(key@[i as int]),
            ));
        }
        i += 1;
    }
    assert(key@.take(i as int) =~= key@);
    let ghost before = parts_of(parts@);
    let ghost part = current@;
    parts.push(current);
    assert(parts_of(parts@) =~= before.push(part));
    parts
}

/// The text that bytes are read as, with a mark in the place of whatever is
/// no text.
pub uninterp spec fn lossy_text(bytes: Seq<u8>) -> Seq<char>;

/// `String::from_utf8_lossy` of the standard library: the text that the
/// bytes encode where they are UTF-8, and in any case a text that depends on
/// the bytes alone.
#[verifier::external_body]
fn text_of_bytes(bytes: &Vec<u8>) -> (r: String)
    ensures
        r@ == lossy_text(bytes@),
        valid_utf8(bytes@) ==> r@ == decode_utf8(bytes@),
{
    String::from_utf8_lossy(bytes).into_owned()
}

/// The match and the team that the key of a match record, or of a record of
/// the drive team, names: its fourth and fifth part. None where the key has
/// fewer parts.
pub fn parse_entry_key(key: &Vec<u8>) -> (r: Option<(String, String)>)
    ensures
        r is Some <==> key_parts(key@).len() >= 5,
        r matches Some((match_id, team_id)) ==> match_id@ == lossy_text(key_parts(key@)[3])
            && team_id@ == lossy_text(key_parts(key@)[4]),
        r matches Some((match_id, team_id)) ==> (valid_utf8(key_parts(key@)[3]) ==> match_id@
            == decode_utf8(key_parts(key@)[3])) && (valid_utf8(key_parts(key@)[4])
            ==> team_id@ == decode_utf8(key_parts(key@)[4])),
{
    let parts = split_key(key);
    if parts.len() >= 5 {
        assert(parts_of(parts@)[3] == parts@[3]@ && parts_of(parts@)[4] == parts@[4]@);
        Some((text_of_bytes(&parts[3]), text_of_bytes(&parts[4])))
    } else {
        None
    }
}

/// The team that the key of a pit record names: its fifth part. None where
/// the key has fewer parts.
pub fn parse_pit_entry_key(key: &Vec<u8>) -> (r: Option<String>)
    ensures
        r is Some <==> key_parts(key@).len() >= 5,
        r matches Some(team_id) ==> team_id@ == lossy_text(key_parts(key@)[4]),
{
    match parse_entry_key(key) {
        Some((_, team_id)) => Some(team_id),
        None => None,
    }
}

/// The match record that is stored under a key: the match and the team
/// that the key names, with the record, its stamps handed down to its
/// fields. None where the key names no match and team.
pub fn get_match_entry(key: &Vec<u8>, data: MatchEntryData) -> (r: Option<MatchEntryIdData>)
    ensures
        r is Some <==> key_parts(key@).len() >= 5,
        r matches Some(e) ==> e.match_id@ == lossy_text(key_parts(key@)[3]) && e.team_id@
            == lossy_text(key_parts(key@)[4]) && e.data@ == tidied(data@),
{
    match parse_entry_key(key) {
        Some((match_id, team_id)) => Some(
            MatchEntryIdData { match_id, team_id, data: tidy_entry_data(data) },
        ),
        None => None,
    }
}

/// The record of the drive team that is stored under a key.
pub fn get_driver_entry(key: &Vec<u8>, data: MatchEntryData) -> (r: Option<DriverEntryIdData>)
    ensures
        r is Some <==> key_parts(key@).len() >= 5,
        r matches Some(e) ==> e.match_id@ == lossy_text(key_parts(key@)[3]) && e.team_id@
            == lossy_text(key_parts(key@)[4]) && e.data@ == tidied(data@),
{
    match parse_entry_key(key) {
        Some((match_id, team_id)) => Some(
            DriverEntryIdData { match_id, team_id, data: tidy_entry_data(data) },
        ),
        None => None,
    }
}

/// The pit record that is stored under a key, with the team that the key
/// names.
pub fn get_pit_entry(key: &Vec<u8>, data: MatchEntryData) -> (r: Option<(String, MatchEntryData)>)
    ensures
        r is Some <==> key_parts(key@).len() >= 5,
        r matches Some((team_id, record)) ==> team_id@ == lossy_text(key_parts(key@)[4])
            && record@ == tidied(data@),
{
    match parse_pit_entry_key(key) {
        Some(team_id) => Some((team_id, tidy_entry_data(data))),
        None => None,
    }
}

/// What is stored of one kind of records of an event, as it is read: keys
/// with records.
pub type Rows = Seq<(Seq<u8>, RecordModel)>;

/// The rows of a list of keys with records.
pub open spec fn rows_of(rows: Seq<(Vec<u8>, MatchEntryData)>) -> Rows {
    Seq::new(rows.len(), |i: int| (rows[i].0@, rows[i].1@))
}

/// The records that the rows hold, in their order: each with the match and
/// the team that its key names, its stamps handed down to its fields. A row
/// whose key names no match and team is passed over.
pub open spec fn stored_records(rows: Rows) -> Seq<Record>
    decreases rows.len(),
{
    if rows.len() == 0 {
        Seq::empty()
    } else {
        let rest = stored_records(rows.drop_last());
        let (key, record) = rows.last();
        if key_parts(key).len() >= 5 {
            rest.push(
                Record {
                    match_id: lossy_text(key_parts(key)[3]),
                    team_id: lossy_text(key_parts(key)[4]),
                    fields: tidied(record).entries,
                },
            )
        } else {
            rest
        }
    }
}

/// The pit records that the rows hold, by team: of two rows of one team the
/// later one counts.
pub open spec fn stored_pit_records(rows: Rows) -> Seq<(Seq<char>, RecordModel)>
    decreases rows.len(),
{
    if rows.len() == 0 {
        Seq::empty()
    } else {
        let rest = stored_pit_records(rows.drop_last());
        let (key, record) = rows.last();
        if key_parts(key).len() >= 5 {
            with_entry(rest, lossy_text(key_parts(key)[4]), tidied(record))
        } else {
            rest
        }
    }
}

/// All match records of an event, from the rows that are stored under the
/// prefix of the event.
pub fn get_all_match_entries(rows: Vec<(Vec<u8>, MatchEntryData)>) -> (r: Vec<MatchEntryIdData>)
    ensures
        match_records(r@) == stored_records(rows_of(rows@)),
{
    let ghost all = rows_of(rows@);
    let mut entries: Vec<MatchEntryIdData> = Vec::new();
    assert(all.take(0) =~= Seq::empty());
    assert(match_records(entries@) =~= Seq::empty());
    for row in it: rows
        invariant
            it.seq() == rows@,
            all == rows_of(rows@),
            match_records(entries@) == stored_records(all.take(it.index() as int)),
    {
        let ghost before = match_records(entries@);
        let (key, data) = row;
        proof {
            let next = all.take(it.index() + 1);
            assert(next.drop_last() =~= all.take(it.index() as int));
            assert(next.last() == (key@, data@));
        }
        match get_match_entry(&key, data) {
            Some(entry) => {
                entries.push(entry);
                assert(match_records(entries@) =~= before.push(
                    Record {
                        match_id: entry.match_id@,
                        team_id: entry.team_id@,
                        fields: entry.data@.entries,
                    },
                ));
            },
            None => {},
        }
    }
    assert(all.take(all.len() as int) =~= all);
    entries
}

/// All records of the drive team of an event, from the rows that are stored
/// under the prefix of the event.
pub fn get_all_driver_entries(rows: Vec<(Vec<u8>, MatchEntryData)>) -> (r: Vec<DriverEntryIdData>)
    ensures
        driver_records(r@) == stored_records(rows_of(rows@)),
{
    let ghost all = rows_of(rows@);
    let mut entries: Vec<DriverEntryIdData> = Vec::new();
    assert(all.take(0) =~= Seq::empty());
    assert(driver_records(entries@) =~= Seq::empty());
    for row in it: rows
        invariant
            it.seq() == rows@,
            all == rows_of(rows@),
            driver_records(entries@) == stored_records(all.take(it.index() as int)),
    {
        let ghost before = driver_records(entries@);
        let (key, data) = row;
        proof {
            let next = all.take(it.index() + 1);
            assert(next.drop_last() =~= all.take(it.index() as int));
            assert(next.last() == (key@, data@));
        }
        match get_driver_entry(&key, data) {
            Some(entry) => {
                entries.push(entry);
                assert(driver_records(entries@) =~= before.push(
                    Record {
                        match_id: entry.match_id@,
                        team_id: entry.team_id@,
                        fields: entry.data@.entries,
                    },
                ));
            },
            None => {},
        }
    }
    assert(all.take(all.len() as int) =~= all);
    entries
}

/// The records of a map as contracts see them.
pub open spec fn records_of(entries: Seq<(Seq<char>, MatchEntryData)>) -> Seq<
    (Seq<char>, RecordModel),
> {
    crate::str_map::mapped(entries, |r: MatchEntryData| r@)
}

/// All pit records of an event by team, from the rows that are stored under
/// the prefix of the event.
pub fn get_all_pit_entries(rows: Vec<(Vec<u8>, MatchEntryData)>) -> (r: StrMap<MatchEntryData>)
    ensures
        records_of(r@) == stored_pit_records(rows_of(rows@)),
{
    let ghost all = rows_of(rows@);
    let ghost view = |r: MatchEntryData| r@;
    let mut entries: StrMap<MatchEntryData> = StrMap::new();
    assert(all.take(0) =~= Seq::empty());
    assert(records_of(entries@) =~= Seq::empty());
    for row in it: rows
        invariant
            it.seq() == rows@,
            all == rows_of(rows@),
            view == (|r: MatchEntryData| r@),
            records_of(entries@) == stored_pit_records(all.take(it.index() as int)),
    {
        let ghost before = entries@;
        let (key, data) = row;
        proof {
            let next = all.take(it.index() + 1);
            assert(next.drop_last() =~= all.take(it.index() as int));
            assert(next.last() == (key@, data@));
        }
        match get_pit_entry(&key, data) {
            Some((team_id, record)) => {
                proof {
                    crate::str_map::lemma_with_entry_mapped(before, team_id@, record, view);
                }
                entries.insert(team_id, record);
            },
            None => {},
        }
    }
    assert(all.take(all.len() as int) =~= all);
    entries
}

} // verus!
