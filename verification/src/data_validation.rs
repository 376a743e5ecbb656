//! The check of a submission against the fields that may be submitted.
use vstd::prelude::*;
use crate::config::match_entry::{MatchEntry, MatchEntryFields, MatchEntryType};
use crate::data::{
    fields_of, EntryModel, Fields, MatchEntryData, MatchEntryValue, Payload, RecordModel,
};
use crate::str_map::{entries_of, lookup, StrMap};

verus! {

/// Whether a value is of the kind that a field asks for.
pub open spec fn fits(t: MatchEntryType, p: Payload) -> bool {
    match (t, p) {
        (MatchEntryType::Ability(_), Payload::Ability(_)) => true,
        (MatchEntryType::Enum(_), Payload::Enum(_)) => true,
        (MatchEntryType::Bool(_), Payload::Bool(_)) => true,
        (MatchEntryType::Timer(_), Payload::Timer(_)) => true,
        (MatchEntryType::Counter(_), Payload::Counter(_)) => true,
        (MatchEntryType::TextEntry(_), Payload::TextEntry(_)) => true,
        (MatchEntryType::Image(_), Payload::Image(_)) => true,
        _ => false,
    }
}

/// Whether a submitted value may stay: its metric is a field, and the value
/// is of the kind of that field.
pub open spec fn is_valid(schema: Seq<(Seq<char>, MatchEntry)>, id: Seq<char>, v: EntryModel) -> bool {
    match lookup(schema, id) {
        Some(entry) => fits(entry.entry, v.payload),
        None => false,
    }
}

/// The submitted values that may stay, in their order.
pub open spec fn validated(fields: Fields, schema: Seq<(Seq<char>, MatchEntry)>) -> Fields
    decreases fields.len(),
{
    if fields.len() == 0 {
        Seq::empty()
    } else {
        let rest = validated(fields.drop_last(), schema);
        if is_valid(schema, fields.last().0, fields.last().1) {
            rest.push(fields.last())
        } else {
            rest
        }
    }
}

fn check(fields: &MatchEntryFields, id: &str, value: &MatchEntryValue) -> (r: bool)
    ensures
        r == is_valid(fields.entries@, id@, value@),
{
    match fields.entries.get(id) {
        Some(entry) => match (&entry.entry, value) {
            (MatchEntryType::Ability(_), MatchEntryValue::Ability(_)) => true,
            (MatchEntryType::Enum(_), MatchEntryValue::Enum(_)) => true,
            (MatchEntryType::Bool(_), MatchEntryValue::Bool(_)) => true,
            (MatchEntryType::Timer(_), MatchEntryValue::Timer(_)) => true,
            (MatchEntryType::Counter(_), MatchEntryValue::Counter(_)) => true,
            (MatchEntryType::TextEntry(_), MatchEntryValue::TextEntry(_)) => true,
            (MatchEntryType::Image(_), MatchEntryValue::Image(_)) => true,
            _ => false,
        },
        None => false,
    }
}

/// Drops from a submission every value whose metric is no field, or which is
/// of another kind than its field. What stays, stays as it is and in its
/// order.
pub fn validate_match(data: MatchEntryData, fields: &MatchEntryFields) -> (r: MatchEntryData)
    ensures
        r@ == (RecordModel { entries: validated(data@.entries, fields.entries@), ..data@ }),
{
    let ghost all = data@.entries;
    let MatchEntryData { entries, scout, timestamp_ms } = data;
    let items = entries.into_items();
    let mut kept: StrMap<MatchEntryValue> = StrMap::new();
    assert(all.take(0) =~= Seq::empty());
    assert(fields_of(kept@) =~= Seq::empty());
    for item in it: items
        invariant
            it.seq() == items@,
            fields_of(entries_of(items@)) == all,
            fields_of(kept@) == validated(all.take(it.index() as int), fields.entries@),
    {
        let ghost before = fields_of(kept@);
        let (id, value) = item;
        proof {
            let next = all.take(it.index() + 1);
            assert(next.drop_last() =~= all.take(it.index() as int));
            assert(entries_of(items@)[it.index() as int] == (id@, value));
            assert(next.last() == (id@, value@));
        }
        if check(fields, id.as_str(), &value) {
            kept.push(id, value);
            assert(fields_of(kept@) =~= before.push((id@, value@)));
        }
    }
    assert(all.take(all.len() as int) =~= all);
    MatchEntryData { entries: kept, scout, timestamp_ms }
}

} // verus!
