//! What the interface of the server decides before it answers: which records
//! are news to a client, and which match a path names.
use vstd::prelude::*;
use vstd::string::*;
use crate::data::{
    latest_timestamp, DriverEntryIdData, DriverEntryTimedId, MatchEntryData, MatchEntryIdData,
    MatchEntryTimedId, PitEntryIdData, PitEntryTimedId,
};
use crate::str_map::{entries_of, StrMap};
use crate::tba::{MatchId, SetMatch};

verus! {

/// The time that a client knows of the record of a team in a match: that of
/// the last of its notes that names them.
pub open spec fn known_time(
    known: Seq<(Seq<char>, Seq<char>, u64)>,
    match_id: Seq<char>,
    team_id: Seq<char>,
) -> Option<u64>
    decreases known.len(),
{
    if known.len() == 0 {
        None
    } else if known.last().0 == match_id && known.last().1 == team_id {
        Some(known.last().2)
    } else {
        known_time(known.drop_last(), match_id, team_id)
    }
}

/// Whether a record is news to a client: the client knows nothing of it, or
/// the record has a field that is newer than what the client knows.
pub open spec fn is_news(
    known: Seq<(Seq<char>, Seq<char>, u64)>,
    match_id: Seq<char>,
    team_id: Seq<char>,
    data: MatchEntryData,
) -> bool {
    match known_time(known, match_id, team_id) {
        None => true,
        Some(t) => latest_timestamp(data@.entries) > t,
    }
}

/// What a client knows of match records.
pub open spec fn known_matches(known: Seq<MatchEntryTimedId>) -> Seq<(Seq<char>, Seq<char>, u64)> {
    Seq::new(known.len(), |i: int| (known[i].match_id@, known[i].team_id@, known[i].timestamp_ms))
}

/// What a client knows of records of the drive team.
pub open spec fn known_drivers(known: Seq<DriverEntryTimedId>) -> Seq<(Seq<char>, Seq<char>, u64)> {
    Seq::new(known.len(), |i: int| (known[i].match_id@, known[i].team_id@, known[i].timestamp_ms))
}

/// What a client knows of pit records. No match stands in a pit record.
pub open spec fn known_pits(known: Seq<PitEntryTimedId>) -> Seq<(Seq<char>, Seq<char>, u64)> {
    Seq::new(known.len(), |i: int| (Seq::empty(), known[i].team_id@, known[i].timestamp_ms))
}

/// The match records that are news to a client, in their order.
pub open spec fn match_news(all: Seq<MatchEntryIdData>, known: Seq<(Seq<char>, Seq<char>, u64)>) -> Seq<
    MatchEntryIdData,
>
    decreases all.len(),
{
    if all.len() == 0 {
        Seq::empty()
    } else {
        let rest = match_news(all.drop_last(), known);
        if is_news(known, all.last().match_id@, all.last().team_id@, all.last().data) {
            rest.push(all.last())
        } else {
            rest
        }
    }
}

/// The records of the drive team that are news to a client, in their order.
pub open spec fn driver_news(all: Seq<DriverEntryIdData>, known: Seq<(Seq<char>, Seq<char>, u64)>) -> Seq<
    DriverEntryIdData,
>
    decreases all.len(),
{
    if all.len() == 0 {
        Seq::empty()
    } else {
        let rest = driver_news(all.drop_last(), known);
        if is_news(known, all.last().match_id@, all.last().team_id@, all.last().data) {
            rest.push(all.last())
        } else {
            rest
        }
    }
}

/// A pit record as contracts see it: the team and the record.
pub open spec fn pit_records(entries: Seq<PitEntryIdData>) -> Seq<(Seq<char>, MatchEntryData)> {
    Seq::new(entries.len(), |i: int| (entries[i].team_id@, entries[i].data))
}

/// The pit records that are news to a client, in their order.
pub open spec fn pit_news(
    all: Seq<(Seq<char>, MatchEntryData)>,
    known: Seq<(Seq<char>, Seq<char>, u64)>,
) -> Seq<(Seq<char>, MatchEntryData)>
    decreases all.len(),
{
    if all.len() == 0 {
        Seq::empty()
    } else {
        let rest = pit_news(all.drop_last(), known);
        if is_news(known, Seq::empty(), all.last().0, all.last().1) {
            rest.push(all.last())
        } else {
            rest
        }
    }
}

fn match_is_news(known: &Vec<MatchEntryTimedId>, entry: &MatchEntryIdData) -> (r: bool)
    ensures
        r == is_news(known_matches(known@), entry.match_id@, entry.team_id@, entry.data),
{
    let ghost notes = known_matches(known@);
    let mut i: usize = known.len();
    assert(notes.take(i as int) =~= notes);
    while i > 0
        invariant
            i <= known@.len(),
            notes == known_matches(known@),
            known_time(notes, entry.match_id@, entry.team_id@) == known_time(
                notes.take(i as int),
                entry.match_id@,
                entry.team_id@,
            ),
        decreases i,
    {
        proof {
            let now = notes.take(i as int);
            assert(now.drop_last() =~= notes.take(i - 1));
            assert(now.last() == notes[i - 1]);
        }
        if known[i - 1].match_id == entry.match_id && known[i - 1].team_id == entry.team_id {
            return entry.data.get_timestamp() > known[i - 1].timestamp_ms;
        }
        i -= 1;
    }
    true
}

fn driver_is_news(known: &Vec<DriverEntryTimedId>, entry: &DriverEntryIdData) -> (r: bool)
    ensures
        r == is_news(known_drivers(known@), entry.match_id@, entry.team_id@, entry.data),
{
    let ghost notes = known_drivers(known@);
    let mut i: usize = known.len();
    assert(notes.take(i as int) =~= notes);
    while i > 0
        invariant
            i <= known@.len(),
            notes == known_drivers(known@),
            known_time(notes, entry.match_id@, entry.team_id@) == known_time(
                notes.take(i as int),
                entry.match_id@,
                entry.team_id@,
            ),
        decreases i,
    {
        proof {
            let now = notes.take(i as int);
            assert(now.drop_last() =~= notes.take(i - 1));
            assert(now.last() == notes[i - 1]);
        }
        if known[i - 1].match_id == entry.match_id && known[i - 1].team_id == entry.team_id {
            return entry.data.get_timestamp() > known[i - 1].timestamp_ms;
        }
        i -= 1;
    }
    true
}

fn pit_is_news(known: &Vec<PitEntryTimedId>, team_id: &String, data: &MatchEntryData) -> (r: bool)
    ensures
        r == is_news(known_pits(known@), Seq::empty(), team_id@, *data),
{
    let ghost notes = known_pits(known@);
    let mut i: usize = known.len();
    assert(notes.take(i as int) =~= notes);
    while i > 0
        invariant
            i <= known@.len(),
            notes == known_pits(known@),
            known_time(notes, Seq::empty(), team_id@) == known_time(
                notes.take(i as int),
                Seq::empty(),
                team_id@,
            ),
        decreases i,
    {
        proof {
            let now = notes.take(i as int);
            assert(now.drop_last() =~= notes.take(i - 1));
            assert(now.last() == notes[i - 1]);
        }
        if known[i - 1].team_id == *team_id {
            return data.get_timestamp() > known[i - 1].timestamp_ms;
        }
        i -= 1;
    }
    true
}

/// The match records that a client does not know, or knows an older state
/// of.
pub fn match_entry_filtered_data(all: Vec<MatchEntryIdData>, known: &Vec<MatchEntryTimedId>) -> (r:
    Vec<MatchEntryIdData>)
    ensures
        r@ == match_news(all@, known_matches(known@)),
{
    let mut news: Vec<MatchEntryIdData> = Vec::new();
    assert(all@.take(0) =~= Seq::empty());
    for entry in it: all
        invariant
            it.seq() == all@,
            news@ == match_news(all@.take(it.index() as int), known_matches(known@)),
    {
        proof {
            let next = all@.take(it.index() + 1);
            assert(next.drop_last() =~= all@.take(it.index() as int));
            assert(next.last() == entry);
        }
        if match_is_news(known, &entry) {
            news.push(entry);
        }
    }
    assert(all@.take(all@.len() as int) =~= all@);
    news
}

/// The records of the drive team that a client does not know, or knows an
/// older state of.
pub fn driver_entry_filtered_data(all: Vec<DriverEntryIdData>, known: &Vec<DriverEntryTimedId>) -> (r:
    Vec<DriverEntryIdData>)
    ensures
        r@ == driver_news(all@, known_drivers(known@)),
{
    let mut news: Vec<DriverEntryIdData> = Vec::new();
    assert(all@.take(0) =~= Seq::empty());
    for entry in it: all
        invariant
            it.seq() == all@,
            news@ == driver_news(all@.take(it.index() as int), known_drivers(known@)),
    {
        proof {
            let next = all@.take(it.index() + 1);
            assert(next.drop_last() =~= all@.take(it.index() as int));
            assert(next.last() == entry);
        }
        if driver_is_news(known, &entry) {
            news.push(entry);
        }
    }
    assert(all@.take(all@.len() as int) =~= all@);
    news
}

/// The pit records that a client does not know, or knows an older state of.
pub fn pit_entry_filtered_data(all: StrMap<MatchEntryData>, known: &Vec<PitEntryTimedId>) -> (r:
    Vec<PitEntryIdData>)
    ensures
        pit_records(r@) == pit_news(all@, known_pits(known@)),
{
    let mut news: Vec<PitEntryIdData> = Vec::new();
    let items = all.into_items();
    assert(all@.take(0) =~= Seq::empty());
    assert(pit_records(news@) =~= Seq::empty());
    for item in it: items
        invariant
            it.seq() == items@,
            entries_of(items@) == all@,
            pit_records(news@) == pit_news(all@.take(it.index() as int), known_pits(known@)),
    {
        let ghost before = pit_records(news@);
        let (team_id, data) = item;
        proof {
            let next = all@.take(it.index() + 1);
            assert(next.drop_last() =~= all@.take(it.index() as int));
            assert(next.last() == (team_id@, data));
        }
        if pit_is_news(known, &team_id, &data) {
            news.push(PitEntryIdData { team_id, data });
            assert(pit_records(news@) =~= before.push((team_id@, data)));
        }
    }
    assert(all@.take(all@.len() as int) =~= all@);
    news
}

/// The match that a path names by its kind, its number and its set.
pub open spec fn match_named(kind: Seq<char>, num: u32, set: u32) -> Option<MatchId> {
    if kind == "practice"@ {
        Some(MatchId::Practice(SetMatch { set, num }))
    } else if kind == "qualification"@ {
        Some(MatchId::Qualification(SetMatch { set, num }))
    } else if kind == "quarterfinal"@ {
        Some(MatchId::Quarterfinal(SetMatch { set, num }))
    } else if kind == "semifinal"@ {
        Some(MatchId::Semifinal(SetMatch { set, num }))
    } else if kind == "final"@ {
        Some(MatchId::Final(SetMatch { set, num }))
    } else {
        None
    }
}

/// The match that a path names; none where the kind is none of the five.
pub fn analysis_match(match_type: &str, num: u32, set: u32) -> (r: Option<MatchId>)
    ensures
        r == match_named(match_type@, num, set),
{
    if match_type.eq("practice") {
        Some(MatchId::Practice(SetMatch { set, num }))
    } else if match_type.eq("qualification") {
        Some(MatchId::Qualification(SetMatch { set, num }))
    } else if match_type.eq("quarterfinal") {
        Some(MatchId::Quarterfinal(SetMatch { set, num }))
    } else if match_type.eq("semifinal") {
        Some(MatchId::Semifinal(SetMatch { set, num }))
    } else if match_type.eq("final") {
        Some(MatchId::Final(SetMatch { set, num }))
    } else {
        None
    }
}

} // verus!
