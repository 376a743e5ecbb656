//! The leaderboard: how many records each scout has handed in, and of which
//! teams.
use vstd::prelude::*;
use vstd::string::*;
use crate::data::{latest_scout, DriverEntryIdData, Fields, MatchEntryData, MatchEntryIdData};
use crate::str_map::{lemma_with_entry_mapped, lookup, mapped, with_entry, StrMap};
use crate::text::{parse_u32, parsed_u32};

verus! {

/// All scouts with what they have handed in, by their names in lower case.
#[derive(Debug, Clone, PartialEq)]
pub struct LeaderboardInfo {
    pub leaderboard: StrMap<LeaderboardPerson>,
}

/// What one scout has handed in.
#[derive(Debug, Clone, PartialEq)]
pub struct LeaderboardPerson {
    /// The name of the scout, as it was first seen
    pub name: String,
    pub matches_scouted: usize,
    pub pits_scouted: usize,
    pub drivers_scouted: usize,
    /// How many records the scout has handed in of each team
    pub teams_scouted: Vec<(u32, usize)>,
}

/// The kind of a record.
#[derive(Debug, Clone, Copy, PartialEq, Eq, Structural)]
pub enum EntryKind {
    Match,
    Pit,
    Driver,
}

/// A scout as contracts see one.
pub struct PersonView {
    pub name: Seq<char>,
    pub matches_scouted: usize,
    pub pits_scouted: usize,
    pub drivers_scouted: usize,
    pub teams_scouted: Seq<(u32, usize)>,
}

impl View for LeaderboardPerson {
    type V = PersonView;

    open spec fn view(&self) -> PersonView {
        PersonView {
            name: self.name@,
            matches_scouted: self.matches_scouted,
            pits_scouted: self.pits_scouted,
            drivers_scouted: self.drivers_scouted,
            teams_scouted: self.teams_scouted@,
        }
    }
}

/// A leaderboard as contracts see it.
pub type Board = Seq<(Seq<char>, PersonView)>;

/// A text without the white space at its ends.
pub uninterp spec fn trimmed(s: Seq<char>) -> Seq<char>;

/// A text in lower case.
pub uninterp spec fn lowercase_of(s: Seq<char>) -> Seq<char>;

/// `str::trim` of the standard library: the text without the white space at
/// its ends.
#[verifier::external_body]
fn trim(s: &str) -> (r: &str)
    ensures
        r@ == trimmed(s@),
{
    s.trim()
}

/// `str::to_lowercase` of the standard library: the text in lower case.
#[verifier::external_body]
fn to_lowercase(s: &str) -> (r: String)
    ensures
        r@ == lowercase_of(s@),
{
    s.to_lowercase()
}

/// The name under which a scout is counted: the name in lower case, without
/// white space at its ends.
pub open spec fn counted_name(scout: Seq<char>) -> Seq<char> {
    lowercase_of(trimmed(scout))
}

/// One more, as far as the numbers reach.
pub open spec fn one_more(n: usize) -> usize {
    if n == usize::MAX {
        n
    } else {
        (n + 1) as usize
    }
}

/// The place of a team among the counts.
pub open spec fn team_place(counts: Seq<(u32, usize)>, team: u32) -> Option<int>
    decreases counts.len(),
{
    if counts.len() == 0 {
        None
    } else {
        match team_place(counts.drop_last(), team) {
            Some(i) => Some(i),
            None => if counts.last().0 == team {
                Some(counts.len() - 1)
            } else {
                None
            },
        }
    }
}

/// The counts with one more record of a team.
pub open spec fn with_team(counts: Seq<(u32, usize)>, team: u32) -> Seq<(u32, usize)> {
    match team_place(counts, team) {
        Some(i) => counts.update(i, (team, one_more(counts[i].1))),
        None => counts.push((team, 1)),
    }
}

/// A scout who has handed in nothing yet.
pub open spec fn newcomer(name: Seq<char>) -> PersonView {
    PersonView {
        name,
        matches_scouted: 0,
        pits_scouted: 0,
        drivers_scouted: 0,
        teams_scouted: Seq::empty(),
    }
}

/// A scout with one more record of a kind, of the team that the record
/// names.
pub open spec fn credited(person: PersonView, kind: EntryKind, team_id: Seq<char>) -> PersonView {
    let teams = match parsed_u32(team_id) {
        Some(team) => with_team(person.teams_scouted, team),
        None => person.teams_scouted,
    };
    match kind {
        EntryKind::Match => PersonView {
            matches_scouted: one_more(person.matches_scouted),
            teams_scouted: teams,
            ..person
        },
        EntryKind::Pit => PersonView {
            pits_scouted: one_more(person.pits_scouted),
            teams_scouted: teams,
            ..person
        },
        EntryKind::Driver => PersonView {
            drivers_scouted: one_more(person.drivers_scouted),
            teams_scouted: teams,
            ..person
        },
    }
}

/// The board with one more record: it is credited to the scout of its
/// latest field, under the name that the scout is counted by. A record
/// without a field is credited to nobody.
pub open spec fn with_record(board: Board, kind: EntryKind, team_id: Seq<char>, fields: Fields) -> Board {
    match latest_scout(fields) {
        None => board,
        Some(scout) => {
            let key = counted_name(scout);
            let person = match lookup(board, key) {
                Some(p) => p,
                None => newcomer(scout),
            };
            with_entry(board, key, credited(person, kind, team_id))
        },
    }
}

/// The board with the first `n` match records.
pub open spec fn with_matches(board: Board, entries: Seq<MatchEntryIdData>, n: int) -> Board
    decreases n,
{
    if n <= 0 {
        board
    } else {
        with_record(
            with_matches(board, entries, n - 1),
            EntryKind::Match,
            entries[n - 1].team_id@,
            entries[n - 1].data@.entries,
        )
    }
}

/// The board with the first `n` pit records.
pub open spec fn with_pits(board: Board, entries: Seq<(Seq<char>, MatchEntryData)>, n: int) -> Board
    decreases n,
{
    if n <= 0 {
        board
    } else {
        with_record(
            with_pits(board, entries, n - 1),
            EntryKind::Pit,
            entries[n - 1].0,
            entries[n - 1].1@.entries,
        )
    }
}

/// The board with the first `n` records of the drive team.
pub open spec fn with_drivers(board: Board, entries: Seq<DriverEntryIdData>, n: int) -> Board
    decreases n,
{
    if n <= 0 {
        board
    } else {
        with_record(
            with_drivers(board, entries, n - 1),
            EntryKind::Driver,
            entries[n - 1].team_id@,
            entries[n - 1].data@.entries,
        )
    }
}

/// The board as contracts see it.
pub open spec fn board_of(leaderboard: Seq<(Seq<char>, LeaderboardPerson)>) -> Board {
    mapped(leaderboard, |p: LeaderboardPerson| p@)
}

fn more(n: usize) -> (r: usize)
    ensures
        r == one_more(n),
{
    if n == usize::MAX {
        n
    } else {
        n + 1
    }
}

proof fn lemma_team_place(counts: Seq<(u32, usize)>, team: u32)
    ensures
        match team_place(counts, team) {
            Some(i) => 0 <= i < counts.len() && counts[i].0 == team && forall|j: int|
                0 <= j < i ==> counts[j].0 != team,
            None => forall|j: int| 0 <= j < counts.len() ==> counts[j].0 != team,
        },
    decreases counts.len(),
{
    if counts.len() > 0 {
        let front = counts.drop_last();
        lemma_team_place(front, team);
        assert(forall|j: int| 0 <= j < front.len() ==> front[j] == counts[j]);
    }
}

fn count_team(counts: &mut Vec<(u32, usize)>, team: u32)
    ensures
        final(counts)@ == with_team(old(counts)@, team),
{
    let mut i: usize = 0;
    while i < counts.len()
        invariant
            i <= counts@.len(),
            counts@ == old(counts)@,
            forall|j: int| 0 <= j < i ==> counts@[j].0 != team,
        decreases counts@.len() - i,
    {
        if counts[i].0 == team {
            proof {
                lemma_team_place(counts@, team);
            }
            let n = more(counts[i].1);
            counts[i].1 = n;
            assert(counts@ =~= with_team(old(counts)@, team));
            return ;
        }
        i += 1;
    }
    proof {
        lemma_team_place(counts@, team);
    }
    counts.push((team, 1));
}

fn copy_counts(counts: &Vec<(u32, usize)>) -> (r: Vec<(u32, usize)>)
    ensures
        r@ == counts@,
{
    let mut r: Vec<(u32, usize)> = Vec::new();
    let mut i: usize = 0;
    while i < counts.len()
        invariant
            i <= counts@.len(),
            r@ == counts@.take(i as int),
        decreases counts@.len() - i,
    {
        r.push(counts[i]);
        assert(r@ =~= counts@.take(i + 1));
        i += 1;
    }
    assert(counts@.take(i as int) =~= counts@);
    r
}

fn credit(
    board: &mut StrMap<LeaderboardPerson>,
    kind: EntryKind,
    team_id: &str,
    data: &MatchEntryData,
)
    ensures
        board_of(final(board)@) == with_record(board_of(old(board)@), kind, team_id@, data@.entries),
{
    let scout = match data.get_latest_scout() {
        Some(s) => s,
        None => {
            return ;
        },
    };
    let key = to_lowercase(trim(scout.as_str()));
    let ghost view = |p: LeaderboardPerson| p@;
    let ghost before = board@;
    let mut person = match board.position(key.as_str()) {
        Some(i) => {
            let p = board.value_at(i);
            proof {
                crate::str_map::lemma_position_same_keys(board_of(before), before, key@);
            }
            LeaderboardPerson {
                name: p.name.clone(),
                matches_scouted: p.matches_scouted,
                pits_scouted: p.pits_scouted,
                drivers_scouted: p.drivers_scouted,
                teams_scouted: copy_counts(&p.teams_scouted),
            }
        },
        None => {
            proof {
                crate::str_map::lemma_position_same_keys(board_of(before), before, key@);
            }
            LeaderboardPerson {
                name: scout,
                matches_scouted: 0,
                pits_scouted: 0,
                drivers_scouted: 0,
                teams_scouted: Vec::new(),
            }
        },
    };
    let ghost found = match lookup(board_of(before), key@) {
        Some(p) => p,
        None => newcomer(scout@),
    };
    assert(person@ == found);
    match kind {
        EntryKind::Match => {
            person.matches_scouted = more(person.matches_scouted);
        },
        EntryKind::Pit => {
            person.pits_scouted = more(person.pits_scouted);
        },
        EntryKind::Driver => {
            person.drivers_scouted = more(person.drivers_scouted);
        },
    }
    match parse_u32(team_id) {
        Some(team) => {
            count_team(&mut person.teams_scouted, team);
        },
        None => {},
    }
    assert(person@ == credited(found, kind, team_id@));
    proof {
        lemma_with_entry_mapped(before, key@, person, view);
    }
    board.insert(key, person);
}

/// Counts what each scout has handed in: match records, pit records and
/// records of the drive team. Each record is credited to the scout of its
/// latest field.
pub fn get_leaderboard(
    match_entries: &Vec<MatchEntryIdData>,
    pit_entries: &StrMap<MatchEntryData>,
    driver_entries: &Vec<DriverEntryIdData>,
) -> (r: LeaderboardInfo)
    ensures
        board_of(r.leaderboard@) == with_drivers(
            with_pits(
                with_matches(Seq::empty(), match_entries@, match_entries@.len() as int),
                pit_entries@,
                pit_entries@.len() as int,
            ),
            driver_entries@,
            driver_entries@.len() as int,
        ),
{
    let mut board: StrMap<LeaderboardPerson> = StrMap::new();
    assert(board_of(board@) =~= Seq::empty());
    let mut i: usize = 0;
    while i < match_entries.len()
        invariant
            i <= match_entries@.len(),
            board_of(board@) == with_matches(Seq::empty(), match_entries@, i as int),
        decreases match_entries@.len() - i,
    {
        credit(
            &mut board,
            EntryKind::Match,
            match_entries[i].team_id.as_str(),
            &match_entries[i].data,
        );
        i += 1;
    }
    let ghost after_matches = board_of(board@);
    let pits: usize = pit_entries.len();
    let mut j: usize = 0;
    while j < pits
        invariant
            j <= pits,
            pits == pit_entries@.len(),
            board_of(board@) == with_pits(after_matches, pit_entries@, j as int),
        decreases pits - j,
    {
        credit(&mut board, EntryKind::Pit, pit_entries.key_at(j).as_str(), pit_entries.value_at(j));
        j += 1;
    }
    let ghost after_pits = board_of(board@);
    let mut k: usize = 0;
    while k < driver_entries.len()
        invariant
            k <= driver_entries@.len(),
            board_of(board@) == with_drivers(after_pits, driver_entries@, k as int),
        decreases driver_entries@.len() - k,
    {
        credit(
            &mut board,
            EntryKind::Driver,
            driver_entries[k].team_id.as_str(),
            &driver_entries[k].data,
        );
        k += 1;
    }
    LeaderboardInfo { leaderboard: board }
}

} // verus!
