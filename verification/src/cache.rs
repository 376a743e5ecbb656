//! One cached value with its age: served as long as there is one, loaded by
//! the caller where there is none, and refreshed in the background once it is
//! stale, by one fetch at a time.
use vstd::prelude::*;

verus! {

/// How long a value stays fresh: five minutes, in milliseconds.
pub const TTL_MS: u64 = 300_000;

/// What the caller of `get` has to do beside serving what is cached.
#[derive(Debug, Clone, Copy, PartialEq, Eq, Structural)]
pub enum Fetch {
    /// Nothing
    Nothing,
    /// Nothing is cached: fetch now, and serve what the fetch brings
    Load,
    /// What is cached is stale: serve it, and fetch in the background
    Refresh,
}

/// The place of one key in a cache.
#[derive(Debug, Clone, PartialEq)]
pub struct Slot<V> {
    /// What is cached
    pub value: Option<V>,
    /// When it was fetched, in milliseconds
    pub loaded_at: u64,
    /// Whether a fetch in the background is under way
    pub refreshing: bool,
}

/// The four states of a slot.
#[derive(Debug, Clone, Copy, PartialEq, Eq, Structural)]
pub enum SlotState {
    /// Nothing is cached
    Empty,
    /// A value is cached and no older than five minutes
    Fresh,
    /// A value is cached and older than five minutes; no fetch is under way
    Stale,
    /// A value is cached, and a fetch in the background is under way
    Refreshing,
}

/// A moment of the clock of the server, in milliseconds.
#[derive(Debug, Clone, Copy, PartialEq, Eq, Structural)]
pub struct DefaultInstant(pub u64);

impl DefaultInstant {
    /// The time that has passed at the moment `now`, in milliseconds.
    pub fn elapsed(&self, now: DefaultInstant) -> (r: u64)
        ensures
            r == age(self.0, now.0),
    {
        if now.0 >= self.0 {
            now.0 - self.0
        } else {
            0
        }
    }
}

/// The time between `loaded_at` and `now`; none where the clock went back.
pub open spec fn age(loaded_at: u64, now: u64) -> int {
    if now >= loaded_at {
        now - loaded_at
    } else {
        0
    }
}

impl<V> Slot<V> {
    /// The state of the slot at the time `now`.
    pub open spec fn state(&self, now: u64) -> SlotState {
        if self.value is None {
            SlotState::Empty
        } else if self.refreshing {
            SlotState::Refreshing
        } else if age(self.loaded_at, now) > TTL_MS {
            SlotState::Stale
        } else {
            SlotState::Fresh
        }
    }

    /// What `get` asks of its caller at the time `now`.
    pub open spec fn fetch_at(&self, now: u64) -> Fetch {
        match self.state(now) {
            SlotState::Empty => Fetch::Load,
            SlotState::Stale => Fetch::Refresh,
            _ => Fetch::Nothing,
        }
    }

    /// The slot after `get` at the time `now`: a stale slot is marked as
    /// being refreshed, any other slot stays as it is.
    pub open spec fn after_get(self, now: u64) -> Self {
        if self.state(now) == SlotState::Stale {
            Slot { refreshing: true, ..self }
        } else {
            self
        }
    }

    /// The slot after a fetch in the background has ended: what it brought
    /// is cached, what is cached stays where it brought nothing, and the
    /// mark of the fetch is cleared either way.
    pub open spec fn after_refresh(self, fetched: Option<V>, now: u64) -> Self {
        match fetched {
            Some(v) => Slot { value: Some(v), loaded_at: now, refreshing: false },
            None => Slot { refreshing: false, ..self },
        }
    }

    /// A slot with nothing cached.
    pub fn new() -> (r: Self)
        ensures
            r == (Slot::<V> { value: None, loaded_at: 0, refreshing: false }),
            forall|now: u64| r.state(now) == SlotState::Empty,
    {
        Slot { value: None, loaded_at: 0, refreshing: false }
    }

    /// What is cached.
    pub fn cached(&self) -> (r: Option<&V>)
        ensures
            r == (match self.value {
                Some(v) => Some(&v),
                None => None,
            }),
    {
        self.value.as_ref()
    }

    /// Decides what a caller at the time `now` has to fetch, and marks the
    /// slot where that is a fetch in the background.
    ///
    /// What is cached is served whatever its age. A fetch in the background
    /// is asked for where the cached value is older than five minutes and no
    /// such fetch is under way.
    pub fn get(&mut self, now: u64) -> (r: Fetch)
        ensures
            r == old(self).fetch_at(now),
            *final(self) == old(self).after_get(now),
    {
        if self.value.is_none() {
            Fetch::Load
        } else if self.refreshing {
            Fetch::Nothing
        } else {
            if DefaultInstant(self.loaded_at).elapsed(DefaultInstant(now)) > TTL_MS {
                self.refreshing = true;
                Fetch::Refresh
            } else {
                Fetch::Nothing
            }
        }
    }

    /// Caches what the caller of `get` has loaded at the time `now`.
    pub fn loaded(&mut self, value: V, now: u64)
        ensures
            *final(self) == (Slot { value: Some(value), loaded_at: now, ..*old(self) }),
    {
        self.value = Some(value);
        self.loaded_at = now;
    }

    /// Takes the end of a fetch in the background, with what it brought.
    pub fn refreshed(&mut self, fetched: Option<V>, now: u64)
        ensures
            *final(self) == old(self).after_refresh(fetched, now),
    {
        match fetched {
            Some(v) => {
                self.value = Some(v);
                self.loaded_at = now;
            },
            None => {},
        }
        self.refreshing = false;
    }
}

/// The slot after callers have called `get` at the given times, one after
/// the other, with no fetch ending in between.
pub open spec fn after_gets<V>(slot: Slot<V>, times: Seq<u64>) -> Slot<V>
    decreases times.len(),
{
    if times.len() == 0 {
        slot
    } else {
        after_gets(slot, times.drop_last()).after_get(times.last())
    }
}

/// How many fetches in the background these calls of `get` ask for.
pub open spec fn refreshes<V>(slot: Slot<V>, times: Seq<u64>) -> nat
    decreases times.len(),
{
    if times.len() == 0 {
        0
    } else {
        refreshes(slot, times.drop_last()) + if after_gets(slot, times.drop_last()).fetch_at(
            times.last(),
        ) == Fetch::Refresh {
            1nat
        } else {
            0nat
        }
    }
}

/// Single flight: however many callers call `get` on a slot, and whenever,
/// they ask for one fetch in the background at most as long as none has
/// ended; and where a fetch was under way before, they ask for none.
pub proof fn lemma_single_flight<V>(slot: Slot<V>, times: Seq<u64>)
    ensures
        refreshes(slot, times) <= 1,
        slot.refreshing ==> refreshes(slot, times) == 0,
        refreshes(slot, times) == 1 ==> after_gets(slot, times).refreshing,
        after_gets(slot, times).value == slot.value,
        after_gets(slot, times).loaded_at == slot.loaded_at,
        slot.refreshing ==> after_gets(slot, times).refreshing,
    decreases times.len(),
{
    if times.len() > 0 {
        lemma_single_flight(slot, times.drop_last());
    }
}

/// A slot serves what it has cached: `get` never takes a value away, and
/// asks the caller to wait for a fetch only where nothing is cached.
pub proof fn lemma_served<V>(slot: Slot<V>, now: u64)
    ensures
        slot.after_get(now).value == slot.value,
        slot.fetch_at(now) == Fetch::Load <==> slot.value is None,
{
}

/// The mark of a fetch is cleared when the fetch ends, whether it brought
/// something or not, so that the next stale `get` asks for a fetch again.
pub proof fn lemma_released<V>(slot: Slot<V>, fetched: Option<V>, now: u64)
    ensures
        !slot.after_refresh(fetched, now).refreshing,
        fetched is None ==> slot.after_refresh(fetched, now).value == slot.value,
        fetched is Some ==> slot.after_refresh(fetched, now).state(now) == SlotState::Fresh,
{
}

} // verus!
