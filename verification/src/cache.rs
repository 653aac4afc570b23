//! A time-bounded cache of rendered text, one entry per logical name.
//!
//! The store keeps at most one timestamped text blob.  A load within the
//! expiry window returns it; a load at or past the window deletes it and
//! reports a miss.  The clock is passed in, so callers decide what "now"
//! means and a whole operation can observe one instant.

use vstd::prelude::*;

verus! {

/// How long an entry stays fresh, in seconds: six hours.
pub const CACHE_DURATION: u64 = 60 * 60 * 6;

/// Why a cache operation failed.
#[derive(Clone, Copy, Debug, PartialEq, Eq, Structural)]
pub enum CacheError {
    /// The entry's creation time could not be read.
    Metadata,
    /// The entry's creation time lies in the future of the given clock.
    Time,
}

impl CacheError {
    /// A human-readable description of the error.
    pub fn message(&self) -> (r: String)
        ensures
            match self {
                CacheError::Metadata => r@ == "Failed to read cache metadata"@,
                CacheError::Time => r@ == "Failed to calculate duration"@,
            },
    {
        match self {
            CacheError::Metadata => String::from_str("Failed to read cache metadata"),
            CacheError::Time => String::from_str("Failed to calculate duration"),
        }
    }
}

/// One stored blob and the clock value at which it was saved.
struct CacheEntry {
    data: String,
    created_at: u64,
}

/// A named, time-bounded store for one text blob.
pub struct Cache {
    name: String,
    entry: Option<CacheEntry>,
}

/// What a load finds: the stored text, nothing, or a creation time in the
/// future.
pub enum LoadOutcome {
    /// The entry is present and fresh; its text.
    Hit(Seq<char>),
    /// No entry, or the entry expired.
    Miss,
    /// The entry was created after the given clock value.
    ClockSkew,
}

/// What a load of state `e` at time `now` finds.
pub open spec fn load_outcome(e: Option<(Seq<char>, int)>, now: int) -> LoadOutcome {
    match e {
        None => LoadOutcome::Miss,
        Some((data, created)) => {
            if created > now {
                LoadOutcome::ClockSkew
            } else if now - created < CACHE_DURATION {
                LoadOutcome::Hit(data)
            } else {
                LoadOutcome::Miss
            }
        },
    }
}

/// The entry left behind by a load of state `e` at time `now`: unchanged on
/// a hit or clock skew, deleted once expired.
pub open spec fn entry_after_load(e: Option<(Seq<char>, int)>, now: int) -> Option<
    (Seq<char>, int),
> {
    match e {
        None => None,
        Some((data, created)) => {
            if created > now {
                e
            } else if now - created < CACHE_DURATION {
                e
            } else {
                None
            }
        },
    }
}

impl Cache {
    /// The cache's logical name.
    pub closed spec fn name_view(self) -> Seq<char> {
        self.name@
    }

    /// The stored text and its creation time, if an entry exists.
    pub closed spec fn entry_view(self) -> Option<(Seq<char>, int)> {
        match self.entry {
            Some(e) => Some((e.data@, e.created_at as int)),
            None => None,
        }
    }

    /// An empty cache under the given logical name.
    pub fn new(name: String) -> (r: Cache)
        ensures
            r.name_view() == name@,
            r.entry_view() matches None::<(Seq<char>, int)>,
    {
        Cache { name, entry: None }
    }

    /// Stores `data` with creation time `now`, overwriting any entry.
    pub fn save(&mut self, data: &str, now: u64) -> (r: Result<(), CacheError>)
        ensures
            r is Ok,
            final(self).entry_view() == Some((data@, now as int)),
            final(self).name_view() == old(self).name_view(),
    {
        self.entry = Some(CacheEntry { data: data.to_owned(), created_at: now });
        Ok(())
    }

    /// Whether an entry is present, fresh or not.
    pub fn has_entry(&self) -> (r: bool)
        ensures
            r == (self.entry_view() matches Some(_)),
    {
        match &self.entry {
            Some(_) => true,
            None => false,
        }
    }

    /// Whether the entry was created less than the expiry window before
    /// `now`.  Fails with `Metadata` when no entry exists and with `Time`
    /// when the entry's creation time lies after `now`.
    pub fn is_valid(&self, now: u64) -> (r: Result<bool, CacheError>)
        ensures
            match self.entry_view() {
                None => r == Err::<bool, CacheError>(CacheError::Metadata),
                Some((data, created)) => {
                    if created > now {
                        r == Err::<bool, CacheError>(CacheError::Time)
                    } else {
                        r == Ok::<bool, CacheError>(now - created < CACHE_DURATION)
                    }
                },
            },
    {
        match &self.entry {
            None => Err(CacheError::Metadata),
            Some(e) => {
                if e.created_at > now {
                    Err(CacheError::Time)
                } else {
                    Ok(now - e.created_at < CACHE_DURATION)
                }
            },
        }
    }

    /// Returns the stored text if it exists and is fresh at `now`.  An
    /// expired entry is deleted and reported as a miss; a missing entry is a
    /// miss.  Fails with `Time` when the entry's creation time lies after
    /// `now`, leaving the entry in place.
    pub fn load(&mut self, now: u64) -> (r: Result<Option<String>, CacheError>)
        ensures
            final(self).name_view() == old(self).name_view(),
            final(self).entry_view() == entry_after_load(old(self).entry_view(), now as int),
            match load_outcome(old(self).entry_view(), now as int) {
                LoadOutcome::Hit(data) => r matches Ok(Some(s)) && s@ == data,
                LoadOutcome::Miss => r matches Ok(None::<String>),
                LoadOutcome::ClockSkew => r == Err::<Option<String>, CacheError>(CacheError::Time),
            },
    {
        if !self.has_entry() {
            self.clear();
            return Ok(None);
        }
        match self.is_valid(now) {
            Err(e) => Err(e),
            Ok(valid) => {
                if !valid {
                    self.clear();
                    return Ok(None);
                }
                match &self.entry {
                    Some(e) => Ok(Some(e.data.clone())),
                    None => Ok(None),
                }
            },
        }
    }

    /// Deletes the entry; doing so twice is the same as doing it once.
    pub fn clear(&mut self)
        ensures
            final(self).name_view() == old(self).name_view(),
            final(self).entry_view() matches None::<(Seq<char>, int)>,
    {
        self.entry = None;
    }
}

/// Saving then loading within the expiry window returns exactly the saved
/// text and keeps the entry; loading once the window has elapsed misses and
/// leaves no entry behind.
pub proof fn lemma_cache_round_trip(data: Seq<char>, t_save: int, t_load: int)
    requires
        t_save <= t_load,
    ensures
        t_load - t_save < CACHE_DURATION ==> load_outcome(Some((data, t_save)), t_load)
            == LoadOutcome::Hit(data) && entry_after_load(Some((data, t_save)), t_load) == Some(
            (data, t_save),
        ),
        t_load - t_save >= CACHE_DURATION ==> load_outcome(Some((data, t_save)), t_load)
            == LoadOutcome::Miss && entry_after_load(Some((data, t_save)), t_load) matches None::<
            (Seq<char>, int),
        >,
{
}

} // verus!
