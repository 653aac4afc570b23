//! Public-holiday data: a holiday record as the holiday source delivers it,
//! and a map from ISO date strings to holiday names with unique keys.

use vstd::prelude::*;

verus! {

/// One public holiday: its ISO date and its local display name.
#[derive(Debug)]
pub struct NagerHoliday {
    pub date: String,
    pub local_name: String,
}

impl Clone for NagerHoliday {
    /// Copies the record field for field.
    fn clone(&self) -> (r: Self)
        ensures
            r == *self,
    {
        NagerHoliday { date: self.date.clone(), local_name: self.local_name.clone() }
    }
}

/// First value paired with `key` in an association list, scanning from the
/// front.
pub open spec fn assoc_get(s: Seq<(Seq<char>, Seq<char>)>, key: Seq<char>) -> Option<Seq<char>>
    decreases s.len(),
{
    if s.len() == 0 {
        None
    } else if s[0].0 == key {
        Some(s[0].1)
    } else {
        assoc_get(s.drop_first(), key)
    }
}

/// No two entries share a key.
pub open spec fn keys_unique(s: Seq<(Seq<char>, Seq<char>)>) -> bool {
    forall|i: int, j: int| 0 <= i < j < s.len() ==> (#[trigger] s[i]).0 != (#[trigger] s[j]).0
}

/// A mapping from ISO date strings to holiday display names; keys unique.
#[derive(Debug)]
pub struct HolidayMap {
    entries: Vec<(String, String)>,
}

impl HolidayMap {
    /// The entries as sequences of characters, in insertion order.
    pub closed spec fn entries_view(self) -> Seq<(Seq<char>, Seq<char>)> {
        self.entries@.map_values(|p: (String, String)| (p.0@, p.1@))
    }

    /// No two entries share a key.
    pub open spec fn wf(self) -> bool {
        keys_unique(self.entries_view())
    }

    /// The name stored under `key`, if any.
    pub open spec fn spec_get(self, key: Seq<char>) -> Option<Seq<char>> {
        assoc_get(self.entries_view(), key)
    }

    /// An empty map.
    pub fn new() -> (r: HolidayMap)
        ensures
            r.wf(),
            forall|k: Seq<char>| #[trigger] r.spec_get(k) matches None::<Seq<char>>,
            r.entries_view() == Seq::<(Seq<char>, Seq<char>)>::empty(),
    {
        let r = HolidayMap { entries: Vec::new() };
        proof {
            assert(r.entries_view() =~= Seq::<(Seq<char>, Seq<char>)>::empty());
        }
        r
    }

    /// Number of entries.
    pub fn len(&self) -> (r: usize)
        ensures
            r == self.entries_view().len(),
    {
        self.entries.len()
    }

    /// The name stored under `key`, if any.
    pub fn get(&self, key: &String) -> (r: Option<String>)
        ensures
            match r {
                Some(v) => self.spec_get(key@) == Some(v@),
                None => self.spec_get(key@) matches None::<Seq<char>>,
            },
    {
        let ghost sq = self.entries_view();
        let n = self.entries.len();
        let mut i: usize = 0;
        proof {
            assert(sq.skip(0) =~= sq);
        }
        while i < n
            invariant
                n == self.entries@.len(),
                sq == self.entries_view(),
                i <= n,
                forall|j: int| 0 <= j < i ==> (#[trigger] sq[j]).0 != key@,
                assoc_get(sq, key@) == assoc_get(sq.skip(i as int), key@),
            decreases n - i,
        {
            proof {
                assert(sq.skip(i as int)[0] == sq[i as int]);
            }
            if self.entries[i].0.eq(key) {
                return Some(self.entries[i].1.clone());
            }
            proof {
                assert(sq.skip(i as int).drop_first() =~= sq.skip(i + 1));
            }
            i = i + 1;
        }
        proof {
            assert(sq.skip(n as int) =~= Seq::<(Seq<char>, Seq<char>)>::empty());
        }
        None
    }

    /// Stores `value` under `key`, replacing any earlier entry for that key.
    pub fn insert(&mut self, key: String, value: String)
        requires
            old(self).wf(),
        ensures
            final(self).wf(),
            final(self).spec_get(key@) == Some(value@),
            forall|k: Seq<char>|
                k != key@ ==> #[trigger] final(self).spec_get(k) == old(self).spec_get(k),
    {
        let ghost sq = self.entries_view();
        let n = self.entries.len();
        let mut i: usize = 0;
        while i < n
            invariant
                n == self.entries@.len(),
                sq == self.entries_view(),
                sq == old(self).entries_view(),
                keys_unique(sq),
                i <= n,
                forall|j: int| 0 <= j < i ==> (#[trigger] sq[j]).0 != key@,
            decreases n - i,
        {
            if self.entries[i].0.eq(&key) {
                self.entries[i] = (key, value);
                proof {
                    assert(self.entries_view() =~= sq.update(
                        i as int,
                        (sq[i as int].0, value@),
                    ));
                    lemma_assoc_get_update(sq, i as int, value@);
                }
                return ;
            }
            i = i + 1;
        }
        self.entries.push((key, value));
        proof {
            assert(self.entries_view() =~= sq.push((key@, value@)));
            lemma_assoc_get_push(sq, key@, value@);
        }
    }
}

/// Updating the value at index `i` changes only that key's lookup, when keys
/// are unique.
proof fn lemma_assoc_get_update(s: Seq<(Seq<char>, Seq<char>)>, i: int, v: Seq<char>)
    requires
        keys_unique(s),
        0 <= i < s.len(),
    ensures
        keys_unique(s.update(i, (s[i].0, v))),
        assoc_get(s.update(i, (s[i].0, v)), s[i].0) == Some(v),
        forall|k: Seq<char>|
            k != s[i].0 ==> #[trigger] assoc_get(s.update(i, (s[i].0, v)), k) == assoc_get(s, k),
    decreases s.len(),
{
    let t = s.update(i, (s[i].0, v));
    assert(forall|j: int| 0 <= j < s.len() ==> (#[trigger] t[j]).0 == s[j].0);
    if i == 0 {
        assert(t[0] == (s[0].0, v));
        assert forall|k: Seq<char>| k != s[i].0 implies #[trigger] assoc_get(t, k) == assoc_get(
            s,
            k,
        ) by {
            assert(t.drop_first() =~= s.drop_first());
            assert(assoc_get(t, k) == assoc_get(t.drop_first(), k));
            assert(assoc_get(s, k) == assoc_get(s.drop_first(), k));
        }
    } else {
        lemma_assoc_get_update(s.drop_first(), i - 1, v);
        assert(s.drop_first()[i - 1] == s[i]);
        assert(t.drop_first() =~= s.drop_first().update(i - 1, (s[i].0, v)));
        assert(t[0] == s[0]);
        assert(s[0].0 != s[i].0);
        assert(assoc_get(t, s[i].0) == assoc_get(t.drop_first(), s[i].0));
        assert forall|k: Seq<char>| k != s[i].0 implies #[trigger] assoc_get(t, k) == assoc_get(
            s,
            k,
        ) by {
            if s[0].0 == k {
                assert(assoc_get(t, k) == Some(t[0].1));
                assert(assoc_get(s, k) == Some(s[0].1));
            } else {
                assert(assoc_get(t, k) == assoc_get(t.drop_first(), k));
                assert(assoc_get(s, k) == assoc_get(s.drop_first(), k));
                assert(assoc_get(t.drop_first(), k) == assoc_get(s.drop_first(), k));
            }
        }
    }
}

/// Appending a fresh key adds its lookup and changes no other, when keys are
/// unique and the key is fresh.
proof fn lemma_assoc_get_push(s: Seq<(Seq<char>, Seq<char>)>, key: Seq<char>, v: Seq<char>)
    requires
        keys_unique(s),
        forall|j: int| 0 <= j < s.len() ==> (#[trigger] s[j]).0 != key,
    ensures
        keys_unique(s.push((key, v))),
        assoc_get(s.push((key, v)), key) == Some(v),
        forall|k: Seq<char>|
            k != key ==> #[trigger] assoc_get(s.push((key, v)), k) == assoc_get(s, k),
    decreases s.len(),
{
    let t = s.push((key, v));
    if s.len() == 0 {
        assert(t[0] == (key, v));
        assert(assoc_get(t, key) == Some(v));
        assert forall|k: Seq<char>| k != key implies #[trigger] assoc_get(t, k) == assoc_get(
            s,
            k,
        ) by {
            assert(t.drop_first() =~= Seq::<(Seq<char>, Seq<char>)>::empty());
            assert(assoc_get(t, k) == assoc_get(t.drop_first(), k));
            assert(assoc_get(t.drop_first(), k) matches None::<Seq<char>>);
            assert(assoc_get(s, k) matches None::<Seq<char>>);
        }
    } else {
        lemma_assoc_get_push(s.drop_first(), key, v);
        assert(t.drop_first() =~= s.drop_first().push((key, v)));
        assert(t[0] == s[0]);
        assert(s[0].0 != key);
        assert(assoc_get(t, key) == assoc_get(t.drop_first(), key));
        assert forall|k: Seq<char>| k != key implies #[trigger] assoc_get(t, k) == assoc_get(
            s,
            k,
        ) by {
            if s[0].0 == k {
                assert(assoc_get(t, k) == Some(t[0].1));
                assert(assoc_get(s, k) == Some(s[0].1));
            } else {
                assert(assoc_get(t, k) == assoc_get(t.drop_first(), k));
                assert(assoc_get(s, k) == assoc_get(s.drop_first(), k));
                assert(assoc_get(t.drop_first(), k) == assoc_get(s.drop_first(), k));
            }
        }
    }
}

/// Value of the last record for `key` in a holiday list, scanning from the
/// back (a later record overrides an earlier one).
pub open spec fn holiday_lookup(hs: Seq<(Seq<char>, Seq<char>)>, key: Seq<char>) -> Option<
    Seq<char>,
>
    decreases hs.len(),
{
    if hs.len() == 0 {
        None
    } else if hs.last().0 == key {
        Some(hs.last().1)
    } else {
        holiday_lookup(hs.drop_last(), key)
    }
}

/// The date and name fields of each holiday record, in order.
pub open spec fn holiday_pairs(hs: Seq<NagerHoliday>) -> Seq<(Seq<char>, Seq<char>)> {
    hs.map_values(|h: NagerHoliday| (h.date@, h.local_name@))
}

/// Builds the date-to-name map of a holiday list.  For each date, the last
/// record in the list wins.
pub fn get_all_holidays_map(holidays: &Vec<NagerHoliday>) -> (r: HolidayMap)
    ensures
        r.wf(),
        forall|k: Seq<char>|
            #[trigger] r.spec_get(k) == holiday_lookup(holiday_pairs(holidays@), k),
{
    let ghost hp = holiday_pairs(holidays@);
    let mut map = HolidayMap::new();
    let n = holidays.len();
    let mut i: usize = 0;
    while i < n
        invariant
            n == holidays@.len(),
            hp == holiday_pairs(holidays@),
            i <= n,
            map.wf(),
            forall|k: Seq<char>|
                #[trigger] map.spec_get(k) == holiday_lookup(hp.take(i as int), k),
        decreases n - i,
    {
        let ghost before = *&map;
        let h = &holidays[i];
        map.insert(h.date.clone(), h.local_name.clone());
        proof {
            assert(hp.take(i + 1).drop_last() =~= hp.take(i as int));
            assert(hp.take(i + 1).last() == hp[i as int]);
            assert(hp[i as int] == (holidays@[i as int].date@, holidays@[i as int].local_name@));
            assert forall|k: Seq<char>| true implies #[trigger] map.spec_get(k) == holiday_lookup(
                hp.take(i + 1),
                k,
            ) by {
                if k == holidays@[i as int].date@ {
                    assert(map.spec_get(k) == Some(holidays@[i as int].local_name@));
                } else {
                    assert(map.spec_get(k) == before.spec_get(k));
                }
            }
        }
        i = i + 1;
    }
    proof {
        assert(hp.take(n as int) =~= hp);
    }
    map
}

} // verus!
