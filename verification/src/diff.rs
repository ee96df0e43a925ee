//! Per-calendar memory of the last-seen event list, and the positional diff
//! that decides whether a new fetch counts as a change.
use vstd::prelude::*;

use crate::calendar::{CalendarEvent, spec_event_eq};

verus! {

/// Positional, element-wise equality: same length, and the events agree at
/// every index. A reordering of otherwise identical events counts as a
/// change.
pub open spec fn spec_lists_match(a: Seq<CalendarEvent>, b: Seq<CalendarEvent>) -> bool {
    a.len() == b.len() && (forall|i: int| 0 <= i < a.len() ==> spec_event_eq(a[i], b[i]))
}

/// Number of agreeing positions among the first `n` of both lists.
pub open spec fn spec_matching_count(a: Seq<CalendarEvent>, b: Seq<CalendarEvent>, n: int) -> int
    decreases n,
{
    if n <= 0 {
        0
    } else {
        spec_matching_count(a, b, n - 1) + if spec_event_eq(a[n - 1], b[n - 1]) {
            1int
        } else {
            0int
        }
    }
}

/// An update is due when the lists differ, or when a force-update flag asks
/// for one regardless.
pub open spec fn spec_should_update(
    cached: Seq<CalendarEvent>,
    new: Seq<CalendarEvent>,
    any_force_update: bool,
) -> bool {
    !spec_lists_match(cached, new) || any_force_update
}

proof fn lemma_matching_count_bound(a: Seq<CalendarEvent>, b: Seq<CalendarEvent>, n: int)
    requires
        0 <= n <= a.len(),
        n <= b.len(),
    ensures
        0 <= spec_matching_count(a, b, n) <= n,
        spec_matching_count(a, b, n) == n <==> (forall|i: int|
            0 <= i < n ==> spec_event_eq(a[i], b[i])),
    decreases n,
{
    if n > 0 {
        lemma_matching_count_bound(a, b, n - 1);
    }
}

/// Count, position by position, how many zipped pairs of the two lists are
/// structurally equal events.
pub exec fn matching_count(a: &Vec<CalendarEvent>, b: &Vec<CalendarEvent>) -> (r: usize)
    ensures
        r as int == spec_matching_count(a@, b@, if a@.len() <= b@.len() {
            a@.len() as int
        } else {
            b@.len() as int
        }),
{
    let n: usize = if a.len() <= b.len() {
        a.len()
    } else {
        b.len()
    };
    let mut count: usize = 0;
    let mut i: usize = 0;
    while i < n
        invariant
            0 <= i <= n,
            n <= a@.len(),
            n <= b@.len(),
            count as int == spec_matching_count(a@, b@, i as int),
            count <= i,
        decreases n - i,
    {
        if a[i] == b[i] {
            count = count + 1;
        }
        i = i + 1;
    }
    count
}

/// Whether the two lists agree position by position and in length: the
/// count of matching zipped pairs must equal both lengths.
pub exec fn lists_match(a: &Vec<CalendarEvent>, b: &Vec<CalendarEvent>) -> (r: bool)
    ensures
        r == spec_lists_match(a@, b@),
{
    let matching: usize = matching_count(a, b);
    let ghost n: int = if a@.len() <= b@.len() {
        a@.len() as int
    } else {
        b@.len() as int
    };
    proof {
        lemma_matching_count_bound(a@, b@, n);
    }
    matching == a.len() && matching == b.len()
}

/// The per-calendar cache of the event list that was last compared against,
/// keyed by the provider's calendar id. Keys are unique.
pub struct EventsCache {
    entries: Vec<(String, Vec<CalendarEvent>)>,
}

/// Index of the first entry at or after `from` whose key reads `id`, or -1.
pub open spec fn key_index_from(
    s: Seq<(String, Vec<CalendarEvent>)>,
    id: Seq<char>,
    from: int,
) -> int
    decreases s.len() - from,
{
    if !(0 <= from < s.len()) {
        -1
    } else if s[from].0@ == id {
        from
    } else {
        key_index_from(s, id, from + 1)
    }
}

proof fn lemma_key_index_properties(s: Seq<(String, Vec<CalendarEvent>)>, id: Seq<char>, from: int)
    requires
        0 <= from,
    ensures
        key_index_from(s, id, from) == -1 ==> (forall|j: int|
            from <= j < s.len() ==> s[j].0@ != id),
        key_index_from(s, id, from) != -1 ==> {
            let k = key_index_from(s, id, from);
            &&& from <= k < s.len()
            &&& s[k].0@ == id
            &&& forall|j: int| from <= j < k ==> s[j].0@ != id
        },
    decreases s.len() - from,
{
    if 0 <= from < s.len() && s[from].0@ != id {
        lemma_key_index_properties(s, id, from + 1);
    }
}

proof fn lemma_key_index_same_keys(
    s1: Seq<(String, Vec<CalendarEvent>)>,
    s2: Seq<(String, Vec<CalendarEvent>)>,
    id: Seq<char>,
    from: int,
)
    requires
        s1.len() == s2.len(),
        forall|j: int| 0 <= j < s1.len() ==> s1[j].0@ == s2[j].0@,
    ensures
        key_index_from(s1, id, from) == key_index_from(s2, id, from),
    decreases s1.len() - from,
{
    if 0 <= from < s1.len() && s1[from].0@ != id {
        lemma_key_index_same_keys(s1, s2, id, from + 1);
    }
}

proof fn lemma_key_index_push(
    s: Seq<(String, Vec<CalendarEvent>)>,
    pair: (String, Vec<CalendarEvent>),
    id: Seq<char>,
    from: int,
)
    requires
        0 <= from,
    ensures
        key_index_from(s.push(pair), id, from) == {
            let k = key_index_from(s, id, from);
            if k != -1 {
                k
            } else if pair.0@ == id && from <= s.len() {
                s.len() as int
            } else {
                -1
            }
        },
    decreases s.len() + 1 - from,
{
    let t = s.push(pair);
    assert(t.len() == s.len() + 1);
    if from < s.len() {
        assert(t[from] == s[from]);
        if s[from].0@ != id {
            lemma_key_index_push(s, pair, id, from + 1);
        }
    } else if from == s.len() {
        assert(t[from] == pair);
        assert(key_index_from(s, id, from) == -1);
        if pair.0@ != id {
            assert(key_index_from(t, id, from + 1) == -1);
        }
    }
}

impl EventsCache {
    /// Keys are pairwise distinct.
    pub closed spec fn wf(self) -> bool {
        forall|i: int, j: int|
            0 <= i < j < self.entries@.len() ==> self.entries@[i].0@ != self.entries@[j].0@
    }

    /// The cached list for a calendar id; a calendar never committed reads
    /// as the empty list.
    pub closed spec fn spec_cached(self, id: Seq<char>) -> Seq<CalendarEvent> {
        let k = key_index_from(self.entries@, id, 0);
        if k == -1 {
            Seq::empty()
        } else {
            self.entries@[k].1@
        }
    }

    pub exec fn new() -> (r: EventsCache)
        ensures
            r.wf(),
            forall|id: Seq<char>| r.spec_cached(id) == Seq::<CalendarEvent>::empty(),
    {
        let r = EventsCache { entries: Vec::new() };
        proof {
            assert forall|id: Seq<char>| r.spec_cached(id) == Seq::<CalendarEvent>::empty() by {
                assert(key_index_from(r.entries@, id, 0) == -1);
            }
        }
        r
    }

    /// Find this calendar's entry index, if any.
    fn find(&self, calendar_id: &String) -> (r: Option<usize>)
        ensures
            match r {
                Some(i) => i as int == key_index_from(self.entries@, calendar_id@, 0) && (
                i as int) < self.entries@.len(),
                None => key_index_from(self.entries@, calendar_id@, 0) == -1,
            },
    {
        let mut i: usize = 0;
        while i < self.entries.len()
            invariant
                0 <= i <= self.entries@.len(),
                key_index_from(self.entries@, calendar_id@, 0) == key_index_from(
                    self.entries@,
                    calendar_id@,
                    i as int,
                ),
            decreases self.entries@.len() - i,
        {
            if self.entries[i].0 == *calendar_id {
                return Some(i);
            }
            i = i + 1;
        }
        None
    }

    /// The cached event list for a calendar, or `None` when nothing was
    /// committed yet (which compares as the empty list).
    pub exec fn lookup(&self, calendar_id: &String) -> (r: Option<&Vec<CalendarEvent>>)
        ensures
            (match r {
                Some(v) => v@,
                None => Seq::<CalendarEvent>::empty(),
            }) == self.spec_cached(calendar_id@),
            r is None ==> self.spec_cached(calendar_id@) == Seq::<CalendarEvent>::empty(),
    {
        match self.find(calendar_id) {
            Some(i) => Some(&self.entries[i].1),
            None => None,
        }
    }

    /// Whether the calendar's new fetch calls for an update: the lists
    /// differ positionally, or a subscription forces one.
    pub exec fn should_update(
        &self,
        calendar_id: &String,
        new_events: &Vec<CalendarEvent>,
        any_force_update: bool,
    ) -> (r: bool)
        ensures
            r == spec_should_update(
                self.spec_cached(calendar_id@),
                new_events@,
                any_force_update,
            ),
    {
        let matched: bool = match self.lookup(calendar_id) {
            Some(cached) => lists_match(cached, new_events),
            None => new_events.len() == 0,
        };
        !matched || any_force_update
    }

    /// Replace the cached list for this calendar with the new one, whether
    /// or not an update was emitted; every other calendar's cache is kept.
    pub exec fn commit(&mut self, calendar_id: &String, new_events: Vec<CalendarEvent>)
        requires
            old(self).wf(),
        ensures
            final(self).wf(),
            final(self).spec_cached(calendar_id@) == new_events@,
            forall|id: Seq<char>|
                id != calendar_id@ ==> final(self).spec_cached(id) == old(self).spec_cached(id),
    {
        let ghost s_old = self.entries@;
        match self.find(calendar_id) {
            Some(i) => {
                proof {
                    lemma_key_index_properties(s_old, calendar_id@, 0);
                }
                let key = self.entries[i].0.clone();
                self.entries.remove(i);
                self.entries.insert(i, (key, new_events));
                proof {
                    let s_new = self.entries@;
                    assert(s_new =~= s_old.update(i as int, (key, new_events)));
                    assert(forall|j: int| 0 <= j < s_old.len() ==> s_new[j].0@ == s_old[j].0@);
                    assert forall|id: Seq<char>| #[trigger] final(self).spec_cached(id) == (if id
                        == calendar_id@ {
                        new_events@
                    } else {
                        old(self).spec_cached(id)
                    }) by {
                        lemma_key_index_same_keys(s_new, s_old, id, 0);
                        lemma_key_index_properties(s_old, id, 0);
                        let k = key_index_from(s_old, id, 0);
                        if id == calendar_id@ {
                            assert(k == i);
                        } else if k != -1 {
                            assert(s_old[k].0@ == id);
                            assert(k != i);
                        }
                    }
                }
            },
            None => {
                proof {
                    lemma_key_index_properties(s_old, calendar_id@, 0);
                }
                self.entries.push((calendar_id.clone(), new_events));
                proof {
                    let s_new = self.entries@;
                    assert(s_new =~= s_old.push(s_new.last()));
                    assert(s_new.last().0@ == calendar_id@);
                    assert forall|id: Seq<char>| #[trigger] final(self).spec_cached(id) == (if id
                        == calendar_id@ {
                        new_events@
                    } else {
                        old(self).spec_cached(id)
                    }) by {
                        lemma_key_index_push(s_old, s_new.last(), id, 0);
                        lemma_key_index_properties(s_old, id, 0);
                    }
                    assert(final(self).wf()) by {
                        assert(forall|j: int|
                            0 <= j < s_old.len() ==> s_old[j].0@ != calendar_id@);
                    }
                }
            },
        }
    }
}

/// No update is signalled without a force flag exactly when the cached and
/// the new list agree position by position and in length.
pub proof fn lemma_no_update_iff_positionally_equal(
    a: Seq<CalendarEvent>,
    b: Seq<CalendarEvent>,
)
    ensures
        !spec_should_update(a, b, false) <==> (a.len() == b.len() && (forall|i: int|
            0 <= i < a.len() ==> spec_event_eq(a[i], b[i]))),
{
}

/// A force flag alone makes an update due, whatever the lists hold.
pub proof fn lemma_force_update_always_updates(a: Seq<CalendarEvent>, b: Seq<CalendarEvent>)
    ensures
        spec_should_update(a, b, true),
{
}

} // verus!
