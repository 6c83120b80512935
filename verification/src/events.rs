//! Counters of named game events (kills, levels reached, ...), kept for the
//! end-of-game summary.

use vstd::prelude::*;

verus! {

pub struct EventCount {
    pub name: String,
    pub count: i32,
}

/// A table from event names to the number of times each event happened.
pub struct EventLog {
    entries: Vec<EventCount>,
}

impl EventLog {
    #[verifier::type_invariant]
    spec fn names_distinct(&self) -> bool {
        forall|i: int, j: int|
            0 <= i < self.entries@.len() && 0 <= j < self.entries@.len() && i != j
                ==> #[trigger] self.entries@[i].name@ != #[trigger] self.entries@[j].name@
    }

    /// The event counts, keyed by event name.
    pub closed spec fn view(&self) -> Map<Seq<char>, i32> {
        Map::new(
            |k: Seq<char>| exists|i: int| 0 <= i < self.entries@.len() && #[trigger] self.entries@[i].name@ == k,
            |k: Seq<char>| self.entries@[choose|i: int| 0 <= i < self.entries@.len() && #[trigger] self.entries@[i].name@ == k].count,
        )
    }

    proof fn lemma_lookup(&self, i: int)
        requires
            self.names_distinct(),
            0 <= i < self.entries@.len(),
        ensures
            self.view().dom().contains(self.entries@[i].name@),
            self.view()[self.entries@[i].name@] == self.entries@[i].count,
    {
        let k = self.entries@[i].name@;
        assert(self.view().dom().contains(k));
        let j = choose|j: int| 0 <= j < self.entries@.len() && #[trigger] self.entries@[j].name@ == k;
        assert(self.entries@[j].name@ == k);
        if j != i {
            assert(self.entries@[i].name@ != self.entries@[j].name@);
        }
    }

    /// An empty table.
    pub fn new() -> (log: EventLog)
        ensures
            log.view() == Map::<Seq<char>, i32>::empty(),
    {
        let log = EventLog { entries: Vec::new() };
        assert(log.view() =~= Map::<Seq<char>, i32>::empty());
        log
    }

    /// The position of the entry named `name`, if there is one.
    fn find(&self, name: &String) -> (pos: Option<usize>)
        ensures
            match pos {
                Some(i) => i < self.entries@.len() && self.entries@[i as int].name@ == name@,
                None => forall|i: int| 0 <= i < self.entries@.len() ==> #[trigger] self.entries@[i].name@ != name@,
            },
    {
        let mut i: usize = 0;
        while i < self.entries.len()
            invariant
                i <= self.entries@.len(),
                forall|j: int| 0 <= j < i ==> #[trigger] self.entries@[j].name@ != name@,
            decreases self.entries@.len() - i,
        {
            if self.entries[i].name == *name {
                return Some(i);
            }
            i = i + 1;
        }
        None
    }
}

/// The count of `event` in the table `m`: its entry, or 0 when it has none.
pub open spec fn count_in(m: Map<Seq<char>, i32>, event: Seq<char>) -> int {
    if m.dom().contains(event) {
        m[event] as int
    } else {
        0
    }
}

/// The table after `n` more occurrences of `event`.
pub open spec fn recorded(m: Map<Seq<char>, i32>, event: Seq<char>, n: i32) -> Map<Seq<char>, i32> {
    m.insert(event, (count_in(m, event) + n) as i32)
}

/// The table after asking for the count of `event`: an absent event is entered with 0.
pub open spec fn counted(m: Map<Seq<char>, i32>, event: Seq<char>) -> Map<Seq<char>, i32> {
    if m.dom().contains(event) {
        m
    } else {
        m.insert(event, 0)
    }
}

/// Whether `n` more occurrences of `event` keep its count within `i32`.
pub open spec fn can_record(m: Map<Seq<char>, i32>, event: Seq<char>, n: i32) -> bool {
    i32::MIN <= count_in(m, event) + n <= i32::MAX
}

/// Forgets every event.
pub fn clear_events(log: &mut EventLog)
    ensures
        final(log).view() == Map::<Seq<char>, i32>::empty(),
{
    *log = EventLog::new();
}

/// Adds `n` to the count of `event`; an event seen for the first time starts at `n`.
pub fn record_event(log: &mut EventLog, event: &str, n: i32)
    requires
        can_record(old(log).view(), event@, n),
    ensures
        final(log).view() == recorded(old(log).view(), event@, n),
{
    proof { use_type_invariant(&*log); }
    let name = event.to_owned();
    let ghost before = log.view();
    match log.find(&name) {
        Some(i) => {
            proof { log.lemma_lookup(i as int); }
            let updated = EventCount { name: name, count: log.entries[i].count + n };
            let ghost old_entries = log.entries@;
            let mut taken = EventLog::new();
            std::mem::swap(log, &mut taken);
            let mut entries = taken.entries;
            entries.set(i, updated);
            proof {
                assert forall|a: int, b: int|
                    0 <= a < entries@.len() && 0 <= b < entries@.len() && a != b
                        implies #[trigger] entries@[a].name@ != #[trigger] entries@[b].name@ by {
                    assert(old_entries[a].name@ != old_entries[b].name@);
                }
            }
            *log = EventLog { entries };
            proof {
                assert forall|k: Seq<char>| #[trigger] log.view().dom().contains(k) == before.insert(event@, (before[event@] + n) as i32).dom().contains(k) by {
                    if before.dom().contains(k) {
                        let j = choose|j: int| 0 <= j < old_entries.len() && #[trigger] old_entries[j].name@ == k;
                        assert(log.entries@[j].name@ == k);
                    }
                    if log.view().dom().contains(k) {
                        let j = choose|j: int| 0 <= j < log.entries@.len() && #[trigger] log.entries@[j].name@ == k;
                        assert(old_entries[j].name@ == k);
                    }
                }
                assert forall|k: Seq<char>| #[trigger] log.view().dom().contains(k) implies log.view()[k] == before.insert(event@, (before[event@] + n) as i32)[k] by {
                    let j = choose|j: int| 0 <= j < log.entries@.len() && #[trigger] log.entries@[j].name@ == k;
                    log.lemma_lookup(j);
                    if j != i as int {
                        assert(old_entries[j].name@ == k);
                        assert(k != event@);
                    }
                }
                assert(log.view() =~= before.insert(event@, (before[event@] + n) as i32));
            }
        },
        None => {
            let ghost old_entries = log.entries@;
            let mut taken = EventLog::new();
            std::mem::swap(log, &mut taken);
            let mut entries = taken.entries;
            entries.push(EventCount { name: name, count: n });
            proof {
                assert forall|a: int, b: int|
                    0 <= a < entries@.len() && 0 <= b < entries@.len() && a != b
                        implies #[trigger] entries@[a].name@ != #[trigger] entries@[b].name@ by {
                    if a < old_entries.len() && b < old_entries.len() {
                        assert(old_entries[a].name@ != old_entries[b].name@);
                    } else if a < old_entries.len() {
                        assert(old_entries[a].name@ != event@);
                    } else {
                        assert(old_entries[b].name@ != event@);
                    }
                }
            }
            *log = EventLog { entries };
            proof {
                let last = old_entries.len() as int;
                assert forall|k: Seq<char>| #[trigger] log.view().dom().contains(k) == before.insert(event@, n).dom().contains(k) by {
                    if before.dom().contains(k) {
                        let j = choose|j: int| 0 <= j < old_entries.len() && #[trigger] old_entries[j].name@ == k;
                        assert(log.entries@[j].name@ == k);
                    }
                    if k == event@ {
                        assert(log.entries@[last].name@ == k);
                    }
                    if log.view().dom().contains(k) && k != event@ {
                        let j = choose|j: int| 0 <= j < log.entries@.len() && #[trigger] log.entries@[j].name@ == k;
                        assert(old_entries[j].name@ == k);
                    }
                }
                assert forall|k: Seq<char>| #[trigger] log.view().dom().contains(k) implies log.view()[k] == before.insert(event@, n)[k] by {
                    let j = choose|j: int| 0 <= j < log.entries@.len() && #[trigger] log.entries@[j].name@ == k;
                    log.lemma_lookup(j);
                    if j != last {
                        assert(old_entries[j].name@ == k);
                        assert(before.dom().contains(k));
                        let m = choose|m: int| 0 <= m < old_entries.len() && #[trigger] old_entries[m].name@ == k;
                        assert(old_entries[m].name@ == k);
                        if m != j {
                            assert(log.entries@[m].name@ == k);
                        }
                    }
                }
                assert(log.view() =~= before.insert(event@, n));
                assert(recorded(before, event@, n) == before.insert(event@, n));
            }
        },
    }
}

/// The count of `event`, or 0 if it never happened; an event asked about for the
/// first time is entered with the count 0.
pub fn get_event_count(log: &mut EventLog, event: &str) -> (count: i32)
    ensures
        count == count_in(old(log).view(), event@),
        final(log).view() == counted(old(log).view(), event@),
{
    proof { use_type_invariant(&*log); }
    let name = event.to_owned();
    match log.find(&name) {
        Some(i) => {
            proof { log.lemma_lookup(i as int); }
            log.entries[i].count
        },
        None => {
            proof {
                assert(!log.view().dom().contains(event@));
            }
            record_event(log, event, 0);
            0
        },
    }
}

/// Recording `n` occurrences of an event raises its count by exactly `n`.
pub proof fn law_record_adds(m: Map<Seq<char>, i32>, event: Seq<char>, n: i32)
    requires
        can_record(m, event, n),
    ensures
        count_in(recorded(m, event, n), event) == count_in(m, event) + n,
{
}

/// Recording one event leaves the count of every other event unchanged.
pub proof fn law_record_isolated(m: Map<Seq<char>, i32>, event: Seq<char>, other: Seq<char>, n: i32)
    requires
        event != other,
    ensures
        count_in(recorded(m, event, n), other) == count_in(m, other),
{
}

/// After the table is cleared every event counts 0.
pub proof fn law_cleared_counts_zero(event: Seq<char>)
    ensures
        count_in(Map::<Seq<char>, i32>::empty(), event) == 0,
{
}

/// Asking for a count changes no event's count.
pub proof fn law_count_is_read_only(m: Map<Seq<char>, i32>, event: Seq<char>, other: Seq<char>)
    ensures
        count_in(counted(m, event), other) == count_in(m, other),
{
}

} // verus!
