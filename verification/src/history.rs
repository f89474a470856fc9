//! The newest entries the agent keeps, so that a viewer that connects
//! later first sees what happened just before.

use vstd::prelude::*;
use crate::common::LogEntry;

verus! {

/// How many entries the agent keeps for viewers that connect later.
pub const HISTORY_CAPACITY: usize = 150;

/// The last `capacity` elements of `s` (all of `s` when it is shorter).
pub open spec fn keep_last(s: Seq<LogEntry>, capacity: nat) -> Seq<LogEntry> {
    if s.len() > capacity {
        s.skip(s.len() - capacity)
    } else {
        s
    }
}

/// A bounded history of entries, oldest first.
pub struct History {
    capacity: usize,
    entries: Vec<LogEntry>,
}

impl History {
    #[verifier::type_invariant]
    spec fn bounded(self) -> bool {
        self.entries@.len() <= self.capacity
    }

    /// How many entries are kept at most.
    pub closed spec fn capacity(self) -> nat {
        self.capacity as nat
    }

    /// The entries kept, oldest first.
    pub closed spec fn entries(self) -> Seq<LogEntry> {
        self.entries@
    }

    /// An empty history keeping at most `capacity` entries.
    pub fn new(capacity: usize) -> (h: History)
        ensures
            h.capacity() == capacity,
            h.entries() == Seq::<LogEntry>::empty(),
    {
        History { capacity, entries: Vec::new() }
    }

    /// Adds an entry, dropping the oldest one when the history is full.
    pub fn add_log(&mut self, entry: LogEntry)
        ensures
            final(self).capacity() == old(self).capacity(),
            final(self).entries() == keep_last(old(self).entries().push(entry), old(self).capacity()),
    {
        proof {
            use_type_invariant(&*self);
        }
        let mut entries = Vec::new();
        std::mem::swap(&mut entries, &mut self.entries);
        let ghost before = entries@;
        entries.push(entry);
        if entries.len() > self.capacity {
            entries.remove(0);
            assert(entries@ =~= before.push(entry).skip(1));
        }
        self.entries = entries;
    }

    /// A copy of the entries kept, oldest first.
    pub fn get_snapshot(&self) -> (r: Vec<LogEntry>)
        ensures
            r@ == self.entries(),
    {
        let n = self.entries.len();
        let mut out: Vec<LogEntry> = Vec::new();
        let mut i: usize = 0;
        while i < n
            invariant
                n == self.entries@.len(),
                i <= n,
                out@ == self.entries@.take(i as int),
            decreases n - i,
        {
            out.push(self.entries[i].duplicate());
            assert(self.entries@.take(i + 1) =~= self.entries@.take(i as int).push(self.entries@[i as int]));
            i = i + 1;
        }
        assert(self.entries@.take(n as int) =~= self.entries@);
        out
    }
}

/// The history after adding `es` one by one.
pub open spec fn after_adding(kept: Seq<LogEntry>, capacity: nat, es: Seq<LogEntry>) -> Seq<LogEntry>
    decreases es.len(),
{
    if es.len() == 0 {
        kept
    } else {
        keep_last(after_adding(kept, capacity, es.drop_last()).push(es.last()), capacity)
    }
}

/// Starting empty, the history always holds the newest `capacity` entries
/// added, in the order they were added.
pub proof fn law_history_keeps_newest(capacity: nat, es: Seq<LogEntry>)
    ensures
        after_adding(Seq::empty(), capacity, es) == keep_last(es, capacity),
    decreases es.len(),
{
    if es.len() > 0 {
        let rest = es.drop_last();
        law_history_keeps_newest(capacity, rest);
        let k = keep_last(rest, capacity);
        if rest.len() > capacity {
            assert(k.push(es.last()).skip(1) =~= es.skip(es.len() - capacity));
        } else if es.len() > capacity {
            assert(k.push(es.last()) =~= es);
        } else {
            assert(k.push(es.last()) =~= es);
        }
    }
}

} // verus!
