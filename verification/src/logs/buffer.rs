//! The rolling buffer: the most recent records, oldest first, never more
//! than its capacity.

use vstd::prelude::*;
use crate::logs::entry::{LogEntry, LogEntryView};

verus! {

/// How many records the buffer keeps.
pub const MAX_BUFFER: usize = 1000;

/// The views of a sequence of records.
pub open spec fn views(entries: Seq<LogEntry>) -> Seq<LogEntryView> {
    entries.map_values(|e: LogEntry| e@)
}

/// The last `n` items of `s`, or all of `s` where it has fewer.
pub open spec fn last_of<A>(s: Seq<A>, n: int) -> Seq<A> {
    if s.len() <= n {
        s
    } else {
        s.skip(s.len() - n)
    }
}

/// The buffer `held` after `entry` arrives: `entry` goes to the tail, and
/// what then exceeds the capacity leaves from the head.
pub open spec fn appended(held: Seq<LogEntryView>, entry: LogEntryView) -> Seq<LogEntryView> {
    last_of(held.push(entry), MAX_BUFFER as int)
}

/// The buffer `held` after the records `arrivals` arrive one by one.
pub open spec fn appended_all(held: Seq<LogEntryView>, arrivals: Seq<LogEntryView>) -> Seq<
    LogEntryView,
>
    decreases arrivals.len(),
{
    if arrivals.len() == 0 {
        held
    } else {
        appended(appended_all(held, arrivals.drop_last()), arrivals.last())
    }
}

/// After any number of arrivals the buffer holds the most recent records,
/// as many as its capacity allows, in the order in which they arrived.
pub proof fn lemma_appended_all(held: Seq<LogEntryView>, arrivals: Seq<LogEntryView>)
    requires
        held.len() <= MAX_BUFFER,
    ensures
        appended_all(held, arrivals) == last_of(held + arrivals, MAX_BUFFER as int),
        appended_all(held, arrivals).len() <= MAX_BUFFER,
    decreases arrivals.len(),
{
    if arrivals.len() == 0 {
        assert(held + arrivals == held);
    } else {
        let before = arrivals.drop_last();
        lemma_appended_all(held, before);
        assert((held + before).push(arrivals.last()) == held + arrivals);
        assert(appended(last_of(held + before, MAX_BUFFER as int), arrivals.last()) == last_of(
            held + arrivals,
            MAX_BUFFER as int,
        ));
    }
}

/// A bounded store of records in order of arrival, oldest first.
pub struct LogBuffer {
    entries: Vec<LogEntry>,
}

impl View for LogBuffer {
    type V = Seq<LogEntryView>;

    closed spec fn view(&self) -> Seq<LogEntryView> {
        views(self.entries@)
    }
}

impl LogBuffer {
    #[verifier::type_invariant]
    spec fn within_capacity(&self) -> bool {
        self.entries.len() <= MAX_BUFFER
    }

    /// An empty buffer.
    pub fn new() -> (buffer: Self)
        ensures
            buffer@ == Seq::<LogEntryView>::empty(),
    {
        let buffer = LogBuffer { entries: Vec::new() };
        assert(buffer@ == Seq::<LogEntryView>::empty());
        buffer
    }

    /// How many records are held.
    pub fn len(&self) -> (n: usize)
        ensures
            n == self@.len(),
            n <= MAX_BUFFER,
    {
        proof {
            use_type_invariant(self);
        }
        self.entries.len()
    }

    /// Adds `entry` at the tail; what then exceeds the capacity is removed
    /// from the head in one step.
    pub fn append(&mut self, entry: LogEntry)
        ensures
            final(self)@ == appended(old(self)@, entry@),
            final(self)@.len() <= MAX_BUFFER,
    {
        proof {
            use_type_invariant(&*self);
        }
        let mut entries: Vec<LogEntry> = Vec::new();
        core::mem::swap(&mut entries, &mut self.entries);
        entries.push(entry);
        assert(views(entries@) == old(self)@.push(entry@));
        if entries.len() > MAX_BUFFER {
            let overflow: usize = entries.len() - MAX_BUFFER;
            let kept = entries.split_off(overflow);
            assert(views(kept@) == old(self)@.push(entry@).skip(overflow as int));
            entries = kept;
        }
        self.entries = entries;
    }

    /// The last `count` records, or all of them where fewer are held, in
    /// order of arrival.
    pub fn recent(&self, count: usize) -> (recent: Vec<LogEntry>)
        ensures
            views(recent@) == last_of(self@, count as int),
            recent@.len() <= count,
            recent@.len() <= self@.len(),
    {
        let n: usize = self.entries.len();
        let start: usize = if count >= n {
            0
        } else {
            n - count
        };
        let mut recent: Vec<LogEntry> = Vec::new();
        let mut i: usize = start;
        while i < n
            invariant
                start <= i <= n,
                n == self.entries.len(),
                recent@ == self.entries@.subrange(start as int, i as int),
            decreases n - i,
        {
            recent.push(self.entries[i].clone());
            i += 1;
        }
        assert(views(recent@) == views(self.entries@).skip(start as int));
        assert(views(self.entries@).skip(0) == views(self.entries@));
        recent
    }

    /// The records held, oldest first.
    pub fn entries(&self) -> (held: &Vec<LogEntry>)
        ensures
            views(held@) == self@,
            held@.len() <= MAX_BUFFER,
    {
        proof {
            use_type_invariant(self);
        }
        &self.entries
    }
}

} // verus!
