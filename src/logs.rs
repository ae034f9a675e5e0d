use std::collections::VecDeque;
use vstd::prelude::*;

verus! {

/// Number of entries each service keeps in its ring buffer.
pub const LOG_BUFFER_CAPACITY: usize = 1000;

/// Which output stream of a child a line came from.
#[derive(Debug, Clone, Copy, PartialEq, Eq, Structural)]
pub enum LogStream {
    Stdout,
    Stderr,
}

/// One line of output of a service, newline stripped.
#[derive(Debug, Clone)]
pub struct LogEntry {
    /// Seconds since the Unix epoch.
    pub timestamp: u64,
    pub stream: LogStream,
    pub line: String,
}

impl LogEntry {
    /// A copy of this entry, equal to it.
    pub fn duplicate(&self) -> (r: LogEntry)
        ensures
            r == *self,
    {
        LogEntry { timestamp: self.timestamp, stream: self.stream, line: self.line.clone() }
    }
}

/// The last `n` elements of `s` (all of `s` when it is shorter).
pub open spec fn keep_last<T>(s: Seq<T>, n: nat) -> Seq<T> {
    if s.len() <= n {
        s
    } else {
        s.subrange(s.len() - n, s.len() as int)
    }
}

/// The contents of a buffer of capacity `cap` holding `start`, after pushing
/// each of `pushed` in order.
pub open spec fn after_pushes(start: Seq<LogEntry>, cap: nat, pushed: Seq<LogEntry>) -> Seq<
    LogEntry,
>
    decreases pushed.len(),
{
    if pushed.len() == 0 {
        start
    } else {
        keep_last(after_pushes(start, cap, pushed.drop_last()).push(pushed.last()), cap)
    }
}

/// Bounded FIFO of log entries: when full, the oldest entry is dropped
/// before a new one is appended.
#[derive(Debug, Clone)]
pub struct LogBuffer {
    entries: VecDeque<LogEntry>,
    capacity: usize,
}

impl View for LogBuffer {
    type V = Seq<LogEntry>;

    closed spec fn view(&self) -> Seq<LogEntry> {
        self.entries@
    }
}

impl LogBuffer {
    /// The most entries this buffer holds.
    pub closed spec fn spec_capacity(&self) -> nat {
        self.capacity as nat
    }

    pub closed spec fn wf(&self) -> bool {
        self.entries@.len() <= self.capacity
    }

    pub fn new(capacity: usize) -> (r: LogBuffer)
        ensures
            r.wf(),
            r@ == Seq::<LogEntry>::empty(),
            r.spec_capacity() == capacity,
    {
        LogBuffer { entries: VecDeque::with_capacity(capacity), capacity }
    }

    pub fn capacity(&self) -> (r: usize)
        ensures
            r == self.spec_capacity(),
    {
        self.capacity
    }

    pub fn len(&self) -> (r: usize)
        requires
            self.wf(),
        ensures
            r == self@.len(),
    {
        self.entries.len()
    }

    /// Appends `entry`, first dropping the oldest entry when the buffer is
    /// full. A buffer of capacity zero keeps nothing.
    pub fn push(&mut self, entry: LogEntry)
        requires
            old(self).wf(),
        ensures
            final(self).wf(),
            final(self).spec_capacity() == old(self).spec_capacity(),
            final(self)@ == keep_last(old(self)@.push(entry), old(self).spec_capacity()),
    {
        if self.capacity == 0 {
            return;
        }
        if self.entries.len() == self.capacity {
            self.entries.pop_front();
        }
        self.entries.push_back(entry);
        assert(final(self)@ =~= keep_last(old(self)@.push(entry), old(self).spec_capacity()));
    }

    /// The last `min(count, len)` entries, oldest first.
    pub fn tail(&self, count: usize) -> (r: Vec<LogEntry>)
        requires
            self.wf(),
        ensures
            r@ == keep_last(self@, count as nat),
            count >= self@.len() ==> r@ == self@,
            count == 0 ==> r@.len() == 0,
    {
        let len = self.entries.len();
        let n = if count < len { count } else { len };
        let start: usize = len - n;
        let mut out: Vec<LogEntry> = Vec::new();
        let mut i: usize = start;
        while i < len
            invariant
                len == self@.len(),
                start <= i <= len,
                out@ == self@.subrange(start as int, i as int),
            decreases len - i,
        {
            out.push(self.entries[i].duplicate());
            i = i + 1;
            assert(out@ =~= self@.subrange(start as int, i as int));
        }
        assert(self@.subrange(0, len as int) =~= self@);
        out
    }

    /// Every entry, oldest first.
    pub fn all(&self) -> (r: Vec<LogEntry>)
        requires
            self.wf(),
        ensures
            r@ == self@,
    {
        self.tail(self.entries.len())
    }

    pub fn clear(&mut self)
        requires
            old(self).wf(),
        ensures
            final(self).wf(),
            final(self).spec_capacity() == old(self).spec_capacity(),
            final(self)@ == Seq::<LogEntry>::empty(),
    {
        self.entries.clear();
    }
}

impl Default for LogBuffer {
    fn default() -> (r: LogBuffer)
        ensures
            r.wf(),
            r@ == Seq::<LogEntry>::empty(),
            r.spec_capacity() == LOG_BUFFER_CAPACITY,
    {
        LogBuffer::new(LOG_BUFFER_CAPACITY)
    }
}

/// Pushing entries one by one into an empty buffer of capacity `cap`
/// leaves exactly the last `min(N, cap)` of them, in the order pushed.
pub proof fn lemma_pushes_keep_last(cap: nat, pushed: Seq<LogEntry>)
    ensures
        after_pushes(Seq::empty(), cap, pushed) == keep_last(pushed, cap),
        after_pushes(Seq::empty(), cap, pushed).len() == if pushed.len() <= cap {
            pushed.len()
        } else {
            cap
        },
    decreases pushed.len(),
{
    if pushed.len() > 0 {
        let prefix = pushed.drop_last();
        lemma_pushes_keep_last(cap, prefix);
        assert(prefix.push(pushed.last()) =~= pushed);
        let k = keep_last(prefix, cap);
        assert(keep_last(k.push(pushed.last()), cap) =~= keep_last(pushed, cap));
    }
}

} // verus!
