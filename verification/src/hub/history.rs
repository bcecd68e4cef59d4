//! A byte- and count-bounded broadcast log. Eviction makes slow readers lag.
//!
//! Every value ever sent has a sequence number. The log retains a suffix of
//! them, never more than [`History::COUNT`] values or [`History::BYTES`]
//! bytes, and a reader holds the number of the next value it wants: it gets
//! that value while it is retained, and is told how many it missed when it is
//! not.
use vstd::prelude::*;

verus! {

/// Why a read gave no value.
#[derive(Debug, Clone, Copy, PartialEq, Eq, Structural)]
pub enum TryRecvError {
    /// Nothing new, and publication continues.
    Empty,
    /// Nothing new, and publication has ended.
    Closed,
    /// The reader fell behind and this many values were evicted before it
    /// read them; it now reads from the oldest retained value.
    Lagged(u64),
}

/// The total size of retained values.
pub open spec fn total<T>(entries: Seq<(T, usize)>) -> nat
    decreases entries.len(),
{
    if entries.len() == 0 {
        0
    } else {
        entries[0].1 as nat + total(entries.drop_first())
    }
}

pub proof fn lemma_total_push<T>(entries: Seq<(T, usize)>, e: (T, usize))
    ensures
        total(entries.push(e)) == total(entries) + e.1,
    decreases entries.len(),
{
    if entries.len() > 0 {
        assert(entries.push(e).drop_first() =~= entries.drop_first().push(e));
        assert(entries.push(e)[0] == entries[0]);
        lemma_total_push(entries.drop_first(), e);
    } else {
        assert(entries.push(e).drop_first() =~= Seq::<(T, usize)>::empty());
        assert(total(Seq::<(T, usize)>::empty()) == 0);
        assert(entries.push(e)[0] == e);
    }
}

/// How many of the oldest values have to go before one of `size` bytes fits.
pub open spec fn evictions<T>(entries: Seq<(T, usize)>, size: usize) -> nat
    decreases entries.len(),
{
    if entries.len() > 0 && (entries.len() >= 64 || total(entries) + size > 8 * 1024 * 1024) {
        1 + evictions(entries.drop_first(), size)
    } else {
        0
    }
}

pub proof fn lemma_evictions_bound<T>(entries: Seq<(T, usize)>, size: usize)
    ensures
        evictions(entries, size) <= entries.len(),
    decreases entries.len(),
{
    if entries.len() > 0 {
        lemma_evictions_bound(entries.drop_first(), size);
    }
}

/// The values retained after a send of `value`.
pub open spec fn after_send<T>(entries: Seq<(T, usize)>, value: T, size: usize) -> Seq<(T, usize)> {
    entries.skip(evictions(entries, size) as int).push((value, size))
}

/// The log.
pub struct History<T> {
    entries: Vec<(T, usize)>,
    bytes: usize,
    next: u64,
    sent: Ghost<Seq<T>>,
}

/// A reader: the number of the next value it wants.
#[derive(Debug, Clone, Copy, PartialEq, Eq)]
pub struct Receiver {
    next: u64,
}

impl Receiver {
    pub closed spec fn position(&self) -> u64 {
        self.next
    }
}

impl<T> History<T> {
    /// Values retained, at most.
    pub const COUNT: usize = 64;
    /// Bytes retained, at most.
    pub const BYTES: usize = 8388608;

    /// Every value sent, in order; the value numbered `n` is `sent()[n]`.
    pub closed spec fn sent(&self) -> Seq<T> {
        self.sent@
    }

    /// The retained values, oldest first.
    pub closed spec fn retained(&self) -> Seq<(T, usize)> {
        self.entries@
    }

    /// The number of the oldest retained value.
    pub open spec fn oldest(&self) -> int {
        self.sent().len() - self.retained().len()
    }

    #[verifier::type_invariant]
    spec fn consistent(&self) -> bool {
        &&& self.entries@.len() <= 64
        &&& self.bytes as nat == total(self.entries@)
        &&& self.bytes <= 8 * 1024 * 1024
        &&& self.sent@.len() == self.next as nat
        &&& self.entries@.len() <= self.next
        &&& forall|k: int|
            0 <= k < self.entries@.len() ==> (#[trigger] self.entries@[k]).0 == self.sent@[self.next
                - self.entries@.len() + k]
    }

    pub fn new() -> (r: Self)
        ensures
            r.sent().len() == 0,
            r.retained().len() == 0,
    {
        History { entries: Vec::new(), bytes: 0, next: 0, sent: Ghost(Seq::empty()) }
    }

    /// Publishers validate individual sizes before committing authoritative
    /// state: a value larger than the whole log cannot be sent.
    pub fn send(&mut self, value: T, size: usize)
        requires
            size <= 8 * 1024 * 1024,
            old(self).sent().len() < u64::MAX,
        ensures
            final(self).sent() == old(self).sent().push(value),
            final(self).retained() == after_send(old(self).retained(), value, size),
            final(self).retained().len() <= 64,
            total(final(self).retained()) <= 8 * 1024 * 1024,
    {
        proof {
            use_type_invariant(&*self);
            lemma_evictions_bound(self.entries@, size);
        }
        let ghost before = self.entries@;
        let mut this = History::new();
        std::mem::swap(&mut this, self);
        let History { entries, bytes, next, sent } = this;
        let mut entries = entries;
        let mut bytes = bytes;
        let ghost mut dropped: nat = 0;
        while entries.len() > 0 && (entries.len() >= 64 || bytes + size > 8388608)
            invariant
                bytes as nat == total(entries@),
                bytes <= 8 * 1024 * 1024,
                size <= 8 * 1024 * 1024,
                entries@ == before.skip(dropped as int),
                dropped <= before.len(),
                evictions(before, size) == dropped + evictions(entries@, size),
            decreases entries.len(),
        {
            let (_, evicted) = entries.remove(0);
            proof {
                assert(entries@ =~= before.skip(dropped as int).drop_first());
                assert(before.skip(dropped as int).drop_first() =~= before.skip((dropped + 1) as int));
                dropped = dropped + 1;
            }
            bytes = bytes - evicted;
        }
        proof {
            lemma_total_push(entries@, (value, size));
        }
        let ghost retained_before = entries@;
        let ghost new_sent = sent@.push(value);
        entries.push((value, size));
        proof {
            lemma_evictions_fit(before, size);
            assert(entries@ =~= after_send(before, value, size));
            assert forall|k: int| 0 <= k < entries@.len() implies (#[trigger] entries@[k]).0
                == new_sent[next + 1 - entries@.len() + k] by {
                if k < entries@.len() - 1 {
                    assert(entries@[k] == before[dropped + k]);
                }
            }
        }
        *self = History { entries, bytes: bytes + size, next: next + 1, sent: Ghost(new_sent) };
    }

    /// A reader that starts with the next value sent.
    pub fn subscribe(&self) -> (r: Receiver)
        ensures
            r.position() == self.sent().len(),
    {
        proof {
            use_type_invariant(self);
        }
        Receiver { next: self.next }
    }
}

impl Receiver {
    /// The next value this reader wants. A reader behind the oldest retained
    /// value is told how many it missed and moves to the oldest; a reader that
    /// has seen everything is told whether more can come.
    pub fn try_recv<'a, T>(&mut self, history: &'a History<T>, closed: bool) -> (r: Result<&'a T, TryRecvError>)
        requires
            old(self).position() <= history.sent().len(),
        ensures
            final(self).position() <= history.sent().len(),
            old(self).position() < history.oldest() ==> r == Err::<&T, TryRecvError>(
                TryRecvError::Lagged((history.oldest() - old(self).position()) as u64),
            ) && final(self).position() == history.oldest(),
            history.oldest() <= old(self).position() < history.sent().len() ==> (r matches Ok(v)
                && *v == history.sent()[old(self).position() as int] && final(self).position()
                == old(self).position() + 1),
            old(self).position() == history.sent().len() ==> final(self).position() == old(self).position()
                && r == Err::<&T, TryRecvError>(if closed {
                TryRecvError::Closed
            } else {
                TryRecvError::Empty
            }),
    {
        proof {
            use_type_invariant(history);
        }
        let oldest = history.next - history.entries.len() as u64;
        if self.next < oldest {
            let missed = oldest - self.next;
            self.next = oldest;
            return Err(TryRecvError::Lagged(missed));
        }
        if self.next < history.next {
            let k = (self.next - oldest) as usize;
            let value = &history.entries[k].0;
            self.next = self.next + 1;
            return Ok(value);
        }
        if closed {
            Err(TryRecvError::Closed)
        } else {
            Err(TryRecvError::Empty)
        }
    }
}

/// A reader never misses a value without being told: each read either gives
/// the value numbered by its position, or reports how many it skipped and the
/// position it resumes from.
pub proof fn reads_account_for_every_value(before: u64, after: u64, oldest: int, missed: u64)
    requires
        before < oldest,
        after == oldest,
        missed == oldest - before,
    ensures
        before + missed == after,
{
}

/// What a send keeps: the new value last, after the most recent values that
/// fit beside it, oldest first.
pub proof fn send_keeps_the_newest<T>(entries: Seq<(T, usize)>, value: T, size: usize)
    requires
        size <= 8 * 1024 * 1024,
    ensures
        after_send(entries, value, size).last() == (value, size),
        after_send(entries, value, size).len() <= 64,
        forall|k: int| 0 <= k < after_send(entries, value, size).len() - 1 ==>
            #[trigger] after_send(entries, value, size)[k] == entries[evictions(entries, size) + k],
{
    lemma_evictions_bound(entries, size);
    lemma_evictions_fit(entries, size);
}

pub proof fn lemma_evictions_fit<T>(entries: Seq<(T, usize)>, size: usize)
    requires
        size <= 8 * 1024 * 1024,
    ensures
        entries.skip(evictions(entries, size) as int).len() < 64,
        total(entries.skip(evictions(entries, size) as int)) + size <= 8 * 1024 * 1024,
    decreases entries.len(),
{
    if entries.len() > 0 && (entries.len() >= 64 || total(entries) + size > 8 * 1024 * 1024) {
        lemma_evictions_fit(entries.drop_first(), size);
        lemma_evictions_bound(entries.drop_first(), size);
        assert(evictions(entries, size) == 1 + evictions(entries.drop_first(), size));
        assert(entries.skip(evictions(entries, size) as int) =~= entries.drop_first().skip(
            evictions(entries.drop_first(), size) as int,
        ));
    } else {
        assert(entries.skip(0) =~= entries);
    }
}

/// Whether a run of values fits the log's bounds.
pub open spec fn fits<T>(entries: Seq<(T, usize)>) -> bool {
    entries.len() <= 64 && total(entries) <= 8 * 1024 * 1024
}

/// How many of the oldest values to leave out for the rest to fit.
pub open spec fn unfit_prefix<T>(entries: Seq<(T, usize)>) -> nat
    decreases entries.len(),
{
    if entries.len() > 0 && !fits(entries) {
        1 + unfit_prefix(entries.drop_first())
    } else {
        0
    }
}

/// The longest run of the newest values that fits the log's bounds.
pub open spec fn longest_fitting<T>(entries: Seq<(T, usize)>) -> Seq<(T, usize)> {
    entries.skip(unfit_prefix(entries) as int)
}

/// What the log retains after sending each of `sends` (value and size) in
/// order, starting empty.
pub open spec fn retained_after<T>(sends: Seq<(T, usize)>) -> Seq<(T, usize)>
    decreases sends.len(),
{
    if sends.len() == 0 {
        Seq::empty()
    } else {
        after_send(retained_after(sends.drop_last()), sends.last().0, sends.last().1)
    }
}

/// Whether a value of `size` fits beside `entries`.
pub open spec fn room_for<T>(entries: Seq<(T, usize)>, size: usize) -> bool {
    entries.len() < 64 && total(entries) + size <= 8 * 1024 * 1024
}

proof fn lemma_total_drop<T>(s: Seq<(T, usize)>, i: int)
    requires
        0 <= i < s.len(),
    ensures
        total(s.skip(i + 1)) <= total(s.skip(i)),
{
    assert(s.skip(i).drop_first() =~= s.skip(i + 1));
}

proof fn lemma_unfit_prefix<T>(s: Seq<(T, usize)>)
    ensures
        unfit_prefix(s) <= s.len(),
        fits(s.skip(unfit_prefix(s) as int)),
        forall|i: int| 0 <= i < unfit_prefix(s) ==> !fits(#[trigger] s.skip(i)),
    decreases s.len(),
{
    if s.len() > 0 && !fits(s) {
        let d = s.drop_first();
        lemma_unfit_prefix(d);
        assert(s.skip(unfit_prefix(s) as int) =~= d.skip(unfit_prefix(d) as int));
        assert forall|i: int| 0 <= i < unfit_prefix(s) implies !fits(#[trigger] s.skip(i)) by {
            if i > 0 {
                assert(s.skip(i) =~= d.skip(i - 1));
            } else {
                assert(s.skip(0) =~= s);
            }
        }
    } else {
        assert(s.skip(0) =~= s);
        if s.len() == 0 {
            assert(total(s) == 0);
        }
    }
}

proof fn lemma_evictions_first<T>(s: Seq<(T, usize)>, size: usize)
    requires
        size <= 8 * 1024 * 1024,
    ensures
        evictions(s, size) <= s.len(),
        room_for(s.skip(evictions(s, size) as int), size),
        forall|i: int| 0 <= i < evictions(s, size) ==> !room_for(#[trigger] s.skip(i), size),
    decreases s.len(),
{
    lemma_evictions_bound(s, size);
    lemma_evictions_fit(s, size);
    if s.len() > 0 && (s.len() >= 64 || total(s) + size > 8 * 1024 * 1024) {
        let d = s.drop_first();
        lemma_evictions_first(d, size);
        assert forall|i: int| 0 <= i < evictions(s, size) implies !room_for(#[trigger] s.skip(i), size) by {
            if i > 0 {
                assert(s.skip(i) =~= d.skip(i - 1));
            } else {
                assert(s.skip(0) =~= s);
            }
        }
    }
}

proof fn lemma_send_keeps_longest_fitting<T>(s: Seq<(T, usize)>, value: T, size: usize)
    requires
        size <= 8 * 1024 * 1024,
    ensures
        after_send(longest_fitting(s), value, size) == longest_fitting(s.push((value, size))),
{
    let x = (value, size);
    let t = s.push(x);
    let k = unfit_prefix(s) as int;
    let f = s.skip(k);
    lemma_unfit_prefix(s);
    lemma_unfit_prefix(t);
    lemma_evictions_first(f, size);
    let e = evictions(f, size) as int;
    let m = k + e;
    // Past the first `i` values, the sends fit exactly when the remaining
    // older values leave room for the new one.
    assert forall|i: int| 0 <= i <= s.len() implies (fits(#[trigger] t.skip(i)) <==> room_for(s.skip(i), size)) by {
        assert(t.skip(i) =~= s.skip(i).push(x));
        lemma_total_push(s.skip(i), x);
    }
    // Leaving out fewer than `k` values does not even fit without the new one.
    assert forall|i: int| 0 <= i < k implies !room_for(#[trigger] s.skip(i), size) by {
        assert(!fits(s.skip(i)));
    }
    assert forall|i: int| k <= i < m implies !room_for(#[trigger] s.skip(i), size) by {
        assert(f.skip(i - k) =~= s.skip(i));
        assert(!room_for(f.skip(i - k), size));
    }
    assert(f.skip(e) =~= s.skip(m));
    assert(room_for(s.skip(m), size));
    let n = unfit_prefix(t) as int;
    assert(m <= s.len());
    assert(fits(t.skip(m)));
    if n < m {
        assert(fits(t.skip(n)));
        assert(!room_for(s.skip(n), size));
    } else if n > m {
        assert(!fits(t.skip(m)));
    }
    assert(n == m);
    assert(after_send(f, value, size) =~= t.skip(m)) by {
        assert(f.skip(e) =~= s.skip(m));
        assert(t.skip(m) =~= s.skip(m).push(x));
    }
}

/// The log keeps the newest values that fit: whatever was sent, the values
/// retained are the longest run of the most recent sends that holds no more
/// than the count bound and no more than the byte bound.
pub proof fn retains_the_longest_fitting_suffix<T>(sends: Seq<(T, usize)>)
    requires
        forall|i: int| 0 <= i < sends.len() ==> (#[trigger] sends[i]).1 <= 8 * 1024 * 1024,
    ensures
        retained_after(sends) == longest_fitting(sends),
    decreases sends.len(),
{
    if sends.len() == 0 {
        assert(sends.skip(0) =~= sends);
    } else {
        let init = sends.drop_last();
        assert forall|i: int| 0 <= i < init.len() implies (#[trigger] init[i]).1 <= 8 * 1024 * 1024 by {
            assert(init[i] == sends[i]);
        }
        retains_the_longest_fitting_suffix(init);
        let last = sends.last();
        assert(last == sends[sends.len() - 1]);
        lemma_send_keeps_longest_fitting(init, last.0, last.1);
        assert(init.push((last.0, last.1)) =~= sends);
    }
}

} // verus!
