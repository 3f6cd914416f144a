//! Fixed-capacity history of percentages for sparklines.
use vstd::prelude::*;

verus! {

/// The last `cap` elements of `s` (all of `s` when it is not longer).
pub open spec fn last_n(s: Seq<u64>, cap: nat) -> Seq<u64> {
    if s.len() > cap {
        s.skip(s.len() - cap)
    } else {
        s
    }
}

/// A percentage clamped into 0..=100.
pub open spec fn clamp_pct(v: u64) -> u64 {
    if v > 100 {
        100
    } else {
        v
    }
}

/// The span of time that a sparkline shows, in milliseconds.
pub const HISTORY_WINDOW_MS: u64 = 60_000;

/// How many samples taken `interval_ms` apart fill the sparkline's window:
/// the window divided by the interval, at least one (the whole window when
/// the interval is 0).
pub fn history_capacity(interval_ms: u64) -> (r: usize)
    ensures
        r == if interval_ms == 0 {
            HISTORY_WINDOW_MS as int
        } else if HISTORY_WINDOW_MS / interval_ms >= 1 {
            (HISTORY_WINDOW_MS / interval_ms) as int
        } else {
            1
        },
{
    if interval_ms == 0 {
        return 60_000;
    }
    let n = HISTORY_WINDOW_MS / interval_ms;
    if n >= 1 {
        n as usize
    } else {
        1
    }
}

/// Fixed-capacity ring buffer for sparkline history.
pub struct RingBuffer {
    data: Vec<u64>,
    capacity: usize,
    /// Index of the oldest value once the buffer is full (0 until then);
    /// the next value is written there.
    oldest: usize,
    len: usize,
}

impl RingBuffer {
    /// The buffer's internal invariant, which every operation keeps: the
    /// storage holds `capacity` percentages, the first `len` of them in
    /// order until the buffer is full.
    #[verifier::type_invariant]
    spec fn wf(self) -> bool {
        &&& self.capacity >= 1
        &&& self.data@.len() == self.capacity
        &&& self.oldest < self.capacity
        &&& self.len <= self.capacity
        &&& self.len < self.capacity ==> self.oldest == 0
        &&& forall|i: int| 0 <= i < self.data@.len() ==> #[trigger] self.data@[i] <= 100
    }

    /// How many values the buffer keeps.
    pub closed spec fn cap(self) -> nat {
        self.capacity as nat
    }

    /// The kept values, oldest first.
    pub closed spec fn contents(self) -> Seq<u64> {
        if self.len < self.capacity {
            self.data@.take(self.len as int)
        } else {
            self.data@.skip(self.oldest as int) + self.data@.take(self.oldest as int)
        }
    }

    /// An empty buffer that keeps the last `capacity` values (at least one).
    pub fn new(capacity: usize) -> (r: Self)
        ensures
            r@ == Seq::<u64>::empty(),
            r@.len() <= r.cap(),
            r.cap() == if capacity >= 1 {
                capacity as nat
            } else {
                1
            },
    {
        let capacity = if capacity >= 1 {
            capacity
        } else {
            1
        };
        let mut data: Vec<u64> = Vec::new();
        let mut i: usize = 0;
        while i < capacity
            invariant
                i <= capacity,
                data@.len() == i,
                forall|k: int| 0 <= k < data@.len() ==> #[trigger] data@[k] == 0,
            decreases capacity - i,
        {
            data.push(0);
            i = i + 1;
        }
        let r = RingBuffer { data, capacity, oldest: 0, len: 0 };
        assert(r.contents() =~= Seq::<u64>::empty());
        r
    }

    /// Append a percentage, clamped to 100; the oldest value leaves once the
    /// buffer is full. The buffer never holds more than its capacity, and
    /// every value it holds is at most 100.
    pub fn push(&mut self, value: u64)
        ensures
            final(self).cap() == old(self).cap(),
            final(self)@ == last_n(old(self)@.push(clamp_pct(value)), old(self).cap()),
            final(self)@.len() <= final(self).cap(),
            forall|i: int| 0 <= i < final(self)@.len() ==> #[trigger] final(self)@[i] <= 100,
    {
        proof {
            use_type_invariant(&*self);
        }
        let v = if value > 100 {
            100
        } else {
            value
        };
        let ghost old_c = self.contents();
        let ghost old_data = self.data@;
        let ghost cap = self.capacity as int;
        if self.len < self.capacity {
            let ghost n = self.len as int;
            store(&mut self.data, self.len, v);
            self.len = self.len + 1;
            proof {
                assert(old_c =~= old_data.take(n));
                if self.len < self.capacity {
                    assert(self.contents() =~= old_c.push(v));
                } else {
                    assert(self.data@ =~= old_c.push(v));
                    assert(self.contents() =~= old_c.push(v));
                }
                assert(last_n(old_c.push(v), cap as nat) =~= old_c.push(v));
            }
        } else {
            let ghost o = self.oldest as int;
            store(&mut self.data, self.oldest, v);
            self.oldest = if self.oldest + 1 == self.capacity {
                0
            } else {
                self.oldest + 1
            };
            proof {
                let target = last_n(old_c.push(v), cap as nat);
                assert(old_c.len() == cap);
                let no = self.oldest as int;
                assert forall|i: int| 0 <= i < cap implies #[trigger] self.contents()[i]
                    == target[i] by {
                    if no == 0 {
                        assert(o == cap - 1);
                    }
                    if i < cap - no {
                        assert(self.contents()[i] == self.data@[no + i]);
                    } else {
                        assert(self.contents()[i] == self.data@[i - (cap - no)]);
                    }
                    assert(target[i] == old_c.push(v)[i + 1]);
                    if i + 1 < cap {
                        if i + 1 < cap - o {
                            assert(old_c[i + 1] == old_data[o + i + 1]);
                        } else {
                            assert(old_c[i + 1] == old_data[i + 1 - (cap - o)]);
                        }
                    }
                }
                assert(self.contents() =~= target);
            }
        }
        proof {
            use_type_invariant(&*self);
            self.lemma_contents_bounded();
        }
    }

    /// The kept values in chronological order, oldest first: at most the
    /// capacity of them, each at most 100.
    pub fn to_vec(&self) -> (r: Vec<u64>)
        ensures
            r@ == self@,
            r@.len() <= self.cap(),
            forall|i: int| 0 <= i < r@.len() ==> #[trigger] r@[i] <= 100,
    {
        proof {
            use_type_invariant(self);
            self.lemma_contents_bounded();
        }
        let mut r: Vec<u64> = Vec::new();
        if self.len < self.capacity {
            let mut i: usize = 0;
            while i < self.len
                invariant
                    i <= self.len <= self.data@.len(),
                    r@ == self.data@.take(i as int),
                decreases self.len - i,
            {
                r.push(self.data[i]);
                assert(r@ =~= self.data@.take(i + 1));
                i = i + 1;
            }
        } else {
            let mut i: usize = self.oldest;
            while i < self.capacity
                invariant
                    self.oldest <= i <= self.capacity,
                    self.data@.len() == self.capacity,
                    r@ == self.data@.subrange(self.oldest as int, i as int),
                decreases self.capacity - i,
            {
                r.push(self.data[i]);
                assert(r@ =~= self.data@.subrange(self.oldest as int, i + 1));
                i = i + 1;
            }
            let mut j: usize = 0;
            while j < self.oldest
                invariant
                    j <= self.oldest < self.capacity,
                    self.data@.len() == self.capacity,
                    r@ == self.data@.skip(self.oldest as int) + self.data@.take(j as int),
                decreases self.oldest - j,
            {
                r.push(self.data[j]);
                assert(r@ =~= self.data@.skip(self.oldest as int) + self.data@.take(j + 1));
                j = j + 1;
            }
        }
        r
    }

    proof fn lemma_contents_bounded(self)
        requires
            self.wf(),
        ensures
            self.contents().len() <= self.capacity,
            forall|i: int| 0 <= i < self.contents().len() ==> #[trigger] self.contents()[i] <= 100,
    {
        let d = self.data@;
        let c = self.contents();
        if self.len < self.capacity {
            assert forall|i: int| 0 <= i < c.len() implies #[trigger] c[i] <= 100 by {
                assert(c[i] == d[i]);
            }
        } else {
            let w = self.oldest as int;
            assert forall|i: int| 0 <= i < c.len() implies #[trigger] c[i] <= 100 by {
                if i < d.len() - w {
                    assert(c[i] == d[w + i]);
                } else {
                    assert(c[i] == d[i - (d.len() - w)]);
                }
            }
        }
    }
}

/// Write `v` at index `i`.
fn store(data: &mut Vec<u64>, i: usize, v: u64)
    requires
        i < old(data)@.len(),
    ensures
        final(data)@ == old(data)@.update(i as int, v),
    no_unwind
{
    data[i] = v;
}

impl Clone for RingBuffer {
    fn clone(&self) -> (r: Self)
        ensures
            r@ == self@,
            r.cap() == self.cap(),
    {
        proof {
            use_type_invariant(self);
        }
        let mut data: Vec<u64> = Vec::new();
        let mut i: usize = 0;
        while i < self.data.len()
            invariant
                i <= self.data@.len(),
                data@ == self.data@.take(i as int),
            decreases self.data@.len() - i,
        {
            data.push(self.data[i]);
            assert(data@ =~= self.data@.take(i + 1));
            i = i + 1;
        }
        assert(data@ =~= self.data@);
        RingBuffer { data, capacity: self.capacity, oldest: self.oldest, len: self.len }
    }
}

impl View for RingBuffer {
    type V = Seq<u64>;

    closed spec fn view(&self) -> Seq<u64> {
        self.contents()
    }
}

/// A full buffer's contents after a push: the pushed value comes last and
/// the oldest value has left.
pub proof fn full_buffer_push_drops_oldest(contents: Seq<u64>, cap: nat, value: u64)
    requires
        contents.len() == cap,
        cap >= 1,
    ensures
        last_n(contents.push(clamp_pct(value)), cap) == contents.skip(1).push(clamp_pct(value)),
        last_n(contents.push(clamp_pct(value)), cap).len() == cap,
{
    assert(last_n(contents.push(clamp_pct(value)), cap) =~= contents.skip(1).push(
        clamp_pct(value),
    ));
}


/// The contents of a buffer of capacity `cap` holding `start` after pushing
/// each of `values` in turn.
pub open spec fn after_pushes(start: Seq<u64>, values: Seq<u64>, cap: nat) -> Seq<u64>
    decreases values.len(),
{
    if values.len() == 0 {
        start
    } else {
        last_n(after_pushes(start, values.drop_last(), cap).push(clamp_pct(values.last())), cap)
    }
}

/// Each value clamped to a percentage.
pub open spec fn clamped(values: Seq<u64>) -> Seq<u64> {
    values.map_values(|v: u64| clamp_pct(v))
}

proof fn lemma_last_n_push(s: Seq<u64>, v: u64, cap: nat)
    requires
        cap >= 1,
    ensures
        last_n(last_n(s, cap).push(v), cap) == last_n(s.push(v), cap),
{
    assert(last_n(last_n(s, cap).push(v), cap) =~= last_n(s.push(v), cap));
}

/// A buffer that starts empty holds, after any sequence of pushes, the
/// last `cap` pushed values (clamped to 100), oldest first.
pub proof fn history_holds_last_pushes(values: Seq<u64>, cap: nat)
    requires
        cap >= 1,
    ensures
        after_pushes(Seq::empty(), values, cap) == last_n(clamped(values), cap),
    decreases values.len(),
{
    if values.len() > 0 {
        let init = values.drop_last();
        history_holds_last_pushes(init, cap);
        lemma_last_n_push(clamped(init), clamp_pct(values.last()), cap);
        assert(clamped(init).push(clamp_pct(values.last())) =~= clamped(values));
    } else {
        assert(clamped(values) =~= Seq::<u64>::empty());
    }
}

} // verus!
