use vstd::prelude::*;

verus! {

/// Fixed-capacity circular buffer that always holds `len` values; a push
/// overwrites the oldest.
#[derive(Debug, Clone)]
pub struct RingBuffer<T> {
    index: usize,
    past: Vec<T>,
}

impl<T: Copy> RingBuffer<T> {
    /// The stored values, by slot.
    pub closed spec fn slots(&self) -> Seq<T> {
        self.past@
    }

    /// Slot of the newest value.
    pub closed spec fn head(&self) -> int {
        self.index as int
    }

    pub open spec fn wf(&self) -> bool {
        &&& self.slots().len() > 0
        &&& 0 <= self.head() < self.slots().len()
    }

    /// The values from oldest to newest.
    pub open spec fn ordered(&self) -> Seq<T> {
        Seq::new(self.slots().len(), |i: int| self.slots()[(i + self.head() + 1) % (self.slots().len() as int)])
    }

    /// A buffer of `len` copies of `fill`, newest in slot 0.
    pub fn new(len: usize, fill: T) -> (r: Self)
        requires
            len > 0,
        ensures
            r.wf(),
            r.head() == 0,
            r.slots() == Seq::new(len as nat, |i: int| fill),
    {
        let mut past: Vec<T> = Vec::with_capacity(len);
        let mut k: usize = 0;
        while k < len
            invariant
                k <= len,
                past@ == Seq::new(k as nat, |i: int| fill),
            decreases len - k,
        {
            past.push(fill);
            k = k + 1;
            assert(past@ =~= Seq::new(k as nat, |i: int| fill));
        }
        RingBuffer { index: 0, past }
    }

    /// Stores `v` in place of the oldest value and returns the value it replaced.
    pub fn push(&mut self, v: T) -> (evicted: T)
        requires
            old(self).wf(),
        ensures
            final(self).wf(),
            final(self).head() == (old(self).head() + 1) % (old(self).slots().len() as int),
            evicted == old(self).slots()[final(self).head()],
            final(self).slots() == old(self).slots().update(final(self).head(), v),
    {
        let n = self.past.len();
        proof {
            let h = self.index as int + 1;
            if h == n {
                vstd::arithmetic::div_mod::lemma_mod_self_0(n as int);
            } else {
                vstd::arithmetic::div_mod::lemma_small_mod(h as nat, n as nat);
            }
        }
        self.index = if self.index + 1 == n { 0 } else { self.index + 1 };
        let evicted = self.past[self.index];
        self.past.set(self.index, v);
        evicted
    }

    /// The newest value.
    pub fn current(&self) -> (r: T)
        requires
            self.wf(),
        ensures
            r == self.slots()[self.head()],
    {
        self.past[self.index]
    }

    pub fn len(&self) -> (r: usize)
        ensures
            r == self.slots().len(),
    {
        self.past.len()
    }

    /// Whether the newest value sits in slot 0, i.e. the last push completed a lap.
    pub fn at_lap_start(&self) -> (r: bool)
        ensures
            r == (self.head() == 0),
    {
        self.index == 0
    }

    /// The values from oldest to newest.
    pub fn to_vec_ordered(&self) -> (r: Vec<T>)
        requires
            self.wf(),
        ensures
            r@ == self.ordered(),
    {
        let n = self.past.len();
        let mut out: Vec<T> = Vec::with_capacity(n);
        let mut i: usize = 0;
        while i < n
            invariant
                self.wf(),
                n == self.slots().len(),
                i <= n,
                out@.len() == i,
                forall|x: int| 0 <= x < i ==> #[trigger] out@[x] == self.ordered()[x],
            decreases n - i,
        {
            let gap = n - 1 - self.index;
            let j = if i < gap { i + self.index + 1 } else { i - gap };
            proof {
                let m = n as int;
                let t = i + self.index + 1;
                if i < gap {
                    vstd::arithmetic::div_mod::lemma_small_mod(t as nat, m as nat);
                } else {
                    vstd::arithmetic::div_mod::lemma_mod_sub_multiples_vanish(t, m);
                    vstd::arithmetic::div_mod::lemma_small_mod((t - m) as nat, m as nat);
                }
            }
            out.push(self.past[j]);
            i = i + 1;
        }
        assert(out@ =~= self.ordered());
        out
    }
}

} // verus!
