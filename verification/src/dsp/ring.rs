//! A line of samples that comes round: what is written comes back later.

use vstd::arithmetic::div_mod;
use vstd::prelude::*;

use crate::bits::Bits32;

verus! {

/// Silence.
pub open spec fn silence() -> Bits32 {
    Bits32 { bits: 0 }
}

/// `n` samples of silence.
pub open spec fn quiet(n: nat) -> Seq<Bits32> {
    Seq::new(n, |i: int| silence())
}

/// A buffer that is written one sample at a time, round and round.
#[derive(Clone, Debug)]
pub struct Ring {
    slots: Vec<Bits32>,
    at: usize,
}

/// The samples of a buffer from the place `at` on, once round.
pub open spec fn turned(slots: Seq<Bits32>, at: int) -> Seq<Bits32> {
    slots.skip(at) + slots.take(at)
}

impl Ring {
    /// The buffer, as it lies in memory.
    pub closed spec fn slots(&self) -> Seq<Bits32> {
        self.slots@
    }

    /// The place that is written next.
    pub closed spec fn at(&self) -> int {
        self.at as int
    }

    /// There is a place to write.
    pub open spec fn wf(&self) -> bool {
        0 <= self.at() < self.slots().len()
    }

    /// The samples that were written last, the oldest first.
    pub open spec fn history(&self) -> Seq<Bits32> {
        turned(self.slots(), self.at())
    }

    /// A silent line of `len` samples, and of one where `len` is none.
    pub fn new(len: usize) -> (r: Ring)
        ensures
            r.wf(),
            r.slots() == quiet(if len == 0 { 1 } else { len as nat }),
            r.at() == 0,
            r.history() == r.slots(),
    {
        let n: usize = if len == 0 {
            1
        } else {
            len
        };
        let mut slots: Vec<Bits32> = Vec::new();
        while slots.len() < n
            invariant
                slots@.len() <= n,
                slots@ == quiet(slots@.len()),
            decreases n - slots.len(),
        {
            slots.push(Bits32 { bits: 0 });
            assert(slots@ =~= quiet(slots@.len()));
        }
        let r = Ring { slots, at: 0 };
        assert(r.history() =~= r.slots());
        r
    }

    /// How many samples the line holds.
    pub fn len(&self) -> (n: usize)
        ensures
            n == self.slots().len(),
    {
        self.slots.len()
    }

    /// The oldest sample: the one that is written over next.
    pub fn oldest(&self) -> (r: Bits32)
        requires
            self.wf(),
        ensures
            r == self.history()[0],
    {
        self.slots[self.at]
    }

    /// The sample that was written `ago` samples ago; the last one is one
    /// sample ago.
    pub fn back(&self, ago: usize) -> (r: Bits32)
        requires
            self.wf(),
            1 <= ago <= self.slots().len(),
        ensures
            r == self.history()[self.slots().len() - ago],
    {
        let n = self.slots.len();
        if ago <= self.at {
            self.slots[self.at - ago]
        } else {
            self.slots[n - (ago - self.at)]
        }
    }

    /// Write one sample over the oldest one.
    pub fn push(&mut self, x: Bits32)
        requires
            old(self).wf(),
        ensures
            final(self).wf(),
            final(self).slots() == old(self).slots().update(old(self).at(), x),
            final(self).at() == (if old(self).at() + 1 == old(self).slots().len() {
                0
            } else {
                old(self).at() + 1
            }),
            final(self).history() == old(self).history().drop_first().push(x),
    {
        let at = self.at;
        let n = self.slots.len();
        self.slots.set(at, x);
        self.at = if at + 1 == n {
            0
        } else {
            at + 1
        };
        assert(self.history() =~= old(self).history().drop_first().push(x));
    }

    /// Make everything silent. The place that is written next stays.
    pub fn silence(&mut self)
        requires
            old(self).wf(),
        ensures
            final(self).wf(),
            final(self).slots() == quiet(old(self).slots().len()),
            final(self).at() == old(self).at(),
            final(self).history() == quiet(old(self).slots().len()),
    {
        let mut i: usize = 0;
        while i < self.slots.len()
            invariant
                self.wf(),
                self.at() == old(self).at(),
                self.slots().len() == old(self).slots().len(),
                i <= self.slots().len(),
                forall|j: int| 0 <= j < i ==> self.slots()[j] == silence(),
            decreases self.slots.len() - i,
        {
            self.slots.set(i, Bits32 { bits: 0 });
            i += 1;
        }
        assert(self.slots() =~= quiet(old(self).slots().len()));
        assert(self.history() =~= quiet(old(self).slots().len()));
    }

    /// As `silence`, and start again from the first place.
    pub fn restart(&mut self)
        requires
            old(self).wf(),
        ensures
            final(self).wf(),
            final(self).slots() == quiet(old(self).slots().len()),
            final(self).at() == 0,
            final(self).history() == quiet(old(self).slots().len()),
    {
        self.silence();
        self.at = 0;
        assert(self.history() =~= quiet(old(self).slots().len()));
    }

    /// As `resize`, but a place to write that would lie outside is the first
    /// one.
    pub fn refit(&mut self, len: usize)
        requires
            old(self).wf(),
            len > 0,
        ensures
            final(self).wf(),
            final(self).slots() == fitted(old(self).slots(), len as nat),
            final(self).at() == (if old(self).at() < len {
                old(self).at()
            } else {
                0
            }),
    {
        if self.at >= len {
            self.at = 0;
        }
        proof {
            div_mod::lemma_small_mod(self.at as nat, len as nat);
        }
        self.resize(len);
    }

    /// Make the buffer `len` samples long, and one where `len` is none: cut its
    /// end off, or put silence there. The place that is written next comes round
    /// where it would lie outside.
    pub fn resize(&mut self, len: usize)
        requires
            old(self).wf(),
        ensures
            final(self).wf(),
            final(self).slots() == fitted(
                old(self).slots(),
                if len == 0 {
                    1
                } else {
                    len as nat
                },
            ),
            final(self).at() == old(self).at() % (final(self).slots().len() as int),
    {
        let n: usize = if len == 0 {
            1
        } else {
            len
        };
        let ghost before = self.slots@;
        if n < self.slots.len() {
            self.slots.truncate(n);
        }
        while self.slots.len() < n
            invariant
                n >= 1,
                self.at == old(self).at,
                self.slots@.len() <= n,
                self.slots@ == fitted(before, self.slots@.len()),
                self.slots@.len() >= before.len() || self.slots@.len() == n,
            decreases n - self.slots.len(),
        {
            self.slots.push(Bits32 { bits: 0 });
            assert(self.slots@ =~= fitted(before, self.slots@.len()));
        }
        proof {
            div_mod::lemma_mod_bound(self.at as int, n as int);
        }
        self.at = self.at % n;
    }
}

/// A buffer with `n` samples: its first ones, with silence behind them where it
/// has fewer.
pub open spec fn fitted(slots: Seq<Bits32>, n: nat) -> Seq<Bits32> {
    Seq::new(n, |i: int| if i < slots.len() { slots[i] } else { silence() })
}

/// The history after writing samples, one after the other.
pub open spec fn written(history: Seq<Bits32>, xs: Seq<Bits32>) -> Seq<Bits32>
    decreases xs.len(),
{
    if xs.len() == 0 {
        history
    } else {
        written(history, xs.drop_last()).drop_first().push(xs.last())
    }
}

/// A sample comes back exactly as many samples after it was written as the line
/// is asked to look back, and until then what stood there before comes back.
pub proof fn law_a_sample_comes_back_in_time(history: Seq<Bits32>, xs: Seq<Bits32>, ago: int)
    requires
        1 <= ago <= history.len(),
    ensures
        written(history, xs).len() == history.len(),
        written(history, xs)[history.len() - ago] == (if ago <= xs.len() {
            xs[xs.len() - ago]
        } else {
            history[history.len() - (ago - xs.len())]
        }),
    decreases xs.len(),
{
    if xs.len() > 0 {
        let less = xs.drop_last();
        law_a_sample_comes_back_in_time(history, less, ago);
        if ago > 1 {
            law_a_sample_comes_back_in_time(history, less, ago - 1);
        }
    }
}

/// The oldest sample stands where the next one is written, and the others follow
/// it round.
pub proof fn law_a_line_goes_round(slots: Seq<Bits32>, at: int, i: int)
    requires
        0 <= at < slots.len(),
        0 <= i < slots.len(),
    ensures
        turned(slots, at).len() == slots.len(),
        at + i < slots.len() ==> turned(slots, at)[i] == slots[at + i],
        at + i >= slots.len() ==> turned(slots, at)[i] == slots[at + i - slots.len()],
{
}

/// A line of another length keeps its first samples, and is silent behind them.
pub proof fn law_a_fitted_line_keeps_its_start(slots: Seq<Bits32>, n: nat, i: int)
    requires
        0 <= i < n,
    ensures
        fitted(slots, n).len() == n,
        i < slots.len() ==> fitted(slots, n)[i] == slots[i],
        i >= slots.len() ==> fitted(slots, n)[i].bits == 0,
{
}

/// Writing samples puts each of them at the end, one after the other, and as many
/// of the oldest ones are gone.
pub proof fn law_what_is_written_is_last(history: Seq<Bits32>, xs: Seq<Bits32>, i: int)
    requires
        history.len() > 0,
        0 <= i < history.len(),
    ensures
        written(history, xs).len() == history.len(),
        i >= history.len() - xs.len() ==> written(history, xs)[i] == xs[i - history.len()
            + xs.len()],
        i < history.len() - xs.len() ==> written(history, xs)[i] == history[i + xs.len()],
    decreases xs.len(),
{
    if xs.len() > 0 {
        let less = xs.drop_last();
        if i + 1 < history.len() {
            law_what_is_written_is_last(history, less, i + 1);
        } else {
            law_what_is_written_is_last(history, less, 0);
        }
    }
}

/// A silent line holds nothing but zeros.
pub proof fn law_a_quiet_line_is_silent(n: nat, i: int)
    requires
        0 <= i < n,
    ensures
        quiet(n).len() == n,
        quiet(n)[i].bits == 0,
{
}

}
