//! The reverb: its four rooms, its lines of samples, and what a frozen tail
//! does.

use vstd::arithmetic::div_mod;
use vstd::arithmetic::power2;
use vstd::prelude::*;

use crate::bits;
use crate::bits::Bits32;
use crate::dsp::ring;
use crate::dsp::ring::Ring;
use crate::params;

verus! {

/// Comb filters on each side.
pub const NUM_COMBS: usize = 8;

/// Allpass filters on each side.
pub const NUM_ALLPASS: usize = 4;

/// How much longer the lines of the right side are than those of the left.
pub const STEREO_SPREAD: usize = 23;

/// The room for the pre-delay before the sample rate is known.
pub const MAX_PREDELAY_SAMPLES: usize = 44_100;

/// The characters that the reverb can have.
#[derive(Clone, Copy, Debug, PartialEq, Eq, Structural)]
pub enum ReverbType {
    Room,
    Hall,
    Plate,
    Spring,
}

/// The character of the same name.
pub open spec fn same_type(t: params::ReverbType) -> ReverbType {
    match t {
        params::ReverbType::Room => ReverbType::Room,
        params::ReverbType::Hall => ReverbType::Hall,
        params::ReverbType::Plate => ReverbType::Plate,
        params::ReverbType::Spring => ReverbType::Spring,
    }
}

/// The character that the parameter stands for.
pub fn reverb_type_of(t: params::ReverbType) -> (r: ReverbType)
    ensures
        r == same_type(t),
{
    match t {
        params::ReverbType::Room => ReverbType::Room,
        params::ReverbType::Hall => ReverbType::Hall,
        params::ReverbType::Plate => ReverbType::Plate,
        params::ReverbType::Spring => ReverbType::Spring,
    }
}

/// The lengths of the lines, in samples at 44.1 kHz. Different lengths make
/// different resonances, and so a different room.
pub const ROOM_COMBS: [usize; 8] = [1116, 1188, 1277, 1356, 1422, 1491, 1557, 1617];

pub const ROOM_ALLPASSES: [usize; 4] = [556, 441, 341, 225];

/// Longer and more spread out: a bigger space.
pub const HALL_COMBS: [usize; 8] = [1557, 1617, 1733, 1861, 1993, 2131, 2269, 2399];

pub const HALL_ALLPASSES: [usize; 4] = [677, 557, 433, 311];

/// Dense, bright, metallic.
pub const PLATE_COMBS: [usize; 8] = [1051, 1123, 1187, 1259, 1321, 1381, 1447, 1511];

pub const PLATE_ALLPASSES: [usize; 4] = [487, 379, 283, 197];

/// Unevenly spaced: the drip of a spring.
pub const SPRING_COMBS: [usize; 8] = [983, 1097, 1289, 1429, 1531, 1667, 1811, 1949];

pub const SPRING_ALLPASSES: [usize; 4] = [631, 491, 367, 251];

/// The lengths of the comb filters of a character.
pub open spec fn comb_lengths(t: ReverbType) -> Seq<usize> {
    match t {
        ReverbType::Room => ROOM_COMBS@,
        ReverbType::Hall => HALL_COMBS@,
        ReverbType::Plate => PLATE_COMBS@,
        ReverbType::Spring => SPRING_COMBS@,
    }
}

/// The lengths of the allpass filters of a character.
pub open spec fn allpass_lengths(t: ReverbType) -> Seq<usize> {
    match t {
        ReverbType::Room => ROOM_ALLPASSES@,
        ReverbType::Hall => HALL_ALLPASSES@,
        ReverbType::Plate => PLATE_ALLPASSES@,
        ReverbType::Spring => SPRING_ALLPASSES@,
    }
}

/// The lengths of a side: those of the right one are spread.
pub open spec fn on_side(lengths: Seq<usize>, right: bool) -> Seq<usize> {
    Seq::new(
        lengths.len(),
        |i: int|
            (lengths[i] + (if right {
                STEREO_SPREAD
            } else {
                0
            })) as usize,
    )
}

/// What a character is like, besides its lengths.
#[derive(Clone, Copy, Debug, PartialEq, Eq, Structural)]
pub struct Colour {
    /// What an allpass filter feeds back.
    pub diffusion: Bits32,
    /// How much darker the damping makes it.
    pub damp_scale: Bits32,
    /// How much longer it decays.
    pub decay_scale: Bits32,
    /// How dense its reflections are.
    pub density: Bits32,
}

/// What a character is like: diffusion 0.5, 0.6, 0.7 and 0.45, damping 1, 0.7,
/// 0.5 and 1.4, decay 1, 1.5, 1.2 and 0.8, density 1, 0.85, 1.2 and 0.9, for
/// room, hall, plate and spring.
pub open spec fn coloured(t: ReverbType) -> Colour {
    match t {
        ReverbType::Room => Colour {
            diffusion: Bits32 { bits: 0x3f00_0000 },
            damp_scale: Bits32 { bits: 0x3f80_0000 },
            decay_scale: Bits32 { bits: 0x3f80_0000 },
            density: Bits32 { bits: 0x3f80_0000 },
        },
        ReverbType::Hall => Colour {
            diffusion: Bits32 { bits: 0x3f19_999a },
            damp_scale: Bits32 { bits: 0x3f33_3333 },
            decay_scale: Bits32 { bits: 0x3fc0_0000 },
            density: Bits32 { bits: 0x3f59_999a },
        },
        ReverbType::Plate => Colour {
            diffusion: Bits32 { bits: 0x3f33_3333 },
            damp_scale: Bits32 { bits: 0x3f00_0000 },
            decay_scale: Bits32 { bits: 0x3f99_999a },
            density: Bits32 { bits: 0x3f99_999a },
        },
        ReverbType::Spring => Colour {
            diffusion: Bits32 { bits: 0x3ee6_6666 },
            damp_scale: Bits32 { bits: 0x3fb3_3333 },
            decay_scale: Bits32 { bits: 0x3f4c_cccd },
            density: Bits32 { bits: 0x3f66_6666 },
        },
    }
}

/// The sum of some lengths.
pub open spec fn total(lengths: Seq<usize>) -> int
    decreases lengths.len(),
{
    if lengths.len() == 0 {
        0
    } else {
        total(lengths.drop_last()) + lengths.last()
    }
}

impl ReverbType {
    /// What the character is like, besides its lengths.
    pub fn colour(self) -> (r: Colour)
        ensures
            r == coloured(self),
    {
        match self {
            ReverbType::Room => Colour {
                diffusion: Bits32 { bits: 0x3f00_0000 },
                damp_scale: Bits32 { bits: 0x3f80_0000 },
                decay_scale: Bits32 { bits: 0x3f80_0000 },
                density: Bits32 { bits: 0x3f80_0000 },
            },
            ReverbType::Hall => Colour {
                diffusion: Bits32 { bits: 0x3f19_999a },
                damp_scale: Bits32 { bits: 0x3f33_3333 },
                decay_scale: Bits32 { bits: 0x3fc0_0000 },
                density: Bits32 { bits: 0x3f59_999a },
            },
            ReverbType::Plate => Colour {
                diffusion: Bits32 { bits: 0x3f33_3333 },
                damp_scale: Bits32 { bits: 0x3f00_0000 },
                decay_scale: Bits32 { bits: 0x3f99_999a },
                density: Bits32 { bits: 0x3f99_999a },
            },
            ReverbType::Spring => Colour {
                diffusion: Bits32 { bits: 0x3ee6_6666 },
                damp_scale: Bits32 { bits: 0x3fb3_3333 },
                decay_scale: Bits32 { bits: 0x3f4c_cccd },
                density: Bits32 { bits: 0x3f66_6666 },
            },
        }
    }

    /// The length of a comb filter of a side.
    pub fn comb_length(self, i: usize, right: bool) -> (r: usize)
        requires
            i < NUM_COMBS,
        ensures
            r == on_side(comb_lengths(self), right)[i as int],
    {
        let length = match self {
            ReverbType::Room => ROOM_COMBS[i],
            ReverbType::Hall => HALL_COMBS[i],
            ReverbType::Plate => PLATE_COMBS[i],
            ReverbType::Spring => SPRING_COMBS[i],
        };
        proof {
            lemma_lengths_are_small(self);
            assert(length == comb_lengths(self)[i as int]);
        }
        if right {
            length + STEREO_SPREAD
        } else {
            length
        }
    }

    /// The length of an allpass filter of a side.
    pub fn allpass_length(self, i: usize, right: bool) -> (r: usize)
        requires
            i < NUM_ALLPASS,
        ensures
            r == on_side(allpass_lengths(self), right)[i as int],
    {
        let length = match self {
            ReverbType::Room => ROOM_ALLPASSES[i],
            ReverbType::Hall => HALL_ALLPASSES[i],
            ReverbType::Plate => PLATE_ALLPASSES[i],
            ReverbType::Spring => SPRING_ALLPASSES[i],
        };
        proof {
            lemma_lengths_are_small(self);
            assert(length == allpass_lengths(self)[i as int]);
        }
        if right {
            length + STEREO_SPREAD
        } else {
            length
        }
    }

    /// The sum of the lengths of the comb filters, without the spread.
    pub fn comb_total(self) -> (r: usize)
        ensures
            r == total(comb_lengths(self)),
    {
        let ghost all = comb_lengths(self);
        let mut sum: usize = 0;
        let mut i: usize = 0;
        proof {
            lemma_lengths_are_small(self);
            assert(all.take(0) =~= Seq::empty());
        }
        while i < NUM_COMBS
            invariant
                i <= NUM_COMBS,
                all == comb_lengths(self),
                all.len() == NUM_COMBS,
                forall|j: int| 0 <= j < NUM_COMBS ==> all[j] < 3000,
                sum == total(all.take(i as int)),
                sum <= 3000 * i,
            decreases NUM_COMBS - i,
        {
            assert(all.take(i + 1).drop_last() =~= all.take(i as int));
            sum += self.comb_length(i, false);
            i += 1;
        }
        assert(all.take(8) =~= all);
        sum
    }
}

/// No line is long.
proof fn lemma_lengths_are_small(t: ReverbType)
    ensures
        comb_lengths(t).len() == NUM_COMBS,
        allpass_lengths(t).len() == NUM_ALLPASS,
        forall|i: int| 0 <= i < NUM_COMBS ==> 0 < #[trigger] comb_lengths(t)[i] < 3000,
        forall|i: int| 0 <= i < NUM_ALLPASS ==> 0 < #[trigger] allpass_lengths(t)[i] < 3000,
{
}

/// A length in samples: the whole part of a number, as far as it can be one,
/// and never none.
pub open spec fn length_of(scaled: Bits32) -> nat {
    let n = scaled.truncated();
    if n == 0 {
        1
    } else if n > usize::MAX {
        usize::MAX as nat
    } else {
        n
    }
}

/// A length in samples.
pub fn to_length(scaled: Bits32) -> (r: usize)
    ensures
        r == length_of(scaled),
{
    let n = scaled.whole();
    if n == 0 {
        1
    } else if n > usize::MAX as u64 {
        usize::MAX
    } else {
        n as usize
    }
}

/// The lines of one side: eight that run side by side, four that follow each
/// other.
#[derive(Clone, Debug)]
pub struct Tank {
    combs: Vec<Ring>,
    allpasses: Vec<Ring>,
}

/// Lines are in order.
pub open spec fn all_wf(lines: Seq<Ring>) -> bool {
    forall|i: int| 0 <= i < lines.len() ==> (#[trigger] lines[i]).wf()
}

/// All lines are silent, and as long as they were.
pub open spec fn silenced(before: Seq<Ring>, after: Seq<Ring>) -> bool {
    &&& after.len() == before.len()
    &&& forall|i: int|
        0 <= i < after.len() ==> (#[trigger] after[i]).slots() == ring::quiet(
            before[i].slots().len(),
        ) && after[i].at() == before[i].at()
}

/// All lines are brought to new lengths.
pub open spec fn refitted(before: Seq<Ring>, after: Seq<Ring>, scaled: Seq<Bits32>) -> bool {
    &&& after.len() == before.len()
    &&& forall|i: int|
        #![trigger after[i]]
        0 <= i < after.len() ==> after[i].slots() == ring::fitted(
            before[i].slots(),
            length_of(scaled[i]),
        ) && after[i].at() == before[i].at() % (length_of(scaled[i]) as int)
}

/// Silent lines of these lengths.
fn new_lines(scaled: &[Bits32]) -> (r: Vec<Ring>)
    ensures
        all_wf(r@),
        r@.len() == scaled@.len(),
        forall|i: int|
            #![trigger r@[i]]
            0 <= i < r@.len() ==> r@[i].slots() == ring::quiet(length_of(scaled@[i]))
                && r@[i].at() == 0,
{
    let mut r: Vec<Ring> = Vec::new();
    let mut i: usize = 0;
    while i < scaled.len()
        invariant
            i <= scaled@.len(),
            r@.len() == i,
            all_wf(r@),
            forall|j: int|
                #![trigger r@[j]]
                0 <= j < i ==> r@[j].slots() == ring::quiet(length_of(scaled@[j])) && r@[j].at()
                    == 0,
        decreases scaled@.len() - i,
    {
        r.push(Ring::new(to_length(scaled[i])));
        i += 1;
    }
    r
}

/// Bring lines to new lengths.
fn refit(lines: &mut Vec<Ring>, scaled: &[Bits32])
    requires
        all_wf(old(lines)@),
        old(lines)@.len() == scaled@.len(),
    ensures
        all_wf(final(lines)@),
        refitted(old(lines)@, final(lines)@, scaled@),
{
    let ghost before = lines@;
    let mut i: usize = 0;
    while i < lines.len()
        invariant
            i <= lines@.len(),
            lines@.len() == before.len(),
            scaled@.len() == before.len(),
            all_wf(lines@),
            forall|j: int|
                #![trigger lines@[j]]
                0 <= j < i ==> lines@[j].slots() == ring::fitted(
                    before[j].slots(),
                    length_of(scaled@[j]),
                ) && lines@[j].at() == before[j].at() % (length_of(scaled@[j]) as int),
            forall|j: int| i <= j < before.len() ==> (#[trigger] lines@[j]) == before[j],
        decreases lines@.len() - i,
    {
        lines[i].resize(to_length(scaled[i]));
        i += 1;
    }
}

/// Make lines silent.
fn hush(lines: &mut Vec<Ring>)
    requires
        all_wf(old(lines)@),
    ensures
        all_wf(final(lines)@),
        silenced(old(lines)@, final(lines)@),
{
    let ghost before = lines@;
    let mut i: usize = 0;
    while i < lines.len()
        invariant
            i <= lines@.len(),
            lines@.len() == before.len(),
            all_wf(lines@),
            forall|j: int|
                #![trigger lines@[j]]
                0 <= j < i ==> lines@[j].slots() == ring::quiet(before[j].slots().len())
                    && lines@[j].at() == before[j].at(),
            forall|j: int| i <= j < before.len() ==> (#[trigger] lines@[j]) == before[j],
        decreases lines@.len() - i,
    {
        lines[i].silence();
        i += 1;
    }
}

impl Tank {
    /// The lines that run side by side.
    pub closed spec fn combs(&self) -> Seq<Ring> {
        self.combs@
    }

    /// The lines that follow each other.
    pub closed spec fn allpasses(&self) -> Seq<Ring> {
        self.allpasses@
    }

    /// There are as many lines as there should be, all of them in order.
    pub open spec fn wf(&self) -> bool {
        &&& self.combs().len() == NUM_COMBS
        &&& self.allpasses().len() == NUM_ALLPASS
        &&& all_wf(self.combs())
        &&& all_wf(self.allpasses())
    }

    /// Silent lines of these lengths.
    pub fn new(combs: &[Bits32], allpasses: &[Bits32]) -> (r: Tank)
        requires
            combs@.len() == NUM_COMBS,
            allpasses@.len() == NUM_ALLPASS,
        ensures
            r.wf(),
            forall|i: int|
                0 <= i < NUM_COMBS ==> (#[trigger] r.combs()[i]).slots() == ring::quiet(
                    length_of(combs@[i]),
                ) && r.combs()[i].at() == 0,
            forall|i: int|
                0 <= i < NUM_ALLPASS ==> (#[trigger] r.allpasses()[i]).slots() == ring::quiet(
                    length_of(allpasses@[i]),
                ) && r.allpasses()[i].at() == 0,
    {
        Tank { combs: new_lines(combs), allpasses: new_lines(allpasses) }
    }

    /// Bring the comb filters to new lengths.
    pub fn refit_combs(&mut self, scaled: &[Bits32])
        requires
            old(self).wf(),
            scaled@.len() == NUM_COMBS,
        ensures
            final(self).wf(),
            refitted(old(self).combs(), final(self).combs(), scaled@),
            final(self).allpasses() == old(self).allpasses(),
    {
        refit(&mut self.combs, scaled);
    }

    /// Bring the allpass filters to new lengths.
    pub fn refit_allpasses(&mut self, scaled: &[Bits32])
        requires
            old(self).wf(),
            scaled@.len() == NUM_ALLPASS,
        ensures
            final(self).wf(),
            refitted(old(self).allpasses(), final(self).allpasses(), scaled@),
            final(self).combs() == old(self).combs(),
    {
        refit(&mut self.allpasses, scaled);
    }

    /// What comes out of a comb filter.
    pub fn comb_out(&self, i: usize) -> (r: Bits32)
        requires
            self.wf(),
            i < NUM_COMBS,
        ensures
            r == self.combs()[i as int].history()[0],
    {
        self.combs[i].oldest()
    }

    /// What goes into a comb filter.
    pub fn comb_in(&mut self, i: usize, x: Bits32)
        requires
            old(self).wf(),
            i < NUM_COMBS,
        ensures
            final(self).wf(),
            final(self).combs().len() == old(self).combs().len(),
            final(self).combs()[i as int].slots() == old(self).combs()[i as int].slots().update(
                old(self).combs()[i as int].at(),
                x,
            ),
            final(self).combs()[i as int].at() == (if old(self).combs()[i as int].at() + 1 == old(
                self,
            ).combs()[i as int].slots().len() {
                0
            } else {
                old(self).combs()[i as int].at() + 1
            }),
            final(self).combs()[i as int].history() == old(
                self,
            ).combs()[i as int].history().drop_first().push(x),
            forall|j: int|
                0 <= j < NUM_COMBS && j != i ==> (#[trigger] final(self).combs()[j]) == old(
                    self,
                ).combs()[j],
            final(self).allpasses() == old(self).allpasses(),
    {
        self.combs[i].push(x);
    }

    /// What comes out of the line of an allpass filter.
    pub fn allpass_out(&self, i: usize) -> (r: Bits32)
        requires
            self.wf(),
            i < NUM_ALLPASS,
        ensures
            r == self.allpasses()[i as int].history()[0],
    {
        self.allpasses[i].oldest()
    }

    /// What goes into the line of an allpass filter.
    pub fn allpass_in(&mut self, i: usize, x: Bits32)
        requires
            old(self).wf(),
            i < NUM_ALLPASS,
        ensures
            final(self).wf(),
            final(self).allpasses().len() == old(self).allpasses().len(),
            final(self).allpasses()[i as int].slots() == old(self).allpasses()[i as int].slots().update(
                old(self).allpasses()[i as int].at(),
                x,
            ),
            final(self).allpasses()[i as int].at() == (if old(self).allpasses()[i as int].at() + 1 == old(
                self,
            ).allpasses()[i as int].slots().len() {
                0
            } else {
                old(self).allpasses()[i as int].at() + 1
            }),
            final(self).allpasses()[i as int].history() == old(
                self,
            ).allpasses()[i as int].history().drop_first().push(x),
            forall|j: int|
                0 <= j < NUM_ALLPASS && j != i ==> (#[trigger] final(self).allpasses()[j]) == old(
                    self,
                ).allpasses()[j],
            final(self).combs() == old(self).combs(),
    {
        self.allpasses[i].push(x);
    }

    /// Make every line silent.
    pub fn reset(&mut self)
        requires
            old(self).wf(),
        ensures
            final(self).wf(),
            silenced(old(self).combs(), final(self).combs()),
            silenced(old(self).allpasses(), final(self).allpasses()),
    {
        hush(&mut self.combs);
        hush(&mut self.allpasses);
    }
}

/// The line in front of the reverb.
#[derive(Clone, Debug)]
pub struct Predelay {
    line: Ring,
    delay: usize,
}

/// What the pre-delay hands on while `x` goes in: the sample that went in a
/// delay before, and without a delay `x` itself.
pub open spec fn delayed(history: Seq<Bits32>, delay: int, x: Bits32) -> Bits32 {
    if delay == 0 {
        x
    } else {
        history[history.len() - delay]
    }
}

impl Predelay {
    /// The line, as it lies in memory.
    pub closed spec fn slots(&self) -> Seq<Bits32> {
        self.line.slots()
    }

    /// The place that is written next.
    pub closed spec fn at(&self) -> int {
        self.line.at()
    }

    /// What went into the line, the oldest sample first.
    pub open spec fn history(&self) -> Seq<Bits32> {
        ring::turned(self.slots(), self.at())
    }

    /// The delay in samples.
    pub closed spec fn delay(&self) -> int {
        self.delay as int
    }

    /// The line is longer than the delay.
    pub closed spec fn wf(&self) -> bool {
        self.line.wf() && self.delay < self.line.slots().len()
    }

    /// A silent line without delay.
    pub fn new() -> (r: Predelay)
        ensures
            r.wf(),
            r.delay() == 0,
            r.at() == 0,
            r.slots() == ring::quiet(MAX_PREDELAY_SAMPLES as nat),
            r.slots().len() == 44_100,
            r.history() == ring::quiet(MAX_PREDELAY_SAMPLES as nat),
    {
        Predelay { line: Ring::new(MAX_PREDELAY_SAMPLES), delay: 0 }
    }

    /// Make room for one second, given the sample rate. The delay is kept to
    /// what the line then holds, and a place to write outside of it is the first
    /// one.
    pub fn set_sample_rate(&mut self, rate: Bits32)
        requires
            old(self).wf(),
        ensures
            final(self).wf(),
            final(self).slots() == ring::fitted(old(self).slots(), length_of(rate)),
            final(self).at() == (if old(self).at() < length_of(rate) {
                old(self).at()
            } else {
                0
            }),
            final(self).delay() == (if old(self).delay() < length_of(rate) {
                old(self).delay()
            } else {
                length_of(rate) - 1
            }),
    {
        let n = to_length(rate);
        self.line.refit(n);
        if self.delay >= n {
            self.delay = n - 1;
        }
    }

    /// Set the delay, in samples, as far as the line holds it.
    pub fn set_delay(&mut self, samples: Bits32)
        requires
            old(self).wf(),
        ensures
            final(self).wf(),
            final(self).delay() == (if samples.truncated() < old(self).slots().len() {
                samples.truncated() as int
            } else {
                old(self).slots().len() - 1
            }),
            final(self).slots() == old(self).slots(),
            final(self).at() == old(self).at(),
            final(self).history() == old(self).history(),
    {
        let n = samples.whole();
        let room = self.line.len();
        self.delay = if n < room as u64 {
            n as usize
        } else {
            room - 1
        };
    }

    /// Put one sample in, and take the one out that was put in a delay ago.
    pub fn through(&mut self, x: Bits32) -> (r: Bits32)
        requires
            old(self).wf(),
        ensures
            final(self).wf(),
            r == delayed(old(self).history(), old(self).delay(), x),
            final(self).delay() == old(self).delay(),
            final(self).slots() == old(self).slots().update(old(self).at(), x),
            final(self).at() == (if old(self).at() + 1 == old(self).slots().len() {
                0
            } else {
                old(self).at() + 1
            }),
            final(self).history() == old(self).history().drop_first().push(x),
    {
        let r = if self.delay == 0 {
            x
        } else {
            self.line.back(self.delay)
        };
        self.line.push(x);
        r
    }

    /// Make the line silent. The delay stays.
    pub fn reset(&mut self)
        requires
            old(self).wf(),
        ensures
            final(self).wf(),
            final(self).delay() == old(self).delay(),
            final(self).at() == 0,
            final(self).slots() == ring::quiet(old(self).slots().len()),
            final(self).history() == ring::quiet(old(self).slots().len()),
    {
        self.line.restart();
    }
}

/// What the pre-delay hands on with the last of some samples was put in exactly
/// a delay before it; with no delay it is that sample itself.
pub proof fn law_the_predelay_is_the_delay(history: Seq<Bits32>, xs: Seq<Bits32>, delay: int)
    requires
        0 <= delay < history.len(),
        delay < xs.len(),
    ensures
        delayed(ring::written(history, xs.drop_last()), delay, xs.last()) == xs[xs.len() - 1
            - delay],
{
    let before = xs.drop_last();
    if delay > 0 {
        ring::law_a_sample_comes_back_in_time(history, before, delay);
    }
}

/// What of the input reaches the reverb: nothing while the tail is frozen.
pub open spec fn let_in(mode: ReverbMode, x: Bits32) -> Bits32 {
    if mode.frozen {
        ring::silence()
    } else {
        x
    }
}

/// What a reverb gives back, one sample after the other, for inputs with their
/// widths. `step` is the reverb behind its input: from its state, what is let in
/// and the width, the state it is in then and what it gives back.
pub open spec fn played<S, O>(
    mode: ReverbMode,
    step: spec_fn(S, Bits32, Bits32) -> (S, O),
    state: S,
    inputs: Seq<(Bits32, Bits32)>,
) -> Seq<O>
    decreases inputs.len(),
{
    if inputs.len() == 0 {
        Seq::empty()
    } else {
        let (next, out) = step(state, let_in(mode, inputs[0].0), inputs[0].1);
        seq![out] + played(mode, step, next, inputs.drop_first())
    }
}

/// A frozen reverb lets nothing in: two of them in the same state give back the
/// same for any two inputs, sample for sample, where the widths are the same.
pub proof fn law_a_frozen_reverb_lets_nothing_in<S, O>(
    mode: ReverbMode,
    step: spec_fn(S, Bits32, Bits32) -> (S, O),
    state: S,
    a: Seq<(Bits32, Bits32)>,
    b: Seq<(Bits32, Bits32)>,
)
    requires
        mode.frozen,
        a.len() == b.len(),
        forall|i: int| 0 <= i < a.len() ==> (#[trigger] a[i]).1 == b[i].1,
    ensures
        played(mode, step, state, a) == played(mode, step, state, b),
    decreases a.len(),
{
    if a.len() > 0 {
        assert(a[0].1 == b[0].1);
        let (next, out) = step(state, let_in(mode, a[0].0), a[0].1);
        assert forall|i: int| 0 <= i < a.len() - 1 implies (#[trigger] a.drop_first()[i]).1
            == b.drop_first()[i].1 by {
            assert(a[i + 1].1 == b[i + 1].1);
        }
        law_a_frozen_reverb_lets_nothing_in(mode, step, next, a.drop_first(), b.drop_first());
    }
}

/// What the comb filters feed back.
pub open spec fn sustained(mode: ReverbMode, line_seconds: Bits32, decayed: Bits32) -> Bits32 {
    if mode.frozen {
        Bits32 { bits: 0x3f7f_be77 }
    } else if bits::zero().is_below(line_seconds) {
        decayed.clamped(bits::zero(), Bits32 { bits: 0x3f7a_e148 })
    } else {
        Bits32 { bits: 0x3f00_0000 }
    }
}

/// Which character the reverb has, and whether its tail is frozen.
#[derive(Clone, Copy, Debug, PartialEq, Eq, Structural)]
pub struct ReverbMode {
    pub reverb_type: ReverbType,
    pub frozen: bool,
}

impl ReverbMode {
    /// A room whose tail dies away.
    pub fn new() -> (r: ReverbMode)
        ensures
            r == (ReverbMode { reverb_type: ReverbType::Room, frozen: false }),
    {
        ReverbMode { reverb_type: ReverbType::Room, frozen: false }
    }

    /// Set the character. Does that ask for lines of other lengths?
    pub fn set_type(&mut self, rt: ReverbType) -> (changed: bool)
        ensures
            changed == (rt != old(self).reverb_type),
            *final(self) == (ReverbMode { reverb_type: rt, ..*old(self) }),
    {
        let changed = rt != self.reverb_type;
        self.reverb_type = rt;
        changed
    }

    /// Freeze the tail, or let it die away.
    pub fn set_freeze(&mut self, freeze: bool)
        ensures
            *final(self) == (ReverbMode { frozen: freeze, ..*old(self) }),
    {
        self.frozen = freeze;
    }

    /// Is the tail frozen?
    pub fn is_frozen(&self) -> (r: bool)
        ensures
            r == self.frozen,
    {
        self.frozen
    }

    /// What of the input reaches the reverb: nothing while the tail is frozen.
    pub fn input(&self, x: Bits32) -> (r: Bits32)
        ensures
            r == let_in(*self, x),
    {
        if self.frozen {
            Bits32 { bits: 0 }
        } else {
            x
        }
    }

    /// What the comb filters feed back: almost everything while the tail is
    /// frozen, otherwise what the decay asks for, up to 0.98, and a half where
    /// the lines have no length in time.
    pub fn comb_feedback(&self, line_seconds: Bits32, decayed: Bits32) -> (r: Bits32)
        ensures
            r == sustained(*self, line_seconds, decayed),
            r == (if self.frozen {
                Bits32 { bits: 0x3f7f_be77 }
            } else if (Bits32 { bits: 0 }).is_below(line_seconds) {
                decayed.clamped(Bits32 { bits: 0 }, Bits32 { bits: 0x3f7a_e148 })
            } else {
                Bits32 { bits: 0x3f00_0000 }
            }),
    {
        if self.frozen {
            Bits32 { bits: 0x3f7f_be77 }
        } else if (Bits32 { bits: 0 }).below(line_seconds) {
            decayed.clamp(Bits32 { bits: 0 }, Bits32 { bits: 0x3f7a_e148 })
        } else {
            Bits32 { bits: 0x3f00_0000 }
        }
    }
}

/// The lengths of all lines in samples, before they are cut to whole ones.
pub struct Lengths<'a> {
    pub combs_l: &'a [Bits32],
    pub combs_r: &'a [Bits32],
    pub allpasses_l: &'a [Bits32],
    pub allpasses_r: &'a [Bits32],
}

impl<'a> Lengths<'a> {
    /// There is a length for every line.
    pub open spec fn wf(&self) -> bool {
        &&& self.combs_l@.len() == NUM_COMBS
        &&& self.combs_r@.len() == NUM_COMBS
        &&& self.allpasses_l@.len() == NUM_ALLPASS
        &&& self.allpasses_r@.len() == NUM_ALLPASS
    }
}

/// The reverb: a line in front of it, and the lines of both sides.
#[derive(Clone, Debug)]
pub struct Reverb {
    pub mode: ReverbMode,
    pub predelay: Predelay,
    pub left: Tank,
    pub right: Tank,
}

impl Reverb {
    /// All parts are in order.
    pub open spec fn wf(&self) -> bool {
        self.predelay.wf() && self.left.wf() && self.right.wf()
    }

    /// A silent room with lines of these lengths.
    pub fn new(lengths: &Lengths) -> (r: Reverb)
        requires
            lengths.wf(),
        ensures
            r.wf(),
            r.mode == (ReverbMode { reverb_type: ReverbType::Room, frozen: false }),
            r.predelay.delay() == 0,
            r.predelay.at() == 0,
            r.predelay.slots() == ring::quiet(MAX_PREDELAY_SAMPLES as nat),
            r.predelay.slots().len() == 44_100,
            r.predelay.history() == ring::quiet(MAX_PREDELAY_SAMPLES as nat),
            forall|i: int|
                0 <= i < NUM_COMBS ==> (#[trigger] r.left.combs()[i]).slots() == ring::quiet(
                    length_of(lengths.combs_l@[i]),
                ) && r.left.combs()[i].at() == 0,
            forall|i: int|
                0 <= i < NUM_COMBS ==> (#[trigger] r.right.combs()[i]).slots() == ring::quiet(
                    length_of(lengths.combs_r@[i]),
                ) && r.right.combs()[i].at() == 0,
            forall|i: int|
                0 <= i < NUM_ALLPASS ==> (#[trigger] r.left.allpasses()[i]).slots() == ring::quiet(
                    length_of(lengths.allpasses_l@[i]),
                ) && r.left.allpasses()[i].at() == 0,
            forall|i: int|
                0 <= i < NUM_ALLPASS ==> (#[trigger] r.right.allpasses()[i]).slots()
                    == ring::quiet(length_of(lengths.allpasses_r@[i]))
                    && r.right.allpasses()[i].at() == 0,
    {
        Reverb {
            mode: ReverbMode::new(),
            predelay: Predelay::new(),
            left: Tank::new(lengths.combs_l, lengths.allpasses_l),
            right: Tank::new(lengths.combs_r, lengths.allpasses_r),
        }
    }

    /// Bring every line to a new length, as another character or another sample
    /// rate asks for it.
    pub fn rebuild_for_type(&mut self, lengths: &Lengths)
        requires
            old(self).wf(),
            lengths.wf(),
        ensures
            final(self).wf(),
            final(self).mode == old(self).mode,
            final(self).predelay == old(self).predelay,
            refitted(old(self).left.combs(), final(self).left.combs(), lengths.combs_l@),
            refitted(old(self).right.combs(), final(self).right.combs(), lengths.combs_r@),
            refitted(
                old(self).left.allpasses(),
                final(self).left.allpasses(),
                lengths.allpasses_l@,
            ),
            refitted(
                old(self).right.allpasses(),
                final(self).right.allpasses(),
                lengths.allpasses_r@,
            ),
    {
        self.left.refit_combs(lengths.combs_l);
        self.right.refit_combs(lengths.combs_r);
        self.left.refit_allpasses(lengths.allpasses_l);
        self.right.refit_allpasses(lengths.allpasses_r);
    }

    /// Make every line silent. The character, the freeze and the pre-delay stay.
    pub fn reset(&mut self)
        requires
            old(self).wf(),
        ensures
            final(self).wf(),
            final(self).mode == old(self).mode,
            final(self).predelay.delay() == old(self).predelay.delay(),
            final(self).predelay.at() == 0,
            final(self).predelay.slots() == ring::quiet(old(self).predelay.slots().len()),
            final(self).predelay.history() == ring::quiet(old(self).predelay.slots().len()),
            silenced(old(self).left.combs(), final(self).left.combs()),
            silenced(old(self).left.allpasses(), final(self).left.allpasses()),
            silenced(old(self).right.combs(), final(self).right.combs()),
            silenced(old(self).right.allpasses(), final(self).right.allpasses()),
    {
        self.left.reset();
        self.right.reset();
        self.predelay.reset();
    }
}

/// After a reset nothing of what went in before comes out of any line.
pub proof fn law_a_reset_leaves_silence(before: Seq<Ring>, after: Seq<Ring>, line: int, i: int)
    requires
        silenced(before, after),
        all_wf(after),
        0 <= line < after.len(),
        0 <= i < after[line].history().len(),
    ensures
        after[line].history()[i] == ring::silence(),
{
    assert(after[line].wf());
}

/// The lengths of the lines that run side by side, in samples at 44.1 kHz: eight
/// for each character, the right side 23 samples longer.
pub proof fn law_every_character_has_its_combs(t: ReverbType, i: int)
    requires
        0 <= i < 8,
    ensures
        ({
            let listed = match t {
                ReverbType::Room => seq![1116int, 1188, 1277, 1356, 1422, 1491, 1557, 1617],
                ReverbType::Hall => seq![1557int, 1617, 1733, 1861, 1993, 2131, 2269, 2399],
                ReverbType::Plate => seq![1051int, 1123, 1187, 1259, 1321, 1381, 1447, 1511],
                ReverbType::Spring => seq![983int, 1097, 1289, 1429, 1531, 1667, 1811, 1949],
            };
            &&& comb_lengths(t).len() == 8
            &&& on_side(comb_lengths(t), false)[i] == listed[i]
            &&& on_side(comb_lengths(t), true)[i] == listed[i] + 23
        }),
{
}

/// The lengths of the lines that follow each other: four for each character, the
/// right side 23 samples longer.
pub proof fn law_every_character_has_its_allpasses(t: ReverbType, i: int)
    requires
        0 <= i < 4,
    ensures
        ({
            let listed = match t {
                ReverbType::Room => seq![556int, 441, 341, 225],
                ReverbType::Hall => seq![677int, 557, 433, 311],
                ReverbType::Plate => seq![487int, 379, 283, 197],
                ReverbType::Spring => seq![631int, 491, 367, 251],
            };
            &&& allpass_lengths(t).len() == 4
            &&& on_side(allpass_lengths(t), false)[i] == listed[i]
            &&& on_side(allpass_lengths(t), true)[i] == listed[i] + 23
        }),
{
}

/// No two lines of a side have the same length, and no two characters have the same
/// lines: every one rings at pitches of its own.
pub proof fn law_no_two_lines_ring_alike(t: ReverbType, u: ReverbType, i: int, j: int, right: bool)
    requires
        0 <= i < j < 8,
    ensures
        on_side(comb_lengths(t), right)[i] < on_side(comb_lengths(t), right)[j],
        j < 4 ==> on_side(allpass_lengths(t), right)[i] > on_side(allpass_lengths(t), right)[j],
        t != u ==> on_side(comb_lengths(t), right)[0] != on_side(comb_lengths(u), right)[0],
        t != u ==> on_side(allpass_lengths(t), right)[0] != on_side(allpass_lengths(u), right)[0],
{
    law_every_character_has_its_combs(t, i);
    law_every_character_has_its_combs(t, j);
    law_every_character_has_its_combs(t, 0);
    law_every_character_has_its_combs(u, 0);
    law_every_character_has_its_allpasses(t, 0);
    law_every_character_has_its_allpasses(u, 0);
    if j < 4 {
        law_every_character_has_its_allpasses(t, i);
        law_every_character_has_its_allpasses(t, j);
    }
}

/// The eight lengths of each character together.
pub proof fn law_the_combs_add_up(t: ReverbType)
    ensures
        total(comb_lengths(t)) == (match t {
            ReverbType::Room => 11_024int,
            ReverbType::Hall => 15_560,
            ReverbType::Plate => 10_280,
            ReverbType::Spring => 11_756,
        }),
{
    let a = comb_lengths(t);
    let b = a.drop_last();
    let c = b.drop_last();
    let d = c.drop_last();
    let e = d.drop_last();
    let f = e.drop_last();
    let g = f.drop_last();
    let h = g.drop_last();
    assert(total(h.drop_last()) == 0);
    assert(total(h) == a[0]);
    assert(total(g) == total(h) + a[1]);
    assert(total(f) == total(g) + a[2]);
    assert(total(e) == total(f) + a[3]);
    assert(total(d) == total(e) + a[4]);
    assert(total(c) == total(d) + a[5]);
    assert(total(b) == total(c) + a[6]);
}

/// Every character has its colour: how much its allpass filters feed back, how much
/// darker damping makes it, how much longer it decays, and how dense it is.
pub proof fn law_every_character_has_its_colour(t: ReverbType)
    ensures
        ({
            let c = coloured(t);
            match t {
                ReverbType::Room => {
                    &&& bits::stands_for(c.diffusion, 5, 10)
                    &&& bits::stands_for(c.damp_scale, 1, 1)
                    &&& bits::stands_for(c.decay_scale, 1, 1)
                    &&& bits::stands_for(c.density, 1, 1)
                },
                ReverbType::Hall => {
                    &&& bits::stands_for(c.diffusion, 6, 10)
                    &&& bits::stands_for(c.damp_scale, 7, 10)
                    &&& bits::stands_for(c.decay_scale, 15, 10)
                    &&& bits::stands_for(c.density, 85, 100)
                },
                ReverbType::Plate => {
                    &&& bits::stands_for(c.diffusion, 7, 10)
                    &&& bits::stands_for(c.damp_scale, 5, 10)
                    &&& bits::stands_for(c.decay_scale, 12, 10)
                    &&& bits::stands_for(c.density, 12, 10)
                },
                ReverbType::Spring => {
                    &&& bits::stands_for(c.diffusion, 45, 100)
                    &&& bits::stands_for(c.damp_scale, 14, 10)
                    &&& bits::stands_for(c.decay_scale, 8, 10)
                    &&& bits::stands_for(c.density, 9, 10)
                },
            }
        }),
{
    let c = coloured(t);
    power2::lemma2_to64();
    match t {
        ReverbType::Room => {
            bits::lemma_stands_for(c.diffusion, 126, 0x0, 5, 10);
            bits::lemma_stands_for(c.damp_scale, 127, 0x0, 1, 1);
            bits::lemma_stands_for(c.decay_scale, 127, 0x0, 1, 1);
            bits::lemma_stands_for(c.density, 127, 0x0, 1, 1);
        },
        ReverbType::Hall => {
            bits::lemma_stands_for(c.diffusion, 126, 0x19999a, 6, 10);
            bits::lemma_stands_for(c.damp_scale, 126, 0x333333, 7, 10);
            bits::lemma_stands_for(c.decay_scale, 127, 0x400000, 15, 10);
            bits::lemma_stands_for(c.density, 126, 0x59999a, 85, 100);
        },
        ReverbType::Plate => {
            bits::lemma_stands_for(c.diffusion, 126, 0x333333, 7, 10);
            bits::lemma_stands_for(c.damp_scale, 126, 0x0, 5, 10);
            bits::lemma_stands_for(c.decay_scale, 127, 0x19999a, 12, 10);
            bits::lemma_stands_for(c.density, 127, 0x19999a, 12, 10);
        },
        ReverbType::Spring => {
            bits::lemma_stands_for(c.diffusion, 125, 0x666666, 45, 100);
            bits::lemma_stands_for(c.damp_scale, 127, 0x333333, 14, 10);
            bits::lemma_stands_for(c.decay_scale, 126, 0x4ccccd, 8, 10);
            bits::lemma_stands_for(c.density, 126, 0x666666, 9, 10);
        },
    }
}

/// The character is the one of the same name.
pub proof fn law_a_character_keeps_its_name(t: params::ReverbType)
    ensures
        t == params::ReverbType::Room <==> same_type(t) == ReverbType::Room,
        t == params::ReverbType::Hall <==> same_type(t) == ReverbType::Hall,
        t == params::ReverbType::Plate <==> same_type(t) == ReverbType::Plate,
        t == params::ReverbType::Spring <==> same_type(t) == ReverbType::Spring,
{
}

/// A length is the whole part of a number, and one where that is less than one.
pub proof fn law_a_length_is_a_whole_part(scaled: Bits32)
    ensures
        length_of(scaled) >= 1,
        scaled.is_nan() || bits::value(scaled) < 1 as real ==> length_of(scaled) == 1,
        !scaled.is_nan() && 1 as real <= bits::value(scaled) && bits::value(scaled)
            < 0xffff_ffff as real ==> length_of(scaled) as real <= bits::value(scaled)
            && bits::value(scaled) < length_of(scaled) as real + 1 as real,
        !scaled.is_nan() && bits::value(scaled) >= 0xffff_ffff as real ==> length_of(scaled)
            >= 0xffff_ffff,
{
    bits::law_a_whole_part_is_the_last_not_more(scaled);
}

/// A frozen reverb takes nothing in and feeds nearly all of itself back, 0.999; one
/// that is not takes in what it is given, and feeds back what its decay asks for,
/// from nothing up to 0.98, or a half where its lines take no time.
pub proof fn law_freezing_cuts_the_input_and_keeps_the_tail(
    mode: ReverbMode,
    x: Bits32,
    seconds: Bits32,
    decayed: Bits32,
)
    requires
        !seconds.is_nan(),
        !decayed.is_nan(),
    ensures
        mode.frozen ==> let_in(mode, x).bits == 0,
        !mode.frozen ==> let_in(mode, x) == x,
        mode.frozen ==> bits::stands_for(sustained(mode, seconds, decayed), 999, 1000),
        !mode.frozen && bits::value(seconds) <= 0 as real ==> bits::stands_for(
            sustained(mode, seconds, decayed),
            1,
            2,
        ),
        !mode.frozen && bits::value(seconds) > 0 as real && bits::value(decayed) < 0 as real
            ==> bits::value(sustained(mode, seconds, decayed)) == 0 as real,
        !mode.frozen && bits::value(seconds) > 0 as real && 0 as real <= bits::value(decayed)
            && bits::value(decayed) * 100 as real <= 97 as real ==> sustained(
            mode,
            seconds,
            decayed,
        ) == decayed,
        !mode.frozen && bits::value(seconds) > 0 as real && bits::value(decayed) >= 1 as real
            ==> bits::stands_for(sustained(mode, seconds, decayed), 98, 100),
{
    let nearly = Bits32 { bits: 0x3f7f_be77 };
    let most = Bits32 { bits: 0x3f7a_e148 };
    let half = Bits32 { bits: 0x3f00_0000 };
    bits::lemma_values();
    power2::lemma2_to64();
    bits::lemma_stands_for(nearly, 126, 0x7f_be77, 999, 1000);
    bits::lemma_stands_for(most, 126, 0x7a_e148, 98, 100);
    bits::lemma_stands_for(half, 126, 0, 1, 2);
    bits::law_below_is_less(bits::zero(), seconds);
    let v = bits::value(most);
    let w = bits::value(decayed);
    assert(0 as real <= v < 1 as real && (w * 100 as real <= 97 as real ==> w <= v))
        by (nonlinear_arith)
        requires
            -1 as real <= (v * 100 as real - 98 as real) * 10_000 as real <= 1 as real,
    ;
    bits::law_a_clamped_number_lies_between(decayed, bits::zero(), most);
}

/// What a pre-delay of so many samples hands on: the sample itself where it is none,
/// and otherwise the one that was put in so many samples before.
pub proof fn law_a_predelay_looks_back(history: Seq<Bits32>, delay: int, x: Bits32)
    requires
        0 <= delay < history.len(),
    ensures
        delay == 0 ==> delayed(history, delay, x) == x,
        delay > 0 ==> delayed(history, delay, x) == history[history.len() - delay],
{
}

/// Lines that are brought to other lengths have those lengths, and hold what they
/// held as far as it fits; lines that are silenced hold nothing but zeros.
pub proof fn law_lines_are_fitted_and_silenced(
    before: Seq<Ring>,
    after: Seq<Ring>,
    scaled: Seq<Bits32>,
    line: int,
    i: int,
)
    requires
        0 <= line < after.len(),
    ensures
        refitted(before, after, scaled) ==> after.len() == before.len()
            && after[line].slots().len() == length_of(scaled[line]) && (0 <= i
            < length_of(scaled[line]) && i < before[line].slots().len() ==> after[line].slots()[i]
            == before[line].slots()[i]) && (before[line].slots().len() <= i < length_of(
            scaled[line],
        ) ==> after[line].slots()[i].bits == 0) && (0 <= before[line].at() < length_of(scaled[line])
            ==> after[line].at() == before[line].at()),
        silenced(before, after) ==> after.len() == before.len() && after[line].slots().len()
            == before[line].slots().len() && (0 <= i < after[line].slots().len()
            ==> after[line].slots()[i].bits == 0),
{
    if 0 <= before[line].at() < length_of(scaled[line]) {
        div_mod::lemma_small_mod(before[line].at() as nat, length_of(scaled[line]));
    }
}

}
