//! Reading a saved state from a host's stream.
//!
//! A state is a length, in eight bytes with the lowest first, and as many bytes
//! after it. The length is input like any other: it is refused before anything
//! is reserved for it, the rest is pulled in however few bytes the stream hands
//! out at a time, and only a whole state is handed on.

use vstd::prelude::*;

use crate::state;

verus! {

/// The largest saved state that is read.
///
/// A state is a few kilobytes: one number per parameter, and no persisted
/// fields at all. Sixteen megabytes is a thousand times the room it could ever
/// need and still small enough that reading it can never exhaust memory.
pub const MAX_STATE_BYTES: u64 = 16_777_216;

/// The bytes of the length in front of a state.
pub const STATE_LENGTH_PREFIX_BYTES: usize = 8;

/// The number that bytes spell, the lowest first.
pub open spec fn little_endian(bytes: Seq<u8>) -> nat
    decreases bytes.len(),
{
    if bytes.len() == 0 {
        0
    } else {
        bytes[0] as nat + 256 * little_endian(bytes.drop_first())
    }
}

/// What comes next, after the bytes `taken` were read.
pub enum LoadStep {
    /// Ask the stream for up to `wanted` bytes more.
    Read { wanted: usize },
    /// The state is whole: hand it on.
    Replay,
    /// Not a state of this plug-in.
    Refuse,
}

/// The length that a state starts with.
pub open spec fn announced(taken: Seq<u8>) -> nat {
    little_endian(taken.take(8))
}

/// A length that a state of this plug-in can have.
pub open spec fn plausible(length: nat) -> bool {
    0 < length <= MAX_STATE_BYTES
}

/// What comes next after `taken`.
pub open spec fn step_after(taken: Seq<u8>) -> LoadStep {
    if taken.len() < 8 {
        LoadStep::Read { wanted: (8 - taken.len()) as usize }
    } else if !plausible(announced(taken)) {
        LoadStep::Refuse
    } else if taken.len() < 8 + announced(taken) {
        LoadStep::Read { wanted: (8 + announced(taken) - taken.len()) as usize }
    } else {
        LoadStep::Replay
    }
}

/// The state at the start of a stream, with its length, or nothing where the
/// stream does not start with one.
pub open spec fn state_in(stream: Seq<u8>) -> Option<Seq<u8>> {
    if stream.len() >= 8 && plausible(announced(stream)) && stream.len() >= 8 + announced(stream) {
        Some(stream.take(8 + announced(stream) as int))
    } else {
        None
    }
}

/// What a whole load ends with, over the pieces that the stream hands out: the
/// bytes to hand on, or nothing.
pub open spec fn load_of(taken: Seq<u8>, pieces: Seq<Seq<u8>>) -> Option<Seq<u8>>
    decreases pieces.len(),
{
    match step_after(taken) {
        LoadStep::Refuse => None,
        LoadStep::Replay => Some(taken),
        LoadStep::Read { wanted } => if pieces.len() == 0 || pieces[0].len() == 0 || pieces[0].len()
            > wanted {
            None
        } else {
            load_of(taken + pieces[0], pieces.drop_first())
        },
    }
}

/// A stream that answers every request with at least one byte and never with
/// more than was asked for, for as long as it is asked.
pub open spec fn answers_in_pieces(taken: Seq<u8>, pieces: Seq<Seq<u8>>) -> bool
    decreases pieces.len(),
{
    match step_after(taken) {
        LoadStep::Read { wanted } => pieces.len() == 0 || (0 < pieces[0].len() <= wanted
            && answers_in_pieces(taken + pieces[0], pieces.drop_first())),
        _ => true,
    }
}

/// The pieces of a stream, joined.
pub open spec fn joined(pieces: Seq<Seq<u8>>) -> Seq<u8>
    decreases pieces.len(),
{
    if pieces.len() == 0 {
        Seq::empty()
    } else {
        pieces[0] + joined(pieces.drop_first())
    }
}

/// However a stream is cut into pieces, a load ends with the state that the
/// stream starts with, or is refused where it starts with none.
pub proof fn law_the_pieces_do_not_matter(pieces: Seq<Seq<u8>>)
    requires
        answers_in_pieces(Seq::empty(), pieces),
    ensures
        load_of(Seq::empty(), pieces) == state_in(joined(pieces)),
{
    lemma_pieces(Seq::empty(), pieces);
    assert(Seq::<u8>::empty() + joined(pieces) =~= joined(pieces));
}

/// The same from the middle of a load on.
proof fn lemma_pieces(taken: Seq<u8>, pieces: Seq<Seq<u8>>)
    requires
        answers_in_pieces(taken, pieces),
        taken.len() <= 8 || taken.len() <= 8 + announced(taken),
    ensures
        load_of(taken, pieces) == state_in(taken + joined(pieces)),
    decreases pieces.len(),
{
    let stream = taken + joined(pieces);
    if taken.len() >= 8 {
        assert(stream.take(8) =~= taken.take(8));
    }
    match step_after(taken) {
        LoadStep::Refuse => {},
        LoadStep::Replay => {
            assert(stream.take(8 + announced(taken) as int) =~= taken);
        },
        LoadStep::Read { wanted } => {
            if pieces.len() == 0 {
                assert(stream =~= taken);
            } else {
                let more = taken + pieces[0];
                assert(more + joined(pieces.drop_first()) =~= stream);
                if taken.len() >= 8 {
                    assert(more.take(8) =~= taken.take(8));
                }
                lemma_pieces(more, pieces.drop_first());
            }
        },
    }
}

/// A state with its length in front, as it is saved, is loaded whole.
pub proof fn law_a_saved_state_is_loaded(prefix: Seq<u8>, body: Seq<u8>, rest: Seq<u8>)
    requires
        prefix.len() == 8,
        little_endian(prefix) == body.len(),
        plausible(body.len()),
    ensures
        state_in(prefix + body + rest) == Some(prefix + body),
{
    let stream = prefix + body + rest;
    assert(stream.take(8) =~= prefix);
    assert(stream.take(8 + body.len() as int) =~= prefix + body);
}

/// The number of at most eight bytes fits in 64 bits.
proof fn lemma_little_endian_fits(bytes: Seq<u8>)
    requires
        bytes.len() <= 8,
    ensures
        bytes.len() == 0 ==> little_endian(bytes) == 0,
        bytes.len() <= 1 ==> little_endian(bytes) < 0x100,
        bytes.len() <= 2 ==> little_endian(bytes) < 0x1_0000,
        bytes.len() <= 3 ==> little_endian(bytes) < 0x100_0000,
        bytes.len() <= 4 ==> little_endian(bytes) < 0x1_0000_0000,
        bytes.len() <= 5 ==> little_endian(bytes) < 0x100_0000_0000,
        bytes.len() <= 6 ==> little_endian(bytes) < 0x1_0000_0000_0000,
        bytes.len() <= 7 ==> little_endian(bytes) < 0x100_0000_0000_0000,
        little_endian(bytes) < 0x1_0000_0000_0000_0000,
    decreases bytes.len(),
{
    if bytes.len() > 0 {
        lemma_little_endian_fits(bytes.drop_first());
    }
}

/// The number that the first eight bytes spell.
fn read_length(taken: &Vec<u8>) -> (length: u64)
    requires
        taken@.len() >= 8,
    ensures
        length == announced(taken@),
{
    let mut length: u64 = 0;
    let mut i: usize = 8;
    let ghost first = taken@.take(8);
    assert(first.skip(8) =~= Seq::empty());
    while i > 0
        invariant
            taken@.len() >= 8,
            first == taken@.take(8),
            i <= 8,
            length == little_endian(first.skip(i as int)),
        decreases i,
    {
        proof {
            lemma_little_endian_fits(first.skip(i as int));
            lemma_little_endian_fits(first.skip(i - 1));
            assert(first.skip(i - 1).drop_first() =~= first.skip(i as int));
        }
        i -= 1;
        length = length * 256 + taken[i] as u64;
    }
    assert(first.skip(0) =~= first);
    length
}

/// A load in progress.
pub struct StateLoad {
    taken: Vec<u8>,
    broken: bool,
}

impl StateLoad {
    /// The bytes read so far.
    pub closed spec fn taken(&self) -> Seq<u8> {
        self.taken@
    }

    /// The stream ended or failed before the state was whole.
    pub closed spec fn broken(&self) -> bool {
        self.broken
    }

    /// What has been read is no longer than a state.
    pub open spec fn wf(&self) -> bool {
        self.taken().len() <= 8 || self.taken().len() <= 8 + announced(self.taken())
    }

    /// Nothing read yet.
    pub fn new() -> (r: StateLoad)
        ensures
            r.wf(),
            r.taken() == Seq::<u8>::empty(),
            !r.broken(),
    {
        StateLoad { taken: Vec::new(), broken: false }
    }

    /// What to do next.
    pub fn next(&self) -> (step: LoadStep)
        ensures
            step == (if self.broken() {
                LoadStep::Refuse
            } else {
                step_after(self.taken())
            }),
            step matches LoadStep::Read { wanted } ==> 0 < wanted <= MAX_STATE_BYTES,
    {
        if self.broken {
            return LoadStep::Refuse;
        }
        let have = self.taken.len();
        if have < STATE_LENGTH_PREFIX_BYTES {
            return LoadStep::Read { wanted: STATE_LENGTH_PREFIX_BYTES - have };
        }
        let length = read_length(&self.taken);
        if length == 0 || length > MAX_STATE_BYTES {
            return LoadStep::Refuse;
        }
        let whole = STATE_LENGTH_PREFIX_BYTES + length as usize;
        if have < whole {
            LoadStep::Read { wanted: whole - have }
        } else {
            LoadStep::Replay
        }
    }

    /// Take the answer of the stream to a request: how many bytes it claims to
    /// have written, and the room it could write to.
    ///
    /// Zero is the end of the stream, negative is an error, and a stream that
    /// claims to have written more than it was asked for is not one to keep
    /// reading from.
    pub fn answer(&mut self, claimed: i64, data: &[u8])
        requires
            old(self).wf(),
            !old(self).broken(),
            step_after(old(self).taken()) is Read,
            data@.len() == step_after(old(self).taken())->wanted,
        ensures
            final(self).wf(),
            0 < claimed <= data@.len() ==> {
                &&& !final(self).broken()
                &&& final(self).taken() == old(self).taken() + data@.take(claimed as int)
            },
            !(0 < claimed <= data@.len()) ==> {
                &&& final(self).broken()
                &&& final(self).taken() == old(self).taken()
            },
    {
        if claimed <= 0 || claimed as u64 > data.len() as u64 {
            self.broken = true;
            return ;
        }
        let count = claimed as usize;
        let ghost before = self.taken@;
        let mut i: usize = 0;
        while i < count
            invariant
                i <= count <= data@.len(),
                self.taken@ == before + data@.take(i as int),
                !self.broken,
            decreases count - i,
        {
            self.taken.push(data[i]);
            i += 1;
            assert(self.taken@ =~= before + data@.take(i as int));
        }
        proof {
            if before.len() >= 8 {
                assert(self.taken@.take(8) =~= before.take(8));
            }
        }
    }

    /// The whole state, ready to be read again from the start.
    pub fn into_replay(self) -> (r: Replay)
        ensures
            r.wf(),
            r.data() == self.taken(),
            r.position() == 0,
    {
        Replay { data: self.taken, pos: 0 }
    }
}

/// A stream over bytes that are already here.
pub struct Replay {
    data: Vec<u8>,
    pos: usize,
}

/// How many bytes a read of `size` gets where `left` are left.
pub open spec fn read_count(left: nat, size: nat) -> nat {
    if size < left {
        size
    } else {
        left
    }
}

/// The bytes that reads of these sizes get, joined.
pub open spec fn replayed(data: Seq<u8>, pos: int, sizes: Seq<nat>) -> Seq<u8>
    decreases sizes.len(),
{
    if sizes.len() == 0 {
        Seq::empty()
    } else {
        let count = read_count((data.len() - pos) as nat, sizes[0]);
        data.subrange(pos, pos + count) + replayed(data, pos + count, sizes.drop_first())
    }
}

/// The sum of the sizes.
pub open spec fn total(sizes: Seq<nat>) -> nat
    decreases sizes.len(),
{
    if sizes.len() == 0 {
        0
    } else {
        sizes[0] + total(sizes.drop_first())
    }
}

/// Reads get the bytes in order, each byte once, until none is left.
pub proof fn law_a_replay_gives_back_the_bytes(data: Seq<u8>, pos: int, sizes: Seq<nat>)
    requires
        0 <= pos <= data.len(),
    ensures
        replayed(data, pos, sizes) == data.subrange(
            pos,
            pos + read_count((data.len() - pos) as nat, total(sizes)),
        ),
    decreases sizes.len(),
{
    if sizes.len() > 0 {
        let count = read_count((data.len() - pos) as nat, sizes[0]);
        law_a_replay_gives_back_the_bytes(data, pos + count, sizes.drop_first());
    }
    assert(replayed(data, pos, sizes) =~= data.subrange(
        pos,
        pos + read_count((data.len() - pos) as nat, total(sizes)),
    ));
}

/// What is saved comes back: however the host hands the stream over, and however
/// much of it is asked for at a time, the bytes that are decoded are those that
/// were encoded, so that parameters which hold what they can hold get it back.
/// The framework encodes and decodes.
pub proof fn law_what_is_saved_comes_back(
    params: Map<Seq<char>, state::ValueView>,
    encode: spec_fn(Map<Seq<char>, state::ValueView>) -> Seq<u8>,
    decode: spec_fn(Seq<u8>) -> Map<Seq<char>, state::ValueView>,
    prefix: Seq<u8>,
    rest: Seq<u8>,
    pieces: Seq<Seq<u8>>,
    sizes: Seq<nat>,
)
    requires
        forall|id: Seq<char>| #[trigger]
            params.contains_key(id) ==> state::acceptable(id, params[id]),
        decode(encode(params)) == params,
        prefix.len() == 8,
        little_endian(prefix) == encode(params).len(),
        plausible(encode(params).len()),
        joined(pieces) == prefix + encode(params) + rest,
        answers_in_pieces(Seq::empty(), pieces),
        total(sizes) >= 8 + encode(params).len(),
    ensures
        ({
            let loaded = load_of(Seq::empty(), pieces)->Some_0;
            &&& load_of(Seq::empty(), pieces) is Some
            &&& state::sanitized(decode(replayed(loaded, 0, sizes).skip(8))) == params
        }),
{
    let saved = prefix + encode(params);
    law_the_pieces_do_not_matter(pieces);
    law_a_saved_state_is_loaded(prefix, encode(params), rest);
    law_a_replay_gives_back_the_bytes(saved, 0, sizes);
    assert(saved.subrange(0, saved.len() as int) =~= saved);
    assert(saved.skip(8) =~= encode(params));
    state::law_a_valid_state_is_left_alone(params);
}

impl Replay {
    /// All bytes.
    pub closed spec fn data(&self) -> Seq<u8> {
        self.data@
    }

    /// How many of them were read.
    pub closed spec fn position(&self) -> int {
        self.pos as int
    }

    /// No more was read than there is.
    pub open spec fn wf(&self) -> bool {
        0 <= self.position() <= self.data().len()
    }

    /// The next bytes, at most `size` of them.
    pub fn read(&mut self, size: u64) -> (r: Vec<u8>)
        requires
            old(self).wf(),
        ensures
            final(self).wf(),
            final(self).data() == old(self).data(),
            r@.len() == read_count(
                (old(self).data().len() - old(self).position()) as nat,
                size as nat,
            ),
            final(self).position() == old(self).position() + r@.len(),
            r@ == old(self).data().subrange(old(self).position(), final(self).position()),
    {
        let left = self.data.len() - self.pos;
        let count = if size < left as u64 {
            size as usize
        } else {
            left
        };
        let start = self.pos;
        let mut r: Vec<u8> = Vec::new();
        let mut i: usize = 0;
        while i < count
            invariant
                i <= count,
                start + count <= self.data.len(),
                r@ == self.data@.subrange(start as int, start + i),
            decreases count - i,
        {
            r.push(self.data[start + i]);
            i += 1;
            assert(r@ =~= self.data@.subrange(start as int, start + i));
        }
        self.pos = start + count;
        r
    }
}

/// How a load ends, once the plug-in has taken the state or not.
#[derive(Clone, Copy, Debug, PartialEq, Eq, Structural)]
pub struct LoadEnd {
    /// What the host is told.
    pub loaded: bool,
    /// Ask the host to read every parameter value again: a load changes all of
    /// them at once and the host has no other way to find out.
    pub rescan: bool,
}

/// How a load ends.
pub fn end_load(loaded: bool) -> (r: LoadEnd)
    ensures
        r.loaded == loaded,
        r.rescan == loaded,
{
    LoadEnd { loaded, rescan: loaded }
}

/// A length is spelled by eight bytes, the lowest first: each byte counts 256 times
/// what the one before it counts.
pub proof fn law_a_length_is_spelled_lowest_first(bytes: Seq<u8>, b: u8)
    ensures
        little_endian(Seq::<u8>::empty()) == 0,
        little_endian(seq![b]) == b,
        little_endian(seq![b] + bytes) == b + 256 * little_endian(bytes),
{
    assert((seq![b] + bytes).drop_first() =~= bytes);
    assert(seq![b].drop_first() =~= Seq::empty());
}

/// What a load does next: it reads on while the length is not whole, refuses a length
/// of nothing or of more than 16 MiB before anything is read of the state itself,
/// reads exactly as much as is missing, and hands on a state that is whole.
pub proof fn law_a_load_reads_what_is_missing(taken: Seq<u8>)
    ensures
        ({
            let length = little_endian(taken.take(8));
            let step = step_after(taken);
            &&& taken.len() < 8 ==> step == (LoadStep::Read { wanted: (8 - taken.len()) as usize })
            &&& taken.len() >= 8 && (length == 0 || length > 16 * 1024 * 1024) ==> step
                == LoadStep::Refuse
            &&& taken.len() >= 8 && 0 < length <= 16 * 1024 * 1024 && taken.len() < 8 + length
                ==> step == (LoadStep::Read { wanted: (8 + length - taken.len()) as usize })
            &&& taken.len() >= 8 && 0 < length <= 16 * 1024 * 1024 && taken.len() >= 8 + length
                ==> step == LoadStep::Replay
        }),
{
}

/// A stream starts with a state where its first eight bytes spell a length from one
/// byte to 16 MiB and that many bytes follow; the state is these and the eight bytes,
/// and what comes behind does not matter.
pub proof fn law_a_state_is_its_length_and_its_bytes(stream: Seq<u8>)
    ensures
        ({
            let length = little_endian(stream.take(8));
            let whole = stream.len() >= 8 && 0 < length <= 16 * 1024 * 1024 && stream.len() >= 8
                + length;
            &&& whole ==> state_in(stream) == Some(stream.take(8 + length as int))
            &&& !whole ==> state_in(stream) is None
        }),
{
}

/// A read gets as many bytes as were asked for, or as many as are left where that is
/// less.
pub proof fn law_a_read_gets_what_is_left(left: nat, size: nat)
    ensures
        read_count(left, size) <= left,
        read_count(left, size) <= size,
        read_count(left, size) == left || read_count(left, size) == size,
{
}

}
