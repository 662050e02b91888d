//! Where the filler bytes come from.
//!
//! A source offers one chunk at a time. The zero-fill source offers the same
//! chunk of zero bytes for ever, made once and shared by every connection;
//! the random-fill source makes a fresh chunk each time, from a small
//! generator that each connection seeds for itself.

use vstd::prelude::*;

verus! {

/// How long the zero-fill variant rests after each chunk, in nanoseconds.
pub const ZERO_FILL_PAUSE_NANOS: u64 = 100;

/// The state that stands in for a seed of zero, which the generator could
/// never leave.
pub const ZERO_SEED_STAND_IN: u64 = 0x9E37_79B9_7F4A_7C15;

/// `len` zero bytes.
pub open spec fn zeros(len: nat) -> Seq<u8> {
    Seq::new(len, |i: int| 0u8)
}

/// One step of the generator: three shifts, each folded back in.
pub open spec fn scramble(state: u64) -> u64 {
    let a = state ^ (state << 13);
    let b = a ^ (a >> 7);
    b ^ (b << 17)
}

/// The state of the generator `steps` steps after `state`.
pub open spec fn scrambled(state: u64, steps: nat) -> u64
    decreases steps,
{
    if steps == 0 {
        state
    } else {
        scramble(scrambled(state, (steps - 1) as nat))
    }
}

/// The `len` bytes that the generator gives from `state`: one step for each
/// byte, which is the low byte of the state it reaches.
pub open spec fn noise(state: u64, len: nat) -> Seq<u8> {
    Seq::new(len, |i: int| (scrambled(state, (i + 1) as nat) & 0xff) as u8)
}

/// A chunk of zero bytes, made once and never changed.
pub struct ZeroChunk {
    bytes: Vec<u8>,
}

impl View for ZeroChunk {
    type V = Seq<u8>;

    closed spec fn view(&self) -> Seq<u8> {
        self.bytes@
    }
}

impl ZeroChunk {
    #[verifier::type_invariant]
    spec fn all_zero(&self) -> bool {
        self.bytes@ == zeros(self.bytes@.len())
    }

    /// A chunk of `size` zero bytes.
    pub fn new(size: usize) -> (chunk: Self)
        ensures
            chunk@ == zeros(size as nat),
    {
        let mut bytes: Vec<u8> = Vec::new();
        let mut filled: usize = 0;
        while filled < size
            invariant
                filled <= size,
                bytes@ == zeros(filled as nat),
            decreases size - filled,
        {
            bytes.push(0u8);
            filled = filled + 1;
            assert(bytes@ =~= zeros(filled as nat));
        }
        ZeroChunk { bytes }
    }

    /// The bytes of the chunk: every one of them is zero.
    pub fn as_slice(&self) -> (bytes: &[u8])
        ensures
            bytes@ == self@,
            bytes@ == zeros(self@.len()),
    {
        proof {
            use_type_invariant(self);
        }
        self.bytes.as_slice()
    }
}

/// What a source is, to a contract.
pub enum SourceModel {
    /// The chunk of `size` zero bytes, for ever.
    ZeroFill { size: nat },
    /// A generator in `state`, which makes chunks of `size` bytes, and the
    /// chunk that it made last.
    RandomFill { state: u64, size: nat, chunk: Seq<u8> },
}

impl SourceModel {
    /// The chunk on offer.
    pub open spec fn current(self) -> Seq<u8> {
        match self {
            SourceModel::ZeroFill { size } => zeros(size),
            SourceModel::RandomFill { chunk, .. } => chunk,
        }
    }

    /// The source after it has been asked for the next chunk.
    pub open spec fn advanced(self) -> SourceModel {
        match self {
            SourceModel::ZeroFill { size } => self,
            SourceModel::RandomFill { state, size, .. } => SourceModel::RandomFill {
                state: scrambled(state, size),
                size,
                chunk: noise(state, size),
            },
        }
    }

    /// The size of every chunk that the source makes.
    pub open spec fn chunk_size(self) -> nat {
        match self {
            SourceModel::ZeroFill { size } => size,
            SourceModel::RandomFill { size, .. } => size,
        }
    }

    /// How long the stream rests after a chunk of this source, if at all.
    pub open spec fn pause(self) -> Option<u64> {
        match self {
            SourceModel::ZeroFill { .. } => Some(ZERO_FILL_PAUSE_NANOS),
            SourceModel::RandomFill { .. } => None,
        }
    }
}

/// A source of filler bytes.
pub struct ByteSource<'a> {
    filler: Filler<'a>,
}

enum Filler<'a> {
    Zero { zeros: &'a ZeroChunk },
    Random { state: u64, size: usize, chunk: Vec<u8> },
}

impl<'a> View for ByteSource<'a> {
    type V = SourceModel;

    closed spec fn view(&self) -> SourceModel {
        match self.filler {
            Filler::Zero { zeros } => SourceModel::ZeroFill { size: zeros@.len() },
            Filler::Random { state, size, chunk } => SourceModel::RandomFill {
                state,
                size: size as nat,
                chunk: chunk@,
            },
        }
    }
}

/// One step of the generator.
fn scramble_once(state: u64) -> (next: u64)
    ensures
        next == scramble(state),
{
    let a = state ^ (state << 13);
    let b = a ^ (a >> 7);
    b ^ (b << 17)
}

impl<'a> ByteSource<'a> {
    /// The source that offers `zeros` for ever.
    pub fn zero_fill(zeros: &'a ZeroChunk) -> (source: Self)
        ensures
            source@ == (SourceModel::ZeroFill { size: zeros@.len() }),
    {
        ByteSource { filler: Filler::Zero { zeros } }
    }

    /// A source of chunks of `size` bytes from a generator seeded with `seed`.
    /// It has made no chunk yet. A seed of zero, which the generator could
    /// never leave, is replaced.
    pub fn random_fill(seed: u64, size: usize) -> (source: Self)
        ensures
            source@ == (SourceModel::RandomFill {
                state: if seed == 0 {
                    ZERO_SEED_STAND_IN
                } else {
                    seed
                },
                size: size as nat,
                chunk: Seq::<u8>::empty(),
            }),
    {
        let state = if seed == 0 {
            ZERO_SEED_STAND_IN
        } else {
            seed
        };
        ByteSource { filler: Filler::Random { state, size, chunk: Vec::new() } }
    }

    /// The chunk on offer.
    pub fn current(&self) -> (bytes: &[u8])
        ensures
            bytes@ == self@.current(),
    {
        match &self.filler {
            Filler::Zero { zeros } => zeros.as_slice(),
            Filler::Random { chunk, .. } => chunk.as_slice(),
        }
    }

    /// How long the stream rests after a chunk of this source, if at all.
    pub fn pause(&self) -> (nanos: Option<u64>)
        ensures
            nanos == self@.pause(),
    {
        match &self.filler {
            Filler::Zero { .. } => Some(ZERO_FILL_PAUSE_NANOS),
            Filler::Random { .. } => None,
        }
    }

    /// Makes the next chunk and offers it: for ever the same zero bytes from
    /// the zero-fill source, fresh bytes of its generator from the random-fill
    /// source; in either case exactly as many as the size of its chunks.
    pub fn next(&mut self) -> (bytes: &[u8])
        ensures
            final(self)@ == old(self)@.advanced(),
            bytes@ == final(self)@.current(),
            bytes@.len() == old(self)@.chunk_size(),
    {
        match &mut self.filler {
            Filler::Zero { .. } => {},
            Filler::Random { state, size, chunk } => {
                let ghost seed = *state;
                chunk.clear();
                let mut made: usize = 0;
                while made < *size
                    invariant
                        made <= *size,
                        *state == scrambled(seed, made as nat),
                        chunk@ == noise(seed, made as nat),
                    decreases *size - made,
                {
                    *state = scramble_once(*state);
                    let low = *state & 0xff;
                    assert(low <= 0xff) by (bit_vector)
                        requires
                            low == *state & 0xff,
                    ;
                    chunk.push(low as u8);
                    made = made + 1;
                    assert(chunk@ =~= noise(seed, made as nat));
                }
            },
        }
        self.current()
    }
}

} // verus!
