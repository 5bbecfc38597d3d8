//! Where effects that place things at random take their bytes from.
use rand_core::Rng;
use vstd::prelude::*;

verus! {

/// A supply of bytes that remembers, in its specification, what it handed out.
pub trait ByteSource {
    /// What identifies the supply; drawing never changes it.
    type Origin;

    /// See [`ByteSource::Origin`].
    spec fn origin(&self) -> Self::Origin;

    /// The bytes handed out so far, oldest first.
    spec fn drawn(&self) -> Seq<u8>;

    /// Whether another byte may be drawn; drawing keeps it so.
    spec fn ready(&self) -> bool;

    /// Draws one byte.
    fn next_byte(&mut self) -> (byte: u8)
        requires
            old(self).ready(),
        ensures
            final(self).ready(),
            final(self).origin() == old(self).origin(),
            final(self).drawn() == old(self).drawn().push(byte),
    ;
}

/// Whether calls of `supply` may have returned `draws`, in this order.
pub open spec fn returned_by<R: FnMut() -> u8>(supply: R, draws: Seq<u8>) -> bool {
    forall|i: int| 0 <= i < draws.len() ==> call_ensures(supply, (), #[trigger] draws[i])
}

/// Bytes from a function of the caller's.
pub struct FnBytes<R> {
    supply: R,
    history: Ghost<Seq<u8>>,
}

impl<R: FnMut() -> u8> FnBytes<R> {
    pub fn new(supply: R) -> (bytes: Self)
        ensures
            call_requires(supply, ()) ==> bytes.ready(),
            bytes.origin() == supply,
            bytes.drawn() == Seq::<u8>::empty(),
    {
        FnBytes { supply, history: Ghost(Seq::empty()) }
    }

    /// Everything drawn came from the supply.
    pub proof fn lemma_drawn(&self)
        requires
            self.ready(),
        ensures
            returned_by(self.origin(), self.drawn()),
    {
    }
}

impl<R: FnMut() -> u8> ByteSource for FnBytes<R> {
    type Origin = R;

    closed spec fn origin(&self) -> R {
        self.supply
    }

    closed spec fn drawn(&self) -> Seq<u8> {
        self.history@
    }

    closed spec fn ready(&self) -> bool {
        call_requires(self.supply, ()) && returned_by(self.supply, self.history@)
    }

    fn next_byte(&mut self) -> (byte: u8) {
        let byte: u8 = (self.supply)();
        proof {
            self.history@ = self.history@.push(byte);
        }
        byte
    }
}

/// The word that `rand_pcg::Pcg32`, seeded with `seed` and `stream`, yields
/// after `position` earlier words.
pub uninterp spec fn pcg32_word(seed: u64, stream: u64, position: u64) -> u32;

/// Seeds `rand_pcg::Pcg32::new`, skips `position` words with its `advance`
/// and takes the next one with `next_u32`. Trusted: the word is a function of
/// the three arguments alone, named [`pcg32_word`]; nothing else is claimed
/// of it.
#[verifier::external_body]
fn pcg32_draw(seed: u64, stream: u64, position: u64) -> (word: u32)
    ensures
        word == pcg32_word(seed, stream, position),
{
    let mut rng = rand_pcg::Pcg32::new(seed, stream);
    rng.advance(position);
    rng.next_u32()
}

/// A seedable generator: the `pcg32` sequence of a seed and a stream, and how
/// far along it is. The sequence repeats after 2^64 words, as the position
/// does.
#[derive(Copy, Clone, Debug, PartialEq, Eq, Structural)]
pub struct Pcg32 {
    pub seed: u64,
    pub stream: u64,
    /// Words taken so far.
    pub position: u64,
}

impl Pcg32 {
    /// The generator `n` words further along.
    pub open spec fn advanced(self, n: int) -> Pcg32 {
        Pcg32 { position: ((self.position + n) % 0x1_0000_0000_0000_0000) as u64, ..self }
    }

    /// The word this generator yields next.
    pub open spec fn word(self) -> u32 {
        pcg32_word(self.seed, self.stream, self.position)
    }

    /// The low bytes of the next `n` words.
    pub open spec fn bytes(self, n: int) -> Seq<u8> {
        Seq::new(n as nat, |i: int| (self.advanced(i).word() % 256) as u8)
    }

    pub fn new(seed: u64, stream: u64) -> (rng: Self)
        ensures
            rng == (Pcg32 { seed, stream, position: 0 }),
    {
        Self { seed, stream, position: 0 }
    }

    /// Takes the next word.
    pub fn next_u32(&mut self) -> (word: u32)
        ensures
            word == old(self).word(),
            *final(self) == old(self).advanced(1),
    {
        let word: u32 = pcg32_draw(self.seed, self.stream, self.position);
        self.position = self.position.wrapping_add(1);
        word
    }
}

/// Advancing in two steps is advancing by their sum.
pub proof fn law_advancing_adds_up(rng: Pcg32, m: int, n: int)
    requires
        0 <= m,
        0 <= n,
    ensures
        rng.advanced(m).advanced(n) == rng.advanced(m + n),
        rng.advanced(0) == rng,
{
}

/// Bytes from a generator: the low byte of each word.
pub struct PcgBytes {
    rng: Pcg32,
    start: Ghost<Pcg32>,
    count: Ghost<int>,
}

impl PcgBytes {
    pub fn new(rng: Pcg32) -> (bytes: Self)
        ensures
            bytes.ready(),
            bytes.origin() == rng,
            bytes.drawn() == Seq::<u8>::empty(),
    {
        proof {
            assert(rng.bytes(0) =~= Seq::<u8>::empty());
        }
        PcgBytes { rng, start: Ghost(rng), count: Ghost(0) }
    }

    /// The generator as the draws left it.
    pub fn generator(&self) -> (rng: Pcg32)
        requires
            self.ready(),
        ensures
            rng == self.origin().advanced(self.drawn().len() as int),
            self.drawn() == self.origin().bytes(self.drawn().len() as int),
    {
        self.rng
    }
}

impl ByteSource for PcgBytes {
    type Origin = Pcg32;

    closed spec fn origin(&self) -> Pcg32 {
        self.start@
    }

    closed spec fn drawn(&self) -> Seq<u8> {
        self.start@.bytes(self.count@)
    }

    closed spec fn ready(&self) -> bool {
        0 <= self.count@ && self.rng == self.start@.advanced(self.count@)
    }

    fn next_byte(&mut self) -> (byte: u8) {
        let word: u32 = self.rng.next_u32();
        let byte: u8 = crate::math::low_byte(word);
        proof {
            law_advancing_adds_up(self.start@, self.count@, 1);
            assert(self.start@.bytes(self.count@ + 1) =~= self.start@.bytes(self.count@).push(byte));
            self.count@ = self.count@ + 1;
        }
        byte
    }
}

/// The words of a generator are taken in order, one position each, and the
/// position starts over after 2^64; seed and stream stay. The bytes are the
/// low bytes of those words.
pub proof fn law_words_are_taken_in_order(rng: Pcg32, n: int, i: int)
    requires
        0 <= i < n,
    ensures
        rng.bytes(n).len() == n,
        rng.bytes(n)[i] == rng.advanced(i).word() % 256,
        rng.advanced(i).seed == rng.seed && rng.advanced(i).stream == rng.stream,
        rng.position + i < 0x1_0000_0000_0000_0000 ==> rng.advanced(i).position == rng.position + i,
        rng.word() == pcg32_word(rng.seed, rng.stream, rng.position),
{
}

/// Bytes taken in two goes are the bytes taken in one.
pub proof fn law_bytes_go_on(rng: Pcg32, m: int, n: int)
    requires
        0 <= m,
        0 <= n,
    ensures
        rng.bytes(m + n) == rng.bytes(m) + rng.advanced(m).bytes(n),
{
    assert forall|i: int| 0 <= i < m + n implies rng.bytes(m + n)[i] == (rng.bytes(m)
        + rng.advanced(m).bytes(n))[i] by {
        if i >= m {
            law_advancing_adds_up(rng, m, i - m);
        }
    }
    assert(rng.bytes(m + n) =~= rng.bytes(m) + rng.advanced(m).bytes(n));
}

} // verus!
