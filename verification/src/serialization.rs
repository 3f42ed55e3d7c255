//! Fixed-width little-endian encoding of integers into a growing byte buffer,
//! and the matching reader over a byte slice.

use vstd::prelude::*;

verus! {

/// The two bytes of `x`, low byte first.
#[verifier::opaque]
pub open spec fn u16_bytes(x: u16) -> Seq<u8> {
    seq![(x % 256) as u8, (x / 256) as u8]
}

/// The four bytes of `x`, low byte first.
#[verifier::opaque]
pub open spec fn u32_bytes(x: u32) -> Seq<u8> {
    seq![
        (x % 256) as u8,
        ((x / 256) % 256) as u8,
        ((x / 65536) % 256) as u8,
        (x / 16777216) as u8,
    ]
}

/// The bytes of the first `n` values of `data`, two per value.
pub open spec fn u16s_bytes(data: Seq<u16>, n: int) -> Seq<u8>
    decreases n,
{
    if 0 < n <= data.len() {
        u16s_bytes(data, n - 1) + u16_bytes(data[n - 1])
    } else {
        Seq::empty()
    }
}

/// The 16-bit value whose bytes stand at `pos`, low byte first.
pub open spec fn read_u16(bytes: Seq<u8>, pos: int) -> u16 {
    (bytes[pos] + 256 * bytes[pos + 1]) as u16
}

/// The 32-bit value whose bytes stand at `pos`, low byte first.
pub open spec fn read_u32(bytes: Seq<u8>, pos: int) -> u32 {
    (bytes[pos] + 256 * bytes[pos + 1] + 65536 * bytes[pos + 2] + 16777216 * bytes[pos + 3]) as u32
}

/// The `count` 16-bit values whose bytes stand at `pos`.
pub open spec fn read_u16s(bytes: Seq<u8>, pos: int, count: int) -> Seq<u16> {
    Seq::new(count as nat, |i: int| read_u16(bytes, pos + 2 * i))
}

/// Whether `part` stands in `bytes` at `pos`.
#[verifier::opaque]
pub open spec fn holds_at(bytes: Seq<u8>, pos: int, part: Seq<u8>) -> bool {
    &&& 0 <= pos
    &&& pos + part.len() <= bytes.len()
    &&& forall|k: int| 0 <= k < part.len() ==> bytes[pos + k] == #[trigger] part[k]
}

/// A concatenation stands at `pos` exactly if its first part stands at `pos`
/// and its second part right behind it.
pub proof fn lemma_holds_at_concat(bytes: Seq<u8>, pos: int, a: Seq<u8>, b: Seq<u8>)
    ensures
        holds_at(bytes, pos, a + b) <==> holds_at(bytes, pos, a) && holds_at(bytes, pos + a.len(), b),
{
    reveal(holds_at);
    if holds_at(bytes, pos, a + b) {
        assert forall|k: int| 0 <= k < a.len() implies bytes[pos + k] == #[trigger] a[k] by {
            assert((a + b)[k] == a[k]);
        }
        assert forall|k: int| 0 <= k < b.len() implies bytes[pos + a.len() + k] == #[trigger] b[k] by {
            assert((a + b)[a.len() + k] == b[k]);
        }
    }
    if holds_at(bytes, pos, a) && holds_at(bytes, pos + a.len(), b) {
        assert forall|k: int| 0 <= k < (a + b).len() implies bytes[pos + k] == #[trigger] (a + b)[k] by {
            if k >= a.len() {
                assert((a + b)[k] == b[k - a.len()]);
            }
        }
    }
}

/// A 16-bit value takes two bytes and a 32-bit value four.
pub proof fn lemma_word_len(x: u16, y: u32)
    ensures
        u16_bytes(x).len() == 2,
        u32_bytes(y).len() == 4,
{
    reveal(u16_bytes);
    reveal(u32_bytes);
}

/// A part that stands in the input lies inside the input.
pub proof fn lemma_holds_at_inside(bytes: Seq<u8>, pos: int, part: Seq<u8>)
    requires
        holds_at(bytes, pos, part),
    ensures
        0 <= pos,
        pos + part.len() <= bytes.len(),
{
    reveal(holds_at);
}

/// Every byte sequence stands at its own start.
pub proof fn lemma_holds_at_self(bytes: Seq<u8>)
    ensures
        holds_at(bytes, 0, bytes),
{
    reveal(holds_at);
}

/// A byte that stands in the input can be read back.
pub proof fn lemma_read_u8(bytes: Seq<u8>, pos: int, x: u8)
    requires
        holds_at(bytes, pos, seq![x]),
    ensures
        0 <= pos < bytes.len(),
        bytes[pos] == x,
{
    reveal(holds_at);
    assert(bytes[pos + 0] == seq![x][0]);
}

/// Reading back the bytes of a 16-bit value gives the value.
pub proof fn lemma_read_u16(bytes: Seq<u8>, pos: int, x: u16)
    requires
        holds_at(bytes, pos, u16_bytes(x)),
    ensures
        read_u16(bytes, pos) == x,
        0 <= pos,
        pos + 2 <= bytes.len(),
{
    reveal(holds_at);
    reveal(u16_bytes);
    let part = u16_bytes(x);
    assert(bytes[pos + 0] == part[0]);
    assert(bytes[pos + 1] == part[1]);
}

/// Reading back the bytes of a 32-bit value gives the value.
pub proof fn lemma_read_u32(bytes: Seq<u8>, pos: int, x: u32)
    requires
        holds_at(bytes, pos, u32_bytes(x)),
    ensures
        read_u32(bytes, pos) == x,
        0 <= pos,
        pos + 4 <= bytes.len(),
{
    reveal(holds_at);
    reveal(u32_bytes);
    let part = u32_bytes(x);
    assert(bytes[pos + 0] == part[0]);
    assert(bytes[pos + 1] == part[1]);
    assert(bytes[pos + 2] == part[2]);
    assert(bytes[pos + 3] == part[3]);
}

/// The bytes of `n` 16-bit values are `2 * n` long.
pub proof fn lemma_u16s_len(data: Seq<u16>, n: int)
    requires
        0 <= n <= data.len(),
    ensures
        u16s_bytes(data, n).len() == 2 * n,
    decreases n,
{
    if n > 0 {
        lemma_u16s_len(data, n - 1);
        lemma_word_len(data[n - 1], 0);
    }
}

/// Reading back the bytes of a sequence of 16-bit values gives the sequence.
pub proof fn lemma_read_u16s(bytes: Seq<u8>, pos: int, data: Seq<u16>, n: int)
    requires
        0 <= n <= data.len(),
        holds_at(bytes, pos, u16s_bytes(data, n)),
    ensures
        read_u16s(bytes, pos, n) == data.take(n),
    decreases n,
{
    if n > 0 {
        lemma_u16s_len(data, n - 1);
        lemma_holds_at_concat(bytes, pos, u16s_bytes(data, n - 1), u16_bytes(data[n - 1]));
        lemma_read_u16s(bytes, pos, data, n - 1);
        lemma_read_u16(bytes, pos + 2 * (n - 1), data[n - 1]);
        assert forall|i: int| 0 <= i < n implies read_u16s(bytes, pos, n)[i] == data.take(n)[i] by {
            if i < n - 1 {
                assert(read_u16s(bytes, pos, n - 1)[i] == data.take(n - 1)[i]);
            }
        }
    }
    assert(read_u16s(bytes, pos, n) =~= data.take(n));
}

/// A growing buffer of encoded bytes.
#[derive(Debug)]
pub struct StorerVec {
    pub v: Vec<u8>,
}

impl StorerVec {
    /// An empty buffer.
    pub fn new() -> (storer: Self)
        ensures
            storer.v@ == Seq::<u8>::empty(),
    {
        StorerVec { v: Vec::new() }
    }

    /// Appends one byte.
    pub fn store_u8(&mut self, x: u8)
        ensures
            final(self).v@ == old(self).v@.push(x),
    {
        self.v.push(x);
    }

    /// Appends the two bytes of `x`, low byte first.
    pub fn store_u16(&mut self, x: u16)
        ensures
            final(self).v@ == old(self).v@ + u16_bytes(x),
    {
        self.v.push((x % 256) as u8);
        self.v.push((x / 256) as u8);
        reveal(u16_bytes);
        assert(self.v@ =~= old(self).v@ + u16_bytes(x));
    }

    /// Appends the four bytes of `x`, low byte first.
    pub fn store_u32(&mut self, x: u32)
        ensures
            final(self).v@ == old(self).v@ + u32_bytes(x),
    {
        self.v.push((x % 256) as u8);
        self.v.push(((x / 256) % 256) as u8);
        self.v.push(((x / 65536) % 256) as u8);
        self.v.push((x / 16777216) as u8);
        reveal(u32_bytes);
        assert(self.v@ =~= old(self).v@ + u32_bytes(x));
    }

    /// Appends the bytes of every value of `data`, in order.
    pub fn store_array_u16(&mut self, data: &Vec<u16>)
        ensures
            final(self).v@ == old(self).v@ + u16s_bytes(data@, data.len() as int),
    {
        let mut i: usize = 0;
        assert(self.v@ =~= old(self).v@ + u16s_bytes(data@, 0));
        while i < data.len()
            invariant
                i <= data.len(),
                self.v@ == old(self).v@ + u16s_bytes(data@, i as int),
            decreases data.len() - i,
        {
            let ghost before = self.v@;
            self.store_u16(data[i]);
            i += 1;
            assert(self.v@ =~= old(self).v@ + u16s_bytes(data@, i as int));
        }
    }
}

/// A read position in a byte slice.
#[derive(Debug)]
pub struct Loader {
    pub pos: usize,
}

impl Loader {
    /// Whether `count` bytes can be read at the current position.
    pub open spec fn has(&self, bytes: Seq<u8>, count: int) -> bool {
        self.pos + count <= bytes.len()
    }

    /// A reader at the start of the input.
    pub fn new() -> (loader: Self)
        ensures
            loader.pos == 0,
    {
        Loader { pos: 0 }
    }

    /// Whether `count` bytes can be read at the current position.
    pub fn remaining_at_least(&self, bytes: &[u8], count: usize) -> (enough: bool)
        ensures
            enough == self.has(bytes@, count as int),
            enough ==> self.pos + count <= usize::MAX,
    {
        self.pos <= bytes.len() && bytes.len() - self.pos >= count
    }

    /// Reads one byte, or nothing where the input has ended; the position
    /// moves only on success.
    pub fn load_u8(&mut self, bytes: &[u8]) -> (value: Option<u8>)
        ensures
            old(self).has(bytes@, 1) ==> value == Some(bytes@[old(self).pos as int]) && final(self).pos
                == old(self).pos + 1,
            !old(self).has(bytes@, 1) ==> value is None && final(self).pos == old(self).pos,
    {
        if !self.remaining_at_least(bytes, 1) {
            return None;
        }
        let value = bytes[self.pos];
        self.pos += 1;
        Some(value)
    }

    /// Reads a 16-bit value, low byte first, or nothing where fewer than two
    /// bytes are left; the position moves only on success.
    pub fn load_u16(&mut self, bytes: &[u8]) -> (value: Option<u16>)
        ensures
            old(self).has(bytes@, 2) ==> value == Some(read_u16(bytes@, old(self).pos as int))
                && final(self).pos == old(self).pos + 2,
            !old(self).has(bytes@, 2) ==> value is None && final(self).pos == old(self).pos,
    {
        if !self.remaining_at_least(bytes, 2) {
            return None;
        }
        let b0 = bytes[self.pos] as u16;
        let b1 = bytes[self.pos + 1] as u16;
        self.pos += 2;
        Some(b0 + 256 * b1)
    }

    /// Reads a 32-bit value, low byte first, or nothing where fewer than four
    /// bytes are left; the position moves only on success.
    pub fn load_u32(&mut self, bytes: &[u8]) -> (value: Option<u32>)
        ensures
            old(self).has(bytes@, 4) ==> value == Some(read_u32(bytes@, old(self).pos as int))
                && final(self).pos == old(self).pos + 4,
            !old(self).has(bytes@, 4) ==> value is None && final(self).pos == old(self).pos,
    {
        if !self.remaining_at_least(bytes, 4) {
            return None;
        }
        let b0 = bytes[self.pos] as u32;
        let b1 = bytes[self.pos + 1] as u32;
        let b2 = bytes[self.pos + 2] as u32;
        let b3 = bytes[self.pos + 3] as u32;
        self.pos += 4;
        Some(b0 + 256 * b1 + 65536 * b2 + 16777216 * b3)
    }

    /// Reads `count` 16-bit values, or nothing where fewer than `2 * count`
    /// bytes are left; the position moves only on success.
    pub fn load_array_u16(&mut self, bytes: &[u8], count: usize) -> (data: Option<Vec<u16>>)
        ensures
            old(self).has(bytes@, 2 * count) ==> data is Some && data->Some_0@ == read_u16s(
                bytes@,
                old(self).pos as int,
                count as int,
            ) && final(self).pos == old(self).pos + 2 * count,
            !old(self).has(bytes@, 2 * count) ==> data is None && final(self).pos == old(self).pos,
    {
        if self.pos > bytes.len() || (bytes.len() - self.pos) / 2 < count {
            return None;
        }
        let start = self.pos;
        let mut data: Vec<u16> = Vec::new();
        let mut i: usize = 0;
        while i < count
            invariant
                i <= count,
                start + 2 * count <= bytes.len(),
                self.pos == start + 2 * i,
                data.len() == i,
                forall|k: int| 0 <= k < i ==> data[k] == read_u16(bytes@, start + 2 * k),
            decreases count - i,
        {
            let value = self.load_u16(bytes);
            data.push(value.unwrap());
            i += 1;
        }
        assert(data@ =~= read_u16s(bytes@, start as int, count as int));
        Some(data)
    }
}

} // verus!
