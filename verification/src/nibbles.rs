use vstd::prelude::*;

verus! {

/// Packs a sequence of 4-bit values into bytes: the first nibble of each
/// byte occupies the high half, the second the low half. A trailing odd
/// nibble leaves the low half of the last byte zero.
pub open spec fn pack_nibbles(s: Seq<u8>) -> Seq<u8> {
    Seq::new(((s.len() + 1) / 2) as nat, |i: int| {
        if 2 * i + 1 < s.len() {
            (s[2 * i] << 4 | s[2 * i + 1]) as u8
        } else {
            (s[2 * i] << 4) as u8
        }
    })
}

/// An append-only buffer of 4-bit values, packed into bytes.
pub struct Nibbles {
    bytes: Vec<u8>,
    half: bool,
}

impl View for Nibbles {
    type V = Seq<u8>;

    /// The sequence of nibbles written so far.
    closed spec fn view(&self) -> Seq<u8> {
        Seq::new(
            (2 * self.bytes@.len() - (if self.half { 1int } else { 0int })) as nat,
            |i: int| {
                if i % 2 == 0 {
                    (self.bytes@[i / 2] >> 4) as u8
                } else {
                    (self.bytes@[i / 2] & 0xf) as u8
                }
            },
        )
    }
}

impl Nibbles {
    /// Internal consistency: a half-filled last byte has a zero low nibble.
    pub closed spec fn wf(&self) -> bool {
        self.half ==> self.bytes@.len() > 0 && self.bytes@.last() & 0xf == 0
    }

    /// The packed bytes, including the zero padding of a trailing odd nibble.
    pub closed spec fn byte_view(&self) -> Seq<u8> {
        self.bytes@
    }

    /// The packed bytes are exactly the packing of the nibble sequence.
    pub proof fn lemma_byte_view_is_pack(&self)
        requires
            self.wf(),
        ensures
            self.byte_view() == pack_nibbles(self@),
    {
        let s = self@;
        let p = pack_nibbles(s);
        assert forall|i: int| 0 <= i < p.len() implies p[i] == self.bytes@[i] by {
            let b = self.bytes@[i];
            if 2 * i + 1 < s.len() {
                assert(s[2 * i] == b >> 4 && s[2 * i + 1] == b & 0xf);
                assert((b >> 4) << 4 | (b & 0xf) == b) by (bit_vector);
            } else {
                assert(2 * i < s.len());
                assert(s.len() % 2 == 1);
                assert(self.half);
                assert(i == self.bytes@.len() - 1);
                assert(s[2 * i] == b >> 4);
                assert(b & 0xf == 0 ==> (b >> 4) << 4 == b) by (bit_vector);
            }
        }
        assert(self.byte_view() =~= p);
    }

    pub fn new() -> (r: Nibbles)
        ensures
            r.wf(),
            r@ == Seq::<u8>::empty(),
            r.byte_view() == Seq::<u8>::empty(),
    {
        let r = Nibbles { bytes: Vec::new(), half: false };
        proof {
            assert(r@ =~= Seq::<u8>::empty());
            assert(r.byte_view() =~= Seq::<u8>::empty());
        }
        r
    }

    pub fn with_capacity(nibbles: usize) -> (r: Nibbles)
        requires
            nibbles < usize::MAX,
        ensures
            r.wf(),
            r@ == Seq::<u8>::empty(),
            r.byte_view() == Seq::<u8>::empty(),
    {
        let r = Nibbles { bytes: Vec::with_capacity((nibbles + 1) / 2), half: false };
        proof {
            assert(r@ =~= Seq::<u8>::empty());
            assert(r.byte_view() =~= Seq::<u8>::empty());
        }
        r
    }

    pub fn is_empty(&self) -> (r: bool)
        ensures
            r == (self.byte_view().len() == 0),
    {
        self.bytes.len() == 0
    }

    /// The number of nibbles written so far.
    pub fn len(&self) -> (r: usize)
        requires
            self.wf(),
            self@.len() <= usize::MAX,
        ensures
            r == self@.len(),
    {
        let n = self.bytes.len();
        if self.half {
            2 * (n - 1) + 1
        } else {
            2 * n
        }
    }

    pub fn clear(&mut self)
        ensures
            final(self).wf(),
            final(self)@ == Seq::<u8>::empty(),
            final(self).byte_view() == Seq::<u8>::empty(),
    {
        self.bytes.clear();
        self.half = false;
        proof {
            assert(self@ =~= Seq::<u8>::empty());
        }
    }

    pub fn push_nibble(&mut self, nibble: u8)
        requires
            old(self).wf(),
            nibble < 16,
        ensures
            final(self).wf(),
            final(self)@ == old(self)@ + seq![nibble],
    {
        if self.half {
            let n = self.bytes.len();
            let last = self.bytes[n - 1];
            proof {
                let b = last;
                let nb = nibble;
                assert(b & 0xf == 0 && nb < 16 ==> (b | nb) >> 4 == b >> 4 && (b | nb) & 0xf == nb
                    && (b | nb) & 0xf == ((b | nb) & 0xf)) by (bit_vector);
                assert(b & 0xf == 0 && nb < 16 ==> b | nb < 256) by (bit_vector);
            }
            self.bytes.set(n - 1, last | nibble);
        } else {
            proof {
                let nb = nibble;
                assert(nb < 16 ==> (nb << 4) >> 4 == nb && (nb << 4) & 0xf == 0) by (bit_vector);
            }
            self.bytes.push(nibble << 4);
        }
        self.half = !self.half;
        proof {
            assert(self@ =~= old(self)@ + seq![nibble]);
        }
    }

    pub fn push_byte(&mut self, byte: u8)
        requires
            old(self).wf(),
        ensures
            final(self).wf(),
            final(self)@ == old(self)@ + seq![(byte >> 4) as u8, (byte & 0xf) as u8],
    {
        if self.half {
            let n = self.bytes.len();
            let last = self.bytes[n - 1];
            proof {
                let b = last;
                let y = byte;
                assert(b & 0xf == 0 ==> (b | (y >> 4)) >> 4 == b >> 4 && (b | (y >> 4)) & 0xf == y
                    >> 4) by (bit_vector);
                assert(b & 0xf == 0 ==> b | (y >> 4) < 256) by (bit_vector);
                assert((y << 4) >> 4 == y & 0xf && (y << 4) & 0xf == 0) by (bit_vector);
            }
            self.bytes.set(n - 1, last | (byte >> 4));
            self.bytes.push(byte << 4);
        } else {
            proof {
                let y = byte;
                assert(y >> 4 == y >> 4 && y & 0xf == y & 0xf);
            }
            self.bytes.push(byte);
        }
        proof {
            assert(self@ =~= old(self)@ + seq![(byte >> 4) as u8, (byte & 0xf) as u8]);
        }
    }

    /// The nibble at position `i`, unpacked from the byte buffer.
    pub fn nibble_at(&self, i: usize) -> (r: u8)
        requires
            self.wf(),
            self@.len() <= usize::MAX,
            i < self@.len(),
        ensures
            r == self@[i as int],
            r < 16,
    {
        proof {
            assert(self@.len() == 2 * self.bytes@.len() - (if self.half { 1int } else { 0int }));
            assert(i as int / 2 < self.bytes@.len());
        }
        let b = self.bytes[i / 2];
        let r = if i % 2 == 0 {
            b >> 4
        } else {
            b & 0xf
        };
        proof {
            assert(b >> 4 < 16 && (b & 0xf) < 16) by (bit_vector);
        }
        r
    }

    pub fn as_bytes(&self) -> (r: &[u8])
        ensures
            r@ == self.byte_view(),
    {
        self.bytes.as_slice()
    }

    pub fn into_bytes(self) -> (r: Vec<u8>)
        ensures
            r@ == self.byte_view(),
    {
        self.bytes
    }
}

} // verus!
