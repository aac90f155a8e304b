//! The seekable byte cursor that descriptor decoding consumes, and the
//! big-endian primitive readers shared by every record decoder.
use vstd::prelude::*;
use vstd::utf8::{decode_utf8, valid_utf8};
use crate::errors::DecodeError;
use crate::features::ProtocolVersion;

verus! {

/// 256 to the power `n`: the number of values of an `n`-byte big-endian word.
pub open spec fn pow256(n: nat) -> nat
    decreases n,
{
    if n == 0 {
        1
    } else {
        256 * pow256((n - 1) as nat)
    }
}

/// The unsigned value of a big-endian byte string.
pub open spec fn be_nat(b: Seq<u8>) -> nat
    decreases b.len(),
{
    if b.len() == 0 {
        0
    } else {
        be_nat(b.drop_last()) * 256 + b.last() as nat
    }
}

/// The big-endian 16-bit word at offset `pos`.
pub open spec fn be16(b: Seq<u8>, pos: int) -> u16 {
    be_nat(b.subrange(pos, pos + 2)) as u16
}

/// The big-endian 32-bit word at offset `pos`.
pub open spec fn be32(b: Seq<u8>, pos: int) -> u32 {
    be_nat(b.subrange(pos, pos + 4)) as u32
}

/// The big-endian 128-bit word at offset `pos`.
pub open spec fn be128(b: Seq<u8>, pos: int) -> u128 {
    be_nat(b.subrange(pos, pos + 16)) as u128
}

pub proof fn lemma_be_nat_bound(b: Seq<u8>)
    ensures
        be_nat(b) < pow256(b.len()),
    decreases b.len(),
{
    if b.len() == 0 {
    } else {
        lemma_be_nat_bound(b.drop_last());
    }
}

pub proof fn lemma_pow256_values()
    ensures
        pow256(2) == 0x1_0000,
        pow256(4) == 0x1_0000_0000,
        pow256(16) == 0x1_0000_0000_0000_0000_0000_0000_0000_0000,
{
    reveal_with_fuel(pow256, 17);
}

pub proof fn lemma_pow256_mono(m: nat, n: nat)
    requires
        m <= n,
    ensures
        pow256(m) <= pow256(n),
    decreases n,
{
    if m < n && n > 0 {
        lemma_pow256_mono(m, (n - 1) as nat);
    }
}

/// A seekable byte cursor parameterised by a protocol version.
pub struct Input {
    pub proto: ProtocolVersion,
    pub data: Vec<u8>,
    pub pos: usize,
}

impl Input {
    /// The cursor never stands past the end of the buffer.
    pub open spec fn wf(&self) -> bool {
        self.pos <= self.data@.len()
    }

    pub open spec fn bytes(&self) -> Seq<u8> {
        self.data@
    }

    pub open spec fn remaining_spec(&self) -> int {
        self.data@.len() - self.pos
    }

    pub fn new(proto: ProtocolVersion, data: Vec<u8>) -> (r: Input)
        ensures
            r.wf(),
            r.proto == proto,
            r.bytes() == data@,
            r.pos == 0,
    {
        Input { proto, data, pos: 0 }
    }

    pub fn remaining(&self) -> (r: usize)
        requires
            self.wf(),
        ensures
            r == self.remaining_spec(),
    {
        self.data.len() - self.pos
    }

    pub fn proto(&self) -> (r: &ProtocolVersion)
        ensures
            *r == self.proto,
    {
        &self.proto
    }

    /// Read the tag byte without consuming it.
    pub fn peek_u8(&self) -> (r: u8)
        requires
            self.wf(),
            self.remaining_spec() >= 1,
        ensures
            r == self.bytes()[self.pos as int],
    {
        self.data[self.pos]
    }

    pub fn get_u8(&mut self) -> (r: u8)
        requires
            old(self).wf(),
            old(self).remaining_spec() >= 1,
        ensures
            final(self).wf(),
            final(self).proto == old(self).proto,
            final(self).bytes() == old(self).bytes(),
            final(self).pos == old(self).pos + 1,
            r == old(self).bytes()[old(self).pos as int],
    {
        let dlen: usize = self.data.len();
        let b = self.data[self.pos];
        assert(self.pos < dlen);
        self.pos = self.pos + 1;
        b
    }

    /// The value of the next `n` bytes as one big-endian word.
    fn read_be(&mut self, n: usize) -> (r: u128)
        requires
            old(self).wf(),
            n <= 16,
            old(self).remaining_spec() >= n,
        ensures
            final(self).wf(),
            final(self).proto == old(self).proto,
            final(self).bytes() == old(self).bytes(),
            final(self).pos == old(self).pos + n,
            r == be_nat(old(self).bytes().subrange(old(self).pos as int, old(self).pos + n)),
    {
        let ghost start = self.pos as int;
        let dlen: usize = self.data.len();
        let mut acc: u128 = 0;
        let mut i: usize = 0;
        proof {
            assert(self.bytes().subrange(start, start) =~= Seq::<u8>::empty());
        }
        while i < n
            invariant
                self.wf(),
                self.proto == old(self).proto,
                self.bytes() == old(self).bytes(),
                self.bytes().len() == dlen,
                i <= n,
                n <= 16,
                start == old(self).pos,
                self.pos == start + i,
                start + n <= self.bytes().len(),
                acc == be_nat(self.bytes().subrange(start, start + i)),
                acc < pow256(i as nat),
            decreases n - i,
        {
            let b = self.data[self.pos];
            proof {
                lemma_pow256_mono(i as nat, 15);
                lemma_pow256_values();
                let ext = self.bytes().subrange(start, start + i + 1);
                assert(ext.drop_last() =~= self.bytes().subrange(start, start + i));
                assert(ext.last() == self.bytes()[start + i]);
            }
            acc = acc * 256 + (b as u128);
            self.pos = self.pos + 1;
            i = i + 1;
        }
        acc
    }

    pub fn get_u16(&mut self) -> (r: u16)
        requires
            old(self).wf(),
            old(self).remaining_spec() >= 2,
        ensures
            final(self).wf(),
            final(self).proto == old(self).proto,
            final(self).bytes() == old(self).bytes(),
            final(self).pos == old(self).pos + 2,
            r == be16(old(self).bytes(), old(self).pos as int),
    {
        let v = self.read_be(2);
        proof {
            lemma_be_nat_bound(old(self).bytes().subrange(old(self).pos as int, old(self).pos + 2));
            lemma_pow256_values();
        }
        v as u16
    }

    pub fn get_u32(&mut self) -> (r: u32)
        requires
            old(self).wf(),
            old(self).remaining_spec() >= 4,
        ensures
            final(self).wf(),
            final(self).proto == old(self).proto,
            final(self).bytes() == old(self).bytes(),
            final(self).pos == old(self).pos + 4,
            r == be32(old(self).bytes(), old(self).pos as int),
    {
        let v = self.read_be(4);
        proof {
            lemma_be_nat_bound(old(self).bytes().subrange(old(self).pos as int, old(self).pos + 4));
            lemma_pow256_values();
        }
        v as u32
    }

    pub fn get_u128(&mut self) -> (r: u128)
        requires
            old(self).wf(),
            old(self).remaining_spec() >= 16,
        ensures
            final(self).wf(),
            final(self).proto == old(self).proto,
            final(self).bytes() == old(self).bytes(),
            final(self).pos == old(self).pos + 16,
            r == be128(old(self).bytes(), old(self).pos as int),
    {
        let v = self.read_be(16);
        proof {
            lemma_be_nat_bound(
                old(self).bytes().subrange(old(self).pos as int, old(self).pos + 16),
            );
            lemma_pow256_values();
        }
        v
    }

    /// The next `n` bytes, consumed.
    pub fn get_bytes(&mut self, n: usize) -> (r: Vec<u8>)
        requires
            old(self).wf(),
            old(self).remaining_spec() >= n,
        ensures
            final(self).wf(),
            final(self).proto == old(self).proto,
            final(self).bytes() == old(self).bytes(),
            final(self).pos == old(self).pos + n,
            r@ == old(self).bytes().subrange(old(self).pos as int, old(self).pos + n),
    {
        let ghost start = self.pos as int;
        let dlen: usize = self.data.len();
        let mut out: Vec<u8> = Vec::new();
        let mut i: usize = 0;
        while i < n
            invariant
                self.wf(),
                self.proto == old(self).proto,
                self.bytes() == old(self).bytes(),
                self.bytes().len() == dlen,
                i <= n,
                start == old(self).pos,
                self.pos == start + i,
                start + n <= self.bytes().len(),
                out@ =~= self.bytes().subrange(start, start + i),
            decreases n - i,
        {
            let b = self.data[self.pos];
            out.push(b);
            self.pos = self.pos + 1;
            i = i + 1;
        }
        proof {
            assert(out@ =~= old(self).bytes().subrange(start, start + n));
        }
        out
    }
}

/// The length-prefixed string at offset `pos`: a big-endian 32-bit byte
/// length, then that many bytes of UTF-8.
pub open spec fn spec_parse_str(b: Seq<u8>, pos: int) -> Result<(Seq<char>, int), DecodeError> {
    if b.len() - pos < 4 {
        Err(DecodeError::Underflow)
    } else {
        let n = be32(b, pos) as int;
        if b.len() - (pos + 4) < n {
            Err(DecodeError::Underflow)
        } else {
            let sb = b.subrange(pos + 4, pos + 4 + n);
            if valid_utf8(sb) {
                Ok((decode_utf8(sb), pos + 4 + n))
            } else {
                Err(DecodeError::InvalidUtf8)
            }
        }
    }
}

/// On success the cursor stands exactly past the string's last byte.
pub proof fn lemma_parse_str_bounds(b: Seq<u8>, pos: int)
    ensures
        spec_parse_str(b, pos) matches Ok((s, end)) ==> pos + 4 <= end <= b.len(),
{
}

/// Relies on `String::from_utf8`: it succeeds exactly on valid UTF-8 and
/// returns the string whose characters those bytes encode.
#[verifier::external_body]
fn string_from_utf8(bytes: Vec<u8>) -> (r: Option<String>)
    ensures
        r is Some <==> valid_utf8(bytes@),
        r is Some ==> r->0@ == decode_utf8(bytes@),
{
    String::from_utf8(bytes).ok()
}

impl Input {
    /// Decode a length-prefixed UTF-8 string.
    pub fn get_str(&mut self) -> (r: Result<String, DecodeError>)
        requires
            old(self).wf(),
        ensures
            final(self).wf(),
            final(self).proto == old(self).proto,
            final(self).bytes() == old(self).bytes(),
            match spec_parse_str(old(self).bytes(), old(self).pos as int) {
                Ok((s, end)) => r is Ok && r->Ok_0@ == s && final(self).pos == end,
                Err(e) => r == Err::<String, DecodeError>(e),
            },
    {
        if self.remaining() < 4 {
            return Err(DecodeError::Underflow);
        }
        let n32 = self.get_u32();
        let n = n32 as usize;
        if self.remaining() < n {
            return Err(DecodeError::Underflow);
        }
        let raw = self.get_bytes(n);
        match string_from_utf8(raw) {
            Some(s) => Ok(s),
            None => Err(DecodeError::InvalidUtf8),
        }
    }
}

} // verus!
