use vstd::prelude::*;
use vstd::utf8::{decode_utf8, valid_utf8};

use crate::error::DecodeError;

verus! {

/// Unsigned LEB128 read from the front of `b`, looking at no more than `groups`
/// bytes: each byte gives seven payload bits, least significant group first,
/// and its high bit says whether another byte follows. The result is the value
/// and the number of bytes taken, or `None` when no byte in reach ends it.
pub open spec fn leb_decode(b: Seq<u8>, groups: nat) -> Option<(nat, nat)>
    decreases groups,
{
    if groups == 0 || b.len() == 0 {
        None
    } else if b[0] < 0x80 {
        Some((b[0] as nat, 1))
    } else {
        match leb_decode(b.drop_first(), (groups - 1) as nat) {
            Some((v, n)) => Some((((b[0] - 0x80) + 128 * v) as nat, n + 1)),
            None => None,
        }
    }
}

/// Reading one byte at `off`: the byte and the offset after it.
pub open spec fn byte_at(s: Seq<u8>, off: int) -> Result<(u8, int), DecodeError> {
    if 0 <= off < s.len() {
        Ok((s[off], off + 1))
    } else {
        Err(DecodeError::UnexpectedEnd)
    }
}

/// Reading a 32-bit variable-length integer at `off`: its value and the offset
/// after it. More than five groups, or a value past `u32::MAX`, is an overflow.
pub open spec fn varuint32_at(s: Seq<u8>, off: int) -> Result<(u32, int), DecodeError> {
    if off < 0 || off > s.len() {
        Err(DecodeError::UnexpectedEnd)
    } else {
        let rest = s.subrange(off, s.len() as int);
        match leb_decode(rest, 5) {
            Some((v, n)) => if v <= u32::MAX {
                Ok((v as u32, off + n))
            } else {
                Err(DecodeError::IntegerOverflow)
            },
            None => if rest.len() >= 5 {
                Err(DecodeError::IntegerOverflow)
            } else {
                Err(DecodeError::UnexpectedEnd)
            },
        }
    }
}

/// Reading a length-prefixed UTF-8 string at `off`: its characters and the
/// offset after it.
pub open spec fn string_at(s: Seq<u8>, off: int) -> Result<(Seq<char>, int), DecodeError> {
    match varuint32_at(s, off) {
        Err(e) => Err(e),
        Ok((n, start)) => if start + n > s.len() {
            Err(DecodeError::UnexpectedEnd)
        } else {
            let raw = s.subrange(start, start + n);
            if valid_utf8(raw) {
                Ok((decode_utf8(raw), start + n))
            } else {
                Err(DecodeError::InvalidUtf8)
            }
        },
    }
}

proof fn lemma_leb_decode_bounds(b: Seq<u8>, groups: nat)
    ensures
        match leb_decode(b, groups) {
            Some((v, n)) => 1 <= n <= groups && n <= b.len(),
            None => true,
        },
    decreases groups,
{
    if groups > 0 && b.len() > 0 && b[0] >= 0x80 {
        lemma_leb_decode_bounds(b.drop_first(), (groups - 1) as nat);
    }
}

/// A variable-length integer that reads takes at least one and at most five
/// bytes, all inside the buffer.
pub proof fn lemma_varuint32_advances(s: Seq<u8>, off: int)
    ensures
        match varuint32_at(s, off) {
            Ok((v, next)) => off < next <= s.len() && next <= off + 5,
            Err(_) => true,
        },
{
    if 0 <= off <= s.len() {
        lemma_leb_decode_bounds(s.subrange(off, s.len() as int), 5);
    }
}

/// Only the first `groups` bytes matter to `leb_decode`.
proof fn lemma_leb_decode_prefix(b: Seq<u8>, c: Seq<u8>, groups: nat)
    requires
        b.len() < groups || c.len() < groups ==> b.len() == c.len(),
        forall|i: int| 0 <= i < groups && i < b.len() ==> b[i] == c[i],
    ensures
        leb_decode(b, groups) == leb_decode(c, groups),
    decreases groups,
{
    if groups > 0 && b.len() > 0 {
        assert(c.len() > 0);
        let (b1, c1) = (b.drop_first(), c.drop_first());
        assert forall|i: int| 0 <= i < groups - 1 && i < b1.len() implies b1[i] == c1[i] by {
            assert(b[i + 1] == c[i + 1]);
        }
        lemma_leb_decode_prefix(b1, c1, (groups - 1) as nat);
    } else if groups > 0 {
        assert(!(0 < c.len()));
    }
}

/// Relies on leb128::read::unsigned: on at most five bytes (so that no
/// overflow can arise) it reads one unsigned LEB128 number, and the cursor
/// then stands after the last byte it took; it fails when every byte has
/// its continuation bit set.
#[verifier::external_body]
fn leb128_unsigned(bytes: &[u8]) -> (r: Result<(u64, usize), leb128::read::Error>)
    requires
        bytes@.len() <= 5,
    ensures
        match r {
            Ok((v, n)) => leb_decode(bytes@, 5) == Some((v as nat, n as nat)),
            Err(_) => leb_decode(bytes@, 5) is None,
        },
{
    let mut cursor = std::io::Cursor::new(bytes);
    match leb128::read::unsigned(&mut cursor) {
        Ok(v) => Ok((v, cursor.position() as usize)),
        Err(e) => Err(e),
    }
}

/// The error type of leb128's readers.
#[verifier::external_type_specification]
#[verifier::external_body]
pub struct ExLebError(leb128::read::Error);

/// Relies on String::from_utf8: it accepts exactly the valid UTF-8 byte
/// sequences and then holds the characters they encode.
#[verifier::external_body]
fn string_from_utf8(bytes: Vec<u8>) -> (r: Option<String>)
    ensures
        match r {
            Some(t) => valid_utf8(bytes@) && t@ == decode_utf8(bytes@),
            None => !valid_utf8(bytes@),
        },
{
    String::from_utf8(bytes).ok()
}

/// The unsigned LEB128 encoding of `v`, with as few bytes as the value needs.
pub open spec fn leb_encode(v: nat) -> Seq<u8>
    decreases v,
{
    if v < 128 {
        seq![v as u8]
    } else {
        seq![(v % 128 + 128) as u8] + leb_encode(v / 128)
    }
}

pub open spec fn pow128(k: nat) -> nat
    decreases k,
{
    if k == 0 {
        1
    } else {
        128 * pow128((k - 1) as nat)
    }
}

proof fn lemma_leb_encode_len(v: nat, k: nat)
    requires
        1 <= k,
        v < pow128(k),
    ensures
        1 <= leb_encode(v).len() <= k,
    decreases v,
{
    if v >= 128 {
        let p = pow128((k - 1) as nat);
        if k == 1 {
            assert(p == 1);
        }
        assert(v / 128 < p) by (nonlinear_arith)
            requires
                v < 128 * p,
        ;
        lemma_leb_encode_len(v / 128, (k - 1) as nat);
    }
}

proof fn lemma_leb_decode_encode(v: nat, rest: Seq<u8>, groups: nat)
    requires
        leb_encode(v).len() <= groups,
    ensures
        leb_decode(leb_encode(v) + rest, groups) == Some((v, leb_encode(v).len())),
    decreases v,
{
    let b = leb_encode(v) + rest;
    if v < 128 {
        assert(b[0] == v as u8);
    } else {
        assert(b.drop_first() =~= leb_encode(v / 128) + rest);
        lemma_leb_decode_encode(v / 128, rest, (groups - 1) as nat);
        assert(b[0] == (v % 128 + 128) as u8);
    }
}

proof fn lemma_leb_decode_all_continued(b: Seq<u8>, groups: nat)
    requires
        b.len() >= groups,
        forall|i: int| 0 <= i < groups ==> b[i] >= 0x80,
    ensures
        leb_decode(b, groups) is None,
    decreases groups,
{
    if groups > 0 {
        assert(b[0] >= 0x80);
        let c = b.drop_first();
        assert forall|i: int| 0 <= i < groups - 1 implies c[i] >= 0x80 by {
            assert(b[i + 1] >= 0x80);
        }
        lemma_leb_decode_all_continued(c, (groups - 1) as nat);
    }
}

/// Encoding any 32-bit value and reading it back gives the value, and the
/// read takes exactly the encoded bytes, whatever precedes or follows them.
pub proof fn lemma_varuint32_round_trip(before: Seq<u8>, v: u32, after: Seq<u8>)
    ensures
        varuint32_at(before + leb_encode(v as nat) + after, before.len() as int) == Ok::<
            (u32, int),
            DecodeError,
        >((v, (before.len() + leb_encode(v as nat).len()) as int)),
{
    let enc = leb_encode(v as nat);
    let s = before + enc + after;
    reveal_with_fuel(pow128, 6);
    assert(pow128(5) == 34359738368);
    lemma_leb_encode_len(v as nat, 5);
    assert(s.subrange(before.len() as int, s.len() as int) =~= enc + after);
    lemma_leb_decode_encode(v as nat, after, 5);
}

/// A variable-length integer whose first five bytes all carry the
/// continuation bit needs more than five groups, and reading it overflows.
pub proof fn lemma_varuint32_too_long(s: Seq<u8>, off: int)
    requires
        0 <= off,
        off + 5 <= s.len(),
        forall|i: int| off <= i < off + 5 ==> s[i] >= 0x80,
    ensures
        varuint32_at(s, off) == Err::<(u32, int), DecodeError>(DecodeError::IntegerOverflow),
{
    let rest = s.subrange(off, s.len() as int);
    assert forall|i: int| 0 <= i < 5 implies rest[i] >= 0x80 by {
        assert(s[off + i] >= 0x80);
    }
    lemma_leb_decode_all_continued(rest, 5);
}

/// The raw bytes of a container, read through a cursor that each read advances.
#[derive(Debug, Clone, PartialEq, Eq)]
pub struct Bytecode {
    bin: Vec<u8>,
}

impl View for Bytecode {
    type V = Seq<u8>;

    closed spec fn view(&self) -> Seq<u8> {
        self.bin@
    }
}

impl Bytecode {
    pub fn new(bin: Vec<u8>) -> (r: Self)
        ensures
            r@ == bin@,
    {
        Bytecode { bin }
    }

    /// Reads the byte at `*offset` and moves past it.
    pub fn read_char(&self, offset: &mut usize) -> (r: Result<u8, DecodeError>)
        ensures
            match byte_at(self@, *old(offset) as int) {
                Ok((b, next)) => r == Ok::<u8, DecodeError>(b) && *final(offset) == next,
                Err(e) => r == Err::<u8, DecodeError>(e) && *final(offset) == *old(offset),
            },
    {
        if *offset < self.bin.len() {
            let out = self.bin[*offset];
            *offset = *offset + 1;
            Ok(out)
        } else {
            Err(DecodeError::UnexpectedEnd)
        }
    }

    /// Reads a 32-bit variable-length integer at `*offset` and moves past it.
    pub fn read_u32(&self, offset: &mut usize) -> (r: Result<u32, DecodeError>)
        ensures
            match varuint32_at(self@, *old(offset) as int) {
                Ok((v, next)) => r == Ok::<u32, DecodeError>(v) && *final(offset) == next,
                Err(e) => r == Err::<u32, DecodeError>(e) && *final(offset) == *old(offset),
            },
    {
        let start = *offset;
        let len = self.bin.len();
        if start > len {
            return Err(DecodeError::UnexpectedEnd);
        }
        let end: usize = if len - start >= 5 { start + 5 } else { len };
        let window = vstd::slice::slice_subrange(self.bin.as_slice(), start, end);
        let ghost rest = self@.subrange(start as int, len as int);
        proof {
            lemma_leb_decode_prefix(rest, window@, 5);
            lemma_leb_decode_bounds(window@, 5);
        }
        match leb128_unsigned(window) {
            Ok((v, n)) => {
                if v > u32::MAX as u64 {
                    Err(DecodeError::IntegerOverflow)
                } else {
                    *offset = start + n;
                    Ok(v as u32)
                }
            },
            Err(_) => {
                if end - start == 5 {
                    Err(DecodeError::IntegerOverflow)
                } else {
                    Err(DecodeError::UnexpectedEnd)
                }
            },
        }
    }

    /// Reads a length-prefixed UTF-8 string at `*offset` and moves past it.
    pub fn read_string(&self, offset: &mut usize) -> (r: Result<String, DecodeError>)
        ensures
            match string_at(self@, *old(offset) as int) {
                Ok((t, next)) => r is Ok && r->Ok_0@ == t && *final(offset) == next,
                Err(e) => r == Err::<String, DecodeError>(e) && *final(offset) == *old(offset),
            },
    {
        let start = *offset;
        proof {
            lemma_varuint32_advances(self@, start as int);
        }
        let n = self.read_u32(offset)?;
        let from = *offset;
        if n as usize > self.bin.len() - from {
            *offset = start;
            return Err(DecodeError::UnexpectedEnd);
        }
        let to = from + n as usize;
        let mut raw: Vec<u8> = Vec::new();
        let mut i: usize = from;
        while i < to
            invariant
                from <= i <= to <= self@.len(),
                raw@ == self@.subrange(from as int, i as int),
            decreases to - i,
        {
            raw.push(self.bin[i]);
            i = i + 1;
            assert(raw@ =~= self@.subrange(from as int, i as int));
        }
        match string_from_utf8(raw) {
            Some(t) => {
                *offset = to;
                Ok(t)
            },
            None => {
                *offset = start;
                Err(DecodeError::InvalidUtf8)
            },
        }
    }

    /// Total number of bytes in the buffer.
    pub fn len(&self) -> (r: usize)
        ensures
            r == self@.len(),
    {
        self.bin.len()
    }
}

} // verus!
