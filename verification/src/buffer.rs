//! The packet buffer: a contiguous byte sequence with a read cursor,
//! offering bounds-checked reads and writes of raw bytes, var-ints,
//! var-longs and length-prefixed UTF-8 strings. Every read either advances
//! the cursor by exactly the bytes it consumed or fails without moving it;
//! writes append at the end and never move the cursor.

use vstd::prelude::*;
use vstd::string::{StrSliceExecFns, StringSliceAdditionalSpecFns};
use vstd::utf8::{decode_utf8, encode_utf8, encode_utf8_decode_utf8, encode_utf8_valid_utf8,
    valid_utf8};

use crate::codec::{decode_varint, encode_varint, spec_varint_at, truncate32, truncate64,
    unsigned32, unsigned64, varint_bytes, VarFail};
use crate::codec::{lemma_varint_bytes_len, lemma_varint_round_trip, lemma_varint_value_bound};
use crate::errors::ErrorKind;

verus! {

broadcast use vstd::std_specs::vec::axiom_spec_len;

/// Relies on `String::from_utf8`: it succeeds exactly on valid UTF-8 and
/// returns the string those bytes decode to.
#[verifier::external_body]
fn bytes_to_string(bytes: Vec<u8>) -> (r: Option<String>)
    ensures
        r is Some <==> valid_utf8(bytes@),
        r matches Some(s) ==> s@ == decode_utf8(bytes@),
{
    String::from_utf8(bytes).ok()
}

/// A byte container with a read cursor. Reads consume from the cursor
/// forward; writes append at the end.
pub struct PacketBuffer {
    bytes: Vec<u8>,
    cursor: usize,
}

/// What a length-prefixed string read starting at `pos` yields: the
/// decoded characters and the total bytes consumed (length prefix
/// included), or the failure. The declared length must be positive, at
/// most `max`, and covered by the remaining bytes, and the bytes it spans
/// must be valid UTF-8.
pub open spec fn spec_read_string(data: Seq<u8>, pos: int, max: int) -> Result<
    (Seq<char>, int),
    ErrorKind,
> {
    match spec_varint_at(data, pos, 5) {
        Err(VarFail::OutOfBytes) => Err(ErrorKind::NoMoreBytes),
        Err(VarFail::Unterminated) => Err(ErrorKind::VarIntTooLong),
        Ok((u, n)) => {
            let len = truncate32(u) as int;
            if len == 0 {
                Err(ErrorKind::StringSizeZero)
            } else if len < 0 || len > max {
                Err(ErrorKind::StringTooLong)
            } else if pos + n + len > data.len() {
                Err(ErrorKind::NoMoreBytes)
            } else if valid_utf8(data.subrange(pos + n, pos + n + len)) {
                Ok((decode_utf8(data.subrange(pos + n, pos + n + len)), n + len))
            } else {
                Err(ErrorKind::BadString)
            }
        },
    }
}

impl PacketBuffer {
    /// The bytes the buffer holds.
    pub closed spec fn data(&self) -> Seq<u8> {
        self.bytes@
    }

    /// The read cursor: how many bytes have been consumed.
    pub closed spec fn pos(&self) -> int {
        self.cursor as int
    }

    /// The cursor never runs past the end of the data.
    pub open spec fn wf(&self) -> bool {
        self.pos() <= self.data().len()
    }

    /// An empty buffer.
    pub fn new() -> (r: Self)
        ensures
            r.wf(),
            r.data() == Seq::<u8>::empty(),
            r.pos() == 0,
    {
        let r = PacketBuffer { bytes: Vec::new(), cursor: 0 };
        proof {
            assert(r.data() =~= Seq::<u8>::empty());
        }
        r
    }

    /// A buffer over the given bytes, cursor at the start.
    pub fn from_bytes(bytes: Vec<u8>) -> (r: Self)
        ensures
            r.wf(),
            r.data() == bytes@,
            r.pos() == 0,
    {
        PacketBuffer { bytes, cursor: 0 }
    }

    /// Gives the bytes back, dropping the cursor.
    pub fn into_bytes(self) -> (r: Vec<u8>)
        ensures
            r@ == self.data(),
    {
        self.bytes
    }

    /// Total length of the held bytes.
    pub fn len(&self) -> (r: usize)
        ensures
            r == self.data().len(),
    {
        self.bytes.len()
    }

    /// Current cursor position.
    pub fn position(&self) -> (r: usize)
        ensures
            r == self.pos(),
    {
        self.cursor
    }

    /// How many bytes are left to read.
    pub fn remaining(&self) -> (r: usize)
        requires
            self.wf(),
        ensures
            r == self.data().len() - self.pos(),
    {
        self.bytes.len() - self.cursor
    }

    /// Reads one byte.
    pub fn read_u8(&mut self) -> (r: Result<u8, ErrorKind>)
        requires
            old(self).wf(),
        ensures
            final(self).wf(),
            final(self).data() == old(self).data(),
            old(self).pos() + 1 <= old(self).data().len() ==> (r matches Ok(b) && b == old(
                self,
            ).data()[old(self).pos()] && final(self).pos() == old(self).pos() + 1),
            old(self).pos() + 1 > old(self).data().len() ==> r == Err::<u8, ErrorKind>(
                ErrorKind::NoMoreBytes,
            ) && *final(self) == *old(self),
    {
        if self.cursor < self.bytes.len() {
            let b = self.bytes[self.cursor];
            self.cursor = self.cursor + 1;
            Ok(b)
        } else {
            Err(ErrorKind::NoMoreBytes)
        }
    }

    /// Reads exactly `count` raw bytes. Fails with `NoMoreBytes`, moving
    /// nothing, when fewer than `count` remain.
    pub fn read_u8_array(&mut self, count: usize) -> (r: Result<Vec<u8>, ErrorKind>)
        requires
            old(self).wf(),
        ensures
            final(self).wf(),
            final(self).data() == old(self).data(),
            old(self).pos() + count <= old(self).data().len() ==> (r matches Ok(v) && v@ == old(
                self,
            ).data().subrange(old(self).pos(), old(self).pos() + count) && final(self).pos() == old(
                self,
            ).pos() + count),
            old(self).pos() + count > old(self).data().len() ==> r == Err::<Vec<u8>, ErrorKind>(
                ErrorKind::NoMoreBytes,
            ) && *final(self) == *old(self),
    {
        if count > self.bytes.len() - self.cursor {
            return Err(ErrorKind::NoMoreBytes);
        }
        let mut out: Vec<u8> = Vec::new();
        let mut i: usize = 0;
        while i < count
            invariant
                i <= count,
                self.bytes@ == old(self).data(),
                self.cursor == old(self).pos(),
                self.cursor + count <= self.bytes@.len(),
                self.bytes@.len() <= usize::MAX,
                out@ =~= self.bytes@.subrange(self.cursor as int, self.cursor + i),
            decreases count - i,
        {
            out.push(self.bytes[self.cursor + i]);
            i = i + 1;
            assert(out@ =~= self.bytes@.subrange(self.cursor as int, self.cursor + i));
        }
        self.cursor = self.cursor + count;
        Ok(out)
    }

    /// Appends one byte.
    pub fn write_u8(&mut self, b: u8)
        requires
            old(self).wf(),
        ensures
            final(self).wf(),
            final(self).data() == old(self).data() + seq![b],
            final(self).pos() == old(self).pos(),
    {
        self.bytes.push(b);
        proof {
            assert(self.data() =~= old(self).data() + seq![b]);
        }
    }

    /// Appends raw bytes.
    pub fn write_u8_array(&mut self, bytes: &Vec<u8>)
        requires
            old(self).wf(),
        ensures
            final(self).wf(),
            final(self).data() == old(self).data() + bytes@,
            final(self).pos() == old(self).pos(),
    {
        let mut i: usize = 0;
        while i < bytes.len()
            invariant
                i <= bytes@.len(),
                self.bytes@ =~= old(self).data() + bytes@.subrange(0, i as int),
                self.cursor == old(self).cursor,
            decreases bytes@.len() - i,
        {
            self.bytes.push(bytes[i]);
            i = i + 1;
            assert(self.bytes@ =~= old(self).data() + bytes@.subrange(0, i as int));
        }
        proof {
            assert(self.data() =~= old(self).data() + bytes@);
        }
    }

    /// Reads a var-int: at most 5 bytes, 7 value bits each. The result is
    /// the low 32 accumulated bits read as a signed value.
    pub fn read_var_i32(&mut self) -> (r: Result<i32, ErrorKind>)
        requires
            old(self).wf(),
        ensures
            final(self).wf(),
            final(self).data() == old(self).data(),
            (match spec_varint_at(old(self).data(), old(self).pos(), 5) {
                Ok((u, n)) => r matches Ok(v) && v == truncate32(u) && final(self).pos() == old(
                    self,
                ).pos() + n,
                Err(VarFail::OutOfBytes) => r == Err::<i32, ErrorKind>(ErrorKind::NoMoreBytes)
                    && *final(self) == *old(self),
                Err(VarFail::Unterminated) => r == Err::<i32, ErrorKind>(ErrorKind::VarIntTooLong)
                    && *final(self) == *old(self),
            }),
    {
        proof {
            // The view length is bounded by usize, so the cursor can move.
            assert(self.bytes.len() == self.bytes@.len());
            lemma_varint_value_bound(self.bytes@, self.cursor as int, 5);
        }
        match decode_varint(&self.bytes, self.cursor, 5) {
            Ok((acc, n)) => {
                let low: u64 = (acc % 0x1_0000_0000) as u64;
                let v: i32 = if low < 0x8000_0000 {
                    low as i32
                } else {
                    ((low as i64) - 0x1_0000_0000) as i32
                };
                self.cursor = self.cursor + n;
                Ok(v)
            },
            Err(VarFail::OutOfBytes) => Err(ErrorKind::NoMoreBytes),
            Err(VarFail::Unterminated) => Err(ErrorKind::VarIntTooLong),
        }
    }

    /// Reads a var-long: at most 10 bytes. The result is the low 64
    /// accumulated bits read as a signed value.
    pub fn read_var_i64(&mut self) -> (r: Result<i64, ErrorKind>)
        requires
            old(self).wf(),
        ensures
            final(self).wf(),
            final(self).data() == old(self).data(),
            (match spec_varint_at(old(self).data(), old(self).pos(), 10) {
                Ok((u, n)) => r matches Ok(v) && v == truncate64(u) && final(self).pos() == old(
                    self,
                ).pos() + n,
                Err(VarFail::OutOfBytes) => r == Err::<i64, ErrorKind>(ErrorKind::NoMoreBytes)
                    && *final(self) == *old(self),
                Err(VarFail::Unterminated) => r == Err::<i64, ErrorKind>(ErrorKind::VarLongTooLong)
                    && *final(self) == *old(self),
            }),
    {
        proof {
            // The view length is bounded by usize, so the cursor can move.
            assert(self.bytes.len() == self.bytes@.len());
            lemma_varint_value_bound(self.bytes@, self.cursor as int, 10);
        }
        match decode_varint(&self.bytes, self.cursor, 10) {
            Ok((acc, n)) => {
                let low: u64 = (acc % 0x1_0000_0000_0000_0000) as u64;
                let v: i64 = if low < 0x8000_0000_0000_0000 {
                    low as i64
                } else {
                    ((acc % 0x1_0000_0000_0000_0000) as i128 - 0x1_0000_0000_0000_0000i128) as i64
                };
                self.cursor = self.cursor + n;
                Ok(v)
            },
            Err(VarFail::OutOfBytes) => Err(ErrorKind::NoMoreBytes),
            Err(VarFail::Unterminated) => Err(ErrorKind::VarLongTooLong),
        }
    }

    /// Appends the var-int encoding of `value`: its unsigned 32-bit
    /// pattern in 7-bit groups.
    pub fn write_var_i32(&mut self, value: i32)
        requires
            old(self).wf(),
        ensures
            final(self).wf(),
            final(self).data() == old(self).data() + varint_bytes(unsigned32(value)),
            final(self).pos() == old(self).pos(),
    {
        let u: u32 = if value >= 0 {
            value as u32
        } else {
            ((value as i64) + 0x1_0000_0000i64) as u32
        };
        encode_varint(&mut self.bytes, u as u64);
    }

    /// Appends the var-long encoding of `value`: its unsigned 64-bit
    /// pattern in 7-bit groups.
    pub fn write_var_i64(&mut self, value: i64)
        requires
            old(self).wf(),
        ensures
            final(self).wf(),
            final(self).data() == old(self).data() + varint_bytes(unsigned64(value)),
            final(self).pos() == old(self).pos(),
    {
        let u: u64 = if value >= 0 {
            value as u64
        } else {
            ((value as i128) + 0x1_0000_0000_0000_0000i128) as u64
        };
        encode_varint(&mut self.bytes, u);
    }

    /// Reads a length-prefixed UTF-8 string: a var-int byte length, then
    /// that many bytes. A zero length, a length outside `0..=max`, or
    /// bytes that are not valid UTF-8 are rejected; any failure leaves
    /// the cursor where it was.
    pub fn read_string(&mut self, max: usize) -> (r: Result<String, ErrorKind>)
        requires
            old(self).wf(),
        ensures
            final(self).wf(),
            final(self).data() == old(self).data(),
            (match spec_read_string(old(self).data(), old(self).pos(), max as int) {
                Ok((cs, n)) => (r matches Ok(s) && s@ == cs && final(self).pos() == old(self).pos()
                    + n),
                Err(e) => r == Err::<String, ErrorKind>(e) && *final(self) == *old(self),
            }),
    {
        proof {
            // The view length is bounded by usize, so the cursor can move.
            assert(self.bytes.len() == self.bytes@.len());
            lemma_varint_value_bound(self.bytes@, self.cursor as int, 5);
        }
        match decode_varint(&self.bytes, self.cursor, 5) {
            Err(VarFail::OutOfBytes) => Err(ErrorKind::NoMoreBytes),
            Err(VarFail::Unterminated) => Err(ErrorKind::VarIntTooLong),
            Ok((acc, n)) => {
                let low: u64 = (acc % 0x1_0000_0000) as u64;
                if low == 0 {
                    Err(ErrorKind::StringSizeZero)
                } else if low >= 0x8000_0000 {
                    Err(ErrorKind::StringTooLong)
                } else if low as usize > max {
                    Err(ErrorKind::StringTooLong)
                } else {
                    let len = low as usize;
                    let start = self.cursor + n;
                    if len > self.bytes.len() - start {
                        Err(ErrorKind::NoMoreBytes)
                    } else {
                        let mut raw: Vec<u8> = Vec::new();
                        let mut i: usize = 0;
                        while i < len
                            invariant
                                i <= len,
                                self.bytes@ == old(self).data(),
                                self.cursor == old(self).pos(),
                                start == old(self).pos() + n,
                                start + len <= self.bytes@.len(),
                                self.bytes@.len() <= usize::MAX,
                                raw@ =~= self.bytes@.subrange(start as int, start + i),
                            decreases len - i,
                        {
                            raw.push(self.bytes[start + i]);
                            i = i + 1;
                            assert(raw@ =~= self.bytes@.subrange(start as int, start + i));
                        }
                        match bytes_to_string(raw) {
                            Some(s) => {
                                self.cursor = start + len;
                                Ok(s)
                            },
                            None => Err(ErrorKind::BadString),
                        }
                    }
                }
            },
        }
    }

    /// Appends a length-prefixed string: the UTF-8 byte length of `s` as
    /// a var-int, then its raw bytes. The byte length must fit a 32-bit
    /// signed value; `try_write_string` checks that instead of demanding it.
    pub fn write_string(&mut self, s: &str)
        requires
            old(self).wf(),
            encode_utf8(s@).len() <= 0x7fff_ffff,
        ensures
            final(self).wf(),
            final(self).data() == old(self).data() + varint_bytes(encode_utf8(s@).len())
                + encode_utf8(s@),
            final(self).pos() == old(self).pos(),
    {
        let _ = self.try_write_string(s);
    }

    /// Appends the length-prefixed string when its UTF-8 byte length fits
    /// a 32-bit signed value and reports whether it did; an over-long
    /// string leaves the buffer unchanged.
    pub fn try_write_string(&mut self, s: &str) -> (ok: bool)
        requires
            old(self).wf(),
        ensures
            final(self).wf(),
            ok <==> encode_utf8(s@).len() <= 0x7fff_ffff,
            ok ==> final(self).data() == old(self).data() + varint_bytes(encode_utf8(s@).len())
                + encode_utf8(s@) && final(self).pos() == old(self).pos(),
            !ok ==> *final(self) == *old(self),
    {
        let raw = s.as_bytes_vec();
        if raw.len() > 0x7fff_ffff {
            return false;
        }
        let len = raw.len();
        self.write_var_i32(len as i32);
        self.write_u8_array(&raw);
        proof {
            assert(self.data() =~= old(self).data() + varint_bytes(encode_utf8(s@).len())
                + encode_utf8(s@));
        }
        true
    }
}

/// The string round trip: wherever the buffer holds, at the read cursor,
/// the length prefix of a non-empty string `s` followed by its UTF-8
/// bytes, a string read with any `max` at least that byte length yields
/// `s` back and consumes exactly the prefix and the bytes. An empty `s`
/// puts a zero length prefix there instead, and reading it fails with
/// `StringSizeZero`.
pub proof fn lemma_string_round_trip(prefix: Seq<u8>, s: Seq<char>, rest: Seq<u8>, max: int)
    requires
        encode_utf8(s).len() <= max,
        encode_utf8(s).len() <= 0x7fff_ffff,
    ensures
        encode_utf8(s).len() > 0 ==> spec_read_string(
            prefix + varint_bytes(encode_utf8(s).len()) + encode_utf8(s) + rest,
            prefix.len() as int,
            max,
        ) == Ok::<(Seq<char>, int), ErrorKind>((
            s,
            varint_bytes(encode_utf8(s).len()).len() + encode_utf8(s).len() as int,
        )),
        encode_utf8(s).len() == 0 ==> spec_read_string(
            prefix + varint_bytes(encode_utf8(s).len()) + encode_utf8(s) + rest,
            prefix.len() as int,
            max,
        ) == Err::<(Seq<char>, int), ErrorKind>(ErrorKind::StringSizeZero),
{
    let bytes = encode_utf8(s);
    let ln = bytes.len();
    let enc = varint_bytes(ln);
    let data = prefix + enc + bytes + rest;
    let pos = prefix.len() as int;
    lemma_varint_bytes_len(ln);
    crate::codec::lemma_pow128_unfold_all();
    assert(enc.len() <= 5) by {
        if enc.len() > 5 {
            crate::codec::lemma_pow128_mono(5, (enc.len() - 1) as nat);
        }
    }
    assert(data.subrange(pos, pos + enc.len()) =~= enc);
    lemma_varint_round_trip(data, pos, 5, ln);
    let n = enc.len() as int;
    assert(truncate32(ln) == ln as i32);
    if ln > 0 {
        assert(data.subrange(pos + n, pos + n + ln) =~= bytes);
        encode_utf8_valid_utf8(s);
        encode_utf8_decode_utf8(s);
    }
}

} // verus!
