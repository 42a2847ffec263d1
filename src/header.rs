use crate::bytes::{le_digits, push_i64_le, push_u32_le, read_u32_le, twos_complement_64, u32_le_at};
use crate::time::{local_now, parse_naive, parsed_naive, to_local, LocalStamp, NaiveStamp};
use vstd::prelude::*;

verus! {

/// The value that opens every frame header.
pub const MAGIC: u32 = 0x7D0;

/// Bytes of the magic number.
pub const MAGIC_LEN: usize = 4;

/// Bytes of the timestamp field: 23 little-endian 16-bit code units.
pub const TEXT_LEN: usize = 46;

/// Bytes of the reserved field.
pub const RESERVED_LEN: usize = 46;

/// Bytes of a whole header: magic, timestamp field, reserved field.
pub const HEADER_LEN: usize = 96;

/// The layout of the timestamp text, in chrono's format syntax.
pub const TIMESTAMP_FORMAT: &'static str = "%Y-%m-%d %H:%M:%S %f";

/// Why a byte stream is not a well-formed sequence of frames.
#[derive(Clone, Copy, Debug, PartialEq, Eq, Structural)]
pub enum DecodeError {
    /// The stream ends inside a header or a payload.
    Truncated,
    /// A header does not open with `MAGIC`.
    BadMagic,
    /// The timestamp text does not follow `TIMESTAMP_FORMAT`.
    BadTimestamp,
    /// The timestamp does not occur exactly once in the local time zone.
    NoLocalTime,
}

/// The header of one frame.
pub struct DRCHeader {
    pub magic: u32,
    pub date_time: LocalStamp,
    /// The reserved field, kept as read.
    pub unknown: Vec<u8>,
}

/// The text held by a timestamp field: the low byte of each little-endian code unit,
/// up to the first zero unit.
pub open spec fn text_bytes(b: Seq<u8>) -> Seq<u8>
    decreases b.len(),
{
    if b.len() < 2 || (b[0] == 0 && b[1] == 0) {
        seq![]
    } else {
        seq![b[0]] + text_bytes(b.subrange(2, b.len() as int))
    }
}

/// The timestamp field of the header at `p`.
pub open spec fn text_field(d: Seq<u8>, p: int) -> Seq<u8> {
    d.subrange(p + MAGIC_LEN, p + MAGIC_LEN + TEXT_LEN)
}

/// The reserved field of the header at `p`.
pub open spec fn reserved_field(d: Seq<u8>, p: int) -> Seq<u8> {
    d.subrange(p + MAGIC_LEN + TEXT_LEN, p + HEADER_LEN)
}

/// What a header read at `p` gives, before its time is placed in the local time zone:
/// `Ok(None)` where fewer bytes than a magic number remain (the stream has ended),
/// else the header's timestamp or the reason it is malformed.
pub open spec fn scan_header(d: Seq<u8>, p: int) -> Result<Option<NaiveStamp>, DecodeError> {
    if d.len() - p < MAGIC_LEN {
        Ok(None)
    } else if d.len() - p < HEADER_LEN {
        Err(DecodeError::Truncated)
    } else if u32_le_at(d, p) != MAGIC {
        Err(DecodeError::BadMagic)
    } else {
        match parsed_naive(text_bytes(text_field(d, p)), TIMESTAMP_FORMAT@) {
            Some(n) => Ok(Some(n)),
            None => Err(DecodeError::BadTimestamp),
        }
    }
}

/// Extracts the text of the timestamp field of the header at `p`.
pub fn timestamp_text(d: &[u8], p: usize) -> (r: Vec<u8>)
    requires
        p + HEADER_LEN <= d@.len(),
    ensures
        r@ == text_bytes(text_field(d@, p as int)),
{
    let ghost field = text_field(d@, p as int);
    let mut out: Vec<u8> = Vec::new();
    let mut k: usize = 0;
    let mut done = false;
    let n = d.len();
    assert(field.subrange(0, TEXT_LEN as int) =~= field);
    while k < TEXT_LEN && !done
        invariant
            k <= TEXT_LEN,
            k % 2 == 0,
            p + HEADER_LEN <= n == d@.len(),
            field == text_field(d@, p as int),
            text_bytes(field) == out@ + text_bytes(field.subrange(k as int, TEXT_LEN as int)),
            done ==> text_bytes(field.subrange(k as int, TEXT_LEN as int)) == Seq::<u8>::empty(),
        decreases TEXT_LEN - k, if done { 0int } else { 1int },
    {
        let lo = d[p + MAGIC_LEN + k];
        let hi = d[p + MAGIC_LEN + k + 1];
        let ghost rest = field.subrange(k as int, TEXT_LEN as int);
        assert(rest[0] == lo && rest[1] == hi);
        assert(rest.subrange(2, rest.len() as int) =~= field.subrange(k + 2, TEXT_LEN as int));
        if lo == 0 && hi == 0 {
            done = true;
        } else {
            out.push(lo);
            k = k + 2;
        }
    }
    if !done {
        assert(text_bytes(field.subrange(k as int, TEXT_LEN as int)) == Seq::<u8>::empty());
    }
    assert(out@ + Seq::<u8>::empty() =~= out@);
    out
}

impl DRCHeader {
    /// This header holds the fields of the header read at `p`, whose timestamp is `n`.
    pub open spec fn read_from(self, d: Seq<u8>, p: int, n: NaiveStamp) -> bool {
        &&& self.magic == MAGIC
        &&& self.date_time.wf()
        &&& self.date_time.naive == n
        &&& self.unknown@ == reserved_field(d, p)
    }

    /// The bytes that `encode` writes: the magic number, then the epoch seconds.
    pub open spec fn encoding(self) -> Seq<u8> {
        le_digits(self.magic as nat, 4) + le_digits(twos_complement_64(self.date_time.epoch_seconds), 8)
    }

    /// A header stamped with the current local time and a zero reserved field.
    pub fn new() -> (r: Self)
        ensures
            r.magic == MAGIC,
            r.date_time.wf(),
            r.unknown@ == Seq::new(RESERVED_LEN as nat, |i: int| 0u8),
    {
        let mut unknown: Vec<u8> = Vec::new();
        let mut k: usize = 0;
        while k < RESERVED_LEN
            invariant
                k <= RESERVED_LEN,
                unknown@ == Seq::new(k as nat, |i: int| 0u8),
            decreases RESERVED_LEN - k,
        {
            unknown.push(0u8);
            k = k + 1;
            assert(unknown@ =~= Seq::new(k as nat, |i: int| 0u8));
        }
        DRCHeader { magic: MAGIC, date_time: local_now(), unknown }
    }

    /// Reads the header at `*pos` and moves `*pos` past it. `Ok(None)` means the stream
    /// has ended: fewer bytes than a magic number remain, and `*pos` is kept.
    pub fn decode(data: &[u8], pos: &mut usize) -> (r: Result<Option<DRCHeader>, DecodeError>)
        requires
            *old(pos) <= data@.len(),
        ensures
            match scan_header(data@, *old(pos) as int) {
                Ok(None) => r matches Ok(None) && *final(pos) == *old(pos),
                Err(e) => r == Err::<Option<DRCHeader>, DecodeError>(e) && *final(pos) == *old(pos),
                Ok(Some(n)) => match r {
                    Ok(Some(h)) => h.read_from(data@, *old(pos) as int, n) && *final(pos) == *old(pos)
                        + HEADER_LEN,
                    Ok(None) => false,
                    Err(e) => e == DecodeError::NoLocalTime && *final(pos) == *old(pos),
                },
            },
    {
        let p = *pos;
        let n = data.len();
        if n - p < MAGIC_LEN {
            return Ok(None);
        }
        if n - p < HEADER_LEN {
            return Err(DecodeError::Truncated);
        }
        let magic = read_u32_le(data, p);
        if magic != MAGIC {
            return Err(DecodeError::BadMagic);
        }
        let text = timestamp_text(data, p);
        let naive = match parse_naive(&text, TIMESTAMP_FORMAT) {
            Some(t) => t,
            None => {
                return Err(DecodeError::BadTimestamp);
            },
        };
        let date_time = match to_local(naive) {
            Some(l) => l,
            None => {
                return Err(DecodeError::NoLocalTime);
            },
        };
        let mut unknown: Vec<u8> = Vec::new();
        let mut k: usize = 0;
        while k < RESERVED_LEN
            invariant
                k <= RESERVED_LEN,
                p + HEADER_LEN <= n == data@.len(),
                unknown@ == data@.subrange(p + MAGIC_LEN + TEXT_LEN, p + MAGIC_LEN + TEXT_LEN + k),
            decreases RESERVED_LEN - k,
        {
            unknown.push(data[p + MAGIC_LEN + TEXT_LEN + k]);
            k = k + 1;
            assert(unknown@ =~= data@.subrange(
                p + MAGIC_LEN + TEXT_LEN,
                p + MAGIC_LEN + TEXT_LEN + k,
            ));
        }
        *pos = p + HEADER_LEN;
        Ok(Some(DRCHeader { magic, date_time, unknown }))
    }

    /// Writes the magic number and the timestamp as little-endian seconds since the
    /// Unix epoch (12 bytes). This is not the layout that `decode` reads.
    pub fn encode(&self) -> (r: Vec<u8>)
        ensures
            r@ == self.encoding(),
            r@.len() == MAGIC_LEN + 8,
    {
        let mut out: Vec<u8> = Vec::new();
        push_u32_le(&mut out, self.magic);
        push_i64_le(&mut out, self.date_time.epoch_seconds);
        proof {
            assert(out@ =~= self.encoding());
            crate::bytes::lemma_le_digits_len(self.magic as nat, 4);
            crate::bytes::lemma_le_digits_len(twos_complement_64(self.date_time.epoch_seconds), 8);
        }
        out
    }
}

} // verus!
