use crate::bytes::{
    i16_from_le, le_digits, push_i16_le, read_i16_swapped, twos_complement_16, u32_le_at,
};
use crate::header::{
    reserved_field, scan_header, text_field, DRCHeader, DecodeError, HEADER_LEN, MAGIC, MAGIC_LEN,
    RESERVED_LEN,
};
use crate::time::NaiveStamp;
use vstd::prelude::*;

verus! {

/// Bytes of the sample block that follows each header.
pub const PAYLOAD_LEN: usize = 40016;

/// Bytes of a whole frame: header and sample block.
pub const FRAME_LEN: usize = 40112;

/// Index of the first sample of a block that a frame keeps.
pub const KEEP_FIRST: usize = 4;

/// Index one past the last sample of a block that a frame keeps.
pub const KEEP_END: usize = 2000;

/// Samples that a frame keeps.
pub const KEPT_LEN: usize = 1996;

/// Channels of the exported audio.
pub const CHANNELS: u16 = 1;

/// Samples per second of the exported audio.
pub const SAMPLE_RATE: u32 = 20000;

/// Bits per sample of the exported audio.
pub const BITS_PER_SAMPLE: u16 = 16;

/// One frame: its header and the samples it keeps, in order.
pub struct DRCData {
    pub header: DRCHeader,
    pub data: Vec<i16>,
}

/// What a frame is read as: its local timestamp, reserved field and kept samples.
pub type FrameModel = (NaiveStamp, Seq<u8>, Seq<i16>);

/// The values of a sample block: each pair of bytes `[a, b]` read as the little-endian
/// bytes `[b, a]`.
pub open spec fn block_values(b: Seq<u8>) -> Seq<i16> {
    Seq::new(b.len() / 2, |i: int| i16_from_le(b[2 * i + 1], b[2 * i]))
}

/// The samples of a block that a frame keeps.
pub open spec fn kept_samples(b: Seq<u8>) -> Seq<i16> {
    block_values(b).subrange(KEEP_FIRST as int, KEEP_END as int)
}

/// The sample block of the frame at `p`.
pub open spec fn payload_field(d: Seq<u8>, p: int) -> Seq<u8> {
    d.subrange(p + HEADER_LEN, p + FRAME_LEN)
}

/// `ms` followed by what `r` holds, or the error of `r`.
pub open spec fn prefixed(ms: Seq<FrameModel>, r: Result<Seq<FrameModel>, DecodeError>) -> Result<
    Seq<FrameModel>,
    DecodeError,
> {
    match r {
        Ok(s) => Ok(ms + s),
        Err(e) => Err(e),
    }
}

/// The frames of `d` from `p` on, up to the point where no magic number is left, or the
/// first reason that the stream is malformed.
pub open spec fn scan_frames(d: Seq<u8>, p: int) -> Result<Seq<FrameModel>, DecodeError>
    decreases d.len() - p,
{
    if p < 0 || p > d.len() {
        Ok(seq![])
    } else {
        match scan_header(d, p) {
            Ok(None) => Ok(seq![]),
            Err(e) => Err(e),
            Ok(Some(n)) => if d.len() - p < FRAME_LEN {
                Err(DecodeError::Truncated)
            } else {
                prefixed(
                    seq![(n, reserved_field(d, p), kept_samples(payload_field(d, p)))],
                    scan_frames(d, p + FRAME_LEN),
                )
            },
        }
    }
}

/// All samples of `frames`, frame after frame.
pub open spec fn samples_of(frames: Seq<DRCData>) -> Seq<i16>
    decreases frames.len(),
{
    if frames.len() == 0 {
        seq![]
    } else {
        samples_of(frames.drop_last()) + frames.last().data@
    }
}

/// The little-endian bytes of `s`, sample after sample.
pub open spec fn samples_le(s: Seq<i16>) -> Seq<u8>
    decreases s.len(),
{
    if s.len() == 0 {
        seq![]
    } else {
        samples_le(s.drop_last()) + le_digits(twos_complement_16(s.last()), 2)
    }
}

impl DRCData {
    /// This frame holds what `m` says.
    pub open spec fn read_as(self, m: FrameModel) -> bool {
        &&& self.header.magic == MAGIC
        &&& self.header.date_time.wf()
        &&& self.header.date_time.naive == m.0
        &&& self.header.unknown@ == m.1
        &&& self.data@ == m.2
    }

    /// The bytes that `encode` writes.
    pub open spec fn encoding(self) -> Seq<u8> {
        self.header.encoding() + samples_le(self.data@)
    }
}

/// Each of `frames` holds what the model at the same place says.
pub open spec fn frames_read_as(frames: Seq<DRCData>, ms: Seq<FrameModel>) -> bool {
    &&& frames.len() == ms.len()
    &&& forall|i: int| 0 <= i < frames.len() ==> #[trigger] frames[i].read_as(ms[i])
}

/// Decodes the kept samples of the sample block at `p`.
pub fn decode_samples(d: &[u8], p: usize) -> (r: Vec<i16>)
    requires
        p + PAYLOAD_LEN <= d@.len(),
    ensures
        r@ == kept_samples(d@.subrange(p as int, p + PAYLOAD_LEN)),
{
    let ghost b = d@.subrange(p as int, p + PAYLOAD_LEN);
    let n = d.len();
    let mut out: Vec<i16> = Vec::new();
    let mut i: usize = KEEP_FIRST;
    while i < KEEP_END
        invariant
            KEEP_FIRST <= i <= KEEP_END,
            p + PAYLOAD_LEN <= n == d@.len(),
            b == d@.subrange(p as int, p + PAYLOAD_LEN),
            out@ == block_values(b).subrange(KEEP_FIRST as int, i as int),
        decreases KEEP_END - i,
    {
        let v = read_i16_swapped(d, p + 2 * i);
        assert(v == block_values(b)[i as int]);
        out.push(v);
        i = i + 1;
        assert(out@ =~= block_values(b).subrange(KEEP_FIRST as int, i as int));
    }
    out
}

/// Collects the samples of `frames`, frame after frame, for export as one mono stream.
pub fn all_samples(frames: &Vec<DRCData>) -> (r: Vec<i16>)
    ensures
        r@ == samples_of(frames@),
{
    let mut out: Vec<i16> = Vec::new();
    let mut i: usize = 0;
    while i < frames.len()
        invariant
            i <= frames@.len(),
            out@ == samples_of(frames@.subrange(0, i as int)),
        decreases frames@.len() - i,
    {
        let ghost before = out@;
        let s = &frames[i].data;
        let mut j: usize = 0;
        while j < s.len()
            invariant
                i < frames@.len(),
                s@ == frames@[i as int].data@,
                j <= s@.len(),
                out@ == before + s@.subrange(0, j as int),
            decreases s@.len() - j,
        {
            out.push(s[j]);
            j = j + 1;
            assert(out@ =~= before + s@.subrange(0, j as int));
        }
        assert(frames@.subrange(0, i + 1).drop_last() =~= frames@.subrange(0, i as int));
        assert(s@.subrange(0, j as int) =~= s@);
        i = i + 1;
    }
    assert(frames@.subrange(0, i as int) =~= frames@);
    out
}

impl DRCData {
    /// A frame stamped with the current local time and no samples.
    pub fn new() -> (r: Self)
        ensures
            r.header.magic == MAGIC,
            r.header.date_time.wf(),
            r.header.unknown@ == Seq::new(RESERVED_LEN as nat, |i: int| 0u8),
            r.data@ == Seq::<i16>::empty(),
    {
        DRCData { header: DRCHeader::new(), data: Vec::new() }
    }

    /// Decodes every frame of `data`, stopping where fewer bytes than a magic number
    /// are left. Any other malformation fails the whole decode.
    pub fn decode(data: &[u8]) -> (r: Result<Vec<DRCData>, DecodeError>)
        ensures
            match scan_frames(data@, 0) {
                Ok(ms) => match r {
                    Ok(frames) => frames_read_as(frames@, ms),
                    Err(e) => e == DecodeError::NoLocalTime,
                },
                Err(e) => match r {
                    Ok(_) => false,
                    Err(f) => f == e || f == DecodeError::NoLocalTime,
                },
            },
            r matches Err(DecodeError::NoLocalTime) ==> scan_header(data@, 0) matches Ok(Some(_)),
    {
        let n = data.len();
        let mut result: Vec<DRCData> = Vec::new();
        let mut pos: usize = 0;
        let ghost mut ms: Seq<FrameModel> = seq![];
        loop
            invariant
                pos <= n == data@.len(),
                scan_frames(data@, 0) == prefixed(ms, scan_frames(data@, pos as int)),
                frames_read_as(result@, ms),
                pos > 0 ==> scan_header(data@, 0) matches Ok(Some(_)),
            decreases n - pos,
        {
            let ghost p = pos as int;
            match DRCHeader::decode(data, &mut pos) {
                Ok(None) => {
                    assert(ms + seq![] =~= ms);
                    return Ok(result);
                },
                Err(e) => {
                    return Err(e);
                },
                Ok(Some(header)) => {
                    if n - pos < PAYLOAD_LEN {
                        return Err(DecodeError::Truncated);
                    }
                    let samples = decode_samples(data, pos);
                    let ghost m = (
                        header.date_time.naive,
                        reserved_field(data@, p),
                        kept_samples(payload_field(data@, p)),
                    );
                    pos = pos + PAYLOAD_LEN;
                    result.push(DRCData { header, data: samples });
                    proof {
                        let rest = scan_frames(data@, pos as int);
                        assert(scan_frames(data@, p) == prefixed(seq![m], rest));
                        match rest {
                            Ok(s) => {
                                assert(ms + (seq![m] + s) =~= ms.push(m) + s);
                            },
                            Err(_) => {},
                        }
                        ms = ms.push(m);
                        assert(result@.last().read_as(ms.last()));
                    }
                },
            }
        }
    }

    /// Writes the header's encoding, then the kept samples as little-endian 16-bit
    /// values. This is not the layout that `decode` reads.
    pub fn encode(&self) -> (r: Vec<u8>)
        ensures
            r@ == self.encoding(),
    {
        let mut out = self.header.encode();
        let ghost head = out@;
        let mut i: usize = 0;
        while i < self.data.len()
            invariant
                i <= self.data@.len(),
                head == self.header.encoding(),
                out@ == head + samples_le(self.data@.subrange(0, i as int)),
            decreases self.data@.len() - i,
        {
            push_i16_le(&mut out, self.data[i]);
            assert(self.data@.subrange(0, i + 1).drop_last() =~= self.data@.subrange(0, i as int));
            i = i + 1;
            assert(out@ =~= head + samples_le(self.data@.subrange(0, i as int)));
        }
        assert(self.data@.subrange(0, i as int) =~= self.data@);
        out
    }
}

/// Every frame of a well-formed stream keeps `KEPT_LEN` samples.
proof fn lemma_models_kept_len(d: Seq<u8>, p: int)
    requires
        scan_frames(d, p) is Ok,
    ensures
        forall|i: int|
            0 <= i < scan_frames(d, p)->Ok_0.len() ==> (#[trigger] scan_frames(d, p)->Ok_0[i]).2.len()
                == KEPT_LEN,
    decreases d.len() - p,
{
    if 0 <= p <= d.len() {
        if let Ok(Some(n)) = scan_header(d, p) {
            if d.len() - p >= FRAME_LEN {
                lemma_models_kept_len(d, p + FRAME_LEN);
                let m = (n, reserved_field(d, p), kept_samples(payload_field(d, p)));
                let rest = scan_frames(d, p + FRAME_LEN)->Ok_0;
                assert forall|i: int| 0 <= i < rest.len() + 1 implies (#[trigger] (seq![m]
                    + rest)[i]).2.len() == KEPT_LEN by {
                    if i > 0 {
                        assert((seq![m] + rest)[i] == rest[i - 1]);
                    }
                }
            }
        }
    }
}

/// The audio of a decoded stream holds exactly `KEPT_LEN` samples per frame.
pub proof fn lemma_sample_count(d: Seq<u8>, frames: Seq<DRCData>)
    requires
        scan_frames(d, 0) matches Ok(ms) && frames_read_as(frames, ms),
    ensures
        samples_of(frames).len() == KEPT_LEN * frames.len(),
{
    lemma_models_kept_len(d, 0);
    let ms = scan_frames(d, 0)->Ok_0;
    lemma_samples_of_len(frames, ms);
}

proof fn lemma_samples_of_len(frames: Seq<DRCData>, ms: Seq<FrameModel>)
    requires
        frames_read_as(frames, ms),
        forall|i: int| 0 <= i < ms.len() ==> (#[trigger] ms[i]).2.len() == KEPT_LEN,
    ensures
        samples_of(frames).len() == KEPT_LEN * frames.len(),
    decreases frames.len(),
{
    if frames.len() > 0 {
        let k = frames.len() - 1;
        assert(frames[k].read_as(ms[k]));
        assert(frames_read_as(frames.drop_last(), ms.drop_last())) by {
            assert forall|i: int| 0 <= i < frames.len() - 1 implies #[trigger] frames.drop_last()[i].read_as(
                ms.drop_last()[i],
            ) by {
                assert(frames[i].read_as(ms[i]));
            }
        }
        lemma_samples_of_len(frames.drop_last(), ms.drop_last());
        assert(KEPT_LEN * frames.len() == KEPT_LEN * (frames.len() - 1) + KEPT_LEN) by (nonlinear_arith);
    }
}

/// A stream too short to hold a magic number has no frames.
pub proof fn lemma_short_stream_is_empty(d: Seq<u8>)
    requires
        d.len() < MAGIC_LEN,
    ensures
        scan_frames(d, 0) == Ok::<Seq<FrameModel>, DecodeError>(seq![]),
{
}

proof fn lemma_tail_from(d: Seq<u8>, t: Seq<u8>, p: int)
    requires
        0 <= p <= d.len(),
        (d.len() - p) % (FRAME_LEN as int) == 0,
        scan_frames(d, p) is Ok,
        t.len() < FRAME_LEN,
    ensures
        t.len() < MAGIC_LEN ==> scan_frames(d + t, p) == scan_frames(d, p),
        t.len() >= MAGIC_LEN ==> scan_frames(d + t, p) is Err,
    decreases d.len() - p,
{
    let e = d + t;
    if p == d.len() {
        assert(scan_frames(d, p) == Ok::<Seq<FrameModel>, DecodeError>(seq![]));
        if t.len() >= MAGIC_LEN {
            if let Ok(Some(n)) = scan_header(e, p) {
                assert(e.len() - p < FRAME_LEN);
            }
        }
    } else {
        assert(d.len() - p >= FRAME_LEN);
        assert(u32_le_at(e, p) == u32_le_at(d, p));
        assert(text_field(e, p) =~= text_field(d, p));
        assert(reserved_field(e, p) =~= reserved_field(d, p));
        assert(payload_field(e, p) =~= payload_field(d, p));
        assert(scan_header(e, p) == scan_header(d, p));
        lemma_tail_from(d, t, p + FRAME_LEN);
    }
}

/// After a stream of whole, well-formed frames, fewer trailing bytes than a magic
/// number are ignored, while a longer partial frame makes the stream malformed.
pub proof fn lemma_trailing_bytes(d: Seq<u8>, t: Seq<u8>)
    requires
        d.len() % (FRAME_LEN as nat) == 0,
        scan_frames(d, 0) is Ok,
        t.len() < FRAME_LEN,
    ensures
        t.len() < MAGIC_LEN ==> scan_frames(d + t, 0) == scan_frames(d, 0),
        t.len() >= MAGIC_LEN ==> scan_frames(d + t, 0) is Err,
{
    lemma_tail_from(d, t, 0);
}

} // verus!
