//! Minimal RIFF/WAVE reader for 16-bit PCM.
//!
//! Samples are kept as exact integers: a decoded mono sample is
//! `sums[i] / scale`, where `sums[i]` adds up the signed 16-bit samples that
//! make up output sample `i` and `scale` is `32768` times the number of
//! samples added.
use vstd::prelude::*;

verus! {

/// Format facts read from the `fmt ` chunk.
#[derive(Debug, Clone, Copy, PartialEq, Eq, Structural)]
pub struct WavInfo {
    pub sample_rate: u32,
    pub channels: u16,
    pub bits_per_sample: u16,
}

/// Why a WAV buffer was refused.
#[derive(Debug, Clone, Copy, PartialEq, Eq, Structural)]
pub enum WavError {
    /// Fewer than 44 bytes.
    TooSmall,
    /// The `RIFF` / `WAVE` magic is missing.
    NotRiffWave,
    /// A chunk declares more payload than the buffer holds.
    ChunkOutOfBounds,
    /// The `fmt ` chunk is shorter than 16 bytes.
    FmtTooSmall,
    /// The format code is not 1 (integer PCM).
    UnsupportedFormat(u16),
    /// No `fmt ` chunk was found.
    MissingFmt,
    /// No `data` chunk was found.
    MissingData,
    /// Only 16-bit samples are decoded.
    UnsupportedBits(u16),
    /// The data chunk does not lie inside the buffer.
    DataOutOfBounds,
}

/// Little-endian 16-bit value at byte `i`.
pub open spec fn le16(b: Seq<u8>, i: int) -> nat {
    b[i] as nat + 256 * (b[i + 1] as nat)
}

/// Little-endian 32-bit value at byte `i`.
pub open spec fn le32(b: Seq<u8>, i: int) -> nat {
    le16(b, i) + 65536 * le16(b, i + 2)
}

/// The four bytes at `p` are `t0 t1 t2 t3`.
pub open spec fn tag_at(b: Seq<u8>, p: int, t0: u8, t1: u8, t2: u8, t3: u8) -> bool {
    b[p] == t0 && b[p + 1] == t1 && b[p + 2] == t2 && b[p + 3] == t3
}

pub open spec fn is_fmt_tag(b: Seq<u8>, p: int) -> bool {
    tag_at(b, p, 0x66, 0x6d, 0x74, 0x20)
}

pub open spec fn is_data_tag(b: Seq<u8>, p: int) -> bool {
    tag_at(b, p, 0x64, 0x61, 0x74, 0x61)
}

/// The format description carried by a `fmt ` payload starting at `off`.
pub open spec fn fmt_info(b: Seq<u8>, off: int) -> WavInfo {
    WavInfo {
        sample_rate: le32(b, off + 4) as u32,
        channels: le16(b, off + 2) as u16,
        bits_per_sample: le16(b, off + 14) as u16,
    }
}

/// Walks the chunks from byte `p` on, each an 8-byte header (tag, size)
/// followed by its payload. The last `fmt ` and the last `data` chunk win.
pub open spec fn chunk_walk(
    b: Seq<u8>,
    p: nat,
    info: Option<WavInfo>,
    data: Option<(nat, nat)>,
) -> Result<(Option<WavInfo>, Option<(nat, nat)>), WavError>
    decreases b.len() - p,
{
    if p + 8 > b.len() {
        Ok((info, data))
    } else {
        let size = le32(b, p + 4 as int);
        let off = p + 8;
        if off + size > b.len() {
            Err(WavError::ChunkOutOfBounds)
        } else if is_fmt_tag(b, p as int) {
            if size < 16 {
                Err(WavError::FmtTooSmall)
            } else if le16(b, off as int) != 1 {
                Err(WavError::UnsupportedFormat(le16(b, off as int) as u16))
            } else {
                chunk_walk(b, off + size, Some(fmt_info(b, off as int)), data)
            }
        } else if is_data_tag(b, p as int) {
            chunk_walk(b, off + size, info, Some((off, size)))
        } else {
            chunk_walk(b, off + size, info, data)
        }
    }
}

/// The header of a WAV buffer: its format and the offset and length of its
/// sample data.
pub open spec fn header_of(b: Seq<u8>) -> Result<(WavInfo, nat, nat), WavError> {
    if b.len() < 44 {
        Err(WavError::TooSmall)
    } else if !(tag_at(b, 0, 0x52, 0x49, 0x46, 0x46) && tag_at(b, 8, 0x57, 0x41, 0x56, 0x45)) {
        Err(WavError::NotRiffWave)
    } else {
        match chunk_walk(b, 12, None, None) {
            Err(e) => Err(e),
            Ok((None, _)) => Err(WavError::MissingFmt),
            Ok((Some(_), None)) => Err(WavError::MissingData),
            Ok((Some(i), Some((o, l)))) => Ok((i, o, l)),
        }
    }
}

pub open spec fn span_of(d: Option<(usize, usize)>) -> Option<(nat, nat)> {
    match d {
        Some((o, l)) => Some((o as nat, l as nat)),
        None => None,
    }
}

fn read_le16(b: &[u8], i: usize) -> (r: u16)
    requires
        i + 1 < b@.len(),
    ensures
        r as nat == le16(b@, i as int),
{
    (b[i] as u16) + (b[i + 1] as u16) * 256
}

fn read_le32(b: &[u8], i: usize) -> (r: u32)
    requires
        i + 3 < b@.len(),
    ensures
        r as nat == le32(b@, i as int),
{
    let _len = b.len();
    let lo = read_le16(b, i) as u32;
    let hi = read_le16(b, i + 2) as u32;
    lo + hi * 65536
}

fn has_tag(b: &[u8], p: usize, t0: u8, t1: u8, t2: u8, t3: u8) -> (r: bool)
    requires
        p + 3 < b@.len(),
    ensures
        r == tag_at(b@, p as int, t0, t1, t2, t3),
{
    b[p] == t0 && b[p + 1] == t1 && b[p + 2] == t2 && b[p + 3] == t3
}

/// Validates the RIFF/WAVE magic and walks the chunks, returning the format
/// and the byte offset and length of the `data` payload.
pub fn parse_header_minimal(buf: &[u8]) -> (r: Result<(WavInfo, usize, usize), WavError>)
    ensures
        match r {
            Ok((info, off, len)) => header_of(buf@) == Ok::<(WavInfo, nat, nat), WavError>(
                (info, off as nat, len as nat),
            ),
            Err(e) => header_of(buf@) == Err::<(WavInfo, nat, nat), WavError>(e),
        },
        r is Ok ==> r->Ok_0.1 + r->Ok_0.2 <= buf@.len(),
{
    if buf.len() < 44 {
        return Err(WavError::TooSmall);
    }
    if !(has_tag(buf, 0, 0x52, 0x49, 0x46, 0x46) && has_tag(buf, 8, 0x57, 0x41, 0x56, 0x45)) {
        return Err(WavError::NotRiffWave);
    }
    let mut p: usize = 12;
    let mut info: Option<WavInfo> = None;
    let mut data: Option<(usize, usize)> = None;
    while buf.len() - p >= 8
        invariant
            12 <= p <= buf@.len(),
            buf@.len() >= 44,
            tag_at(buf@, 0, 0x52, 0x49, 0x46, 0x46) && tag_at(buf@, 8, 0x57, 0x41, 0x56, 0x45),
            chunk_walk(buf@, p as nat, info, span_of(data)) == chunk_walk(buf@, 12, None, None),
            data matches Some((o, l)) ==> o + l <= buf@.len(),
        decreases buf@.len() - p,
    {
        let size = read_le32(buf, p + 4) as usize;
        let off = p + 8;
        if size > buf.len() - off {
            assert(chunk_walk(buf@, p as nat, info, span_of(data)) == Err::<
                (Option<WavInfo>, Option<(nat, nat)>),
                WavError,
            >(WavError::ChunkOutOfBounds));
            return Err(WavError::ChunkOutOfBounds);
        }
        if has_tag(buf, p, 0x66, 0x6d, 0x74, 0x20) {
            if size < 16 {
                assert(chunk_walk(buf@, p as nat, info, span_of(data)) == Err::<
                    (Option<WavInfo>, Option<(nat, nat)>),
                    WavError,
                >(WavError::FmtTooSmall));
                return Err(WavError::FmtTooSmall);
            }
            let audio_format = read_le16(buf, off);
            let channels = read_le16(buf, off + 2);
            let sample_rate = read_le32(buf, off + 4);
            let bits_per_sample = read_le16(buf, off + 14);
            if audio_format != 1 {
                return Err(WavError::UnsupportedFormat(audio_format));
            }
            info = Some(WavInfo { sample_rate, channels, bits_per_sample });
        } else if has_tag(buf, p, 0x64, 0x61, 0x74, 0x61) {
            data = Some((off, size));
        }
        p = off + size;
    }
    match (info, data) {
        (None, _) => Err(WavError::MissingFmt),
        (Some(_), None) => Err(WavError::MissingData),
        (Some(i), Some((o, l))) => Ok((i, o, l)),
    }
}

/// Signed 16-bit sample number `k` of a little-endian sample buffer.
pub open spec fn sample16(d: Seq<u8>, k: int) -> int {
    let u = le16(d, 2 * k) as int;
    if u >= 32768 {
        u - 65536
    } else {
        u
    }
}

/// Sum of the first `c` channel samples of frame `f`.
pub open spec fn frame_partial(d: Seq<u8>, ch: int, f: int, c: int) -> int
    decreases c,
{
    if c <= 0 {
        0
    } else {
        frame_partial(d, ch, f, c - 1) + sample16(d, f * ch + c - 1)
    }
}

/// Per-frame channel sums of interleaved 16-bit samples: the downmix to
/// mono, before division by the channel count. A trailing partial frame is
/// dropped.
pub open spec fn mono_sums(d: Seq<u8>, ch: int) -> Seq<int> {
    Seq::new(((d.len() as int / 2) / ch) as nat, |f: int| frame_partial(d, ch, f, ch))
}

/// Two-tap box decimation: each output is the sum of one pair of inputs; a
/// remainder sample is dropped.
pub open spec fn pair_sums(s: Seq<int>) -> Seq<int> {
    Seq::new(s.len() / 2, |j: int| s[2 * j] + s[2 * j + 1])
}

/// Decoded mono audio: sample `i` is `sums[i] / scale`.
pub struct MonoPcm {
    pub sums: Vec<i64>,
    pub scale: u64,
    pub sample_rate: u32,
}

/// Mathematical value of a [`MonoPcm`].
pub struct MonoView {
    pub sums: Seq<int>,
    pub scale: nat,
    pub sample_rate: nat,
}

impl View for MonoPcm {
    type V = MonoView;

    open spec fn view(&self) -> MonoView {
        MonoView {
            sums: self.sums@.map_values(|x: i64| x as int),
            scale: self.scale as nat,
            sample_rate: self.sample_rate as nat,
        }
    }
}

/// What decoding a WAV buffer yields, with an optional target rate.
/// Only 48000 Hz to 24000 Hz is resampled; any other pair keeps the source
/// rate.
pub open spec fn decode_of(b: Seq<u8>, target: Option<u32>) -> Result<MonoView, WavError> {
    match header_of(b) {
        Err(e) => Err(e),
        Ok((info, off, len)) => {
            if info.bits_per_sample != 16 {
                Err(WavError::UnsupportedBits(info.bits_per_sample))
            } else if off + len > b.len() {
                Err(WavError::DataOutOfBounds)
            } else {
                let d = b.subrange(off as int, (off + len) as int);
                let ch: int = if info.channels >= 1 { info.channels as int } else { 1 };
                let out_rate: nat = match target {
                    Some(t) => t as nat,
                    None => info.sample_rate as nat,
                };
                if info.sample_rate == 48000 && out_rate == 24000 {
                    Ok(MonoView { sums: pair_sums(mono_sums(d, ch)), scale: 65536 * ch as nat, sample_rate: 24000 })
                } else {
                    Ok(MonoView { sums: mono_sums(d, ch), scale: 32768 * ch as nat, sample_rate: info.sample_rate as nat })
                }
            }
        }
    }
}

fn read_sample16(b: &[u8], off: usize, k: usize) -> (r: i64)
    requires
        off + 2 * k + 1 < b@.len(),
    ensures
        r as int == sample16(b@.subrange(off as int, b@.len() as int), k as int),
        -32768 <= r < 32768,
{
    let _len = b.len();
    let u = read_le16(b, off + 2 * k) as i64;
    proof {
        let d = b@.subrange(off as int, b@.len() as int);
        assert(le16(d, 2 * k as int) == le16(b@, off + 2 * k));
    }
    if u >= 32768 {
        u - 65536
    } else {
        u
    }
}

proof fn lemma_frame_partial_bound(d: Seq<u8>, ch: int, f: int, c: int)
    requires
        c >= 0,
    ensures
        -32768 * c <= frame_partial(d, ch, f, c) <= 32767 * c,
    decreases c,
{
    if c > 0 {
        lemma_frame_partial_bound(d, ch, f, c - 1);
    }
}

proof fn lemma_frame_partial_prefix(d: Seq<u8>, e: Seq<u8>, ch: int, f: int, c: int)
    requires
        0 <= c <= ch,
        0 <= f,
        2 * (f * ch + ch) <= d.len(),
        e.len() <= d.len(),
        e == d.subrange(0, e.len() as int),
        2 * (f * ch + ch) <= e.len(),
    ensures
        frame_partial(e, ch, f, c) == frame_partial(d, ch, f, c),
    decreases c,
{
    if c > 0 {
        lemma_frame_partial_prefix(d, e, ch, f, c - 1);
        let k = f * ch + c - 1;
        assert(0 <= k && 2 * k + 1 < e.len()) by (nonlinear_arith)
            requires
                k == f * ch + c - 1,
                0 <= f,
                1 <= c <= ch,
                2 * (f * ch + ch) <= e.len(),
        ;
        assert(e[2 * k] == d[2 * k] && e[2 * k + 1] == d[2 * k + 1]);
    }
}

/// Downmixes `frames` interleaved frames of `ch` channels starting at byte
/// `off` to per-frame sums.
fn downmix(buf: &[u8], off: usize, len: usize, ch: usize) -> (r: Vec<i64>)
    requires
        off + len <= buf@.len(),
        1 <= ch <= 65535,
    ensures
        r@.map_values(|x: i64| x as int) == mono_sums(buf@.subrange(off as int, off + len), ch as int),
{
    let ghost d = buf@.subrange(off as int, off + len);
    let ghost tail = buf@.subrange(off as int, buf@.len() as int);
    let total = len / 2;
    let frames = total / ch;
    proof {
        assert(frames * ch <= total) by (nonlinear_arith)
            requires
                frames == total / ch,
                ch >= 1,
        ;
    }
    let mut out: Vec<i64> = Vec::with_capacity(frames);
    let mut f: usize = 0;
    let mut i: usize = 0;
    while f < frames
        invariant
            f <= frames,
            frames == (len / 2) / ch,
            frames * ch <= len / 2,
            i == f * ch,
            off + len <= buf@.len(),
            1 <= ch <= 65535,
            d == buf@.subrange(off as int, off + len),
            tail == buf@.subrange(off as int, buf@.len() as int),
            out@.len() == f,
            forall|g: int| 0 <= g < f ==> out@[g] as int == #[trigger] mono_sums(d, ch as int)[g],
        decreases frames - f,
    {
        proof {
            assert(f * ch + ch <= frames * ch) by (nonlinear_arith)
                requires
                    f < frames,
                    ch >= 1,
            ;
        }
        let mut acc: i64 = 0;
        let mut c: usize = 0;
        while c < ch
            invariant
                c <= ch,
                f < frames,
                i == f * ch + c,
                f * ch + ch <= frames * ch,
                frames * ch <= len / 2,
                off + len <= buf@.len(),
                1 <= ch <= 65535,
                tail == buf@.subrange(off as int, buf@.len() as int),
                acc as int == frame_partial(tail, ch as int, f as int, c as int),
            decreases ch - c,
        {
            proof {
                lemma_frame_partial_bound(tail, ch as int, f as int, c as int);
            }
            let s = read_sample16(buf, off, i);
            acc = acc + s;
            c = c + 1;
            i = i + 1;
        }
        proof {
            assert(tail.subrange(0, d.len() as int) == d);
            lemma_frame_partial_prefix(tail, d, ch as int, f as int, ch as int);
        }
        out.push(acc);
        proof {
            assert((f + 1) * ch == f * ch + ch) by (nonlinear_arith);
        }
        f = f + 1;
    }
    proof {
        assert(out@.map_values(|x: i64| x as int) =~= mono_sums(d, ch as int));
    }
    out
}

/// Sums neighbouring pairs of samples; a remainder sample is dropped.
fn decimate_pairs(s: &Vec<i64>) -> (r: Vec<i64>)
    requires
        forall|k: int| 0 <= k < s@.len() ==> -(1i64 << 40) <= #[trigger] s@[k] <= (1i64 << 40),
    ensures
        r@.map_values(|x: i64| x as int) == pair_sums(s@.map_values(|x: i64| x as int)),
{
    let mut out: Vec<i64> = Vec::with_capacity(s.len() / 2);
    let mut j: usize = 0;
    while j + 1 < s.len()
        invariant
            j % 2 == 0,
            j <= s@.len(),
            out@.len() == j / 2,
            forall|k: int| 0 <= k < s@.len() ==> -(1i64 << 40) <= #[trigger] s@[k] <= (1i64 << 40),
            forall|g: int|
                0 <= g < out@.len() ==> #[trigger] out@[g] as int == s@[2 * g] + s@[2 * g + 1],
        decreases s@.len() - j,
    {
        assert(-(1i64 << 40) <= s@[j as int] <= (1i64 << 40));
        assert(-(1i64 << 40) <= s@[j + 1] <= (1i64 << 40));
        assert((1i64 << 40) == 1099511627776) by (bit_vector);
        out.push(s[j] + s[j + 1]);
        j = j + 2;
    }
    proof {
        assert(out@.map_values(|x: i64| x as int) =~= pair_sums(s@.map_values(|x: i64| x as int)));
    }
    out
}

/// Decodes a 16-bit PCM WAV buffer to mono. With a target of 24000 Hz on a
/// 48000 Hz source, neighbouring pairs are averaged; any other rate pair
/// passes through at the source rate.
pub fn decode_wav_mono_16bit(buf: &[u8], target_sample_rate: Option<u32>) -> (r: Result<MonoPcm, WavError>)
    ensures
        match r {
            Ok(m) => decode_of(buf@, target_sample_rate) == Ok::<MonoView, WavError>(m@),
            Err(e) => decode_of(buf@, target_sample_rate) == Err::<MonoView, WavError>(e),
        },
{
    let (info, data_off, data_len) = match parse_header_minimal(buf) {
        Ok(h) => h,
        Err(e) => {
            return Err(e);
        },
    };
    if info.bits_per_sample != 16 {
        return Err(WavError::UnsupportedBits(info.bits_per_sample));
    }
    let ch: u16 = if info.channels >= 1 { info.channels } else { 1 };
    let scale: u64 = 32768 * ch as u64;
    let out_rate: u32 = match target_sample_rate {
        Some(t) => t,
        None => info.sample_rate,
    };
    let mono = downmix(buf, data_off, data_len, ch as usize);
    if info.sample_rate == 48000 && out_rate == 24000 {
        proof {
            let d = buf@.subrange(data_off as int, data_off + data_len);
            assert forall|k: int| 0 <= k < mono@.len() implies -(1i64 << 40) <= #[trigger] mono@[k] <= (1i64 << 40) by {
                assert(mono@.map_values(|x: i64| x as int)[k] == mono_sums(d, ch as int)[k]);
                lemma_frame_partial_bound(d, ch as int, k, ch as int);
                assert((1i64 << 40) == 1099511627776) by (bit_vector);
            }
        }
        let dec = decimate_pairs(&mono);
        Ok(MonoPcm { sums: dec, scale: scale * 2, sample_rate: 24000 })
    } else {
        Ok(MonoPcm { sums: mono, scale, sample_rate: info.sample_rate })
    }
}

proof fn lemma_walk_span(b: Seq<u8>, p: nat, info: Option<WavInfo>, data: Option<(nat, nat)>)
    requires
        data matches Some((o, l)) ==> o + l <= b.len(),
    ensures
        chunk_walk(b, p, info, data) matches Ok((_, Some((o, l)))) ==> o + l <= b.len(),
    decreases b.len() - p,
{
    if p + 8 <= b.len() {
        let size = le32(b, p + 4 as int);
        let off = p + 8;
        if off + size <= b.len() {
            if is_fmt_tag(b, p as int) {
                if size >= 16 && le16(b, off as int) == 1 {
                    lemma_walk_span(b, off + size, Some(fmt_info(b, off as int)), data);
                }
            } else if is_data_tag(b, p as int) {
                lemma_walk_span(b, off + size, info, Some((off, size)));
            } else {
                lemma_walk_span(b, off + size, info, data);
            }
        }
    }
}

/// The data chunk of a parsed header lies inside the buffer.
pub proof fn lemma_header_span(b: Seq<u8>)
    ensures
        header_of(b) matches Ok((_, o, l)) ==> o + l <= b.len(),
{
    lemma_walk_span(b, 12, None, None);
}

/// A mono 16-bit WAV at 48000 Hz decodes, with a 24000 Hz target, to half
/// as many samples as it has frames (rounded down) at 24000 Hz, and without
/// a target to every frame at 48000 Hz.
pub proof fn lemma_mono_48k_decode_lengths(b: Seq<u8>)
    requires
        header_of(b) is Ok,
        header_of(b)->Ok_0.0 == (WavInfo { sample_rate: 48000, channels: 1, bits_per_sample: 16 }),
    ensures
        decode_of(b, Some(24000u32)) is Ok,
        decode_of(b, Some(24000u32))->Ok_0.sums.len() == (header_of(b)->Ok_0.2 / 2) / 2,
        decode_of(b, Some(24000u32))->Ok_0.sample_rate == 24000,
        decode_of(b, None) is Ok,
        decode_of(b, None)->Ok_0.sums.len() == header_of(b)->Ok_0.2 / 2,
        decode_of(b, None)->Ok_0.sample_rate == 48000,
{
    lemma_header_span(b);
}

/// Size of the canonical header of a PCM WAV file.
pub const CANONICAL_HEADER_LEN: u64 = 44;

/// Whether a WAV file of `file_len` bytes that is being written already
/// holds sample data beyond its header.
pub fn holds_samples(file_len: u64) -> (r: bool)
    ensures
        r == (file_len > CANONICAL_HEADER_LEN),
{
    file_len > CANONICAL_HEADER_LEN
}

} // verus!
