//! Audio: WAV headers, PCM conversion, mixdown, resampling and the cutting of
//! speech into segments.
//!
//! All times are in milliseconds from the start of the WAV in question.
use vstd::prelude::*;
use crate::text::{append_str, chars_of, dec, dec_s, string_of};

verus! {

/// Sample rate the speech recognizer expects.
pub const SAMPLE_RATE: u32 = 16_000;

/// Length of one analysis frame.
pub const FRAME_MS: usize = 100;

/// Silence that allows a cut.
pub const SILENCE_CUT_MS: usize = 600;

/// A segment shorter than this is not cut on silence.
pub const MIN_SEGMENT_MS: usize = 8_000;

/// A segment is cut when it reaches this length.
pub const MAX_SEGMENT_MS: usize = 45_000;

/// A remainder shorter than this is dropped.
pub const MIN_FLUSH_MS: usize = 1_000;

/// Samples of one analysis frame at `SAMPLE_RATE`.
pub const FRAME_SAMPLES: usize = 1_600;

/// What a WAV header says.
#[derive(Debug, Clone, Copy, PartialEq, Eq, Structural)]
pub struct WavInfo {
    pub sample_rate: u32,
    pub channels: u16,
    pub bits_per_sample: u16,
    pub byte_rate: u32,
    pub data_offset: usize,
    pub data_length: usize,
}

/// Why audio was refused.
#[derive(Debug, Clone, Copy, PartialEq, Eq, Structural)]
pub enum AudioError {
    /// no RIFF/WAVE header (or no `fmt `/`data` chunk), when converting
    NotWavHeader,
    /// no readable WAV header, when cutting
    NotWav,
    /// the samples are not 16-bit: the bits found
    UnsupportedBits(u16),
    /// cutting by duration needs 16-bit samples
    Only16Bit,
    /// cutting on silence needs 16 kHz mono 16-bit: rate, channels, bits found
    NotSpeechFormat(u32, u16, u16),
}

impl AudioError {
    /// A message for the user.
    pub fn message(&self) -> (r: String)
        ensures
            r@ == audio_error_text(*self),
    {
        let mut v: Vec<char> = Vec::new();
        match self {
            AudioError::NotWavHeader => append_str(&mut v, "不是合法的 WAV（缺少 RIFF/WAVE 头）"),
            AudioError::NotWav => append_str(&mut v, "不是合法的 WAV"),
            AudioError::UnsupportedBits(bits) => {
                append_str(&mut v, "仅支持 16bit PCM WAV，当前 ");
                crate::text::append(&mut v, dec(*bits as u64).as_slice());
                append_str(&mut v, "bit");
            },
            AudioError::Only16Bit => append_str(&mut v, "仅支持 16bit PCM WAV"),
            AudioError::NotSpeechFormat(rate, ch, bits) => {
                append_str(&mut v, "静音切段要求 16kHz 单声道 16bit WAV（当前 ");
                crate::text::append(&mut v, dec(*rate as u64).as_slice());
                append_str(&mut v, "Hz/");
                crate::text::append(&mut v, dec(*ch as u64).as_slice());
                append_str(&mut v, "ch/");
                crate::text::append(&mut v, dec(*bits as u64).as_slice());
                append_str(&mut v, "bit）");
            },
        }
        string_of(v.as_slice())
    }
}

/// Text of an audio error.
pub open spec fn audio_error_text(e: AudioError) -> Seq<char> {
    match e {
        AudioError::NotWavHeader => "不是合法的 WAV（缺少 RIFF/WAVE 头）"@,
        AudioError::NotWav => "不是合法的 WAV"@,
        AudioError::UnsupportedBits(bits) => "仅支持 16bit PCM WAV，当前 "@ + dec_s(bits as nat) + "bit"@,
        AudioError::Only16Bit => "仅支持 16bit PCM WAV"@,
        AudioError::NotSpeechFormat(rate, ch, bits) => "静音切段要求 16kHz 单声道 16bit WAV（当前 "@
            + dec_s(rate as nat) + "Hz/"@ + dec_s(ch as nat) + "ch/"@ + dec_s(bits as nat) + "bit）"@,
    }
}

// ---------------------------------------------------------------- little endian

/// `u16::from_le_bytes` at `i`.
pub open spec fn le16(b: Seq<u8>, i: int) -> u16 {
    (b[i] + 256 * b[i + 1]) as u16
}

/// `u32::from_le_bytes` at `i`.
pub open spec fn le32(b: Seq<u8>, i: int) -> u32 {
    (b[i] + 256 * b[i + 1] + 65536 * b[i + 2] + 16777216 * b[i + 3]) as u32
}

/// `u16::to_le_bytes`.
pub open spec fn le16_bytes(x: u16) -> Seq<u8> {
    seq![(x % 256) as u8, (x / 256) as u8]
}

/// `u32::to_le_bytes`.
pub open spec fn le32_bytes(x: u32) -> Seq<u8> {
    seq![
        (x % 256) as u8,
        ((x / 256) % 256) as u8,
        ((x / 65536) % 256) as u8,
        (x / 16777216) as u8,
    ]
}

fn read_le16(b: &[u8], i: usize) -> (r: u16)
    requires
        i + 2 <= b@.len(),
    ensures
        r == le16(b@, i as int),
{
    b[i] as u16 + 256 * (b[i + 1] as u16)
}

fn read_le32(b: &[u8], i: usize) -> (r: u32)
    requires
        i + 4 <= b@.len(),
    ensures
        r == le32(b@, i as int),
{
    b[i] as u32 + 256 * (b[i + 1] as u32) + 65536 * (b[i + 2] as u32) + 16777216 * (b[i
        + 3] as u32)
}

fn push_le16(out: &mut Vec<u8>, x: u16)
    ensures
        final(out)@ == old(out)@ + le16_bytes(x),
{
    out.push((x % 256) as u8);
    out.push((x / 256) as u8);
    assert(out@ =~= old(out)@ + le16_bytes(x));
}

fn push_le32(out: &mut Vec<u8>, x: u32)
    ensures
        final(out)@ == old(out)@ + le32_bytes(x),
{
    out.push((x % 256) as u8);
    out.push(((x / 256) % 256) as u8);
    out.push(((x / 65536) % 256) as u8);
    out.push((x / 16777216) as u8);
    assert(out@ =~= old(out)@ + le32_bytes(x));
}

proof fn lemma_le16_roundtrip(x: u16, b: Seq<u8>, i: int)
    requires
        0 <= i,
        i + 2 <= b.len(),
        b.subrange(i, i + 2) == le16_bytes(x),
    ensures
        le16(b, i) == x,
{
    assert(b[i] == le16_bytes(x)[0]);
    assert(b[i + 1] == le16_bytes(x)[1]);
}

proof fn lemma_le32_roundtrip(x: u32, b: Seq<u8>, i: int)
    requires
        0 <= i,
        i + 4 <= b.len(),
        b.subrange(i, i + 4) == le32_bytes(x),
    ensures
        le32(b, i) == x,
{
    assert(b[i] == le32_bytes(x)[0]);
    assert(b[i + 1] == le32_bytes(x)[1]);
    assert(b[i + 2] == le32_bytes(x)[2]);
    assert(b[i + 3] == le32_bytes(x)[3]);
    assert(x == x % 256 + 256 * ((x / 256) % 256) + 65536 * ((x / 65536) % 256) + 16777216 * (x
        / 16777216)) by (nonlinear_arith);
}

// ---------------------------------------------------------------- parsing

/// Whether the four bytes at `i` spell `tag`.
pub open spec fn tag_at(b: Seq<u8>, i: int, tag: Seq<u8>) -> bool {
    0 <= i && i + 4 <= b.len() && b.subrange(i, i + 4) == tag
}

/// `RIFF`.
pub open spec fn riff() -> Seq<u8> {
    seq![82u8, 73u8, 70u8, 70u8]
}

/// `WAVE`.
pub open spec fn wave() -> Seq<u8> {
    seq![87u8, 65u8, 86u8, 69u8]
}

/// `fmt `.
pub open spec fn fmt_tag() -> Seq<u8> {
    seq![102u8, 109u8, 116u8, 32u8]
}

/// `data`.
pub open spec fn data_tag() -> Seq<u8> {
    seq![100u8, 97u8, 116u8, 97u8]
}

/// Format fields read from a `fmt ` chunk whose body starts at `body`:
/// channels, sample rate, byte rate, bits per sample.
pub open spec fn fmt_fields(b: Seq<u8>, body: int) -> (u16, u32, u32, u16) {
    (le16(b, body + 2), le32(b, body + 4), le32(b, body + 8), le16(b, body + 14))
}

/// Walks the chunks from `off`: the last format fields seen before the `data`
/// chunk, and the data chunk's offset and declared length.
pub open spec fn walk_chunks(b: Seq<u8>, off: int, fmt: Option<(u16, u32, u32, u16)>) -> (
    Option<(u16, u32, u32, u16)>,
    Option<(int, int)>,
)
    decreases (if off <= b.len() {
        b.len() - off
    } else {
        0
    }),
{
    if off < 0 || off + 8 > b.len() {
        (fmt, None)
    } else {
        let size = le32(b, off + 4) as int;
        let body = off + 8;
        let next = body + size + size % 2;
        if tag_at(b, off, fmt_tag()) && body + 16 <= b.len() {
            walk_chunks(b, next, Some(fmt_fields(b, body)))
        } else if tag_at(b, off, data_tag()) {
            (fmt, Some((body, size)))
        } else {
            walk_chunks(b, next, fmt)
        }
    }
}

/// The header fields with the given data length.
pub open spec fn info_of(f: (u16, u32, u32, u16), offset: int, length: int) -> WavInfo {
    WavInfo {
        sample_rate: f.1,
        channels: f.0,
        bits_per_sample: f.3,
        byte_rate: f.2,
        data_offset: offset as usize,
        data_length: length as usize,
    }
}

/// Meaning of `parse_wav`: the data length cut to the bytes present.
#[verifier::opaque]
pub open spec fn parse_wav_s(b: Seq<u8>) -> Option<WavInfo> {
    if b.len() < 44 || !tag_at(b, 0, riff()) || !tag_at(b, 8, wave()) {
        None
    } else {
        match walk_chunks(b, 12, None) {
            (Some(f), Some(d)) => Some(
                info_of(f, d.0, if d.1 < b.len() - d.0 { d.1 } else { b.len() - d.0 }),
            ),
            _ => None,
        }
    }
}

/// Meaning of `parse_wav_head`: the data length as declared.
pub open spec fn parse_wav_head_s(b: Seq<u8>) -> Option<WavInfo> {
    if b.len() < 44 || !tag_at(b, 0, riff()) || !tag_at(b, 8, wave()) {
        None
    } else {
        match walk_chunks(b, 12, None) {
            (Some(f), Some(d)) => Some(info_of(f, d.0, d.1)),
            _ => None,
        }
    }
}

fn tag_is(b: &[u8], i: usize, t0: u8, t1: u8, t2: u8, t3: u8) -> (r: bool)
    requires
        i + 4 <= b@.len(),
    ensures
        r == (b@.subrange(i as int, i + 4) == seq![t0, t1, t2, t3]),
{
    let r = b[i] == t0 && b[i + 1] == t1 && b[i + 2] == t2 && b[i + 3] == t3;
    if r {
        assert(b@.subrange(i as int, i + 4) =~= seq![t0, t1, t2, t3]);
    } else {
        assert(b@.subrange(i as int, i + 4)[0] == b@[i as int]);
        assert(b@.subrange(i as int, i + 4)[1] == b@[i + 1]);
        assert(b@.subrange(i as int, i + 4)[2] == b@[i + 2]);
        assert(b@.subrange(i as int, i + 4)[3] == b@[i + 3]);
    }
    r
}

fn read_header(bytes: &[u8], cut: bool) -> (r: Option<WavInfo>)
    ensures
        r == if cut {
            parse_wav_s(bytes@)
        } else {
            parse_wav_head_s(bytes@)
        },
        cut && r is Some ==> r->0.data_offset + r->0.data_length <= bytes@.len(),
        r is Some ==> r->0.data_length <= u32::MAX,
{
    proof {
        reveal(parse_wav_s);
    }
    let b = bytes;
    if b.len() < 44 || !tag_is(b, 0, 82, 73, 70, 70) || !tag_is(b, 8, 87, 65, 86, 69) {
        return None;
    }
    assert(tag_at(b@, 0, riff()));
    assert(tag_at(b@, 8, wave()));
    let mut offset: usize = 12;
    let mut fmt: Option<(u16, u32, u32, u16)> = None;
    loop
        invariant
            12 <= offset <= b@.len(),
            b@ == bytes@,
            b@.len() >= 44,
            tag_at(b@, 0, riff()),
            tag_at(b@, 8, wave()),
            walk_chunks(b@, offset as int, fmt) == walk_chunks(b@, 12, None),
        ensures
            walk_chunks(b@, 12, None).1 is None,
        decreases b@.len() - offset,
    {
        if b.len() - offset < 8 {
            assert(walk_chunks(b@, offset as int, fmt).1 is None);
            break;
        }
        let size = read_le32(b, offset + 4);
        let body = offset + 8;
        let ghost fmt0 = fmt;
        let ghost next = body + size + size % 2;
        if tag_is(b, offset, 102, 109, 116, 32) && 16 <= b.len() - body {
            let ch = read_le16(b, body + 2);
            let sr = read_le32(b, body + 4);
            let br = read_le32(b, body + 8);
            let bits = read_le16(b, body + 14);
            fmt = Some((ch, sr, br, bits));
        } else if tag_is(b, offset, 100, 97, 116, 97) {
            let rest = b.len() - body;
            let dl = if !cut || (size as u64) < rest as u64 {
                size as usize
            } else {
                rest
            };
            assert(!(tag_at(b@, offset as int, fmt_tag()) && body + 16 <= b@.len()));
            assert(tag_at(b@, offset as int, data_tag()));
            assert(walk_chunks(b@, offset as int, fmt) == (fmt, Some((body as int, size as int))));
            assert(cut ==> dl <= b@.len() - body);
            let r = match fmt {
                Some(f) => Some(
                    WavInfo {
                        sample_rate: f.1,
                        channels: f.0,
                        bits_per_sample: f.3,
                        byte_rate: f.2,
                        data_offset: body,
                        data_length: dl,
                    },
                ),
                None => None,
            };
            assert(dl <= u32::MAX);
            proof {
                reveal(parse_wav_s);
            }
            assert(walk_chunks(b@, 12, None) == (fmt, Some((body as int, size as int))));
            return r;
        }
        let step: u64 = size as u64 + (size % 2) as u64;
        assert(walk_chunks(b@, offset as int, fmt0) == walk_chunks(b@, next, fmt));
        if step > (b.len() - body) as u64 {
            assert(walk_chunks(b@, next, fmt).1 is None);
            break;
        }
        offset = body + step as usize;
    }
    proof {
        reveal(parse_wav_s);
    }
    assert(walk_chunks(b@, 12, None).1 is None);
    assert(!(b@.len() < 44 || !tag_at(b@, 0, riff()) || !tag_at(b@, 8, wave())));
    assert(parse_wav_s(b@) is None);
    None
}

/// Reads a WAV header: the `fmt ` and `data` chunks, other chunks skipped;
/// the data length is cut to the bytes present. `None` when the RIFF/WAVE
/// header or either chunk is missing.
pub fn parse_wav(bytes: &[u8]) -> (r: Option<WavInfo>)
    ensures
        r == parse_wav_s(bytes@),
        r is Some ==> r->0.data_offset + r->0.data_length <= bytes@.len(),
        r is Some ==> r->0.data_length <= u32::MAX,
{
    read_header(bytes, true)
}

/// Reads the header at the start of a WAV file, keeping the data length the
/// header declares (the rest of the file need not be present).
pub fn parse_wav_head(head: &[u8]) -> (r: Option<WavInfo>)
    ensures
        r == parse_wav_head_s(head@),
        r is Some ==> r->0.data_length <= u32::MAX,
{
    read_header(head, false)
}

// ---------------------------------------------------------------- building

/// Bytes per second of a format: `rate * channels * bits / 8`.
#[verifier::opaque]
pub open spec fn byte_rate_s(sample_rate: u32, channels: u16, bits: u16) -> u32 {
    (sample_rate * channels * bits / 8) as u32
}

/// Bytes per sample frame: `channels * bits / 8`.
#[verifier::opaque]
pub open spec fn block_align_s(channels: u16, bits: u16) -> u16 {
    (channels * bits / 8) as u16
}

/// Meaning of `build_wav`: a 44-byte header (lengths taken modulo 2^32) and the data.
pub open spec fn build_wav_s(pcm: Seq<u8>, sample_rate: u32, channels: u16, bits: u16) -> Seq<u8> {
    riff() + le32_bytes(((36 + pcm.len()) % 0x1_0000_0000) as u32) + wave() + fmt_tag()
        + le32_bytes(16) + le16_bytes(1) + le16_bytes(channels) + le32_bytes(sample_rate)
        + le32_bytes(byte_rate_s(sample_rate, channels, bits)) + le16_bytes(
        block_align_s(channels, bits),
    ) + le16_bytes(bits) + data_tag() + le32_bytes((pcm.len() % 0x1_0000_0000) as u32) + pcm
}

/// Format values for which `build_wav` computes its header without overflow.
pub open spec fn format_fits(sample_rate: u32, channels: u16, bits: u16) -> bool {
    sample_rate * channels <= u32::MAX && sample_rate * channels * bits <= u32::MAX && channels
        * bits <= u16::MAX
}

fn push4(out: &mut Vec<u8>, a: u8, b: u8, c: u8, d: u8)
    ensures
        final(out)@ == old(out)@ + seq![a, b, c, d],
{
    out.push(a);
    out.push(b);
    out.push(c);
    out.push(d);
    assert(out@ =~= old(out)@ + seq![a, b, c, d]);
}

/// A standard 44-byte PCM WAV header followed by `pcm`.
pub fn build_wav(pcm: &[u8], sample_rate: u32, channels: u16, bits_per_sample: u16) -> (r: Vec<u8>)
    requires
        format_fits(sample_rate, channels, bits_per_sample),
        pcm@.len() + 36 <= usize::MAX,
    ensures
        r@ == build_wav_s(pcm@, sample_rate, channels, bits_per_sample),
{
    let byte_rate: u32 = sample_rate * (channels as u32) * (bits_per_sample as u32) / 8;
    let block_align: u16 = channels * bits_per_sample / 8;
    proof {
        reveal(byte_rate_s);
        reveal(block_align_s);
    }
    let mut out: Vec<u8> = Vec::new();
    push4(&mut out, 82, 73, 70, 70);
    push_le32(&mut out, ((36 + pcm.len()) as u64 % 0x1_0000_0000) as u32);
    push4(&mut out, 87, 65, 86, 69);
    push4(&mut out, 102, 109, 116, 32);
    push_le32(&mut out, 16);
    push_le16(&mut out, 1);
    push_le16(&mut out, channels);
    push_le32(&mut out, sample_rate);
    push_le32(&mut out, byte_rate);
    push_le16(&mut out, block_align);
    push_le16(&mut out, bits_per_sample);
    push4(&mut out, 100, 97, 116, 97);
    push_le32(&mut out, (pcm.len() as u64 % 0x1_0000_0000) as u32);
    let ghost head = out@;
    let mut i: usize = 0;
    while i < pcm.len()
        invariant
            i <= pcm@.len(),
            out@ == head + pcm@.take(i as int),
        decreases pcm@.len() - i,
    {
        out.push(pcm[i]);
        assert(out@ =~= head + pcm@.take(i + 1));
        i = i + 1;
    }
    assert(pcm@.take(pcm@.len() as int) =~= pcm@);
    assert(out@ =~= build_wav_s(pcm@, sample_rate, channels, bits_per_sample));
    out
}

/// Milliseconds of audio in a WAV: data length over byte rate; `None` when the
/// header cannot be read or the byte rate is zero.
pub fn duration_ms(bytes: &[u8]) -> (r: Option<u64>)
    ensures
        r == match parse_wav_s(bytes@) {
            Some(info) => if info.byte_rate == 0 {
                None
            } else {
                Some((info.data_length * 1000 / (info.byte_rate as int)) as u64)
            },
            None => None,
        },
{
    match parse_wav(bytes) {
        Some(info) => {
            if info.byte_rate == 0 {
                None
            } else {
                Some((info.data_length as u64 * 1000) / info.byte_rate as u64)
            }
        },
        None => None,
    }
}

/// Meaning of `sample_count`.
pub open spec fn sample_count_s(pcm_len: int, channels: int, bits: int) -> int {
    let frame = channels * if bits / 8 >= 1 {
        bits / 8
    } else {
        1
    };
    if frame == 0 {
        0
    } else {
        pcm_len / frame
    }
}

/// Sample frames in `pcm_len` bytes: bytes over `channels * max(bits / 8, 1)`
/// (zero for zero channels).
pub fn sample_count(pcm_len: usize, channels: u16, bits: u16) -> (r: usize)
    ensures
        r == sample_count_s(pcm_len as int, channels as int, bits as int),
{
    let per = if bits / 8 >= 1 {
        (bits / 8) as usize
    } else {
        1
    };
    assert(channels * per <= 65535 * 8191) by (nonlinear_arith)
        requires
            channels <= 65535,
            per <= 8191,
    ;
    let frame: usize = channels as usize * per;
    if frame == 0 {
        0
    } else {
        pcm_len / frame
    }
}

// ---------------------------------------------------------------- samples

/// The sample of a little-endian byte pair.
pub open spec fn i16_of(lo: u8, hi: u8) -> i16 {
    let u = lo + 256 * hi;
    (if u >= 32768 {
        u - 65536
    } else {
        u
    }) as i16
}

/// The sample as an unsigned 16-bit value.
pub open spec fn u16_of(x: i16) -> int {
    if x < 0 {
        x + 65536
    } else {
        x as int
    }
}

/// Meaning of `bytes_to_i16`: each whole byte pair, little-endian.
pub open spec fn bytes_to_i16_s(b: Seq<u8>) -> Seq<i16> {
    Seq::new(b.len() / 2, |i: int| i16_of(b[2 * i], b[2 * i + 1]))
}

/// Meaning of `i16_to_bytes`: each sample as two little-endian bytes.
pub open spec fn i16_to_bytes_s(s: Seq<i16>) -> Seq<u8> {
    Seq::new(
        2 * s.len(),
        |j: int|
            if j % 2 == 0 {
                (u16_of(s[j / 2]) % 256) as u8
            } else {
                (u16_of(s[j / 2]) / 256) as u8
            },
    )
}

/// 16-bit little-endian PCM to samples (a trailing odd byte is ignored).
pub fn bytes_to_i16(pcm: &[u8]) -> (r: Vec<i16>)
    ensures
        r@ == bytes_to_i16_s(pcm@),
{
    let len = pcm.len();
    let n = len / 2;
    let mut r: Vec<i16> = Vec::new();
    let mut i: usize = 0;
    while i < n
        invariant
            len == pcm@.len(),
            n == pcm@.len() / 2,
            i <= n,
            r@ == bytes_to_i16_s(pcm@).take(i as int),
        decreases n - i,
    {
        assert(2 * i + 1 < pcm@.len());
        let u: u32 = pcm[2 * i] as u32 + 256 * (pcm[2 * i + 1] as u32);
        let v: i16 = if u >= 32768 {
            (u as i32 - 65536) as i16
        } else {
            u as i16
        };
        r.push(v);
        assert(r@ =~= bytes_to_i16_s(pcm@).take(i + 1));
        i = i + 1;
    }
    assert(bytes_to_i16_s(pcm@).take(n as int) =~= bytes_to_i16_s(pcm@));
    r
}

/// Samples to 16-bit little-endian PCM.
pub fn i16_to_bytes(samples: &[i16]) -> (r: Vec<u8>)
    requires
        2 * samples@.len() <= usize::MAX,
    ensures
        r@ == i16_to_bytes_s(samples@),
{
    let mut r: Vec<u8> = Vec::new();
    let mut i: usize = 0;
    while i < samples.len()
        invariant
            i <= samples@.len(),
            2 * samples@.len() <= usize::MAX,
            r@ == i16_to_bytes_s(samples@).take(2 * i),
        decreases samples@.len() - i,
    {
        let x = samples[i];
        let u: u32 = if x < 0 {
            (x as i32 + 65536) as u32
        } else {
            x as u32
        };
        r.push((u % 256) as u8);
        r.push((u / 256) as u8);
        assert((2 * i) as int / 2 == i && (2 * i) as int % 2 == 0);
        assert((2 * i + 1) as int / 2 == i && (2 * i + 1) as int % 2 == 1);
        assert(r@ =~= i16_to_bytes_s(samples@).take(2 * i + 2));
        i = i + 1;
    }
    assert(i16_to_bytes_s(samples@).take(2 * samples@.len() as int) =~= i16_to_bytes_s(samples@));
    r
}

/// Reading samples back from their bytes gives the samples.
pub proof fn lemma_i16_bytes_roundtrip(s: Seq<i16>)
    ensures
        bytes_to_i16_s(i16_to_bytes_s(s)) == s,
{
    let b = i16_to_bytes_s(s);
    assert forall|i: int| 0 <= i < s.len() implies #[trigger] bytes_to_i16_s(b)[i] == s[i] by {
        assert((2 * i) / 2 == i && (2 * i) % 2 == 0);
        assert((2 * i + 1) / 2 == i && (2 * i + 1) % 2 == 1);
        let u = u16_of(s[i]);
        assert(b[2 * i] == (u % 256) as u8);
        assert(b[2 * i + 1] == (u / 256) as u8);
        assert(u % 256 + 256 * (u / 256) == u);
    }
    assert(bytes_to_i16_s(b) =~= s);
}

/// The header of `build_wav_s`, whose length fields are exact when the data is
/// shorter than 2^32 - 36 bytes.
pub open spec fn wav_header(n: int, sample_rate: u32, channels: u16, bits: u16) -> Seq<u8> {
    riff() + le32_bytes((36 + n) as u32) + wave() + fmt_tag() + le32_bytes(16) + le16_bytes(1)
        + le16_bytes(channels) + le32_bytes(sample_rate) + le32_bytes(
        byte_rate_s(sample_rate, channels, bits),
    ) + le16_bytes(block_align_s(channels, bits)) + le16_bytes(bits) + data_tag() + le32_bytes(
        n as u32,
    )
}

proof fn lemma_sub_left(x: Seq<u8>, y: Seq<u8>, i: int, j: int)
    requires
        0 <= i <= j <= x.len(),
    ensures
        (x + y).subrange(i, j) == x.subrange(i, j),
{
    assert((x + y).subrange(i, j) =~= x.subrange(i, j));
}

proof fn lemma_sub_right(x: Seq<u8>, y: Seq<u8>)
    ensures
        (x + y).subrange(x.len() as int, (x.len() + y.len()) as int) == y,
{
    assert((x + y).subrange(x.len() as int, (x.len() + y.len()) as int) =~= y);
}

proof fn lemma_pieces(
    p1: Seq<u8>,
    p2: Seq<u8>,
    p3: Seq<u8>,
    p4: Seq<u8>,
    p5: Seq<u8>,
    p6: Seq<u8>,
    p7: Seq<u8>,
    p8: Seq<u8>,
    p9: Seq<u8>,
    p10: Seq<u8>,
    p11: Seq<u8>,
    p12: Seq<u8>,
    p13: Seq<u8>,
    pcm: Seq<u8>,
)
    requires
        p1.len() == 4,
        p2.len() == 4,
        p3.len() == 4,
        p4.len() == 4,
        p5.len() == 4,
        p6.len() == 2,
        p7.len() == 2,
        p8.len() == 4,
        p9.len() == 4,
        p10.len() == 2,
        p11.len() == 2,
        p12.len() == 4,
        p13.len() == 4,
    ensures
        ({
            let b = p1 + p2 + p3 + p4 + p5 + p6 + p7 + p8 + p9 + p10 + p11 + p12 + p13 + pcm;
            &&& b.len() == 44 + pcm.len()
            &&& b.subrange(0, 4) == p1
            &&& b.subrange(8, 12) == p3
            &&& b.subrange(12, 16) == p4
            &&& b.subrange(16, 20) == p5
            &&& b.subrange(22, 24) == p7
            &&& b.subrange(24, 28) == p8
            &&& b.subrange(28, 32) == p9
            &&& b.subrange(34, 36) == p11
            &&& b.subrange(36, 40) == p12
            &&& b.subrange(40, 44) == p13
        }),
{
    let b = p1 + p2 + p3 + p4 + p5 + p6 + p7 + p8 + p9 + p10 + p11 + p12 + p13 + pcm;
    assert(b.subrange(0, 4) =~= p1);
    assert(b.subrange(8, 12) =~= p3);
    assert(b.subrange(12, 16) =~= p4);
    assert(b.subrange(16, 20) =~= p5);
    assert(b.subrange(22, 24) =~= p7);
    assert(b.subrange(24, 28) =~= p8);
    assert(b.subrange(28, 32) =~= p9);
    assert(b.subrange(34, 36) =~= p11);
    assert(b.subrange(36, 40) =~= p12);
    assert(b.subrange(40, 44) =~= p13);
}

/// A WAV that `build_wav` writes reads back as the format it was given, with
/// the data right after the 44-byte header.
pub proof fn lemma_wav_roundtrip(pcm: Seq<u8>, sample_rate: u32, channels: u16, bits: u16)
    requires
        pcm.len() + 36 < 0x1_0000_0000,
    ensures
        parse_wav_s(build_wav_s(pcm, sample_rate, channels, bits)) == Some(
            WavInfo {
                sample_rate,
                channels,
                bits_per_sample: bits,
                byte_rate: byte_rate_s(sample_rate, channels, bits),
                data_offset: 44,
                data_length: pcm.len() as usize,
            },
        ),
{
    let n = pcm.len() as int;
    let b = build_wav_s(pcm, sample_rate, channels, bits);
    assert(((n % 0x1_0000_0000) as u32) == n as u32);
    lemma_pieces(
        riff(),
        le32_bytes(((36 + n) % 0x1_0000_0000) as u32),
        wave(),
        fmt_tag(),
        le32_bytes(16),
        le16_bytes(1),
        le16_bytes(channels),
        le32_bytes(sample_rate),
        le32_bytes(byte_rate_s(sample_rate, channels, bits)),
        le16_bytes(block_align_s(channels, bits)),
        le16_bytes(bits),
        data_tag(),
        le32_bytes((n % 0x1_0000_0000) as u32),
        pcm,
    );
    lemma_wav_fields(b, n, sample_rate, channels, bits, byte_rate_s(sample_rate, channels, bits));
}

proof fn lemma_wav_fields(b: Seq<u8>, n: int, sample_rate: u32, channels: u16, bits: u16, br: u32)
    requires
        0 <= n,
        n + 36 < 0x1_0000_0000,
        b.len() == 44 + n,
        b.subrange(0, 4) == riff(),
        b.subrange(8, 12) == wave(),
        b.subrange(12, 16) == fmt_tag(),
        b.subrange(16, 20) == le32_bytes(16),
        b.subrange(22, 24) == le16_bytes(channels),
        b.subrange(24, 28) == le32_bytes(sample_rate),
        b.subrange(28, 32) == le32_bytes(br),
        b.subrange(34, 36) == le16_bytes(bits),
        b.subrange(36, 40) == data_tag(),
        b.subrange(40, 44) == le32_bytes(n as u32),
    ensures
        parse_wav_s(b) == Some(
            WavInfo {
                sample_rate,
                channels,
                bits_per_sample: bits,
                byte_rate: br,
                data_offset: 44,
                data_length: n as usize,
            },
        ),
{
    reveal(parse_wav_s);
    lemma_le32_roundtrip(16, b, 16);
    lemma_le16_roundtrip(channels, b, 22);
    lemma_le32_roundtrip(sample_rate, b, 24);
    lemma_le32_roundtrip(br, b, 28);
    lemma_le16_roundtrip(bits, b, 34);
    lemma_le32_roundtrip(n as u32, b, 40);
    assert(!tag_at(b, 36, fmt_tag())) by {
        assert(b.subrange(36, 40)[0] != fmt_tag()[0]);
    }
    let f = fmt_fields(b, 20);
    assert(walk_chunks(b, 36, Some(f)) == (Some(f), Some((44int, n))));
    assert(walk_chunks(b, 12, None) == walk_chunks(b, 36, Some(f)));
}

// ---------------------------------------------------------------- mixdown

/// Sum of samples.
pub open spec fn sum_s(s: Seq<i16>) -> int
    decreases s.len(),
{
    if s.len() == 0 {
        0
    } else {
        sum_s(s.drop_last()) + s.last()
    }
}

/// Integer division rounding toward zero, as Rust's `/` on signed integers.
pub open spec fn tdiv(a: int, d: int) -> int {
    if a >= 0 {
        a / d
    } else {
        -((-a) / d)
    }
}

/// Meaning of `to_mono`: each whole frame of `channels` samples becomes their
/// mean, rounded toward zero (zero channels count as one).
pub open spec fn to_mono_s(s: Seq<i16>, channels: u16) -> Seq<i16> {
    let ch: int = if channels == 0 {
        1
    } else {
        channels as int
    };
    if ch == 1 {
        s
    } else {
        Seq::new(
            ((s.len() as int) / ch) as nat,
            |k: int| tdiv(sum_s(s.subrange(k * ch, k * ch + ch)), ch) as i16,
        )
    }
}

proof fn lemma_sum_bounds(s: Seq<i16>)
    ensures
        -32768 * s.len() <= sum_s(s) <= 32767 * s.len(),
    decreases s.len(),
{
    if s.len() > 0 {
        lemma_sum_bounds(s.drop_last());
    }
}

proof fn lemma_tdiv_bounds(a: int, d: int)
    requires
        d > 0,
        -32768 * d <= a <= 32767 * d,
    ensures
        -32768 <= tdiv(a, d) <= 32767,
{
    if a >= 0 {
        assert(a / d <= 32767) by (nonlinear_arith)
            requires
                d > 0,
                0 <= a <= 32767 * d,
        {
            assert(a / d <= (32767 * d) / d) by (nonlinear_arith)
                requires
                    d > 0,
                    0 <= a <= 32767 * d,
            ;
        }
    } else {
        assert((-a) / d <= 32768) by (nonlinear_arith)
            requires
                d > 0,
                0 < -a <= 32768 * d,
        {
            assert((-a) / d <= (32768 * d) / d) by (nonlinear_arith)
                requires
                    d > 0,
                    0 < -a <= 32768 * d,
            ;
        }
        assert((-a) / d >= 0) by (nonlinear_arith)
            requires
                d > 0,
                0 < -a,
        ;
    }
}

/// Mixes interleaved channels down to one (16-bit samples).
pub fn to_mono(samples: &[i16], channels: u16) -> (r: Vec<i16>)
    ensures
        r@ == to_mono_s(samples@, channels),
{
    let ch: usize = if channels == 0 {
        1
    } else {
        channels as usize
    };
    if ch == 1 {
        let mut r: Vec<i16> = Vec::new();
        let mut i: usize = 0;
        while i < samples.len()
            invariant
                i <= samples@.len(),
                r@ == samples@.take(i as int),
            decreases samples@.len() - i,
        {
            r.push(samples[i]);
            assert(r@ =~= samples@.take(i + 1));
            i = i + 1;
        }
        assert(samples@.take(samples@.len() as int) =~= samples@);
        return r;
    }
    let len = samples.len();
    let frames = len / ch;
    let mut r: Vec<i16> = Vec::new();
    let mut k: usize = 0;
    while k < frames
        invariant
            2 <= ch <= 65535,
            ch == channels,
            len == samples@.len(),
            frames == len / ch,
            k <= frames,
            r@ == to_mono_s(samples@, channels).take(k as int),
        decreases frames - k,
    {
        assert(k * ch + ch <= len) by (nonlinear_arith)
            requires
                k < frames,
                frames == len / ch,
                ch > 0,
        {
            assert(frames * ch <= len) by (nonlinear_arith)
                requires
                    frames == len / ch,
                    ch > 0,
            ;
            assert(k * ch + ch <= frames * ch) by (nonlinear_arith)
                requires
                    k < frames,
                    ch > 0,
            ;
        }
        let base = k * ch;
        let mut sum: i32 = 0;
        let mut j: usize = 0;
        while j < ch
            invariant
                2 <= ch <= 65535,
                base + ch <= len,
                len == samples@.len(),
                j <= ch,
                sum == sum_s(samples@.subrange(base as int, base + j)),
                -32768 * j <= sum <= 32767 * j,
            decreases ch - j,
        {
            assert(samples@.subrange(base as int, base + j + 1).drop_last() =~= samples@.subrange(
                base as int,
                base + j,
            ));
            assert(-32768 * (j + 1) >= -32768 * 65535);
            sum = sum + samples[base + j] as i32;
            j = j + 1;
        }
        proof {
            lemma_tdiv_bounds(sum as int, ch as int);
        }
        let avg: i32 = if sum >= 0 {
            (sum as u32 / ch as u32) as i32
        } else {
            -(((-sum) as u32 / ch as u32) as i32)
        };
        r.push(avg as i16);
        assert(r@ =~= to_mono_s(samples@, channels).take(k + 1));
        k = k + 1;
    }
    assert(to_mono_s(samples@, channels).take(frames as int) =~= to_mono_s(samples@, channels));
    r
}

// ---------------------------------------------------------------- resampling

/// Output length of a resampling: `n * to / from`, rounded half up.
pub open spec fn resample_len(n: int, from: int, to: int) -> int {
    (2 * n * to + from) / (2 * from)
}

/// Sample `i`, or `d` past either end.
pub open spec fn sample_or(s: Seq<i16>, i: int, d: int) -> int {
    if 0 <= i < s.len() {
        s[i] as int
    } else {
        d
    }
}

/// `num / d` rounded half away from zero.
pub open spec fn round_div(num: int, d: int) -> int {
    if num >= 0 {
        (2 * num + d) / (2 * d)
    } else {
        -((-2 * num + d) / (2 * d))
    }
}

/// Clamped to the 16-bit range.
pub open spec fn clamp16(x: int) -> i16 {
    (if x < -32768 {
        -32768
    } else if x > 32767 {
        32767
    } else {
        x
    }) as i16
}

/// Output sample `i`: the input at position `i * from / to`, interpolated
/// linearly between its two neighbours (the last sample repeats).
pub open spec fn interp(s: Seq<i16>, i: int, from: int, to: int) -> i16 {
    let p = i * from;
    let idx = p / to;
    let r = p % to;
    let a = sample_or(s, idx, 0);
    let b = sample_or(s, idx + 1, a);
    clamp16(round_div(a * to + (b - a) * r, to))
}

/// Meaning of `resample_linear`; unchanged when the rates agree, either is
/// zero, or there are no samples.
pub open spec fn resample_s(s: Seq<i16>, from: u32, to: u32) -> Seq<i16> {
    if from == to || s.len() == 0 || from == 0 || to == 0 {
        s
    } else {
        Seq::new(
            resample_len(s.len() as int, from as int, to as int) as nat,
            |i: int| interp(s, i, from as int, to as int),
        )
    }
}

/// Rates and length for which the output length fits in memory.
pub open spec fn resample_fits(n: int, from: u32, to: u32) -> bool {
    n <= usize::MAX / 4 && (from == 0 || resample_len(n, from as int, to as int) <= usize::MAX / 4)
}

fn interp_exec(s: &[i16], i: usize, from: u32, to: u32) -> (r: i16)
    requires
        to > 0,
    ensures
        r == interp(s@, i as int, from as int, to as int),
{
    assert(i * from <= 0xffff_ffff_ffff_ffff * 0xffff_ffff) by (nonlinear_arith)
        requires
            i <= 0xffff_ffff_ffff_ffff,
            from <= 0xffff_ffff,
    ;
    let p: u128 = i as u128 * from as u128;
    let idx: u128 = p / to as u128;
    assert(idx <= p) by (nonlinear_arith)
        requires
            to >= 1,
            idx == p / (to as u128),
            p >= 0,
    ;
    let rem: u128 = p % to as u128;
    let a: i128 = if idx < s.len() as u128 {
        s[idx as usize] as i128
    } else {
        0
    };
    let b: i128 = if idx + 1 < s.len() as u128 {
        s[(idx + 1) as usize] as i128
    } else {
        a
    };
    assert(-65536 <= b - a <= 65536);
    assert(0 <= rem < to);
    assert(-65536 * 0x1_0000_0000 <= (b - a) * rem <= 65536 * 0x1_0000_0000) by (nonlinear_arith)
        requires
            -65536 <= b - a <= 65536,
            0 <= rem < 0x1_0000_0000,
    ;
    assert(-32768 * 0x1_0000_0000 <= a * to <= 32768 * 0x1_0000_0000) by (nonlinear_arith)
        requires
            -32768 <= a <= 32767,
            0 <= to < 0x1_0000_0000,
    ;
    let num: i128 = a * to as i128 + (b - a) * rem as i128;
    assert(-0x4_0000_0000_0000 <= num <= 0x4_0000_0000_0000);
    let d: i128 = to as i128;
    assert(1 <= d <= 0xffff_ffff);
    let q: i128 = if num >= 0 {
        (2 * num + d) / (2 * d)
    } else {
        let nn: i128 = -2 * num + d;
        assert(0 <= nn <= 0x10_0000_0000_0000);
        let dd: i128 = 2 * d;
        let qq: i128 = nn / dd;
        assert(0 <= qq <= nn) by (nonlinear_arith)
            requires
                0 <= nn,
                dd >= 2,
                qq == nn / dd,
        ;
        -qq
    };
    let c: i128 = if q < -32768 {
        -32768
    } else if q > 32767 {
        32767
    } else {
        q
    };
    c as i16
}

/// Linear-interpolation resampling from `from` Hz to `to` Hz.
///
/// The position of each output sample and the interpolation are computed
/// exactly, in rational arithmetic, and the result is rounded to the nearest
/// sample (halves away from zero). A computation in binary floating point can
/// differ from this by one unit where its rounding error crosses a half: with
/// `from` = 3, `to` = 10 and the input [-3, -2, 2, 2, 3, -1, -3, 2, -1, 2, 2],
/// output 23 is 2 here and 1 in `f64`.
pub fn resample_linear(samples: &[i16], from: u32, to: u32) -> (r: Vec<i16>)
    requires
        resample_fits(samples@.len() as int, from, to),
    ensures
        r@ == resample_s(samples@, from, to),
{
    if from == to || samples.len() == 0 || from == 0 || to == 0 {
        let mut r: Vec<i16> = Vec::new();
        let mut i: usize = 0;
        while i < samples.len()
            invariant
                i <= samples@.len(),
                r@ == samples@.take(i as int),
            decreases samples@.len() - i,
        {
            r.push(samples[i]);
            assert(r@ =~= samples@.take(i + 1));
            i = i + 1;
        }
        assert(samples@.take(samples@.len() as int) =~= samples@);
        return r;
    }
    let n: u128 = samples.len() as u128;
    assert(2 * n * to + from <= 2 * 0x1_0000_0000_0000_0000 * 0x1_0000_0000 + 0x1_0000_0000)
        by (nonlinear_arith)
        requires
            n <= 0xffff_ffff_ffff_ffff,
            to <= 0xffff_ffff,
            from <= 0xffff_ffff,
    ;
    let out_len128: u128 = (2 * n * to as u128 + from as u128) / (2 * from as u128);
    let out_len: usize = out_len128 as usize;
    let ghost want = resample_s(samples@, from, to);
    let mut r: Vec<i16> = Vec::new();
    let mut i: usize = 0;
    while i < out_len
        invariant
            to > 0,
            from > 0,
            from != to,
            samples@.len() > 0,
            out_len == resample_len(samples@.len() as int, from as int, to as int),
            want == resample_s(samples@, from, to),
            i <= out_len,
            r@ == want.take(i as int),
        decreases out_len - i,
    {
        let v = interp_exec(samples, i, from, to);
        r.push(v);
        assert(r@ =~= want.take(i + 1));
        i = i + 1;
    }
    assert(want.take(out_len as int) =~= want);
    r
}

proof fn lemma_resample_len(s: Seq<i16>, from: u32, to: u32)
    ensures
        resample_s(s, from, to).len() == if from == to || s.len() == 0 || from == 0 || to == 0 {
            s.len() as int
        } else {
            resample_len(s.len() as int, from as int, to as int)
        },
{
    if !(from == to || s.len() == 0 || from == 0 || to == 0) {
        assert(resample_len(s.len() as int, from as int, to as int) >= 0) by (nonlinear_arith)
            requires
                from > 0,
                to > 0,
        {
            assert(2 * s.len() * to + from >= 0) by (nonlinear_arith)
                requires
                    to > 0,
                    from > 0,
            ;
        }
    }
}

proof fn lemma_resample_len_mono(m: int, n: int, from: u32, to: u32)
    requires
        0 <= m <= n,
        from > 0,
    ensures
        resample_len(m, from as int, to as int) <= resample_len(n, from as int, to as int),
{
    assert(2 * m * to + from <= 2 * n * to + from) by (nonlinear_arith)
        requires
            0 <= m <= n,
            to >= 0,
    ;
    vstd::arithmetic::div_mod::lemma_div_is_ordered(
        2 * m * to + from,
        2 * n * to + from,
        2 * from,
    );
}

// ---------------------------------------------------------------- conversion

/// The data bytes of a parsed WAV.
pub open spec fn data_of(bytes: Seq<u8>, info: WavInfo) -> Seq<u8> {
    bytes.subrange(info.data_offset as int, info.data_offset + info.data_length)
}

/// Samples of a WAV mixed down to mono.
pub open spec fn mono_of(bytes: Seq<u8>, info: WavInfo) -> Seq<i16> {
    to_mono_s(bytes_to_i16_s(data_of(bytes, info)), info.channels)
}

/// Meaning of `normalize_to_16k_mono`.
pub open spec fn normalize_s(bytes: Seq<u8>) -> Result<Seq<u8>, AudioError> {
    match parse_wav_s(bytes) {
        None => Err(AudioError::NotWavHeader),
        Some(info) => if info.bits_per_sample != 16 {
            Err(AudioError::UnsupportedBits(info.bits_per_sample))
        } else {
            Ok(i16_to_bytes_s(resample_s(mono_of(bytes, info), info.sample_rate, SAMPLE_RATE)))
        },
    }
}

/// WAVs whose conversion fits in memory.
pub open spec fn normalize_fits(bytes: Seq<u8>) -> bool {
    match parse_wav_s(bytes) {
        Some(info) => resample_fits(mono_of(bytes, info).len() as int, info.sample_rate, SAMPLE_RATE),
        None => true,
    }
}

/// Whether a WAV's conversion to 16 kHz mono fits in memory: the test of
/// `normalize_fits` for callers of `normalize_to_16k_mono`.
pub fn normalize_fits_exec(bytes: &[u8]) -> (b: bool)
    ensures
        b == normalize_fits(bytes@),
{
    let info = match parse_wav(bytes) {
        None => return true,
        Some(i) => i,
    };
    let ghost data = data_of(bytes@, info);
    let samples = info.data_length / 2;
    let ch: usize = if info.channels == 0 {
        1
    } else {
        info.channels as usize
    };
    let n: usize = if ch == 1 {
        samples
    } else {
        samples / ch
    };
    proof {
        assert(data.len() == info.data_length);
        assert(bytes_to_i16_s(data).len() == samples);
        assert(mono_of(bytes@, info).len() == n);
    }
    if n > usize::MAX / 4 {
        return false;
    }
    let from = info.sample_rate;
    if from == 0 {
        return true;
    }
    assert(n <= 0x4000_0000_0000_0000);
    let len: u128 = (32000 * (n as u128) + from as u128) / (2 * from as u128);
    proof {
        assert(2 * n * (SAMPLE_RATE as int) == 32000 * n);
    }
    len <= (usize::MAX / 4) as u128
}

fn copy_bytes(b: &[u8], a: usize, e: usize) -> (r: Vec<u8>)
    requires
        a <= e <= b@.len(),
    ensures
        r@ == b@.subrange(a as int, e as int),
{
    let mut r: Vec<u8> = Vec::new();
    let mut i = a;
    while i < e
        invariant
            a <= i <= e <= b@.len(),
            r@ == b@.subrange(a as int, i as int),
        decreases e - i,
    {
        r.push(b[i]);
        assert(r@ =~= b@.subrange(a as int, i + 1));
        i = i + 1;
    }
    r
}

proof fn lemma_mono_len(s: Seq<i16>, channels: u16)
    ensures
        to_mono_s(s, channels).len() <= s.len(),
{
    let ch: int = if channels == 0 {
        1
    } else {
        channels as int
    };
    if ch != 1 {
        assert((s.len() as int) / ch <= s.len()) by (nonlinear_arith)
            requires
                ch >= 1,
        ;
    }
}

/// Any 16-bit WAV as 16 kHz mono 16-bit PCM bytes, the input of speech
/// recognition.
pub fn normalize_to_16k_mono(bytes: &[u8]) -> (r: Result<Vec<u8>, AudioError>)
    requires
        normalize_fits(bytes@),
    ensures
        match normalize_s(bytes@) {
            Ok(v) => r is Ok && r->Ok_0@ == v,
            Err(e) => r == Err::<Vec<u8>, AudioError>(e),
        },
{
    let info = match parse_wav(bytes) {
        Some(i) => i,
        None => return Err(AudioError::NotWavHeader),
    };
    if info.bits_per_sample != 16 {
        return Err(AudioError::UnsupportedBits(info.bits_per_sample));
    }
    let blen = bytes.len();
    assert(info.data_offset + info.data_length <= blen);
    let pcm = copy_bytes(bytes, info.data_offset, info.data_offset + info.data_length);
    let samples = bytes_to_i16(pcm.as_slice());
    let mono = to_mono(samples.as_slice(), info.channels);
    proof {
        lemma_mono_len(samples@, info.channels);
        lemma_resample_len(mono@, info.sample_rate, SAMPLE_RATE);
    }
    let resampled = resample_linear(mono.as_slice(), info.sample_rate, SAMPLE_RATE);
    Ok(i16_to_bytes(resampled.as_slice()))
}

// ---------------------------------------------------------------- speech chunks

/// A cut piece of speech, with its own WAV header.
#[derive(Debug, Clone)]
pub struct SpeechChunk {
    pub wav: Vec<u8>,
    pub start_ms: u64,
    pub duration_ms: u64,
}

/// View of a chunk: WAV bytes, start and duration.
pub open spec fn chunk_view(c: SpeechChunk) -> (Seq<u8>, u64, u64) {
    (c.wav@, c.start_ms, c.duration_ms)
}

/// Views of chunks.
pub open spec fn chunks_view(cs: Seq<SpeechChunk>) -> Seq<(Seq<u8>, u64, u64)> {
    Seq::new(cs.len(), |i: int| chunk_view(cs[i]))
}

/// The chunk of samples `a..b` of 16 kHz mono audio.
pub open spec fn chunk_s(s: Seq<i16>, a: int, b: int) -> (Seq<u8>, u64, u64) {
    (
        build_wav_s(i16_to_bytes_s(s.subrange(a, b)), SAMPLE_RATE, 1, 16),
        (a * 1000 / 16000) as u64,
        ((b - a) * 1000 / 16000) as u64,
    )
}

/// Milliseconds of `x` samples at 16 kHz: a sixteenth of them.
proof fn lemma_ms_of_samples(x: int)
    requires
        x >= 0,
    ensures
        x * 1000 / 16000 == x / 16,
{
    assert(x * 1000 / 16000 == x / 16) by (nonlinear_arith)
        requires
            x >= 0,
    {
        assert(x * 1000 == (x / 16) * 16000 + (x % 16) * 1000);
    }
}

fn make_chunk(samples: &[i16], start_sample: usize, end_sample: usize) -> (r: Option<SpeechChunk>)
    requires
        start_sample <= samples@.len(),
        end_sample <= samples@.len(),
        2 * samples@.len() <= isize::MAX,
    ensures
        end_sample <= start_sample ==> r is None,
        start_sample < end_sample ==> r is Some && chunk_view(r->0) == chunk_s(
            samples@,
            start_sample as int,
            end_sample as int,
        ),
{
    if end_sample <= start_sample {
        return None;
    }
    let mut part: Vec<i16> = Vec::new();
    let mut i = start_sample;
    while i < end_sample
        invariant
            start_sample <= i <= end_sample <= samples@.len(),
            part@ == samples@.subrange(start_sample as int, i as int),
        decreases end_sample - i,
    {
        part.push(samples[i]);
        assert(part@ =~= samples@.subrange(start_sample as int, i + 1));
        i = i + 1;
    }
    let bytes = i16_to_bytes(part.as_slice());
    assert(format_fits(SAMPLE_RATE, 1, 16));
    let wav = build_wav(bytes.as_slice(), SAMPLE_RATE, 1, 16);
    proof {
        lemma_ms_of_samples(start_sample as int);
        lemma_ms_of_samples(part.len() as int);
    }
    Some(
        SpeechChunk {
            wav,
            start_ms: start_sample as u64 / 16,
            duration_ms: part.len() as u64 / 16,
        },
    )
}

/// Segments after the first `k` frames of a recording of `n` samples, given
/// which frames are silent: the cuts made, the silence run and the start of
/// the open segment.
pub open spec fn cuts_upto(n: int, silent: Seq<bool>, k: int) -> (Seq<(int, int)>, int, int)
    decreases k,
{
    if k <= 0 || k > silent.len() {
        (seq![], 0, 0)
    } else {
        let (cs, sil, st) = cuts_upto(n, silent, k - 1);
        let sil2 = if silent[k - 1] {
            sil + FRAME_MS
        } else {
            0
        };
        let pos = k * FRAME_SAMPLES;
        let seg_ms = (pos - st) * 1000 / 16000;
        if (sil2 >= SILENCE_CUT_MS && seg_ms >= MIN_SEGMENT_MS) || seg_ms >= MAX_SEGMENT_MS {
            (if pos > st {
                cs.push((st, pos))
            } else {
                cs
            }, 0, pos)
        } else {
            (cs, sil2, st)
        }
    }
}

/// The segments cut from `n` samples: at a silence of 600 ms once the segment
/// has 8 s, always at 45 s; a remainder of at least 1 s is kept.
pub open spec fn speech_cuts(n: int, silent: Seq<bool>) -> Seq<(int, int)> {
    let (cs, sil, st) = cuts_upto(n, silent, silent.len() as int);
    if (n - st) * 1000 / 16000 >= MIN_FLUSH_MS && n > st {
        cs.push((st, n))
    } else {
        cs
    }
}

/// The chunks of samples at the given segments.
pub open spec fn cut_chunks(s: Seq<i16>, cuts: Seq<(int, int)>) -> Seq<(Seq<u8>, u64, u64)> {
    Seq::new(cuts.len(), |i: int| chunk_s(s, cuts[i].0, cuts[i].1))
}

/// The chunks of 16 kHz mono samples cut where `speech_cuts` says.
pub open spec fn speech_chunks_s(s: Seq<i16>, silent: Seq<bool>) -> Seq<(Seq<u8>, u64, u64)> {
    cut_chunks(s, speech_cuts(s.len() as int, silent))
}

proof fn lemma_cut_chunks_push(s: Seq<i16>, cuts: Seq<(int, int)>, c: (int, int))
    ensures
        cut_chunks(s, cuts.push(c)) == cut_chunks(s, cuts).push(chunk_s(s, c.0, c.1)),
{
    assert(cut_chunks(s, cuts.push(c)) =~= cut_chunks(s, cuts).push(chunk_s(s, c.0, c.1)));
}

proof fn lemma_chunks_view_push(cs: Seq<SpeechChunk>, c: SpeechChunk)
    ensures
        chunks_view(cs.push(c)) == chunks_view(cs).push(chunk_view(c)),
{
    assert(chunks_view(cs.push(c)) =~= chunks_view(cs).push(chunk_view(c)));
}

fn push_chunk(
    chunks: &mut Vec<SpeechChunk>,
    samples: &[i16],
    a: usize,
    b: usize,
    Ghost(cuts): Ghost<Seq<(int, int)>>,
)
    requires
        a < b <= samples@.len(),
        2 * samples@.len() <= isize::MAX,
        chunks_view(old(chunks)@) == cut_chunks(samples@, cuts),
    ensures
        chunks_view(final(chunks)@) == cut_chunks(samples@, cuts.push((a as int, b as int))),
{
    let c = make_chunk(samples, a, b);
    match c {
        Some(c) => {
            proof {
                lemma_chunks_view_push(chunks@, c);
                lemma_cut_chunks_push(samples@, cuts, (a as int, b as int));
            }
            chunks.push(c);
        },
        None => {},
    }
}

proof fn lemma_cuts_bounds(n: int, silent: Seq<bool>, k: int)
    requires
        0 <= k <= silent.len(),
        silent.len() * FRAME_SAMPLES <= n,
    ensures
        ({
            let (cs, sil, st) = cuts_upto(n, silent, k);
            &&& 0 <= st <= k * FRAME_SAMPLES
            &&& 0 <= sil <= k * FRAME_MS
            &&& forall|i: int|
                0 <= i < cs.len() ==> 0 <= #[trigger] cs[i].0 < cs[i].1 <= st
        }),
    decreases k,
{
    if k > 0 {
        lemma_cuts_bounds(n, silent, k - 1);
    }
}

/// Cuts 16 kHz mono 16-bit PCM into chunks of speech; `silent` says for each
/// 100 ms frame whether it is quiet.
pub fn split_speech_pcm(pcm: &[u8], silent: &[bool]) -> (r: Vec<SpeechChunk>)
    requires
        silent@.len() == pcm@.len() / 2 / (FRAME_SAMPLES as nat),
        pcm@.len() <= isize::MAX,
    ensures
        chunks_view(r@) == speech_chunks_s(bytes_to_i16_s(pcm@), silent@),
        speech_layout(chunks_view(r@), pcm@.len() as int / 2),
{
    proof {
        lemma_speech_chunks_ms(bytes_to_i16_s(pcm@), silent@);
    }
    let samples = bytes_to_i16(pcm);
    let n = samples.len();
    let ghost sv = samples@;
    let frames = silent.len();
    proof {
        assert(frames * FRAME_SAMPLES <= n);
    }
    let mut chunks: Vec<SpeechChunk> = Vec::new();
    let mut silence_ms: usize = 0;
    let mut seg_start: usize = 0;
    let ghost mut cuts: Seq<(int, int)> = seq![];
    assert(chunks_view(chunks@) =~= cut_chunks(sv, cuts));
    let mut k: usize = 0;
    while k < frames
        invariant
            sv == samples@,
            n == sv.len(),
            2 * n <= isize::MAX,
            frames == silent@.len(),
            frames * FRAME_SAMPLES <= n,
            k <= frames,
            (cuts, silence_ms as int, seg_start as int) == cuts_upto(n as int, silent@, k as int),
            chunks_view(chunks@) == cut_chunks(sv, cuts),
        decreases frames - k,
    {
        proof {
            lemma_cuts_bounds(n as int, silent@, k as int);
        }
        if silent[k] {
            silence_ms = silence_ms + FRAME_MS;
        } else {
            silence_ms = 0;
        }
        let pos = (k + 1) * FRAME_SAMPLES;
        let seg_ms = (pos - seg_start) / 16;
        proof {
            lemma_ms_of_samples(pos - seg_start);
        }
        if (silence_ms >= SILENCE_CUT_MS && seg_ms >= MIN_SEGMENT_MS) || seg_ms >= MAX_SEGMENT_MS {
            push_chunk(&mut chunks, samples.as_slice(), seg_start, pos, Ghost(cuts));
            proof {
                cuts = cuts.push((seg_start as int, pos as int));
            }
            seg_start = pos;
            silence_ms = 0;
        }
        k = k + 1;
    }
    proof {
        lemma_cuts_bounds(n as int, silent@, frames as int);
    }
    let tail_ms = (n - seg_start) / 16;
    proof {
        lemma_ms_of_samples(n - seg_start);
    }
    if tail_ms >= MIN_FLUSH_MS && n > seg_start {
        push_chunk(&mut chunks, samples.as_slice(), seg_start, n, Ghost(cuts));
        proof {
            cuts = cuts.push((seg_start as int, n as int));
        }
    }
    assert(cuts == speech_cuts(n as int, silent@));
    chunks
}

/// Meaning of `speech_pcm`: the data of a 16 kHz mono 16-bit WAV.
pub open spec fn speech_pcm_s(wav: Seq<u8>) -> Result<Seq<u8>, AudioError> {
    match parse_wav_s(wav) {
        None => Err(AudioError::NotWav),
        Some(info) => if info.channels != 1 || info.bits_per_sample != 16 || info.sample_rate
            != SAMPLE_RATE {
            Err(AudioError::NotSpeechFormat(info.sample_rate, info.channels, info.bits_per_sample))
        } else {
            Ok(data_of(wav, info))
        },
    }
}

/// The PCM data of a WAV that can be cut on silence (16 kHz mono 16-bit).
pub fn speech_pcm(wav: &[u8]) -> (r: Result<Vec<u8>, AudioError>)
    ensures
        match speech_pcm_s(wav@) {
            Ok(v) => r is Ok && r->Ok_0@ == v,
            Err(e) => r == Err::<Vec<u8>, AudioError>(e),
        },
{
    let info = match parse_wav(wav) {
        Some(i) => i,
        None => return Err(AudioError::NotWav),
    };
    if info.channels != 1 || info.bits_per_sample != 16 || info.sample_rate != SAMPLE_RATE {
        return Err(
            AudioError::NotSpeechFormat(info.sample_rate, info.channels, info.bits_per_sample),
        );
    }
    let blen = wav.len();
    assert(info.data_offset + info.data_length <= blen);
    Ok(copy_bytes(wav, info.data_offset, info.data_offset + info.data_length))
}

/// Silence flags that fit a WAV: one per 100 ms frame of its data.
pub open spec fn flags_fit(wav: Seq<u8>, silent: Seq<bool>) -> bool {
    match speech_pcm_s(wav) {
        Ok(pcm) => silent.len() == pcm.len() / 2 / (FRAME_SAMPLES as nat) && pcm.len() <= isize::MAX,
        Err(_) => true,
    }
}

/// Cuts a 16 kHz mono 16-bit WAV into chunks of speech; `silent` says for
/// each 100 ms frame of its data whether it is quiet.
pub fn split_speech(wav: &[u8], silent: &[bool]) -> (r: Result<Vec<SpeechChunk>, AudioError>)
    requires
        flags_fit(wav@, silent@),
    ensures
        match speech_pcm_s(wav@) {
            Ok(pcm) => r is Ok && chunks_view(r->Ok_0@) == speech_chunks_s(
                bytes_to_i16_s(pcm),
                silent@,
            ) && speech_layout(chunks_view(r->Ok_0@), pcm.len() as int / 2),
            Err(e) => r is Err && r->Err_0 == e,
        },
{
    let pcm = match speech_pcm(wav) {
        Ok(p) => p,
        Err(e) => return Err(e),
    };
    Ok(split_speech_pcm(pcm.as_slice(), silent))
}

// ---------------------------------------------------------------- fixed length

/// Samples per millisecond of a format (all channels).
pub open spec fn per_ms_s(info: WavInfo) -> int {
    info.sample_rate * info.channels / 1000
}

/// Samples per piece when cutting every `max_ms` milliseconds (at least one).
pub open spec fn step_s(info: WavInfo, max_ms: u64) -> int {
    if per_ms_s(info) * max_ms >= 1 {
        per_ms_s(info) * max_ms
    } else {
        1
    }
}

/// The piece of samples `a..b`: mixed to mono, resampled to 16 kHz, with its
/// own header; times measured in samples per millisecond.
pub open spec fn piece_s(all: Seq<i16>, info: WavInfo, a: int, b: int) -> (Seq<u8>, u64, u64) {
    let per = if per_ms_s(info) >= 1 {
        per_ms_s(info)
    } else {
        1
    };
    (
        build_wav_s(
            i16_to_bytes_s(
                resample_s(to_mono_s(all.subrange(a, b), info.channels), info.sample_rate, SAMPLE_RATE),
            ),
            SAMPLE_RATE,
            1,
            16,
        ),
        (a / per) as u64,
        ((b - a) / per) as u64,
    )
}

/// Pieces of `step` samples from `start` on (the last one shorter).
pub open spec fn pieces_from(all: Seq<i16>, info: WavInfo, step: int, start: int) -> Seq<
    (Seq<u8>, u64, u64),
>
    decreases all.len() - start,
{
    if step < 1 || start < 0 || start >= all.len() {
        seq![]
    } else {
        let end = if start + step < all.len() {
            start + step
        } else {
            all.len() as int
        };
        seq![piece_s(all, info, start, end)] + pieces_from(all, info, step, end)
    }
}

/// Meaning of `split_by_duration`.
pub open spec fn split_by_duration_s(wav: Seq<u8>, max_ms: u64) -> Result<
    Seq<(Seq<u8>, u64, u64)>,
    AudioError,
> {
    match parse_wav_s(wav) {
        None => Err(AudioError::NotWav),
        Some(info) => if info.bits_per_sample != 16 {
            Err(AudioError::Only16Bit)
        } else {
            Ok(pieces_from(bytes_to_i16_s(data_of(wav, info)), info, step_s(info, max_ms), 0))
        },
    }
}

/// Inputs for which cutting by duration computes without overflow.
pub open spec fn duration_fits(wav: Seq<u8>, max_ms: u64) -> bool {
    match parse_wav_s(wav) {
        Some(info) => per_ms_s(info) * max_ms <= u64::MAX && resample_fits(
            step_s(info, max_ms),
            info.sample_rate,
            SAMPLE_RATE,
        ),
        None => true,
    }
}

fn make_piece(
    all: &[i16],
    info: WavInfo,
    start: usize,
    end: usize,
    per: u64,
    Ghost(step): Ghost<int>,
) -> (c: SpeechChunk)
    requires
        start < end <= all@.len(),
        end - start <= step,
        per >= 1,
        per == (if per_ms_s(info) >= 1 {
            per_ms_s(info)
        } else {
            1
        }),
        resample_fits(step, info.sample_rate, SAMPLE_RATE),
    ensures
        chunk_view(c) == piece_s(all@, info, start as int, end as int),
{
    let mut part: Vec<i16> = Vec::new();
    let mut i = start;
    while i < end
        invariant
            start <= i <= end <= all@.len(),
            part@ == all@.subrange(start as int, i as int),
        decreases end - i,
    {
        part.push(all[i]);
        assert(part@ =~= all@.subrange(start as int, i + 1));
        i = i + 1;
    }
    let mono = to_mono(part.as_slice(), info.channels);
    proof {
        lemma_mono_len(part@, info.channels);
        if info.sample_rate > 0 {
            lemma_resample_len_mono(mono@.len() as int, step, info.sample_rate, SAMPLE_RATE);
        }
        lemma_resample_len(mono@, info.sample_rate, SAMPLE_RATE);
    }
    let resampled = resample_linear(mono.as_slice(), info.sample_rate, SAMPLE_RATE);
    let bytes = i16_to_bytes(resampled.as_slice());
    assert(format_fits(SAMPLE_RATE, 1, 16));
    let piece_wav = build_wav(bytes.as_slice(), SAMPLE_RATE, 1, 16);
    SpeechChunk {
        wav: piece_wav,
        start_ms: start as u64 / per,
        duration_ms: (end - start) as u64 / per,
    }
}

/// Cuts a 16-bit WAV into pieces of `max_ms` milliseconds, each mixed to mono
/// and resampled to 16 kHz; no silence analysis.
pub fn split_by_duration(wav: &[u8], max_ms: u64) -> (r: Result<Vec<SpeechChunk>, AudioError>)
    requires
        duration_fits(wav@, max_ms),
    ensures
        match split_by_duration_s(wav@, max_ms) {
            Ok(v) => r is Ok && chunks_view(r->Ok_0@) == v,
            Err(e) => r is Err && r->Err_0 == e,
        },
{
    let info = match parse_wav(wav) {
        Some(i) => i,
        None => return Err(AudioError::NotWav),
    };
    if info.bits_per_sample != 16 {
        return Err(AudioError::Only16Bit);
    }
    let blen = wav.len();
    assert(info.data_offset + info.data_length <= blen);
    let pcm = copy_bytes(wav, info.data_offset, info.data_offset + info.data_length);
    let all = bytes_to_i16(pcm.as_slice());
    let ghost av = all@;
    assert(info.sample_rate as u64 * info.channels as u64 <= 0xffff_ffff * 0xffff) by (
    nonlinear_arith)
        requires
            info.sample_rate <= 0xffff_ffff,
            info.channels <= 0xffff,
    ;
    let per_ms: u64 = (info.sample_rate as u64 * info.channels as u64) / 1000;
    let prod: u64 = per_ms * max_ms;
    let step: u64 = if prod >= 1 {
        prod
    } else {
        1
    };
    let per: u64 = if per_ms >= 1 {
        per_ms
    } else {
        1
    };
    let ghost want = pieces_from(av, info, step as int, 0);
    let n = all.len();
    let mut chunks: Vec<SpeechChunk> = Vec::new();
    let mut start: usize = 0;
    while start < n
        invariant
            av == all@,
            n == av.len(),
            n <= usize::MAX / 2,
            step == step_s(info, max_ms),
            per == (if per_ms_s(info) >= 1 {
                per_ms_s(info)
            } else {
                1
            }),
            1 <= step,
            resample_fits(step as int, info.sample_rate, SAMPLE_RATE),
            start <= n,
            chunks_view(chunks@) + pieces_from(av, info, step as int, start as int) == want,
        decreases n - start,
    {
        let end: usize = if step >= (n - start) as u64 {
            n
        } else {
            start + step as usize
        };
        let c = make_piece(all.as_slice(), info, start, end, per, Ghost(step as int));
        let ghost before = chunks_view(chunks@);
        proof {
            lemma_chunks_view_push(chunks@, c);
        }
        chunks.push(c);
        assert(chunk_view(c) == piece_s(av, info, start as int, end as int));
        assert(pieces_from(av, info, step as int, start as int) == seq![
            piece_s(av, info, start as int, end as int),
        ] + pieces_from(av, info, step as int, end as int));
        assert(chunks_view(chunks@) + pieces_from(av, info, step as int, end as int) =~= before
            + pieces_from(av, info, step as int, start as int));
        start = end;
    }
    assert(chunks_view(chunks@) + pieces_from(av, info, step as int, start as int) =~= chunks_view(
        chunks@,
    ));
    Ok(chunks)
}

// ---------------------------------------------------------------- laws of cutting

/// Segments that follow each other from the start: the first starts at
/// zero, each ends where the next starts, none is empty.
pub open spec fn tiled(cs: Seq<(int, int)>) -> bool {
    &&& cs.len() > 0 ==> cs[0].0 == 0
    &&& forall|i: int| 0 <= i < cs.len() ==> (#[trigger] cs[i]).0 < cs[i].1
    &&& forall|i: int| 0 <= i < cs.len() - 1 ==> (#[trigger] cs[i]).1 == cs[i + 1].0
}

proof fn lemma_cuts_tiled(n: int, silent: Seq<bool>, k: int)
    requires
        0 <= k <= silent.len(),
    ensures
        ({
            let (cs, sil, st) = cuts_upto(n, silent, k);
            &&& st % 1600 == 0
            &&& 0 <= st <= k * 1600
            &&& k * 1600 - st < 720000
            &&& tiled(cs)
            &&& cs.len() == 0 ==> st == 0
            &&& cs.len() > 0 ==> cs.last().1 == st
            &&& forall|i: int| 0 <= i < cs.len() ==> (#[trigger] cs[i]).1 - cs[i].0 <= 720000
            &&& forall|i: int| 0 <= i < cs.len() ==> (#[trigger] cs[i]).1 - cs[i].0 >= 128000
            &&& forall|i: int| 0 <= i < cs.len() ==> (#[trigger] cs[i]).0 % 1600 == 0 && cs[i].1 % 1600 == 0
        }),
    decreases k,
{
    if k > 0 {
        lemma_cuts_tiled(n, silent, k - 1);
        let (cs, sil, st) = cuts_upto(n, silent, k - 1);
        let pos = k * 1600;
        let (cs2, sil2, st2) = cuts_upto(n, silent, k);
        if st2 == pos && cs2 != cs {
            assert(cs2 == cs.push((st, pos)));
            assert((pos - st) % 1600 == 0);
            assert(pos - st <= 720000);
            assert forall|i: int| 0 <= i < cs2.len() - 1 implies (#[trigger] cs2[i]).1 == cs2[i + 1].0 by {
                if i < cs.len() - 1 {
                    assert(cs2[i] == cs[i] && cs2[i + 1] == cs[i + 1]);
                } else {
                    assert(cs2[i] == cs.last());
                }
            }
            assert((pos - st) * 1000 / 16000 >= 8000);
            assert(pos - st >= 128000) by {
                if pos - st < 128000 {
                    assert((pos - st) * 1000 < 128000000);
                }
            }
            assert forall|i: int| 0 <= i < cs2.len() implies (#[trigger] cs2[i]).0 < cs2[i].1 && cs2[i].1 - cs2[i].0 <= 720000
                && cs2[i].1 - cs2[i].0 >= 128000 && cs2[i].0 % 1600 == 0 && cs2[i].1 % 1600 == 0 by {
                if i < cs.len() {
                    assert(cs2[i] == cs[i]);
                }
            }
        }
    }
}

/// Cutting on silence loses nothing but a short tail: the segments follow one
/// another from the start of the recording, each at most 45 s except the last,
/// which is under 45 s and one frame; what follows the last segment is under 1 s.
/// Every segment but the last lasts at least 8 s, and the last at least 1 s.
pub proof fn lemma_speech_cuts_cover(n: int, silent: Seq<bool>)
    requires
        n >= 0,
        silent.len() == n / 1600,
    ensures
        ({
            let cs = speech_cuts(n, silent);
            &&& tiled(cs)
            &&& forall|i: int| 0 <= i < cs.len() - 1 ==> (#[trigger] cs[i]).1 - cs[i].0 <= 720000
            &&& forall|i: int| 0 <= i < cs.len() ==> (#[trigger] cs[i]).1 - cs[i].0 < 721600 && cs[i].1 <= n
            &&& n - (if cs.len() > 0 { cs.last().1 } else { 0 }) < 16000
            &&& forall|i: int| 0 <= i < cs.len() - 1 ==> (#[trigger] cs[i]).1 - cs[i].0 >= 128000
            &&& forall|i: int| 0 <= i < cs.len() ==> (#[trigger] cs[i]).1 - cs[i].0 >= 16000
        }),
{
    let k = silent.len() as int;
    lemma_cuts_tiled(n, silent, k);
    let (cs, sil, st) = cuts_upto(n, silent, k);
    assert(n - k * 1600 < 1600);
    assert forall|i: int| 0 <= i < cs.len() implies (#[trigger] cs[i]).1 <= st by {
        if i < cs.len() - 1 {
            lemma_tiled_ends(cs, i);
        }
    }
    if (n - st) * 1000 / 16000 >= 1000 && n > st {
        let cs2 = cs.push((st, n));
        assert forall|i: int| 0 <= i < cs2.len() - 1 implies (#[trigger] cs2[i]).1 == cs2[i + 1].0 by {
            if i < cs.len() - 1 {
                assert(cs2[i] == cs[i] && cs2[i + 1] == cs[i + 1]);
            } else {
                assert(cs2[i] == cs.last());
            }
        }
        assert forall|i: int| 0 <= i < cs2.len() implies (#[trigger] cs2[i]).0 < cs2[i].1 by {
            if i < cs.len() {
                assert(cs2[i] == cs[i]);
            }
        }
        assert forall|i: int| 0 <= i < cs2.len() - 1 implies (#[trigger] cs2[i]).1 - cs2[i].0 <= 720000 by {
            assert(cs2[i] == cs[i]);
        }
        assert forall|i: int| 0 <= i < cs2.len() implies (#[trigger] cs2[i]).1 - cs2[i].0 < 721600 && cs2[i].1 <= n by {
            if i < cs.len() {
                assert(cs2[i] == cs[i]);
            }
        }
        assert(n - st >= 16000) by {
            if n - st < 16000 {
                assert((n - st) * 1000 < 16000000);
            }
        }
        assert forall|i: int| 0 <= i < cs2.len() - 1 implies (#[trigger] cs2[i]).1 - cs2[i].0 >= 128000 by {
            assert(cs2[i] == cs[i]);
        }
        assert forall|i: int| 0 <= i < cs2.len() implies (#[trigger] cs2[i]).1 - cs2[i].0 >= 16000 by {
            if i < cs.len() {
                assert(cs2[i] == cs[i]);
            }
        }
    } else {
        assert((n - st) < 16000);
    }
}

/// A sixteenth of a multiple of sixteen plus more is the sum of the sixteenths.
proof fn lemma_sixteenth_add(a: int, x: int)
    requires
        a >= 0,
        x >= 0,
        a % 16 == 0,
    ensures
        (a + x) / 16 == a / 16 + x / 16,
{
    assert((a + x) / 16 == a / 16 + x / 16) by (nonlinear_arith)
        requires
            a >= 0,
            x >= 0,
            a % 16 == 0,
    {
        assert(a == 16 * (a / 16));
    }
}

/// Every segment cut on silence starts on a frame and lies in the recording;
/// the first starts at 0, each but the last lasts from 8 s to 45 s, each at
/// least 1 s, and less than 1 s of the recording follows the last.
proof fn lemma_cuts_on_frames(n: int, silent: Seq<bool>)
    requires
        n >= 0,
        silent.len() == n / 1600,
    ensures
        forall|i: int|
            0 <= i < speech_cuts(n, silent).len() ==> (#[trigger] speech_cuts(n, silent)[i]).0 % 1600 == 0
                && 0 <= speech_cuts(n, silent)[i].0 < speech_cuts(n, silent)[i].1 <= n
                && speech_cuts(n, silent)[i].1 - speech_cuts(n, silent)[i].0 >= 16000
                && (i < speech_cuts(n, silent).len() - 1 ==> 128000 <= speech_cuts(n, silent)[i].1
                - speech_cuts(n, silent)[i].0 <= 720000),
        speech_cuts(n, silent).len() > 0 ==> speech_cuts(n, silent)[0].0 == 0,
        speech_cuts(n, silent).len() > 0 ==> n - speech_cuts(n, silent)[speech_cuts(n, silent).len() - 1].1
            < 16000,
        speech_cuts(n, silent).len() == 0 ==> n < 16000,
        forall|i: int, j: int|
            #![trigger speech_cuts(n, silent)[i], speech_cuts(n, silent)[j]]
            0 <= i && j == i + 1 && j < speech_cuts(n, silent).len() ==> speech_cuts(n, silent)[i].1
                == speech_cuts(n, silent)[j].0,
{
    let k = silent.len() as int;
    lemma_speech_cuts_cover(n, silent);
    lemma_cuts_tiled(n, silent, k);
    let cs = speech_cuts(n, silent);
    let (cs0, sil, st) = cuts_upto(n, silent, k);
    assert forall|i: int| 0 <= i < cs.len() implies (#[trigger] cs[i]).0 % 1600 == 0 && 0 <= cs[i].0 < cs[i].1
        <= n by {
        lemma_tiled_starts(cs, i);
        if i < cs0.len() {
            assert(cs[i] == cs0[i]);
        } else {
            assert(cs[i] == (st, n));
        }
    }
    if cs.len() > 0 {
        assert(cs.last() == cs[cs.len() - 1]);
    }
    assert forall|i: int, j: int| 0 <= i && j == i + 1 && j < cs.len() implies #[trigger] cs[i].1
        == #[trigger] cs[j].0 by {
        assert(cs[i].1 == cs[i + 1].0);
    }
}

/// A piece in milliseconds: a sixteenth of its first sample and of its length.
proof fn lemma_chunk_ms(s: Seq<i16>, cs: Seq<(int, int)>, i: int)
    requires
        0 <= i < cs.len(),
        0 <= cs[i].0 <= cs[i].1 <= s.len() <= u64::MAX,
    ensures
        cut_chunks(s, cs)[i].1 == cs[i].0 / 16,
        cut_chunks(s, cs)[i].2 == (cs[i].1 - cs[i].0) / 16,
{
    let (a, b) = cs[i];
    lemma_ms_of_samples(a);
    lemma_ms_of_samples(b - a);
    assert(cut_chunks(s, cs)[i] == chunk_s(s, a, b));
}

/// The pieces cut on silence follow one another in milliseconds.
proof fn lemma_speech_contiguous(s: Seq<i16>, silent: Seq<bool>)
    requires
        silent.len() == s.len() / 1600,
        s.len() <= u64::MAX,
    ensures
        forall|i: int, j: int|
            #![trigger speech_chunks_s(s, silent)[i], speech_chunks_s(s, silent)[j]]
            0 <= i && j == i + 1 && j < speech_chunks_s(s, silent).len() ==> speech_chunks_s(s, silent)[j].1
                == speech_chunks_s(s, silent)[i].1 + speech_chunks_s(s, silent)[i].2,
{
    let n = s.len() as int;
    let cs = speech_cuts(n, silent);
    let c = speech_chunks_s(s, silent);
    lemma_cuts_on_frames(n, silent);
    assert forall|i: int, j: int| 0 <= i && j == i + 1 && j < c.len() implies #[trigger] c[j].1 == (
    #[trigger] c[i]).1 + c[i].2 by {
        lemma_chunk_ms(s, cs, i);
        lemma_chunk_ms(s, cs, j);
        assert(cs[i].1 == cs[j].0);
        lemma_sixteenth_add(cs[i].0, cs[i].1 - cs[i].0);
    }
}

/// Pieces of a recording of `n` samples laid out in milliseconds: they follow
/// one another from 0 ms with neither gap nor overlap, every piece but the last
/// lasts from 8 s to 45 s, every piece lasts at least 1 s, and the recording
/// goes on at most 1 s after the last piece ends.
pub open spec fn speech_layout(c: Seq<(Seq<u8>, u64, u64)>, n: int) -> bool {
    let end = if c.len() > 0 { c.last().1 + c.last().2 } else { 0 };
    &&& c.len() > 0 ==> c[0].1 == 0
    &&& forall|i: int, j: int|
        #![trigger c[i], c[j]]
        0 <= i && j == i + 1 && j < c.len() ==> c[j].1 == c[i].1 + c[i].2
    &&& forall|i: int| 0 <= i < c.len() - 1 ==> 8000 <= (#[trigger] c[i]).2 <= 45000
    &&& forall|i: int| 0 <= i < c.len() ==> (#[trigger] c[i]).2 >= 1000
    &&& n * 1000 / 16000 <= end + 1000
}

/// Cutting on silence, in milliseconds: the pieces follow one another from
/// 0 ms with neither gap nor overlap, every piece but the last lasts from 8 s
/// to 45 s, every piece lasts at least 1 s, and the recording goes on at most
/// 1 s after the last piece ends (a recording under 1 s gives no piece).
pub proof fn lemma_speech_chunks_ms(s: Seq<i16>, silent: Seq<bool>)
    requires
        silent.len() == s.len() / 1600,
        s.len() <= u64::MAX,
    ensures
        speech_layout(speech_chunks_s(s, silent), s.len() as int),
{
    let n = s.len() as int;
    let cs = speech_cuts(n, silent);
    let c = speech_chunks_s(s, silent);
    lemma_cuts_on_frames(n, silent);
    lemma_speech_contiguous(s, silent);
    assert forall|i: int| 0 <= i < c.len() implies (#[trigger] c[i]).2 >= 1000 && (i < c.len() - 1 ==> 8000
        <= c[i].2 <= 45000) by {
        lemma_chunk_ms(s, cs, i);
    }
    lemma_ms_of_samples(n);
    if c.len() > 0 {
        let l = c.len() - 1;
        lemma_chunk_ms(s, cs, l);
        lemma_chunk_ms(s, cs, 0);
        lemma_sixteenth_add(cs[l].0, cs[l].1 - cs[l].0);
        assert(n / 16 <= cs[l].1 / 16 + 1000);
    }
}

/// Every piece cut from a recording is a WAV file that reads back as 16 kHz
/// mono 16-bit audio holding exactly the piece's samples.
pub proof fn lemma_speech_chunks_valid(s: Seq<i16>, silent: Seq<bool>)
    requires
        silent.len() == s.len() / 1600,
    ensures
        forall|i: int|
            0 <= i < speech_chunks_s(s, silent).len() ==> {
                let c = #[trigger] speech_chunks_s(s, silent)[i];
                &&& parse_wav_s(c.0) is Some
                &&& parse_wav_s(c.0)->Some_0.sample_rate == 16000
                &&& parse_wav_s(c.0)->Some_0.channels == 1
                &&& parse_wav_s(c.0)->Some_0.bits_per_sample == 16
                &&& parse_wav_s(c.0)->Some_0.data_length == 2 * (speech_cuts(s.len() as int, silent)[i].1
                    - speech_cuts(s.len() as int, silent)[i].0)
            },
{
    let n = s.len() as int;
    lemma_speech_cuts_cover(n, silent);
    let cs = speech_cuts(n, silent);
    assert forall|i: int| 0 <= i < speech_chunks_s(s, silent).len() implies {
        let c = #[trigger] speech_chunks_s(s, silent)[i];
        &&& parse_wav_s(c.0) is Some
        &&& parse_wav_s(c.0)->Some_0.sample_rate == 16000
        &&& parse_wav_s(c.0)->Some_0.channels == 1
        &&& parse_wav_s(c.0)->Some_0.bits_per_sample == 16
        &&& parse_wav_s(c.0)->Some_0.data_length == 2 * (cs[i].1 - cs[i].0)
    } by {
        let (a, b) = cs[i];
        lemma_tiled_starts(cs, i);
        assert(0 <= a < b <= n);
        let pcm = i16_to_bytes_s(s.subrange(a, b));
        assert(pcm.len() == 2 * (b - a));
        lemma_wav_roundtrip(pcm, SAMPLE_RATE, 1, 16);
    }
}

proof fn lemma_tiled_starts(cs: Seq<(int, int)>, i: int)
    requires
        tiled(cs),
        0 <= i < cs.len(),
    ensures
        cs[0].0 <= cs[i].0,
    decreases i,
{
    if i > 0 {
        lemma_tiled_starts(cs, i - 1);
        assert(cs[i - 1].1 == cs[i].0);
    }
}

proof fn lemma_tiled_ends(cs: Seq<(int, int)>, i: int)
    requires
        tiled(cs),
        0 <= i < cs.len(),
    ensures
        cs[i].1 <= cs.last().1,
    decreases cs.len() - i,
{
    if i < cs.len() - 1 {
        lemma_tiled_ends(cs, i + 1);
    }
}

/// The RIFF size and data size fields of a recording file of `file_len`
/// bytes whose 44-byte header was written before the data: the data length
/// taken modulo 2^32, the RIFF size 36 more.
pub fn closing_lengths(file_len: u64) -> (r: (u32, u32))
    requires
        (if file_len >= 44 { file_len - 44 } else { 0 }) % 0x1_0000_0000 + 36 <= u32::MAX,
    ensures
        r.1 == ((if file_len >= 44 { file_len - 44 } else { 0 }) % 0x1_0000_0000) as u32,
        r.0 == r.1 + 36,
{
    let data: u64 = if file_len >= 44 {
        file_len - 44
    } else {
        0
    };
    let d = (data % 0x1_0000_0000) as u32;
    (d + 36, d)
}

} // verus!
