//! Recordings: which format a file name announces, the WAV and tar containers,
//! the SigMF metadata scan, and raw sample windows (GNU Radio compatible:
//! interleaved little-endian I,Q). Samples come out as the integers that the
//! file holds; floating-point ones as their bit patterns.

use crate::octets::{at16, at32, read_i16, read_i32, read_le16, read_le32, signed16, signed32};
use crate::text::{chars_of, ends_with, eq_ignore_ascii_case, equals, has_suffix, same_ignoring_case};
use vstd::prelude::*;

pub use crate::recording::sigmf::{frequency_parts, parse_sigmf_meta, tar_entry};

pub mod laws;
pub mod sigmf;

verus! {

/// What a file is, by its name.
#[derive(Debug, Clone, Copy, PartialEq, Eq, Structural)]
pub enum FileKind {
    /// `.sigmf`: a tar archive of the -meta and -data files.
    SigmfArchive,
    /// `.sigmf-data`, with a sibling `.sigmf-meta`.
    SigmfData,
    /// `.wav`, in any case.
    Wav,
    /// `.ci16` or `.cs16`: raw complex 16-bit integers.
    Ci16,
    /// Anything else: raw complex 32-bit floats.
    Cf32,
}

/// `s` ends with `pat`, ignoring the case of ASCII letters.
pub open spec fn has_suffix_any_case(s: Seq<char>, pat: Seq<char>) -> bool {
    pat.len() <= s.len() && same_ignoring_case(s.skip(s.len() - pat.len()), pat)
}

/// What a file is, by its name.
pub open spec fn kind_of(name: Seq<char>) -> FileKind {
    if has_suffix(name, ".sigmf"@) {
        FileKind::SigmfArchive
    } else if has_suffix(name, ".sigmf-data"@) {
        FileKind::SigmfData
    } else if has_suffix_any_case(name, ".wav"@) {
        FileKind::Wav
    } else if has_suffix(name, ".ci16"@) || has_suffix(name, ".cs16"@) {
        FileKind::Ci16
    } else {
        FileKind::Cf32
    }
}

fn ends_with_any_case(s: &[char], pat: &str) -> (b: bool)
    ensures
        b == has_suffix_any_case(s@, pat@),
{
    let p: Vec<char> = chars_of(pat);
    if p.len() > s.len() {
        return false;
    }
    let tail = &s[s.len() - p.len()..s.len()];
    proof {
        assert(tail@ =~= s@.skip(s@.len() - pat@.len()));
    }
    eq_ignore_ascii_case(tail, p.as_slice())
}

/// What a file is, by its name.
pub fn file_kind(name: &str) -> (k: FileKind)
    ensures
        k == kind_of(name@),
{
    let cs: Vec<char> = chars_of(name);
    let s = cs.as_slice();
    if ends_with(s, ".sigmf") {
        FileKind::SigmfArchive
    } else if ends_with(s, ".sigmf-data") {
        FileKind::SigmfData
    } else if ends_with_any_case(s, ".wav") {
        FileKind::Wav
    } else if ends_with(s, ".ci16") || ends_with(s, ".cs16") {
        FileKind::Ci16
    } else {
        FileKind::Cf32
    }
}

/// The part of `total` samples that `skip` and `max` select: first sample and
/// count.
pub open spec fn window_of(total: int, skip: int, max: Option<usize>) -> (int, int) {
    let first = if skip < total {
        skip
    } else {
        total
    };
    let rest = total - first;
    (first, match max {
        Some(n) => if n < rest {
            n as int
        } else {
            rest
        },
        None => rest,
    })
}

/// The part of `total` samples that `skip` and `max` select: first sample and
/// count.
pub fn window(total: usize, skip: usize, max: Option<usize>) -> (w: (usize, usize))
    ensures
        (w.0 as int, w.1 as int) == window_of(total as int, skip as int, max),
        w.0 + w.1 <= total,
{
    let first: usize = if skip < total {
        skip
    } else {
        total
    };
    let rest: usize = total - first;
    match max {
        Some(n) => if n < rest {
            (first, n)
        } else {
            (first, rest)
        },
        None => (first, rest),
    }
}

/// A SigMF sample type that can be read.
#[derive(Debug, Clone, Copy, PartialEq, Eq, Structural)]
pub enum SampleType {
    /// Complex 16-bit integers.
    Ci16,
    /// Complex 32-bit floats.
    Cf32,
}

/// The sample type of a SigMF datatype name.
pub open spec fn sample_type_of(name: Seq<char>) -> Option<SampleType> {
    if name == "ci16_le"@ || name == "ci16"@ {
        Some(SampleType::Ci16)
    } else if name == "cf32_le"@ || name == "cf32"@ {
        Some(SampleType::Cf32)
    } else {
        None
    }
}

/// The sample type of a SigMF datatype name, `None` where it is not supported
/// (ci16_le / cf32_le only).
pub fn sample_type(name: &str) -> (t: Option<SampleType>)
    ensures
        t == sample_type_of(name@),
{
    let cs: Vec<char> = chars_of(name);
    let s = cs.as_slice();
    if equals(s, "ci16_le") || equals(s, "ci16") {
        Some(SampleType::Ci16)
    } else if equals(s, "cf32_le") || equals(s, "cf32") {
        Some(SampleType::Cf32)
    } else {
        None
    }
}

/// Decode a window of complex 16-bit integers; an incomplete sample at the end
/// is dropped.
pub fn decode_ci16(raw: &[u8], skip: usize, max: Option<usize>) -> (out: Vec<(i16, i16)>)
    ensures
        ({
            let (first, count) = window_of(raw@.len() as int / 4, skip as int, max);
            &&& out@.len() == count
            &&& forall|i: int|
                0 <= i < count ==> {
                    let v = #[trigger] out@[i];
                    &&& v.0 == signed16(at16(raw@, 4 * (first + i)))
                    &&& v.1 == signed16(at16(raw@, 4 * (first + i) + 2))
                }
        }),
{
    let (first, count) = window(raw.len() / 4, skip, max);
    let mut out: Vec<(i16, i16)> = Vec::with_capacity(count);
    for i in 0..count
        invariant
            first + count <= raw@.len() / 4,
            raw@.len() <= usize::MAX,
            out@.len() == i,
            forall|k: int|
                0 <= k < i ==> {
                    let v = #[trigger] out@[k];
                    &&& v.0 == signed16(at16(raw@, 4 * (first + k)))
                    &&& v.1 == signed16(at16(raw@, 4 * (first + k) + 2))
                },
    {
        let at: usize = 4 * (first + i);
        out.push((read_i16(raw, at), read_i16(raw, at + 2)));
    }
    out
}

/// Decode a window of complex 32-bit floats into their bit patterns; an
/// incomplete sample at the end is dropped.
pub fn decode_cf32(raw: &[u8], skip: usize, max: Option<usize>) -> (out: Vec<(u32, u32)>)
    ensures
        ({
            let (first, count) = window_of(raw@.len() as int / 8, skip as int, max);
            &&& out@.len() == count
            &&& forall|i: int|
                0 <= i < count ==> {
                    let v = #[trigger] out@[i];
                    &&& v.0 == at32(raw@, 8 * (first + i))
                    &&& v.1 == at32(raw@, 8 * (first + i) + 4)
                }
        }),
{
    let (first, count) = window(raw.len() / 8, skip, max);
    let mut out: Vec<(u32, u32)> = Vec::with_capacity(count);
    for i in 0..count
        invariant
            first + count <= raw@.len() / 8,
            raw@.len() <= usize::MAX,
            out@.len() == i,
            forall|k: int|
                0 <= k < i ==> {
                    let v = #[trigger] out@[k];
                    &&& v.0 == at32(raw@, 8 * (first + k))
                    &&& v.1 == at32(raw@, 8 * (first + k) + 4)
                },
    {
        let at: usize = 8 * (first + i);
        out.push((read_le32(raw, at), read_le32(raw, at + 4)));
    }
    out
}

/// The fmt chunk of a WAV file.
#[derive(Debug, Clone, Copy, PartialEq, Eq, Structural)]
pub struct WavFormat {
    pub tag: u16,
    pub channels: u16,
    pub rate: u32,
    pub bits: u16,
}

/// Where the samples of a two-channel WAV file are, and what they are.
#[derive(Debug, Clone, Copy, PartialEq, Eq, Structural)]
pub struct WavInfo {
    pub format: WavFormat,
    /// Offset of the sample data in the file.
    pub start: u64,
    /// Length of the sample data, octets.
    pub len: u64,
}

/// Why a file is no two-channel WAV file.
#[derive(Debug, Clone, Copy, PartialEq, Eq, Structural)]
pub enum WavError {
    /// Not a RIFF/WAVE file.
    NotWave,
    /// No fmt chunk.
    NoFormat,
    /// No data chunk.
    NoData,
    /// Not two channels (I, Q).
    Channels(u16),
}

/// The four characters of a chunk name.
pub open spec fn tag_at(head: Seq<u8>, pos: int, a: u8, b: u8, c: u8, d: u8) -> bool {
    head[pos] == a && head[pos + 1] == b && head[pos + 2] == c && head[pos + 3] == d
}

fn has_tag(head: &[u8], pos: usize, a: u8, b: u8, c: u8, d: u8) -> (r: bool)
    requires
        pos + 4 <= head@.len(),
    ensures
        r == tag_at(head@, pos as int, a, b, c, d),
{
    head[pos] == a && head[pos + 1] == b && head[pos + 2] == c && head[pos + 3] == d
}

/// A RIFF/WAVE file starts like this.
pub open spec fn is_wave(head: Seq<u8>) -> bool {
    head.len() >= 12 && tag_at(head, 0, 0x52, 0x49, 0x46, 0x46) && tag_at(
        head,
        8,
        0x57,
        0x41,
        0x56,
        0x45,
    )
}

/// The fmt chunk body at `body`.
pub open spec fn format_at(head: Seq<u8>, body: int) -> WavFormat {
    WavFormat {
        tag: at16(head, body) as u16,
        channels: at16(head, body + 2) as u16,
        rate: at32(head, body + 4) as u32,
        bits: at16(head, body + 14) as u16,
    }
}

/// There is a whole fmt chunk at `pos`.
pub open spec fn format_chunk(head: Seq<u8>, pos: int) -> bool {
    tag_at(head, pos, 0x66, 0x6D, 0x74, 0x20) && at32(head, pos + 4) >= 16 && pos + 24 <= head.len()
}

/// Walk the chunks from `pos` on: the last fmt chunk before the data chunk, and
/// the data chunk's start and length (clamped to the file, since some recorders
/// write a bogus size for > 4 GB files). Chunks are padded to even sizes.
pub open spec fn chunks_from(head: Seq<u8>, file_len: int, pos: int, fmt: Option<WavFormat>) -> (Option<
    WavFormat,
>, Option<(int, int)>)
    decreases (if head.len() > pos { head.len() - pos } else { 0 }),
{
    if pos < 0 || pos + 8 > head.len() {
        (fmt, None)
    } else {
        let size = at32(head, pos + 4);
        let body = pos + 8;
        let next = body + size + size % 2;
        if size < 0 {
            (fmt, None)
        } else if format_chunk(head, pos) {
            chunks_from(head, file_len, next, Some(format_at(head, body)))
        } else if tag_at(head, pos, 0x64, 0x61, 0x74, 0x61) {
            (fmt, Some((body, if size < file_len - body {
                size
            } else {
                file_len - body
            })))
        } else {
            chunks_from(head, file_len, next, fmt)
        }
    }
}

/// What the start of a WAV file says.
pub open spec fn spec_parse_wav(head: Seq<u8>, file_len: int) -> Result<WavInfo, WavError> {
    if !is_wave(head) {
        Err(WavError::NotWave)
    } else {
        match chunks_from(head, file_len, 12, None) {
            (None, _) => Err(WavError::NoFormat),
            (Some(_), None) => Err(WavError::NoData),
            (Some(format), Some((start, len))) => if format.channels != 2 {
                Err(WavError::Channels(format.channels))
            } else {
                Ok(WavInfo { format, start: start as u64, len: len as u64 })
            },
        }
    }
}

/// Two-channel (I, Q) WAV as written by SDR#, SDRuno, GQRX etc.: find the
/// format and the sample data from the first octets of the file (`head`) and
/// its length.
pub fn parse_wav(head: &[u8], file_len: u64) -> (r: Result<WavInfo, WavError>)
    requires
        head@.len() <= file_len,
        head@.len() <= isize::MAX,
    ensures
        r == spec_parse_wav(head@, file_len as int),
        r matches Ok(w) ==> w.start + w.len <= file_len,
{
    if head.len() < 12 || !has_tag(head, 0, 0x52, 0x49, 0x46, 0x46) || !has_tag(
        head,
        8,
        0x57,
        0x41,
        0x56,
        0x45,
    ) {
        return Err(WavError::NotWave);
    }
    let mut pos: u64 = 12;
    let mut fmt: Option<WavFormat> = None;
    let mut data: Option<(u64, u64)> = None;
    let n: u64 = head.len() as u64;
    while pos + 8 <= n
        invariant_except_break
            data is None,
            chunks_from(head@, file_len as int, 12, None) == chunks_from(
                head@,
                file_len as int,
                pos as int,
                fmt,
            ),
        invariant
            n == head@.len() <= file_len,
            n <= isize::MAX,
            pos <= isize::MAX + 0x1_0000_0010,
        ensures
            match data {
                Some((start, len)) => start + len <= file_len && chunks_from(
                    head@,
                    file_len as int,
                    12,
                    None,
                ) == (fmt, Some((start as int, len as int))),
                None => chunks_from(head@, file_len as int, 12, None) == (
                    fmt,
                    None::<(int, int)>,
                ),
            },
        decreases (if n > pos { n - pos } else { 0 }),
    {
        let p: usize = pos as usize;
        let size: u64 = read_le32(head, p + 4) as u64;
        let body: u64 = pos + 8;
        if has_tag(head, p, 0x66, 0x6D, 0x74, 0x20) && size >= 16 && body + 16 <= n {
            let b: usize = body as usize;
            fmt =
            Some(
                WavFormat {
                    tag: read_le16(head, b),
                    channels: read_le16(head, b + 2),
                    rate: read_le32(head, b + 4),
                    bits: read_le16(head, b + 14),
                },
            );
        } else if has_tag(head, p, 0x64, 0x61, 0x74, 0x61) {
            let left: u64 = file_len - body;
            let len: u64 = if size < left {
                size
            } else {
                left
            };
            data = Some((body, len));
            break;
        }
        pos = body + size + size % 2;
    }
    let format: WavFormat = match fmt {
        Some(f) => f,
        None => {
            return Err(WavError::NoFormat);
        },
    };
    let (start, len) = match data {
        Some(d) => d,
        None => {
            return Err(WavError::NoData);
        },
    };
    if format.channels != 2 {
        return Err(WavError::Channels(format.channels));
    }
    Ok(WavInfo { format, start, len })
}

impl WavInfo {
    /// Octets per I,Q pair.
    pub open spec fn pair_len(&self) -> int {
        2 * (self.format.bits / 8)
    }

    /// Octets per I,Q pair.
    pub fn pair_octets(&self) -> (n: usize)
        ensures
            n == self.pair_len(),
    {
        (self.format.bits / 8) as usize * 2
    }

    /// The window that `skip` and `max` select: offset in the file of its first
    /// octet, and its pairs.
    pub fn sample_window(&self, skip: usize, max: Option<usize>) -> (w: (u64, usize))
        requires
            self.format.bits >= 8,
            self.len <= usize::MAX,
            self.start + self.len <= u64::MAX,
        ensures
            ({
                let (first, count) = window_of(
                    self.len as int / self.pair_len(),
                    skip as int,
                    max,
                );
                &&& w.0 == self.start + first * self.pair_len()
                &&& w.1 == count
                &&& w.0 + count * self.pair_len() <= self.start + self.len
            }),
    {
        let bps: usize = self.pair_octets();
        let (first, count) = window(self.len as usize / bps, skip, max);
        proof {
            let total = self.len as int / bps as int;
            assert(0 <= first * bps && (first + count) * bps <= self.len && first * bps + count * bps
                == (first + count) * bps && 0 <= count * bps) by (nonlinear_arith)
                requires
                    0 <= first,
                    0 <= count,
                    first + count <= total,
                    total == self.len as int / bps as int,
                    bps > 0,
            ;
        }
        (self.start + (first * bps) as u64, count)
    }
}

/// How the samples of a WAV file are coded.
#[derive(Debug, Clone, Copy, PartialEq, Eq, Structural)]
pub enum WavCoding {
    /// 16-bit PCM, full scale 32768.
    I16,
    /// 32-bit float, as bit patterns.
    F32,
    /// 32-bit PCM, full scale 2147483648.
    I32,
    /// 8-bit PCM around 128, full scale 128.
    U8,
    /// Not understood: read as zeros.
    Unknown,
}

impl WavFormat {
    /// How the samples are coded.
    pub open spec fn spec_coding(&self) -> WavCoding {
        if self.bits == 16 {
            WavCoding::I16
        } else if self.bits == 32 {
            if self.tag == 3 {
                WavCoding::F32
            } else {
                WavCoding::I32
            }
        } else if self.bits == 8 {
            WavCoding::U8
        } else {
            WavCoding::Unknown
        }
    }

    /// How the samples are coded.
    pub fn coding(&self) -> (c: WavCoding)
        ensures
            c == self.spec_coding(),
    {
        if self.bits == 16 {
            WavCoding::I16
        } else if self.bits == 32 {
            if self.tag == 3 {
                WavCoding::F32
            } else {
                WavCoding::I32
            }
        } else if self.bits == 8 {
            WavCoding::U8
        } else {
            WavCoding::Unknown
        }
    }
}

/// The values of the I,Q pair at `at`: signed integers, or the bit patterns of
/// floats.
pub open spec fn pair_at(coding: WavCoding, raw: Seq<u8>, at: int) -> (int, int) {
    match coding {
        WavCoding::I16 => (signed16(at16(raw, at)), signed16(at16(raw, at + 2))),
        WavCoding::F32 => (at32(raw, at), at32(raw, at + 4)),
        WavCoding::I32 => (signed32(at32(raw, at)), signed32(at32(raw, at + 4))),
        WavCoding::U8 => (raw[at] - 128, raw[at + 1] - 128),
        WavCoding::Unknown => (0, 0),
    }
}

/// The whole I,Q pairs in some octets.
pub open spec fn decoded_wav(format: WavFormat, raw: Seq<u8>) -> Seq<(i64, i64)> {
    let bps = 2 * (format.bits / 8) as int;
    Seq::new(
        (raw.len() as int / bps) as nat,
        |i: int|
            {
                let v = pair_at(format.spec_coding(), raw, i * bps);
                (v.0 as i64, v.1 as i64)
            },
    )
}

/// Decode whole I,Q pairs.
pub fn decode_wav(format: &WavFormat, raw: &[u8]) -> (out: Vec<(i64, i64)>)
    requires
        format.bits >= 8,
    ensures
        out@ == decoded_wav(*format, raw@),
        ({
            let bps = 2 * (format.bits / 8) as int;
            &&& out@.len() == raw@.len() as int / bps
            &&& forall|i: int|
                0 <= i < out@.len() ==> {
                    let v = #[trigger] out@[i];
                    (v.0 as int, v.1 as int) == pair_at(format.spec_coding(), raw@, i * bps)
                }
        }),
{
    let bps: usize = (format.bits / 8) as usize * 2;
    let coding: WavCoding = format.coding();
    let n: usize = raw.len() / bps;
    let mut out: Vec<(i64, i64)> = Vec::with_capacity(n);
    for i in 0..n
        invariant
            bps == 2 * (format.bits / 8),
            bps > 0,
            coding == format.spec_coding(),
            n == raw@.len() as int / bps as int,
            raw@.len() <= usize::MAX,
            out@.len() == i,
            forall|k: int|
                0 <= k < i ==> {
                    let v = #[trigger] out@[k];
                    (v.0 as int, v.1 as int) == pair_at(coding, raw@, k * bps)
                },
    {
        proof {
            assert(0 <= i * bps && i * bps + bps <= raw@.len()) by (nonlinear_arith)
                requires
                    0 <= i,
                    i + 1 <= n,
                    n == raw@.len() as int / bps as int,
                    bps > 0,
            ;
        }
        let at: usize = i * bps;
        let v: (i64, i64) = match coding {
            WavCoding::I16 => (read_i16(raw, at) as i64, read_i16(raw, at + 2) as i64),
            WavCoding::F32 => (read_le32(raw, at) as i64, read_le32(raw, at + 4) as i64),
            WavCoding::I32 => (read_i32(raw, at) as i64, read_i32(raw, at + 4) as i64),
            WavCoding::U8 => (raw[at] as i64 - 128, raw[at + 1] as i64 - 128),
            WavCoding::Unknown => (0, 0),
        };
        out.push(v);
    }
    proof {
        assert(out@ =~= decoded_wav(*format, raw@));
    }
    out
}

impl WavInfo {
    /// The I,Q pairs that `skip` and `max` select of a file with these octets:
    /// those of the window that [`WavInfo::sample_window`] gives.
    pub open spec fn read(&self, file: Seq<u8>, skip: int, max: Option<usize>) -> Seq<(i64, i64)> {
        let (first, count) = window_of(self.len as int / self.pair_len(), skip, max);
        let at = self.start + first * self.pair_len();
        decoded_wav(self.format, file.subrange(at, at + count * self.pair_len()))
    }
}

/// Part of the octets decodes to that part of the pairs.
proof fn lemma_decoded_part(format: WavFormat, raw: Seq<u8>, first: int, count: int)
    requires
        format.bits >= 8,
        0 <= first,
        0 <= count,
        first + count <= raw.len() as int / (2 * (format.bits / 8) as int),
    ensures
        ({
            let bps = 2 * (format.bits / 8) as int;
            decoded_wav(format, raw.subrange(first * bps, first * bps + count * bps))
                == decoded_wav(format, raw).subrange(first, first + count)
        }),
{
    let bps = 2 * (format.bits / 8) as int;
    let total = raw.len() as int / bps;
    assert(0 <= first * bps && 0 <= count * bps && first * bps + count * bps <= raw.len())
        by (nonlinear_arith)
        requires
            0 <= first,
            0 <= count,
            first + count <= total,
            total == raw.len() as int / bps,
            bps > 0,
    ;
    let part = raw.subrange(first * bps, first * bps + count * bps);
    assert(part.len() as int / bps == count) by (nonlinear_arith)
        requires
            part.len() == count * bps,
            bps > 0,
    ;
    let whole = decoded_wav(format, raw).subrange(first, first + count);
    assert forall|i: int| 0 <= i < count implies #[trigger] decoded_wav(format, part)[i]
        == whole[i] by {
        assert((first + i) * bps == first * bps + i * bps && 0 <= i * bps && i * bps + bps <= count
            * bps) by (nonlinear_arith)
            requires
                0 <= i < count,
                bps > 0,
        ;
        let at = i * bps;
        assert(forall|k: int| 0 <= k < bps ==> #[trigger] part[at + k] == raw[first * bps + at + k]);
        assert(part[at + 0] == raw[first * bps + at + 0]);
        assert(part[at + 1] == raw[first * bps + at + 1]);
        if bps >= 4 {
            assert(part[at + 2] == raw[first * bps + at + 2]);
            assert(part[at + 3] == raw[first * bps + at + 3]);
        }
        if bps >= 8 {
            assert(part[at + 4] == raw[first * bps + at + 4]);
            assert(part[at + 5] == raw[first * bps + at + 5]);
            assert(part[at + 6] == raw[first * bps + at + 6]);
            assert(part[at + 7] == raw[first * bps + at + 7]);
        }
    }
    assert(decoded_wav(format, part) =~= whole);
}

/// Reading a part of a recording gives that part of the whole recording: from
/// pair `skip` on (or none, where there are not so many), at most `max` pairs.
/// The whole recording is what the data chunk decodes to.
pub proof fn lemma_part_of_recording(w: WavInfo, file: Seq<u8>, skip: usize, max: Option<usize>)
    requires
        w.format.bits >= 8,
        w.start + w.len <= file.len(),
    ensures
        ({
            let total = w.len as int / w.pair_len();
            let whole = w.read(file, 0, None);
            let first = if skip < total {
                skip as int
            } else {
                total
            };
            let count = match max {
                Some(n) => if n < total - first {
                    n as int
                } else {
                    total - first
                },
                None => total - first,
            };
            &&& whole == decoded_wav(
                w.format,
                file.subrange(w.start as int, w.start + w.len as int),
            )
            &&& whole.len() == total
            &&& w.read(file, skip as int, max) == whole.subrange(first, first + count)
        }),
{
    let bps = w.pair_len();
    let total = w.len as int / bps;
    let data = file.subrange(w.start as int, w.start + w.len as int);
    assert(0 <= total) by (nonlinear_arith)
        requires
            total == w.len as int / bps,
            bps > 0,
    ;
    let (first, count) = window_of(total, skip as int, max);
    lemma_decoded_part(w.format, data, 0, total);
    lemma_decoded_part(w.format, data, first, count);
    assert(0 <= first * bps && 0 <= count * bps && first * bps + count * bps <= w.len && 0 <= total
        * bps <= w.len && 0 * bps == 0) by (nonlinear_arith)
        requires
            0 <= first,
            0 <= count,
            first + count <= total,
            total == w.len as int / bps,
            bps > 0,
    ;
    assert(data.subrange(first * bps, first * bps + count * bps) =~= file.subrange(
        w.start + first * bps,
        w.start + first * bps + count * bps,
    ));
    assert(data.subrange(0 * bps, 0 * bps + total * bps) =~= file.subrange(
        w.start + 0 * bps,
        w.start + 0 * bps + total * bps,
    ));
    assert(decoded_wav(w.format, data).subrange(0, total) =~= decoded_wav(w.format, data));
}

} // verus!
