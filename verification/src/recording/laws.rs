//! What a recording holds, on its octets: the samples of each coding, the chunks
//! of a WAV file, the selected window, the names of files and sample types.

use crate::octets::at32;
use crate::recording::{chunks_from, decoded_wav, kind_of, sample_type_of, spec_parse_wav, window_of};
use crate::recording::{has_suffix_any_case, FileKind, SampleType, WavCoding, WavError, WavFormat, WavInfo};
use crate::text::has_suffix;
use vstd::prelude::*;

verus! {

/// A float WAV file (format tag 3, 32 bits) holds eight octets per pair: the
/// little-endian word of the first channel is I, that of the second is Q. These
/// are the octets and the order of raw complex 32-bit floats.
pub proof fn lemma_wav_float_pairs(format: WavFormat, raw: Seq<u8>, i: int)
    requires
        format.tag == 3,
        format.bits == 32,
        0 <= i < raw.len() / 8,
    ensures
        decoded_wav(format, raw).len() == raw.len() / 8,
        decoded_wav(format, raw)[i].0 == raw[8 * i] + 256 * raw[8 * i + 1] + 65536 * raw[8 * i + 2]
            + 16777216 * raw[8 * i + 3],
        decoded_wav(format, raw)[i].1 == raw[8 * i + 4] + 256 * raw[8 * i + 5] + 65536 * raw[8 * i
            + 6] + 16777216 * raw[8 * i + 7],
{
}

/// A WAV file of 32-bit integers (any other format tag) holds eight octets per
/// pair: I is the first channel's little-endian word as a two's-complement
/// number, Q the second's.
pub proof fn lemma_wav_i32_pairs(format: WavFormat, raw: Seq<u8>, i: int)
    requires
        format.tag != 3,
        format.bits == 32,
        0 <= i < raw.len() / 8,
    ensures
        decoded_wav(format, raw).len() == raw.len() / 8,
        ({
            let v = decoded_wav(format, raw)[i];
            let a = raw[8 * i] + 256 * raw[8 * i + 1] + 65536 * raw[8 * i + 2] + 16777216 * raw[8 * i
                + 3];
            let b = raw[8 * i + 4] + 256 * raw[8 * i + 5] + 65536 * raw[8 * i + 6] + 16777216 * raw[8
                * i + 7];
            &&& v.0 == if raw[8 * i + 3] >= 128 { a - 4294967296 } else { a }
            &&& v.1 == if raw[8 * i + 7] >= 128 { b - 4294967296 } else { b }
        }),
{
}

/// A WAV file of 16-bit integers holds four octets per pair: I is the first
/// channel's little-endian value as a two's-complement number, Q the second's.
pub proof fn lemma_wav_i16_pairs(format: WavFormat, raw: Seq<u8>, i: int)
    requires
        format.bits == 16,
        0 <= i < raw.len() / 4,
    ensures
        decoded_wav(format, raw).len() == raw.len() / 4,
        ({
            let v = decoded_wav(format, raw)[i];
            let a = raw[4 * i] + 256 * raw[4 * i + 1];
            let b = raw[4 * i + 2] + 256 * raw[4 * i + 3];
            &&& v.0 == if raw[4 * i + 1] >= 128 { a - 65536 } else { a }
            &&& v.1 == if raw[4 * i + 3] >= 128 { b - 65536 } else { b }
        }),
{
}

/// A WAV file of 8-bit samples holds two octets per pair, I then Q, around 128.
pub proof fn lemma_wav_u8_pairs(format: WavFormat, raw: Seq<u8>, i: int)
    requires
        format.bits == 8,
        0 <= i < raw.len() / 2,
    ensures
        decoded_wav(format, raw).len() == raw.len() / 2,
        decoded_wav(format, raw)[i].0 == raw[2 * i] - 128,
        decoded_wav(format, raw)[i].1 == raw[2 * i + 1] - 128,
{
}

/// Samples of any other width are read as zeros, one pair for as many octets as
/// two samples take.
pub proof fn lemma_wav_other_pairs(format: WavFormat, raw: Seq<u8>, i: int)
    requires
        format.bits > 8,
        format.bits != 16,
        format.bits != 32,
        0 <= i < raw.len() as int / (2 * (format.bits / 8)),
    ensures
        decoded_wav(format, raw).len() == raw.len() as int / (2 * (format.bits / 8)),
        decoded_wav(format, raw)[i] == (0i64, 0i64),
{
}

/// The selected window lies within the samples, starts at `skip` where there is
/// such a sample, and is as long as the samples and `max` allow.
pub proof fn lemma_window(total: int, skip: int, max: Option<usize>)
    requires
        0 <= total,
        0 <= skip,
    ensures
        ({
            let (first, count) = window_of(total, skip, max);
            &&& 0 <= first && 0 <= count && first + count <= total
            &&& skip <= total ==> first == skip
            &&& skip >= total ==> count == 0
            &&& match max {
                Some(n) => count <= n && (first + count == total || count == n),
                None => first + count == total,
            }
        }),
{
}

/// A file is no WAV file exactly where it does not start with `RIFF`, four
/// octets, `WAVE`.
pub proof fn lemma_wave_magic(head: Seq<u8>, file_len: int)
    ensures
        spec_parse_wav(head, file_len) == Err::<WavInfo, WavError>(WavError::NotWave) <==> !(
        head.len() >= 12 && head[0] == 0x52 && head[1] == 0x49 && head[2] == 0x46 && head[3] == 0x46
            && head[8] == 0x57 && head[9] == 0x41 && head[10] == 0x56 && head[11] == 0x45),
{
}

/// One step of the walk over the chunks of a WAV file. A chunk is a name of four
/// octets, a little-endian size and as many octets, padded to an even number. A
/// `fmt ` chunk that has its 16 octets gives the format; a `data` chunk ends the
/// walk, and its samples go no further than the file; any other is passed over.
pub proof fn lemma_chunk_step(head: Seq<u8>, file_len: int, pos: int, fmt: Option<WavFormat>)
    requires
        0 <= pos,
        pos + 8 <= head.len() <= file_len,
    ensures
        ({
            let size = head[pos + 4] + 256 * head[pos + 5] + 65536 * head[pos + 6] + 16777216
                * head[pos + 7];
            let next = pos + 8 + size + size % 2;
            let r = chunks_from(head, file_len, pos, fmt);
            let is_fmt = head[pos] == 0x66 && head[pos + 1] == 0x6D && head[pos + 2] == 0x74 && head[pos
                + 3] == 0x20 && size >= 16 && pos + 24 <= head.len();
            let is_data = head[pos] == 0x64 && head[pos + 1] == 0x61 && head[pos + 2] == 0x74
                && head[pos + 3] == 0x61;
            &&& is_fmt ==> exists|f: WavFormat|
                {
                    &&& r == #[trigger] chunks_from(head, file_len, next, Some(f))
                    &&& f.tag == head[pos + 8] + 256 * head[pos + 9]
                    &&& f.channels == head[pos + 10] + 256 * head[pos + 11]
                    &&& f.rate == head[pos + 12] + 256 * head[pos + 13] + 65536 * head[pos + 14]
                        + 16777216 * head[pos + 15]
                    &&& f.bits == head[pos + 22] + 256 * head[pos + 23]
                }
            &&& is_data ==> {
                &&& r.0 == fmt
                &&& r.1 is Some
                &&& (r.1->0).0 == pos + 8
                &&& (r.1->0).1 <= size
                &&& (r.1->0).0 + (r.1->0).1 <= file_len
                &&& (r.1->0).1 == size || (r.1->0).0 + (r.1->0).1 == file_len
            }
            &&& !is_fmt && !is_data ==> r == chunks_from(head, file_len, next, fmt)
        }),
{
    let size = at32(head, pos + 4);
    let next = pos + 8 + size + size % 2;
    let f = crate::recording::format_at(head, pos + 8);
    if crate::recording::format_chunk(head, pos) {
        assert(chunks_from(head, file_len, pos, fmt) == chunks_from(head, file_len, next, Some(f)));
        assert(f.tag == head[pos + 8] + 256 * head[pos + 9]);
        assert(f.channels == head[pos + 10] + 256 * head[pos + 11]);
        assert(f.bits == head[pos + 22] + 256 * head[pos + 23]);
    }
}

/// The walk starts behind the twelve octets of the file header; without a
/// `fmt ` chunk, without a `data` chunk and with other than two channels the
/// file is refused, in this order.
pub proof fn lemma_wav_outcome(head: Seq<u8>, file_len: int)
    requires
        spec_parse_wav(head, file_len) != Err::<WavInfo, WavError>(WavError::NotWave),
    ensures
        ({
            let (format, data) = chunks_from(head, file_len, 12, None);
            match spec_parse_wav(head, file_len) {
                Err(WavError::NotWave) => false,
                Err(WavError::NoFormat) => format is None,
                Err(WavError::NoData) => format is Some && data is None,
                Err(WavError::Channels(n)) => {
                    &&& format matches Some(f) && f.channels == n && n != 2
                    &&& data is Some
                },
                Ok(w) => {
                    &&& w.format.channels == 2
                    &&& format == Some(w.format)
                    &&& data matches Some(d) && (0 <= d.0 <= u64::MAX && 0 <= d.1 <= u64::MAX
                        ==> w.start == d.0 && w.len == d.1)
                },
            }
        }),
{
}

/// `name` ends with these letters where its last ones are these.
proof fn lemma_ends(name: Seq<char>, pat: Seq<char>)
    requires
        pat.len() <= name.len(),
        forall|k: int| 0 <= k < pat.len() ==> name[name.len() - pat.len() + k] == pat[k],
    ensures
        has_suffix(name, pat),
{
    assert(name.subrange(name.len() - pat.len(), name.len() as int) =~= pat);
}

/// A name that ends with `.sigmf`, as written, is a SigMF archive; one that ends
/// with `.sigmf-data` is SigMF data.
pub proof fn lemma_kind_sigmf(stem: Seq<char>)
    ensures
        kind_of(stem + seq!['.', 's', 'i', 'g', 'm', 'f']) == FileKind::SigmfArchive,
        kind_of(stem + seq!['.', 's', 'i', 'g', 'm', 'f', '-', 'd', 'a', 't', 'a'])
            == FileKind::SigmfData,
{
    reveal_strlit(".sigmf");
    reveal_strlit(".sigmf-data");
    let a = stem + seq!['.', 's', 'i', 'g', 'm', 'f'];
    let b = stem + seq!['.', 's', 'i', 'g', 'm', 'f', '-', 'd', 'a', 't', 'a'];
    lemma_ends(a, ".sigmf"@);
    lemma_ends(b, ".sigmf-data"@);
    assert(b[b.len() - 1] == 'a' && ".sigmf"@[5] == 'f');
}

/// A name that ends with `.wav`, in any case, is a WAV file.
pub proof fn lemma_kind_wav(stem: Seq<char>, w: char, a: char, v: char)
    requires
        w == 'w' || w == 'W',
        a == 'a' || a == 'A',
        v == 'v' || v == 'V',
    ensures
        kind_of(stem + seq!['.', w, a, v]) == FileKind::Wav,
{
    reveal_strlit(".sigmf");
    reveal_strlit(".sigmf-data");
    reveal_strlit(".wav");
    let n = stem + seq!['.', w, a, v];
    assert(n[n.len() - 1] == v && ".sigmf"@[5] == 'f' && ".sigmf-data"@[10] == 'a');
    assert(n.skip(n.len() - 4) =~= seq!['.', w, a, v]);
    assert(".wav"@ =~= seq!['.', 'w', 'a', 'v']);
}

/// A name that ends with `.ci16` or `.cs16`, as written, holds complex 16-bit
/// integers.
pub proof fn lemma_kind_ci16(stem: Seq<char>)
    ensures
        kind_of(stem + seq!['.', 'c', 'i', '1', '6']) == FileKind::Ci16,
        kind_of(stem + seq!['.', 'c', 's', '1', '6']) == FileKind::Ci16,
{
    reveal_strlit(".sigmf");
    reveal_strlit(".sigmf-data");
    reveal_strlit(".wav");
    reveal_strlit(".ci16");
    reveal_strlit(".cs16");
    let a = stem + seq!['.', 'c', 'i', '1', '6'];
    let b = stem + seq!['.', 'c', 's', '1', '6'];
    lemma_ends(a, ".ci16"@);
    lemma_ends(b, ".cs16"@);
    lemma_not_wav(a);
    lemma_not_wav(b);
    assert(".sigmf"@[5] == 'f' && ".sigmf-data"@[10] == 'a');
}

/// A name that ends with none of the last letters of these endings holds complex
/// 32-bit floats.
pub proof fn lemma_kind_other(name: Seq<char>)
    requires
        name.len() > 0 ==> name.last() != 'f' && name.last() != 'a' && name.last() != 'v'
            && name.last() != 'V' && name.last() != '6',
    ensures
        kind_of(name) == FileKind::Cf32,
{
    reveal_strlit(".sigmf");
    reveal_strlit(".sigmf-data");
    reveal_strlit(".wav");
    reveal_strlit(".ci16");
    reveal_strlit(".cs16");
    lemma_not_wav(name);
    assert(".sigmf"@[5] == 'f' && ".sigmf-data"@[10] == 'a');
    assert(".ci16"@[4] == '6' && ".cs16"@[4] == '6');
}

proof fn lemma_not_wav(name: Seq<char>)
    requires
        name.len() > 0 ==> name.last() != 'v' && name.last() != 'V',
    ensures
        !has_suffix_any_case(name, ".wav"@),
{
    reveal_strlit(".wav");
    if name.len() >= 4 {
        let t = name.skip(name.len() - 4);
        assert(t[3] == name.last());
        assert(".wav"@[3] == 'v');
    }
}

/// Two sample types can be read, each under two names, and no other.
pub proof fn lemma_sample_types(name: Seq<char>)
    ensures
        sample_type_of(name) == Some(SampleType::Ci16) <==> name == seq!['c', 'i', '1', '6', '_', 'l', 'e']
            || name == seq!['c', 'i', '1', '6'],
        sample_type_of(name) == Some(SampleType::Cf32) <==> name == seq!['c', 'f', '3', '2', '_', 'l', 'e']
            || name == seq!['c', 'f', '3', '2'],
{
    reveal_strlit("ci16_le");
    reveal_strlit("ci16");
    reveal_strlit("cf32_le");
    reveal_strlit("cf32");
    assert("ci16_le"@ =~= seq!['c', 'i', '1', '6', '_', 'l', 'e']);
    assert("ci16"@ =~= seq!['c', 'i', '1', '6']);
    assert("cf32_le"@ =~= seq!['c', 'f', '3', '2', '_', 'l', 'e']);
    assert("cf32"@ =~= seq!['c', 'f', '3', '2']);
    if name == "cf32_le"@ {
        assert(name[1] == 'f');
    }
    if name == "cf32"@ {
        assert(name[1] == 'f');
    }
    if name == "ci16_le"@ || name == "ci16"@ {
        assert(name[1] == 'i');
    }
}

/// The coding of WAV samples by their width, at 32 bits also by the format tag: 3 is
/// float. A pair takes two samples' octets.
pub proof fn lemma_codings(w: WavInfo)
    ensures
        w.format.spec_coding() == WavCoding::I16 <==> w.format.bits == 16,
        w.format.spec_coding() == WavCoding::F32 <==> w.format.bits == 32 && w.format.tag == 3,
        w.format.spec_coding() == WavCoding::I32 <==> w.format.bits == 32 && w.format.tag != 3,
        w.format.spec_coding() == WavCoding::U8 <==> w.format.bits == 8,
        w.format.bits == 8 ==> w.pair_len() == 2,
        w.format.bits == 16 ==> w.pair_len() == 4,
        w.format.bits == 32 ==> w.pair_len() == 8,
{
}

} // verus!
