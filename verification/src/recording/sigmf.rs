//! SigMF metadata and archives, and frequencies in file names.

use crate::text::{chars_of, ends_with, find, find_in, has_suffix, parse_unsigned};
use crate::text::{lemma_unsigned_bound, push_all, string_of, trim, trimmed, unsigned_value};
use vstd::prelude::*;

pub mod laws;

verus! {

/// The text behind the first occurrence of `key`.
pub open spec fn behind(text: Seq<char>, key: Seq<char>) -> Option<Seq<char>> {
    match find_in(text, key) {
        Some(i) => Some(text.skip(i + key.len())),
        None => None,
    }
}

/// The string value behind `key`: what stands between the next two quotes.
pub open spec fn string_behind(text: Seq<char>, key: Seq<char>) -> Option<Seq<char>> {
    match behind(text, key) {
        None => None,
        Some(rest) => match behind(rest, "\""@) {
            None => None,
            Some(value) => match find_in(value, "\""@) {
                None => None,
                Some(end) => Some(value.take(end)),
            },
        },
    }
}

/// A decimal digit.
pub open spec fn is_decimal(c: char) -> bool {
    '0' as int <= c as int && c as int <= '9' as int
}

/// A character that starts a number.
pub open spec fn starts_number(c: char) -> bool {
    is_decimal(c) || c == '-' || c == '.'
}

/// A character that may stand in a number.
pub open spec fn in_number(c: char) -> bool {
    is_decimal(c) || c == '-' || c == '.' || c == 'e' || c == 'E' || c == '+'
}

/// `s` from the first character on that starts a number.
pub open spec fn from_number(s: Seq<char>) -> Seq<char>
    decreases s.len(),
{
    if s.len() == 0 || starts_number(s[0]) {
        s
    } else {
        from_number(s.drop_first())
    }
}

/// The characters at the start of `s` that may stand in a number.
pub open spec fn number_run(s: Seq<char>) -> Seq<char>
    decreases s.len(),
{
    if s.len() == 0 || !in_number(s[0]) {
        Seq::empty()
    } else {
        seq![s[0]] + number_run(s.drop_first())
    }
}

/// The number behind `key`, as text.
pub open spec fn number_behind(text: Seq<char>, key: Seq<char>) -> Option<Seq<char>> {
    match behind(text, key) {
        None => None,
        Some(rest) => {
            let n = from_number(rest);
            if n.len() == 0 {
                None
            } else {
                Some(number_run(n))
            }
        },
    }
}

fn decimal_digit(c: char) -> (b: bool)
    ensures
        b == is_decimal(c),
{
    let u: u32 = c as u32;
    48 <= u && u <= 57
}

/// Copy `s` from `from` on.
fn tail_of(s: &[char], from: usize) -> (t: Vec<char>)
    requires
        from <= s@.len(),
    ensures
        t@ == s@.skip(from as int),
{
    let mut t: Vec<char> = Vec::with_capacity(s.len() - from);
    push_all(&mut t, &s[from..s.len()]);
    proof {
        assert(t@ =~= s@.skip(from as int));
    }
    t
}

fn text_behind(text: &[char], key: &str) -> (r: Option<Vec<char>>)
    ensures
        match behind(text@, key@) {
            Some(t) => r matches Some(v) && v@ == t,
            None => r is None,
        },
{
    let k: Vec<char> = chars_of(key);
    match find(text, k.as_slice()) {
        None => None,
        Some(i) => Some(tail_of(text, i + k.len())),
    }
}

fn find_str(text: &[char], key: &str) -> (r: Option<String>)
    ensures
        match string_behind(text@, key@) {
            Some(t) => r matches Some(v) && v@ == t,
            None => r is None,
        },
{
    match text_behind(text, key) {
        None => None,
        Some(rest) => match text_behind(rest.as_slice(), "\"") {
            None => None,
            Some(value) => {
                let q: Vec<char> = chars_of("\"");
                match find(value.as_slice(), q.as_slice()) {
                    None => None,
                    Some(end) => {
                        let v = value.as_slice();
                        let part = &v[0..end];
                        proof {
                            assert(part@ =~= value@.take(end as int));
                        }
                        Some(string_of(part))
                    },
                }
            },
        },
    }
}

fn find_num(text: &[char], key: &str) -> (r: Option<String>)
    ensures
        match number_behind(text@, key@) {
            Some(t) => r matches Some(v) && v@ == t,
            None => r is None,
        },
{
    let rest: Vec<char> = match text_behind(text, key) {
        None => {
            return None;
        },
        Some(t) => t,
    };
    let mut i: usize = 0;
    proof {
        assert(rest@.skip(0) =~= rest@);
    }
    while i < rest.len() && !(decimal_digit(rest[i]) || rest[i] == '-' || rest[i] == '.')
        invariant
            i <= rest@.len(),
            from_number(rest@) == from_number(rest@.skip(i as int)),
        decreases rest@.len() - i,
    {
        proof {
            assert(rest@.skip(i as int).drop_first() =~= rest@.skip(i + 1));
        }
        i = i + 1;
    }
    if i >= rest.len() {
        return None;
    }
    let ghost number = rest@.skip(i as int);
    let mut run: Vec<char> = Vec::new();
    let mut k: usize = i;
    proof {
        assert(run@ + number_run(rest@.skip(k as int)) =~= number_run(number));
    }
    while k < rest.len() && (decimal_digit(rest[k]) || rest[k] == '-' || rest[k] == '.' || rest[k]
        == 'e' || rest[k] == 'E' || rest[k] == '+')
        invariant
            i <= k <= rest@.len(),
            run@ + number_run(rest@.skip(k as int)) == number_run(number),
        decreases rest@.len() - k,
    {
        let ghost before = run@;
        let ghost here = rest@.skip(k as int);
        run.push(rest[k]);
        proof {
            assert(here.drop_first() =~= rest@.skip(k + 1));
            assert(run@ + number_run(rest@.skip(k + 1)) =~= before + (seq![here[0]] + number_run(
                here.drop_first(),
            )));
        }
        k = k + 1;
    }
    proof {
        assert(run@ + number_run(rest@.skip(k as int)) =~= run@);
    }
    Some(string_of(run.as_slice()))
}

/// What a SigMF metadata file says.
#[derive(Debug, PartialEq, Eq)]
pub struct SigmfMeta {
    /// core:datatype.
    pub datatype: Option<String>,
    /// core:sample_rate, as text.
    pub sample_rate: Option<String>,
    /// The first capture's core:frequency, as text.
    pub frequency: Option<String>,
}

/// The value is that of the optional text.
pub open spec fn same_text(s: Option<String>, t: Option<Seq<char>>) -> bool {
    match t {
        Some(t) => s matches Some(v) && v@ == t,
        None => s is None,
    }
}

/// Minimal SigMF metadata scan: core:datatype, core:sample_rate, the first
/// capture core:frequency.
pub fn parse_sigmf_meta(meta: &str) -> (m: SigmfMeta)
    ensures
        same_text(m.datatype, string_behind(meta@, "\"core:datatype\""@)),
        same_text(m.sample_rate, number_behind(meta@, "\"core:sample_rate\""@)),
        same_text(m.frequency, number_behind(meta@, "\"core:frequency\""@)),
{
    let cs: Vec<char> = chars_of(meta);
    let text = cs.as_slice();
    SigmfMeta {
        datatype: find_str(text, "\"core:datatype\""),
        sample_rate: find_num(text, "\"core:sample_rate\""),
        frequency: find_num(text, "\"core:frequency\""),
    }
}

/// A member of a tar archive.
#[derive(Debug, Clone, Copy, PartialEq, Eq, Structural)]
pub enum TarMember {
    /// The `.sigmf-meta` file.
    Meta,
    /// The `.sigmf-data` file.
    Data,
    /// Anything else.
    Other,
}

/// What the header of a tar member says.
#[derive(Debug, Clone, Copy, PartialEq, Eq, Structural)]
pub struct TarEntry {
    pub member: TarMember,
    /// Octets of content.
    pub size: u64,
    /// Octets of content and padding, whole blocks of 512.
    pub padded: u64,
}

/// Which file a regular member (type `0` or NUL) is, by its name.
pub open spec fn member_of(name: Seq<char>, typeflag: u8) -> TarMember {
    if typeflag != 0x30 && typeflag != 0 {
        TarMember::Other
    } else if has_suffix(name, ".sigmf-meta"@) {
        TarMember::Meta
    } else if has_suffix(name, ".sigmf-data"@) {
        TarMember::Data
    } else {
        TarMember::Other
    }
}

/// The size that an octal field (up to 12 digits) gives; 0 where it is none.
pub open spec fn octal_size(text: Seq<char>) -> int {
    match unsigned_value(trimmed(text), 8, 0x0F_FFFF_FFFF) {
        Some(v) => v,
        None => 0,
    }
}

/// Read the header of a tar member: its name (without trailing NULs), the text
/// of its size field (without trailing NULs) and its type flag.
pub fn tar_entry(name: &str, size_text: &str, typeflag: u8) -> (e: TarEntry)
    ensures
        e.member == member_of(name@, typeflag),
        e.size == octal_size(size_text@),
        e.padded == (e.size + 511) / 512 * 512,
        e.size <= e.padded < e.size + 512,
{
    let n: Vec<char> = chars_of(name);
    let s: Vec<char> = chars_of(size_text);
    let digits: Vec<char> = trim(s.as_slice());
    let size: u64 = match parse_unsigned(digits.as_slice(), 8, 0x0F_FFFF_FFFF) {
        Some(v) => v,
        None => 0,
    };
    let member: TarMember = if typeflag != 0x30 && typeflag != 0 {
        TarMember::Other
    } else if ends_with(n.as_slice(), ".sigmf-meta") {
        TarMember::Meta
    } else if ends_with(n.as_slice(), ".sigmf-data") {
        TarMember::Data
    } else {
        TarMember::Other
    };
    proof {
        lemma_unsigned_bound(trimmed(size_text@), 8, 0x0F_FFFF_FFFF);
    }
    TarEntry { member, size, padded: (size + 511) / 512 * 512 }
}

/// What to do with a member: read `read` octets, then pass over `skip`, or stop
/// reading the archive.
#[derive(Debug, Clone, Copy, PartialEq, Eq, Structural)]
pub struct TarAction {
    pub read: u64,
    pub skip: u64,
    pub stop: bool,
}

/// Octets of sample data that a window needs at most: 8 per sample is an upper
/// bound for either datatype.
pub open spec fn wanted_octets(size: int, skip: int, max: Option<usize>) -> int {
    match max {
        Some(n) => if (skip + n) * 8 < size {
            (skip + n) * 8
        } else {
            size
        },
        None => size,
    }
}

impl TarEntry {
    /// What to do with this member when `skip` and `max` select a window of the
    /// samples: read the metadata, read the wanted start of the data (and stop
    /// there if that is not all of it), pass over anything else.
    pub fn action(&self, skip: usize, max: Option<usize>) -> (a: TarAction)
        requires
            self.size <= self.padded,
        ensures
            match self.member {
                TarMember::Meta => a == (TarAction {
                    read: self.size,
                    skip: (self.padded - self.size) as u64,
                    stop: false,
                }),
                TarMember::Data => {
                    let want = wanted_octets(self.size as int, skip as int, max);
                    &&& a.read == want
                    &&& a.stop == (want < self.size)
                    &&& a.skip == if a.stop {
                        0
                    } else {
                        self.padded - self.size
                    }
                },
                TarMember::Other => a == (TarAction { read: 0, skip: self.padded, stop: false }),
            },
    {
        match self.member {
            TarMember::Meta => TarAction {
                read: self.size,
                skip: self.padded - self.size,
                stop: false,
            },
            TarMember::Data => {
                let want: u64 = match max {
                    Some(n) => {
                        let bound: u128 = (skip as u128 + n as u128) * 8;
                        if bound < self.size as u128 {
                            bound as u64
                        } else {
                            self.size
                        }
                    },
                    None => self.size,
                };
                if want < self.size {
                    TarAction { read: want, skip: 0, stop: true }
                } else {
                    TarAction { read: want, skip: self.padded - self.size, stop: false }
                }
            },
            TarMember::Other => TarAction { read: 0, skip: self.padded, stop: false },
        }
    }
}

/// The parts of a name between underscores that end in `Hz`, without that
/// ending: where SDR#-style names carry the center frequency
/// ("..._862004550Hz_...").
pub open spec fn frequency_parts_of(name: Seq<char>) -> Seq<Seq<char>>
    decreases name.len(),
{
    let (part, rest) = match find_in(name, "_"@) {
        Some(i) => if 0 <= i < name.len() {
            (name.take(i), Some(name.skip(i + 1)))
        } else {
            (name, None)
        },
        None => (name, None),
    };
    let here = if has_suffix(part, "Hz"@) {
        seq![part.take(part.len() - 2)]
    } else {
        Seq::empty()
    };
    match rest {
        Some(r) => if r.len() < name.len() {
            here + frequency_parts_of(r)
        } else {
            here
        },
        None => here,
    }
}

/// The parts of a name between underscores that end in `Hz`, without that
/// ending.
pub fn frequency_parts(name: &str) -> (out: Vec<String>)
    ensures
        out@.len() == frequency_parts_of(name@).len(),
        forall|i: int| 0 <= i < out@.len() ==> (#[trigger] out@[i])@ == frequency_parts_of(name@)[i],
{
    let mut rest: Vec<char> = chars_of(name);
    let underscore: Vec<char> = chars_of("_");
    let mut out: Vec<String> = Vec::new();
    let ghost all = frequency_parts_of(name@);
    let mut more: bool = true;
    proof {
        reveal_strlit("_");
        reveal_strlit("Hz");
        assert(all =~= frequency_parts_of(rest@));
    }
    while more
        invariant
            underscore@ == "_"@,
            underscore@.len() == 1,
            "Hz"@.len() == 2,
            out@.len() <= all.len(),
            forall|i: int| 0 <= i < out@.len() ==> (#[trigger] out@[i])@ == all[i],
            more ==> all.skip(out@.len() as int) == frequency_parts_of(rest@),
            !more ==> out@.len() == all.len(),
        decreases rest@.len(), (if more { 1int } else { 0 }),
    {
        let ghost before = rest@;
        let ghost done = out@.len() as int;
        let at: Option<usize> = find(rest.as_slice(), underscore.as_slice());
        let end: usize = match at {
            Some(i) => i,
            None => rest.len(),
        };
        let s = rest.as_slice();
        let part = &s[0..end];
        proof {
            assert(part@ =~= before.take(end as int));
            assert(before.take(before.len() as int) =~= before);
        }
        let ends: bool = ends_with(part, "Hz");
        let ghost here = if ends {
            seq![part@.take(part@.len() - 2)]
        } else {
            Seq::<Seq<char>>::empty()
        };
        proof {
            let unfolded = match at {
                Some(i) => here + frequency_parts_of(before.skip(i + 1)),
                None => here,
            };
            assert(frequency_parts_of(before) == unfolded);
            assert(all.skip(done).len() == all.len() - done);
            assert(unfolded.len() >= here.len());
        }
        if ends {
            let stem = &part[0..part.len() - 2];
            proof {
                assert(stem@ =~= part@.take(part@.len() - 2));
                assert(all.skip(done)[0] == all[done]);
            }
            out.push(string_of(stem));
        }
        match at {
            Some(i) => {
                let tail: Vec<char> = tail_of(s, i + 1);
                proof {
                    assert(all.skip(done) =~= here + frequency_parts_of(tail@));
                    let k = here.len() as int;
                    assert(all.skip(done).skip(k) =~= frequency_parts_of(tail@));
                    assert(all.skip(done).skip(k) =~= all.skip(done + k));
                }
                rest = tail;
            },
            None => {
                more = false;
            },
        }
    }
    out
}

} // verus!
