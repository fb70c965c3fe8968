//! The SigMF metadata scan, the members of an archive and the frequency in a file
//! name, on their characters.

use crate::recording::sigmf::{frequency_parts_of, from_number, in_number, member_of};
use crate::recording::sigmf::{number_behind, number_run, octal_size, starts_number};
use crate::recording::sigmf::{same_text, string_behind, wanted_octets, TarMember};
use crate::text::{find_in, has_suffix, lemma_find_from, occurs_at, trimmed, unsigned_value};
use vstd::prelude::*;

verus! {

/// A single character is found where it first stands.
proof fn lemma_find_char(c: char, a: Seq<char>, b: Seq<char>)
    requires
        forall|i: int| 0 <= i < a.len() ==> #[trigger] a[i] != c,
    ensures
        find_in(a + seq![c] + b, seq![c]) == Some(a.len() as int),
        find_in(a, seq![c]) is None,
{
    let s = a + seq![c] + b;
    let n = a.len() as int;
    lemma_find_from(s, seq![c], 0);
    lemma_find_from(a, seq![c], 0);
    assert(s.subrange(n, n + 1) =~= seq![c]);
    assert(occurs_at(s, seq![c], n));
    match find_in(s, seq![c]) {
        Some(i) => {
            if i < n {
                assert(s.subrange(i, i + 1)[0] == s[i]);
                assert(s[i] == a[i]);
            } else if i > n {
                assert(!occurs_at(s, seq![c], n));
            }
        },
        None => {
            assert(!occurs_at(s, seq![c], n));
        },
    }
    match find_in(a, seq![c]) {
        Some(i) => {
            assert(a.subrange(i, i + 1)[0] == a[i]);
        },
        None => {},
    }
}

/// The string behind a key is what stands between the next two quotes.
pub proof fn lemma_string_value(
    head: Seq<char>,
    key: Seq<char>,
    gap: Seq<char>,
    value: Seq<char>,
    tail: Seq<char>,
)
    requires
        find_in(head + key + (gap + seq!['"'] + (value + seq!['"'] + tail)), key) == Some(
            head.len() as int,
        ),
        forall|i: int| 0 <= i < gap.len() ==> #[trigger] gap[i] != '"',
        forall|i: int| 0 <= i < value.len() ==> #[trigger] value[i] != '"',
    ensures
        string_behind(head + key + (gap + seq!['"'] + (value + seq!['"'] + tail)), key) == Some(
            value,
        ),
{
    reveal_strlit("\"");
    assert("\""@ =~= seq!['"']);
    let inner = value + seq!['"'] + tail;
    let rest = gap + seq!['"'] + inner;
    let text = head + key + rest;
    assert(text.skip(head.len() as int + key.len()) =~= rest);
    lemma_find_char('"', gap, inner);
    assert(rest.skip(gap.len() as int + 1) =~= inner);
    lemma_find_char('"', value, tail);
    assert(inner.take(value.len() as int) =~= value);
}

/// Without the key there is no value.
pub proof fn lemma_no_value(text: Seq<char>, key: Seq<char>)
    requires
        find_in(text, key) is None,
    ensures
        string_behind(text, key) is None,
        number_behind(text, key) is None,
{
}

/// The number behind a key starts with the next digit, minus sign or point and goes
/// on with digits, signs, points and the letters of an exponent.
pub proof fn lemma_number_value(
    head: Seq<char>,
    key: Seq<char>,
    gap: Seq<char>,
    value: Seq<char>,
    tail: Seq<char>,
)
    requires
        find_in(head + key + (gap + (value + tail)), key) == Some(head.len() as int),
        value.len() > 0,
        '0' <= value[0] <= '9' || value[0] == '-' || value[0] == '.',
        forall|i: int|
            0 <= i < gap.len() ==> !('0' <= #[trigger] gap[i] <= '9') && gap[i] != '-' && gap[i]
                != '.',
        forall|i: int|
            0 <= i < value.len() ==> '0' <= #[trigger] value[i] <= '9' || value[i] == '-' || value[i]
                == '.' || value[i] == 'e' || value[i] == 'E' || value[i] == '+',
        tail.len() > 0 ==> !('0' <= tail[0] <= '9') && tail[0] != '-' && tail[0] != '.' && tail[0]
            != 'e' && tail[0] != 'E' && tail[0] != '+',
    ensures
        number_behind(head + key + (gap + (value + tail)), key) == Some(value),
{
    let rest = gap + (value + tail);
    let text = head + key + rest;
    assert(text.skip(head.len() as int + key.len()) =~= rest);
    lemma_skip_gap(gap, value + tail);
    lemma_run(value, tail);
}

proof fn lemma_skip_gap(gap: Seq<char>, s: Seq<char>)
    requires
        s.len() > 0,
        starts_number(s[0]),
        forall|i: int| 0 <= i < gap.len() ==> !starts_number(#[trigger] gap[i]),
    ensures
        from_number(gap + s) == s,
    decreases gap.len(),
{
    if gap.len() == 0 {
        assert(gap + s =~= s);
    } else {
        assert((gap + s).drop_first() =~= gap.drop_first() + s);
        assert forall|i: int| 0 <= i < gap.drop_first().len() implies !starts_number(
            #[trigger] gap.drop_first()[i],
        ) by {
            assert(gap.drop_first()[i] == gap[i + 1]);
        }
        lemma_skip_gap(gap.drop_first(), s);
        assert((gap + s)[0] == gap[0]);
    }
}

proof fn lemma_run(value: Seq<char>, tail: Seq<char>)
    requires
        forall|i: int| 0 <= i < value.len() ==> in_number(#[trigger] value[i]),
        tail.len() > 0 ==> !in_number(tail[0]),
    ensures
        number_run(value + tail) == value,
    decreases value.len(),
{
    let s = value + tail;
    if value.len() == 0 {
        assert(s =~= tail);
        assert(number_run(s) =~= value);
    } else {
        let v = value.drop_first();
        assert(s.drop_first() =~= v + tail);
        assert forall|i: int| 0 <= i < v.len() implies in_number(#[trigger] v[i]) by {
            assert(v[i] == value[i + 1]);
        }
        lemma_run(v, tail);
        assert(s[0] == value[0]);
        assert(in_number(value[0]));
        assert(number_run(s) =~= value);
    }
}

/// An archive member counts where it is a regular file (type flag `0` or NUL): the
/// metadata by its name's end, the samples by theirs.
pub proof fn lemma_members(name: Seq<char>, typeflag: u8)
    ensures
        typeflag == 0x30 || typeflag == 0 ==> {
            &&& has_suffix(name, ".sigmf-meta"@) ==> member_of(name, typeflag) == TarMember::Meta
            &&& !has_suffix(name, ".sigmf-meta"@) && has_suffix(name, ".sigmf-data"@) ==> member_of(
                name,
                typeflag,
            ) == TarMember::Data
            &&& !has_suffix(name, ".sigmf-meta"@) && !has_suffix(name, ".sigmf-data"@) ==> member_of(
                name,
                typeflag,
            ) == TarMember::Other
        },
        typeflag != 0x30 && typeflag != 0 ==> member_of(name, typeflag) == TarMember::Other,
{
}

/// A size is octal digits, with white space around them or not, of at most twelve
/// digits' worth; anything else counts as 0.
pub proof fn lemma_octal_sizes(text: Seq<char>)
    ensures
        match unsigned_value(trimmed(text), 8, 68_719_476_735) {
            Some(v) => octal_size(text) == v,
            None => octal_size(text) == 0,
        },
{
}

/// As much of the samples is wanted as the window reaches, at eight octets each, but
/// not more than there is.
pub proof fn lemma_wanted(size: int, skip: int, max: Option<usize>)
    ensures
        wanted_octets(size, skip, max) <= size,
        max is None ==> wanted_octets(size, skip, max) == size,
        max matches Some(n) ==> {
            &&& wanted_octets(size, skip, max) <= 8 * (skip + n)
            &&& wanted_octets(size, skip, max) == size || wanted_octets(size, skip, max) == 8 * (skip
                + n)
        },
{
}

/// The parts of a file name between underscores that end with `Hz` give frequencies,
/// in order, without these letters.
pub proof fn lemma_frequency_parts(part: Seq<char>, rest: Seq<char>)
    requires
        forall|i: int| 0 <= i < part.len() ==> #[trigger] part[i] != '_',
    ensures
        ({
            let n = part.len() as int;
            let here = if n >= 2 && part[n - 2] == 'H' && part[n - 1] == 'z' {
                seq![part.take(n - 2)]
            } else {
                Seq::<Seq<char>>::empty()
            };
            &&& frequency_parts_of(part) == here
            &&& frequency_parts_of(part + seq!['_'] + rest) == here + frequency_parts_of(rest)
        }),
{
    reveal_strlit("_");
    reveal_strlit("Hz");
    assert("_"@ =~= seq!['_']);
    assert("Hz"@ =~= seq!['H', 'z']);
    lemma_find_char('_', part, rest);
    let n = part.len() as int;
    let name = part + seq!['_'] + rest;
    assert(name.take(n) =~= part);
    assert(name.skip(n + 1) =~= rest);
    if n >= 2 {
        let t = part.subrange(n - 2, n);
        assert(t[0] == part[n - 2] && t[1] == part[n - 1]);
        if part[n - 2] == 'H' && part[n - 1] == 'z' {
            assert(t =~= seq!['H', 'z']);
        }
        assert(has_suffix(part, "Hz"@) <==> part[n - 2] == 'H' && part[n - 1] == 'z');
    }
    assert(Seq::<Seq<char>>::empty() + frequency_parts_of(rest) =~= frequency_parts_of(rest));
}

/// What is read from the metadata is the text that was found, or nothing.
pub proof fn lemma_found_text(s: Option<String>, t: Option<Seq<char>>)
    ensures
        same_text(s, t) <==> {
            ||| s is None && t is None
            ||| s is Some && t is Some && (s->0)@ == t->0
        },
{
}

} // verus!
