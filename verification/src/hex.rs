//! PSDUs written in hexadecimal.

use crate::text::{chars_of, digit_value, hex_digit, is_space, is_whitespace, parse_unsigned};
use crate::report::plain_hex;
use crate::text::{all_digits, digits_value, hex_digits, hex_limit, lemma_hex_roundtrip};
use crate::text::unsigned_value;
use vstd::prelude::*;

verus! {

/// Why a text is no hexadecimal PSDU.
#[derive(Debug, Clone, Copy, PartialEq, Eq, Structural)]
pub enum HexError {
    /// An odd number of digits.
    OddDigits,
    /// Something that is no digit.
    BadDigit,
}

/// White space and colons separate digits and mean nothing.
pub open spec fn is_separator(c: char) -> bool {
    is_space(c) || c == ':'
}

/// The characters of `s` that mean something.
pub open spec fn meaningful(s: Seq<char>) -> Seq<char>
    decreases s.len(),
{
    if s.len() == 0 {
        s
    } else if is_separator(s.last()) {
        meaningful(s.drop_last())
    } else {
        meaningful(s.drop_last()).push(s.last())
    }
}

/// How many octets a character takes in UTF-8.
pub open spec fn utf8_len(c: char) -> int {
    let u = c as u32;
    if u < 0x80 {
        1
    } else if u < 0x800 {
        2
    } else if u < 0x1_0000 {
        3
    } else {
        4
    }
}

/// How many octets a text takes in UTF-8.
pub open spec fn utf8_total(s: Seq<char>) -> int
    decreases s.len(),
{
    if s.len() == 0 {
        0
    } else {
        utf8_total(s.drop_last()) + utf8_len(s.last())
    }
}

/// The octet that a pair of characters spells: two digits, or a plus sign and
/// a digit.
pub open spec fn pair_value(a: char, b: char) -> Option<int> {
    match (digit_value(a), digit_value(b)) {
        (Some(x), Some(y)) => Some(16 * x + y),
        (None, Some(y)) => if a == '+' {
            Some(y)
        } else {
            None
        },
        _ => None,
    }
}

/// Every pair of `d` spells an octet.
pub open spec fn all_pairs(d: Seq<char>) -> bool {
    forall|i: int| 0 <= i < d.len() / 2 ==> (#[trigger] pair_value(d[2 * i], d[2 * i + 1])) is Some
}

/// The PSDU that a text spells.
pub open spec fn spec_parse_hex_psdu(s: Seq<char>) -> Result<Seq<u8>, HexError> {
    let d = meaningful(s);
    if utf8_total(d) % 2 != 0 {
        Err(HexError::OddDigits)
    } else if d.len() % 2 != 0 || !all_pairs(d) {
        Err(HexError::BadDigit)
    } else {
        Ok(
            Seq::new(
                d.len() / 2,
                |i: int|
                    match pair_value(d[2 * i], d[2 * i + 1]) {
                        Some(v) => v as u8,
                        None => 0,
                    },
            ),
        )
    }
}

fn pair(a: char, b: char) -> (r: Option<u8>)
    ensures
        match pair_value(a, b) {
            Some(v) => r matches Some(n) && n == v,
            None => r is None,
        },
{
    match hex_digit(b) {
        None => None,
        Some(y) => match hex_digit(a) {
            Some(x) => Some(16 * x + y),
            None => if a == '+' {
                Some(y)
            } else {
                None
            },
        },
    }
}

/// Parse a PSDU written as pairs of hexadecimal digits, with white space and
/// colons anywhere.
pub fn parse_hex_psdu(hex: &str) -> (r: Result<Vec<u8>, HexError>)
    ensures
        match spec_parse_hex_psdu(hex@) {
            Ok(bytes) => r matches Ok(v) && v@ == bytes,
            Err(e) => r matches Err(f) && e == f,
        },
{
    let all: Vec<char> = chars_of(hex);
    let mut clean: Vec<char> = Vec::new();
    let mut odd: bool = false;
    for i in 0..all.len()
        invariant
            all@ == hex@,
            clean@ == meaningful(all@.take(i as int)),
            odd == (utf8_total(clean@) % 2 != 0),
    {
        let c: char = all[i];
        proof {
            assert(all@.take(i + 1).drop_last() =~= all@.take(i as int));
        }
        if !(is_whitespace(c) || c == ':') {
            let u: u32 = c as u32;
            // One or three octets change the parity, two or four do not.
            if u < 0x80 || (0x800 <= u && u < 0x1_0000) {
                odd = !odd;
            }
            let ghost before = clean@;
            clean.push(c);
            proof {
                assert(clean@.drop_last() =~= before);
            }
        }
    }
    proof {
        assert(all@.take(all@.len() as int) =~= all@);
    }
    if odd {
        return Err(HexError::OddDigits);
    }
    if clean.len() % 2 != 0 {
        return Err(HexError::BadDigit);
    }
    let n: usize = clean.len() / 2;
    let mut out: Vec<u8> = Vec::with_capacity(n);
    for i in 0..n
        invariant
            n == clean@.len() / 2,
            clean@.len() <= usize::MAX,
            clean@ == meaningful(hex@),
            utf8_total(clean@) % 2 == 0,
            clean@.len() % 2 == 0,
            out@.len() == i,
            forall|k: int|
                0 <= k < i ==> ((#[trigger] pair_value(clean@[2 * k], clean@[2 * k + 1])) matches Some(
                    v,
                ) && out@[k] == v),
    {
        match pair(clean[2 * i], clean[2 * i + 1]) {
            Some(b) => {
                out.push(b);
            },
            None => {
                proof {
                    assert(pair_value(clean@[2 * i as int], clean@[2 * i + 1]) is None);
                    assert(!all_pairs(clean@));
                }
                return Err(HexError::BadDigit);
            },
        }
    }
    proof {
        assert(spec_parse_hex_psdu(hex@) is Ok);
        assert(out@ =~= spec_parse_hex_psdu(hex@)->Ok_0);
    }
    Ok(out)
}

/// `s` without the `0x` in front of it, as often as it stands there.
pub open spec fn without_prefix(s: Seq<char>) -> Seq<char>
    decreases s.len(),
{
    if s.len() >= 2 && s[0] == '0' && s[1] == 'x' {
        without_prefix(s.skip(2))
    } else {
        s
    }
}

/// Parse an NDP body: a hexadecimal number within 64 bits, `0x` in front of
/// it or not.
pub fn parse_ndp_body(text: &str) -> (r: Option<u64>)
    ensures
        match unsigned_value(without_prefix(text@), 16, u64::MAX as int) {
            Some(v) => r matches Some(n) && n == v,
            None => r is None,
        },
{
    let cs: Vec<char> = chars_of(text);
    let n: usize = cs.len();
    let mut i: usize = 0;
    proof {
        assert(cs@.skip(0) =~= cs@);
    }
    while n - i >= 2 && cs[i] == '0' && cs[i + 1] == 'x'
        invariant
            i <= n == cs@.len(),
            cs@ == text@,
            without_prefix(text@) == without_prefix(cs@.skip(i as int)),
        decreases n - i,
    {
        proof {
            assert(cs@.skip(i as int).skip(2) =~= cs@.skip(i + 2));
        }
        i = i + 2;
    }
    let mut rest: Vec<char> = Vec::new();
    for k in i..n
        invariant
            i <= n == cs@.len(),
            rest@ == cs@.subrange(i as int, k as int),
    {
        rest.push(cs[k]);
        proof {
            assert(rest@ =~= cs@.subrange(i as int, k + 1));
        }
    }
    proof {
        assert(rest@ =~= cs@.skip(i as int));
    }
    parse_unsigned(rest.as_slice(), 16, u64::MAX)
}

/// The digits of `a`, two for each octet, at even and odd positions.
proof fn lemma_plain_hex(a: Seq<u8>)
    ensures
        plain_hex(a).len() == 2 * a.len(),
        all_digits(plain_hex(a), 16),
        forall|i: int|
            0 <= i < a.len() ==> #[trigger] pair_value(
                plain_hex(a)[2 * i],
                plain_hex(a)[2 * i + 1],
            ) == Some(a[i] as int),
    decreases a.len(),
{
    if a.len() > 0 {
        let head = plain_hex(a.drop_last());
        let last = a.last();
        let two = hex_digits(last as nat, 2);
        let s = plain_hex(a);
        lemma_plain_hex(a.drop_last());
        lemma_hex_roundtrip(last as nat, 2);
        reveal_with_fuel(digits_value, 3);
        reveal_with_fuel(hex_limit, 3);
        assert(two.drop_last().drop_last().len() == 0);
        assert(two.drop_last().last() == two[0]);
        assert(digit_value(two[0]) is Some && digit_value(two[1]) is Some);
        assert forall|i: int| 0 <= i < s.len() implies (digit_value(#[trigger] s[i]) matches Some(
            d,
        ) && d < 16) by {
            if i < head.len() {
                assert(s[i] == head[i]);
            } else {
                assert(s[i] == two[i - head.len()]);
            }
        }
        assert forall|i: int| 0 <= i < a.len() implies #[trigger] pair_value(s[2 * i], s[2 * i + 1])
            == Some(a[i] as int) by {
            if i < a.len() - 1 {
                assert(s[2 * i] == head[2 * i] && s[2 * i + 1] == head[2 * i + 1]);
                assert(pair_value(head[2 * i], head[2 * i + 1]) == Some(a.drop_last()[i] as int));
            } else {
                assert(s[2 * i] == two[0] && s[2 * i + 1] == two[1]);
            }
        }
    }
}

/// Digits mean something, and take one octet each.
proof fn lemma_digits_meaningful(s: Seq<char>)
    requires
        all_digits(s, 16),
    ensures
        meaningful(s) == s,
        utf8_total(s) == s.len(),
    decreases s.len(),
{
    if s.len() > 0 {
        let head = s.drop_last();
        assert forall|i: int| 0 <= i < head.len() implies (digit_value(#[trigger] head[i]) matches Some(
            d,
        ) && d < 16) by {
            assert(head[i] == s[i]);
        }
        lemma_digits_meaningful(head);
        lemma_digit_is_ascii(s[s.len() - 1]);
        assert(head.push(s.last()) =~= s);
    } else {
        assert(meaningful(s) =~= s);
    }
}

proof fn lemma_digit_is_ascii(c: char)
    requires
        digit_value(c) is Some,
    ensures
        !is_separator(c),
        utf8_len(c) == 1,
{
}

/// A PSDU printed in hexadecimal parses back to the PSDU.
pub proof fn lemma_printed_psdu_parses(psdu: Seq<u8>)
    ensures
        spec_parse_hex_psdu(plain_hex(psdu)) == Ok::<Seq<u8>, HexError>(psdu),
{
    let s = plain_hex(psdu);
    lemma_plain_hex(psdu);
    lemma_digits_meaningful(s);
    let parsed = Seq::new(
        s.len() / 2,
        |i: int|
            match pair_value(s[2 * i], s[2 * i + 1]) {
                Some(v) => v as u8,
                None => 0,
            },
    );
    assert forall|i: int| 0 <= i < s.len() / 2 implies (#[trigger] pair_value(
        s[2 * i],
        s[2 * i + 1],
    )) is Some by {
        assert(pair_value(s[2 * i], s[2 * i + 1]) == Some(psdu[i] as int));
    }
    assert(parsed =~= psdu);
}

/// What separates digits: white space and colons, and nothing else.
pub proof fn lemma_separators(c: char)
    ensures
        is_separator(':'),
        is_separator(' '),
        c != ':' ==> is_separator(c) == is_space(c),
{
}

/// Dropping separators goes character by character: it keeps the order and keeps
/// every character that is none.
pub proof fn lemma_meaningful(a: Seq<char>, b: Seq<char>, c: char)
    ensures
        meaningful(a + b) == meaningful(a) + meaningful(b),
        is_separator(c) ==> meaningful(seq![c]) == Seq::<char>::empty(),
        !is_separator(c) ==> meaningful(seq![c]) == seq![c],
    decreases b.len(),
{
    reveal_with_fuel(meaningful, 2);
    assert(seq![c].drop_last() =~= Seq::<char>::empty());
    assert(seq![c].last() == c);
    assert(Seq::<char>::empty().push(c) =~= seq![c]);
    if b.len() == 0 {
        assert(a + b =~= a);
        assert(meaningful(a) + meaningful(b) =~= meaningful(a));
    } else {
        lemma_meaningful(a, b.drop_last(), c);
        assert((a + b).drop_last() =~= a + b.drop_last());
        assert((a + b).last() == b.last());
        if !is_separator(b.last()) {
            assert((meaningful(a) + meaningful(b.drop_last())).push(b.last()) =~= meaningful(a) + (
            meaningful(b.drop_last()).push(b.last())));
        }
    }
}

/// Two digits spell an octet, the first counting sixteen times; a plus sign and a
/// digit spell the digit.
pub proof fn lemma_pairs(a: char, b: char)
    ensures
        digit_value(a) is Some && digit_value(b) is Some ==> pair_value(a, b) == Some(
            16 * digit_value(a)->0 + digit_value(b)->0,
        ),
        digit_value(b) is Some ==> pair_value('+', b) == digit_value(b),
        digit_value(b) is None ==> pair_value(a, b) is None,
        a != '+' && digit_value(a) is None ==> pair_value(a, b) is None,
{
}

/// UTF-8 takes one octet below U+0080, two below U+0800, three below U+10000 and
/// four from there on.
pub proof fn lemma_utf8_lengths(c: char)
    ensures
        1 <= utf8_len(c) <= 4,
        utf8_len(c) == 1 <==> (c as u32) < 0x80,
        utf8_len(c) <= 2 <==> (c as u32) < 0x800,
        utf8_len(c) <= 3 <==> (c as u32) < 0x1_0000,
        utf8_total(Seq::<char>::empty()) == 0,
        utf8_total(seq![c]) == utf8_len(c),
{
    reveal_with_fuel(utf8_total, 2);
    assert(seq![c].drop_last() =~= Seq::<char>::empty());
}

/// A PSDU text: one octet per pair of digits, in order; refused are first an odd
/// number of octets, then a pair that spells none.
pub proof fn lemma_parsed_psdu(s: Seq<char>, i: int)
    ensures
        ({
            let d = meaningful(s);
            match spec_parse_hex_psdu(s) {
                Ok(b) => {
                    &&& d.len() == 2 * b.len()
                    &&& 0 <= i < b.len() && digit_value(d[2 * i]) is Some && digit_value(d[2 * i + 1])
                        is Some ==> b[i] == 16 * digit_value(d[2 * i])->0 + digit_value(d[2 * i + 1])->0
                },
                Err(HexError::OddDigits) => utf8_total(d) % 2 == 1,
                Err(HexError::BadDigit) => utf8_total(d) % 2 == 0 && (d.len() % 2 == 1 || exists|k: int|
                    0 <= k < d.len() / 2 && (#[trigger] pair_value(d[2 * k], d[2 * k + 1])) is None),
            }
        }),
{
    let d = meaningful(s);
    if 0 <= i < d.len() / 2 {
        assert(pair_value(d[2 * i], d[2 * i + 1]) is Some || !all_pairs(d));
    }
}

/// Any number of `0x` in front of a number is left out.
pub proof fn lemma_without_prefix(s: Seq<char>)
    ensures
        without_prefix(seq!['0', 'x'] + s) == without_prefix(s),
        s.len() < 2 || s[0] != '0' || s[1] != 'x' ==> without_prefix(s) == s,
{
    assert((seq!['0', 'x'] + s).skip(2) =~= s);
}

} // verus!
