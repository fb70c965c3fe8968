//! Text as sequences of characters: searching, numbers, case folding.

use vstd::prelude::*;
use vstd::utf8::{decode_utf8, valid_utf8};

verus! {

/// `String::push`: appends one character.
pub assume_specification[ String::push ](s: &mut String, c: char)
    ensures
        final(s)@ == old(s)@.push(c),
;

/// What `String::from_utf8_lossy` makes of octets that are not UTF-8.
pub uninterp spec fn lossy_text(bytes: Seq<u8>) -> Seq<char>;

/// `String::from_utf8_lossy`: the text that the octets encode, where they are
/// UTF-8. Of other octets each ill-formed part is replaced by U+FFFD; that
/// text has a name, and which parts those are is left unsaid.
#[verifier::external_body]
pub(crate) fn from_utf8_lossy(bytes: &[u8]) -> (s: String)
    ensures
        valid_utf8(bytes@) ==> s@ == decode_utf8(bytes@),
        !valid_utf8(bytes@) ==> s@ == lossy_text(bytes@),
{
    String::from_utf8_lossy(bytes).into_owned()
}

/// The text of some octets: what they encode where they are UTF-8.
pub open spec fn text_of(bytes: Seq<u8>) -> Seq<char> {
    if valid_utf8(bytes) {
        decode_utf8(bytes)
    } else {
        lossy_text(bytes)
    }
}

/// The characters of a string.
pub fn chars_of(s: &str) -> (cs: Vec<char>)
    ensures
        cs@ == s@,
{
    let mut cs: Vec<char> = Vec::new();
    for c in it: s.chars()
        invariant
            it.seq() == s@,
            cs@ == s@.take(it.index() as int),
    {
        cs.push(c);
    }
    proof {
        assert(s@.take(s@.len() as int) =~= s@);
    }
    cs
}

/// The string of some characters.
pub fn string_of(cs: &[char]) -> (s: String)
    ensures
        s@ == cs@,
{
    let mut s: String = String::new();
    for i in 0..cs.len()
        invariant
            s@ == cs@.take(i as int),
    {
        s.push(cs[i]);
        proof {
            assert(s@ =~= cs@.take(i + 1));
        }
    }
    proof {
        assert(cs@.take(cs@.len() as int) =~= cs@);
    }
    s
}

/// Append the characters of a string.
pub fn push_str(out: &mut Vec<char>, s: &str)
    ensures
        final(out)@ == old(out)@ + s@,
{
    let ghost before = out@;
    for c in it: s.chars()
        invariant
            it.seq() == s@,
            out@ == before + s@.take(it.index() as int),
    {
        out.push(c);
    }
    proof {
        assert(s@.take(s@.len() as int) =~= s@);
    }
}

/// Append characters.
pub fn push_all(out: &mut Vec<char>, cs: &[char])
    ensures
        final(out)@ == old(out)@ + cs@,
{
    let ghost before = out@;
    proof {
        assert(before =~= before + cs@.take(0));
    }
    for i in 0..cs.len()
        invariant
            out@ == before + cs@.take(i as int),
    {
        out.push(cs[i]);
        proof {
            assert(before + cs@.take(i + 1) =~= (before + cs@.take(i as int)).push(cs@[i as int]));
        }
    }
    proof {
        assert(cs@.take(cs@.len() as int) =~= cs@);
    }
}

/// The characters of each text.
pub open spec fn word_views(w: Seq<Vec<char>>) -> Seq<Seq<char>> {
    Seq::new(w.len(), |i: int| w[i]@)
}

/// `pat` stands in `s` at index `i`.
pub open spec fn occurs_at(s: Seq<char>, pat: Seq<char>, i: int) -> bool {
    0 <= i && i + pat.len() <= s.len() && s.subrange(i, i + pat.len()) == pat
}

/// The first index from `from` on at which `pat` stands in `s`.
pub open spec fn find_from(s: Seq<char>, pat: Seq<char>, from: int) -> Option<int>
    decreases s.len() - from + 1,
{
    if from < 0 || from + pat.len() > s.len() {
        None
    } else if occurs_at(s, pat, from) {
        Some(from)
    } else {
        find_from(s, pat, from + 1)
    }
}

/// The first index at which `pat` stands in `s`.
pub open spec fn find_in(s: Seq<char>, pat: Seq<char>) -> Option<int> {
    find_from(s, pat, 0)
}

/// What was found is an occurrence, and the first; where nothing was found
/// there is none.
pub proof fn lemma_find_from(s: Seq<char>, pat: Seq<char>, from: int)
    requires
        0 <= from,
    ensures
        match find_from(s, pat, from) {
            Some(i) => from <= i && occurs_at(s, pat, i) && forall|j: int|
                from <= j < i ==> !#[trigger] occurs_at(s, pat, j),
            None => forall|j: int| from <= j ==> !#[trigger] occurs_at(s, pat, j),
        },
    decreases s.len() - from + 1,
{
    if from + pat.len() <= s.len() && !occurs_at(s, pat, from) {
        lemma_find_from(s, pat, from + 1);
    }
}

fn matches_at(s: &[char], pat: &[char], i: usize) -> (b: bool)
    requires
        i + pat@.len() <= s@.len(),
    ensures
        b == occurs_at(s@, pat@, i as int),
{
    let n: usize = s.len();
    for k in 0..pat.len()
        invariant
            i + pat@.len() <= s@.len(),
            s@.len() == n,
            forall|j: int| 0 <= j < k ==> s@[i + j] == #[trigger] pat@[j],
    {
        if s[i + k] != pat[k] {
            proof {
                assert(s@.subrange(i as int, i + pat@.len())[k as int] != pat@[k as int]);
            }
            return false;
        }
    }
    proof {
        assert(s@.subrange(i as int, i + pat@.len()) =~= pat@);
    }
    true
}

/// The first index at which `pat` stands in `s`.
pub fn find(s: &[char], pat: &[char]) -> (r: Option<usize>)
    ensures
        match find_in(s@, pat@) {
            Some(i) => r matches Some(k) && k == i && i + pat@.len() <= s@.len() && s@.len()
                <= usize::MAX,
            None => r is None,
        },
{
    if pat.len() > s.len() {
        return None;
    }
    let last: usize = s.len() - pat.len();
    let mut i: usize = 0;
    while i <= last
        invariant
            last + pat@.len() == s@.len(),
            s@.len() <= usize::MAX,
            i <= last + 1,
            find_in(s@, pat@) == find_from(s@, pat@, i as int),
        decreases last + 1 - i,
    {
        if matches_at(s, pat, i) {
            return Some(i);
        }
        if i == last {
            return None;
        }
        i = i + 1;
    }
    None
}

/// `s` ends with `pat`.
pub open spec fn has_suffix(s: Seq<char>, pat: Seq<char>) -> bool {
    pat.len() <= s.len() && occurs_at(s, pat, s.len() - pat.len())
}

/// `s` ends with `pat`.
pub fn ends_with(s: &[char], pat: &str) -> (b: bool)
    ensures
        b == has_suffix(s@, pat@),
{
    let p: Vec<char> = chars_of(pat);
    if p.len() > s.len() {
        return false;
    }
    matches_at(s, p.as_slice(), s.len() - p.len())
}

/// `s` is the string `t`.
pub fn equals(s: &[char], t: &str) -> (b: bool)
    ensures
        b == (s@ == t@),
{
    let p: Vec<char> = chars_of(t);
    if p.len() != s.len() {
        return false;
    }
    let b: bool = matches_at(s, p.as_slice(), 0);
    proof {
        assert(s@.subrange(0, s@.len() as int) =~= s@);
    }
    b
}

/// White space as Unicode defines it (White_Space).
pub open spec fn is_space(c: char) -> bool {
    let u = c as u32;
    ||| 9 <= u <= 13
    ||| u == 0x20
    ||| u == 0x85
    ||| u == 0xA0
    ||| u == 0x1680
    ||| 0x2000 <= u <= 0x200A
    ||| u == 0x2028
    ||| u == 0x2029
    ||| u == 0x202F
    ||| u == 0x205F
    ||| u == 0x3000
}

/// White space as Unicode defines it (White_Space).
pub fn is_whitespace(c: char) -> (b: bool)
    ensures
        b == is_space(c),
{
    let u: u32 = c as u32;
    (9 <= u && u <= 13) || u == 0x20 || u == 0x85 || u == 0xA0 || u == 0x1680 || (0x2000 <= u && u
        <= 0x200A) || u == 0x2028 || u == 0x2029 || u == 0x202F || u == 0x205F || u == 0x3000
}

/// `s` without white space at the end.
pub open spec fn trim_end_of(s: Seq<char>) -> Seq<char>
    decreases s.len(),
{
    if s.len() > 0 && is_space(s.last()) {
        trim_end_of(s.drop_last())
    } else {
        s
    }
}

/// `s` without white space at the start.
pub open spec fn trim_start_of(s: Seq<char>) -> Seq<char>
    decreases s.len(),
{
    if s.len() > 0 && is_space(s[0]) {
        trim_start_of(s.drop_first())
    } else {
        s
    }
}

/// `s` without white space at either end.
pub open spec fn trimmed(s: Seq<char>) -> Seq<char> {
    trim_end_of(trim_start_of(s))
}

/// Remove white space at both ends.
pub fn trim(s: &[char]) -> (t: Vec<char>)
    ensures
        t@ == trimmed(s@),
{
    let mut a: usize = 0;
    proof {
        assert(s@.skip(0) =~= s@);
    }
    while a < s.len() && is_whitespace(s[a])
        invariant
            a <= s@.len(),
            trim_start_of(s@) == trim_start_of(s@.skip(a as int)),
        decreases s@.len() - a,
    {
        proof {
            assert(s@.skip(a as int).drop_first() =~= s@.skip(a + 1));
        }
        a = a + 1;
    }
    let mut b: usize = s.len();
    proof {
        assert(s@.skip(a as int) =~= s@.subrange(a as int, b as int));
    }
    while b > a && is_whitespace(s[b - 1])
        invariant
            a <= b <= s@.len(),
            trimmed(s@) == trim_end_of(s@.subrange(a as int, b as int)),
        decreases b,
    {
        proof {
            assert(s@.subrange(a as int, b as int).drop_last() =~= s@.subrange(
                a as int,
                b - 1,
            ));
        }
        b = b - 1;
    }
    let mut t: Vec<char> = Vec::with_capacity(b - a);
    push_all(&mut t, &s[a..b]);
    proof {
        assert(t@ =~= s@.subrange(a as int, b as int));
    }
    t
}

/// The value of a digit in base 16, if it is one.
pub open spec fn digit_value(c: char) -> Option<int> {
    let u = c as int;
    if '0' as int <= u <= '9' as int {
        Some(u - '0' as int)
    } else if 'a' as int <= u <= 'f' as int {
        Some(u - 'a' as int + 10)
    } else if 'A' as int <= u <= 'F' as int {
        Some(u - 'A' as int + 10)
    } else {
        None
    }
}

/// The value of a digit in base 16, if it is one.
pub fn hex_digit(c: char) -> (r: Option<u8>)
    ensures
        match digit_value(c) {
            Some(v) => r matches Some(d) && d == v && d < 16,
            None => r is None,
        },
{
    let u: u32 = c as u32;
    if 48 <= u && u <= 57 {
        Some((u - 48) as u8)
    } else if 97 <= u && u <= 102 {
        Some((u - 87) as u8)
    } else if 65 <= u && u <= 70 {
        Some((u - 55) as u8)
    } else {
        None
    }
}

/// Every character is a digit in base `radix`.
pub open spec fn all_digits(s: Seq<char>, radix: int) -> bool {
    forall|i: int|
        0 <= i < s.len() ==> (digit_value(#[trigger] s[i]) matches Some(v) && v < radix)
}

/// The number that digits in base `radix` spell.
pub open spec fn digits_value(s: Seq<char>, radix: int) -> int
    decreases s.len(),
{
    if s.len() == 0 {
        0
    } else {
        radix * digits_value(s.drop_last(), radix) + match digit_value(s.last()) {
            Some(v) => v,
            None => 0,
        }
    }
}

/// The unsigned number that `s` spells: an optional plus sign and at least one
/// digit, not above `max`.
pub open spec fn unsigned_value(s: Seq<char>, radix: int, max: int) -> Option<int> {
    let d = if s.len() > 0 && s[0] == '+' {
        s.skip(1)
    } else {
        s
    };
    if d.len() > 0 && all_digits(d, radix) && digits_value(d, radix) <= max {
        Some(digits_value(d, radix))
    } else {
        None
    }
}

/// The signed number that `s` spells: an optional sign and at least one
/// decimal digit, within 64 bits.
pub open spec fn signed_value(s: Seq<char>) -> Option<int> {
    if s.len() > 0 && s[0] == '-' {
        match unsigned_digits(s.skip(1), 10) {
            Some(v) => if v <= 0x8000_0000_0000_0000 {
                Some(-v)
            } else {
                None
            },
            None => None,
        }
    } else {
        unsigned_value(s, 10, 0x7FFF_FFFF_FFFF_FFFF)
    }
}

/// The number that at least one digit spells.
pub open spec fn unsigned_digits(d: Seq<char>, radix: int) -> Option<int> {
    if d.len() > 0 && all_digits(d, radix) {
        Some(digits_value(d, radix))
    } else {
        None
    }
}

proof fn lemma_digits_prefix(s: Seq<char>, radix: int, k: int)
    requires
        2 <= radix <= 16,
        0 <= k <= s.len(),
    ensures
        0 <= digits_value(s.take(k), radix),
        digits_value(s.take(k), radix) <= digits_value(s, radix),
    decreases s.len(),
{
    if k == s.len() {
        assert(s.take(k) =~= s);
        if s.len() > 0 {
            lemma_digits_prefix(s.drop_last(), radix, s.len() - 1);
            assert(s.drop_last().take(s.len() - 1) =~= s.drop_last());
            let v = digits_value(s.drop_last(), radix);
            assert(radix * v >= 0) by (nonlinear_arith)
                requires
                    radix >= 2,
                    v >= 0,
            ;
        }
    } else {
        lemma_digits_prefix(s.drop_last(), radix, k);
        assert(s.drop_last().take(k) =~= s.take(k));
        let v = digits_value(s.drop_last(), radix);
        assert(radix * v >= v) by (nonlinear_arith)
            requires
                radix >= 2,
                v >= 0,
        ;
    }
}

/// A number that was read is within its bounds.
pub proof fn lemma_unsigned_bound(s: Seq<char>, radix: int, max: int)
    requires
        2 <= radix <= 16,
    ensures
        unsigned_value(s, radix, max) matches Some(v) ==> 0 <= v <= max,
{
    let d = if s.len() > 0 && s[0] == '+' {
        s.skip(1)
    } else {
        s
    };
    lemma_digits_prefix(d, radix, 0);
    assert(digits_value(d.take(0), radix) == 0);
}

/// Read digits in base `radix` (at most 16), not above `max`.
fn read_digits(s: &[char], from: usize, radix: u64, max: u64) -> (r: Option<u64>)
    requires
        from <= s@.len(),
        2 <= radix <= 16,
    ensures
        ({
            let d = s@.skip(from as int);
            if d.len() > 0 && all_digits(d, radix as int) && digits_value(d, radix as int) <= max {
                r matches Some(v) && v == digits_value(d, radix as int)
            } else {
                r is None
            }
        }),
{
    let ghost d = s@.skip(from as int);
    if from >= s.len() {
        return None;
    }
    let mut acc: u64 = 0;
    for i in from..s.len()
        invariant
            d == s@.skip(from as int),
            2 <= radix <= 16,
            from <= i <= s@.len(),
            acc <= max,
            acc == digits_value(d.take(i - from), radix as int),
            forall|k: int|
                0 <= k < i - from ==> (digit_value(#[trigger] d[k]) matches Some(v) && v < radix),
    {
        proof {
            assert(s@[i as int] == d[i - from]);
            assert(d.take(i - from + 1).drop_last() =~= d.take(i - from));
            lemma_digits_prefix(d, radix as int, i - from + 1);
        }
        match hex_digit(s[i]) {
            None => {
                proof {
                    assert(!all_digits(d, radix as int));
                }
                return None;
            },
            Some(v) => {
                if v as u64 >= radix {
                    proof {
                        assert(!all_digits(d, radix as int));
                    }
                    return None;
                }
                proof {
                    assert(acc * radix <= 0xFFFF_FFFF_FFFF_FFFF * 16) by (nonlinear_arith)
                        requires
                            acc <= 0xFFFF_FFFF_FFFF_FFFF,
                            radix <= 16,
                            acc >= 0,
                    ;
                    assert(acc * radix == radix * acc) by (nonlinear_arith);
                }
                let wide: u128 = acc as u128 * radix as u128 + v as u128;
                if wide > max as u128 {
                    return None;
                }
                acc = wide as u64;
            },
        }
    }
    proof {
        assert(d.take(d.len() as int) =~= d);
    }
    Some(acc)
}

/// Parse an unsigned number in base `radix` (at most 16), not above `max`.
pub fn parse_unsigned(s: &[char], radix: u64, max: u64) -> (r: Option<u64>)
    requires
        2 <= radix <= 16,
    ensures
        match unsigned_value(s@, radix as int, max as int) {
            Some(v) => r matches Some(n) && n == v,
            None => r is None,
        },
{
    proof {
        assert(s@.skip(0) =~= s@);
    }
    if s.len() > 0 && s[0] == '+' {
        read_digits(s, 1, radix, max)
    } else {
        read_digits(s, 0, radix, max)
    }
}

/// Parse a signed decimal number.
pub fn parse_i64(s: &[char]) -> (r: Option<i64>)
    ensures
        match signed_value(s@) {
            Some(v) => r matches Some(n) && n == v,
            None => r is None,
        },
{
    if s.len() > 0 && s[0] == '-' {
        match read_digits(s, 1, 10, 0x8000_0000_0000_0000) {
            None => None,
            Some(v) => if v == 0x8000_0000_0000_0000 {
                Some(i64::MIN)
            } else {
                Some(-(v as i64))
            },
        }
    } else {
        match parse_unsigned(s, 10, 0x7FFF_FFFF_FFFF_FFFF) {
            None => None,
            Some(v) => Some(v as i64),
        }
    }
}

/// The character of a digit below 16, lower case.
pub open spec fn digit_char(v: int) -> char {
    if v < 10 {
        ('0' as int + v) as char
    } else {
        ('a' as int + v - 10) as char
    }
}

/// The character of a digit below 16, lower case.
pub fn to_digit(v: u8) -> (c: char)
    requires
        v < 16,
    ensures
        c == digit_char(v as int),
{
    if v < 10 {
        (48 + v) as char
    } else {
        (87 + v) as char
    }
}

/// The decimal digits of `v`.
pub open spec fn decimal(v: nat) -> Seq<char>
    decreases v,
{
    if v < 10 {
        seq![digit_char(v as int)]
    } else {
        decimal(v / 10).push(digit_char((v % 10) as int))
    }
}

/// Append the decimal digits of `v`.
pub fn push_decimal(out: &mut Vec<char>, v: u64)
    ensures
        final(out)@ == old(out)@ + decimal(v as nat),
    decreases v,
{
    if v >= 10 {
        push_decimal(out, v / 10);
    }
    out.push(to_digit((v % 10) as u8));
    proof {
        assert(out@ =~= old(out)@ + decimal(v as nat));
    }
}

/// The `n` low hexadecimal digits of `v`, most significant first.
pub open spec fn hex_digits(v: nat, n: nat) -> Seq<char>
    decreases n,
{
    if n == 0 {
        Seq::empty()
    } else {
        hex_digits(v / 16, (n - 1) as nat).push(digit_char((v % 16) as int))
    }
}

/// Append the `n` low hexadecimal digits of `v`.
pub fn push_hex(out: &mut Vec<char>, v: u64, n: usize)
    ensures
        final(out)@ == old(out)@ + hex_digits(v as nat, n as nat),
    decreases n,
{
    if n > 0 {
        push_hex(out, v / 16, n - 1);
        out.push(to_digit((v % 16) as u8));
    }
    proof {
        assert(out@ =~= old(out)@ + hex_digits(v as nat, n as nat));
    }
}

/// A digit reads back as its value.
proof fn lemma_digit(v: int)
    requires
        0 <= v < 16,
    ensures
        digit_value(digit_char(v)) == Some(v),
{
}

/// Reading a written decimal number gives the number back.
pub proof fn lemma_decimal_roundtrip(v: nat)
    ensures
        decimal(v).len() > 0,
        all_digits(decimal(v), 10),
        digits_value(decimal(v), 10) == v,
        unsigned_digits(decimal(v), 10) == Some(v as int),
    decreases v,
{
    lemma_digit((v % 10) as int);
    if v < 10 {
        let s = decimal(v);
        assert(s.drop_last() =~= Seq::<char>::empty());
        assert(digits_value(s.drop_last(), 10) == 0);
    } else {
        lemma_decimal_roundtrip(v / 10);
        let s = decimal(v);
        assert(s.drop_last() =~= decimal(v / 10));
        assert forall|i: int| 0 <= i < s.len() implies (digit_value(#[trigger] s[i]) matches Some(
            d,
        ) && d < 10) by {
            if i < s.len() - 1 {
                assert(s[i] == decimal(v / 10)[i]);
            }
        }
    }
}

/// The lower-case form of an ASCII letter; any other character as it is.
pub open spec fn ascii_lower(c: char) -> char {
    if 'A' as int <= c as int && c as int <= 'Z' as int {
        (c as int + 32) as char
    } else {
        c
    }
}

/// The same text but for the case of ASCII letters.
pub open spec fn same_ignoring_case(a: Seq<char>, b: Seq<char>) -> bool {
    a.len() == b.len() && forall|i: int|
        0 <= i < a.len() ==> ascii_lower(#[trigger] a[i]) == ascii_lower(b[i])
}

fn lower(c: char) -> (u: u32)
    ensures
        u == ascii_lower(c) as u32,
{
    let u: u32 = c as u32;
    if 65 <= u && u <= 90 {
        u + 32
    } else {
        u
    }
}

/// Compare two texts, ignoring the case of ASCII letters.
pub fn eq_ignore_ascii_case(a: &[char], b: &[char]) -> (r: bool)
    ensures
        r == same_ignoring_case(a@, b@),
{
    if a.len() != b.len() {
        return false;
    }
    for i in 0..a.len()
        invariant
            a@.len() == b@.len(),
            forall|k: int| 0 <= k < i ==> ascii_lower(#[trigger] a@[k]) == ascii_lower(b@[k]),
    {
        if lower(a[i]) != lower(b[i]) {
            proof {
                assert(ascii_lower(a@[i as int]) != ascii_lower(b@[i as int]));
            }
            return false;
        }
    }
    true
}

/// How many numbers `n` hexadecimal digits can spell.
pub open spec fn hex_limit(n: nat) -> nat
    decreases n,
{
    if n == 0 {
        1
    } else {
        16 * hex_limit((n - 1) as nat)
    }
}

/// Reading written hexadecimal digits gives the number back, as far as the
/// digits hold it.
pub proof fn lemma_hex_roundtrip(v: nat, n: nat)
    ensures
        hex_digits(v, n).len() == n,
        all_digits(hex_digits(v, n), 16),
        v < hex_limit(n) ==> digits_value(hex_digits(v, n), 16) == v,
    decreases n,
{
    if n > 0 {
        let s = hex_digits(v, n);
        lemma_hex_roundtrip(v / 16, (n - 1) as nat);
        lemma_digit((v % 16) as int);
        assert(s.drop_last() =~= hex_digits(v / 16, (n - 1) as nat));
        assert forall|i: int| 0 <= i < s.len() implies (digit_value(#[trigger] s[i]) matches Some(
            d,
        ) && d < 16) by {
            if i < s.len() - 1 {
                assert(s[i] == hex_digits(v / 16, (n - 1) as nat)[i]);
            }
        }
    }
}

/// White space: tab to carriage return, space, the next-line and no-break
/// characters, and the spaces and separators of Unicode.
pub proof fn lemma_spaces(c: char)
    ensures
        (c as u32) < 0x80 ==> (is_space(c) <==> (c == ' ' || 9 <= c as u32 <= 13)),
        0x80 <= c as u32 && (c as u32) < 0x1680 ==> (is_space(c) <==> (c as u32 == 0x85 || c as u32
            == 0xA0)),
        c as u32 >= 0x1680 ==> (is_space(c) <==> (c as u32 == 0x1680 || 0x2000 <= c as u32 <= 0x200A
            || 0x2028 <= c as u32 <= 0x2029 || c as u32 == 0x202F || c as u32 == 0x205F || c as u32
            == 0x3000)),
{
}

/// Trimming keeps a part of the text that neither starts nor ends with white
/// space, and takes away nothing else.
pub proof fn lemma_trimmed(s: Seq<char>) -> (ends: (int, int))
    ensures
        0 <= ends.0 <= ends.1 <= s.len(),
        trimmed(s) == s.subrange(ends.0, ends.1),
        forall|i: int| 0 <= i < ends.0 ==> is_space(#[trigger] s[i]),
        forall|i: int| ends.1 <= i < s.len() ==> is_space(#[trigger] s[i]),
        trimmed(s).len() > 0 ==> !is_space(trimmed(s)[0]) && !is_space(trimmed(s).last()),
{
    let a = lemma_trim_start(s);
    let t = s.skip(a);
    let b = lemma_trim_end(t);
    assert(trimmed(s) =~= s.subrange(a, a + b));
    assert forall|i: int| a + b <= i < s.len() implies is_space(#[trigger] s[i]) by {
        assert(t[i - a] == s[i]);
    }
    if b > 0 {
        assert(trimmed(s)[0] == t[0]);
    }
    (a, a + b)
}

proof fn lemma_trim_start(s: Seq<char>) -> (a: int)
    ensures
        0 <= a <= s.len(),
        trim_start_of(s) == s.skip(a),
        forall|i: int| 0 <= i < a ==> is_space(#[trigger] s[i]),
        a < s.len() ==> !is_space(s[a]),
    decreases s.len(),
{
    if s.len() > 0 && is_space(s[0]) {
        let t = s.drop_first();
        let b = lemma_trim_start(t);
        assert(s.skip(b + 1) =~= t.skip(b));
        assert forall|i: int| 0 <= i < b + 1 implies is_space(#[trigger] s[i]) by {
            if i > 0 {
                assert(t[i - 1] == s[i]);
            }
        }
        if b < t.len() {
            assert(t[b] == s[b + 1]);
        }
        b + 1
    } else {
        assert(s.skip(0) =~= s);
        0
    }
}

proof fn lemma_trim_end(s: Seq<char>) -> (b: int)
    ensures
        0 <= b <= s.len(),
        trim_end_of(s) == s.take(b),
        forall|i: int| b <= i < s.len() ==> is_space(#[trigger] s[i]),
        b > 0 ==> !is_space(s[b - 1]),
    decreases s.len(),
{
    if s.len() > 0 && is_space(s.last()) {
        let t = s.drop_last();
        let b = lemma_trim_end(t);
        assert(s.take(b) =~= t.take(b));
        assert forall|i: int| b <= i < s.len() implies is_space(#[trigger] s[i]) by {
            if i < s.len() - 1 {
                assert(t[i] == s[i]);
            }
        }
        b
    } else {
        assert(s.take(s.len() as int) =~= s);
        s.len() as int
    }
}

/// The digits: `0` to `9` for the values below 10, `a` to `f` for the next six,
/// written in lower case and read in either; nothing else is a digit.
pub proof fn lemma_digit_characters(c: char, v: int)
    ensures
        0 <= v < 10 ==> digit_char(v) as int == 48 + v,
        10 <= v < 16 ==> digit_char(v) as int == 97 + v - 10,
        match digit_value(c) {
            Some(d) => {
                ||| 48 <= c as int <= 57 && d == c as int - 48
                ||| 97 <= c as int <= 102 && d == c as int - 87
                ||| 65 <= c as int <= 70 && d == c as int - 55
            },
            None => {
                let u = c as int;
                u < 48 || 57 < u < 65 || 70 < u < 97 || 102 < u
            },
        },
{
}

/// The value of digits: each further digit adds itself to `radix` times what
/// stands before it.
pub proof fn lemma_digits_step(s: Seq<char>, c: char, radix: int)
    requires
        digit_value(c) is Some,
    ensures
        digits_value(Seq::<char>::empty(), radix) == 0,
        digits_value(s.push(c), radix) == radix * digits_value(s, radix) + digit_value(c)->0,
{
    assert(s.push(c).drop_last() =~= s);
}

/// What a number may look like: digits below the base, at least one, with a plus
/// sign in front or not, and no more than the limit; a signed one may have a
/// minus sign instead, and lies within 64 bits.
pub proof fn lemma_numbers(d: Seq<char>, radix: int, max: int)
    requires
        d.len() > 0,
        forall|i: int| 0 <= i < d.len() ==> (digit_value(#[trigger] d[i]) matches Some(v) && v < radix),
        digits_value(d, radix) <= max,
    ensures
        unsigned_value(d, radix, max) == Some(digits_value(d, radix)),
        unsigned_value(seq!['+'] + d, radix, max) == Some(digits_value(d, radix)),
        radix == 10 && max <= 0x7FFF_FFFF_FFFF_FFFF ==> {
            &&& signed_value(d) == Some(digits_value(d, 10))
            &&& signed_value(seq!['+'] + d) == Some(digits_value(d, 10))
            &&& signed_value(seq!['-'] + d) == Some(-digits_value(d, 10))
        },
{
    assert(digit_value(d[0]) is Some);
    assert((seq!['+'] + d).skip(1) =~= d);
    assert((seq!['-'] + d).skip(1) =~= d);
}

/// What no number looks like: nothing, a sign alone, a character that is no digit
/// of the base, a value above the limit.
pub proof fn lemma_no_number(s: Seq<char>, radix: int, max: int, i: int)
    ensures
        unsigned_value(Seq::<char>::empty(), radix, max) is None,
        unsigned_value(seq!['+'], radix, max) is None,
        signed_value(Seq::<char>::empty()) is None,
        signed_value(seq!['-']) is None,
        0 < i < s.len() && (digit_value(s[i]) matches Some(v) ==> v >= radix) ==> unsigned_value(
            s,
            radix,
            max,
        ) is None,
        s.len() > 0 && s[0] != '+' && (digit_value(s[0]) matches Some(v) ==> v >= radix)
            ==> unsigned_value(s, radix, max) is None,
        unsigned_value(s, radix, max) matches Some(v) ==> v <= max,
{
    assert(seq!['+'].skip(1).len() == 0);
    assert(seq!['-'].skip(1).len() == 0);
    if 0 < i < s.len() && s[0] == '+' {
        assert(s.skip(1)[i - 1] == s[i]);
    }
}

/// Letters compare without their case, and nothing else does: `A` to `Z` are as
/// `a` to `z`.
pub proof fn lemma_letter_case(a: char, b: char)
    ensures
        ascii_lower(a) == ascii_lower(b) <==> (a == b || (65 <= a as int <= 90 && b as int == a as int
            + 32) || (65 <= b as int <= 90 && a as int == b as int + 32)),
{
}

/// A text ends with another where its last characters are that text.
pub proof fn lemma_suffix(stem: Seq<char>, pat: Seq<char>, s: Seq<char>)
    ensures
        has_suffix(stem + pat, pat),
        has_suffix(s, pat) ==> s == s.take(s.len() - pat.len()) + pat,
{
    assert((stem + pat).subrange(stem.len() as int, (stem + pat).len() as int) =~= pat);
    if has_suffix(s, pat) {
        assert(s.subrange(s.len() - pat.len(), s.len() as int) == pat);
        assert(s =~= s.take(s.len() - pat.len()) + pat);
    }
}

/// The text of octets is what they encode, where they are UTF-8.
pub proof fn lemma_text_of(bytes: Seq<u8>)
    requires
        valid_utf8(bytes),
    ensures
        text_of(bytes) == decode_utf8(bytes),
{
}

} // verus!
