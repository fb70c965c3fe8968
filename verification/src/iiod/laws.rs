//! The iiod protocol on its characters and octets: addresses, lines, and the scan of
//! the context for a device.

use crate::iiod::{first_line, id_in, name_attribute, newline_from, past_empty_lines, scan_devices};
use crate::iiod::{sp, stripped, target, Dir};
use crate::text::{find_in, lemma_find_from, occurs_at};
use vstd::prelude::*;

verus! {

/// The address of an attribute: device, then for a channel its direction and name,
/// then the attribute, with single spaces between them.
pub proof fn lemma_addresses(dev: Seq<char>, chan: Seq<char>, attr: Seq<char>)
    ensures
        target(dev, None, attr) == dev + seq![' '] + attr,
        target(dev, Some((Dir::Input, chan)), attr) == dev + seq![' '] + seq![
            'I',
            'N',
            'P',
            'U',
            'T',
        ] + seq![' '] + chan + seq![' '] + attr,
        target(dev, Some((Dir::Output, chan)), attr) == dev + seq![' '] + seq![
            'O',
            'U',
            'T',
            'P',
            'U',
            'T',
        ] + seq![' '] + chan + seq![' '] + attr,
{
    reveal_strlit(" ");
    reveal_strlit("INPUT");
    reveal_strlit("OUTPUT");
    assert(sp() =~= seq![' ']);
    assert("INPUT"@ =~= seq!['I', 'N', 'P', 'U', 'T']);
    assert("OUTPUT"@ =~= seq!['O', 'U', 'T', 'P', 'U', 'T']);
}

/// A line is stripped of the carriage returns and NULs at its end, and of nothing
/// else.
pub proof fn lemma_stripped(line: Seq<u8>)
    ensures
        ({
            let t = stripped(line);
            &&& t.len() <= line.len()
            &&& t == line.take(t.len() as int)
            &&& t.len() > 0 ==> t.last() != 13 && t.last() != 0
            &&& forall|i: int| t.len() <= i < line.len() ==> #[trigger] line[i] == 13 || line[i] == 0
        }),
    decreases line.len(),
{
    if line.len() > 0 && (line.last() == 0x0D || line.last() == 0) {
        let head = line.drop_last();
        lemma_stripped(head);
        let t = stripped(line);
        assert(line.take(t.len() as int) =~= head.take(t.len() as int));
        assert forall|i: int| t.len() <= i < line.len() implies #[trigger] line[i] == 13 || line[i]
            == 0 by {
            if i < head.len() {
                assert(head[i] == line[i]);
            }
        }
    } else {
        assert(line.take(line.len() as int) =~= line);
    }
}

/// The first line feed from a place on.
pub proof fn lemma_newline_from(s: Seq<u8>, from: int)
    requires
        0 <= from,
    ensures
        match newline_from(s, from) {
            Some(i) => from <= i < s.len() && s[i] == 10 && forall|k: int|
                from <= k < i ==> #[trigger] s[k] != 10,
            None => forall|k: int| from <= k < s.len() ==> #[trigger] s[k] != 10,
        },
    decreases s.len() - from,
{
    if from < s.len() && s[from] != 0x0A {
        lemma_newline_from(s, from + 1);
    }
}

/// Lines end with a line feed. The first line that has anything in it but carriage
/// returns and NULs at its end is the line that is read, and what follows its line
/// feed is left; lines with nothing in them are passed over, and before a line feed
/// nothing is read.
pub proof fn lemma_lines(line: Seq<u8>, rest: Seq<u8>)
    requires
        forall|i: int| 0 <= i < line.len() ==> #[trigger] line[i] != 10,
    ensures
        stripped(line).len() > 0 ==> first_line(line + seq![10u8] + rest) == Some(
            (stripped(line), rest),
        ),
        stripped(line).len() > 0 ==> past_empty_lines(line + seq![10u8] + rest) == line + seq![10u8]
            + rest,
        stripped(line).len() == 0 ==> first_line(line + seq![10u8] + rest) == first_line(rest),
        stripped(line).len() == 0 ==> past_empty_lines(line + seq![10u8] + rest) == past_empty_lines(
            rest,
        ),
        first_line(line) is None,
        past_empty_lines(line) == line,
{
    let s = line + seq![10u8] + rest;
    let n = line.len() as int;
    lemma_newline_from(s, 0);
    lemma_newline_from(line, 0);
    assert(s[n] == 10);
    match newline_from(s, 0) {
        Some(i) => {
            if i < n {
                assert(s[i] == line[i]);
            } else if i > n {
                assert(s[n] != 10);
            }
        },
        None => {},
    }
    assert(newline_from(s, 0) == Some(n));
    assert(s.take(n) =~= line);
    assert(s.skip(n + 1) =~= rest);
    match newline_from(line, 0) {
        Some(i) => {
            assert(line[i] != 10);
        },
        None => {},
    }
}

/// A device is looked for by its name in quotes behind `name=`.
pub proof fn lemma_name_attribute(name: Seq<char>)
    ensures
        name_attribute(name) == seq!['n', 'a', 'm', 'e', '=', '"'] + name + seq!['"'],
{
    reveal_strlit("name=\"");
    reveal_strlit("\"");
    assert("name=\""@ =~= seq!['n', 'a', 'm', 'e', '=', '"']);
    assert("\""@ =~= seq!['"']);
}

/// The id of an element with the wanted name is what stands in quotes behind its
/// first `id=`.
pub proof fn lemma_id_found(seg: Seq<char>, needle: Seq<char>)
    ensures
        match id_in(seg, needle) {
            Some(id) => {
                let p = find_in(seg, "id=\""@)->0;
                &&& find_in(seg, "id=\""@) is Some
                &&& occurs_at(seg, "id=\""@ + id + "\""@, p)
                &&& forall|k: int| 0 <= k < id.len() ==> #[trigger] id[k] != '"'
            },
            None => {
                ||| find_in(seg, needle) is None
                ||| find_in(seg, "id=\""@) is None
                ||| find_in(seg.skip(find_in(seg, "id=\""@)->0 + 4), "\""@) is None
            },
        },
        id_in(seg, needle) is Some ==> exists|q: int| #[trigger] occurs_at(seg, needle, q),
{
    reveal_strlit("id=\"");
    reveal_strlit("\"");
    let key = "id=\""@;
    let quote = "\""@;
    assert(key.len() == 4 && quote.len() == 1 && quote[0] == '"');
    lemma_find_from(seg, needle, 0);
    lemma_find_from(seg, key, 0);
    if let Some(p) = find_in(seg, key) {
        let rest = seg.skip(p + 4);
        lemma_find_from(rest, quote, 0);
        match find_in(rest, quote) {
            Some(end) => {
                let id = rest.take(end);
                let whole = key + id + quote;
                assert(seg.subrange(p, p + 4) == key);
                assert(rest.subrange(end, end + 1) == quote);
                assert(rest.subrange(end, end + 1)[0] == '"');
                assert forall|k: int| 0 <= k < 4 implies seg[p + k] == key[k] by {
                    assert(seg.subrange(p, p + 4)[k] == seg[p + k]);
                }
                assert(seg.subrange(p, p + whole.len()) =~= whole);
                assert(occurs_at(seg, whole, p));
                assert forall|k: int| 0 <= k < id.len() implies #[trigger] id[k] != '"' by {
                    assert(!occurs_at(rest, quote, k));
                    if rest[k] == '"' {
                        assert(rest.subrange(k, k + 1) =~= quote);
                    }
                }
            },
            None => {},
        }
    }
}

/// The context is scanned element by element: the part before the first `<device `
/// first, then what follows it, until an element with the wanted name has an id.
pub proof fn lemma_device_scan(head: Seq<char>, rest: Seq<char>, needle: Seq<char>)
    requires
        find_in(head + seq!['<', 'd', 'e', 'v', 'i', 'c', 'e', ' '] + rest, seq![
            '<',
            'd',
            'e',
            'v',
            'i',
            'c',
            'e',
            ' ',
        ]) == Some(head.len() as int),
    ensures
        scan_devices(head + seq!['<', 'd', 'e', 'v', 'i', 'c', 'e', ' '] + rest, needle) == (if id_in(
            head,
            needle,
        ) is Some {
            id_in(head, needle)
        } else {
            scan_devices(rest, needle)
        }),
{
    reveal_strlit("<device ");
    let tag = seq!['<', 'd', 'e', 'v', 'i', 'c', 'e', ' '];
    assert("<device "@ =~= tag);
    let xml = head + tag + rest;
    let i = head.len() as int;
    assert(xml.take(i) =~= head);
    assert(xml.skip(i + 8) =~= rest);
}

/// Without any `<device ` the whole text is one element.
pub proof fn lemma_single_element(xml: Seq<char>, needle: Seq<char>)
    requires
        find_in(xml, seq!['<', 'd', 'e', 'v', 'i', 'c', 'e', ' ']) is None,
    ensures
        scan_devices(xml, needle) == id_in(xml, needle),
{
    reveal_strlit("<device ");
    assert("<device "@ =~= seq!['<', 'd', 'e', 'v', 'i', 'c', 'e', ' ']);
}

} // verus!
