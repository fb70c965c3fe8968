//! The virtual radio understands the commands of the iiod client, and a READ
//! gives back what was last written.

use crate::iiod::{sp, target, Dir};
use crate::text::{decimal, digit_value, hex_digits, is_space, lemma_decimal_roundtrip};
use crate::text::{signed_value, text_of, trim_end_of, trim_start_of, trimmed, unsigned_value};
use crate::virtual_pluto::{asks, joined, lookup, read_text, value_of, words, Attr, Request};
use vstd::prelude::*;
use vstd::utf8::{decode_utf8, decode_utf8_encode_utf8, encode_utf8, valid_utf8};

verus! {

/// One word: characters, none of them white space.
pub open spec fn is_word(w: Seq<char>) -> bool {
    w.len() > 0 && forall|i: int| 0 <= i < w.len() ==> !is_space(#[trigger] w[i])
}

/// A text that does not end in white space ends in a word.
proof fn lemma_words_nonempty(s: Seq<char>)
    requires
        s.len() > 0,
        !is_space(s.last()),
    ensures
        words(s).len() > 0,
    decreases s.len(),
{
    if s.len() > 1 && !is_space(s[s.len() - 2]) {
        assert(s.drop_last().last() == s[s.len() - 2]);
        lemma_words_nonempty(s.drop_last());
    }
}

/// A word is its own only word.
pub proof fn lemma_one_word(w: Seq<char>)
    requires
        is_word(w),
    ensures
        words(w) == seq![w],
    decreases w.len(),
{
    let head = w.drop_last();
    assert(w.last() == w[w.len() - 1]);
    if w.len() == 1 {
        assert(words(head) =~= Seq::empty());
        assert(seq![w.last()] =~= w);
        assert(words(w) =~= seq![w]);
    } else {
        assert forall|i: int| 0 <= i < head.len() implies !is_space(#[trigger] head[i]) by {
            assert(head[i] == w[i]);
        }
        lemma_one_word(head);
        assert(head.push(w.last()) =~= w);
        assert(words(w) =~= seq![w]);
    }
}

/// The words on both sides of a space.
pub proof fn lemma_words_around_space(a: Seq<char>, b: Seq<char>)
    ensures
        words(a + " "@ + b) == words(a) + words(b),
    decreases b.len(),
{
    reveal_strlit(" ");
    let s = a + " "@ + b;
    if b.len() == 0 {
        assert(s.drop_last() =~= a);
        assert(is_space(s.last()));
        assert(words(a) + words(b) =~= words(a));
    } else {
        let head = b.drop_last();
        let c = b.last();
        lemma_words_around_space(a, head);
        assert(s.drop_last() =~= a + " "@ + head);
        assert(s.last() == c);
        if is_space(c) {
            assert(words(s) == words(a) + words(head));
        } else {
            if b.len() == 1 {
                assert(s[s.len() - 2] == ' ');
                assert(words(head) =~= Seq::empty());
                assert(words(s) =~= words(a) + words(b));
            } else {
                assert(s[s.len() - 2] == b[b.len() - 2]);
                if is_space(b[b.len() - 2]) {
                    assert(words(s) =~= words(a) + words(b));
                } else {
                    assert(head.last() == b[b.len() - 2]);
                    lemma_words_nonempty(head);
                    assert(words(s) =~= words(a) + words(b));
                }
            }
        }
    }
}

/// A decimal number is one word.
proof fn lemma_decimal_word(v: nat)
    ensures
        is_word(decimal(v)),
        decimal(v)[0] != '+',
        decimal(v)[0] != '-',
        v <= usize::MAX ==> unsigned_value(decimal(v), 10, usize::MAX as int) == Some(v as int),
{
    lemma_decimal_roundtrip(v);
    let d = decimal(v);
    assert forall|i: int| 0 <= i < d.len() implies !is_space(#[trigger] d[i]) by {
        assert(digit_value(d[i]) is Some);
    }
    assert(digit_value(d[0]) is Some);
}

/// Eight hexadecimal digits are one word.
proof fn lemma_hex_word(v: nat, n: nat)
    requires
        n > 0,
    ensures
        is_word(hex_digits(v, n)),
    decreases n,
{
    reveal_with_fuel(hex_digits, 2);
    let h = hex_digits(v, n);
    if n == 1 {
        assert(h =~= hex_digits(v / 16, 0).push(h.last()));
    } else {
        lemma_hex_word(v / 16, (n - 1) as nat);
    }
    assert forall|i: int| 0 <= i < h.len() implies !is_space(#[trigger] h[i]) by {
        if i < h.len() - 1 {
            assert(h[i] == hex_digits(v / 16, (n - 1) as nat)[i]);
        }
    }
}

/// The words of a command with one argument.
proof fn lemma_verb(verb: Seq<char>, spaced: Seq<char>, rest: Seq<char>)
    requires
        is_word(verb),
        spaced == verb + " "@,
    ensures
        words(spaced + rest) == seq![verb] + words(rest),
{
    lemma_one_word(verb);
    lemma_words_around_space(verb, rest);
    assert(spaced + rest =~= verb + " "@ + rest);
}

/// The words of an attribute's address, and that they join to the address.
proof fn lemma_target(dev: Seq<char>, chan: Option<(Dir, Seq<char>)>, attr: Seq<char>)
    requires
        is_word(dev),
        is_word(attr),
        chan matches Some((_, c)) ==> is_word(c),
    ensures
        words(target(dev, chan, attr)) == match chan {
            Some((d, c)) => seq![dev, d.word(), c, attr],
            None => seq![dev, attr],
        },
{
    reveal_strlit("INPUT");
    reveal_strlit("OUTPUT");
    lemma_one_word(dev);
    lemma_one_word(attr);
    match chan {
        Some((d, c)) => {
            let w = d.word();
            assert(is_word(w));
            lemma_one_word(w);
            lemma_one_word(c);
            let t3 = c + sp() + attr;
            let t2 = w + sp() + t3;
            lemma_words_around_space(c, attr);
            lemma_words_around_space(w, t3);
            lemma_words_around_space(dev, t2);
            assert(target(dev, chan, attr) =~= dev + sp() + t2);
            assert(words(target(dev, chan, attr)) =~= seq![dev, w, c, attr]);
        },
        None => {
            lemma_words_around_space(dev, attr);
            assert(words(target(dev, chan, attr)) =~= seq![dev, attr]);
        },
    }
}

/// What `joined` makes of the words of an address behind a verb.
proof fn lemma_joined_target(
    w: Seq<Seq<char>>,
    dev: Seq<char>,
    chan: Option<(Dir, Seq<char>)>,
    attr: Seq<char>,
    to: int,
)
    requires
        to <= w.len(),
        w.subrange(1, to) == match chan {
            Some((d, c)) => seq![dev, d.word(), c, attr],
            None => seq![dev, attr],
        },
        to == if chan is Some {
            5int
        } else {
            3
        },
    ensures
        joined(w, 1, to) == target(dev, chan, attr),
        w[to - 1] == attr,
{
    reveal_with_fuel(joined, 5);
    let part = w.subrange(1, to);
    assert(part[0] == w[1]);
    assert(part[1] == w[2]);
    match chan {
        Some((d, c)) => {
            assert(part[2] == w[3]);
            assert(part[3] == w[4]);
        },
        None => {},
    }
}

/// The virtual radio takes the client's READ command for a read of the
/// attribute that it addresses.
pub proof fn lemma_read_understood(
    r: Request,
    dev: Seq<char>,
    chan: Option<(Dir, Seq<char>)>,
    attr: Seq<char>,
)
    requires
        is_word(dev),
        is_word(attr),
        chan matches Some((_, c)) ==> is_word(c),
        asks(r, words("READ "@ + target(dev, chan, attr))),
    ensures
        r matches Request::Read { key, attr: name } && key@ == target(dev, chan, attr) && name@
            == attr,
{
    reveal_strlit("READ ");
    reveal_strlit("READ");
    reveal_strlit(" ");
    assert("READ "@ =~= "READ"@ + " "@);
    lemma_verb("READ"@, "READ "@, target(dev, chan, attr));
    lemma_target(dev, chan, attr);
    let w = words("READ "@ + target(dev, chan, attr));
    let n = if chan is Some {
        5int
    } else {
        3
    };
    assert(w.len() == n);
    assert(w.subrange(1, n) =~= words(target(dev, chan, attr)));
    lemma_joined_target(w, dev, chan, attr, n);
    lemma_verbs_differ("READ"@);
    assert(w[0] == "READ"@);
}

/// The virtual radio takes the client's WRITE command for a write of `len`
/// octets to the attribute that it addresses.
pub proof fn lemma_write_understood(
    r: Request,
    dev: Seq<char>,
    chan: Option<(Dir, Seq<char>)>,
    attr: Seq<char>,
    len: usize,
)
    requires
        is_word(dev),
        is_word(attr),
        chan matches Some((_, c)) ==> is_word(c),
        asks(r, words("WRITE "@ + target(dev, chan, attr) + sp() + decimal(len as nat))),
    ensures
        r matches Request::Write { key, len: n } && key@ == target(dev, chan, attr) && n == len,
{
    reveal_strlit("WRITE ");
    reveal_strlit("WRITE");
    reveal_strlit(" ");
    assert("WRITE "@ =~= "WRITE"@ + " "@);
    let t = target(dev, chan, attr);
    let d = decimal(len as nat);
    lemma_decimal_word(len as nat);
    lemma_one_word(d);
    lemma_words_around_space("WRITE "@ + t, d);
    lemma_verb("WRITE"@, "WRITE "@, t);
    lemma_target(dev, chan, attr);
    let w = words("WRITE "@ + t + sp() + d);
    let n = if chan is Some {
        5int
    } else {
        3
    };
    assert(w =~= seq!["WRITE"@] + words(t) + seq![d]);
    assert(w.len() == n + 1);
    assert(w.subrange(1, n) =~= words(t));
    lemma_joined_target(w, dev, chan, attr, n);
    lemma_verbs_differ("WRITE"@);
    assert(w[0] == "WRITE"@);
    assert(w.last() == d);
}

/// White space behind a text adds no word.
proof fn lemma_words_before_space(a: Seq<char>, eol: Seq<char>)
    requires
        forall|i: int| 0 <= i < eol.len() ==> is_space(#[trigger] eol[i]),
    ensures
        words(a + eol) == words(a),
    decreases eol.len(),
{
    if eol.len() == 0 {
        assert(a + eol =~= a);
    } else {
        let head = eol.drop_last();
        assert forall|i: int| 0 <= i < head.len() implies is_space(#[trigger] head[i]) by {
            assert(head[i] == eol[i]);
        }
        lemma_words_before_space(a, head);
        assert((a + eol).drop_last() =~= a + head);
        assert((a + eol).last() == eol[eol.len() - 1]);
    }
}

/// Words joined by single spaces are these words.
proof fn lemma_words_of_joined(keys: Seq<Seq<char>>, n: int)
    requires
        0 <= n <= keys.len(),
        forall|i: int| 0 <= i < keys.len() ==> is_word(#[trigger] keys[i]),
    ensures
        words(joined(keys, 0, n)) == keys.take(n),
    decreases n,
{
    if n == 0 {
        assert(keys.take(0) =~= Seq::empty());
    } else {
        lemma_one_word(keys[n - 1]);
        assert(keys.take(n) =~= keys.take(n - 1).push(keys[n - 1]));
        if n == 1 {
            assert(seq![keys[0]] =~= keys.take(1));
        } else {
            lemma_words_of_joined(keys, n - 1);
            lemma_words_around_space(joined(keys, 0, n - 1), keys[n - 1]);
            assert(keys.take(n - 1) + seq![keys[n - 1]] =~= keys.take(n));
        }
    }
}

/// Joining the words behind a verb.
proof fn lemma_joined_behind(w: Seq<Seq<char>>, keys: Seq<Seq<char>>, n: int)
    requires
        0 <= n <= keys.len(),
        n < w.len(),
        forall|i: int| 0 <= i < n ==> #[trigger] w[i + 1] == keys[i],
    ensures
        joined(w, 1, n + 1) == joined(keys, 0, n),
    decreases n,
{
    if n > 0 {
        assert(w[(n - 1) + 1] == keys[n - 1]);
        assert(w[0int + 1] == keys[0]);
        lemma_joined_behind(w, keys, n - 1);
    }
}

proof fn lemma_encode_concat(a: Seq<char>, b: Seq<char>)
    ensures
        encode_utf8(a + b) == encode_utf8(a) + encode_utf8(b),
    decreases a.len(),
{
    if a.len() == 0 {
        assert(a + b =~= b);
        assert(encode_utf8(a) + encode_utf8(b) =~= encode_utf8(b));
    } else {
        lemma_encode_concat(a.drop_first(), b);
        assert((a + b).drop_first() =~= a.drop_first() + b);
        assert((a + b)[0] == a[0]);
        assert(encode_utf8(a + b) =~= encode_utf8(a) + encode_utf8(b));
    }
}

/// A READ gives back what was last written: where a client sends a WRITE for
/// some key, its payload (UTF-8, without white space around it) and then a
/// READ for the same key, each line ended by white space such as CR LF, the
/// WRITE is for that many octets, and the READ is answered by the payload,
/// octet for octet, between its length and a line end.
pub proof fn lemma_value_reads_back(
    write: Request,
    read: Request,
    before: Seq<Attr>,
    after: Seq<Attr>,
    keys: Seq<Seq<char>>,
    payload: Seq<u8>,
    eol: Seq<char>,
)
    requires
        forall|i: int| 0 <= i < keys.len() ==> is_word(#[trigger] keys[i]),
        forall|i: int| 0 <= i < eol.len() ==> is_space(#[trigger] eol[i]),
        payload.len() <= usize::MAX,
        valid_utf8(payload),
        trimmed(decode_utf8(payload)) == decode_utf8(payload),
        asks(
            write,
            words(
                "WRITE "@ + joined(keys, 0, keys.len() as int) + sp() + decimal(payload.len())
                    + eol,
            ),
        ),
        asks(read, words("READ "@ + joined(keys, 0, keys.len() as int) + eol)),
        write matches Request::Write { key, len: _ } ==> forall|k: Seq<char>| #[trigger]
            lookup(after, k) == if k == key@ {
                Some(trimmed(text_of(payload)))
            } else {
                lookup(before, k)
            },
    ensures
        write matches Request::Write { key, len } && key@ == joined(keys, 0, keys.len() as int)
            && len == payload.len(),
        read matches Request::Read { key, attr } && ({
            let reply = read_text(value_of(after, key@, attr@));
            &&& reply == decimal(payload.len()) + "\n"@ + decode_utf8(payload) + "\n"@
            &&& encode_utf8(reply) == encode_utf8(decimal(payload.len()) + "\n"@) + payload
                + encode_utf8("\n"@)
        }),
{
    let n = keys.len() as int;
    let key = joined(keys, 0, n);
    let d = decimal(payload.len());
    reveal_strlit("READ ");
    reveal_strlit("READ");
    reveal_strlit("WRITE ");
    reveal_strlit("WRITE");
    reveal_strlit(" ");
    assert("READ "@ =~= "READ"@ + " "@);
    assert("WRITE "@ =~= "WRITE"@ + " "@);
    lemma_words_of_joined(keys, n);
    assert(keys.take(n) =~= keys);
    lemma_verb("READ"@, "READ "@, key);
    lemma_verb("WRITE"@, "WRITE "@, key);
    lemma_decimal_word(payload.len());
    lemma_one_word(d);
    lemma_words_around_space("WRITE "@ + key, d);
    lemma_words_before_space("READ "@ + key, eol);
    lemma_words_before_space("WRITE "@ + key + sp() + d, eol);
    let r = words("READ "@ + key + eol);
    let w = words("WRITE "@ + key + sp() + d + eol);
    assert(r =~= seq!["READ"@] + keys);
    assert(w =~= seq!["WRITE"@] + keys + seq![d]);
    assert(r[0] == "READ"@);
    assert(w[0] == "WRITE"@);
    assert(w.last() == d);
    lemma_joined_behind(r, keys, n);
    lemma_joined_behind(w, keys, n);
    lemma_verbs_differ("READ"@);
    lemma_verbs_differ("WRITE"@);
    let value = decode_utf8(payload);
    decode_utf8_encode_utf8(payload);
    lemma_encode_concat(d + "\n"@, value);
    lemma_encode_concat(d + "\n"@ + value, "\n"@);
}

/// The verbs of the protocol are told apart by their letters.
proof fn lemma_verbs_differ(v: Seq<char>)
    ensures
        v == "READ"@ ==> v.len() == 4 && v[0] == 'R',
        v == "WRITE"@ ==> v.len() == 5 && v[0] == 'W',
        v == "READBUF"@ ==> v.len() == 7 && v[0] == 'R',
        v == "WRITEBUF"@ ==> v.len() == 8 && v[0] == 'W',
        v == "PRINT"@ ==> v.len() == 5 && v[0] == 'P',
        v == "VERSION"@ ==> v.len() == 7 && v[0] == 'V',
        v == "TIMEOUT"@ ==> v.len() == 7 && v[0] == 'T',
        v == "SET"@ ==> v.len() == 3 && v[0] == 'S',
        v == "CLOSE"@ ==> v.len() == 5 && v[0] == 'C',
        v == "EXIT"@ ==> v.len() == 4 && v[0] == 'E',
        v == "OPEN"@ ==> v.len() == 4 && v[0] == 'O',
{
    reveal_strlit("READ");
    reveal_strlit("WRITE");
    reveal_strlit("READBUF");
    reveal_strlit("WRITEBUF");
    reveal_strlit("PRINT");
    reveal_strlit("VERSION");
    reveal_strlit("TIMEOUT");
    reveal_strlit("SET");
    reveal_strlit("CLOSE");
    reveal_strlit("EXIT");
    reveal_strlit("OPEN");
}

/// The virtual radio takes the client's buffer commands for what they are,
/// with the number of octets that they name.
pub proof fn lemma_buffer_commands_understood(
    read: Request,
    write: Request,
    dev: Seq<char>,
    nbytes: usize,
)
    requires
        is_word(dev),
        asks(read, words("READBUF "@ + dev + sp() + decimal(nbytes as nat))),
        asks(write, words("WRITEBUF "@ + dev + sp() + decimal(nbytes as nat))),
    ensures
        read == (Request::ReadBuf { nbytes }),
        write == (Request::WriteBuf { nbytes }),
{
    reveal_strlit("READBUF ");
    reveal_strlit("WRITEBUF ");
    reveal_strlit("READBUF");
    reveal_strlit("WRITEBUF");
    reveal_strlit(" ");
    assert("READBUF "@ =~= "READBUF"@ + " "@);
    assert("WRITEBUF "@ =~= "WRITEBUF"@ + " "@);
    let d = decimal(nbytes as nat);
    lemma_decimal_word(nbytes as nat);
    lemma_one_word(d);
    lemma_one_word(dev);
    lemma_words_around_space("READBUF "@ + dev, d);
    lemma_words_around_space("WRITEBUF "@ + dev, d);
    lemma_verb("READBUF"@, "READBUF "@, dev);
    lemma_verb("WRITEBUF"@, "WRITEBUF "@, dev);
    lemma_verbs_differ("READBUF"@);
    lemma_verbs_differ("WRITEBUF"@);
    assert(words("READBUF "@ + dev + sp() + d) =~= seq!["READBUF"@, dev, d]);
    assert(words("WRITEBUF "@ + dev + sp() + d) =~= seq!["WRITEBUF"@, dev, d]);
}

/// The virtual radio takes the client's OPEN command for an opening of the
/// receive device or of another one, whatever the buffer.
pub proof fn lemma_open_understood(
    r: Request,
    dev: Seq<char>,
    samples: usize,
    mask: u32,
    cyclic: bool,
)
    requires
        is_word(dev),
        asks(
            r,
            words(
                "OPEN "@ + dev + sp() + decimal(samples as nat) + sp() + hex_digits(mask as nat, 8)
                    + (if cyclic {
                    " CYCLIC"@
                } else {
                    Seq::<char>::empty()
                }),
            ),
        ),
    ensures
        r == (Request::Open { receive: dev == "iio:device2"@ }),
{
    reveal_strlit("OPEN ");
    reveal_strlit("OPEN");
    reveal_strlit(" ");
    reveal_strlit(" CYCLIC");
    reveal_strlit("CYCLIC");
    assert("OPEN "@ =~= "OPEN"@ + " "@);
    assert(" CYCLIC"@ =~= " "@ + "CYCLIC"@);
    let d = decimal(samples as nat);
    let h = hex_digits(mask as nat, 8);
    lemma_decimal_word(samples as nat);
    lemma_hex_word(mask as nat, 8);
    lemma_one_word(d);
    lemma_one_word(h);
    lemma_one_word(dev);
    let a = "OPEN "@ + dev;
    let b = a + sp() + d;
    let c = b + sp() + h;
    lemma_verb("OPEN"@, "OPEN "@, dev);
    lemma_words_around_space(a, d);
    lemma_words_around_space(b, h);
    assert(words(c) =~= seq!["OPEN"@, dev, d, h]);
    lemma_words_around_space(c, "CYCLIC"@);
    assert(c + " CYCLIC"@ =~= c + " "@ + "CYCLIC"@);
    assert(c + Seq::<char>::empty() =~= c);
    lemma_verbs_differ("OPEN"@);
    let text = c + (if cyclic {
        " CYCLIC"@
    } else {
        Seq::<char>::empty()
    });
    let w = words(text);
    if cyclic {
        assert(w == words(c) + words("CYCLIC"@));
    } else {
        assert(w == words(c));
    }
    assert(w.len() >= 4);
    assert(w[0] == words(c)[0]);
    assert(w[1] == words(c)[1]);
}

/// The virtual radio acknowledges the client's remaining commands.
pub proof fn lemma_others_acknowledged(
    timeout: Request,
    buffers: Request,
    close: Request,
    dev: Seq<char>,
    n: u32,
)
    requires
        is_word(dev),
        asks(timeout, words("TIMEOUT "@ + decimal(n as nat))),
        asks(buffers, words("SET "@ + dev + " BUFFERS_COUNT "@ + decimal(n as nat))),
        asks(close, words("CLOSE "@ + dev)),
    ensures
        timeout is Acknowledge,
        buffers is Acknowledge,
        close is Acknowledge,
{
    reveal_strlit("TIMEOUT ");
    reveal_strlit("TIMEOUT");
    reveal_strlit("SET ");
    reveal_strlit("SET");
    reveal_strlit("CLOSE ");
    reveal_strlit("CLOSE");
    reveal_strlit(" ");
    assert("TIMEOUT "@ =~= "TIMEOUT"@ + " "@);
    assert("SET "@ =~= "SET"@ + " "@);
    assert("CLOSE "@ =~= "CLOSE"@ + " "@);
    let d = decimal(n as nat);
    let rest = dev + " BUFFERS_COUNT "@ + d;
    lemma_verb("TIMEOUT"@, "TIMEOUT "@, d);
    lemma_verb("SET"@, "SET "@, rest);
    lemma_verb("CLOSE"@, "CLOSE "@, dev);
    assert("SET "@ + dev + " BUFFERS_COUNT "@ + d =~= "SET "@ + rest);
    assert(words("TIMEOUT "@ + d)[0] == "TIMEOUT"@);
    assert(words("SET "@ + rest)[0] == "SET"@);
    assert(words("CLOSE "@ + dev)[0] == "CLOSE"@);
    lemma_verbs_differ("TIMEOUT"@);
    lemma_verbs_differ("SET"@);
    lemma_verbs_differ("CLOSE"@);
}

proof fn lemma_trim_end_newline(d: Seq<char>)
    requires
        is_word(d),
    ensures
        trim_end_of(d + "\n"@) == d,
{
    reveal_strlit("\n");
    reveal_with_fuel(trim_end_of, 3);
    let s = d + "\n"@;
    assert(s.drop_last() =~= d);
    assert(is_space(s.last()));
    assert(d.last() == d[d.len() - 1]);
}

/// The client reads the count in the virtual radio's reply.
pub proof fn lemma_count_reply_read(n: nat)
    requires
        n <= i64::MAX,
    ensures
        signed_value(trimmed(decimal(n) + "\n"@)) == Some(n as int),
{
    let d = decimal(n);
    lemma_decimal_word(n);
    lemma_decimal_roundtrip(n);
    lemma_trim_end_newline(d);
    reveal_with_fuel(trim_start_of, 2);
    reveal_with_fuel(trim_end_of, 2);
    reveal_strlit("\n");
    let s = d + "\n"@;
    assert(s[0] == d[0]);
    assert(d.last() == d[d.len() - 1]);
    assert(d.skip(0) =~= d);
}

} // verus!
