//! A virtual Pluto: an iiod server that hosts fake AD9363 radios and couples
//! them over a simulated air interface. Here are its protocol (requests and
//! replies), each radio's attributes and transmit stream on the shared air
//! timeline, and the pacing by the air clock. Underruns happen exactly as on
//! hardware: samples written after the air clock has passed are lost.

use crate::text::{chars_of, decimal, equals, from_utf8_lossy, is_space, is_whitespace};
use crate::text::{parse_unsigned, push_all, push_decimal, push_str, string_of, text_of, trim};
use crate::text::{trimmed, unsigned_value, word_views};
use vstd::prelude::*;
use vstd::string::*;
use vstd::utf8::encode_utf8;

pub mod laws;

verus! {

/// Samples per buffer.
pub const BUF_SAMPLES: u64 = 16384;

/// The words of a text: the runs of characters between white space.
pub open spec fn words(s: Seq<char>) -> Seq<Seq<char>>
    decreases s.len(),
{
    if s.len() == 0 {
        Seq::empty()
    } else {
        let before = words(s.drop_last());
        if is_space(s.last()) {
            before
        } else if s.len() == 1 || is_space(s[s.len() - 2]) {
            before.push(seq![s.last()])
        } else {
            before.drop_last().push(before.last().push(s.last()))
        }
    }
}

/// Split a text at white space.
pub fn split_whitespace(s: &[char]) -> (out: Vec<Vec<char>>)
    ensures
        word_views(out@) == words(s@),
{
    let mut out: Vec<Vec<char>> = Vec::new();
    let mut inside: bool = false;
    proof {
        assert(s@.take(0) =~= Seq::<char>::empty());
        assert(word_views(out@) =~= words(s@.take(0)));
    }
    for i in 0..s.len()
        invariant
            word_views(out@) == words(s@.take(i as int)),
            inside == (i > 0 && !is_space(s@[i - 1])),
            inside ==> out@.len() > 0,
    {
        let ghost head = s@.take(i + 1);
        let ghost was = out@;
        proof {
            assert(head.drop_last() =~= s@.take(i as int));
            if i > 0 {
                assert(head[head.len() - 2] == s@[i - 1]);
            }
        }
        let c: char = s[i];
        if is_whitespace(c) {
            inside = false;
        } else if !inside {
            let mut w: Vec<char> = Vec::new();
            w.push(c);
            proof {
                assert(w@ =~= seq![c]);
            }
            out.push(w);
            inside = true;
            proof {
                assert(word_views(out@) =~= words(head));
            }
        } else {
            let last: Option<Vec<char>> = out.pop();
            match last {
                Some(mut w) => {
                    w.push(c);
                    out.push(w);
                },
                None => {},
            }
            proof {
                assert(word_views(was).last() == was.last()@);
                assert(word_views(out@) =~= words(head));
            }
        }
    }
    proof {
        assert(s@.take(s@.len() as int) =~= s@);
    }
    out
}

/// The words `from..to` with single spaces between them.
pub open spec fn joined(w: Seq<Seq<char>>, from: int, to: int) -> Seq<char>
    decreases to - from,
{
    if from >= to {
        Seq::empty()
    } else if from + 1 == to {
        w[from]
    } else {
        joined(w, from, to - 1) + " "@ + w[to - 1]
    }
}

fn join(w: &Vec<Vec<char>>, from: usize, to: usize) -> (out: Vec<char>)
    requires
        to <= w@.len(),
    ensures
        out@ == joined(word_views(w@), from as int, to as int),
{
    let mut out: Vec<char> = Vec::new();
    if from >= to {
        return out;
    }
    push_all(&mut out, w[from].as_slice());
    proof {
        assert(out@ =~= word_views(w@)[from as int]);
    }
    for i in from + 1..to
        invariant
            from < i <= to <= w@.len(),
            out@ == joined(word_views(w@), from as int, i as int),
    {
        push_str(&mut out, " ");
        push_all(&mut out, w[i].as_slice());
        proof {
            assert(out@ =~= joined(word_views(w@), from as int, i + 1));
        }
    }
    out
}

/// A number in a request: `None` counts as 0.
pub open spec fn count_of(w: Seq<char>) -> int {
    match unsigned_value(w, 10, usize::MAX as int) {
        Some(v) => v,
        None => 0,
    }
}

fn count(w: &[char]) -> (n: usize)
    ensures
        n == count_of(w@),
{
    match parse_unsigned(w, 10, usize::MAX as u64) {
        Some(v) => v as usize,
        None => 0,
    }
}

/// What a client asks for.
#[derive(Debug, PartialEq, Eq)]
pub enum Request {
    /// An empty line.
    Empty,
    /// PRINT: the context XML.
    Print,
    /// VERSION, TIMEOUT, SET, CLOSE: acknowledged.
    Acknowledge,
    /// EXIT: end the connection.
    Exit,
    /// OPEN: a buffer, on the receive device or another.
    Open { receive: bool },
    /// READ: the attribute with this key; `attr` is its last word.
    Read { key: Vec<char>, attr: Vec<char> },
    /// WRITE: `len` octets of a new value follow for this key.
    Write { key: Vec<char>, len: usize },
    /// WRITE without anything to write.
    BareWrite,
    /// READBUF: `nbytes` octets of samples.
    ReadBuf { nbytes: usize },
    /// WRITEBUF: `nbytes` octets of samples follow.
    WriteBuf { nbytes: usize },
    /// Anything else.
    Unknown,
}

/// The request is the one that these words spell.
pub open spec fn asks(r: Request, w: Seq<Seq<char>>) -> bool {
    let second = if w.len() > 1 {
        w[1]
    } else {
        Seq::empty()
    };
    let third = if w.len() > 2 {
        count_of(w[2])
    } else {
        0
    };
    if w.len() == 0 {
        r is Empty
    } else if w[0] == "PRINT"@ {
        r is Print
    } else if w[0] == "VERSION"@ || w[0] == "TIMEOUT"@ || w[0] == "SET"@ || w[0] == "CLOSE"@ {
        r is Acknowledge
    } else if w[0] == "EXIT"@ {
        r is Exit
    } else if w[0] == "OPEN"@ {
        r matches Request::Open { receive } && receive == (second == "iio:device2"@)
    } else if w[0] == "READ"@ {
        r matches Request::Read { key, attr } && key@ == joined(w, 1, w.len() as int) && attr@
            == w.last()
    } else if w[0] == "WRITE"@ {
        if w.len() == 1 {
            r is BareWrite
        } else {
            r matches Request::Write { key, len } && key@ == joined(w, 1, w.len() - 1) && len
                == count_of(w.last())
        }
    } else if w[0] == "READBUF"@ {
        r matches Request::ReadBuf { nbytes } && nbytes == third
    } else if w[0] == "WRITEBUF"@ {
        r matches Request::WriteBuf { nbytes } && nbytes == third
    } else {
        r is Unknown
    }
}

/// Read a request line.
pub fn parse_request(line: &str) -> (r: Request)
    ensures
        asks(r, words(line@)),
{
    let cs: Vec<char> = chars_of(line);
    let w: Vec<Vec<char>> = split_whitespace(cs.as_slice());
    let ghost v = word_views(w@);
    let n: usize = w.len();
    if n == 0 {
        return Request::Empty;
    }
    proof {
        assert(v[0] == w@[0]@);
        assert(v.last() == w@[n - 1]@);
        if n > 1 {
            assert(v[1] == w@[1]@);
        }
        if n > 2 {
            assert(v[2] == w@[2]@);
        }
        reveal_strlit("iio:device2");
        assert("iio:device2"@.len() == 11);
    }
    let third: usize = if n > 2 {
        count(w[2].as_slice())
    } else {
        0
    };
    let verb = w[0].as_slice();
    if equals(verb, "PRINT") {
        Request::Print
    } else if equals(verb, "VERSION") || equals(verb, "TIMEOUT") || equals(verb, "SET") || equals(
        verb,
        "CLOSE",
    ) {
        Request::Acknowledge
    } else if equals(verb, "EXIT") {
        Request::Exit
    } else if equals(verb, "OPEN") {
        Request::Open { receive: n > 1 && equals(w[1].as_slice(), "iio:device2") }
    } else if equals(verb, "READ") {
        let key: Vec<char> = join(&w, 1, n);
        let mut attr: Vec<char> = Vec::new();
        push_all(&mut attr, w[n - 1].as_slice());
        proof {
            assert(attr@ =~= v.last());
        }
        Request::Read { key, attr }
    } else if equals(verb, "WRITE") {
        if n == 1 {
            Request::BareWrite
        } else {
            let key: Vec<char> = join(&w, 1, n - 1);
            Request::Write { key, len: count(w[n - 1].as_slice()) }
        }
    } else if equals(verb, "READBUF") {
        Request::ReadBuf { nbytes: third }
    } else if equals(verb, "WRITEBUF") {
        Request::WriteBuf { nbytes: third }
    } else {
        Request::Unknown
    }
}

/// The value of an attribute that nobody wrote.
pub open spec fn default_value(attr: Seq<char>) -> Seq<char> {
    if attr == "xo_correction"@ {
        "40000000"@
    } else if attr == "sampling_frequency"@ {
        "4000000"@
    } else if attr == "frequency"@ {
        "1250000000"@
    } else if attr == "rf_bandwidth"@ {
        "2200000"@
    } else if attr == "hardwaregain"@ {
        "0"@
    } else if attr == "gain_control_mode"@ {
        "manual"@
    } else {
        "0"@
    }
}

/// The value of an attribute that nobody wrote.
pub fn default_attr(attr: &[char]) -> (v: &'static str)
    ensures
        v@ == default_value(attr@),
{
    if equals(attr, "xo_correction") {
        "40000000"
    } else if equals(attr, "sampling_frequency") {
        "4000000"
    } else if equals(attr, "frequency") {
        "1250000000"
    } else if equals(attr, "rf_bandwidth") {
        "2200000"
    } else if equals(attr, "hardwaregain") {
        "0"
    } else if equals(attr, "gain_control_mode") {
        "manual"
    } else {
        "0"
    }
}

/// One attribute that was written.
pub struct Attr {
    pub key: Vec<char>,
    pub value: Vec<char>,
}

/// The attributes that were written.
pub struct Attrs {
    pub list: Vec<Attr>,
}

/// The value that `list` gives for `key`.
pub open spec fn lookup(list: Seq<Attr>, key: Seq<char>) -> Option<Seq<char>>
    decreases list.len(),
{
    if list.len() == 0 {
        None
    } else if list.last().key@ == key {
        Some(list.last().value@)
    } else {
        lookup(list.drop_last(), key)
    }
}

/// Changing the value of the entry that decides changes what is looked up
/// under its key, and nothing else.
proof fn lemma_lookup_update(list: Seq<Attr>, i: int, a: Attr, key: Seq<char>)
    requires
        0 <= i < list.len(),
        list[i].key@ == a.key@,
        forall|j: int| i < j < list.len() ==> (#[trigger] list[j]).key@ != a.key@,
    ensures
        lookup(list.update(i, a), key) == if key == a.key@ {
            Some(a.value@)
        } else {
            lookup(list, key)
        },
    decreases list.len(),
{
    let new = list.update(i, a);
    if i == list.len() - 1 {
        assert(new.drop_last() =~= list.drop_last());
    } else {
        assert(new.last() == list.last());
        assert(list.last().key@ != a.key@);
        lemma_lookup_update(list.drop_last(), i, a, key);
        assert(new.drop_last() =~= list.drop_last().update(i, a));
    }
}

fn same_chars(a: &[char], b: &[char]) -> (r: bool)
    ensures
        r == (a@ == b@),
{
    if a.len() != b.len() {
        return false;
    }
    for i in 0..a.len()
        invariant
            a@.len() == b@.len(),
            forall|k: int| 0 <= k < i ==> a@[k] == #[trigger] b@[k],
    {
        if a[i] != b[i] {
            return false;
        }
    }
    proof {
        assert(a@ =~= b@);
    }
    true
}

impl Attrs {
    /// Nothing written.
    pub fn new() -> (a: Self)
        ensures
            forall|k: Seq<char>| #[trigger] lookup(a.list@, k) is None,
    {
        Attrs { list: Vec::new() }
    }

    /// The value for `key`, if it was written.
    pub fn get(&self, key: &[char]) -> (r: Option<String>)
        ensures
            match lookup(self.list@, key@) {
                Some(v) => r matches Some(s) && s@ == v,
                None => r is None,
            },
    {
        let mut i: usize = self.list.len();
        proof {
            assert(self.list@.take(i as int) =~= self.list@);
        }
        while i > 0
            invariant
                i <= self.list@.len(),
                lookup(self.list@, key@) == lookup(self.list@.take(i as int), key@),
            decreases i,
        {
            let ghost head = self.list@.take(i as int);
            i = i - 1;
            proof {
                assert(head.drop_last() =~= self.list@.take(i as int));
                assert(head.last() == self.list@[i as int]);
            }
            if same_chars(self.list[i].key.as_slice(), key) {
                return Some(string_of(self.list[i].value.as_slice()));
            }
        }
        None
    }

    /// Write the value for `key`.
    pub fn insert(&mut self, key: Vec<char>, value: Vec<char>)
        ensures
            forall|k: Seq<char>| #[trigger]
                lookup(final(self).list@, k) == if k == key@ {
                    Some(value@)
                } else {
                    lookup(old(self).list@, k)
                },
    {
        let ghost before = self.list@;
        let mut i: usize = self.list.len();
        while i > 0
            invariant
                i <= self.list@.len(),
                self.list@ == before,
                before == old(self).list@,
                forall|j: int| i <= j < self.list@.len() ==> (#[trigger] self.list@[j]).key@ != key@,
            decreases i,
        {
            i = i - 1;
            if same_chars(self.list[i].key.as_slice(), key.as_slice()) {
                let a = Attr { key, value };
                proof {
                    assert forall|k: Seq<char>| #[trigger]
                        lookup(before.update(i as int, a), k) == if k == a.key@ {
                            Some(a.value@)
                        } else {
                            lookup(before, k)
                        } by {
                        lemma_lookup_update(before, i as int, a, k);
                    }
                }
                self.list[i] = a;
                return;
            }
        }
        self.list.push(Attr { key, value });
        proof {
            assert(self.list@.drop_last() =~= before);
        }
    }
}

impl Attrs {
    /// Write the text of a WRITE's payload as the value for `key`, without the
    /// white space around it.
    pub fn store_text(&mut self, key: Vec<char>, text: &str)
        ensures
            forall|k: Seq<char>| #[trigger]
                lookup(final(self).list@, k) == if k == key@ {
                    Some(trimmed(text@))
                } else {
                    lookup(old(self).list@, k)
                },
    {
        let cs: Vec<char> = chars_of(text);
        self.insert(key, trim(cs.as_slice()));
    }

    /// Write the payload of a WRITE as the value for `key`; returns the reply,
    /// the number of octets taken.
    pub fn store(&mut self, key: Vec<char>, payload: &[u8]) -> (reply: String)
        ensures
            forall|k: Seq<char>| #[trigger]
                lookup(final(self).list@, k) == if k == key@ {
                    Some(trimmed(text_of(payload@)))
                } else {
                    lookup(old(self).list@, k)
                },
            reply@ == decimal(payload@.len()) + "\n"@,
    {
        let text: String = from_utf8_lossy(payload);
        self.store_text(key, text.as_str());
        count_reply(payload.len())
    }
}

/// What a READ finds: the value written under the key, or the attribute's
/// default.
pub open spec fn value_of(list: Seq<Attr>, key: Seq<char>, attr: Seq<char>) -> Seq<char> {
    match lookup(list, key) {
        Some(v) => v,
        None => default_value(attr),
    }
}

/// What a READ finds, see [`value_of`].
pub fn read_value(attrs: &Attrs, key: &[char], attr: &[char]) -> (s: String)
    ensures
        s@ == value_of(attrs.list@, key@, attr@),
{
    match attrs.get(key) {
        Some(v) => v,
        None => text(default_attr(attr)),
    }
}

/// The reply to a READ: length in octets, value, each on a line.
pub open spec fn read_text(value: Seq<char>) -> Seq<char> {
    decimal(encode_utf8(value).len()) + "\n"@ + value + "\n"@
}

/// The reply to a READ, see [`read_text`].
pub fn read_reply(value: &str) -> (s: String)
    ensures
        s@ == read_text(value@),
{
    let mut out: Vec<char> = Vec::new();
    push_decimal(&mut out, value.as_bytes().len() as u64);
    proof {
        assert(out@ =~= decimal(value.spec_bytes().len()));
    }
    push_str(&mut out, "\n");
    push_str(&mut out, value);
    push_str(&mut out, "\n");
    string_of(out.as_slice())
}

/// The reply to a PRINT: length in octets on a line, then the text.
pub fn print_reply(xml: &str) -> (s: String)
    ensures
        s@ == decimal(xml.spec_bytes().len()) + "\n"@ + xml@,
{
    let mut out: Vec<char> = Vec::new();
    push_decimal(&mut out, xml.as_bytes().len() as u64);
    proof {
        assert(out@ =~= decimal(xml.spec_bytes().len()));
    }
    push_str(&mut out, "\n");
    push_str(&mut out, xml);
    string_of(out.as_slice())
}

/// A reply that is a count.
pub fn count_reply(n: usize) -> (s: String)
    ensures
        s@ == decimal(n as nat) + "\n"@,
{
    let mut out: Vec<char> = Vec::new();
    push_decimal(&mut out, n as u64);
    proof {
        assert(out@ =~= decimal(n as nat));
    }
    push_str(&mut out, "\n");
    string_of(out.as_slice())
}

/// One client connection: whether the channel mask is still owed.
#[derive(Debug, Clone, Copy, PartialEq, Eq, Structural)]
pub struct Session {
    /// The channel mask is sent only with the first READBUF after OPEN.
    pub new_client: bool,
}

/// What the server does with a request, once the radio has done its part.
#[derive(Debug, PartialEq, Eq)]
pub enum Answer {
    /// Send this.
    Text(String),
    /// Nothing to send.
    Silence,
    /// End the connection.
    HangUp,
    /// Payload or samples have to be moved first.
    Transfer,
}

impl Session {
    /// A connection on which nothing was opened.
    pub fn new() -> (s: Self)
        ensures
            !s.new_client,
    {
        Session { new_client: false }
    }

    /// Answer the requests that move no payload, a READ from `attrs`.
    pub fn answer(&mut self, r: &Request, xml: &str, attrs: &Attrs) -> (a: Answer)
        ensures
            final(self).new_client == (old(self).new_client || *r is Open),
            match *r {
                Request::Empty => a is Silence,
                Request::Print => a matches Answer::Text(s) && s@ == decimal(xml.spec_bytes().len())
                    + "\n"@ + xml@,
                Request::Acknowledge => a matches Answer::Text(s) && s@ == "0\n"@,
                Request::Exit => a is HangUp,
                Request::Open { receive: _ } => a matches Answer::Text(s) && s@ == "0\n"@,
                Request::Read { key, attr } => a matches Answer::Text(s) && s@ == read_text(
                    value_of(attrs.list@, key@, attr@),
                ),
                Request::Write { key: _, len: _ } => a is Transfer,
                Request::BareWrite => a is HangUp,
                Request::ReadBuf { nbytes: _ } => a is Transfer,
                Request::WriteBuf { nbytes: _ } => a is Transfer,
                Request::Unknown => a matches Answer::Text(s) && s@ == "-22\n"@,
            },
    {
        match r {
            Request::Empty => Answer::Silence,
            Request::Print => Answer::Text(print_reply(xml)),
            Request::Acknowledge => Answer::Text(text("0\n")),
            Request::Exit => Answer::HangUp,
            Request::Open { .. } => {
                self.new_client = true;
                Answer::Text(text("0\n"))
            },
            Request::Read { key, attr } => {
                let value: String = read_value(attrs, key.as_slice(), attr.as_slice());
                Answer::Text(read_reply(value.as_str()))
            },
            Request::Write { .. } => Answer::Transfer,
            Request::BareWrite => Answer::HangUp,
            Request::ReadBuf { .. } => Answer::Transfer,
            Request::WriteBuf { .. } => Answer::Transfer,
            Request::Unknown => Answer::Text(text("-22\n")),
        }
    }

    /// What precedes `nbytes` octets of samples: their count, and with the
    /// first read after OPEN the channel mask.
    pub fn readbuf_header(&mut self, nbytes: usize) -> (s: String)
        ensures
            s@ == decimal(nbytes as nat) + "\n"@ + (if old(self).new_client {
                "00000003\n"@
            } else {
                Seq::<char>::empty()
            }),
            !final(self).new_client,
    {
        let mut out: Vec<char> = Vec::new();
        push_decimal(&mut out, nbytes as u64);
        proof {
            assert(out@ =~= decimal(nbytes as nat));
        }
        push_str(&mut out, "\n");
        let ghost before = out@;
        if self.new_client {
            push_str(&mut out, "00000003\n");
        }
        proof {
            assert(out@ =~= before + (if old(self).new_client {
                "00000003\n"@
            } else {
                Seq::<char>::empty()
            }));
        }
        self.new_client = false;
        string_of(out.as_slice())
    }
}

fn text(s: &str) -> (t: String)
    ensures
        t@ == s@,
{
    let cs: Vec<char> = chars_of(s);
    string_of(cs.as_slice())
}

/// One radio's transmit stream on the shared air timeline.
pub struct TxStream<T> {
    /// Air sample index of `buf[0]`.
    pub origin: u64,
    pub buf: Vec<T>,
}

impl<T> TxStream<T> {
    /// Air sample index just past the stream.
    pub open spec fn spec_end(&self) -> int {
        self.origin + self.buf@.len()
    }
}

impl<T: Copy> TxStream<T> {
    /// An empty stream at the start of the timeline.
    pub fn new() -> (s: Self)
        ensures
            s.origin == 0,
            s.buf@ == Seq::<T>::empty(),
    {
        TxStream { origin: 0, buf: Vec::new() }
    }

    /// Air sample index just past the stream.
    pub fn end(&self) -> (e: u64)
        requires
            self.spec_end() <= u64::MAX,
        ensures
            e == self.spec_end(),
    {
        self.origin + self.buf.len() as u64
    }

    /// What is on the air at sample `t`: `silence` outside the stream.
    pub fn sample(&self, t: u64, silence: T) -> (v: T)
        ensures
            v == if self.origin <= t < self.spec_end() {
                self.buf@[t - self.origin]
            } else {
                silence
            },
    {
        let have: usize = self.buf.len();
        if t >= self.origin && t - self.origin < have as u64 {
            self.buf[(t - self.origin) as usize]
        } else {
            silence
        }
    }

    /// How much of the stream is older than `keep_from`.
    pub open spec fn outdated(&self, keep_from: u64) -> int {
        if keep_from <= self.origin {
            0
        } else if keep_from - self.origin < self.buf@.len() {
            keep_from - self.origin
        } else {
            self.buf@.len() as int
        }
    }

    /// Drop everything older than `keep_from`.
    pub fn trim(&mut self, keep_from: u64)
        requires
            old(self).spec_end() <= u64::MAX,
        ensures
            final(self).origin == old(self).origin + old(self).outdated(keep_from),
            final(self).buf@ == old(self).buf@.skip(old(self).outdated(keep_from)),
            final(self).spec_end() == old(self).spec_end(),
    {
        let have: usize = self.buf.len();
        if keep_from > self.origin {
            let n: usize = if keep_from - self.origin < have as u64 {
                (keep_from - self.origin) as usize
            } else {
                have
            };
            let kept: Vec<T> = self.buf.split_off(n);
            self.buf = kept;
            self.origin = self.origin + n as u64;
        }
        proof {
            assert(self.buf@ =~= old(self).buf@.skip(old(self).outdated(keep_from)));
        }
    }

    /// The stream that a write at air time `now` continues: itself, or a new
    /// one a quarter buffer ahead where the air clock has passed its end
    /// (an underrun, or the first buffer).
    pub open spec fn base_at(&self, now: u64) -> (int, Seq<T>) {
        if self.spec_end() < now {
            (now + 4096, Seq::empty())
        } else {
            (self.origin as int, self.buf@)
        }
    }

    /// Write samples at air time `now`, keeping `history` samples of the past.
    pub fn write(&mut self, now: u64, history: u64, samples: &[T])
        requires
            old(self).spec_end() <= u64::MAX,
            old(self).base_at(now).0 + old(self).base_at(now).1.len() + samples@.len() <= u64::MAX,
        ensures
            ({
                let (origin, kept) = old(self).base_at(now);
                let all = kept + samples@;
                let keep = if now < history {
                    0
                } else {
                    now - history
                };
                let drop = if keep <= origin {
                    0
                } else if keep - origin < all.len() {
                    keep - origin
                } else {
                    all.len() as int
                };
                &&& final(self).origin == origin + drop
                &&& final(self).buf@ == all.skip(drop)
                &&& final(self).spec_end() == origin + all.len()
            }),
    {
        let ghost origin = self.base_at(now).0;
        let ghost kept = self.base_at(now).1;
        if self.end() < now {
            self.origin = now + BUF_SAMPLES / 4;
            self.buf.clear();
        }
        let ghost before = self.buf@;
        proof {
            assert(before =~= kept);
            assert(before =~= before + samples@.take(0));
        }
        for i in 0..samples.len()
            invariant
                self.origin == origin,
                self.buf@ == before + samples@.take(i as int),
        {
            self.buf.push(samples[i]);
            proof {
                assert(before + samples@.take(i + 1) =~= (before + samples@.take(i as int)).push(
                    samples@[i as int],
                ));
            }
        }
        proof {
            assert(samples@.take(samples@.len() as int) =~= samples@);
        }
        let keep: u64 = if now < history {
            0
        } else {
            now - history
        };
        self.trim(keep);
    }
}

/// Where a radio's receive stream stands.
#[derive(Debug, Clone, Copy, PartialEq, Eq, Structural)]
pub struct RxCursor {
    /// Next air sample that the receive stream delivers.
    pub next: Option<u64>,
}

/// One READBUF: which samples it delivers, and when they are there.
#[derive(Debug, Clone, Copy, PartialEq, Eq, Structural)]
pub struct ReadPlan {
    /// First air sample.
    pub from: u64,
    /// Number of samples.
    pub n: usize,
    /// Air time from which on they can be read.
    pub ready_at: u64,
}

impl RxCursor {
    /// A receive stream that nobody opened.
    pub fn new() -> (c: Self)
        ensures
            c == (RxCursor { next: None }),
    {
        RxCursor { next: None }
    }

    /// A request came in at air time `now`: an OPEN of the receive device
    /// starts the stream there.
    pub fn on_request(&mut self, r: &Request, now: u64)
        ensures
            final(self).next == if *r == (Request::Open { receive: true }) {
                Some(now)
            } else {
                old(self).next
            },
    {
        match r {
            Request::Open { receive } => {
                if *receive {
                    self.next = Some(now);
                }
            },
            _ => {},
        }
    }

    /// Where a read at air time `now` starts: where the stream stands, or now
    /// on a stream that nobody opened.
    pub open spec fn start(&self, now: u64) -> u64 {
        match self.next {
            Some(from) => from,
            None => now,
        }
    }

    /// Begin a READBUF of `nbytes` octets (4 to a sample) at air time `now`.
    pub fn begin_read(&mut self, nbytes: usize, now: u64, latency_buffers: u64) -> (p: ReadPlan)
        requires
            old(self).start(now) + nbytes / 4 + latency_buffers * 16384 <= u64::MAX,
        ensures
            p == (ReadPlan {
                from: old(self).start(now),
                n: nbytes / 4,
                ready_at: (old(self).start(now) + nbytes / 4 + latency_buffers * 16384) as u64,
            }),
            final(self).next == Some(p.from),
    {
        let from: u64 = match self.next {
            Some(from) => from,
            None => now,
        };
        self.next = Some(from);
        let n: usize = nbytes / 4;
        ReadPlan { from, n, ready_at: rx_ready_at(from, n, latency_buffers) }
    }

    /// The samples of a read were taken: the stream goes on behind them.
    pub fn end_read(&mut self, p: &ReadPlan)
        requires
            p.from + p.n <= u64::MAX,
        ensures
            final(self).next == Some((p.from + p.n) as u64),
    {
        self.next = Some(p.from + p.n as u64);
    }
}

/// When `n` samples from air sample `from` on can be read: once the air clock
/// has passed them plus the pipeline latency (in buffers).
pub fn rx_ready_at(from: u64, n: usize, latency_buffers: u64) -> (t: u64)
    requires
        from + n + latency_buffers * 16384 <= u64::MAX,
    ensures
        t == from + n + latency_buffers * 16384,
{
    from + n as u64 + latency_buffers * BUF_SAMPLES
}

/// Back-pressure: a write waits while more than `ahead_buffers` buffers are
/// queued ahead of the air clock.
pub fn tx_may_write(end: u64, now: u64, ahead_buffers: u64) -> (ok: bool)
    requires
        now + ahead_buffers * 16384 <= u64::MAX,
    ensures
        ok == (end <= now + ahead_buffers * 16384),
{
    end <= now + ahead_buffers * BUF_SAMPLES
}

/// What an attribute that nobody wrote reads as: the clock 40 MHz, the sample rate
/// 4 MS/s, the carrier 1.25 GHz, the bandwidth 2.2 MHz, the gain control manual;
/// any other 0.
pub proof fn lemma_defaults(attr: Seq<char>)
    ensures
        default_value("xo_correction"@) == "40000000"@,
        default_value("sampling_frequency"@) == "4000000"@,
        default_value("frequency"@) == "1250000000"@,
        default_value("rf_bandwidth"@) == "2200000"@,
        default_value("gain_control_mode"@) == "manual"@,
        attr != "xo_correction"@ && attr != "sampling_frequency"@ && attr != "frequency"@ && attr
            != "rf_bandwidth"@ && attr != "gain_control_mode"@ ==> default_value(attr) == "0"@,
{
    reveal_strlit("xo_correction");
    reveal_strlit("sampling_frequency");
    reveal_strlit("frequency");
    reveal_strlit("rf_bandwidth");
    reveal_strlit("hardwaregain");
    reveal_strlit("gain_control_mode");
    assert("xo_correction"@.len() == 13 && "sampling_frequency"@.len() == 18 && "frequency"@.len()
        == 9);
    assert("rf_bandwidth"@.len() == 12 && "hardwaregain"@.len() == 12 && "gain_control_mode"@.len()
        == 17);
    assert("rf_bandwidth"@[0] == 'r' && "hardwaregain"@[0] == 'h');
}

/// A request is told by its first word: nothing, PRINT, EXIT and the four that are
/// merely acknowledged; a word that is none of the commands is not understood.
pub proof fn lemma_simple_requests(r: Request, w: Seq<Seq<char>>)
    requires
        asks(r, w),
    ensures
        w.len() == 0 <==> r is Empty,
        r is Print <==> w.len() > 0 && w[0] == "PRINT"@,
        r is Exit <==> w.len() > 0 && w[0] == "EXIT"@,
        r is Acknowledge <==> w.len() > 0 && (w[0] == "VERSION"@ || w[0] == "TIMEOUT"@ || w[0]
            == "SET"@ || w[0] == "CLOSE"@),
        r is Open <==> w.len() > 0 && w[0] == "OPEN"@,
        r is Read <==> w.len() > 0 && w[0] == "READ"@,
        r is BareWrite <==> w.len() == 1 && w[0] == "WRITE"@,
        r is Write <==> w.len() > 1 && w[0] == "WRITE"@,
        r is ReadBuf <==> w.len() > 0 && w[0] == "READBUF"@,
        r is WriteBuf <==> w.len() > 0 && w[0] == "WRITEBUF"@,
        r matches Request::Open { receive } ==> (receive <==> w.len() > 1 && w[1] == "iio:device2"@),
{
    reveal_strlit("PRINT");
    reveal_strlit("VERSION");
    reveal_strlit("TIMEOUT");
    reveal_strlit("SET");
    reveal_strlit("CLOSE");
    reveal_strlit("EXIT");
    reveal_strlit("OPEN");
    reveal_strlit("READ");
    reveal_strlit("WRITE");
    reveal_strlit("READBUF");
    reveal_strlit("WRITEBUF");
    reveal_strlit("iio:device2");
    assert("PRINT"@[0] == 'P' && "VERSION"@[0] == 'V' && "TIMEOUT"@[0] == 'T' && "SET"@[0] == 'S');
    assert("CLOSE"@[0] == 'C' && "EXIT"@[0] == 'E' && "OPEN"@[0] == 'O');
    assert("READ"@[0] == 'R' && "READBUF"@[0] == 'R' && "WRITE"@[0] == 'W' && "WRITEBUF"@[0] == 'W');
    assert("READ"@.len() == 4 && "READBUF"@.len() == 7 && "WRITE"@.len() == 5 && "WRITEBUF"@.len()
        == 8);
    assert("iio:device2"@.len() == 11);
}

/// The reply to a READ is a line with the value's octets counted and a line with the
/// value.
pub proof fn lemma_read_lines(value: Seq<char>)
    ensures
        read_text(value) == decimal(encode_utf8(value).len()) + seq!['\n'] + value + seq!['\n'],
{
    reveal_strlit("\n");
    assert("\n"@ =~= seq!['\n']);
}

/// A stream on the air timeline: a trim drops what is older and nothing else; where
/// the stream has run dry before `now`, it starts anew 4096 samples later, and else
/// goes on where it ended; a read starts where the last one ended, or now.
pub proof fn lemma_timeline<T: Copy>(s: TxStream<T>, now: u64, keep_from: u64)
    ensures
        s.spec_end() == s.origin + s.buf@.len(),
        0 <= s.outdated(keep_from) <= s.buf@.len(),
        s.outdated(keep_from) > 0 ==> s.origin + s.outdated(keep_from) <= keep_from,
        s.outdated(keep_from) < s.buf@.len() ==> s.origin + s.outdated(keep_from) >= keep_from,
        s.origin + s.buf@.len() < now ==> s.base_at(now).0 == now + 4096 && s.base_at(now).1.len()
            == 0,
        s.origin + s.buf@.len() >= now ==> s.base_at(now).0 == s.origin && s.base_at(now).1 == s.buf@,
{
}

/// Words are joined with single spaces.
pub proof fn lemma_joined(a: Seq<char>, b: Seq<char>, c: Seq<char>)
    ensures
        joined(seq![a], 0, 1) == a,
        joined(seq![a, b], 0, 2) == a + seq![' '] + b,
        joined(seq![a, b, c], 1, 3) == b + seq![' '] + c,
        joined(seq![a, b, c], 0, 3) == a + seq![' '] + b + seq![' '] + c,
        joined(seq![a], 1, 1).len() == 0,
{
    reveal_with_fuel(joined, 4);
    reveal_strlit(" ");
    assert(" "@ =~= seq![' ']);
}

/// A count is the decimal number that a word spells, and 0 where it spells none. A
/// read starts where the stream stands, or now on a stream that nobody opened.
pub proof fn lemma_counts(w: Seq<char>, s: RxCursor, now: u64)
    ensures
        match unsigned_value(w, 10, usize::MAX as int) {
            Some(v) => count_of(w) == v,
            None => count_of(w) == 0,
        },
        match s.next {
            Some(from) => s.start(now) == from,
            None => s.start(now) == now,
        },
{
}

/// Of several values under one key the one that was set last counts; a key that was
/// never set has the attribute's default.
pub proof fn lemma_lookup(list: Seq<Attr>, a: Attr, key: Seq<char>, attr: Seq<char>)
    ensures
        value_of(Seq::<Attr>::empty(), key, attr) == default_value(attr),
        a.key@ == key ==> value_of(list.push(a), key, attr) == a.value@,
        a.key@ != key ==> value_of(list.push(a), key, attr) == value_of(list, key, attr),
{
    assert(list.push(a).drop_last() =~= list);
}

} // verus!
