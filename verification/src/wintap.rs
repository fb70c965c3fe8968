//! The tap-windows6 driver: how it is found, named, opened and read. The
//! system calls themselves are the caller's.

use crate::text::{chars_of, equals, eq_ignore_ascii_case, push_decimal, push_str};
use crate::text::{decimal, same_ignoring_case, string_of};
use vstd::prelude::*;
use vstd::string::*;

verus! {

/// `char::from_u32`: the character with the given code point; there is none
/// for a surrogate or above U+10FFFF.
pub assume_specification[ char::from_u32 ](i: u32) -> (r: Option<char>)
    ensures
        r is None <==> i > 0x10_FFFF || 0xD800 <= i <= 0xDFFF,
        r matches Some(c) ==> c as u32 == i,
;

/// The component identifier of the driver.
pub const TAP_COMPONENT_ID: &'static str = "tap0901";

/// The MTU where the driver does not tell.
pub const DEFAULT_MTU: u32 = 1500;

/// The smallest read buffer, octets.
pub const MIN_READ_BUFFER: usize = 2048;

/// The system's code for an operation that is still running.
pub const ERROR_IO_PENDING: u32 = 997;

/// The system's code for a wait that ended because the event was set.
pub const WAIT_OBJECT_0: u32 = 0;

/// The system's code for a wait that ran out.
pub const WAIT_TIMEOUT: u32 = 258;

/// The device control code for a request of the driver: an unknown device
/// (0x22), the request number from bit 2 on, buffered, any access.
pub fn tap_ioctl(request: u32) -> (code: u32)
    ensures
        code == 0x22_0000u32 | (request << 2),
        request < 0x8000 ==> code == 0x22_0000 + 4 * request,
{
    proof {
        assert(request < 0x8000 ==> 0x22_0000u32 | (request << 2) == 0x22_0000 + 4 * request)
            by (bit_vector);
    }
    0x22_0000 | (request << 2)
}

pub const TAP_WIN_IOCTL_GET_MAC: u32 = 0x22_0004;

pub const TAP_WIN_IOCTL_GET_VERSION: u32 = 0x22_0008;

pub const TAP_WIN_IOCTL_GET_MTU: u32 = 0x22_000c;

pub const TAP_WIN_IOCTL_SET_MEDIA_STATUS: u32 = 0x22_0018;

/// A tap-windows6 adapter.
pub struct TapAdapter {
    /// Its instance identifier, with the braces.
    pub guid: String,
    /// The name of its connection.
    pub name: String,
}

/// A high surrogate.
pub open spec fn is_high(u: u16) -> bool {
    0xD800 <= u < 0xDC00
}

/// A low surrogate.
pub open spec fn is_low(u: u16) -> bool {
    0xDC00 <= u < 0xE000
}

/// A character in UTF-16.
pub open spec fn char_units(c: char) -> Seq<u16> {
    if (c as int) < 0x1_0000 {
        seq![(c as int) as u16]
    } else {
        seq![
            (0xD800 + (c as int - 0x1_0000) / 0x400) as u16,
            (0xDC00 + (c as int - 0x1_0000) % 0x400) as u16,
        ]
    }
}

/// A text in UTF-16.
pub open spec fn units(s: Seq<char>) -> Seq<u16>
    decreases s.len(),
{
    if s.len() == 0 {
        Seq::empty()
    } else {
        units(s.drop_last()) + char_units(s.last())
    }
}

/// The text that UTF-16 units spell; a surrogate without its partner becomes
/// U+FFFD.
pub open spec fn decoded(u: Seq<u16>) -> Seq<char>
    decreases u.len(),
{
    if u.len() == 0 {
        Seq::empty()
    } else if !is_high(u[0]) && !is_low(u[0]) {
        seq![u[0] as char] + decoded(u.skip(1))
    } else if is_high(u[0]) && u.len() >= 2 && is_low(u[1]) {
        seq![(0x1_0000 + (u[0] - 0xD800) * 0x400 + (u[1] - 0xDC00)) as char] + decoded(u.skip(2))
    } else {
        seq!['\u{FFFD}'] + decoded(u.skip(1))
    }
}

/// The units before the first NUL.
pub open spec fn before_nul(u: Seq<u16>) -> Seq<u16>
    decreases u.len(),
{
    if u.len() == 0 || u[0] == 0 {
        Seq::empty()
    } else {
        seq![u[0]] + before_nul(u.skip(1))
    }
}

/// A text as UTF-16 with a NUL behind it.
pub fn wide(s: &str) -> (out: Vec<u16>)
    ensures
        out@ == units(s@).push(0),
{
    let cs: Vec<char> = chars_of(s);
    let mut out: Vec<u16> = Vec::new();
    proof {
        assert(cs@.take(0) =~= Seq::<char>::empty());
    }
    for i in 0..cs.len()
        invariant
            cs@ == s@,
            out@ == units(cs@.take(i as int)),
    {
        let ghost was = out@;
        proof {
            assert(cs@.take(i + 1).drop_last() =~= cs@.take(i as int));
        }
        push_units(&mut out, cs[i]);
    }
    proof {
        assert(cs@.take(cs@.len() as int) =~= cs@);
    }
    out.push(0);
    out
}

fn push_units(out: &mut Vec<u16>, c: char)
    ensures
        final(out)@ == old(out)@ + char_units(c),
{
    let ghost was = out@;
    let u: u32 = c as u32;
    if u < 0x1_0000 {
        out.push(u as u16);
    } else {
        out.push((0xD800 + (u - 0x1_0000) / 0x400) as u16);
        out.push((0xDC00 + (u - 0x1_0000) % 0x400) as u16);
    }
    proof {
        assert(out@ =~= was + char_units(c));
    }
}

/// The text in a buffer of UTF-16 units, up to its first NUL if it has one.
pub fn from_wide(buf: &[u16]) -> (s: String)
    ensures
        s@ == decoded(before_nul(buf@)),
{
    let mut end: usize = 0;
    proof {
        assert(buf@.skip(0) =~= buf@);
        assert(buf@.take(0) + before_nul(buf@) =~= before_nul(buf@));
    }
    while end < buf.len() && buf[end] != 0
        invariant
            end <= buf@.len(),
            before_nul(buf@) == buf@.take(end as int) + before_nul(buf@.skip(end as int)),
        decreases buf@.len() - end,
    {
        proof {
            let rest = buf@.skip(end as int);
            assert(rest.skip(1) =~= buf@.skip(end + 1));
            assert(buf@.take(end as int) + (seq![rest[0]] + before_nul(buf@.skip(end + 1)))
                =~= buf@.take(end + 1) + before_nul(buf@.skip(end + 1)));
        }
        end = end + 1;
    }
    let ghost u = buf@.take(end as int);
    proof {
        assert(before_nul(buf@.skip(end as int)) =~= Seq::<u16>::empty());
        assert(before_nul(buf@) =~= u);
        assert(u.skip(0) =~= u);
    }
    let mut out: Vec<char> = Vec::new();
    let mut i: usize = 0;
    proof {
        assert(out@ + decoded(u) =~= decoded(u));
    }
    while i < end
        invariant
            i <= end <= buf@.len(),
            u == buf@.take(end as int),
            decoded(u) == out@ + decoded(u.skip(i as int)),
        decreases end - i,
    {
        let ghost rest = u.skip(i as int);
        let ghost was = out@;
        let a: u16 = buf[i];
        let pair: bool = 0xD800 <= a && a < 0xDC00 && i + 1 < end && 0xDC00 <= buf[i + 1] && buf[i
            + 1] < 0xE000;
        let mut step: usize = 1;
        let mut code: u32 = a as u32;
        if pair {
            code = 0x1_0000 + (a as u32 - 0xD800) * 0x400 + (buf[i + 1] as u32 - 0xDC00);
            step = 2;
        }
        let c: char = match char::from_u32(code) {
            Some(c) => c,
            None => '\u{FFFD}',
        };
        out.push(c);
        proof {
            if pair || !(0xD800 <= a < 0xE000) {
                lemma_code_point(c, code as int);
            }
            assert(rest.skip(step as int) =~= u.skip(i + step));
            assert(decoded(rest) == seq![c] + decoded(u.skip(i + step)));
            assert(was + (seq![c] + decoded(u.skip(i + step))) =~= out@ + decoded(u.skip(i + step)));
        }
        i = i + step;
    }
    proof {
        assert(u.skip(end as int) =~= Seq::<u16>::empty());
        assert(out@ + decoded(u.skip(end as int)) =~= out@);
    }
    string_of(out.as_slice())
}

/// The units of a character followed by more decode to the character followed
/// by what the rest decodes to.
proof fn lemma_decode_char(c: char, rest: Seq<u16>)
    ensures
        decoded(char_units(c) + rest) == seq![c] + decoded(rest),
{
    let u = char_units(c) + rest;
    if (c as int) < 0x1_0000 {
        assert(u[0] == (c as int) as u16);
        assert(u.skip(1) =~= rest);
    } else {
        assert(u[0] == (0xD800 + (c as int - 0x1_0000) / 0x400) as u16);
        assert(u[1] == (0xDC00 + (c as int - 0x1_0000) % 0x400) as u16);
        assert(u.skip(2) =~= rest);
    }
}

proof fn lemma_decode_units(s: Seq<char>, rest: Seq<u16>)
    ensures
        decoded(units(s) + rest) == s + decoded(rest),
    decreases s.len(),
{
    if s.len() == 0 {
        assert(units(s) + rest =~= rest);
        assert(s + decoded(rest) =~= decoded(rest));
    } else {
        let more = char_units(s.last()) + rest;
        assert(units(s) + rest =~= units(s.drop_last()) + more);
        lemma_decode_units(s.drop_last(), more);
        lemma_decode_char(s.last(), rest);
        assert(s.drop_last() + (seq![s.last()] + decoded(rest)) =~= s + decoded(rest));
    }
}

/// A character is the one with its code point.
proof fn lemma_code_point(c: char, i: int)
    requires
        c as u32 == i,
    ensures
        c == i as char,
{
}

proof fn lemma_char_units_nonzero(c: char)
    requires
        c != '\0',
    ensures
        forall|i: int| 0 <= i < char_units(c).len() ==> char_units(c)[i] != 0,
{
}

proof fn lemma_units_nonzero(s: Seq<char>)
    requires
        forall|i: int| 0 <= i < s.len() ==> s[i] != '\0',
    ensures
        forall|i: int| 0 <= i < units(s).len() ==> units(s)[i] != 0,
    decreases s.len(),
{
    if s.len() > 0 {
        lemma_units_nonzero(s.drop_last());
        lemma_char_units_nonzero(s[s.len() - 1]);
        let n = units(s.drop_last()).len();
        assert forall|i: int| 0 <= i < units(s).len() implies units(s)[i] != 0 by {
            if i < n {
                assert(units(s)[i] == units(s.drop_last())[i]);
            } else {
                assert(units(s)[i] == char_units(s.last())[i - n]);
            }
        }
    }
}

proof fn lemma_before_nul(u: Seq<u16>, rest: Seq<u16>)
    requires
        forall|i: int| 0 <= i < u.len() ==> u[i] != 0,
        rest.len() > 0,
        rest[0] == 0,
    ensures
        before_nul(u + rest) == u,
    decreases u.len(),
{
    if u.len() == 0 {
        assert(u + rest =~= rest);
    } else {
        assert((u + rest).skip(1) =~= u.skip(1) + rest);
        lemma_before_nul(u.skip(1), rest);
        assert(seq![u[0]] + u.skip(1) =~= u);
    }
}

/// A text without NUL that was made wide reads back as it was, whatever
/// stands in the buffer behind its NUL.
pub proof fn lemma_wide_roundtrip(s: Seq<char>, behind: Seq<u16>)
    requires
        forall|i: int| 0 <= i < s.len() ==> s[i] != '\0',
    ensures
        decoded(before_nul(units(s).push(0) + behind)) == s,
{
    lemma_units_nonzero(s);
    assert(units(s).push(0) + behind =~= units(s) + (seq![0u16] + behind));
    lemma_before_nul(units(s), seq![0u16] + behind);
    lemma_decode_units(s, Seq::empty());
    assert(units(s) + Seq::<u16>::empty() =~= units(s));
    assert(s + decoded(Seq::empty()) =~= s);
}

/// How many units of a registry string are in the buffer: half the octets
/// reported, at most the whole buffer.
pub fn value_units(octets: u32, capacity: usize) -> (n: usize)
    ensures
        n == if octets as int / 2 < capacity {
            octets as int / 2
        } else {
            capacity as int
        },
{
    let n: u32 = octets / 2;
    if (n as u64) < capacity as u64 {
        n as usize
    } else {
        capacity
    }
}

/// The adapter that a registry entry describes: one with the driver's
/// component identifier and an instance identifier. Without a connection
/// name the instance identifier is the name.
pub fn adapter_of(
    component_id: Option<String>,
    guid: Option<String>,
    name: Option<String>,
) -> (a: Option<TapAdapter>)
    ensures
        match (component_id, guid) {
            (Some(c), Some(g)) => if c@ == TAP_COMPONENT_ID@ {
                a matches Some(t) && t.guid@ == g@ && t.name@ == (match name {
                    Some(n) => n@,
                    None => g@,
                })
            } else {
                a is None
            },
            _ => a is None,
        },
{
    match (component_id, guid) {
        (Some(c), Some(g)) => {
            let cs: Vec<char> = chars_of(c.as_str());
            if equals(cs.as_slice(), TAP_COMPONENT_ID) {
                let name: String = match name {
                    Some(n) => n,
                    None => {
                        let gs: Vec<char> = chars_of(g.as_str());
                        string_of(gs.as_slice())
                    },
                };
                Some(TapAdapter { guid: g, name })
            } else {
                None
            }
        },
        _ => None,
    }
}

/// Why no adapter can be opened.
#[derive(Debug, Clone, Copy, PartialEq, Eq, Structural)]
pub enum PickError {
    /// No adapter is installed.
    NotInstalled,
    /// No installed adapter has that name.
    NoSuchAdapter,
}

/// `n` names the adapter: its connection name or its instance identifier, in
/// any case.
pub open spec fn is_named(a: TapAdapter, n: Seq<char>) -> bool {
    same_ignoring_case(a.name@, n) || same_ignoring_case(a.guid@, n)
}

/// The adapter to open: the first one with the given name, or the first one
/// where no name or an empty one is given.
pub fn pick_adapter(adapters: &Vec<TapAdapter>, name: Option<&str>) -> (r: Result<
    usize,
    PickError,
>)
    ensures
        match r {
            Ok(i) => i < adapters@.len() && match name {
                Some(n) => if n@.len() == 0 {
                    i == 0
                } else {
                    is_named(adapters@[i as int], n@) && forall|j: int|
                        0 <= j < i ==> !is_named(#[trigger] adapters@[j], n@)
                },
                None => i == 0,
            },
            Err(PickError::NotInstalled) => adapters@.len() == 0,
            Err(PickError::NoSuchAdapter) => adapters@.len() > 0 && name is Some && name->0@.len()
                > 0 && forall|j: int|
                0 <= j < adapters@.len() ==> !is_named(#[trigger] adapters@[j], name->0@),
        },
{
    if adapters.len() == 0 {
        return Err(PickError::NotInstalled);
    }
    let wanted: Vec<char> = match name {
        Some(n) => chars_of(n),
        None => Vec::new(),
    };
    if wanted.len() == 0 {
        return Ok(0);
    }
    for i in 0..adapters.len()
        invariant
            name is Some,
            wanted@ == name->0@,
            wanted@.len() > 0,
            forall|j: int| 0 <= j < i ==> !is_named(#[trigger] adapters@[j], wanted@),
    {
        let n: Vec<char> = chars_of(adapters[i].name.as_str());
        let g: Vec<char> = chars_of(adapters[i].guid.as_str());
        if eq_ignore_ascii_case(n.as_slice(), wanted.as_slice()) || eq_ignore_ascii_case(
            g.as_slice(),
            wanted.as_slice(),
        ) {
            return Ok(i);
        }
    }
    Err(PickError::NoSuchAdapter)
}

/// The path of an adapter's device.
pub fn device_path(guid: &str) -> (p: String)
    ensures
        p@ == "\\\\.\\Global\\"@ + guid@ + ".tap"@,
{
    let mut out: Vec<char> = chars_of("\\\\.\\Global\\");
    push_str(&mut out, guid);
    push_str(&mut out, ".tap");
    string_of(out.as_slice())
}

/// The length of the read buffer: a whole frame, and no less than the
/// smallest buffer.
pub fn read_buffer_len(max_frame: usize) -> (n: usize)
    ensures
        n == if max_frame < MIN_READ_BUFFER {
            MIN_READ_BUFFER
        } else {
            max_frame
        },
{
    if max_frame < MIN_READ_BUFFER {
        MIN_READ_BUFFER
    } else {
        max_frame
    }
}

/// The MTU, from what the driver told: a default where it told nothing or 0.
pub fn mtu_of(told: Option<u32>) -> (mtu: u32)
    ensures
        mtu == match told {
            Some(m) => if m > 0 {
                m
            } else {
                DEFAULT_MTU
            },
            None => DEFAULT_MTU,
        },
{
    match told {
        Some(m) => if m > 0 {
            m
        } else {
            DEFAULT_MTU
        },
        None => DEFAULT_MTU,
    }
}

/// An adapter in words.
pub fn describe(a: &TapAdapter, mtu: u32) -> (s: String)
    ensures
        s@ == "tap-windows6 "@ + a.name@ + " ("@ + a.guid@ + "), mtu "@ + decimal(mtu as nat),
{
    let mut out: Vec<char> = chars_of("tap-windows6 ");
    push_str(&mut out, a.name.as_str());
    push_str(&mut out, " (");
    push_str(&mut out, a.guid.as_str());
    push_str(&mut out, "), mtu ");
    push_decimal(&mut out, mtu as u64);
    string_of(out.as_slice())
}

/// A timeout in milliseconds as the system takes it.
pub fn wait_ms(ms: u128) -> (w: u32)
    ensures
        w == if ms < u32::MAX {
            ms as int
        } else {
            u32::MAX as int
        },
{
    if ms < u32::MAX as u128 {
        ms as u32
    } else {
        u32::MAX
    }
}

/// What comes next in reading a frame.
#[derive(Debug, Clone, Copy, PartialEq, Eq, Structural)]
pub enum ReadStep {
    /// Start a read into the buffer.
    Start,
    /// Wait for the read that is under way.
    Wait,
    /// Ask for the result of the read that is under way.
    Collect,
    /// The frame is the first octets of the buffer, this many.
    Frame(usize),
    /// No frame in time; the read stays under way.
    NoFrame,
    /// The read failed, with this code.
    ReadFailed(u32),
    /// The wait failed, with this code.
    WaitFailed(u32),
}

/// The asynchronous read of an adapter: at most one is under way at a time.
#[derive(Debug, Clone, Copy, PartialEq, Eq, Structural)]
pub struct TapRead {
    pub pending: bool,
}

impl TapRead {
    /// A frame is wanted: a read is started unless one is under way.
    pub fn begin(&self) -> (s: ReadStep)
        ensures
            s == if self.pending {
                ReadStep::Wait
            } else {
                ReadStep::Start
            },
    {
        if self.pending {
            ReadStep::Wait
        } else {
            ReadStep::Start
        }
    }

    /// A read was started: it ended at once with `got` octets, or did not and
    /// left the code `error`.
    pub fn on_started(&mut self, done: bool, got: usize, error: u32) -> (s: ReadStep)
        requires
            !old(self).pending,
        ensures
            final(self).pending == (!done && error == ERROR_IO_PENDING),
            s == if done {
                ReadStep::Frame(got)
            } else if error == ERROR_IO_PENDING {
                ReadStep::Wait
            } else {
                ReadStep::ReadFailed(error)
            },
    {
        if done {
            ReadStep::Frame(got)
        } else if error == ERROR_IO_PENDING {
            self.pending = true;
            ReadStep::Wait
        } else {
            ReadStep::ReadFailed(error)
        }
    }

    /// The wait for the read ended with `code`.
    pub fn on_wait(&self, code: u32) -> (s: ReadStep)
        ensures
            s == if code == WAIT_OBJECT_0 {
                ReadStep::Collect
            } else if code == WAIT_TIMEOUT {
                ReadStep::NoFrame
            } else {
                ReadStep::WaitFailed(code)
            },
    {
        if code == WAIT_OBJECT_0 {
            ReadStep::Collect
        } else if code == WAIT_TIMEOUT {
            ReadStep::NoFrame
        } else {
            ReadStep::WaitFailed(code)
        }
    }

    /// The result of the read was asked for: `got` octets, or the code
    /// `error`. Either way no read is under way any more.
    pub fn on_collected(&mut self, done: bool, got: usize, error: u32) -> (s: ReadStep)
        ensures
            !final(self).pending,
            s == if done {
                ReadStep::Frame(got)
            } else {
                ReadStep::ReadFailed(error)
            },
    {
        self.pending = false;
        if done {
            ReadStep::Frame(got)
        } else {
            ReadStep::ReadFailed(error)
        }
    }
}

/// A character below U+10000 is one unit of that value; any other is a high and a
/// low surrogate that hold the upper and the lower ten bits of what exceeds 0x10000.
pub proof fn lemma_surrogates(c: char)
    ensures
        ({
            let u = char_units(c);
            &&& (c as int) < 0x1_0000 ==> u.len() == 1 && u[0] == c as int
            &&& c as int >= 0x1_0000 ==> {
                &&& u.len() == 2
                &&& 0xD800 <= u[0] < 0xDC00 && 0xDC00 <= u[1] < 0xE000
                &&& 0x1_0000 + 0x400 * (u[0] - 0xD800) + (u[1] - 0xDC00) == c as int
            }
        }),
{
}

/// Units that are no surrogates are characters; a high and a low surrogate together
/// are one; a surrogate alone becomes U+FFFD, and the units after it count anew.
pub proof fn lemma_decoding(u: Seq<u16>)
    requires
        u.len() > 0,
    ensures
        decoded(Seq::<u16>::empty()).len() == 0,
        !(0xD800 <= u[0] < 0xE000) ==> decoded(u) == seq![u[0] as char] + decoded(u.skip(1)),
        0xDC00 <= u[0] < 0xE000 ==> decoded(u) == seq!['\u{FFFD}'] + decoded(u.skip(1)),
        0xD800 <= u[0] < 0xDC00 && (u.len() == 1 || !(0xDC00 <= u[1] < 0xE000)) ==> decoded(u)
            == seq!['\u{FFFD}'] + decoded(u.skip(1)),
        0xD800 <= u[0] < 0xDC00 && u.len() > 1 && 0xDC00 <= u[1] < 0xE000 ==> decoded(u)
            == seq![(0x1_0000 + 0x400 * (u[0] - 0xD800) + (u[1] - 0xDC00)) as char] + decoded(
            u.skip(2),
        ),
{
}

/// What stands before the first NUL.
pub proof fn lemma_up_to_nul(u: Seq<u16>)
    ensures
        ({
            let n = before_nul(u).len() as int;
            &&& n <= u.len()
            &&& before_nul(u) == u.take(n)
            &&& forall|i: int| 0 <= i < n ==> #[trigger] u[i] != 0
            &&& n < u.len() ==> u[n] == 0
        }),
    decreases u.len(),
{
    if u.len() > 0 && u[0] != 0 {
        let t = u.skip(1);
        lemma_up_to_nul(t);
        let n = before_nul(u).len() as int;
        assert(before_nul(u) =~= u.take(n));
        assert forall|i: int| 0 <= i < n implies #[trigger] u[i] != 0 by {
            if i > 0 {
                assert(t[i - 1] == u[i]);
            }
        }
        if n < u.len() {
            assert(t[n - 1] == u[n]);
        }
    } else {
        assert(before_nul(u) =~= u.take(0));
    }
}

/// An adapter is called by its name or by its GUID, whatever the case.
pub proof fn lemma_adapter_names(a: TapAdapter, n: Seq<char>)
    ensures
        is_named(a, a.name@),
        is_named(a, a.guid@),
        is_named(a, n) ==> n.len() == a.name@.len() || n.len() == a.guid@.len(),
        is_named(a, n) <==> same_ignoring_case(a.name@, n) || same_ignoring_case(a.guid@, n),
{
}

} // verus!
