//! The iiod network protocol (legacy text mode), without the socket: commands,
//! replies, and the framing of buffer reads.

use crate::text::{chars_of, decimal, find, find_in, hex_digits, parse_i64, push_all, push_decimal};
use crate::text::{push_hex, push_str, signed_value, string_of, trim, trimmed};
use vstd::prelude::*;

pub mod laws;

verus! {

/// Channel direction for attribute access.
#[derive(Debug, Clone, Copy, PartialEq, Eq, Structural)]
pub enum Dir {
    Input,
    Output,
}

impl Dir {
    /// The protocol's word for the direction.
    pub open spec fn word(self) -> Seq<char> {
        match self {
            Dir::Input => "INPUT"@,
            Dir::Output => "OUTPUT"@,
        }
    }

    /// The protocol's word for the direction.
    pub fn token(self) -> (t: &'static str)
        ensures
            t@ == self.word(),
    {
        match self {
            Dir::Input => "INPUT",
            Dir::Output => "OUTPUT",
        }
    }
}

/// A single space.
pub open spec fn sp() -> Seq<char> {
    " "@
}

/// What an attribute command addresses: device, channel where there is one,
/// attribute.
pub open spec fn target(dev: Seq<char>, chan: Option<(Dir, Seq<char>)>, attr: Seq<char>) -> Seq<char> {
    match chan {
        Some((d, c)) => dev + sp() + d.word() + sp() + c + sp() + attr,
        None => dev + sp() + attr,
    }
}

/// The channel with its name as characters.
pub open spec fn chan_view(chan: Option<(Dir, &str)>) -> Option<(Dir, Seq<char>)> {
    match chan {
        Some((d, c)) => Some((d, c@)),
        None => None,
    }
}

fn push_target(out: &mut Vec<char>, dev: &str, chan: Option<(Dir, &str)>, attr: &str)
    ensures
        final(out)@ == old(out)@ + target(dev@, chan_view(chan), attr@),
{
    push_str(out, dev);
    push_str(out, " ");
    match chan {
        Some((d, c)) => {
            push_str(out, d.token());
            push_str(out, " ");
            push_str(out, c);
            push_str(out, " ");
        },
        None => {},
    }
    push_str(out, attr);
    proof {
        assert(out@ =~= old(out)@ + target(dev@, chan_view(chan), attr@));
    }
}

/// TIMEOUT: the server's I/O timeout in milliseconds.
pub fn timeout_command(ms: u32) -> (s: String)
    ensures
        s@ == "TIMEOUT "@ + decimal(ms as nat),
{
    let mut out: Vec<char> = chars_of("TIMEOUT ");
    push_decimal(&mut out, ms as u64);
    string_of(out.as_slice())
}

/// SET BUFFERS_COUNT: the number of kernel buffers.
pub fn buffers_command(dev: &str, n: u32) -> (s: String)
    ensures
        s@ == "SET "@ + dev@ + " BUFFERS_COUNT "@ + decimal(n as nat),
{
    let mut out: Vec<char> = chars_of("SET ");
    push_str(&mut out, dev);
    push_str(&mut out, " BUFFERS_COUNT ");
    push_decimal(&mut out, n as u64);
    string_of(out.as_slice())
}

/// READ: an attribute's value.
pub fn read_command(dev: &str, chan: Option<(Dir, &str)>, attr: &str) -> (s: String)
    ensures
        s@ == "READ "@ + target(dev@, chan_view(chan), attr@),
{
    let mut out: Vec<char> = chars_of("READ ");
    push_target(&mut out, dev, chan, attr);
    string_of(out.as_slice())
}

/// WRITE: announce `len` octets of a new value for an attribute.
pub fn write_command(dev: &str, chan: Option<(Dir, &str)>, attr: &str, len: usize) -> (s: String)
    ensures
        s@ == "WRITE "@ + target(dev@, chan_view(chan), attr@) + sp() + decimal(len as nat),
{
    let mut out: Vec<char> = chars_of("WRITE ");
    push_target(&mut out, dev, chan, attr);
    push_str(&mut out, " ");
    push_decimal(&mut out, len as u64);
    string_of(out.as_slice())
}

/// OPEN: a buffer of `samples` samples on the channels of `mask`.
pub fn open_command(dev: &str, samples: usize, mask: u32, cyclic: bool) -> (s: String)
    ensures
        s@ == "OPEN "@ + dev@ + sp() + decimal(samples as nat) + sp() + hex_digits(mask as nat, 8)
            + (if cyclic {
            " CYCLIC"@
        } else {
            Seq::<char>::empty()
        }),
{
    let mut out: Vec<char> = chars_of("OPEN ");
    push_str(&mut out, dev);
    push_str(&mut out, " ");
    push_decimal(&mut out, samples as u64);
    push_str(&mut out, " ");
    push_hex(&mut out, mask as u64, 8);
    let ghost before = out@;
    if cyclic {
        push_str(&mut out, " CYCLIC");
    }
    proof {
        assert(out@ =~= before + (if cyclic {
            " CYCLIC"@
        } else {
            Seq::<char>::empty()
        }));
    }
    string_of(out.as_slice())
}

/// CLOSE: the device's buffer.
pub fn close_command(dev: &str) -> (s: String)
    ensures
        s@ == "CLOSE "@ + dev@,
{
    let mut out: Vec<char> = chars_of("CLOSE ");
    push_str(&mut out, dev);
    string_of(out.as_slice())
}

/// READBUF: up to `nbytes` octets of buffer data.
pub fn readbuf_command(dev: &str, nbytes: usize) -> (s: String)
    ensures
        s@ == "READBUF "@ + dev@ + sp() + decimal(nbytes as nat),
{
    let mut out: Vec<char> = chars_of("READBUF ");
    push_str(&mut out, dev);
    push_str(&mut out, " ");
    push_decimal(&mut out, nbytes as u64);
    string_of(out.as_slice())
}

/// WRITEBUF: announce `nbytes` octets of buffer data.
pub fn writebuf_command(dev: &str, nbytes: usize) -> (s: String)
    ensures
        s@ == "WRITEBUF "@ + dev@ + sp() + decimal(nbytes as nat),
{
    let mut out: Vec<char> = chars_of("WRITEBUF ");
    push_str(&mut out, dev);
    push_str(&mut out, " ");
    push_decimal(&mut out, nbytes as u64);
    string_of(out.as_slice())
}

/// The return code on a reply line: a decimal number with white space around
/// it, `None` where the line is no such thing.
pub fn parse_retcode(line: &str) -> (r: Option<i64>)
    ensures
        match signed_value(trimmed(line@)) {
            Some(v) => r matches Some(n) && n == v,
            None => r is None,
        },
{
    let cs: Vec<char> = chars_of(line);
    let t: Vec<char> = trim(cs.as_slice());
    parse_i64(t.as_slice())
}

/// A return code that is no error gives a count; a negative one is an error
/// (-errno).
pub fn check_retcode(n: i64) -> (r: Result<u64, i64>)
    ensures
        n >= 0 ==> r == Ok::<u64, i64>(n as u64),
        n < 0 ==> r == Err::<u64, i64>(n),
{
    if n < 0 {
        Err(n)
    } else {
        Ok(n as u64)
    }
}

/// A line without the CR and NUL octets at its end.
pub open spec fn stripped(line: Seq<u8>) -> Seq<u8>
    decreases line.len(),
{
    if line.len() > 0 && (line.last() == 0x0D || line.last() == 0) {
        stripped(line.drop_last())
    } else {
        line
    }
}

/// The index of the first LF from `from` on.
pub open spec fn newline_from(s: Seq<u8>, from: int) -> Option<int>
    decreases s.len() - from,
{
    if from < 0 || from >= s.len() {
        None
    } else if s[from] == 0x0A {
        Some(from)
    } else {
        newline_from(s, from + 1)
    }
}

/// The first non-empty line in `s` (stripped), and what follows it. `None`
/// where no such line is complete.
pub open spec fn first_line(s: Seq<u8>) -> Option<(Seq<u8>, Seq<u8>)>
    decreases s.len(),
{
    match newline_from(s, 0) {
        Some(i) => if 0 <= i < s.len() {
            let line = stripped(s.take(i));
            let rest = s.skip(i + 1);
            if line.len() > 0 {
                Some((line, rest))
            } else {
                first_line(rest)
            }
        } else {
            None
        },
        None => None,
    }
}

/// `s` without the empty lines at its start.
pub open spec fn past_empty_lines(s: Seq<u8>) -> Seq<u8>
    decreases s.len(),
{
    match newline_from(s, 0) {
        Some(i) => if 0 <= i < s.len() && stripped(s.take(i)).len() == 0 {
            past_empty_lines(s.skip(i + 1))
        } else {
            s
        },
        None => s,
    }
}

/// Octets that were received and not consumed yet.
pub struct ByteQueue {
    pub data: Vec<u8>,
}

impl ByteQueue {
    /// Nothing received yet.
    pub fn new() -> (q: Self)
        ensures
            q.data@ == Seq::<u8>::empty(),
    {
        ByteQueue { data: Vec::new() }
    }

    /// Octets were received.
    pub fn push(&mut self, bytes: &[u8])
        ensures
            final(self).data@ == old(self).data@ + bytes@,
    {
        let ghost before = self.data@;
        self.data.extend_from_slice(bytes);
        proof {
            assert(self.data@ =~= before + bytes@);
        }
    }

    /// Take exactly `n` octets, `None` while fewer are there.
    pub fn take_exact(&mut self, n: usize) -> (r: Option<Vec<u8>>)
        ensures
            old(self).data@.len() < n ==> r is None && final(self).data@ == old(self).data@,
            old(self).data@.len() >= n ==> {
                &&& r matches Some(v) && v@ == old(self).data@.take(n as int)
                &&& final(self).data@ == old(self).data@.skip(n as int)
            },
    {
        if self.data.len() < n {
            return None;
        }
        let rest: Vec<u8> = self.data.split_off(n);
        let mut front: Vec<u8> = rest;
        std::mem::swap(&mut self.data, &mut front);
        proof {
            assert(front@ =~= old(self).data@.take(n as int));
            assert(self.data@ =~= old(self).data@.skip(n as int));
        }
        Some(front)
    }

    /// Take a LF-terminated line (CR and NUL stripped at its end), skipping
    /// empty lines; `None` while no such line is complete. Empty lines before
    /// an incomplete one are consumed.
    pub fn take_line(&mut self) -> (r: Option<Vec<u8>>)
        ensures
            match first_line(old(self).data@) {
                Some((line, rest)) => {
                    &&& r matches Some(v) && v@ == line
                    &&& final(self).data@ == rest
                },
                None => r is None && final(self).data@ == past_empty_lines(old(self).data@),
            },
    {
        let ghost all = self.data@;
        loop
            invariant
                all == old(self).data@,
                first_line(all) == first_line(self.data@),
                past_empty_lines(all) == past_empty_lines(self.data@),
            decreases self.data@.len(),
        {
            let mut i: usize = 0;
            while i < self.data.len() && self.data[i] != 0x0A
                invariant
                    i <= self.data@.len(),
                    newline_from(self.data@, 0) == newline_from(self.data@, i as int),
                decreases self.data@.len() - i,
            {
                i = i + 1;
            }
            if i >= self.data.len() {
                return None;
            }
            let ghost before = self.data@;
            let rest: Vec<u8> = self.data.split_off(i + 1);
            let mut line: Vec<u8> = rest;
            std::mem::swap(&mut self.data, &mut line);
            line.pop();
            proof {
                assert(line@ =~= before.take(i as int));
                assert(self.data@ =~= before.skip(i + 1));
            }
            while line.len() > 0 && (line[line.len() - 1] == 0x0D || line[line.len() - 1] == 0)
                invariant
                    stripped(line@) == stripped(before.take(i as int)),
                decreases line@.len(),
            {
                let ghost was = line@;
                line.pop();
                proof {
                    assert(line@ =~= was.drop_last());
                }
            }
            if line.len() > 0 {
                return Some(line);
            }
        }
    }
}

/// What a buffer read needs next.
#[derive(Debug, Clone, Copy, PartialEq, Eq, Structural)]
pub enum Need {
    /// A line with a return code.
    Retcode,
    /// The channel-mask line of a chunk of this many octets.
    Mask(usize),
    /// This many octets of data.
    Data(usize),
    /// Nothing: the read is complete.
    Nothing,
}

/// A READBUF in progress. The framing: a retcode line with the chunk size, a
/// hex channel-mask line only with the first chunk after OPEN, then the raw
/// octets; chunks repeat until `nbytes` have arrived, and a retcode of 0 (sent
/// only after a partial delivery) ends the read.
pub struct ReadBuf {
    pub nbytes: usize,
    pub out: Vec<u8>,
    /// The server still owes the channel mask after OPEN.
    pub mask_pending: bool,
    pub need: Need,
}

impl ReadBuf {
    /// A read of up to `nbytes` octets.
    pub fn new(nbytes: usize, mask_pending: bool) -> (r: Self)
        ensures
            r.nbytes == nbytes,
            r.out@ == Seq::<u8>::empty(),
            r.mask_pending == mask_pending,
            r.need == Need::Retcode,
    {
        ReadBuf { nbytes, out: Vec::new(), mask_pending, need: Need::Retcode }
    }

    /// A return code arrived: an error, the end, or the size of a chunk.
    pub fn on_retcode(&mut self, n: i64) -> (r: Result<(), i64>)
        requires
            old(self).need == Need::Retcode,
            n <= usize::MAX,
        ensures
            final(self).nbytes == old(self).nbytes,
            final(self).out == old(self).out,
            final(self).mask_pending == old(self).mask_pending,
            n < 0 ==> r == Err::<(), i64>(n) && final(self).need == Need::Nothing,
            n >= 0 ==> r is Ok,
            n == 0 ==> final(self).need == Need::Nothing,
            n > 0 && old(self).mask_pending ==> final(self).need == Need::Mask(n as usize),
            n > 0 && !old(self).mask_pending ==> final(self).need == Need::Data(n as usize),
    {
        if n < 0 {
            self.need = Need::Nothing;
            return Err(n);
        }
        if n == 0 {
            self.need = Need::Nothing;
        } else if self.mask_pending {
            self.need = Need::Mask(n as usize);
        } else {
            self.need = Need::Data(n as usize);
        }
        Ok(())
    }

    /// The channel-mask line arrived.
    pub fn on_mask(&mut self)
        requires
            old(self).need is Mask,
        ensures
            final(self).nbytes == old(self).nbytes,
            final(self).out == old(self).out,
            !final(self).mask_pending,
            old(self).need matches Need::Mask(n) ==> final(self).need == Need::Data(n),
    {
        if let Need::Mask(n) = self.need {
            self.mask_pending = false;
            self.need = Need::Data(n);
        }
    }

    /// The octets of a chunk arrived.
    pub fn on_data(&mut self, chunk: &[u8])
        requires
            old(self).need is Data,
        ensures
            final(self).nbytes == old(self).nbytes,
            final(self).out@ == old(self).out@ + chunk@,
            final(self).mask_pending == old(self).mask_pending,
            final(self).need == if final(self).out@.len() >= old(self).nbytes {
                Need::Nothing
            } else {
                Need::Retcode
            },
    {
        let ghost before = self.out@;
        self.out.extend_from_slice(chunk);
        proof {
            assert(self.out@ =~= before + chunk@);
        }
        self.need =
        if self.out.len() >= self.nbytes {
            Need::Nothing
        } else {
            Need::Retcode
        };
    }
}

/// The id in a device element that has the wanted name: what stands between
/// `id="` and the next quote.
pub open spec fn id_in(seg: Seq<char>, needle: Seq<char>) -> Option<Seq<char>> {
    if find_in(seg, needle) is None {
        None
    } else {
        match find_in(seg, "id=\""@) {
            None => None,
            Some(p) => {
                let rest = seg.skip(p + 4);
                match find_in(rest, "\""@) {
                    None => None,
                    Some(end) => Some(rest.take(end)),
                }
            },
        }
    }
}

/// The id of the first device element, from here on, that has the wanted name
/// and an id.
pub open spec fn scan_devices(xml: Seq<char>, needle: Seq<char>) -> Option<Seq<char>>
    decreases xml.len(),
{
    match find_in(xml, "<device "@) {
        None => id_in(xml, needle),
        Some(i) => match id_in(xml.take(i), needle) {
            Some(id) => Some(id),
            None => if 0 <= i && xml.skip(i + 8).len() < xml.len() {
                scan_devices(xml.skip(i + 8), needle)
            } else {
                None
            },
        },
    }
}

/// The name attribute to look for.
pub open spec fn name_attribute(name: Seq<char>) -> Seq<char> {
    "name=\""@ + name + "\""@
}

fn device_id(seg: &[char], needle: &[char]) -> (r: Option<String>)
    ensures
        match id_in(seg@, needle@) {
            Some(id) => r matches Some(s) && s@ == id,
            None => r is None,
        },
{
    proof {
        reveal_strlit("id=\"");
    }
    if find(seg, needle).is_none() {
        return None;
    }
    let key: Vec<char> = chars_of("id=\"");
    let quote: Vec<char> = chars_of("\"");
    match find(seg, key.as_slice()) {
        None => None,
        Some(p) => {
            let rest = &seg[p + 4..seg.len()];
            proof {
                assert(rest@ =~= seg@.skip(p + 4));
            }
            match find(rest, quote.as_slice()) {
                None => None,
                Some(end) => {
                    let id = &rest[0..end];
                    proof {
                        assert(id@ =~= rest@.take(end as int));
                    }
                    Some(string_of(id))
                },
            }
        },
    }
}

/// Map an iio device name to its id from the context XML (e.g. "ad9361-phy"
/// to "iio:device1"). Tiny string scan: the XML is machine-generated.
pub fn device_id_by_name(xml: &str, name: &str) -> (r: Option<String>)
    ensures
        match scan_devices(xml@, name_attribute(name@)) {
            Some(id) => r matches Some(s) && s@ == id,
            None => r is None,
        },
{
    let mut needle: Vec<char> = chars_of("name=\"");
    push_str(&mut needle, name);
    push_str(&mut needle, "\"");
    let open: Vec<char> = chars_of("<device ");
    let mut rest: Vec<char> = chars_of(xml);
    let ghost all = scan_devices(xml@, needle@);
    proof {
        reveal_strlit("<device ");
    }
    loop
        invariant
            needle@ == name_attribute(name@),
            all == scan_devices(xml@, needle@),
            open@ == "<device "@,
            open@.len() == 8,
            scan_devices(rest@, needle@) == all,
        decreases rest@.len(),
    {
        let s = rest.as_slice();
        match find(s, open.as_slice()) {
            None => {
                return device_id(s, needle.as_slice());
            },
            Some(i) => {
                let seg = &s[0..i];
                proof {
                    assert(seg@ =~= rest@.take(i as int));
                }
                let id: Option<String> = device_id(seg, needle.as_slice());
                if id.is_some() {
                    return id;
                }
                let mut tail: Vec<char> = Vec::new();
                push_all(&mut tail, &s[i + 8..s.len()]);
                proof {
                    assert(tail@ =~= rest@.skip(i + 8));
                }
                rest = tail;
            },
        }
    }
}

} // verus!
