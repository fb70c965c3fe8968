//! Decisions of the network node: addresses, the blocked ports of its filter,
//! its timers, and what it logs.

use crate::clock::{since_epoch, EpochTime};
use crate::params::rf::CcaType;
use crate::report::{colon_hex, mac_str};
use crate::rx::{RxEndStatus, RxEvent};
use crate::text::{chars_of, digit_value, hex_digits, hex_limit, lemma_hex_roundtrip};
use crate::text::{parse_unsigned, unsigned_value, word_views};
use crate::vector::PreambleType;
use std::collections::HashMap;
use vstd::prelude::*;

verus! {

/// Why a text is no MAC address.
#[derive(Debug, Clone, Copy, PartialEq, Eq, Structural)]
pub enum MacParseError {
    /// Not six parts.
    NotSixOctets,
    /// A part that is no octet in hexadecimal.
    BadOctet,
}

/// Colons and hyphens stand between the octets of an address.
pub open spec fn is_mac_separator(c: char) -> bool {
    c == ':' || c == '-'
}

/// The parts of a text between separators, empty ones too.
pub open spec fn mac_parts(s: Seq<char>) -> Seq<Seq<char>>
    decreases s.len(),
{
    if s.len() == 0 {
        seq![Seq::<char>::empty()]
    } else {
        let head = mac_parts(s.drop_last());
        if is_mac_separator(s.last()) {
            head.push(Seq::empty())
        } else {
            head.drop_last().push(head.last().push(s.last()))
        }
    }
}

/// The octet that part `i` of a text spells.
pub open spec fn mac_octet(s: Seq<char>, i: int) -> Option<int> {
    unsigned_value(mac_parts(s)[i], 16, 255)
}

fn split_mac(s: &[char]) -> (out: Vec<Vec<char>>)
    ensures
        word_views(out@) == mac_parts(s@),
{
    let mut out: Vec<Vec<char>> = Vec::new();
    let mut part: Vec<char> = Vec::new();
    proof {
        assert(s@.take(0) =~= Seq::<char>::empty());
        assert(word_views(out@).push(part@) =~= mac_parts(s@.take(0)));
    }
    for i in 0..s.len()
        invariant
            word_views(out@).push(part@) == mac_parts(s@.take(i as int)),
    {
        let ghost head = s@.take(i + 1);
        let ghost was = word_views(out@);
        let ghost was_part = part@;
        proof {
            assert(head.drop_last() =~= s@.take(i as int));
            assert(was.push(was_part).drop_last() =~= was);
        }
        let c: char = s[i];
        if c == ':' || c == '-' {
            out.push(part);
            part = Vec::new();
            proof {
                assert(part@ =~= Seq::empty());
                assert(word_views(out@) =~= was.push(was_part));
            }
        } else {
            part.push(c);
        }
    }
    let ghost was = word_views(out@);
    let ghost last = part@;
    out.push(part);
    proof {
        assert(s@.take(s@.len() as int) =~= s@);
        assert(word_views(out@) =~= was.push(last));
    }
    out
}

/// Parse a MAC address: six octets in hexadecimal with colons or hyphens
/// between them.
pub fn parse_mac(s: &str) -> (r: Result<[u8; 6], MacParseError>)
    ensures
        match r {
            Ok(m) => mac_parts(s@).len() == 6 && forall|i: int|
                0 <= i < 6 ==> #[trigger] mac_octet(s@, i) == Some(m@[i] as int),
            Err(MacParseError::NotSixOctets) => mac_parts(s@).len() != 6,
            Err(MacParseError::BadOctet) => mac_parts(s@).len() == 6 && exists|i: int|
                0 <= i < 6 && #[trigger] mac_octet(s@, i) is None,
        },
{
    let cs: Vec<char> = chars_of(s);
    let parts: Vec<Vec<char>> = split_mac(cs.as_slice());
    proof {
        assert(word_views(parts@).len() == parts@.len());
    }
    if parts.len() != 6 {
        return Err(MacParseError::NotSixOctets);
    }
    let mut m: [u8; 6] = [0; 6];
    for i in 0..6usize
        invariant
            parts@.len() == 6,
            m@.len() == 6,
            word_views(parts@) == mac_parts(s@),
            forall|k: int| 0 <= k < i ==> #[trigger] mac_octet(s@, k) == Some(m@[k] as int),
    {
        proof {
            assert(word_views(parts@)[i as int] == parts@[i as int]@);
            assert(mac_octet(s@, i as int) == unsigned_value(parts@[i as int]@, 16, 255));
        }
        match parse_unsigned(parts[i].as_slice(), 16, 255) {
            Some(v) => {
                m[i] = v as u8;
            },
            None => {
                return Err(MacParseError::BadOctet);
            },
        }
    }
    Ok(m)
}

proof fn lemma_parts_append(s: Seq<char>, w: Seq<char>)
    requires
        forall|i: int| 0 <= i < w.len() ==> !is_mac_separator(#[trigger] w[i]),
    ensures
        mac_parts(s).len() > 0,
        mac_parts(s + w) == mac_parts(s).drop_last().push(mac_parts(s).last() + w),
    decreases s.len() + w.len(),
{
    if s.len() > 0 {
        lemma_parts_append(s.drop_last(), Seq::empty());
    }
    let p = mac_parts(s);
    if w.len() == 0 {
        assert(s + w =~= s);
        assert(p.last() + w =~= p.last());
        assert(p.drop_last().push(p.last()) =~= p);
    } else {
        let head = w.drop_last();
        lemma_parts_append(s, head);
        assert((s + w).drop_last() =~= s + head);
        assert((s + w).last() == w[w.len() - 1]);
        let q = mac_parts(s + head);
        assert(q.drop_last() =~= p.drop_last());
        assert((p.last() + head).push(w.last()) =~= p.last() + w);
    }
}

proof fn lemma_octet_text(v: u8)
    ensures
        hex_digits(v as nat, 2).len() == 2,
        forall|i: int|
            0 <= i < hex_digits(v as nat, 2).len() ==> !is_mac_separator(
                #[trigger] hex_digits(v as nat, 2)[i],
            ),
        unsigned_value(hex_digits(v as nat, 2), 16, 255) == Some(v as int),
{
    let h = hex_digits(v as nat, 2);
    reveal_with_fuel(hex_limit, 3);
    lemma_hex_roundtrip(v as nat, 2);
    assert(digit_value(h[0]) is Some);
    assert(digit_value(h[1]) is Some);
}

proof fn lemma_parts_of_text(a: Seq<u8>)
    requires
        a.len() > 0,
    ensures
        mac_parts(colon_hex(a)) == Seq::new(a.len(), |i: int| hex_digits(a[i] as nat, 2)),
    decreases a.len(),
{
    let two = hex_digits(a.last() as nat, 2);
    lemma_octet_text(a.last());
    if a.len() == 1 {
        lemma_parts_append(Seq::empty(), two);
        assert(Seq::<char>::empty() + two =~= two);
        assert(mac_parts(colon_hex(a)) =~= Seq::new(
            a.len(),
            |i: int| hex_digits(a[i] as nat, 2),
        ));
    } else {
        reveal_strlit(":");
        let head = colon_hex(a.drop_last());
        lemma_parts_of_text(a.drop_last());
        assert((head + ":"@).drop_last() =~= head);
        assert(mac_parts(head + ":"@) == mac_parts(head).push(Seq::empty()));
        lemma_parts_append(head + ":"@, two);
        assert(mac_parts(head).push(Seq::<char>::empty()).drop_last() =~= mac_parts(head));
        assert(Seq::<char>::empty() + two =~= two);
        assert(mac_parts(colon_hex(a)) =~= Seq::new(
            a.len(),
            |i: int| hex_digits(a[i] as nat, 2),
        ));
    }
}

/// An address written as text parses back to the address.
pub proof fn lemma_mac_text_parses(m: Seq<u8>)
    requires
        m.len() == 6,
    ensures
        mac_parts(colon_hex(m)).len() == 6,
        forall|i: int| 0 <= i < 6 ==> #[trigger] mac_octet(colon_hex(m), i) == Some(m[i] as int),
{
    lemma_parts_of_text(m);
    assert forall|i: int| 0 <= i < 6 implies #[trigger] mac_octet(colon_hex(m), i) == Some(
        m[i] as int,
    ) by {
        lemma_octet_text(m[i]);
    }
}

/// A locally administered address, `02:53:32:47` and the low 16 bits of a
/// clock reading in nanoseconds (0x5151 where there is none).
pub fn mac_from_time(t: Option<EpochTime>) -> (m: [u8; 6])
    requires
        t matches Some(e) ==> e.wf(),
    ensures
        m@.take(4) == seq![0x02u8, 0x53, 0x32, 0x47],
        256 * m@[4] + m@[5] == match t {
            Some(e) => (e.total_nanos() % 0x1_0000) as int,
            None => 0x5151,
        },
{
    let ns: u64 = match t {
        Some(e) => e.nanos_total(),
        None => 0x5151,
    };
    let low: u64 = ns % 0x1_0000;
    proof {
        if let Some(e) = t {
            vstd::arithmetic::div_mod::lemma_mod_mod(
                e.total_nanos() as int,
                0x1_0000,
                0x1_0000_0000_0000,
            );
        }
    }
    let m: [u8; 6] = [0x02, 0x53, 0x32, 0x47, (low / 256) as u8, (low % 256) as u8];
    proof {
        assert(m@.take(4) =~= seq![0x02u8, 0x53, 0x32, 0x47]);
    }
    m
}

/// A locally administered address that differs from start to start: its last
/// two octets come from the system clock.
pub fn random_mac() -> (m: [u8; 6])
    ensures
        m@.take(4) == seq![0x02u8, 0x53, 0x32, 0x47],
{
    mac_from_time(since_epoch())
}

/// A MAC address as text.
pub fn fmt_mac(m: &[u8; 6]) -> (s: String)
    ensures
        s@ == colon_hex(m@),
{
    mac_str(m.as_slice())
}

/// A MAC address as a number, the first octet the most significant.
pub open spec fn mac_number(m: Seq<u8>) -> int {
    m[0] * 0x100_0000_0000 + m[1] * 0x1_0000_0000 + m[2] * 0x100_0000 + m[3] * 0x1_0000 + m[4]
        * 0x100 + m[5]
}

/// Different addresses have different numbers.
pub proof fn lemma_mac_number_injective(a: Seq<u8>, b: Seq<u8>)
    requires
        a.len() == 6,
        b.len() == 6,
        mac_number(a) == mac_number(b),
    ensures
        a == b,
{
    assert(a[0] == b[0]);
    assert(a[1] == b[1]);
    assert(a[2] == b[2]);
    assert(a[3] == b[3]);
    assert(a[4] == b[4]);
    assert(a =~= b);
}

/// The MCS last announced for each peer.
pub struct RateSeen {
    /// By the number of the peer's address.
    pub peers: HashMap<u64, u8>,
}

impl RateSeen {
    /// Nothing announced.
    pub fn new() -> (r: Self)
        ensures
            r.peers@ == Map::<u64, u8>::empty(),
    {
        RateSeen { peers: HashMap::new() }
    }

    /// The rate control now sends to `peer` at `mcs`: true where that is to be
    /// announced, because it is not what was announced last.
    pub fn update(&mut self, peer: &[u8; 6], mcs: u8) -> (announce: bool)
        ensures
            final(self).peers@ == old(self).peers@.insert(mac_number(peer@) as u64, mcs),
            announce == !(old(self).peers@.contains_key(mac_number(peer@) as u64)
                && old(self).peers@[mac_number(peer@) as u64] == mcs),
    {
        broadcast use vstd::std_specs::hash::group_hash_axioms;

        let key: u64 = peer[0] as u64 * 0x100_0000_0000 + peer[1] as u64 * 0x1_0000_0000 + peer[2]
            as u64 * 0x100_0000 + peer[3] as u64 * 0x1_0000 + peer[4] as u64 * 0x100 + peer[5] as u64;
        match self.peers.insert(key, mcs) {
            Some(was) => was != mcs,
            None => true,
        }
    }
}

/// Which way a filtered frame was going.
#[derive(Debug, Clone, Copy, PartialEq, Eq, Structural)]
pub enum Toward {
    Air,
    Host,
}

/// How long the filter log is silent on one ground after a line on it,
/// milliseconds.
pub const FILTER_LOG_MS: u64 = 30_000;

/// The frames filtered in one direction on one ground.
pub struct FilterEntry {
    pub toward: Toward,
    pub reason: Vec<char>,
    pub count: u64,
    /// When the last line was written, milliseconds.
    pub reported_ms: Option<u64>,
}

/// Rate-limited log of what the filter dropped: the first frame of each
/// direction and reason at once, later a count every 30 s.
pub struct FilterLog {
    pub list: Vec<FilterEntry>,
}

/// How many frames were dropped in a direction on a ground, and when the last
/// line on them was written.
pub open spec fn dropped(list: Seq<FilterEntry>, toward: Toward, reason: Seq<char>) -> (
    int,
    Option<u64>,
)
    decreases list.len(),
{
    if list.len() == 0 {
        (0, None)
    } else if list.last().toward == toward && list.last().reason@ == reason {
        (list.last().count as int, list.last().reported_ms)
    } else {
        dropped(list.drop_last(), toward, reason)
    }
}

/// A line is due now: none was written, or the last one long enough ago.
pub open spec fn line_due(reported_ms: Option<u64>, now_ms: u64) -> bool {
    match reported_ms {
        Some(t) => now_ms - t >= FILTER_LOG_MS,
        None => true,
    }
}

/// The first frame dropped on a ground gets a line at once, and after a line
/// the next one comes 30 s later or more.
pub proof fn lemma_filter_line_spacing(reported_ms: u64, now_ms: u64)
    ensures
        line_due(None, now_ms),
        line_due(Some(reported_ms), now_ms) <==> now_ms >= reported_ms + 30_000,
{
}

/// The count to write a line with when one more frame is dropped now, where a
/// line is due.
pub open spec fn due_line(
    list: Seq<FilterEntry>,
    toward: Toward,
    reason: Seq<char>,
    now_ms: u64,
) -> Option<u64> {
    let was = dropped(list, toward, reason);
    if line_due(was.1, now_ms) {
        Some((was.0 + 1) as u64)
    } else {
        None
    }
}

/// One more frame was dropped in a direction on a ground; a line on it, if due,
/// was written now. Nothing else changed.
pub open spec fn noted(
    before: Seq<FilterEntry>,
    after: Seq<FilterEntry>,
    toward: Toward,
    reason: Seq<char>,
    now_ms: u64,
) -> bool {
    let was = dropped(before, toward, reason);
    &&& dropped(after, toward, reason) == (
        was.0 + 1,
        if line_due(was.1, now_ms) {
            Some(now_ms)
        } else {
            was.1
        },
    )
    &&& forall|d: Toward, r: Seq<char>|
        !(d == toward && r == reason) ==> #[trigger] dropped(after, d, r) == dropped(before, d, r)
}

proof fn lemma_dropped_update(
    list: Seq<FilterEntry>,
    p: int,
    e: FilterEntry,
    toward: Toward,
    reason: Seq<char>,
)
    requires
        0 <= p < list.len(),
        e.toward == list[p].toward,
        e.reason@ == list[p].reason@,
        forall|j: int|
            p < j < list.len() ==> !((#[trigger] list[j]).toward == e.toward && list[j].reason@
                == e.reason@),
    ensures
        dropped(list.update(p, e), toward, reason) == if e.toward == toward && e.reason@ == reason {
            (e.count as int, e.reported_ms)
        } else {
            dropped(list, toward, reason)
        },
        dropped(list, e.toward, e.reason@) == (list[p].count as int, list[p].reported_ms),
    decreases list.len(),
{
    let new = list.update(p, e);
    if p == list.len() - 1 {
        assert(new.drop_last() =~= list.drop_last());
    } else {
        assert(new.last() == list.last());
        assert(new.drop_last() =~= list.drop_last().update(p, e));
        assert(list[list.len() - 1] == list.last());
        lemma_dropped_update(list.drop_last(), p, e, toward, reason);
    }
}

proof fn lemma_dropped_none(list: Seq<FilterEntry>, toward: Toward, reason: Seq<char>)
    requires
        forall|j: int|
            0 <= j < list.len() ==> !((#[trigger] list[j]).toward == toward && list[j].reason@
                == reason),
    ensures
        dropped(list, toward, reason) == (0int, None::<u64>),
    decreases list.len(),
{
    if list.len() > 0 {
        assert(list[list.len() - 1] == list.last());
        lemma_dropped_none(list.drop_last(), toward, reason);
    }
}

fn same_text(a: &[char], b: &[char]) -> (r: bool)
    ensures
        r == (a@ == b@),
{
    if a.len() != b.len() {
        return false;
    }
    for i in 0..a.len()
        invariant
            a@.len() == b@.len(),
            forall|k: int| 0 <= k < i ==> a@[k] == #[trigger] b@[k],
    {
        if a[i] != b[i] {
            return false;
        }
    }
    proof {
        assert(a@ =~= b@);
    }
    true
}

impl FilterLog {
    /// Nothing dropped.
    pub fn new() -> (l: Self)
        ensures
            forall|d: Toward, r: Seq<char>| #[trigger] dropped(l.list@, d, r) == (0int, None::<u64>),
    {
        FilterLog { list: Vec::new() }
    }

    /// A frame was dropped at `now_ms`: the count to write a line with, where
    /// a line is due.
    pub fn note(&mut self, toward: Toward, reason: &str, now_ms: u64) -> (line: Option<u64>)
        requires
            dropped(old(self).list@, toward, reason@).0 < u64::MAX,
        ensures
            line == due_line(old(self).list@, toward, reason@, now_ms),
            noted(old(self).list@, final(self).list@, toward, reason@, now_ms),
    {
        let ghost before = self.list@;
        let key: Vec<char> = chars_of(reason);
        let n: usize = self.list.len();
        let mut p: usize = n;
        while p > 0
            invariant
                p <= n == self.list@.len(),
                self.list@ == before,
                before == old(self).list@,
                key@ == reason@,
                dropped(before, toward, reason@).0 < u64::MAX,
                forall|j: int|
                    p <= j < n ==> !((#[trigger] self.list@[j]).toward == toward
                        && self.list@[j].reason@ == reason@),
            decreases p,
        {
            p = p - 1;
            if self.list[p].toward == toward && same_text(
                self.list[p].reason.as_slice(),
                key.as_slice(),
            ) {
                proof {
                    lemma_dropped_update(before, p as int, before[p as int], toward, reason@);
                }
                let count: u64 = self.list[p].count + 1;
                let last: Option<u64> = self.list[p].reported_ms;
                let due: bool = match last {
                    Some(t) => now_ms >= t && now_ms - t >= FILTER_LOG_MS,
                    None => true,
                };
                let reported_ms: Option<u64> = if due {
                    Some(now_ms)
                } else {
                    last
                };
                let e = FilterEntry { toward, reason: key, count, reported_ms };
                proof {
                    assert forall|d: Toward, r: Seq<char>| #[trigger]
                        dropped(before.update(p as int, e), d, r) == if d == toward && r == reason@ {
                            (e.count as int, e.reported_ms)
                        } else {
                            dropped(before, d, r)
                        } by {
                        lemma_dropped_update(before, p as int, e, d, r);
                    }
                }
                self.list[p] = e;
                return if due {
                    Some(count)
                } else {
                    None
                };
            }
        }
        let e = FilterEntry { toward, reason: key, count: 1, reported_ms: Some(now_ms) };
        proof {
            lemma_dropped_none(before, toward, reason@);
            assert(before.push(e).drop_last() =~= before);
        }
        self.list.push(e);
        Some(1)
    }
}

fn has_port(list: &Vec<u16>, p: u16) -> (b: bool)
    ensures
        b == list@.contains(p),
{
    for i in 0..list.len()
        invariant
            forall|k: int| 0 <= k < i ==> list@[k] != p,
    {
        if list[i] == p {
            return true;
        }
    }
    false
}

/// `list` with the ports of `extra` that it lacks behind it, each once.
pub open spec fn with_ports(list: Seq<u16>, extra: Seq<u16>) -> Seq<u16>
    decreases extra.len(),
{
    if extra.len() == 0 {
        list
    } else {
        let head = with_ports(list, extra.drop_last());
        if head.contains(extra.last()) {
            head
        } else {
            head.push(extra.last())
        }
    }
}

/// The network attachment to open.
#[derive(Debug, PartialEq, Eq)]
pub enum NicChoice {
    /// Ethernet over UDP, bound to this address.
    Udp(String),
    /// The TAP interface of this name, or any.
    Tap(Option<String>),
    /// None was asked for.
    Nothing,
}

/// The network attachment that the options ask for: UDP before TAP, and a TAP
/// without a name is any TAP.
pub fn choose_nic(udp: Option<String>, tap: Option<String>) -> (c: NicChoice)
    ensures
        c == match (udp, tap) {
            (Some(bind), _) => NicChoice::Udp(bind),
            (None, Some(name)) => NicChoice::Tap(
                if name@.len() == 0 {
                    None
                } else {
                    Some(name)
                },
            ),
            (None, None) => NicChoice::Nothing,
        },
{
    match (udp, tap) {
        (Some(bind), _) => NicChoice::Udp(bind),
        (None, Some(name)) => {
            let any: bool = chars_of(name.as_str()).len() == 0;
            NicChoice::Tap(
                if any {
                    None
                } else {
                    Some(name)
                },
            )
        },
        (None, None) => NicChoice::Nothing,
    }
}

/// The ports the filter blocks: the default ones, then the ones to block
/// besides, without the ones to allow.
pub fn configure_ports(
    defaults: Vec<u16>,
    block_port: &Vec<u16>,
    allow_port: &Vec<u16>,
) -> (ports: Vec<u16>)
    ensures
        ports@ == with_ports(defaults@, block_port@).filter(|p: u16| !allow_port@.contains(p)),
{
    let mut all: Vec<u16> = defaults;
    proof {
        assert(block_port@.take(0) =~= Seq::<u16>::empty());
    }
    for i in 0..block_port.len()
        invariant
            all@ == with_ports(defaults@, block_port@.take(i as int)),
    {
        proof {
            assert(block_port@.take(i + 1).drop_last() =~= block_port@.take(i as int));
        }
        let p: u16 = block_port[i];
        if !has_port(&all, p) {
            all.push(p);
        }
    }
    proof {
        assert(block_port@.take(block_port@.len() as int) =~= block_port@);
    }
    let mut ports: Vec<u16> = Vec::new();
    let ghost keep = |p: u16| !allow_port@.contains(p);
    proof {
        reveal(Seq::filter);
        assert(all@.take(0) =~= Seq::<u16>::empty());
    }
    for i in 0..all.len()
        invariant
            keep == (|p: u16| !allow_port@.contains(p)),
            ports@ == all@.take(i as int).filter(keep),
    {
        proof {
            reveal(Seq::filter);
            assert(all@.take(i + 1).drop_last() =~= all@.take(i as int));
        }
        let p: u16 = all[i];
        if !has_port(allow_port, p) {
            ports.push(p);
        }
    }
    proof {
        assert(all@.take(all@.len() as int) =~= all@);
    }
    ports
}

/// A port that is allowed is not blocked; one that is not allowed is blocked
/// where it was by default or by request, and nowhere else.
pub proof fn lemma_blocked_ports(defaults: Seq<u16>, block: Seq<u16>, allow: Seq<u16>, p: u16)
    ensures
        with_ports(defaults, block).filter(|q: u16| !allow.contains(q)).contains(p) <==> (
        defaults.contains(p) || block.contains(p)) && !allow.contains(p),
{
    lemma_with_ports(defaults, block, p);
    lemma_filter_member(with_ports(defaults, block), |q: u16| !allow.contains(q), p);
}

proof fn lemma_with_ports(list: Seq<u16>, extra: Seq<u16>, p: u16)
    ensures
        with_ports(list, extra).contains(p) <==> list.contains(p) || extra.contains(p),
    decreases extra.len(),
{
    if extra.len() > 0 {
        let head = with_ports(list, extra.drop_last());
        let last = extra.last();
        lemma_with_ports(list, extra.drop_last(), p);
        assert(extra =~= extra.drop_last().push(last));
        assert(extra.contains(p) <==> extra.drop_last().contains(p) || p == last) by {
            if extra.drop_last().contains(p) {
                let i = choose|i: int|
                    0 <= i < extra.drop_last().len() && extra.drop_last()[i] == p;
                assert(extra[i] == p);
            }
            if p == last {
                assert(extra[extra.len() - 1] == p);
            }
            if extra.contains(p) && p != last {
                let i = choose|i: int| 0 <= i < extra.len() && extra[i] == p;
                assert(extra.drop_last()[i] == p);
            }
        }
        assert(head.push(last).contains(p) <==> head.contains(p) || p == last) by {
            if head.contains(p) {
                let i = choose|i: int| 0 <= i < head.len() && head[i] == p;
                assert(head.push(last)[i] == p);
            }
            if p == last {
                assert(head.push(last)[head.len() as int] == p);
            }
            if head.push(last).contains(p) && p != last {
                let i = choose|i: int| 0 <= i < head.push(last).len() && head.push(last)[i] == p;
                assert(head[i] == p);
            }
        }
    }
}

/// What a filter leaves, it had and accepts.
proof fn lemma_filter_member(s: Seq<u16>, f: spec_fn(u16) -> bool, p: u16)
    ensures
        s.filter(f).contains(p) ==> s.contains(p) && f(p),
        s.contains(p) && f(p) ==> s.filter(f).contains(p),
    decreases s.len(),
{
    broadcast use vstd::seq_lib::group_filter_ensures;

    if s.filter(f).contains(p) {
        s.lemma_filter_contains_rev(f, p);
        let i = choose|i: int| 0 <= i < s.filter(f).len() && s.filter(f)[i] == p;
        assert(f(s.filter(f)[i]));
    }
}

/// The time between identifications, microseconds: at least a minute.
pub fn id_interval_us(minutes: u64) -> (us: u64)
    requires
        minutes <= u64::MAX / 60_000_000,
    ensures
        us == 60_000_000 * (if minutes < 1 {
            1
        } else {
            minutes as int
        }),
{
    if minutes < 1 {
        60_000_000
    } else {
        minutes * 60_000_000
    }
}

/// A response timeout given in milliseconds, in microseconds.
pub fn ack_timeout_us(ms: u64) -> (us: u64)
    requires
        ms <= u64::MAX / 1000,
    ensures
        us == 1000 * ms,
{
    ms * 1000
}

/// The CCA channel classification for its number: 2 is type 2, any other
/// number type 1.
pub fn cca_type_of(code: u8) -> (t: CcaType)
    ensures
        t == if code == 2 {
            CcaType::Type2
        } else {
            CcaType::Type1
        },
{
    if code == 2 {
        CcaType::Type2
    } else {
        CcaType::Type1
    }
}

/// What the verbose log says of a receive event.
#[derive(Debug, Clone, Copy, PartialEq, Eq, Structural)]
pub enum Verbose {
    /// A PSDU came in.
    Psdu,
    /// A reception ended in error.
    EndedInError,
    /// An S1G_LONG PPDU began.
    LongPpdu,
    /// Nothing.
    Silent,
}

/// What the verbose log says of a receive event.
pub fn verbose_line(ev: &RxEvent) -> (v: Verbose)
    ensures
        v == match *ev {
            RxEvent::PsduReceived { sample_index: _, rxvector: _, psdu: _ } => Verbose::Psdu,
            RxEvent::RxEnd { sample_index: _, status } => if status is NoError {
                Verbose::Silent
            } else {
                Verbose::EndedInError
            },
            RxEvent::RxStart { sample_index: _, rxvector } => if rxvector.preamble_type
                == PreambleType::S1gLong {
                Verbose::LongPpdu
            } else {
                Verbose::Silent
            },
            _ => Verbose::Silent,
        },
{
    match ev {
        RxEvent::PsduReceived { .. } => Verbose::Psdu,
        RxEvent::RxEnd { status, .. } => match status {
            RxEndStatus::NoError => Verbose::Silent,
            _ => Verbose::EndedInError,
        },
        RxEvent::RxStart { rxvector, .. } => if rxvector.preamble_type == PreambleType::S1gLong {
            Verbose::LongPpdu
        } else {
            Verbose::Silent
        },
        _ => Verbose::Silent,
    }
}

/// What the MAC reports to the node.
pub enum MacReport {
    /// An Ethernet frame for the host.
    EthReceived(Vec<u8>),
    /// A frame for `dest` is done with.
    TxComplete { dest: [u8; 6] },
    /// A frame was given up.
    TxDropped,
    /// An NDP came in.
    NdpReceived,
    /// A frame from the air was filtered.
    Filtered { reason: String },
    /// The station identification was sent.
    IdentSent,
    /// Another station identified itself.
    IdentReceived,
}

/// What the node does on a report.
pub enum NodeAction {
    /// Hand a frame to the host.
    Deliver(Vec<u8>),
    /// A transmission is over: whether to log it, and the MCS to announce for
    /// its peer, if any.
    TxDone { log: bool, announce: Option<u8> },
    /// Log the report.
    Log,
    /// Log that this many frames were filtered on this ground.
    FilterLine(u64),
    /// Do nothing.
    Nothing,
}

/// What the node remembers between reports.
pub struct NodeLog {
    pub filter: FilterLog,
    pub rates: RateSeen,
}

/// What the node announces for `dest` when the rate control sends to it at
/// `peer_mcs`: the MCS, unless it was announced last.
pub open spec fn announced(rates: RateSeen, dest: Seq<u8>, peer_mcs: Option<u8>) -> Option<u8> {
    let key = mac_number(dest) as u64;
    match peer_mcs {
        Some(m) => if rates.peers@.contains_key(key) && rates.peers@[key] == m {
            None
        } else {
            Some(m)
        },
        None => None,
    }
}

impl NodeLog {
    /// Nothing happened.
    pub fn new() -> (l: Self)
        ensures
            l.rates.peers@ == Map::<u64, u8>::empty(),
            forall|d: Toward, r: Seq<char>| #[trigger]
                dropped(l.filter.list@, d, r) == (0int, None::<u64>),
    {
        NodeLog { filter: FilterLog::new(), rates: RateSeen::new() }
    }

    /// A frame of the host was filtered at `now_ms`: the count to write a line
    /// with, where one is due.
    pub fn on_outgoing_filtered(&mut self, reason: &str, now_ms: u64) -> (line: Option<u64>)
        requires
            dropped(old(self).filter.list@, Toward::Air, reason@).0 < u64::MAX,
        ensures
            line == due_line(old(self).filter.list@, Toward::Air, reason@, now_ms),
            noted(
                old(self).filter.list@,
                final(self).filter.list@,
                Toward::Air,
                reason@,
                now_ms,
            ),
            final(self).rates == old(self).rates,
    {
        self.filter.note(Toward::Air, reason, now_ms)
    }

    /// What to do on a report of the MAC at `now_ms`. `peer_mcs` is what the
    /// rate control has for the peer of a transmission that is over.
    pub fn on_report(
        &mut self,
        report: MacReport,
        verbose: bool,
        peer_mcs: Option<u8>,
        now_ms: u64,
    ) -> (a: NodeAction)
        requires
            report matches MacReport::Filtered { reason } ==> dropped(
                old(self).filter.list@,
                Toward::Host,
                reason@,
            ).0 < u64::MAX,
        ensures
            match report {
                MacReport::EthReceived(f) => a == NodeAction::Deliver(f),
                MacReport::TxComplete { dest } => a == (NodeAction::TxDone {
                    log: verbose,
                    announce: announced(old(self).rates, dest@, peer_mcs),
                }),
                MacReport::NdpReceived => a == if verbose {
                    NodeAction::Log
                } else {
                    NodeAction::Nothing
                },
                MacReport::Filtered { reason } => {
                    &&& a == match due_line(
                        old(self).filter.list@,
                        Toward::Host,
                        reason@,
                        now_ms,
                    ) {
                        Some(n) => NodeAction::FilterLine(n),
                        None => NodeAction::Nothing,
                    }
                    &&& noted(
                        old(self).filter.list@,
                        final(self).filter.list@,
                        Toward::Host,
                        reason@,
                        now_ms,
                    )
                },
                _ => a == NodeAction::Log,
            },
            report is Filtered || final(self).filter == old(self).filter,
            final(self).rates.peers@ == match (report, peer_mcs) {
                (MacReport::TxComplete { dest }, Some(m)) => old(self).rates.peers@.insert(
                    mac_number(dest@) as u64,
                    m,
                ),
                _ => old(self).rates.peers@,
            },
    {
        match report {
            MacReport::EthReceived(f) => NodeAction::Deliver(f),
            MacReport::TxComplete { dest } => {
                let announce: Option<u8> = match peer_mcs {
                    Some(m) => if self.rates.update(&dest, m) {
                        Some(m)
                    } else {
                        None
                    },
                    None => None,
                };
                NodeAction::TxDone { log: verbose, announce }
            },
            MacReport::NdpReceived => if verbose {
                NodeAction::Log
            } else {
                NodeAction::Nothing
            },
            MacReport::Filtered { reason } => match self.filter.note(
                Toward::Host,
                reason.as_str(),
                now_ms,
            ) {
                Some(n) => NodeAction::FilterLine(n),
                None => NodeAction::Nothing,
            },
            _ => NodeAction::Log,
        }
    }
}

/// The parts of an address text: what no colon and no dash stands in is one part,
/// and each of these ends a part and starts the next.
pub proof fn lemma_address_parts(a: Seq<char>, c: char, b: Seq<char>)
    requires
        c == ':' || c == '-',
    ensures
        mac_parts(a + seq![c] + b) == mac_parts(a) + mac_parts(b),
        (forall|i: int| 0 <= i < b.len() ==> b[i] != ':' && b[i] != '-') ==> mac_parts(b) == seq![b],
        mac_parts(b).len() >= 1,
    decreases b.len(),
{
    let s = a + seq![c] + b;
    if b.len() == 0 {
        assert(s.drop_last() =~= a);
        assert(s.last() == c);
        assert(mac_parts(s) =~= mac_parts(a) + mac_parts(b));
        assert(b =~= Seq::<char>::empty());
    } else {
        let d = b.drop_last();
        lemma_address_parts(a, c, d);
        assert(s.drop_last() =~= a + seq![c] + d);
        assert(s.last() == b.last());
        assert(mac_parts(s) =~= mac_parts(a) + mac_parts(b));
        if forall|i: int| 0 <= i < b.len() ==> b[i] != ':' && b[i] != '-' {
            assert(forall|i: int| 0 <= i < d.len() ==> d[i] == b[i]);
            assert(mac_parts(d) == seq![d]);
            assert(d.push(b.last()) =~= b);
            assert(mac_parts(b) =~= seq![b]);
        }
    }
}

/// A line on dropped frames tells how many there were with this one; the first is
/// told at once, later ones when 30 s have passed since the last line.
pub proof fn lemma_drop_lines(list: Seq<FilterEntry>, toward: Toward, reason: Seq<char>, now_ms: u64)
    requires
        dropped(list, toward, reason).0 < u64::MAX,
    ensures
        match dropped(list, toward, reason).1 {
            None => due_line(list, toward, reason, now_ms) is Some,
            Some(t) => due_line(list, toward, reason, now_ms) is Some <==> now_ms >= t + 30_000,
        },
        due_line(list, toward, reason, now_ms) matches Some(n) ==> n == dropped(
            list,
            toward,
            reason,
        ).0 + 1 || dropped(list, toward, reason).0 < 0,
{
}

/// Adding ports keeps those that are there, in order, and appends each further one
/// once.
pub proof fn lemma_ports(list: Seq<u16>, extra: Seq<u16>, p: u16)
    ensures
        ({
            let w = with_ports(list, extra);
            &&& list.len() <= w.len() && w.take(list.len() as int) == list
            &&& w.contains(p) <==> list.contains(p) || extra.contains(p)
            &&& forall|i: int, j: int|
                list.len() <= i < w.len() && 0 <= j < i ==> #[trigger] w[i] != #[trigger] w[j]
        }),
    decreases extra.len(),
{
    let w = with_ports(list, extra);
    if extra.len() == 0 {
        assert(w.take(list.len() as int) =~= list);
    } else {
        let e = extra.drop_last();
        let head = with_ports(list, e);
        let last = extra.last();
        lemma_ports(list, e, p);
        lemma_ports(list, e, last);
        assert(extra.contains(p) <==> e.contains(p) || p == last) by {
            if extra.contains(p) {
                let i = choose|i: int| 0 <= i < extra.len() && extra[i] == p;
                if i < e.len() {
                    assert(e[i] == p);
                }
            }
            if e.contains(p) {
                let i = choose|i: int| 0 <= i < e.len() && e[i] == p;
                assert(extra[i] == p);
            }
            assert(extra[extra.len() - 1] == last);
        }
        if !head.contains(last) {
            assert(w.take(list.len() as int) =~= head.take(list.len() as int));
            assert(w.contains(p) <==> head.contains(p) || p == last) by {
                if w.contains(p) {
                    let i = choose|i: int| 0 <= i < w.len() && w[i] == p;
                    if i < head.len() {
                        assert(head[i] == p);
                    }
                }
                if head.contains(p) {
                    let i = choose|i: int| 0 <= i < head.len() && head[i] == p;
                    assert(w[i] == p);
                }
                assert(w[w.len() - 1] == last);
            }
        }
    }
}

/// A peer's MCS is announced where it is known and differs from the one last
/// announced for that peer.
pub proof fn lemma_announcements(rates: RateSeen, dest: Seq<u8>, mcs: u8)
    ensures
        announced(rates, dest, None) is None,
        ({
            let key = mac_number(dest) as u64;
            announced(rates, dest, Some(mcs)) is None <==> rates.peers@.contains_key(key)
                && rates.peers@[key] == mcs
        }),
        announced(rates, dest, Some(mcs)) matches Some(m) ==> m == mcs,
{
}

/// What is known of the frames dropped in a direction on a ground: the count and the
/// time of the entry for them, of which the last one decides; nothing without one.
pub proof fn lemma_dropped_entries(list: Seq<FilterEntry>, e: FilterEntry, toward: Toward, reason: Seq<char>)
    ensures
        dropped(Seq::<FilterEntry>::empty(), toward, reason) == (0int, None::<u64>),
        e.toward == toward && e.reason@ == reason ==> dropped(list.push(e), toward, reason) == (
            e.count as int,
            e.reported_ms,
        ),
        e.toward != toward || e.reason@ != reason ==> dropped(list.push(e), toward, reason) == dropped(
            list,
            toward,
            reason,
        ),
{
    assert(list.push(e).drop_last() =~= list);
}

/// A frame that is noted counts once, in its direction and on its ground and on no
/// other; the time of the last line is now where a line was due, and stays otherwise.
pub proof fn lemma_noted(
    before: Seq<FilterEntry>,
    after: Seq<FilterEntry>,
    toward: Toward,
    reason: Seq<char>,
    now_ms: u64,
    other: Toward,
    ground: Seq<char>,
)
    requires
        noted(before, after, toward, reason, now_ms),
    ensures
        dropped(after, toward, reason).0 == dropped(before, toward, reason).0 + 1,
        match dropped(before, toward, reason).1 {
            None => dropped(after, toward, reason).1 == Some(now_ms),
            Some(t) => dropped(after, toward, reason).1 == if now_ms >= t + 30_000 {
                Some(now_ms)
            } else {
                Some(t)
            },
        },
        other != toward || ground != reason ==> dropped(after, other, ground) == dropped(
            before,
            other,
            ground,
        ),
{
}

} // verus!
