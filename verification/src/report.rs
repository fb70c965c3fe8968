//! What the receiver tool reports: names of frames and events, and the tallies
//! of its summary.

use crate::rx::{RxEndStatus, RxEvent};
use crate::text::{chars_of, decimal, digit_char, hex_digits, push_decimal, push_hex, push_str};
use crate::text::string_of;
use crate::vector::{Coding, GuardInterval, PreambleType, RxVector};
use vstd::prelude::*;

verus! {

/// Octets in hexadecimal, two digits each, with colons between them.
pub open spec fn colon_hex(a: Seq<u8>) -> Seq<char>
    decreases a.len(),
{
    if a.len() == 0 {
        Seq::empty()
    } else if a.len() == 1 {
        hex_digits(a[0] as nat, 2)
    } else {
        colon_hex(a.drop_last()) + ":"@ + hex_digits(a.last() as nat, 2)
    }
}

/// Octets in hexadecimal, two digits each, with colons between them.
pub fn mac_str(a: &[u8]) -> (s: String)
    ensures
        s@ == colon_hex(a@),
{
    let mut out: Vec<char> = Vec::new();
    for i in 0..a.len()
        invariant
            out@ == colon_hex(a@.take(i as int)),
    {
        let ghost head = a@.take(i + 1);
        proof {
            assert(head.drop_last() =~= a@.take(i as int));
        }
        if i > 0 {
            push_str(&mut out, ":");
        }
        push_hex(&mut out, a[i] as u64, 2);
        proof {
            if i == 0 {
                assert(out@ =~= hex_digits(a@[0] as nat, 2));
            }
        }
    }
    proof {
        assert(a@.take(a@.len() as int) =~= a@);
    }
    string_of(out.as_slice())
}

/// The name of an 802.11 frame type and subtype, empty where it has none here.
pub open spec fn known_frame(t: int, s: int) -> Seq<char> {
    if t == 0 {
        if s == 0 {
            "AssocReq"@
        } else if s == 1 {
            "AssocResp"@
        } else if s == 4 {
            "ProbeReq"@
        } else if s == 5 {
            "ProbeResp"@
        } else if s == 8 {
            "Beacon"@
        } else if s == 11 {
            "Auth"@
        } else if s == 13 {
            "Action"@
        } else {
            ""@
        }
    } else if t == 1 {
        if s == 7 {
            "CtrlWrapper"@
        } else if s == 8 {
            "BAR"@
        } else if s == 9 {
            "BlockAck"@
        } else if s == 11 {
            "RTS"@
        } else if s == 12 {
            "CTS"@
        } else if s == 13 {
            "Ack"@
        } else {
            ""@
        }
    } else if t == 2 {
        if s == 0 {
            "Data"@
        } else if s == 4 {
            "Null"@
        } else if s == 8 {
            "QoSData"@
        } else if s == 12 {
            "QoSNull"@
        } else {
            ""@
        }
    } else {
        if s == 1 {
            "S1GBeacon"@
        } else {
            ""@
        }
    }
}

/// The frame has a name here.
pub open spec fn is_known_frame(t: int, s: int) -> bool {
    ||| t == 0 && (s == 0 || s == 1 || s == 4 || s == 5 || s == 8 || s == 11 || s == 13)
    ||| t == 1 && (s == 7 || s == 8 || s == 9 || s == 11 || s == 12 || s == 13)
    ||| t == 2 && (s == 0 || s == 4 || s == 8 || s == 12)
    ||| t == 3 && s == 1
}

/// The name for the first octet of a frame: protocol version 1 frames by type
/// (3 bits) and subtype (3 bits), others by name or by type (2 bits) and
/// subtype (4 bits).
pub open spec fn frame_name(fc0: u8) -> Seq<char> {
    let t = (fc0 / 4 % 4) as int;
    let s = (fc0 / 16) as int;
    if fc0 % 4 == 1 {
        "PV1 type"@ + decimal((fc0 / 4 % 8) as nat) + "/sub"@ + decimal((fc0 / 32) as nat)
    } else if is_known_frame(t, s) {
        known_frame(t, s)
    } else {
        "type"@ + decimal(t as nat) + "/sub"@ + decimal(s as nat)
    }
}

fn known_name(t: u8, s: u8) -> (n: &'static str)
    requires
        t < 4,
    ensures
        n@ == known_frame(t as int, s as int),
{
    match (t, s) {
        (0, 0) => "AssocReq",
        (0, 1) => "AssocResp",
        (0, 4) => "ProbeReq",
        (0, 5) => "ProbeResp",
        (0, 8) => "Beacon",
        (0, 11) => "Auth",
        (0, 13) => "Action",
        (1, 8) => "BAR",
        (1, 9) => "BlockAck",
        (1, 11) => "RTS",
        (1, 12) => "CTS",
        (1, 13) => "Ack",
        (1, 7) => "CtrlWrapper",
        (3, 1) => "S1GBeacon",
        (2, 0) => "Data",
        (2, 4) => "Null",
        (2, 8) => "QoSData",
        (2, 12) => "QoSNull",
        _ => "",
    }
}

fn has_name(t: u8, s: u8) -> (b: bool)
    ensures
        b == is_known_frame(t as int, s as int),
{
    match t {
        0 => s == 0 || s == 1 || s == 4 || s == 5 || s == 8 || s == 11 || s == 13,
        1 => s == 7 || s == 8 || s == 9 || s == 11 || s == 12 || s == 13,
        2 => s == 0 || s == 4 || s == 8 || s == 12,
        3 => s == 1,
        _ => false,
    }
}

/// The name for the first octet of a frame.
pub fn frame_type_name(fc0: u8) -> (n: String)
    ensures
        n@ == frame_name(fc0),
{
    let t: u8 = fc0 / 4 % 4;
    let s: u8 = fc0 / 16;
    if fc0 % 4 == 1 {
        let mut out: Vec<char> = chars_of("PV1 type");
        push_decimal(&mut out, (fc0 / 4 % 8) as u64);
        push_str(&mut out, "/sub");
        push_decimal(&mut out, (fc0 / 32) as u64);
        string_of(out.as_slice())
    } else if has_name(t, s) {
        let out: Vec<char> = chars_of(known_name(t, s));
        string_of(out.as_slice())
    } else {
        let mut out: Vec<char> = chars_of("type");
        push_decimal(&mut out, t as u64);
        push_str(&mut out, "/sub");
        push_decimal(&mut out, s as u64);
        string_of(out.as_slice())
    }
}

/// The name of an RXEND status.
pub open spec fn status_text(s: RxEndStatus) -> Seq<char> {
    match s {
        RxEndStatus::NoError => "NoError"@,
        RxEndStatus::FormatViolation => "FormatViolation"@,
        RxEndStatus::UnsupportedRate(why) => "UnsupportedRate(\""@ + why@ + "\")"@,
        RxEndStatus::CarrierLost => "CarrierLost"@,
        RxEndStatus::Truncated => "Truncated"@,
    }
}

fn status_name(s: &RxEndStatus) -> (n: Vec<char>)
    ensures
        n@ == status_text(*s),
{
    match s {
        RxEndStatus::NoError => chars_of("NoError"),
        RxEndStatus::FormatViolation => chars_of("FormatViolation"),
        RxEndStatus::UnsupportedRate(why) => {
            let mut out: Vec<char> = chars_of("UnsupportedRate(\"");
            push_str(&mut out, why);
            push_str(&mut out, "\")");
            out
        },
        RxEndStatus::CarrierLost => chars_of("CarrierLost"),
        RxEndStatus::Truncated => chars_of("Truncated"),
    }
}

/// The class of a received PSDU: MCS, coding, preamble, short GI.
pub open spec fn psdu_class(r: RxVector) -> Seq<char> {
    "MCS"@ + decimal(r.mcs as nat) + (if r.fec_coding == Coding::Bcc {
        " Bcc"@
    } else {
        " Ldpc"@
    }) + (if r.preamble_type == PreambleType::S1gShort {
        " S1gShort"@
    } else {
        " S1gLong"@
    }) + (if r.gi == GuardInterval::Short {
        " SGI"@
    } else {
        ""@
    })
}

fn class_name(r: &RxVector) -> (n: Vec<char>)
    ensures
        n@ == psdu_class(*r),
{
    let mut out: Vec<char> = chars_of("MCS");
    push_decimal(&mut out, r.mcs as u64);
    push_str(
        &mut out,
        match r.fec_coding {
            Coding::Bcc => " Bcc",
            Coding::Ldpc => " Ldpc",
        },
    );
    push_str(
        &mut out,
        match r.preamble_type {
            PreambleType::S1gShort => " S1gShort",
            PreambleType::S1gLong => " S1gLong",
        },
    );
    push_str(
        &mut out,
        match r.gi {
            GuardInterval::Short => " SGI",
            GuardInterval::Long => "",
        },
    );
    out
}

/// Alphabetical order, by code point.
pub open spec fn before(a: Seq<char>, b: Seq<char>) -> bool
    decreases a.len(),
{
    if b.len() == 0 {
        false
    } else if a.len() == 0 {
        true
    } else if a[0] != b[0] {
        a[0] < b[0]
    } else {
        before(a.drop_first(), b.drop_first())
    }
}

proof fn lemma_before_trans(a: Seq<char>, b: Seq<char>, c: Seq<char>)
    requires
        before(a, b),
        before(b, c),
    ensures
        before(a, c),
    decreases a.len(),
{
    if a.len() > 0 && a[0] == b[0] && b[0] == c[0] {
        lemma_before_trans(a.drop_first(), b.drop_first(), c.drop_first());
    }
}

/// How two texts stand in alphabetical order.
#[derive(Debug, Clone, Copy, PartialEq, Eq, Structural)]
pub enum Rank {
    Before,
    Same,
    After,
}

/// How two texts stand in alphabetical order.
pub fn rank(a: &[char], b: &[char]) -> (r: Rank)
    ensures
        r == Rank::Before ==> before(a@, b@),
        r == Rank::Same ==> a@ == b@,
        r == Rank::After ==> before(b@, a@),
{
    let mut i: usize = 0;
    proof {
        assert(a@.skip(0) =~= a@);
        assert(b@.skip(0) =~= b@);
    }
    while i < a.len() && i < b.len()
        invariant
            i <= a@.len(),
            i <= b@.len(),
            forall|k: int| 0 <= k < i ==> a@[k] == #[trigger] b@[k],
            before(a@, b@) == before(a@.skip(i as int), b@.skip(i as int)),
            before(b@, a@) == before(b@.skip(i as int), a@.skip(i as int)),
        decreases a@.len() - i,
    {
        let c: char = a[i];
        let d: char = b[i];
        if c != d {
            return if c < d {
                Rank::Before
            } else {
                Rank::After
            };
        }
        proof {
            assert(a@.skip(i as int).drop_first() =~= a@.skip(i + 1));
            assert(b@.skip(i as int).drop_first() =~= b@.skip(i + 1));
        }
        i = i + 1;
    }
    if i < b.len() {
        Rank::Before
    } else if i < a.len() {
        Rank::After
    } else {
        proof {
            assert(a@ =~= b@);
        }
        Rank::Same
    }
}

/// One line of a tally.
pub struct TallyEntry {
    pub key: Vec<char>,
    pub count: usize,
}

/// How often each of some texts occurred, in alphabetical order.
pub struct Tally {
    pub list: Vec<TallyEntry>,
}

/// How often `key` occurred.
pub open spec fn occurrences(list: Seq<TallyEntry>, key: Seq<char>) -> int
    decreases list.len(),
{
    if list.len() == 0 {
        0
    } else {
        occurrences(list.drop_last(), key) + if list.last().key@ == key {
            list.last().count as int
        } else {
            0
        }
    }
}

proof fn lemma_occurrences_insert(list: Seq<TallyEntry>, p: int, e: TallyEntry, key: Seq<char>)
    requires
        0 <= p <= list.len(),
    ensures
        occurrences(list.insert(p, e), key) == occurrences(list, key) + if e.key@ == key {
            e.count as int
        } else {
            0
        },
    decreases list.len(),
{
    let new = list.insert(p, e);
    if p == list.len() {
        assert(new.drop_last() =~= list);
    } else {
        assert(new.last() == list.last());
        assert(new.drop_last() =~= list.drop_last().insert(p, e));
        lemma_occurrences_insert(list.drop_last(), p, e, key);
    }
}

proof fn lemma_occurrences_update(list: Seq<TallyEntry>, p: int, e: TallyEntry, key: Seq<char>)
    requires
        0 <= p < list.len(),
        e.key@ == list[p].key@,
    ensures
        occurrences(list.update(p, e), key) == occurrences(list, key) + if e.key@ == key {
            e.count - list[p].count
        } else {
            0
        },
    decreases list.len(),
{
    let new = list.update(p, e);
    if p == list.len() - 1 {
        assert(new.drop_last() =~= list.drop_last());
    } else {
        assert(new.last() == list.last());
        assert(new.drop_last() =~= list.drop_last().update(p, e));
        lemma_occurrences_update(list.drop_last(), p, e, key);
    }
}

/// `key` occurred once more: it has a line of its own, and all other lines are
/// as they were.
pub open spec fn counted(before: Seq<TallyEntry>, after: Seq<TallyEntry>, key: Seq<char>) -> bool {
    &&& after.len() == before.len() + if occurrences(before, key) == 0 {
        1int
    } else {
        0
    }
    &&& forall|k: Seq<char>| #[trigger]
        occurrences(after, k) == occurrences(before, k) + if k == key {
            1int
        } else {
            0
        }
}

/// A text without a line did not occur.
proof fn lemma_absent(list: Seq<TallyEntry>, key: Seq<char>)
    requires
        forall|i: int| 0 <= i < list.len() ==> (#[trigger] list[i]).key@ != key,
    ensures
        occurrences(list, key) == 0,
    decreases list.len(),
{
    if list.len() > 0 {
        assert(list.last() == list[list.len() - 1]);
        assert forall|i: int| 0 <= i < list.len() - 1 implies (#[trigger] list.drop_last()[i]).key@
            != key by {
            assert(list.drop_last()[i] == list[i]);
        }
        lemma_absent(list.drop_last(), key);
    }
}

/// A text occurred at least as often as one of its lines says.
proof fn lemma_present(list: Seq<TallyEntry>, i: int)
    requires
        0 <= i < list.len(),
    ensures
        occurrences(list, list[i].key@) >= list[i].count,
    decreases list.len(),
{
    if i < list.len() - 1 {
        assert(list.drop_last()[i] == list[i]);
        lemma_present(list.drop_last(), i);
    } else {
        lemma_nonnegative(list.drop_last(), list[i].key@);
    }
}

proof fn lemma_nonnegative(list: Seq<TallyEntry>, key: Seq<char>)
    ensures
        occurrences(list, key) >= 0,
    decreases list.len(),
{
    if list.len() > 0 {
        lemma_nonnegative(list.drop_last(), key);
    }
}

proof fn lemma_before_irreflexive(a: Seq<char>)
    ensures
        !before(a, a),
    decreases a.len(),
{
    if a.len() > 0 {
        lemma_before_irreflexive(a.drop_first());
    }
}

impl Tally {
    /// The lines are in strictly ascending alphabetical order, and every line
    /// has occurred.
    pub open spec fn wf(&self) -> bool {
        &&& forall|i: int, j: int|
            0 <= i < j < self.list@.len() ==> before(
                (#[trigger] self.list@[i]).key@,
                (#[trigger] self.list@[j]).key@,
            )
        &&& forall|i: int| 0 <= i < self.list@.len() ==> (#[trigger] self.list@[i]).count >= 1
    }

    /// No text occurred more than `n` times.
    pub open spec fn at_most(&self, n: int) -> bool {
        forall|i: int| 0 <= i < self.list@.len() ==> (#[trigger] self.list@[i]).count <= n
    }

    /// Every count can still grow.
    pub open spec fn has_room(&self) -> bool {
        self.at_most(usize::MAX - 1)
    }

    /// Nothing occurred.
    pub fn new() -> (t: Self)
        ensures
            t.wf(),
            t.has_room(),
            t.list@ == Seq::<TallyEntry>::empty(),
            forall|k: Seq<char>| #[trigger] occurrences(t.list@, k) == 0,
    {
        Tally { list: Vec::new() }
    }

    /// `key` occurred once more.
    pub fn bump(&mut self, key: Vec<char>)
        requires
            old(self).wf(),
            old(self).has_room(),
        ensures
            final(self).wf(),
            counted(old(self).list@, final(self).list@, key@),
            forall|n: int| 0 <= n && #[trigger] old(self).at_most(n) ==> final(self).at_most(n + 1),
    {
        let ghost old_list = self.list@;
        let n: usize = self.list.len();
        let mut p: usize = 0;
        while p < n
            invariant
                p <= n == self.list@.len(),
                self.list@ == old_list,
                old_list == old(self).list@,
                self.wf(),
                self.has_room(),
                forall|i: int| 0 <= i < p ==> before((#[trigger] self.list@[i]).key@, key@),
            ensures
                p < n ==> before(key@, self.list@[p as int].key@),
            decreases n - p,
        {
            match rank(self.list[p].key.as_slice(), key.as_slice()) {
                Rank::Before => {},
                Rank::Same => {
                    let e = TallyEntry { key, count: self.list[p].count + 1 };
                    proof {
                        assert forall|k: Seq<char>| #[trigger]
                            occurrences(old_list.update(p as int, e), k) == occurrences(old_list, k)
                                + if k == e.key@ {
                                1int
                            } else {
                                0
                            } by {
                            lemma_occurrences_update(old_list, p as int, e, k);
                        }
                        lemma_present(old_list, p as int);
                    }
                    self.list[p] = e;
                    return;
                },
                Rank::After => {
                    break;
                },
            }
            p = p + 1;
        }
        let e = TallyEntry { key, count: 1 };
        proof {
            lemma_before_irreflexive(e.key@);
            assert forall|i: int| 0 <= i < old_list.len() implies (#[trigger] old_list[i]).key@
                != e.key@ by {
                if i > p {
                    lemma_before_trans(e.key@, old_list[p as int].key@, old_list[i].key@);
                }
            }
            lemma_absent(old_list, e.key@);
            let new = old_list.insert(p as int, e);
            assert forall|k: Seq<char>| #[trigger]
                occurrences(new, k) == occurrences(old_list, k) + if k == e.key@ {
                    1int
                } else {
                    0
                } by {
                lemma_occurrences_insert(old_list, p as int, e, k);
            }
            assert forall|i: int, j: int| 0 <= i < j < new.len() implies before(
                (#[trigger] new[i]).key@,
                (#[trigger] new[j]).key@,
            ) by {
                let a = if i < p {
                    i
                } else {
                    i - 1
                };
                let b = if j < p {
                    j
                } else {
                    j - 1
                };
                if i == p {
                    assert(new[j] == old_list[b]);
                    if b > p {
                        lemma_before_trans(e.key@, old_list[p as int].key@, old_list[b].key@);
                    }
                } else if j == p {
                    assert(new[i] == old_list[a]);
                } else {
                    assert(new[i] == old_list[a]);
                    assert(new[j] == old_list[b]);
                }
            }
        }
        self.list.insert(p, e);
    }
}

/// The counters of the summary.
pub struct Stats {
    pub detections: usize,
    pub starts_short: usize,
    pub starts_long: usize,
    pub ends: Tally,
    pub psdu_by_mcs: Tally,
    pub ndps: usize,
    pub ndp_types: Tally,
    pub mpdus: usize,
    pub fcs_ok: usize,
    /// Non-aggregated PSDUs whose MPDU was shorter than the SIG length.
    pub padded: usize,
    pub frame_types: Tally,
    /// PSDUs and NDPs received.
    pub psdus: usize,
}

impl Stats {
    /// The tallies are in order.
    pub open spec fn ordered(&self) -> bool {
        self.ends.wf() && self.psdu_by_mcs.wf() && self.ndp_types.wf() && self.frame_types.wf()
    }

    /// No counter is above `n`.
    pub open spec fn at_most(&self, n: int) -> bool {
        &&& self.ends.at_most(n) && self.psdu_by_mcs.at_most(n)
        &&& self.ndp_types.at_most(n) && self.frame_types.at_most(n)
        &&& self.detections <= n && self.starts_short <= n && self.starts_long <= n
        &&& self.ndps <= n && self.mpdus <= n && self.fcs_ok <= n
        &&& self.padded <= n && self.psdus <= n
    }

    /// The tallies are in order and every counter can still grow.
    pub open spec fn wf(&self) -> bool {
        self.ordered() && self.at_most(usize::MAX - 1)
    }

    /// Nothing received.
    pub fn new() -> (s: Self)
        ensures
            s.wf(),
            s.at_most(0),
            s.detections == 0,
            s.starts_short == 0,
            s.starts_long == 0,
            s.ndps == 0,
            s.mpdus == 0,
            s.fcs_ok == 0,
            s.padded == 0,
            s.psdus == 0,
            s.ends.list@ == Seq::<TallyEntry>::empty(),
            s.psdu_by_mcs.list@ == Seq::<TallyEntry>::empty(),
            s.ndp_types.list@ == Seq::<TallyEntry>::empty(),
            s.frame_types.list@ == Seq::<TallyEntry>::empty(),
            forall|k: Seq<char>| #[trigger] occurrences(s.ends.list@, k) == 0,
            forall|k: Seq<char>| #[trigger] occurrences(s.psdu_by_mcs.list@, k) == 0,
            forall|k: Seq<char>| #[trigger] occurrences(s.ndp_types.list@, k) == 0,
            forall|k: Seq<char>| #[trigger] occurrences(s.frame_types.list@, k) == 0,
    {
        Stats {
            detections: 0,
            starts_short: 0,
            starts_long: 0,
            ends: Tally::new(),
            psdu_by_mcs: Tally::new(),
            ndps: 0,
            ndp_types: Tally::new(),
            mpdus: 0,
            fcs_ok: 0,
            padded: 0,
            frame_types: Tally::new(),
            psdus: 0,
        }
    }

    /// Count an event of the receiver: detections, starts by preamble, NDPs,
    /// PSDUs by class, ends by status.
    pub fn note(&mut self, ev: &RxEvent)
        requires
            old(self).wf(),
        ensures
            final(self).detections == old(self).detections + if *ev is PpduStart {
                1int
            } else {
                0
            },
            final(self).starts_long == old(self).starts_long + match *ev {
                RxEvent::RxStart { sample_index: _, rxvector } => if rxvector.preamble_type
                    == PreambleType::S1gLong {
                    1int
                } else {
                    0
                },
                _ => 0,
            },
            final(self).starts_short == old(self).starts_short + match *ev {
                RxEvent::RxStart { sample_index: _, rxvector } => if rxvector.preamble_type
                    == PreambleType::S1gShort {
                    1int
                } else {
                    0
                },
                _ => 0,
            },
            final(self).ndps == old(self).ndps + if *ev is NdpReceived {
                1int
            } else {
                0
            },
            final(self).psdus == old(self).psdus + if *ev is NdpReceived || *ev is PsduReceived {
                1int
            } else {
                0
            },
            match *ev {
                RxEvent::PsduReceived { sample_index: _, rxvector, psdu: _ } => counted(
                    old(self).psdu_by_mcs.list@,
                    final(self).psdu_by_mcs.list@,
                    psdu_class(rxvector),
                ),
                _ => final(self).psdu_by_mcs == old(self).psdu_by_mcs,
            },
            match *ev {
                RxEvent::RxEnd { sample_index: _, status } => counted(
                    old(self).ends.list@,
                    final(self).ends.list@,
                    status_text(status),
                ),
                _ => final(self).ends == old(self).ends,
            },
            final(self).ordered(),
            forall|n: int| 0 <= n && #[trigger] old(self).at_most(n) ==> final(self).at_most(n + 1),
            final(self).at_most(usize::MAX - 1) ==> final(self).wf(),
            final(self).ndp_types == old(self).ndp_types,
            final(self).frame_types == old(self).frame_types,
            final(self).mpdus == old(self).mpdus,
            final(self).fcs_ok == old(self).fcs_ok,
            final(self).padded == old(self).padded,
    {
        match ev {
            RxEvent::Cca { .. } => {},
            RxEvent::PpduStart { .. } => {
                self.detections = self.detections + 1;
            },
            RxEvent::RxStart { rxvector, .. } => {
                if rxvector.preamble_type == PreambleType::S1gLong {
                    self.starts_long = self.starts_long + 1;
                } else {
                    self.starts_short = self.starts_short + 1;
                }
            },
            RxEvent::NdpReceived { .. } => {
                self.psdus = self.psdus + 1;
                self.ndps = self.ndps + 1;
            },
            RxEvent::PsduReceived { rxvector, .. } => {
                self.psdus = self.psdus + 1;
                self.psdu_by_mcs.bump(class_name(rxvector));
            },
            RxEvent::RxEnd { status, .. } => {
                self.ends.bump(status_name(status));
            },
        }
    }

    /// Count an NDP by its kind.
    pub fn note_ndp_kind(&mut self, kind: &str)
        requires
            old(self).ndp_types.wf(),
            old(self).ndp_types.has_room(),
        ensures
            final(self).ndp_types.wf(),
            counted(old(self).ndp_types.list@, final(self).ndp_types.list@, kind@),
            forall|n: int| 0 <= n && #[trigger] old(self).at_most(n) ==> final(self).at_most(n + 1),
            old(self).ordered() && final(self).at_most(usize::MAX - 1) ==> final(self).wf(),
            *final(self) == (Stats { ndp_types: final(self).ndp_types, ..*old(self) }),
    {
        self.ndp_types.bump(chars_of(kind));
    }

    /// Count an MPDU: its FCS verdict, and with a good FCS its frame type by
    /// its first octet.
    pub fn note_mpdu(&mut self, fcs_ok: bool, first: u8)
        requires
            old(self).wf(),
        ensures
            final(self).mpdus == old(self).mpdus + 1,
            final(self).fcs_ok == old(self).fcs_ok + if fcs_ok {
                1int
            } else {
                0
            },
            final(self).ordered(),
            forall|n: int| 0 <= n && #[trigger] old(self).at_most(n) ==> final(self).at_most(n + 1),
            final(self).at_most(usize::MAX - 1) ==> final(self).wf(),
            if fcs_ok {
                counted(
                    old(self).frame_types.list@,
                    final(self).frame_types.list@,
                    frame_name(first),
                )
            } else {
                final(self).frame_types == old(self).frame_types
            },
            *final(self) == (Stats {
                mpdus: final(self).mpdus,
                fcs_ok: final(self).fcs_ok,
                frame_types: final(self).frame_types,
                ..*old(self)
            }),
    {
        self.mpdus = self.mpdus + 1;
        if fcs_ok {
            self.fcs_ok = self.fcs_ok + 1;
            let name: String = frame_type_name(first);
            self.frame_types.bump(chars_of(name.as_str()));
        }
    }

    /// Count a non-aggregated PSDU whose MPDU (of `located` octets, if one was
    /// located) is shorter than the PSDU.
    pub fn note_located(&mut self, located: Option<usize>, psdu_len: usize)
        requires
            old(self).padded < usize::MAX,
        ensures
            *final(self) == (Stats {
                padded: (old(self).padded + match located {
                    Some(n) => if n < psdu_len {
                        1int
                    } else {
                        0
                    },
                    None => 0,
                }) as usize,
                ..*old(self)
            }),
            forall|n: int| 0 <= n && #[trigger] old(self).at_most(n) ==> final(self).at_most(n + 1),
            old(self).ordered() && final(self).at_most(usize::MAX - 1) ==> final(self).wf(),
    {
        match located {
            Some(n) => {
                if n < psdu_len {
                    self.padded = self.padded + 1;
                }
            },
            None => {},
        }
    }
}

/// An event is printed unless the tool is quiet; NDPs and PSDUs always are, and
/// an end only where it is an error.
pub fn is_printed(ev: &RxEvent, quiet: bool) -> (b: bool)
    ensures
        b == match *ev {
            RxEvent::NdpReceived { sample_index: _, body: _ } => true,
            RxEvent::PsduReceived { sample_index: _, rxvector: _, psdu: _ } => true,
            RxEvent::RxEnd { sample_index: _, status } => !quiet && !(status is NoError),
            _ => !quiet,
        },
{
    match ev {
        RxEvent::NdpReceived { .. } => true,
        RxEvent::PsduReceived { .. } => true,
        RxEvent::RxEnd { status, .. } => !quiet && !matches!(status, RxEndStatus::NoError),
        _ => !quiet,
    }
}

/// The tool stops once it has seen the wanted number of PSDUs (0: never).
pub fn is_done(psdus: usize, count: usize) -> (b: bool)
    ensures
        b == (count > 0 && psdus >= count),
{
    count > 0 && psdus >= count
}

/// What is shown of a received PSDU.
#[derive(Debug, Clone, Copy, PartialEq, Eq, Structural)]
pub enum PsduReport {
    /// Its MAC frames are taken apart.
    Frames,
    /// Its octets in hexadecimal.
    Octets,
    /// Nothing more than its line.
    Nothing,
}

/// What is shown of a received PSDU: its frames where they are printed or
/// captured, else its octets unless the tool is quiet.
pub fn psdu_report(mac: bool, capture: bool, quiet: bool) -> (r: PsduReport)
    ensures
        r == if mac || capture {
            PsduReport::Frames
        } else if quiet {
            PsduReport::Nothing
        } else {
            PsduReport::Octets
        },
{
    if mac || capture {
        PsduReport::Frames
    } else if quiet {
        PsduReport::Nothing
    } else {
        PsduReport::Octets
    }
}

/// The microsecond of a sample.
pub fn sample_time_us(sample_index: u64) -> (us: u64)
    ensures
        us == sample_index / 2,
{
    sample_index / 2
}

/// Octets in hexadecimal, two digits each.
pub open spec fn plain_hex(a: Seq<u8>) -> Seq<char>
    decreases a.len(),
{
    if a.len() == 0 {
        Seq::empty()
    } else {
        plain_hex(a.drop_last()) + hex_digits(a.last() as nat, 2)
    }
}

/// Octets in hexadecimal, two digits each.
pub fn hex_text(a: &[u8]) -> (s: String)
    ensures
        s@ == plain_hex(a@),
{
    let mut out: Vec<char> = Vec::new();
    proof {
        assert(a@.take(0) =~= Seq::<u8>::empty());
    }
    for i in 0..a.len()
        invariant
            out@ == plain_hex(a@.take(i as int)),
    {
        proof {
            assert(a@.take(i + 1).drop_last() =~= a@.take(i as int));
        }
        push_hex(&mut out, a[i] as u64, 2);
    }
    proof {
        assert(a@.take(a@.len() as int) =~= a@);
    }
    string_of(out.as_slice())
}

/// The address at octets `from..from + 6` of a frame, a hyphen where the frame
/// ends before.
pub open spec fn address_text(m: Seq<u8>, from: int) -> Seq<char> {
    if m.len() >= from + 6 {
        colon_hex(m.subrange(from, from + 6))
    } else {
        "-"@
    }
}

fn push_address(out: &mut Vec<char>, m: &[u8], from: usize)
    requires
        from <= 10,
    ensures
        final(out)@ == old(out)@ + address_text(m@, from as int),
{
    if m.len() >= from + 6 {
        let mut a: Vec<u8> = Vec::new();
        for i in 0..6usize
            invariant
                from <= 10,
                m@.len() >= from + 6,
                a@ == m@.subrange(from as int, from + i),
        {
            a.push(m[from + i]);
            proof {
                assert(a@ =~= m@.subrange(from as int, from + i + 1));
            }
        }
        let text: String = mac_str(a.as_slice());
        push_str(out, text.as_str());
    } else {
        push_str(out, "-");
    }
}

/// A frame `m` that is none of those the tool takes apart, in words: its name,
/// frame control octets, duration and the two addresses it may have.
pub fn other_frame_text(m: &[u8], fc0: u8, fc1: u8, duration_us: u16) -> (s: String)
    ensures
        s@ == frame_name(fc0) + " fc="@ + hex_digits(fc0 as nat, 2) + hex_digits(fc1 as nat, 2)
            + " dur="@ + decimal(duration_us as nat) + " a1 "@ + address_text(m@, 4) + " a2 "@
            + address_text(m@, 10),
{
    let name: String = frame_type_name(fc0);
    let mut out: Vec<char> = chars_of(name.as_str());
    push_str(&mut out, " fc=");
    push_hex(&mut out, fc0 as u64, 2);
    push_hex(&mut out, fc1 as u64, 2);
    push_str(&mut out, " dur=");
    push_decimal(&mut out, duration_us as u64);
    push_str(&mut out, " a1 ");
    push_address(&mut out, m, 4);
    push_str(&mut out, " a2 ");
    push_address(&mut out, m, 10);
    string_of(out.as_slice())
}

/// The names of frames of protocol version 0, by their first octet; a frame that
/// has no name is called by its type and subtype.
pub proof fn lemma_frame_names(fc0: u8)
    requires
        fc0 % 4 == 0,
    ensures
        ({
            if fc0 == 0x00 {
                frame_name(fc0) == "AssocReq"@
            } else if fc0 == 0x08 {
                frame_name(fc0) == "Data"@
            } else if fc0 == 0x10 {
                frame_name(fc0) == "AssocResp"@
            } else if fc0 == 0x1C {
                frame_name(fc0) == "S1GBeacon"@
            } else if fc0 == 0x40 {
                frame_name(fc0) == "ProbeReq"@
            } else if fc0 == 0x48 {
                frame_name(fc0) == "Null"@
            } else if fc0 == 0x50 {
                frame_name(fc0) == "ProbeResp"@
            } else if fc0 == 0x74 {
                frame_name(fc0) == "CtrlWrapper"@
            } else if fc0 == 0x80 {
                frame_name(fc0) == "Beacon"@
            } else if fc0 == 0x84 {
                frame_name(fc0) == "BAR"@
            } else if fc0 == 0x88 {
                frame_name(fc0) == "QoSData"@
            } else if fc0 == 0x94 {
                frame_name(fc0) == "BlockAck"@
            } else if fc0 == 0xB0 {
                frame_name(fc0) == "Auth"@
            } else if fc0 == 0xB4 {
                frame_name(fc0) == "RTS"@
            } else if fc0 == 0xC4 {
                frame_name(fc0) == "CTS"@
            } else if fc0 == 0xC8 {
                frame_name(fc0) == "QoSNull"@
            } else if fc0 == 0xD0 {
                frame_name(fc0) == "Action"@
            } else if fc0 == 0xD4 {
                frame_name(fc0) == "Ack"@
            } else {
                frame_name(fc0) == "type"@ + decimal((fc0 / 4 % 4) as nat) + "/sub"@ + decimal(
                    (fc0 / 16) as nat,
                )
            }
        }),
{
}

/// Frames of protocol version 1 are called by their type and subtype, three bits
/// each; those of later versions as those of version 0.
pub proof fn lemma_frame_versions(fc0: u8)
    ensures
        fc0 % 4 == 1 ==> frame_name(fc0) == "PV1 type"@ + decimal((fc0 / 4 % 8) as nat) + "/sub"@
            + decimal((fc0 / 32) as nat),
        fc0 % 4 != 1 ==> frame_name(fc0) == frame_name((fc0 - fc0 % 4) as u8),
{
    let g = (fc0 - fc0 % 4) as u8;
    assert(g % 4 == 0 && g / 4 == fc0 / 4 && g / 16 == fc0 / 16);
}

/// How a PPDU ended, in words.
pub proof fn lemma_status_words(why: &'static str)
    ensures
        status_text(RxEndStatus::NoError) == "NoError"@,
        status_text(RxEndStatus::FormatViolation) == "FormatViolation"@,
        status_text(RxEndStatus::CarrierLost) == "CarrierLost"@,
        status_text(RxEndStatus::Truncated) == "Truncated"@,
        status_text(RxEndStatus::UnsupportedRate(why)) == "UnsupportedRate(\""@ + why@ + "\")"@,
{
}

/// The class of a PSDU: its MCS, coding and preamble, and the short guard interval
/// where it has it.
pub proof fn lemma_class_words(r: RxVector)
    ensures
        ({
            let m = "MCS"@ + decimal(r.mcs as nat);
            psdu_class(r) == match (r.fec_coding, r.preamble_type, r.gi) {
                (Coding::Bcc, PreambleType::S1gShort, GuardInterval::Long) => m + " Bcc"@ + " S1gShort"@
                    + ""@,
                (Coding::Bcc, PreambleType::S1gShort, GuardInterval::Short) => m + " Bcc"@
                    + " S1gShort"@ + " SGI"@,
                (Coding::Bcc, PreambleType::S1gLong, GuardInterval::Long) => m + " Bcc"@ + " S1gLong"@
                    + ""@,
                (Coding::Bcc, PreambleType::S1gLong, GuardInterval::Short) => m + " Bcc"@
                    + " S1gLong"@ + " SGI"@,
                (Coding::Ldpc, PreambleType::S1gShort, GuardInterval::Long) => m + " Ldpc"@
                    + " S1gShort"@ + ""@,
                (Coding::Ldpc, PreambleType::S1gShort, GuardInterval::Short) => m + " Ldpc"@
                    + " S1gShort"@ + " SGI"@,
                (Coding::Ldpc, PreambleType::S1gLong, GuardInterval::Long) => m + " Ldpc"@
                    + " S1gLong"@ + ""@,
                (Coding::Ldpc, PreambleType::S1gLong, GuardInterval::Short) => m + " Ldpc"@
                    + " S1gLong"@ + " SGI"@,
            }
        }),
{
}

/// Octets in hexadecimal: two digits each, the high one first, one octet after the
/// other.
pub proof fn lemma_plain_hex_digits(a: Seq<u8>, i: int)
    requires
        0 <= i < a.len(),
    ensures
        plain_hex(a).len() == 2 * a.len(),
        plain_hex(a)[2 * i] == digit_char((a[i] / 16) as int),
        plain_hex(a)[2 * i + 1] == digit_char((a[i] % 16) as int),
    decreases a.len(),
{
    let head = a.drop_last();
    lemma_two_digits(a.last());
    if head.len() > 0 {
        let k = if i < head.len() {
            i
        } else {
            0
        };
        lemma_plain_hex_digits(head, k);
    } else {
        assert(plain_hex(head).len() == 0);
    }
    assert(a.last() == a[a.len() - 1]);
    assert(plain_hex(a) == plain_hex(head) + hex_digits(a.last() as nat, 2));
}

proof fn lemma_two_digits(v: u8)
    ensures
        hex_digits(v as nat, 2) == seq![digit_char((v / 16) as int), digit_char((v % 16) as int)],
{
    reveal_with_fuel(hex_digits, 3);
    assert(hex_digits(v as nat, 2) =~= seq![
        digit_char((v / 16) as int),
        digit_char((v % 16) as int),
    ]);
}

/// An address: two digits for each octet, the high one first, and a colon before
/// each but the first.
pub proof fn lemma_colon_hex_digits(a: Seq<u8>, i: int)
    requires
        0 <= i < a.len(),
    ensures
        colon_hex(a).len() == 3 * a.len() - 1,
        colon_hex(a)[3 * i] == digit_char((a[i] / 16) as int),
        colon_hex(a)[3 * i + 1] == digit_char((a[i] % 16) as int),
        i > 0 ==> colon_hex(a)[3 * i - 1] == ':',
    decreases a.len(),
{
    reveal_strlit(":");
    let head = a.drop_last();
    lemma_two_digits(a.last());
    if head.len() > 0 {
        let k = if i < head.len() {
            i
        } else {
            0
        };
        lemma_colon_hex_digits(head, k);
        assert(a.last() == a[a.len() - 1]);
    } else {
        assert(a[0] == a.last());
    }
}

/// An address in a frame is the six octets from its place on, or a dash where the
/// frame is too short.
pub proof fn lemma_address_place(m: Seq<u8>, from: int)
    requires
        from >= 0,
    ensures
        m.len() < from + 6 ==> address_text(m, from) == "-"@,
        m.len() >= from + 6 ==> address_text(m, from) == colon_hex(
            seq![m[from], m[from + 1], m[from + 2], m[from + 3], m[from + 4], m[from + 5]],
        ),
{
    if m.len() >= from + 6 {
        assert(m.subrange(from, from + 6) =~= seq![
            m[from],
            m[from + 1],
            m[from + 2],
            m[from + 3],
            m[from + 4],
            m[from + 5],
        ]);
    }
}

/// Texts are ordered like words in a dictionary: of two texts that agree up to some
/// place the one that ends there comes first, else the one with the lower character;
/// of two different texts one comes first, and none before itself.
pub proof fn lemma_dictionary_order(p: Seq<char>, a: Seq<char>, b: Seq<char>, x: char, y: char)
    requires
        x < y,
    ensures
        before(p, p + b.push(x)),
        before(p + seq![x] + a, p + seq![y] + b),
        !before(p, p),
        !(before(a, b) && before(b, a)),
        a != b ==> before(a, b) || before(b, a),
    decreases p.len() + a.len() + b.len(),
{
    if p.len() == 0 {
        assert(p + seq![x] + a =~= seq![x] + a);
        assert(p + seq![y] + b =~= seq![y] + b);
        assert(p + b.push(x) =~= b.push(x));
    } else {
        let q = p.drop_first();
        assert((p + b.push(x)).drop_first() =~= q + b.push(x));
        assert((p + seq![x] + a).drop_first() =~= q + seq![x] + a);
        assert((p + seq![y] + b).drop_first() =~= q + seq![y] + b);
        lemma_dictionary_order(q, a, b, x, y);
    }
    if a.len() > 0 && b.len() > 0 && a[0] == b[0] {
        let c = a.drop_first();
        let d = b.drop_first();
        lemma_dictionary_order(p, c, d, x, y);
        if c == d {
            assert(a =~= seq![a[0]] + c);
            assert(b =~= seq![b[0]] + d);
        }
    } else if a.len() == 0 && b.len() == 0 {
        assert(a =~= b);
    }
}

/// How often a text occurred is the sum of its lines' counts.
pub proof fn lemma_occurrences(list: Seq<TallyEntry>, e: TallyEntry, key: Seq<char>)
    ensures
        occurrences(Seq::<TallyEntry>::empty(), key) == 0,
        occurrences(list.push(e), key) == occurrences(list, key) + if e.key@ == key {
            e.count as int
        } else {
            0
        },
{
    assert(list.push(e).drop_last() =~= list);
}

/// Counting a text adds one to it and nothing to any other, and a line where it had
/// none.
pub proof fn lemma_counted(
    before: Seq<TallyEntry>,
    after: Seq<TallyEntry>,
    key: Seq<char>,
    other: Seq<char>,
)
    requires
        counted(before, after, key),
    ensures
        occurrences(after, key) == occurrences(before, key) + 1,
        other != key ==> occurrences(after, other) == occurrences(before, other),
        occurrences(before, key) == 0 ==> after.len() == before.len() + 1,
        occurrences(before, key) != 0 ==> after.len() == before.len(),
{
}

} // verus!
