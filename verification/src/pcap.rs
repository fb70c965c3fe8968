//! PCAP records of 802.11 MPDUs behind a radiotap header (link type 127), and
//! bare ones (link type 105).

use crate::octets::{align, aligned, at16, at32, le16, le32, lemma_le_roundtrip};
use crate::octets::{push_le16, push_le32, push_octets};
use crate::vector::{GuardInterval, PreambleType, ResponseIndication, RxVector, TxVector};
use vstd::prelude::*;

pub mod laws;

verus! {

/// LINKTYPE_IEEE802_11_RADIOTAP.
pub const LINKTYPE: u32 = 127;

/// LINKTYPE_IEEE802_11: frames without a radiotap header.
pub const LINKTYPE_BARE: u32 = 105;

pub const PRESENT_FLAGS: u32 = 0x0000_0002;

pub const PRESENT_CHANNEL: u32 = 0x0000_0008;

pub const PRESENT_DBM_ANTSIGNAL: u32 = 0x0000_0020;

pub const PRESENT_TX_FLAGS: u32 = 0x0000_8000;

pub const PRESENT_AMPDU_STATUS: u32 = 0x0010_0000;

pub const PRESENT_TLVS: u32 = 0x1000_0000;

pub const FLAG_FCS: u8 = 0x10;

pub const FLAG_BAD_FCS: u8 = 0x40;

pub const FLAG_SHORT_GI: u8 = 0x80;

pub const TX_FLAG_NOACK: u16 = 0x0008;

pub const AMPDU_LAST_KNOWN: u16 = 0x0004;

pub const AMPDU_IS_LAST: u16 = 0x0008;

pub const AMPDU_EOF: u16 = 0x0040;

pub const AMPDU_EOF_KNOWN: u16 = 0x0080;

/// S1G TLV type; `known` covers PPDU format, response indication, guard
/// interval, NSS, bandwidth, MCS, color and uplink indication.
pub const TLV_S1G: u16 = 32;

pub const S1G_KNOWN: u16 = 0x00ff;

/// Which way a frame went.
#[derive(Debug, Clone, Copy, PartialEq, Eq, Structural)]
pub enum Direction {
    /// Received; `signal_dbm` is the RCPI in whole dBm.
    Rx { signal_dbm: i8 },
    /// Transmitted; without `ack_expected` the TX flags say NOACK.
    Tx { ack_expected: bool },
}

/// A-MPDU status of one subframe.
#[derive(Debug, Clone, Copy, PartialEq, Eq, Structural)]
pub struct AmpduStatus {
    /// Shared by the subframes of one A-MPDU.
    pub reference: u32,
    pub last: bool,
    /// The delimiter's EOF bit.
    pub eof: bool,
}

/// Radiotap contents for one MPDU.
#[derive(Debug, Clone, Copy, PartialEq, Eq, Structural)]
pub struct Radiotap {
    pub direction: Direction,
    /// Channel center in MHz; `None` omits the Channel field.
    pub freq_mhz: Option<u16>,
    pub preamble_type: PreambleType,
    pub response_indication: ResponseIndication,
    pub gi: GuardInterval,
    pub mcs: u8,
    pub color: u8,
    pub uplink_indication: bool,
    pub fcs_ok: bool,
    pub ampdu: Option<AmpduStatus>,
}

/// `v` where `b` holds, otherwise 0.
pub open spec fn when(b: bool, v: int) -> int {
    if b {
        v
    } else {
        0
    }
}

/// The octet of a signed 8-bit value.
pub open spec fn octet(v: i8) -> int {
    if v < 0 {
        v + 256
    } else {
        v as int
    }
}

fn to_octet(v: i8) -> (o: u8)
    ensures
        o == octet(v),
{
    if v < 0 {
        (v as i16 + 256) as u8
    } else {
        v as u8
    }
}

impl Radiotap {
    /// Header contents for a received frame.
    pub fn rx(v: &RxVector, signal_dbm: i8, freq_mhz: Option<u16>) -> (r: Self)
        ensures
            r == (Radiotap {
                direction: Direction::Rx { signal_dbm },
                freq_mhz,
                preamble_type: v.preamble_type,
                response_indication: v.response_indication,
                gi: v.gi,
                mcs: v.mcs,
                color: v.color,
                uplink_indication: v.uplink_indication,
                fcs_ok: true,
                ampdu: None,
            }),
    {
        Radiotap {
            direction: Direction::Rx { signal_dbm },
            freq_mhz,
            preamble_type: v.preamble_type,
            response_indication: v.response_indication,
            gi: v.gi,
            mcs: v.mcs,
            color: v.color,
            uplink_indication: v.uplink_indication,
            fcs_ok: true,
            ampdu: None,
        }
    }

    /// Header contents for a transmitted frame.
    pub fn tx(v: &TxVector, freq_mhz: Option<u16>) -> (r: Self)
        ensures
            r == (Radiotap {
                direction: Direction::Tx {
                    ack_expected: v.response_indication != ResponseIndication::NoResponse,
                },
                freq_mhz,
                preamble_type: v.preamble_type,
                response_indication: v.response_indication,
                gi: v.gi,
                mcs: v.mcs,
                color: v.color,
                uplink_indication: v.uplink_indication,
                fcs_ok: true,
                ampdu: None,
            }),
    {
        Radiotap {
            direction: Direction::Tx {
                ack_expected: v.response_indication != ResponseIndication::NoResponse,
            },
            freq_mhz,
            preamble_type: v.preamble_type,
            response_indication: v.response_indication,
            gi: v.gi,
            mcs: v.mcs,
            color: v.color,
            uplink_indication: v.uplink_indication,
            fcs_ok: true,
            ampdu: None,
        }
    }

    /// The Present word: Flags and TLVs always, the other fields where there.
    pub open spec fn present(&self) -> int {
        0x1000_0002 + when(self.freq_mhz is Some, 0x8) + (if self.direction is Rx {
            0x20int
        } else {
            0x8000
        }) + when(self.ampdu is Some, 0x10_0000)
    }

    /// The Flags octet.
    pub open spec fn flags(&self) -> int {
        0x10 + when(!self.fcs_ok, 0x40) + when(self.gi == GuardInterval::Short, 0x80)
    }

    /// The A-MPDU status flags.
    pub open spec fn ampdu_flags(a: AmpduStatus) -> int {
        0x84 + when(a.last, 0x8) + when(a.eof, 0x40)
    }

    /// S1G data1: PPDU format (1 = S1G_SHORT, 2 = S1G_LONG) in bits 0-1,
    /// response indication from bit 2, guard interval bit 5, NSS - 1 from bit
    /// 6, bandwidth (1 = 2 MHz) from bit 8, MCS from bit 12.
    pub open spec fn data1(&self) -> int {
        (if self.preamble_type == PreambleType::S1gShort {
            1int
        } else {
            2
        }) + 4 * self.response_indication.code() + when(self.gi == GuardInterval::Short, 32) + 256
            + 4096 * (self.mcs % 16)
    }

    /// S1G data2: color in bits 0-2, uplink indication bit 3, RSSI in dBm
    /// from bit 8.
    pub open spec fn data2(&self) -> int {
        (self.color % 8) + when(self.uplink_indication, 8) + 256 * match self.direction {
            Direction::Rx { signal_dbm } => octet(signal_dbm),
            Direction::Tx { ack_expected: _ } => 0,
        }
    }

    /// The header up to the Flags field.
    pub open spec fn fixed_part(&self) -> Seq<u8> {
        (seq![0u8, 0, 0, 0] + le32(self.present())).push(self.flags() as u8)
    }

    /// ... with the Channel field, 2-octet aligned.
    pub open spec fn with_channel(&self) -> Seq<u8> {
        match self.freq_mhz {
            Some(f) => aligned(self.fixed_part(), 2) + le16(f as int) + le16(0),
            None => self.fixed_part(),
        }
    }

    /// ... with the antenna signal (RX) or the TX flags, 2-octet aligned.
    pub open spec fn with_direction(&self) -> Seq<u8> {
        match self.direction {
            Direction::Rx { signal_dbm } => self.with_channel().push(octet(signal_dbm) as u8),
            Direction::Tx { ack_expected } => aligned(self.with_channel(), 2) + le16(
                when(!ack_expected, 8),
            ),
        }
    }

    /// ... with the A-MPDU status, 4-octet aligned.
    pub open spec fn with_ampdu(&self) -> Seq<u8> {
        match self.ampdu {
            Some(a) => aligned(self.with_direction(), 4) + le32(a.reference as int) + le16(
                Radiotap::ampdu_flags(a),
            ) + seq![0u8, 0],
            None => self.with_direction(),
        }
    }

    /// ... with the S1G TLV, 4-octet aligned, padded to a multiple of 4.
    pub open spec fn with_tlv(&self) -> Seq<u8> {
        aligned(
            aligned(self.with_ampdu(), 4) + le16(32) + le16(6) + le16(255) + le16(self.data1())
                + le16(self.data2()),
            4,
        )
    }

    /// The whole header: its length stands in octets 2 and 3.
    pub open spec fn header(&self) -> Seq<u8> {
        let b = self.with_tlv();
        b.update(2, le16(b.len() as int)[0]).update(3, le16(b.len() as int)[1])
    }

    fn write_fixed(&self) -> (b: Vec<u8>)
        ensures
            b@ == self.fixed_part(),
            b@.len() == 9,
    {
        let mut present: u32 = PRESENT_FLAGS + PRESENT_TLVS;
        if self.freq_mhz.is_some() {
            present = present + PRESENT_CHANNEL;
        }
        match self.direction {
            Direction::Rx { .. } => {
                present = present + PRESENT_DBM_ANTSIGNAL;
            },
            Direction::Tx { .. } => {
                present = present + PRESENT_TX_FLAGS;
            },
        }
        if self.ampdu.is_some() {
            present = present + PRESENT_AMPDU_STATUS;
        }
        let mut flags: u8 = FLAG_FCS;
        if !self.fcs_ok {
            flags = flags + FLAG_BAD_FCS;
        }
        if self.gi == GuardInterval::Short {
            flags = flags + FLAG_SHORT_GI;
        }
        let mut b: Vec<u8> = vec![0u8, 0, 0, 0];
        proof {
            assert(b@ =~= seq![0u8, 0, 0, 0]);
        }
        push_le32(&mut b, present);
        b.push(flags);
        b
    }

    fn add_channel(&self, b: &mut Vec<u8>)
        requires
            old(b)@ == self.fixed_part(),
            old(b)@.len() == 9,
        ensures
            final(b)@ == self.with_channel(),
            9 <= final(b)@.len() <= 14,
    {
        if let Some(f) = self.freq_mhz {
            align(b, 2);
            push_le16(b, f);
            push_le16(b, 0);
        }
    }

    fn add_direction(&self, b: &mut Vec<u8>)
        requires
            old(b)@ == self.with_channel(),
            9 <= old(b)@.len() <= 14,
        ensures
            final(b)@ == self.with_direction(),
            10 <= final(b)@.len() <= 17,
    {
        match self.direction {
            Direction::Rx { signal_dbm } => {
                b.push(to_octet(signal_dbm));
            },
            Direction::Tx { ack_expected } => {
                align(b, 2);
                let flags: u16 = if ack_expected {
                    0
                } else {
                    TX_FLAG_NOACK
                };
                push_le16(b, flags);
            },
        }
    }

    fn add_ampdu(&self, b: &mut Vec<u8>)
        requires
            old(b)@ == self.with_direction(),
            10 <= old(b)@.len() <= 17,
        ensures
            final(b)@ == self.with_ampdu(),
            10 <= final(b)@.len() <= 28,
    {
        if let Some(a) = self.ampdu {
            align(b, 4);
            push_le32(b, a.reference);
            let mut f: u16 = AMPDU_LAST_KNOWN + AMPDU_EOF_KNOWN;
            if a.last {
                f = f + AMPDU_IS_LAST;
            }
            if a.eof {
                f = f + AMPDU_EOF;
            }
            push_le16(b, f);
            let ghost before = b@;
            b.push(0);
            b.push(0);
            proof {
                assert(b@ =~= before + seq![0u8, 0]);
            }
        }
    }

    fn add_tlv(&self, b: &mut Vec<u8>)
        requires
            old(b)@ == self.with_ampdu(),
            10 <= old(b)@.len() <= 28,
        ensures
            final(b)@ == self.with_tlv(),
            20 <= final(b)@.len() <= 48,
            final(b)@.len() % 4 == 0,
    {
        align(b, 4);
        push_le16(b, TLV_S1G);
        push_le16(b, 6);
        push_le16(b, S1G_KNOWN);
        push_le16(b, self.s1g_data1());
        push_le16(b, self.s1g_data2());
        align(b, 4);
    }

    /// Header bytes: Flags, Channel, dBm antenna signal (RX) or TX flags
    /// (TX), A-MPDU status, S1G TLV.
    pub fn encode(&self) -> (b: Vec<u8>)
        ensures
            b@ == self.header(),
            b@.len() % 4 == 0,
            20 <= b@.len() <= 48,
    {
        let mut b: Vec<u8> = self.write_fixed();
        self.add_channel(&mut b);
        self.add_direction(&mut b);
        self.add_ampdu(&mut b);
        self.add_tlv(&mut b);
        let len: usize = b.len();
        b[2] = (len % 256) as u8;
        b[3] = (len / 256) as u8;
        b
    }

    fn s1g_data1(&self) -> (d: u16)
        ensures
            d == self.data1(),
    {
        let format: u16 = match self.preamble_type {
            PreambleType::S1gShort => 1,
            PreambleType::S1gLong => 2,
        };
        let short_gi: u16 = if self.gi == GuardInterval::Short {
            32
        } else {
            0
        };
        format + 4 * self.response_indication.to_bits() as u16 + short_gi + 256 + 4096 * (self.mcs
            % 16) as u16
    }

    fn s1g_data2(&self) -> (d: u16)
        ensures
            d == self.data2(),
    {
        let rssi: u16 = match self.direction {
            Direction::Rx { signal_dbm } => to_octet(signal_dbm) as u16,
            Direction::Tx { .. } => 0,
        };
        let uplink: u16 = if self.uplink_indication {
            8
        } else {
            0
        };
        (self.color % 8) as u16 + uplink + 256 * rssi
    }
}

/// A file header: magic, version 2.4, no zone, 65535 octets per record, link
/// type.
pub open spec fn header_of(linktype: int) -> Seq<u8> {
    le32(0xa1b2_c3d4) + le16(2) + le16(4) + le32(0) + le32(0) + le32(65535) + le32(linktype)
}

/// The file header for a link type.
pub fn file_header(linktype: u32) -> (h: Vec<u8>)
    ensures
        h@ == header_of(linktype as int),
        h@.len() == 24,
{
    let mut h: Vec<u8> = Vec::with_capacity(24);
    push_le32(&mut h, 0xa1b2_c3d4);
    proof {
        assert(h@ =~= le32(0xa1b2_c3d4));
    }
    push_le16(&mut h, 2);
    push_le16(&mut h, 4);
    push_le32(&mut h, 0);
    push_le32(&mut h, 0);
    push_le32(&mut h, 65535);
    push_le32(&mut h, linktype);
    h
}

/// A record: seconds, microseconds, length twice (32 bits each), contents.
pub open spec fn record_of(t_us: int, radiotap: Seq<u8>, mpdu: Seq<u8>) -> Seq<u8> {
    let len = (radiotap.len() + mpdu.len()) as int % 0x1_0000_0000;
    le32(t_us / 1_000_000 % 0x1_0000_0000) + le32(t_us % 1_000_000) + le32(len) + le32(len)
        + radiotap + mpdu
}

/// One record at `t_us` since the Unix epoch: the radiotap header (empty for
/// bare frames) and the MPDU.
pub fn record(t_us: u64, radiotap: &[u8], mpdu: &[u8]) -> (rec: Vec<u8>)
    requires
        radiotap@.len() + mpdu@.len() <= usize::MAX,
    ensures
        rec@ == record_of(t_us as int, radiotap@, mpdu@),
        rec@.len() == 16 + radiotap@.len() + mpdu@.len(),
{
    let len: u32 = ((radiotap.len() + mpdu.len()) as u64 % 0x1_0000_0000) as u32;
    let mut rec: Vec<u8> = Vec::new();
    push_le32(&mut rec, (t_us / 1_000_000 % 0x1_0000_0000) as u32);
    proof {
        assert(rec@ =~= le32(t_us as int / 1_000_000 % 0x1_0000_0000));
    }
    push_le32(&mut rec, (t_us % 1_000_000) as u32);
    push_le32(&mut rec, len);
    push_le32(&mut rec, len);
    push_octets(&mut rec, radiotap);
    push_octets(&mut rec, mpdu);
    rec
}

/// The header of subframe `i` of `n`: its own FCS verdict, and for an A-MPDU
/// the shared reference.
pub open spec fn subframe(base: Radiotap, reference: Option<u32>, i: int, n: int, fcs_ok: bool, eof: bool) -> Radiotap {
    Radiotap {
        fcs_ok,
        ampdu: match reference {
            Some(reference) => Some(AmpduStatus { reference, last: i + 1 == n, eof }),
            None => None,
        },
        ..base
    }
}

/// The subframes of an A-MPDU share its reference number, and exactly the last
/// one is marked as the last; MPDUs of other PSDUs carry no A-MPDU status.
pub proof fn lemma_subframes(
    base: Radiotap,
    reference: Option<u32>,
    i: int,
    n: int,
    fcs_ok: bool,
    eof: bool,
)
    requires
        0 <= i < n,
    ensures
        match (reference, subframe(base, reference, i, n, fcs_ok, eof).ampdu) {
            (Some(r), Some(a)) => a.reference == r && (a.last <==> i == n - 1),
            (None, None) => true,
            _ => false,
        },
        subframe(base, reference, i, n, fcs_ok, eof).fcs_ok == fcs_ok,
{
}

/// The headers of the MPDUs of one PSDU, given for each its FCS verdict and
/// its delimiter's EOF bit.
pub fn subframe_headers(base: &Radiotap, reference: Option<u32>, parts: &[(bool, bool)]) -> (out: Vec<
    Radiotap,
>)
    ensures
        out@.len() == parts@.len(),
        forall|i: int|
            0 <= i < out@.len() ==> #[trigger] out@[i] == subframe(
                *base,
                reference,
                i,
                parts@.len() as int,
                parts@[i].0,
                parts@[i].1,
            ),
{
    let n: usize = parts.len();
    let mut out: Vec<Radiotap> = Vec::with_capacity(n);
    for i in 0..n
        invariant
            n == parts@.len(),
            out@.len() == i,
            forall|k: int|
                0 <= k < i ==> #[trigger] out@[k] == subframe(
                    *base,
                    reference,
                    k,
                    n as int,
                    parts@[k].0,
                    parts@[k].1,
                ),
    {
        let (fcs_ok, eof) = parts[i];
        let mut rt: Radiotap = *base;
        rt.fcs_ok = fcs_ok;
        rt.ampdu = match reference {
            Some(reference) => Some(AmpduStatus { reference, last: i + 1 == n, eof }),
            None => None,
        };
        out.push(rt);
    }
    out
}

/// The bookkeeping of a capture writer.
#[derive(Debug, Clone, Copy, PartialEq, Eq, Structural)]
pub struct CaptureLog {
    /// The last A-MPDU reference number given out.
    pub ampdu_reference: u32,
    /// Records dropped because a pipe reader did not keep up.
    pub dropped: u64,
}

/// Seconds between two reports of dropped records.
pub const DROP_REPORT_SECS: u64 = 30;

impl CaptureLog {
    /// Nothing written or dropped yet.
    pub fn new() -> (c: Self)
        ensures
            c.ampdu_reference == 0,
            c.dropped == 0,
    {
        CaptureLog { ampdu_reference: 0, dropped: 0 }
    }

    /// The reference number for a PSDU: a new one for each A-MPDU, none for a
    /// single MPDU.
    pub fn next_reference(&mut self, aggregation: bool) -> (r: Option<u32>)
        requires
            aggregation ==> old(self).ampdu_reference < u32::MAX,
        ensures
            r == if aggregation {
                Some((old(self).ampdu_reference + 1) as u32)
            } else {
                None
            },
            *final(self) == (CaptureLog {
                ampdu_reference: match r {
                    Some(n) => n,
                    None => old(self).ampdu_reference,
                },
                ..*old(self)
            }),
    {
        if aggregation {
            self.ampdu_reference = self.ampdu_reference + 1;
            Some(self.ampdu_reference)
        } else {
            None
        }
    }

    /// Count a dropped record; true where that is to be reported: at the first
    /// drop, and again when the last report (`since_report` seconds ago) is
    /// old enough.
    pub fn count_drop(&mut self, since_report: Option<u64>) -> (report: bool)
        requires
            old(self).dropped < u64::MAX,
        ensures
            *final(self) == (CaptureLog { dropped: (old(self).dropped + 1) as u64, ..*old(self) }),
            report == match since_report {
                Some(s) => s >= 30,
                None => true,
            },
    {
        self.dropped = self.dropped + 1;
        match since_report {
            Some(s) => s >= DROP_REPORT_SECS,
            None => true,
        }
    }
}

/// A record says how long it is: its length fields give what follows the
/// first 16 octets, so that a reader finds the next record, and its time
/// fields give the time.
pub proof fn lemma_record_readable(t_us: int, radiotap: Seq<u8>, mpdu: Seq<u8>)
    requires
        0 <= t_us < 4_294_967_296_000_000,
        radiotap.len() + mpdu.len() <= u32::MAX,
    ensures
        ({
            let r = record_of(t_us, radiotap, mpdu);
            &&& at32(r, 0) * 1_000_000 + at32(r, 4) == t_us
            &&& at32(r, 8) == radiotap.len() + mpdu.len()
            &&& at32(r, 12) == at32(r, 8)
            &&& r.len() == 16 + at32(r, 8)
            &&& r.subrange(16, 16 + radiotap.len() as int) == radiotap
            &&& r.skip(16 + radiotap.len() as int) == mpdu
        }),
{
    let r = record_of(t_us, radiotap, mpdu);
    let len = (radiotap.len() + mpdu.len()) as int;
    vstd::arithmetic::div_mod::lemma_small_mod(len as nat, 0x1_0000_0000);
    let s = t_us / 1_000_000 % 0x1_0000_0000;
    let u = t_us % 1_000_000;
    let front = le32(s) + le32(u) + le32(len) + le32(len);
    assert(front.len() == 16);
    assert(r =~= front + radiotap + mpdu);
    lemma_le_roundtrip(s);
    lemma_le_roundtrip(u);
    lemma_le_roundtrip(len);
    assert(forall|i: int| 0 <= i < 4 ==> r[i] == le32(s)[i]);
    assert(forall|i: int| 0 <= i < 4 ==> r[4 + i] == #[trigger] le32(u)[i]);
    assert(forall|i: int| 0 <= i < 4 ==> r[8 + i] == #[trigger] le32(len)[i]);
    assert(r[8] == le32(len)[0] && r[9] == le32(len)[1] && r[10] == le32(len)[2] && r[11] == le32(
        len,
    )[3]);
    assert(r[12] == le32(len)[0] && r[13] == le32(len)[1] && r[14] == le32(len)[2] && r[15] == le32(
        len,
    )[3]);
    assert(r[4] == le32(u)[0] && r[5] == le32(u)[1] && r[6] == le32(u)[2] && r[7] == le32(u)[3]);
    assert(r[0] == le32(s)[0] && r[1] == le32(s)[1] && r[2] == le32(s)[2] && r[3] == le32(s)[3]);
    assert(r.subrange(16, 16 + radiotap.len() as int) =~= radiotap);
    assert(r.skip(16 + radiotap.len() as int) =~= mpdu);
}

/// A radiotap header says how long it is.
pub proof fn lemma_header_length(rt: Radiotap)
    requires
        4 <= rt.with_tlv().len() < 65536,
    ensures
        at16(rt.header(), 2) == rt.header().len(),
{
    lemma_le_roundtrip(rt.with_tlv().len() as int);
}

} // verus!
