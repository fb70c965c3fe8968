//! The octets of capture files: where each radiotap field stands, that a header
//! can be read back, and the file and record headers.

use crate::octets::{aligned, le16, le32};
use crate::pcap::{header_of, record_of, subframe, Direction, Radiotap};
use crate::vector::{GuardInterval, PreambleType, ResponseIndication};
use vstd::prelude::*;

verus! {

proof fn lemma_fixed_octets(rt: Radiotap)
    ensures
        ({
            let b = rt.fixed_part();
            &&& b.len() == 9
            &&& b[0] == 0 && b[1] == 0 && b[2] == 0 && b[3] == 0
            &&& b[4] == 2 + (if rt.freq_mhz is Some { 8int } else { 0 }) + (if rt.direction is Rx {
                32int
            } else {
                0
            })
            &&& b[5] == (if rt.direction is Rx { 0int } else { 128 })
            &&& b[6] == (if rt.ampdu is Some { 16int } else { 0 })
            &&& b[7] == 16
            &&& b[8] == 16 + (if rt.fcs_ok { 0int } else { 64 }) + (if rt.gi == GuardInterval::Short {
                128int
            } else {
                0
            })
        }),
{
    let p = rt.present();
    let s = seq![0u8, 0, 0, 0] + le32(p);
    assert(s.len() == 8);
    assert(s[4] == (p % 256) as u8 && s[5] == (p / 256 % 256) as u8);
    assert(s[6] == (p / 65536 % 256) as u8 && s[7] == (p / 16777216 % 256) as u8);
}

proof fn lemma_channel_octets(rt: Radiotap)
    ensures
        ({
            let a = rt.fixed_part();
            let b = rt.with_channel();
            &&& b.len() == if rt.freq_mhz is Some { 14int } else { 9 }
            &&& b.take(9) == a
            &&& rt.freq_mhz matches Some(f) ==> b[9] == 0 && b[10] + 256 * b[11] == f && b[12] == 0
                && b[13] == 0
        }),
{
    lemma_fixed_octets(rt);
    let a = rt.fixed_part();
    let b = rt.with_channel();
    if let Some(f) = rt.freq_mhz {
        let c = aligned(a, 2);
        assert(c.len() == 10);
        assert(b[10] == le16(f as int)[0] && b[11] == le16(f as int)[1]);
        assert(b[12] == le16(0)[0] && b[13] == le16(0)[1]);
    }
    assert(b.take(9) =~= a);
}

proof fn lemma_direction_octets(rt: Radiotap)
    ensures
        ({
            let a = rt.with_channel();
            let b = rt.with_direction();
            let n = a.len() as int;
            &&& n == if rt.freq_mhz is Some { 14int } else { 9 }
            &&& b.len() >= n && b.take(n) == a
            &&& match rt.direction {
                Direction::Rx { signal_dbm } => {
                    &&& b.len() == n + 1
                    &&& b[n] == if signal_dbm < 0 { signal_dbm + 256 } else { signal_dbm as int }
                },
                Direction::Tx { ack_expected } => {
                    &&& b.len() == if rt.freq_mhz is Some { 16int } else { 12 }
                    &&& rt.freq_mhz is None ==> b[9] == 0
                    &&& b[b.len() - 2] == if ack_expected { 0int } else { 8 }
                    &&& b[b.len() - 1] == 0
                },
            }
        }),
{
    lemma_channel_octets(rt);
    let a = rt.with_channel();
    let b = rt.with_direction();
    match rt.direction {
        Direction::Rx { signal_dbm } => {},
        Direction::Tx { ack_expected } => {
            let c = aligned(a, 2);
            assert(c.len() == if rt.freq_mhz is Some { 14int } else { 10 });
            let v: int = if ack_expected { 0 } else { 8 };
            assert(b == c + le16(v));
            assert(b[b.len() - 2] == le16(v)[0] && b[b.len() - 1] == le16(v)[1]);
        },
    }
    assert(b.take(a.len() as int) =~= a);
}

proof fn lemma_aligned_4(a: Seq<u8>)
    ensures
        ({
            let b = aligned(a, 4);
            &&& b.len() == (a.len() + 3) / 4 * 4
            &&& b.take(a.len() as int) == a
            &&& forall|k: int| a.len() <= k < b.len() ==> #[trigger] b[k] == 0
        }),
{
    assert(aligned(a, 4).take(a.len() as int) =~= a);
}

proof fn lemma_ampdu_octets(rt: Radiotap)
    ensures
        ({
            let a = rt.with_direction();
            let b = rt.with_ampdu();
            let q: int = if rt.freq_mhz is Some { 16 } else { 12 };
            &&& a.len() <= b.len() && b.take(a.len() as int) == a && q - 4 < a.len() <= q
            &&& match rt.ampdu {
                Some(m) => {
                    &&& b.len() == q + 8
                    &&& forall|k: int| a.len() <= k < q ==> #[trigger] b[k] == 0
                    &&& b[q] + 256 * b[q + 1] + 65536 * b[q + 2] + 16777216 * b[q + 3] == m.reference
                    &&& b[q + 4] == 132 + (if m.last { 8int } else { 0 }) + (if m.eof { 64int } else {
                        0
                    })
                    &&& b[q + 5] == 0 && b[q + 6] == 0 && b[q + 7] == 0
                },
                None => b == a,
            }
        }),
{
    lemma_direction_octets(rt);
    let a = rt.with_direction();
    let b = rt.with_ampdu();
    if let Some(m) = rt.ampdu {
        let q: int = if rt.freq_mhz is Some { 16 } else { 12 };
        lemma_aligned_4(a);
        let c = aligned(a, 4);
        assert(c.len() == q);
        let r = le32(m.reference as int);
        let f = le16(Radiotap::ampdu_flags(m));
        assert(b[q] == r[0] && b[q + 1] == r[1] && b[q + 2] == r[2] && b[q + 3] == r[3]);
        assert(b[q + 4] == f[0] && b[q + 5] == f[1]);
        assert forall|k: int| a.len() <= k < q implies #[trigger] b[k] == 0 by {
            assert(b[k] == c[k]);
        }
        assert forall|k: int| 0 <= k < a.len() implies #[trigger] b[k] == a[k] by {
            assert(b[k] == c[k] && c[k] == c.take(a.len() as int)[k]);
        }
    }
    assert(b.take(a.len() as int) =~= a);
}

proof fn lemma_tlv_octets(rt: Radiotap)
    ensures
        ({
            let a = rt.with_ampdu();
            let b = rt.with_tlv();
            let n = b.len() as int;
            &&& n == 24 + (if rt.freq_mhz is Some { 4int } else { 0 }) + (if rt.ampdu is Some {
                8int
            } else {
                0
            })
            &&& a.len() <= n - 12 && b.take(a.len() as int) == a
            &&& forall|k: int| a.len() <= k < n - 12 ==> #[trigger] b[k] == 0
            &&& b[n - 12] == 32 && b[n - 11] == 0 && b[n - 10] == 6 && b[n - 9] == 0
            &&& b[n - 8] == 255 && b[n - 7] == 0
            &&& b[n - 6] + 256 * b[n - 5] == rt.data1()
            &&& b[n - 4] + 256 * b[n - 3] == rt.data2()
            &&& b[n - 2] == 0 && b[n - 1] == 0
        }),
{
    lemma_ampdu_octets(rt);
    let a = rt.with_ampdu();
    let b = rt.with_tlv();
    lemma_aligned_4(a);
    let c = aligned(a, 4);
    let m = c.len() as int;
    let d = c + le16(32) + le16(6) + le16(255) + le16(rt.data1()) + le16(rt.data2());
    lemma_aligned_4(d);
    let n = b.len() as int;
    assert(d.len() == m + 10 && n == m + 12);
    let x = le16(rt.data1());
    let y = le16(rt.data2());
    assert(0 <= rt.data1() < 65536 && 0 <= rt.data2() < 65536);
    assert forall|k: int| 0 <= k < d.len() implies #[trigger] b[k] == d[k] by {
        assert(b[k] == b.take(d.len() as int)[k]);
    }
    assert(d[m] == le16(32)[0] && d[m + 1] == le16(32)[1]);
    assert(d[m + 2] == le16(6)[0] && d[m + 3] == le16(6)[1]);
    assert(d[m + 4] == le16(255)[0] && d[m + 5] == le16(255)[1]);
    assert(d[m + 6] == x[0] && d[m + 7] == x[1]);
    assert(d[m + 8] == y[0] && d[m + 9] == y[1]);
    assert forall|k: int| 0 <= k < m implies #[trigger] b[k] == c[k] by {
        assert(b[k] == d[k]);
    }
    assert forall|k: int| 0 <= k < a.len() implies #[trigger] b[k] == a[k] by {
        assert(c[k] == c.take(a.len() as int)[k]);
    }
    assert(b.take(a.len() as int) =~= a);
}

/// Where each field of a radiotap header stands, on its octets. Octets 2 and 3
/// are the header's length, 4 to 7 the Present word (bit 1 Flags, 3 Channel, 5
/// antenna signal, 15 TX flags, 20 A-MPDU status, 28 TLVs), 8 the Flags (0x10
/// FCS at the end, 0x40 bad FCS, 0x80 short guard interval). The Channel, where
/// there is one, is at 10, the antenna signal right behind, the TX flags at an
/// even place behind, the A-MPDU status at the next multiple of four.
pub proof fn lemma_header_octets(rt: Radiotap)
    ensures
        ({
            let h = rt.header();
            let n = h.len() as int;
            let p: int = if rt.freq_mhz is Some { 14 } else { 9 };
            let t: int = if rt.freq_mhz is Some { 14 } else { 10 };
            let q: int = if rt.freq_mhz is Some { 16 } else { 12 };
            &&& n == 24 + (if rt.freq_mhz is Some { 4int } else { 0 }) + (if rt.ampdu is Some {
                8int
            } else {
                0
            })
            &&& h[0] == 0 && h[1] == 0 && h[2] == n && h[3] == 0
            &&& h[4] == 2 + (if rt.freq_mhz is Some { 8int } else { 0 }) + (if rt.direction is Rx {
                32int
            } else {
                0
            })
            &&& h[5] == (if rt.direction is Rx { 0int } else { 128 })
            &&& h[6] == (if rt.ampdu is Some { 16int } else { 0 })
            &&& h[7] == 16
            &&& h[8] == 16 + (if rt.fcs_ok { 0int } else { 64 }) + (if rt.gi == GuardInterval::Short {
                128int
            } else {
                0
            })
            &&& rt.freq_mhz matches Some(f) ==> h[9] == 0 && h[10] + 256 * h[11] == f && h[12] == 0
                && h[13] == 0
            &&& match rt.direction {
                Direction::Rx { signal_dbm } => h[p] == if signal_dbm < 0 {
                    signal_dbm + 256
                } else {
                    signal_dbm as int
                },
                Direction::Tx { ack_expected } => h[t] == (if ack_expected { 0int } else { 8 }) && h[t
                    + 1] == 0,
            }
            &&& rt.ampdu matches Some(m) ==> {
                &&& h[q] + 256 * h[q + 1] + 65536 * h[q + 2] + 16777216 * h[q + 3] == m.reference
                &&& h[q + 4] == 132 + (if m.last { 8int } else { 0 }) + (if m.eof { 64int } else { 0 })
                &&& h[q + 5] == 0 && h[q + 6] == 0 && h[q + 7] == 0
            }
        }),
{
    lemma_fixed_octets(rt);
    lemma_channel_octets(rt);
    lemma_direction_octets(rt);
    lemma_ampdu_octets(rt);
    lemma_tlv_octets(rt);
    let f = rt.fixed_part();
    let c = rt.with_channel();
    let d = rt.with_direction();
    let a = rt.with_ampdu();
    let b = rt.with_tlv();
    let h = rt.header();
    assert forall|k: int| 4 <= k < a.len() implies #[trigger] h[k] == a[k] by {
        assert(h[k] == b[k] && b[k] == b.take(a.len() as int)[k]);
    }
    assert forall|k: int| 4 <= k < d.len() implies #[trigger] h[k] == d[k] by {
        assert(h[k] == a[k] && a[k] == a.take(d.len() as int)[k]);
    }
    assert forall|k: int| 4 <= k < c.len() implies #[trigger] h[k] == c[k] by {
        assert(h[k] == d[k] && d[k] == d.take(c.len() as int)[k]);
    }
    assert forall|k: int| 4 <= k < 9 implies #[trigger] h[k] == f[k] by {
        assert(h[k] == c[k] && c[k] == c.take(9)[k]);
    }
    assert(h[0] == b[0] && h[1] == b[1]);
    assert(b[0] == b.take(a.len() as int)[0] && b[1] == b.take(a.len() as int)[1]);
    assert(a[0] == a.take(d.len() as int)[0] && a[1] == a.take(d.len() as int)[1]);
    assert(d[0] == d.take(c.len() as int)[0] && d[1] == d.take(c.len() as int)[1]);
    assert(c[0] == c.take(9)[0] && c[1] == c.take(9)[1]);
}

/// The parts of data1, by its octets.
proof fn lemma_data1_parts(rt: Radiotap, low: int, high: int)
    requires
        0 <= low < 256,
        0 <= high < 256,
        low + 256 * high == rt.data1(),
    ensures
        low == (match rt.preamble_type {
            PreambleType::S1gShort => 1int,
            PreambleType::S1gLong => 2,
        }) + 4 * (match rt.response_indication {
            ResponseIndication::NoResponse => 0int,
            ResponseIndication::Ndp => 1,
            ResponseIndication::Normal => 2,
            ResponseIndication::Long => 3,
        }) + (if rt.gi == GuardInterval::Short { 32int } else { 0 }),
        high == 1 + 16 * (rt.mcs % 16),
{
}

/// The parts of data2, by its octets.
proof fn lemma_data2_parts(rt: Radiotap, low: int, high: int)
    requires
        0 <= low < 256,
        0 <= high < 256,
        low + 256 * high == rt.data2(),
    ensures
        low == rt.color % 8 + (if rt.uplink_indication { 8int } else { 0 }),
        high == match rt.direction {
            Direction::Rx { signal_dbm } => if signal_dbm < 0 {
                signal_dbm + 256
            } else {
                signal_dbm as int
            },
            Direction::Tx { ack_expected: _ } => 0,
        },
{
}

/// The S1G TLV takes the last twelve octets of the header: type 32, length 6,
/// all eight things known, data1, data2, two octets of padding. The low octet of
/// data1 is the PPDU format (1 for S1G_SHORT, 2 for S1G_LONG), four times the
/// response indication and 32 for the short guard interval; its high octet is 1
/// (2 MHz) and 16 times the MCS. The low octet of data2 is the color and 8 for
/// the uplink indication, its high octet the signal of a received frame.
#[verifier::spinoff_prover]
pub proof fn lemma_s1g_tlv(rt: Radiotap)
    ensures
        ({
            let h = rt.header();
            let n = h.len() as int;
            &&& n >= 24
            &&& h[n - 12] == 32 && h[n - 11] == 0 && h[n - 10] == 6 && h[n - 9] == 0
            &&& h[n - 8] == 255 && h[n - 7] == 0
            &&& h[n - 6] % 4 == match rt.preamble_type {
                PreambleType::S1gShort => 1int,
                PreambleType::S1gLong => 2,
            }
            &&& h[n - 6] / 4 % 8 == match rt.response_indication {
                ResponseIndication::NoResponse => 0int,
                ResponseIndication::Ndp => 1,
                ResponseIndication::Normal => 2,
                ResponseIndication::Long => 3,
            }
            &&& h[n - 6] / 32 == (if rt.gi == GuardInterval::Short { 1int } else { 0 })
            &&& h[n - 5] % 16 == 1
            &&& h[n - 5] / 16 == rt.mcs % 16
            &&& h[n - 4] % 8 == rt.color % 8
            &&& h[n - 4] / 8 == (if rt.uplink_indication { 1int } else { 0 })
            &&& h[n - 3] == match rt.direction {
                Direction::Rx { signal_dbm } => if signal_dbm < 0 {
                    signal_dbm + 256
                } else {
                    signal_dbm as int
                },
                Direction::Tx { ack_expected: _ } => 0,
            }
            &&& h[n - 2] == 0 && h[n - 1] == 0
        }),
{
    lemma_tlv_octets(rt);
    let b = rt.with_tlv();
    let h = rt.header();
    let n = h.len() as int;
    assert forall|k: int| 4 <= k < n implies #[trigger] h[k] == b[k] by {}
    lemma_data1_parts(rt, h[n - 6] as int, h[n - 5] as int);
    lemma_data2_parts(rt, h[n - 4] as int, h[n - 3] as int);
}

/// The S1G TLV can be read back: two headers whose last octets agree are of the
/// same preamble type, response indication, guard interval, MCS, color and
/// uplink indication (the MCS modulo 16 and the color modulo 8, which is all
/// that there is of either).
pub proof fn lemma_s1g_tlv_readable(a: Radiotap, b: Radiotap)
    requires
        ({
            let x = a.header();
            let y = b.header();
            &&& x[x.len() - 6] == y[y.len() - 6]
            &&& x[x.len() - 5] == y[y.len() - 5]
            &&& x[x.len() - 4] == y[y.len() - 4]
        }),
    ensures
        a.preamble_type == b.preamble_type,
        a.response_indication == b.response_indication,
        a.gi == b.gi,
        a.mcs % 16 == b.mcs % 16,
        a.color % 8 == b.color % 8,
        a.uplink_indication == b.uplink_indication,
{
    lemma_s1g_tlv(a);
    lemma_s1g_tlv(b);
}

/// A radiotap header can be read back: equal headers are of frames that went the
/// same way, on the same channel, with the same FCS verdict, A-MPDU status and
/// PHY parameters.
pub proof fn lemma_header_readable(a: Radiotap, b: Radiotap)
    requires
        a.header() == b.header(),
        a.mcs < 16,
        b.mcs < 16,
        a.color < 8,
        b.color < 8,
    ensures
        a == b,
{
    lemma_header_octets(a);
    lemma_header_octets(b);
    lemma_s1g_tlv_readable(a, b);
}

/// The file header on its octets: the magic number of microsecond captures,
/// least significant octet first, version 2.4, no zone and no accuracy, records
/// of at most 65535 octets, the link type.
pub proof fn lemma_file_header_octets(linktype: u32)
    ensures
        ({
            let h = header_of(linktype as int);
            &&& h.len() == 24
            &&& h[0] == 0xd4 && h[1] == 0xc3 && h[2] == 0xb2 && h[3] == 0xa1
            &&& h[4] == 2 && h[5] == 0 && h[6] == 4 && h[7] == 0
            &&& forall|i: int| 8 <= i < 16 ==> #[trigger] h[i] == 0
            &&& h[16] == 255 && h[17] == 255 && h[18] == 0 && h[19] == 0
            &&& h[20] + 256 * h[21] + 65536 * h[22] + 16777216 * h[23] == linktype
        }),
{
    let a = le32(0xa1b2_c3d4) + le16(2) + le16(4);
    let b = a + le32(0) + le32(0);
    let c = b + le32(65535);
    let h = c + le32(linktype as int);
    assert(a.len() == 8 && b.len() == 16 && c.len() == 20);
    assert(h == header_of(linktype as int));
    assert forall|i: int| 0 <= i < 8 implies #[trigger] h[i] == a[i] by {}
    assert forall|i: int| 8 <= i < 16 implies #[trigger] h[i] == 0 by {
        assert(h[i] == b[i]);
        if i < 12 {
            assert(b[i] == le32(0)[i - 8]);
        } else {
            assert(b[i] == le32(0)[i - 12]);
        }
    }
    let l = le32(65535);
    assert(h[16] == l[0] && h[17] == l[1] && h[18] == l[2] && h[19] == l[3]);
    let t = le32(linktype as int);
    assert(h[20] == t[0] && h[21] == t[1] && h[22] == t[2] && h[23] == t[3]);
    let m = le32(0xa1b2_c3d4);
    assert(a[0] == m[0] && a[1] == m[1] && a[2] == m[2] && a[3] == m[3]);
    assert(a[4] == le16(2)[0] && a[5] == le16(2)[1] && a[6] == le16(4)[0] && a[7] == le16(4)[1]);
}

#[verifier::spinoff_prover]
proof fn lemma_le32_value(v: int)
    requires
        0 <= v < 4294967296,
    ensures
        le32(v).len() == 4,
        le32(v)[0] + 256 * le32(v)[1] + 65536 * le32(v)[2] + 16777216 * le32(v)[3] == v,
{
    let a = v / 256;
    let b = v / 65536;
    let c = v / 16777216;
    assert(b == a / 256 && c == b / 256);
    assert(le32(v)[0] == v % 256 && le32(v)[1] == a % 256 && le32(v)[2] == b % 256 && le32(v)[3] == c);
}

/// Four 32-bit values in a row, then anything.
proof fn lemma_four_words(x: Seq<u8>, y: Seq<u8>, z: Seq<u8>, w: Seq<u8>, rest: Seq<u8>)
    requires
        x.len() == 4,
        y.len() == 4,
        z.len() == 4,
        w.len() == 4,
    ensures
        ({
            let r = x + y + z + w + rest;
            &&& r.len() == 16 + rest.len()
            &&& r[0] == x[0] && r[1] == x[1] && r[2] == x[2] && r[3] == x[3]
            &&& r[4] == y[0] && r[5] == y[1] && r[6] == y[2] && r[7] == y[3]
            &&& r[8] == z[0] && r[9] == z[1] && r[10] == z[2] && r[11] == z[3]
            &&& r[12] == w[0] && r[13] == w[1] && r[14] == w[2] && r[15] == w[3]
            &&& r.skip(16) == rest
        }),
{
    let r = x + y + z + w + rest;
    assert(r.skip(16) =~= rest);
}

/// A record on its octets: seconds, microseconds below a million, the length of
/// what follows twice, the radiotap header, the frame.
#[verifier::spinoff_prover]
pub proof fn lemma_record_octets(t_us: u64, radiotap: Seq<u8>, mpdu: Seq<u8>)
    requires
        radiotap.len() + mpdu.len() < 0x1_0000_0000,
        t_us < 4294967296000000,
    ensures
        ({
            let r = record_of(t_us as int, radiotap, mpdu);
            let s = r[0] + 256 * r[1] + 65536 * r[2] + 16777216 * r[3];
            let u = r[4] + 256 * r[5] + 65536 * r[6] + 16777216 * r[7];
            let len = (radiotap.len() + mpdu.len()) as int;
            &&& r.len() == 16 + len
            &&& 1000000 * s + u == t_us && u < 1000000
            &&& r[8] + 256 * r[9] + 65536 * r[10] + 16777216 * r[11] == len
            &&& r[12] + 256 * r[13] + 65536 * r[14] + 16777216 * r[15] == len
            &&& r.skip(16) == radiotap + mpdu
        }),
{
    let len = (radiotap.len() + mpdu.len()) as int;
    let s = le32(t_us as int / 1_000_000 % 0x1_0000_0000);
    let u = le32(t_us as int % 1_000_000);
    let l = le32(len % 0x1_0000_0000);
    assert(len % 0x1_0000_0000 == len);
    assert(t_us as int / 1_000_000 % 0x1_0000_0000 == t_us as int / 1_000_000);
    lemma_le32_value(len);
    lemma_le32_value(t_us as int / 1_000_000);
    lemma_le32_value(t_us as int % 1_000_000);
    lemma_four_words(s, u, l, l, radiotap + mpdu);
    assert(record_of(t_us as int, radiotap, mpdu) =~= s + u + l + l + (radiotap + mpdu));
}

/// The header of a subframe differs from that of its PSDU in the FCS verdict and the
/// A-MPDU status, whose EOF bit is its delimiter's.
pub proof fn lemma_subframe_rest(
    base: Radiotap,
    reference: Option<u32>,
    i: int,
    n: int,
    fcs_ok: bool,
    eof: bool,
)
    ensures
        ({
            let s = subframe(base, reference, i, n, fcs_ok, eof);
            &&& s == (Radiotap { fcs_ok, ampdu: s.ampdu, ..base })
            &&& s.ampdu matches Some(a) ==> a.eof == eof
        }),
{
}

} // verus!
