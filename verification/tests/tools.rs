//! Captures, recordings, hexadecimal input and the rules of the tools.

use s2g::hex::{parse_hex_psdu, parse_ndp_body, HexError};
use s2g::node::{
    ack_timeout_us, cca_type_of, choose_nic, configure_ports, fmt_mac, id_interval_us,
    mac_from_time, parse_mac, random_mac, verbose_line, FilterLog, MacParseError, MacReport,
    NicChoice, NodeAction, NodeLog, RateSeen, Toward, Verbose,
};
use s2g::clock::EpochTime;
use s2g::octets::{align, push_le16, push_le32, push_octets, read_i16, read_i32, read_le16, read_le32};
use s2g::params::rf::CcaType;
use s2g::pcap::{
    file_header, record, subframe_headers, AmpduStatus, CaptureLog, Radiotap, AMPDU_EOF_KNOWN,
    AMPDU_IS_LAST, AMPDU_LAST_KNOWN, FLAG_BAD_FCS, FLAG_FCS, FLAG_SHORT_GI, LINKTYPE,
    PRESENT_AMPDU_STATUS, PRESENT_CHANNEL, PRESENT_DBM_ANTSIGNAL, PRESENT_FLAGS, PRESENT_TLVS,
    PRESENT_TX_FLAGS, TX_FLAG_NOACK,
};
use s2g::recording::sigmf::{frequency_parts, parse_sigmf_meta, tar_entry, TarMember};
use s2g::recording::{
    decode_cf32, decode_ci16, decode_wav, file_kind, parse_wav, sample_type, window, FileKind,
    SampleType, WavCoding, WavError,
};
use s2g::report::{
    frame_type_name, hex_text, is_done, is_printed, mac_str, other_frame_text, psdu_report,
    sample_time_us, PsduReport, Stats, Tally,
};
use s2g::rx::{RxEndStatus, RxEvent};
use s2g::sim::{delivered, mcs_list};
use s2g::vector::{Coding, GuardInterval, PreambleType, RxVector, TxVector};

#[test]
fn hex_parse() {
    assert_eq!(parse_hex_psdu("de:ad be ef").unwrap(), vec![0xde, 0xad, 0xbe, 0xef]);
    assert!(parse_hex_psdu("abc").is_err());
}

#[test]
fn hex_errors_and_edges() {
    assert_eq!(parse_hex_psdu("abc"), Err(HexError::OddDigits));
    assert_eq!(parse_hex_psdu("0g"), Err(HexError::BadDigit));
    assert_eq!(parse_hex_psdu(" \t\n:"), Ok(vec![]));
    assert_eq!(parse_hex_psdu("Ff00"), Ok(vec![255, 0]));
}

#[test]
fn ndp_bodies() {
    assert_eq!(parse_ndp_body("0x1F00000001"), Some(0x1F_0000_0001));
    assert_eq!(parse_ndp_body("1f00000001"), Some(0x1F_0000_0001));
    assert_eq!(parse_ndp_body("0x0x10"), Some(16));
    assert_eq!(parse_ndp_body("0x"), None);
    assert_eq!(parse_ndp_body("ffffffffffffffff"), Some(u64::MAX));
    assert_eq!(parse_ndp_body("10000000000000000"), None);
    assert_eq!(parse_ndp_body("xyz"), None);
}

fn rx_header() -> Radiotap {
    Radiotap::rx(&RxVector { mcs: 3, ..Default::default() }, -61, Some(1250))
}

#[test]
fn radiotap_fields_are_aligned_and_sized() {
    let h = rx_header().encode();
    assert_eq!(h.len(), 28);
    assert_eq!(u16::from_le_bytes([h[2], h[3]]), 28);
    assert_eq!(
        u32::from_le_bytes([h[4], h[5], h[6], h[7]]),
        PRESENT_FLAGS | PRESENT_CHANNEL | PRESENT_DBM_ANTSIGNAL | PRESENT_TLVS
    );
    assert_eq!(h[8], FLAG_FCS);
    assert_eq!(u16::from_le_bytes([h[10], h[11]]), 1250);
    assert_eq!(h[14] as i8, -61);
    assert_eq!(&h[16..22], &[32, 0, 6, 0, 0xff, 0]);
    let data1 = u16::from_le_bytes([h[22], h[23]]);
    assert_eq!(data1 & 3, 1);
    assert_eq!((data1 >> 8) & 0xf, 1);
    assert_eq!(data1 >> 12, 3);
    let data2 = u16::from_le_bytes([h[24], h[25]]);
    assert_eq!((data2 >> 8) as u8 as i8, -61);

    let mut tx = Radiotap::tx(
        &TxVector { mcs: 7, gi: GuardInterval::Short, ..Default::default() },
        None,
    );
    tx.ampdu = Some(AmpduStatus { reference: 9, last: true, eof: false });
    let h = tx.encode();
    assert_eq!(h.len(), 32);
    assert_eq!(
        u32::from_le_bytes([h[4], h[5], h[6], h[7]]),
        PRESENT_FLAGS | PRESENT_TX_FLAGS | PRESENT_AMPDU_STATUS | PRESENT_TLVS
    );
    assert_eq!(h[8], FLAG_FCS | FLAG_SHORT_GI);
    assert_eq!(u16::from_le_bytes([h[10], h[11]]), TX_FLAG_NOACK);
    assert_eq!(u32::from_le_bytes([h[12], h[13], h[14], h[15]]), 9);
    assert_eq!(
        u16::from_le_bytes([h[16], h[17]]),
        AMPDU_LAST_KNOWN | AMPDU_EOF_KNOWN | AMPDU_IS_LAST
    );
    assert_eq!(&h[20..24], &[32, 0, 6, 0]);
    assert_eq!(u16::from_le_bytes([h[26], h[27]]) >> 12, 7);
}

/// (seconds, microseconds, radiotap header, frame) of each record.
fn records_of(bytes: &[u8]) -> Vec<(u32, u32, Vec<u8>, Vec<u8>)> {
    let mut out = Vec::new();
    let mut pos = 24;
    while pos + 16 <= bytes.len() {
        let u = |i: usize| read_le32(bytes, pos + i);
        let (s, us, len) = (u(0), u(4), u(8) as usize);
        let pkt = &bytes[pos + 16..pos + 16 + len];
        let rl = read_le16(pkt, 2) as usize;
        out.push((s, us, pkt[..rl].to_vec(), pkt[rl..].to_vec()));
        pos += 16 + len;
    }
    out
}

#[test]
fn a_capture_holds_one_record_per_mpdu() {
    let (good, bad) = (vec![8u8, 0, 1, 2, 3], vec![8u8, 0, 9, 9]);
    let mut log = CaptureLog::new();
    let mut bytes = file_header(LINKTYPE);
    let reference = log.next_reference(true);
    assert_eq!(reference, Some(1));
    let heads = subframe_headers(&rx_header(), reference, &[(true, false), (false, false)]);
    bytes.extend(record(1_700_000_000_123_456, &heads[0].encode(), &good));
    bytes.extend(record(1_700_000_000_123_456, &heads[1].encode(), &bad));
    let mut full = CaptureLog { ampdu_reference: u32::MAX, dropped: 0 };
    assert_eq!(full.next_reference(false), None);
    let alone = log.next_reference(false);
    assert_eq!(alone, None);
    let single = subframe_headers(&rx_header(), alone, &[(true, false)]);
    bytes.extend(record(1_700_000_001_000_000, &single[0].encode(), &good));
    assert_eq!(&bytes[20..24], &LINKTYPE.to_le_bytes());
    let recs = records_of(&bytes);
    assert_eq!(recs.len(), 3);
    assert_eq!((recs[0].0, recs[0].1), (1_700_000_000, 123_456));
    assert_eq!(recs[0].3, good);
    assert_eq!(recs[0].2[8], FLAG_FCS);
    assert_eq!(read_le32(&recs[0].2, 16), 1);
    assert_eq!(read_le16(&recs[0].2, 20), AMPDU_LAST_KNOWN | AMPDU_EOF_KNOWN);
    assert_eq!(recs[1].3, bad);
    assert_eq!(recs[1].2[8], FLAG_FCS | FLAG_BAD_FCS);
    assert_eq!(read_le16(&recs[1].2, 20), AMPDU_LAST_KNOWN | AMPDU_EOF_KNOWN | AMPDU_IS_LAST);
    assert_eq!(recs[2].3, good);
    assert_eq!(recs[2].2.len(), 28);
    assert!(log.count_drop(None));
    assert!(!log.count_drop(Some(29)));
    assert!(log.count_drop(Some(30)));
    assert_eq!(log.dropped, 3);
}

#[test]
fn little_endian_octets() {
    let mut v = vec![7u8];
    align(&mut v, 4);
    assert_eq!(v, vec![7, 0, 0, 0]);
    push_le16(&mut v, 0xBEEF);
    push_le32(&mut v, 0xDEAD_F00D);
    push_octets(&mut v, &[1, 2]);
    assert_eq!(&v[4..], &[0xEF, 0xBE, 0x0D, 0xF0, 0xAD, 0xDE, 1, 2]);
    assert_eq!((read_le16(&v, 4), read_le32(&v, 6)), (0xBEEF, 0xDEAD_F00D));
    assert_eq!((read_i16(&v, 4), read_i32(&v, 6)), (0xBEEFu16 as i16, 0xDEAD_F00Du32 as i32));
}

#[test]
fn sigmf_meta_scan() {
    let meta = r#"{"global": {"core:datatype": "ci16_le", "core:sample_rate": 3840000.0, "core:version": "1.0.0"},
            "captures": [{"core:sample_start": 0, "core:frequency": 866000000.0}], "annotations": []}"#;
    let m = parse_sigmf_meta(meta);
    assert_eq!(m.datatype.as_deref(), Some("ci16_le"));
    assert_eq!(m.sample_rate.and_then(|t| t.parse().ok()), Some(3.84e6));
    assert_eq!(m.frequency.and_then(|t| t.parse().ok()), Some(866e6));
    let none = parse_sigmf_meta("{}");
    assert_eq!((none.datatype, none.sample_rate, none.frequency), (None, None, None));
}

#[test]
fn ci16_decode_window() {
    let raw: Vec<u8> = (0..8i16)
        .flat_map(|i| [(i * 1000).to_le_bytes(), (-i * 1000).to_le_bytes()].concat())
        .collect();
    assert_eq!(sample_type("ci16_le"), Some(SampleType::Ci16));
    let v: Vec<(f32, f32)> = decode_ci16(&raw, 2, Some(3))
        .iter()
        .map(|(i, q)| (*i as f32 / 32768.0, *q as f32 / 32768.0))
        .collect();
    assert_eq!(v.len(), 3);
    assert!((v[0].0 - 2000.0 / 32768.0).abs() < 1e-6);
    assert!((v[2].1 + 4000.0 / 32768.0).abs() < 1e-6);
}

#[test]
fn cf32_bits_come_back() {
    let v: Vec<(f32, f32)> = (0..100).map(|i| (i as f32, -i as f32 / 2.0)).collect();
    let raw: Vec<u8> =
        v.iter().flat_map(|(i, q)| [i.to_le_bytes(), q.to_le_bytes()].concat()).collect();
    let back: Vec<(f32, f32)> = decode_cf32(&raw, 0, None)
        .iter()
        .map(|(i, q)| (f32::from_bits(*i), f32::from_bits(*q)))
        .collect();
    assert_eq!(v, back);
    assert_eq!(sample_type("cf32_le"), Some(SampleType::Cf32));
    assert_eq!(sample_type("cu8"), None);
    assert_eq!(window(10, 12, None), (10, 0));
    assert_eq!(window(10, 4, Some(3)), (4, 3));
    assert_eq!(window(10, 4, Some(30)), (4, 6));
}

#[test]
fn kinds_of_files() {
    assert_eq!(file_kind("a.sigmf"), FileKind::SigmfArchive);
    assert_eq!(file_kind("a.sigmf-data"), FileKind::SigmfData);
    assert_eq!(file_kind("a.wav"), FileKind::Wav);
    assert_eq!(file_kind("a.ci16"), FileKind::Ci16);
    assert_eq!(file_kind("a.cs16"), FileKind::Ci16);
    assert_eq!(file_kind("a.cf32"), FileKind::Cf32);
    assert_eq!(file_kind("whatever"), FileKind::Cf32);
}

/// A RIFF/WAVE head: one format chunk and one data chunk.
fn wav(tag: u16, channels: u16, bits: u16, data: &[u8]) -> Vec<u8> {
    let mut h = b"RIFF\0\0\0\0WAVEfmt ".to_vec();
    push_le32(&mut h, 16);
    push_le16(&mut h, tag);
    push_le16(&mut h, channels);
    push_le32(&mut h, 4_000_000);
    push_le32(&mut h, 0);
    push_le16(&mut h, 0);
    push_le16(&mut h, bits);
    h.extend_from_slice(b"data");
    push_le32(&mut h, data.len() as u32);
    h.extend_from_slice(data);
    h
}

#[test]
fn wav_recordings() {
    let data: Vec<u8> = [100i16, -200, 300, -400].iter().flat_map(|v| v.to_le_bytes()).collect();
    let file = wav(1, 2, 16, &data);
    let w = parse_wav(&file, file.len() as u64).unwrap();
    assert_eq!((w.format.rate, w.start, w.len), (4_000_000, 44, 8));
    assert_eq!(w.format.coding(), WavCoding::I16);
    assert_eq!(w.pair_octets(), 4);
    assert_eq!(w.sample_window(1, None), (48, 1));
    assert_eq!(decode_wav(&w.format, &data), vec![(100, -200), (300, -400)]);
    assert_eq!(parse_wav(b"RIFFxxxxWAVX", 12), Err(WavError::NotWave));
    let mono = wav(1, 1, 16, &data);
    assert_eq!(parse_wav(&mono, mono.len() as u64), Err(WavError::Channels(1)));
    assert_eq!(parse_wav(&file[..12], 12), Err(WavError::NoFormat));
    assert_eq!(parse_wav(&file[..36], 36), Err(WavError::NoData));
}

#[test]
fn a_part_of_a_recording() {
    for (tag, bits) in [(1u16, 8u16), (1, 16), (1, 32), (3, 32), (1, 24)] {
        let bps = bits as usize / 4;
        // Ten pairs and an odd octet.
        let data: Vec<u8> = (0..10 * bps + 1).map(|i| (i * 37 % 251) as u8).collect();
        let file = wav(tag, 2, bits, &data);
        let w = parse_wav(&file, file.len() as u64).unwrap();
        let read = |skip: usize, max: Option<usize>| {
            let (at, count) = w.sample_window(skip, max);
            decode_wav(&w.format, &file[at as usize..at as usize + count * bps])
        };
        let whole = read(0, None);
        assert_eq!(whole.len(), 10);
        assert_eq!(whole, decode_wav(&w.format, &data));
        for skip in [0usize, 1, 7, 10, 50] {
            for max in [Some(0), Some(2), Some(3), Some(99), None] {
                let first = skip.min(10);
                let n = max.unwrap_or(10).min(10 - first);
                assert_eq!(read(skip, max), whole[first..first + n]);
            }
        }
    }
}

#[test]
fn archive_members() {
    let e = tar_entry("rec.sigmf-meta", "00000000123", b'0');
    assert_eq!((e.member, e.size, e.padded), (TarMember::Meta, 83, 512));
    let a = e.action(0, None);
    assert_eq!((a.read, a.skip, a.stop), (83, 429, false));
    let d = tar_entry("rec.sigmf-data", "1000", b'0');
    assert_eq!((d.member, d.size, d.padded), (TarMember::Data, 512, 512));
    assert_eq!(tar_entry("notes.txt", "0", b'0').member, TarMember::Other);
    assert_eq!(tar_entry("dir.sigmf-data", "0", b'5').member, TarMember::Other);
}

#[test]
fn frequencies_in_file_names() {
    assert_eq!(frequency_parts("baseband_862004550Hz_12-00-00.wav"), vec!["862004550"]);
    assert_eq!(frequency_parts("a_1kHz_Hz_2Hz"), vec!["1k", "", "2"]);
    assert!(frequency_parts("plain.wav").is_empty());
}

#[test]
fn frame_names() {
    assert_eq!(frame_type_name(0x80), "Beacon");
    assert_eq!(frame_type_name(0x88), "QoSData");
    assert_eq!(frame_type_name(0xD4), "Ack");
    assert_eq!(frame_type_name(0x1C), "S1GBeacon");
    assert_eq!(frame_type_name(0x20), "type0/sub2");
    assert_eq!(frame_type_name(0x2D), "PV1 type3/sub1");
    assert_eq!(mac_str(&[0, 0x1b, 0xff]), "00:1b:ff");
    assert_eq!(mac_str(&[]), "");
    assert_eq!(hex_text(&[0xde, 0xad, 5]), "dead05");
    let m: Vec<u8> = (0..16u8).collect();
    assert_eq!(
        other_frame_text(&m, 0x80, 0x01, 44),
        "Beacon fc=8001 dur=44 a1 04:05:06:07:08:09 a2 0a:0b:0c:0d:0e:0f"
    );
    assert_eq!(other_frame_text(&m[..12], 0x20, 0, 0), "type0/sub2 fc=2000 dur=0 a1 04:05:06:07:08:09 a2 -");
    assert_eq!(other_frame_text(&m[..9], 0x20, 0, 0), "type0/sub2 fc=2000 dur=0 a1 - a2 -");
}

fn tally_lines(t: &Tally) -> Vec<(String, usize)> {
    t.list.iter().map(|e| (e.key.iter().collect(), e.count)).collect()
}

#[test]
fn tallies_are_sorted() {
    let mut t = Tally::new();
    for w in ["b", "a", "ba", "b", "", "a", "b"] {
        t.bump(w.chars().collect());
    }
    assert_eq!(
        tally_lines(&t),
        vec![
            (String::new(), 1),
            ("a".to_string(), 2),
            ("b".to_string(), 3),
            ("ba".to_string(), 1)
        ]
    );
}

#[test]
fn nic_options() {
    let text = |s: &str| Some(s.to_string());
    assert_eq!(choose_nic(text("a:1"), None), NicChoice::Udp("a:1".to_string()));
    assert_eq!(choose_nic(text("a:1"), text("s2g0")), NicChoice::Udp("a:1".to_string()));
    assert_eq!(choose_nic(None, text("s2g0")), NicChoice::Tap(text("s2g0")));
    assert_eq!(choose_nic(None, text("")), NicChoice::Tap(None));
    assert_eq!(choose_nic(None, None), NicChoice::Nothing);
}

#[test]
fn one_end_makes_one_line() {
    let mut s = Stats::new();
    s.note(&RxEvent::Cca { sample_index: 1, busy: true, reason: None, hold_us: 0 });
    s.note(&RxEvent::RxEnd { sample_index: 9, status: RxEndStatus::NoError });
    assert_eq!(tally_lines(&s.ends), vec![("NoError".to_string(), 1)]);
    for t in [&s.psdu_by_mcs, &s.ndp_types, &s.frame_types] {
        assert_eq!(tally_lines(t), vec![]);
    }
    assert_eq!((s.psdus, s.detections, s.ndps, s.mpdus), (0, 0, 0, 0));
}

#[test]
fn statistics_of_a_run() {
    let mut s = Stats::new();
    let long = RxVector { preamble_type: PreambleType::S1gLong, ..Default::default() };
    let psdu_vec = RxVector {
        mcs: 7,
        fec_coding: Coding::Ldpc,
        gi: GuardInterval::Short,
        ..Default::default()
    };
    let events = [
        RxEvent::PpduStart { sample_index: 1 },
        RxEvent::RxStart { sample_index: 1, rxvector: long },
        RxEvent::RxStart { sample_index: 1, rxvector: RxVector::default() },
        RxEvent::RxEnd { sample_index: 2, status: RxEndStatus::UnsupportedRate("x") },
        RxEvent::NdpReceived { sample_index: 3, body: 5 },
        RxEvent::PsduReceived { sample_index: 4, rxvector: psdu_vec, psdu: vec![1] },
        RxEvent::RxEnd { sample_index: 4, status: RxEndStatus::NoError },
        RxEvent::Cca { sample_index: 4, busy: false, reason: None, hold_us: 0 },
    ];
    for e in &events {
        s.note(e);
    }
    s.note_ndp_kind("NDP Ack");
    s.note_mpdu(true, 0x88);
    s.note_mpdu(false, 0x80);
    s.note_located(Some(10), 12);
    s.note_located(Some(12), 12);
    s.note_located(None, 12);
    assert_eq!((s.detections, s.starts_short, s.starts_long), (1, 1, 1));
    assert_eq!((s.ndps, s.psdus, s.mpdus, s.fcs_ok, s.padded), (1, 2, 2, 1, 1));
    assert_eq!(
        tally_lines(&s.ends),
        vec![("NoError".to_string(), 1), ("UnsupportedRate(\"x\")".to_string(), 1)]
    );
    assert_eq!(tally_lines(&s.psdu_by_mcs), vec![("MCS7 Ldpc S1gShort SGI".to_string(), 1)]);
    assert_eq!(tally_lines(&s.frame_types), vec![("QoSData".to_string(), 1)]);
    assert_eq!(tally_lines(&s.ndp_types), vec![("NDP Ack".to_string(), 1)]);
    let printed: Vec<bool> = events.iter().map(|e| is_printed(e, false)).collect();
    assert_eq!(printed, vec![true, true, true, true, true, true, false, true]);
    let quiet: Vec<bool> = events.iter().map(|e| is_printed(e, true)).collect();
    assert_eq!(quiet, vec![false, false, false, false, true, true, false, false]);
    assert!(!is_done(5, 0) && !is_done(4, 5) && is_done(5, 5));
    assert_eq!(psdu_report(true, false, true), PsduReport::Frames);
    assert_eq!(psdu_report(false, true, false), PsduReport::Frames);
    assert_eq!(psdu_report(false, false, false), PsduReport::Octets);
    assert_eq!(psdu_report(false, false, true), PsduReport::Nothing);
    assert_eq!(sample_time_us(2_000_001), 1_000_000);
    let verbose: Vec<Verbose> = events.iter().map(verbose_line).collect();
    assert_eq!(
        verbose,
        vec![
            Verbose::Silent,
            Verbose::LongPpdu,
            Verbose::Silent,
            Verbose::EndedInError,
            Verbose::Silent,
            Verbose::Psdu,
            Verbose::Silent,
            Verbose::Silent
        ]
    );
}

#[test]
fn mac_addresses() {
    assert_eq!(parse_mac("02:53:32:47:aB:0"), Ok([2, 0x53, 0x32, 0x47, 0xab, 0]));
    assert_eq!(parse_mac("02-53-32-47-ab-+c"), Ok([2, 0x53, 0x32, 0x47, 0xab, 12]));
    assert_eq!(parse_mac("02:53:32:47:ab"), Err(MacParseError::NotSixOctets));
    assert_eq!(parse_mac(""), Err(MacParseError::NotSixOctets));
    assert_eq!(parse_mac("02:53:32:47:ab:"), Err(MacParseError::BadOctet));
    assert_eq!(parse_mac("02:53:32:47:ab:100"), Err(MacParseError::BadOctet));
    assert_eq!(parse_mac("02:53:32:47:ab:zz"), Err(MacParseError::BadOctet));
    let m = [2, 0x53, 0x32, 0x47, 0xab, 9];
    assert_eq!(fmt_mac(&m), "02:53:32:47:ab:09");
    assert_eq!(parse_mac(&fmt_mac(&m)), Ok(m));
    assert_eq!(
        mac_from_time(Some(EpochTime { secs: 0, nanos: 0x12345 })),
        [2, 0x53, 0x32, 0x47, 0x23, 0x45]
    );
    assert_eq!(mac_from_time(None), [2, 0x53, 0x32, 0x47, 0x51, 0x51]);
    assert_eq!(random_mac()[..4], [2, 0x53, 0x32, 0x47]);
}

#[test]
fn rates_are_announced_on_change() {
    let mut r = RateSeen::new();
    let (a, b) = ([1, 2, 3, 4, 5, 6], [1, 2, 3, 4, 5, 7]);
    assert!(r.update(&a, 3));
    assert!(!r.update(&a, 3));
    assert!(r.update(&b, 3));
    assert!(r.update(&a, 4));
    assert!(r.update(&a, 3));
}

#[test]
fn filter_lines_are_rate_limited() {
    let mut l = FilterLog::new();
    assert_eq!(l.note(Toward::Air, "mDNS", 1000), Some(1));
    assert_eq!(l.note(Toward::Air, "mDNS", 2000), None);
    assert_eq!(l.note(Toward::Host, "mDNS", 2000), Some(1));
    assert_eq!(l.note(Toward::Air, "ARP", 2000), Some(1));
    assert_eq!(l.note(Toward::Air, "mDNS", 30_999), None);
    assert_eq!(l.note(Toward::Air, "mDNS", 31_000), Some(4));
    assert_eq!(l.note(Toward::Air, "mDNS", 32_000), None);
}

#[test]
fn node_reports() {
    let mut n = NodeLog::new();
    match n.on_report(MacReport::EthReceived(vec![1, 2]), false, None, 0) {
        NodeAction::Deliver(f) => assert_eq!(f, vec![1, 2]),
        _ => panic!(),
    }
    let dest = [9, 9, 9, 9, 9, 9];
    let done = |n: &mut NodeLog, mcs: Option<u8>| match n.on_report(
        MacReport::TxComplete { dest },
        true,
        mcs,
        0,
    ) {
        NodeAction::TxDone { log, announce } => (log, announce),
        _ => panic!(),
    };
    assert_eq!(done(&mut n, None), (true, None));
    assert_eq!(done(&mut n, Some(5)), (true, Some(5)));
    assert_eq!(done(&mut n, Some(5)), (true, None));
    assert_eq!(done(&mut n, Some(6)), (true, Some(6)));
    assert!(matches!(n.on_report(MacReport::TxDropped, false, None, 0), NodeAction::Log));
    assert!(matches!(n.on_report(MacReport::NdpReceived, false, None, 0), NodeAction::Nothing));
    assert!(matches!(n.on_report(MacReport::NdpReceived, true, None, 0), NodeAction::Log));
    let filtered = || MacReport::Filtered { reason: "SSDP".to_string() };
    assert!(matches!(n.on_report(filtered(), false, None, 10), NodeAction::FilterLine(1)));
    assert!(matches!(n.on_report(filtered(), false, None, 20), NodeAction::Nothing));
    assert_eq!(n.on_outgoing_filtered("SSDP", 20), Some(1));
}

#[test]
fn blocked_ports() {
    assert_eq!(
        configure_ports(vec![53, 80, 443], &vec![80, 8080, 8080], &vec![443, 9]),
        vec![53, 80, 8080]
    );
    assert_eq!(configure_ports(vec![], &vec![1], &vec![1]), Vec::<u16>::new());
}

#[test]
fn node_timers() {
    assert_eq!(id_interval_us(0), 60_000_000);
    assert_eq!(id_interval_us(10), 600_000_000);
    assert_eq!(ack_timeout_us(150), 150_000);
    assert_eq!(cca_type_of(2), CcaType::Type2);
    assert_eq!(cca_type_of(1), CcaType::Type1);
    assert_eq!(cca_type_of(77), CcaType::Type1);
}

#[test]
fn simulator_rules() {
    assert_eq!(mcs_list("all"), Some(vec![0, 1, 2, 3, 4, 5, 6, 7, 8, 11]));
    assert_eq!(mcs_list("7"), Some(vec![7]));
    assert_eq!(mcs_list("256"), None);
    assert_eq!(mcs_list("ALL"), None);
    assert!(delivered(&[1, 2, 3, 0], &[1, 2, 3]));
    assert!(!delivered(&[1, 2], &[1, 2, 3]));
    assert!(!delivered(&[1, 9, 3], &[1, 2, 3]));
}
