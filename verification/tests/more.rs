//! Calibration, error texts, symbol points, and the client against the virtual
//! radio.

use s2g::error::PhyError;
use s2g::hex::parse_hex_psdu;
use s2g::iiod::{
    buffers_command, close_command, open_command, parse_retcode, read_command, readbuf_command,
    timeout_command, write_command, writebuf_command, ByteQueue, Dir, Need, ReadBuf,
};
use s2g::mapping::axis_level;
use s2g::params::rf::{rssi_encode, CcaType};
use s2g::params::Modulation;
use s2g::report::{hex_text, is_printed, rank, Rank};
use s2g::rx::floor::{cal_offset, energy_busy, mid_packet_busy, NoiseFloor};
use s2g::rx::{CcaReason, RxEvent};
use s2g::sig::{rotation, sig_tone};
use s2g::text::{push_decimal, string_of, trim};
use s2g::tx::symbol_points;
use s2g::vector::{Coding, PreambleType};
use s2g::virtual_pluto::{
    count_reply, parse_request, read_reply, read_value, Answer, Attrs, Request, Session,
};

#[test]
fn error_texts() {
    assert_eq!(
        PhyError::InvalidMcs(9).message(),
        "invalid MCS index 9 for 2 MHz / 1 spatial stream"
    );
    assert_eq!(
        PhyError::InvalidLength { len: 512, reason: "too long" }.message(),
        "PSDU length 512 out of range for this PPDU configuration: too long"
    );
    assert_eq!(PhyError::Unsupported("STBC").message(), "unsupported feature: STBC");
    assert_eq!(PhyError::InvalidTxVector("x").message(), "invalid TXVECTOR: x");
}

#[test]
fn rssi_codes() {
    assert_eq!(rssi_encode(-255), 0);
    assert_eq!(rssi_encode(-1000), 0);
    assert_eq!(rssi_encode(0), 255);
    assert_eq!(rssi_encode(7), 255);
    // -27.5 dBFS
    assert_eq!(rssi_encode(-55), 200);
}

#[test]
fn the_floor_is_the_quietest_block_of_the_last_second() {
    let mut f = NoiseFloor::new();
    assert_eq!(f.floor(), None);
    f.push_block(-6000);
    f.push_block(-7000);
    assert_eq!(f.floor(), Some(-7000));
    for _ in 0..48 {
        f.push_block(-5000);
    }
    assert_eq!(f.floor(), Some(-7000));
    f.push_block(-5000);
    assert_eq!(f.floor(), Some(-7000));
    f.push_block(-5000);
    assert_eq!(f.floor(), Some(-5000));
    assert_eq!(f.levels.len(), 50);
}

#[test]
fn energy_detection_is_32_db_above_the_floor() {
    assert_eq!(cal_offset(None, Some(-7000)), Some(-3400));
    assert_eq!(cal_offset(Some(-3000), Some(-7000)), Some(-3000));
    assert_eq!(cal_offset(None, None), None);
    assert!(!energy_busy(0, None, None));
    assert!(!energy_busy(-3800, None, Some(-7000)));
    assert!(energy_busy(-3799, None, Some(-7000)));
    assert!(energy_busy(-4199, Some(-3000), None));
    assert!(!energy_busy(-4200, Some(-3000), None));
    assert!(mid_packet_busy(-5899, Some(-3000), None, CcaType::Type1));
    assert!(!mid_packet_busy(-5899, Some(-3000), None, CcaType::Type2));
    assert!(mid_packet_busy(-5599, Some(-3000), None, CcaType::Type2));
}

#[test]
fn sig_symbols_are_rotated_by_format() {
    assert_eq!(rotation(PreambleType::S1gShort), [true, true]);
    assert_eq!(rotation(PreambleType::S1gLong), [true, false]);
    assert_eq!((sig_tone(1, false), sig_tone(0, false)), ((1, 0), (-1, 0)));
    assert_eq!((sig_tone(1, true), sig_tone(0, true)), ((0, 1), (0, -1)));
}

#[test]
fn ldpc_points_are_spread_over_the_tones() {
    let bits: Vec<u8> = (0..208u32).map(|i| ((i * 7 + i / 5) % 2) as u8).collect();
    let plain = symbol_points(&bits, Modulation::Qam16, Coding::Bcc);
    let spread = symbol_points(&bits, Modulation::Qam16, Coding::Ldpc);
    for k in 0..52usize {
        let g = &bits[4 * k..4 * k + 4];
        assert_eq!(plain[k], (axis_level(&g[..2]), axis_level(&g[2..])));
        assert_eq!(spread[4 * (k % 13) + k / 13], plain[k]);
    }
}

#[test]
fn a_printed_psdu_parses_back() {
    let psdu: Vec<u8> = (0..=255).collect();
    assert_eq!(parse_hex_psdu(&hex_text(&psdu)), Ok(psdu));
}

#[test]
fn alphabetical_order() {
    let cs = |s: &str| -> Vec<char> { s.chars().collect() };
    assert_eq!(rank(&cs("a"), &cs("b")), Rank::Before);
    assert_eq!(rank(&cs("ab"), &cs("a")), Rank::After);
    assert_eq!(rank(&cs(""), &cs("")), Rank::Same);
    assert_eq!(rank(&cs("Z"), &cs("a")), Rank::Before);
    let mut digits = Vec::new();
    push_decimal(&mut digits, u64::MAX);
    assert_eq!(string_of(&digits), "18446744073709551615");
    assert_eq!(trim(&cs(" \t x y\n")), cs("x y"));
}

#[test]
fn quiet_hides_channel_state() {
    let e = RxEvent::Cca {
        sample_index: 0,
        busy: true,
        reason: Some(CcaReason::EnergyDetect),
        hold_us: 0,
    };
    assert!(is_printed(&e, false) && !is_printed(&e, true));
}

#[test]
fn the_virtual_radio_understands_the_client() {
    assert_eq!(parse_request(&timeout_command(99)), Request::Acknowledge);
    assert_eq!(parse_request(&buffers_command("iio:device2", 4)), Request::Acknowledge);
    assert_eq!(parse_request(&close_command("iio:device2")), Request::Acknowledge);
    for cyclic in [false, true] {
        assert_eq!(
            parse_request(&open_command("iio:device2", 16384, 3, cyclic)),
            Request::Open { receive: true }
        );
        assert_eq!(
            parse_request(&open_command("iio:device3", 16384, 3, cyclic)),
            Request::Open { receive: false }
        );
    }
    assert_eq!(parse_request(&readbuf_command("d", 77)), Request::ReadBuf { nbytes: 77 });
    assert_eq!(parse_request(&writebuf_command("d", 78)), Request::WriteBuf { nbytes: 78 });
    assert_eq!(parse_retcode(&count_reply(65536)), Some(65536));
}

#[test]
fn attributes_read_back_as_written() {
    let mut attrs = Attrs::new();
    let chan = Some((Dir::Output, "voltage0"));
    match parse_request(&write_command("iio:device0", chan, "hardwaregain", 3)) {
        Request::Write { key, len: 3 } => assert_eq!(attrs.store(key, b"-10"), "3\n"),
        other => panic!("{other:?}"),
    }
    match parse_request(&read_command("iio:device0", chan, "hardwaregain")) {
        Request::Read { key, attr } => {
            assert_eq!(attr.iter().collect::<String>(), "hardwaregain");
            let value = read_value(&attrs, &key, &attr);
            assert_eq!(read_reply(&value), "3\n-10\n");
        }
        other => panic!("{other:?}"),
    }
    match parse_request(&read_command("iio:device0", Some((Dir::Input, "voltage0")), "hardwaregain")) {
        Request::Read { key, attr } => {
            assert_eq!(attrs.get(&key), None);
            assert_eq!(read_value(&attrs, &key, &attr), "0");
        }
        other => panic!("{other:?}"),
    }
}

#[test]
fn a_read_gives_back_what_was_last_written() {
    let mut attrs = Attrs::new();
    let mut session = Session::new();
    for value in ["2400000000", "3 \u{b5}s, a\u{df}"] {
        let line = format!("WRITE iio:device0 OUTPUT altvoltage0 frequency {}\r\n", value.len());
        match parse_request(&line) {
            Request::Write { key, len } => {
                assert_eq!(len, value.len());
                assert_eq!(attrs.store(key, value.as_bytes()), format!("{}\n", value.len()));
            }
            other => panic!("{other:?}"),
        }
        let read = parse_request("READ iio:device0 OUTPUT altvoltage0 frequency\r\n");
        assert_eq!(
            session.answer(&read, "", &attrs),
            Answer::Text(format!("{}\n{value}\n", value.len()))
        );
    }
    let other = parse_request("READ iio:device0 INPUT altvoltage0 frequency\r\n");
    assert_eq!(session.answer(&other, "", &attrs), Answer::Text("10\n1250000000\n".to_string()));
}

#[test]
fn written_values_are_trimmed_text() {
    let key: Vec<char> = "k".chars().collect();
    let mut attrs = Attrs::new();
    attrs.store(key.clone(), b" \tmanual\r\n");
    assert_eq!(attrs.get(&key), Some("manual".to_string()));
    // An octet that is no UTF-8 becomes the replacement character.
    attrs.store(key.clone(), b"a\xffb");
    assert_eq!(attrs.get(&key), Some("a\u{fffd}b".to_string()));
    attrs.store_text(key.clone(), " x ");
    assert_eq!(attrs.get(&key), Some("x".to_string()));
}

#[test]
fn a_buffer_read_over_the_wire() {
    let mut session = Session::new();
    session.answer(&Request::Open { receive: true }, "", &Attrs::new());
    let mut mask_pending = true;
    for round in 0..2u8 {
        let mut wire = ByteQueue::new();
        wire.push(session.readbuf_header(4).as_bytes());
        wire.push(&[round; 4]);
        let mut r = ReadBuf::new(4, mask_pending);
        loop {
            match r.need {
                Need::Retcode => {
                    let line = wire.take_line().unwrap();
                    let n = parse_retcode(&String::from_utf8(line).unwrap()).unwrap();
                    r.on_retcode(n).unwrap();
                }
                Need::Mask(_) => {
                    assert_eq!(wire.take_line(), Some(b"00000003".to_vec()));
                    r.on_mask();
                }
                Need::Data(n) => r.on_data(&wire.take_exact(n).unwrap()),
                Need::Nothing => break,
            }
        }
        assert_eq!(r.out, vec![round; 4]);
        mask_pending = r.mask_pending;
        assert!(!mask_pending);
    }
}
