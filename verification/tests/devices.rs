//! The iiod client protocol, the virtual radio and the Windows TAP adapter.

use s2g::iiod::{
    buffers_command, check_retcode, close_command, device_id_by_name, open_command, parse_retcode,
    read_command, readbuf_command, timeout_command, write_command, writebuf_command, ByteQueue,
    Dir, Need, ReadBuf,
};
use s2g::virtual_pluto::{
    count_reply, default_attr, parse_request, print_reply, read_reply, rx_ready_at, tx_may_write,
    Answer, Attrs, ReadPlan, Request, RxCursor, Session, TxStream,
};
use s2g::wintap::{
    adapter_of, describe, device_path, from_wide, mtu_of, pick_adapter, read_buffer_len,
    tap_ioctl, value_units, wait_ms, wide, PickError, ReadStep, TapAdapter, TapRead,
    ERROR_IO_PENDING, TAP_WIN_IOCTL_GET_MAC, TAP_WIN_IOCTL_GET_MTU, TAP_WIN_IOCTL_GET_VERSION,
    TAP_WIN_IOCTL_SET_MEDIA_STATUS,
};

#[test]
fn iiod_commands() {
    assert_eq!(timeout_command(2500), "TIMEOUT 2500");
    assert_eq!(buffers_command("iio:device3", 8), "SET iio:device3 BUFFERS_COUNT 8");
    assert_eq!(read_command("d", None, "xo_correction"), "READ d xo_correction");
    assert_eq!(
        read_command("d", Some((Dir::Output, "voltage0")), "hardwaregain"),
        "READ d OUTPUT voltage0 hardwaregain"
    );
    assert_eq!(
        write_command("d", Some((Dir::Input, "voltage0")), "rf_bandwidth", 7),
        "WRITE d INPUT voltage0 rf_bandwidth 7"
    );
    assert_eq!(open_command("d", 16384, 3, false), "OPEN d 16384 00000003");
    assert_eq!(open_command("d", 16384, 3, true), "OPEN d 16384 00000003 CYCLIC");
    assert_eq!(close_command("d"), "CLOSE d");
    assert_eq!(readbuf_command("d", 65536), "READBUF d 65536");
    assert_eq!(writebuf_command("d", 65536), "WRITEBUF d 65536");
}

#[test]
fn iiod_return_codes() {
    assert_eq!(parse_retcode(" -110\n"), Some(-110));
    assert_eq!(parse_retcode("42"), Some(42));
    assert_eq!(parse_retcode("4x"), None);
    assert_eq!(parse_retcode("-9223372036854775808"), Some(i64::MIN));
    assert_eq!(parse_retcode("9223372036854775808"), None);
    assert_eq!(check_retcode(5), Ok(5));
    assert_eq!(check_retcode(-5), Err(-5));
}

#[test]
fn lines_and_blocks_from_a_byte_stream() {
    let mut q = ByteQueue::new();
    q.push(b"\n\n12");
    assert_eq!(q.take_line(), None);
    q.push(b"3\nabcdef");
    assert_eq!(q.take_line(), Some(b"123".to_vec()));
    assert_eq!(q.take_exact(4), Some(b"abcd".to_vec()));
    assert_eq!(q.take_exact(4), None);
    q.push(b"gh");
    assert_eq!(q.take_exact(4), Some(b"efgh".to_vec()));
}

#[test]
fn a_buffer_is_read_in_pieces() {
    let mut r = ReadBuf::new(6, true);
    assert_eq!(r.need, Need::Retcode);
    assert_eq!(r.on_retcode(4), Ok(()));
    assert_eq!(r.need, Need::Mask(4));
    r.on_mask();
    assert_eq!(r.need, Need::Data(4));
    r.on_data(&[1, 2, 3, 4]);
    assert_eq!(r.need, Need::Retcode);
    assert_eq!(r.on_retcode(2), Ok(()));
    assert_eq!(r.need, Need::Data(2));
    r.on_data(&[5, 6]);
    assert_eq!(r.need, Need::Nothing);
    assert_eq!(r.out, vec![1, 2, 3, 4, 5, 6]);
    let mut e = ReadBuf::new(6, false);
    assert_eq!(e.on_retcode(-5), Err(-5));
    assert_eq!(e.need, Need::Nothing);
    let mut z = ReadBuf::new(6, false);
    assert_eq!(z.on_retcode(0), Ok(()));
    assert_eq!(z.need, Need::Nothing);
}

#[test]
fn devices_are_found_by_name() {
    let xml = r#"<context><device id="iio:device0" name="ad9361-phy" ><x/></device><device id="iio:device3" name="cf-ad9361-lpc" /></context>"#;
    assert_eq!(device_id_by_name(xml, "ad9361-phy"), Some("iio:device0".to_string()));
    assert_eq!(device_id_by_name(xml, "cf-ad9361-lpc"), Some("iio:device3".to_string()));
    assert_eq!(device_id_by_name(xml, "xadc"), None);
}

#[test]
fn requests_to_the_virtual_radio() {
    assert_eq!(parse_request("  \r\n"), Request::Empty);
    assert_eq!(parse_request("PRINT\r\n"), Request::Print);
    assert_eq!(parse_request("TIMEOUT 2500"), Request::Acknowledge);
    assert_eq!(parse_request("EXIT"), Request::Exit);
    assert_eq!(parse_request("READBUF d 64"), Request::ReadBuf { nbytes: 64 });
    assert_eq!(parse_request("WRITEBUF d 64"), Request::WriteBuf { nbytes: 64 });
    assert_eq!(parse_request("NONSENSE"), Request::Unknown);
}

#[test]
fn replies_of_the_virtual_radio() {
    assert_eq!(read_reply("manual"), "6\nmanual\n");
    assert_eq!(print_reply("<x/>"), "4\n<x/>");
    assert_eq!(count_reply(12), "12\n");
    let mut s = Session::new();
    let attrs = Attrs::new();
    assert_eq!(s.answer(&Request::Print, "<x/>", &attrs), Answer::Text("4\n<x/>".to_string()));
    assert_eq!(s.answer(&Request::Empty, "", &attrs), Answer::Silence);
    assert_eq!(s.answer(&Request::Exit, "", &attrs), Answer::HangUp);
    s.answer(&Request::Open { receive: true }, "", &attrs);
    assert!(s.new_client);
    // The mask comes with the first buffer after an OPEN only.
    assert_eq!(s.readbuf_header(64), "64\n00000003\n");
    assert_eq!(s.readbuf_header(64), "64\n");
}

#[test]
fn attributes_are_remembered() {
    let key = |s: &str| -> Vec<char> { s.chars().collect() };
    let mut a = Attrs::new();
    assert_eq!(a.get(&key("gain")), None);
    a.insert(key("gain"), key("-10"));
    a.insert(key("mode"), key("manual"));
    a.insert(key("gain"), key("-20"));
    assert_eq!(a.get(&key("gain")), Some("-20".to_string()));
    assert_eq!(a.get(&key("mode")), Some("manual".to_string()));
    assert_eq!(default_attr(&key("xo_correction")), "40000000");
}

#[test]
fn the_receive_stream_goes_on_where_it_stood() {
    let mut c = RxCursor::new();
    // Nobody opened it: the first read starts at the air clock.
    let p = c.begin_read(403, 1000, 2);
    assert_eq!(p, ReadPlan { from: 1000, n: 100, ready_at: 1000 + 100 + 2 * 16384 });
    c.end_read(&p);
    assert_eq!(c.next, Some(1100));
    assert_eq!(c.begin_read(8, 5000, 0).from, 1100);
    c.on_request(&Request::Open { receive: false }, 6000);
    assert_eq!(c.next, Some(1100));
    c.on_request(&Request::Open { receive: true }, 7000);
    assert_eq!(c.next, Some(7000));
}

#[test]
fn late_samples_are_lost() {
    let mut s: TxStream<i32> = TxStream::new();
    s.write(0, 1000, &[1, 2, 3]);
    let origin = s.origin;
    assert_eq!(s.sample(origin, 0), 1);
    assert_eq!(s.sample(origin + 3, 0), 0);
    assert_eq!(s.end(), origin + 3);
    s.write(0, 1000, &[4]);
    assert_eq!(s.sample(origin + 3, 0), 4);
    // Long after the end: the gap is silence.
    s.write(100_000, 1000, &[9]);
    assert!(s.end() > 100_000);
    assert_eq!(s.sample(s.end() - 1, 0), 9);
    assert_eq!(s.sample(origin, 0), 0);
    assert_eq!(rx_ready_at(100, 16384, 2), 100 + 3 * 16384);
    assert!(tx_may_write(16384, 0, 1));
    assert!(!tx_may_write(16385, 0, 1));
}

#[test]
fn adapters_are_picked_by_name() {
    let adapter = |guid: &str, name: &str| TapAdapter { guid: guid.to_string(), name: name.to_string() };
    let list = vec![adapter("{AB-1}", "TAP one"), adapter("{AB-2}", "TAP two")];
    assert_eq!(pick_adapter(&list, None), Ok(0));
    assert_eq!(pick_adapter(&list, Some("")), Ok(0));
    assert_eq!(pick_adapter(&list, Some("tap TWO")), Ok(1));
    assert_eq!(pick_adapter(&list, Some("{ab-2}")), Ok(1));
    assert_eq!(
        pick_adapter(&list, Some("definitely-not-an-adapter-name")),
        Err(PickError::NoSuchAdapter)
    );
    assert_eq!(pick_adapter(&vec![], Some("x")), Err(PickError::NotInstalled));
    let s = |t: &str| Some(t.to_string());
    let a = adapter_of(s("tap0901"), s("{G}"), None).unwrap();
    assert_eq!((a.guid.as_str(), a.name.as_str()), ("{G}", "{G}"));
    let b = adapter_of(s("tap0901"), s("{G}"), s("Net")).unwrap();
    assert_eq!(b.name, "Net");
    assert!(adapter_of(s("wintun"), s("{G}"), None).is_none());
    assert!(adapter_of(s("tap0901"), None, None).is_none());
    assert!(adapter_of(None, s("{G}"), None).is_none());
    assert_eq!(device_path("{G}"), r"\\.\Global\{G}.tap");
    assert_eq!(describe(&b, 1500), "tap-windows6 Net ({G}), mtu 1500");
}

#[test]
fn tap_numbers() {
    assert_eq!(TAP_WIN_IOCTL_SET_MEDIA_STATUS, 0x22_0018);
    assert_eq!(TAP_WIN_IOCTL_GET_MTU, 0x22_000c);
    assert_eq!(tap_ioctl(1), TAP_WIN_IOCTL_GET_MAC);
    assert_eq!(tap_ioctl(2), TAP_WIN_IOCTL_GET_VERSION);
    assert_eq!(tap_ioctl(3), TAP_WIN_IOCTL_GET_MTU);
    assert_eq!(tap_ioctl(6), TAP_WIN_IOCTL_SET_MEDIA_STATUS);
    assert_eq!((mtu_of(None), mtu_of(Some(0)), mtu_of(Some(9000))), (1500, 1500, 9000));
    assert_eq!((read_buffer_len(1514), read_buffer_len(4096)), (2048, 4096));
    assert_eq!((wait_ms(2), wait_ms(1 << 40)), (2, u32::MAX));
    assert_eq!((value_units(11, 512), value_units(5000, 512)), (5, 512));
}

#[test]
fn wide_texts() {
    for s in ["", "TAP-Windows Adapter V9", "\u{e9}\u{4e2d}\u{1F4E1}z", "\u{FFFF}\u{10FFFF}\u{10000}"] {
        let w = wide(s);
        let expect: Vec<u16> = s.encode_utf16().chain([0]).collect();
        assert_eq!(w, expect);
        assert_eq!(from_wide(&w), s);
        let mut longer = w.clone();
        longer.extend([65, 66, 0]);
        assert_eq!(from_wide(&longer), s);
    }
    let bad = [65u16, 0xD800, 66, 0xDC00, 0xD801];
    assert_eq!(from_wide(&bad), String::from_utf16_lossy(&bad));
    assert_eq!(from_wide(&bad), "A\u{FFFD}B\u{FFFD}\u{FFFD}");
}

#[test]
fn one_read_at_a_time() {
    let mut r = TapRead { pending: false };
    assert_eq!(r.begin(), ReadStep::Start);
    assert_eq!(r.on_started(true, 60, 0), ReadStep::Frame(60));
    assert_eq!(r.on_started(false, 0, 5), ReadStep::ReadFailed(5));
    assert_eq!(r.on_started(false, 0, ERROR_IO_PENDING), ReadStep::Wait);
    assert_eq!(r.begin(), ReadStep::Wait);
    assert_eq!(r.on_wait(258), ReadStep::NoFrame);
    assert_eq!(r.begin(), ReadStep::Wait);
    assert_eq!(r.on_wait(7), ReadStep::WaitFailed(7));
    assert_eq!(r.on_wait(0), ReadStep::Collect);
    assert_eq!(r.on_collected(true, 99, 0), ReadStep::Frame(99));
    assert_eq!(r.begin(), ReadStep::Start);
    let mut f = TapRead { pending: true };
    assert_eq!(f.on_collected(false, 0, 31), ReadStep::ReadFailed(31));
    assert!(!f.pending);
}
