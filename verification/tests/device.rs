use atk68::actuation::{self, Actuation};
use atk68::device::{
    self, check_set_key_rt, decode_info, decode_key_rt, first_data_byte, hex_dump, identify,
    is_config_interface, model_of, parse_hex_bytes, permission_hint, raw_request, rate_label,
    reply_data, report_rate_hz, request_frame, Found, ReadStep, Reading, ReplyError, ReplyWait,
    DEFAULT_STEP, MAX_REPLY_READS,
};
use atk68::device::op;
use atk68::i18n::Lang;
use atk68::text::IntErrorKind;

fn reply(cmd: u8, code: u8, data: &[u8]) -> [u8; 64] {
    let mut r = [0u8; 64];
    r[0] = cmd;
    r[1] = data.len() as u8;
    r[2] = code;
    r[3..3 + data.len()].copy_from_slice(data);
    r
}

#[test]
fn config_interfaces_are_known_vendor_pages() {
    assert!(is_config_interface(0x1A81, 0xFF01));
    assert!(is_config_interface(0x373B, 0xFF00));
    assert!(!is_config_interface(0x1A81, 0x0001));
    assert!(!is_config_interface(0x046D, 0xFF01));
}

#[test]
fn model_table_lookup() {
    let m = model_of(0x1A81, 0x207E).unwrap();
    assert_eq!(m.name, "ATK68");
    assert_eq!(m.step, 10);
    assert_eq!(model_of(0x1A81, 0x2083).unwrap().step, 2);
    assert_eq!(model_of(0x373B, 0x21B8).unwrap().name, "ATK68 V4");
    assert!(model_of(0x1234, 0x5678).is_none());
    assert_eq!(device::models().len(), 15);
}

#[test]
fn identify_uses_table_or_product_string() {
    let f = Found {
        vid: 0x373B,
        pid: 0x1005,
        product: "Gtech".to_string(),
        path: "/dev/hidraw3".to_string(),
        usage_page: 0xFF01,
    };
    let id = identify(&f);
    assert_eq!(id.name, "ATK68 Air");
    assert_eq!(id.travel_step, 2);
    let g = Found { pid: 0x9999, ..f };
    let id = identify(&g);
    assert_eq!(id.name, "Gtech");
    assert_eq!(id.travel_step, DEFAULT_STEP);
}

#[test]
fn request_frame_layout() {
    let f = request_frame(0x45, &[0, 0]).unwrap();
    assert_eq!(f.len(), 65);
    assert_eq!(&f[..4], &[0, 0x45, 0, 0]);
    assert!(f[4..].iter().all(|b| *b == 0));
    let f = request_frame(0x44, &[8, 1, 2, 3]).unwrap();
    assert_eq!(&f[..6], &[0, 0x44, 8, 1, 2, 3]);
    assert!(request_frame(0x44, &[0u8; 62]).is_ok());
    assert!(matches!(request_frame(0x44, &[0u8; 63]), Err(ReplyError::BodyTooLong)));
}

#[test]
fn reply_wait_accepts_only_matching_reply() {
    let mut w = ReplyWait::new(0x45);
    assert_eq!(w.on_report(64, &reply(op::DATA_REPORTED, 0, &[])), ReadStep::ReadAgain);
    assert_eq!(w.on_report(64, &reply(0x45, 0, &[1])), ReadStep::Accept);
    assert_eq!(w.reads, 2);

    let mut w = ReplyWait::new(0x45);
    assert_eq!(w.on_report(0, &[0u8; 64]), ReadStep::GiveUp);

    let mut w = ReplyWait::new(0x45);
    let other = reply(0x12, 0, &[]);
    for _ in 0..MAX_REPLY_READS - 1 {
        assert_eq!(w.on_report(64, &other), ReadStep::ReadAgain);
    }
    assert_eq!(w.on_report(64, &other), ReadStep::GiveUp);
    assert_eq!(w.reads, MAX_REPLY_READS);
}

#[test]
fn reply_data_is_capped() {
    let r = reply(0x45, 0, &[1, 2, 3]);
    assert_eq!(reply_data(&r), vec![1, 2, 3]);
    let mut big = [7u8; 64];
    big[1] = 200;
    assert_eq!(reply_data(&big).len(), 61);
    assert_eq!(first_data_byte(&r), 1);
    assert_eq!(first_data_byte(&reply(0x23, 0, &[])), 0);
}

#[test]
fn info_decodes_ids_and_version() {
    let r = reply(op::GET_KEYBOARD_INFO, 0, &[0x1A, 0x81, 0x20, 0x7E, 0, 0, 1, 0x25]);
    let info = decode_info(&r);
    assert_eq!(info.vid, 0x1A81);
    assert_eq!(info.pid, 0x207E);
    assert_eq!(info.version, "1.25");
    let r = reply(op::GET_KEYBOARD_INFO, 0, &[0, 0, 0, 0, 0, 0, 12, 0xAB]);
    assert_eq!(decode_info(&r).version, "12.ab");
}

#[test]
fn request_bodies() {
    let q = device::set_profile_request(2);
    assert_eq!((q.cmd, q.body), (op::SET_DEVICE_PROFILE, vec![1, 2]));
    let q = device::key_rt_request(1, 4);
    assert_eq!((q.cmd, q.body), (op::GET_ONE_FAST_TRIGGER, vec![2, 1, 4]));
    let q = device::set_key_rt_request(1, 4, 9);
    assert_eq!((q.cmd, q.body), (op::SET_ONE_FAST_TRIGGER, vec![3, 1, 4, 9]));
    let q = device::set_report_rate_request(6);
    assert_eq!((q.cmd, q.body), (op::SET_REPORT_RATE, vec![1, 6]));
    let q = device::report_rate_request();
    assert_eq!((q.cmd, q.body), (op::GET_REPORT_RATE, vec![0, 0]));
    let q = device::profile_request();
    assert_eq!((q.cmd, q.body), (op::GET_DEVICE_PROFILE, vec![0, 0]));
    let q = device::info_request();
    assert_eq!((q.cmd, q.body), (op::GET_KEYBOARD_INFO, vec![0, 0]));
}

#[test]
fn key_rt_replies() {
    assert_eq!(decode_key_rt(&reply(0x54, 0, &[5]), 1, 2), Ok(5));
    assert_eq!(decode_key_rt(&reply(0x54, 0xff, &[]), 1, 2), Err(ReplyError::NoKey(1, 2)));
    assert_eq!(check_set_key_rt(&reply(0x55, 0, &[]), 0, 0), Ok(()));
    assert_eq!(check_set_key_rt(&reply(0x55, 3, &[]), 7, 8), Err(ReplyError::KeyNotSet(7, 8)));
}

#[test]
fn raw_payload_split() {
    let q = raw_request(&[0x45, 0, 0]).unwrap();
    assert_eq!((q.cmd, q.body), (0x45, vec![0, 0]));
    assert!(matches!(raw_request(&[]), Err(ReplyError::EmptyPayload)));
    assert_eq!(parse_hex_bytes("45 00 00").unwrap(), vec![0x45, 0, 0]);
    assert_eq!(parse_hex_bytes("  4a\tff \n 7 ").unwrap(), vec![0x4a, 0xff, 7]);
    assert_eq!(parse_hex_bytes("").unwrap(), Vec::<u8>::new());
    assert_eq!(parse_hex_bytes("45 zz"), Err(IntErrorKind::InvalidDigit));
    assert_eq!(parse_hex_bytes("100"), Err(IntErrorKind::PosOverflow));
}

#[test]
fn hex_dump_layout() {
    let r = reply(0x45, 0, &[1, 0xab]);
    let d = hex_dump(&r);
    assert!(d.starts_with("reply:\n  45 02 00 01 ab 00 "));
    assert_eq!(d.matches('\n').count(), 4);
    assert_eq!(d.len(), "reply:".len() + 4 * 3 + 64 * 3);
}

#[test]
fn rate_labels() {
    assert_eq!(report_rate_hz(3), Some(1000));
    assert_eq!(report_rate_hz(7), None);
    assert_eq!(rate_label(6), "8000 Hz");
    assert_eq!(rate_label(9), "index 9");
}

#[test]
fn actuation_replies() {
    let a = actuation::decode_reply(&reply(0x43, 0, &[10, 3, 4])).unwrap();
    assert_eq!(a, Actuation { point: 10, down: 3, up: 4 });
    assert_eq!(
        actuation::decode_reply(&reply(0x43, 0, &[10, 3])),
        Err(ReplyError::Short(Reading::Actuation, 2))
    );
    assert_eq!(
        actuation::decode_reply(&reply(0x43, 1, &[10, 3, 4])),
        Err(ReplyError::Rejected(Reading::Actuation, 1))
    );
    let q = actuation::set_request(&a);
    assert_eq!((q.cmd, q.body), (op::SET_ALL_ACTUATION, vec![3, 10, 3, 4]));
    let q = actuation::get_request();
    assert_eq!((q.cmd, q.body), (op::GET_ALL_ACTUATION, vec![0, 0]));
}

#[test]
fn permission_hint_text() {
    assert_eq!(permission_hint("/dev/hidraw3", "denied", "/bin/atk68", false), "cannot open /dev/hidraw3: denied");
    let h = permission_hint("/dev/hidraw3", "denied", "/bin/atk68", true);
    assert!(h.starts_with("cannot open /dev/hidraw3: denied\nThe keyboard node needs access."));
    assert!(h.contains("\n      sudo setcap cap_dac_override+ep /bin/atk68\n"));
    assert!(h.contains("\n      sudo /bin/atk68 \u{2026}\n"));
    assert!(h.ends_with("(see README.md \u{2192} Linux permissions)"));
}

#[test]
fn protocol_error_texts() {
    assert_eq!(ReplyError::BodyTooLong.message(), "command body too long");
    assert_eq!(ReplyError::NoReply(0x4a).message(), "no reply for command 0x4a");
    assert_eq!(
        ReplyError::Rejected(Reading::Actuation, 0xff).message(),
        "keyboard returned error 0xff reading actuation"
    );
    assert_eq!(
        ReplyError::Rejected(Reading::Lighting, 1).message(),
        "keyboard returned error 0x01 reading lighting"
    );
    assert_eq!(ReplyError::Short(Reading::Actuation, 2).message(), "short actuation reply (2 bytes)");
    assert_eq!(ReplyError::Short(Reading::Lighting, 7).message(), "short light reply (7 bytes)");
    assert_eq!(ReplyError::NoKey(4, 14).message(), "no key at row 4, col 14");
    assert_eq!(
        ReplyError::KeyNotSet(0, 1).message(),
        "could not set rapid trigger at row 0, col 1"
    );
    assert_eq!(ReplyError::EmptyPayload.message(), "empty payload");
}

#[test]
fn actuation_lines_show_millimetres_and_raw_units() {
    let a = Actuation { point: 12, down: 3, up: 255 };
    assert_eq!(
        actuation::describe(Lang::En, &a, 10),
        vec![
            "  Actuation: 1.20 mm (12)".to_string(),
            "  Rapid trigger (press): 0.30 mm (3)".to_string(),
            "  Rapid trigger (release): 25.50 mm (255)".to_string(),
        ]
    );
    let fine = actuation::describe(Lang::Ko, &Actuation { point: 7, down: 0, up: 50 }, 2);
    assert_eq!(fine[0], "  작동점: 0.14 mm (7)");
    assert_eq!(fine[1], "  래피드 트리거(누름): 0.00 mm (0)");
    assert_eq!(fine[2], "  래피드 트리거(뗌): 1.00 mm (50)");
}

#[test]
fn actuation_lines_match_float_formatting_for_model_steps() {
    for step in [10u32, 2u32] {
        let f = step as f32 / 100.0;
        for raw in 0..=255u8 {
            let a = Actuation { point: raw, down: raw, up: raw };
            let lines = actuation::describe(Lang::En, &a, step);
            let expected = format!("  Actuation: {:.2} mm ({})", raw as f32 * f, raw);
            assert_eq!(lines[0], expected);
        }
    }
}

#[test]
fn actuation_command_keeps_unrequested_values() {
    let a = Actuation { point: 10, down: 3, up: 4 };
    assert_eq!(actuation::with_requested(a, None, None, None), None);
    assert_eq!(
        actuation::with_requested(a, Some(15), None, Some(2)),
        Some(Actuation { point: 15, down: 3, up: 2 })
    );
}
