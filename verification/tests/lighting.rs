use atk68::device::{op, ReplyError, Reading};
use atk68::i18n::Lang;
use atk68::light::{self, apply_args, parse_rgb, ColorError, Light, LightArgs};
use atk68::text::IntErrorKind;

fn reply(code: u8, data: &[u8]) -> [u8; 64] {
    let mut r = [0u8; 64];
    r[0] = op::GET_LIGHT;
    r[1] = data.len() as u8;
    r[2] = code;
    r[3..3 + data.len()].copy_from_slice(data);
    r
}

fn sample() -> Light {
    Light { enabled: true, mode: 1, brightness: 4, speed: 2, rgb: (1, 2, 3), colorful: false }
}

fn no_args() -> LightArgs {
    LightArgs {
        on: false,
        off: false,
        color: None,
        brightness: None,
        speed: None,
        effect: None,
        rainbow: false,
        no_rainbow: false,
    }
}

#[test]
fn parse_rgb_reads_hex_and_triples() {
    assert_eq!(parse_rgb("#00ff00").unwrap(), (0, 255, 0));
    assert_eq!(parse_rgb("  #FF0080 ").unwrap(), (255, 0, 128));
    assert_eq!(parse_rgb("255, 0,10").unwrap(), (255, 0, 10));
}

#[test]
fn parse_rgb_takes_only_hex_digits_after_hash() {
    assert_eq!(parse_rgb("#+12345"), Err(ColorError::Int(IntErrorKind::InvalidDigit)));
    assert_eq!(parse_rgb("#+FFFFF"), Err(ColorError::Int(IntErrorKind::InvalidDigit)));
    assert_eq!(parse_rgb("#-12345"), Err(ColorError::Int(IntErrorKind::InvalidDigit)));
    assert_eq!(parse_rgb("#12 345"), Err(ColorError::Int(IntErrorKind::InvalidDigit)));
}

#[test]
fn colours_read_back_from_their_renderings() {
    for (r, g, b) in [(0u8, 0u8, 0u8), (255, 128, 7), (1, 2, 3), (171, 205, 239)] {
        assert_eq!(parse_rgb(&format!("#{:02X}{:02X}{:02X}", r, g, b)), Ok((r, g, b)));
        assert_eq!(parse_rgb(&format!("#{:02x}{:02x}{:02x}", r, g, b)), Ok((r, g, b)));
        assert_eq!(parse_rgb(&format!("{},{},{}", r, g, b)), Ok((r, g, b)));
    }
}

#[test]
fn parse_rgb_errors() {
    assert_eq!(parse_rgb("#12345"), Err(ColorError::HexLength));
    assert_eq!(parse_rgb("#\u{e9}\u{e9}\u{e9}"), Err(ColorError::Int(IntErrorKind::InvalidDigit)));
    assert_eq!(parse_rgb("#GGGGGG"), Err(ColorError::Int(IntErrorKind::InvalidDigit)));
    assert_eq!(parse_rgb("1,2"), Err(ColorError::Format));
    assert_eq!(parse_rgb("300,0,0"), Err(ColorError::Int(IntErrorKind::PosOverflow)));
    assert_eq!(parse_rgb("1,,3"), Err(ColorError::Int(IntErrorKind::Empty)));
    assert_eq!(parse_rgb("red"), Err(ColorError::Format));
}

#[test]
fn light_body_layout() {
    let l = Light { enabled: true, mode: 5, brightness: 6, speed: 2, rgb: (9, 8, 7), colorful: true };
    assert_eq!(l.body(), [8, 1, 5, 6, 2, 9, 8, 7, 0, 1]);
    let q = light::set_request(&l);
    assert_eq!(q.cmd, op::SET_LIGHT);
    assert_eq!(q.body, vec![8, 1, 5, 6, 2, 9, 8, 7, 0, 1]);
    let g = light::get_request();
    assert_eq!(g.cmd, op::GET_LIGHT);
    assert_eq!(g.body, vec![0, 0]);
}

#[test]
fn light_readback_decodes_written_fields() {
    let l = Light { enabled: true, mode: 5, brightness: 6, speed: 2, rgb: (9, 8, 7), colorful: true };
    let b = l.body();
    let data = [b[1], b[2], b[3], b[4], b[5], b[6], b[7], b[9]];
    assert_eq!(light::decode_reply(&reply(0, &data)), Ok(l));
}

#[test]
fn light_reply_errors() {
    assert_eq!(light::decode_reply(&reply(0xff, &[])), Err(ReplyError::Rejected(Reading::Lighting, 0xff)));
    assert_eq!(light::decode_reply(&reply(0, &[1, 2, 3])), Err(ReplyError::Short(Reading::Lighting, 3)));
    assert_eq!(Light::decode(&[2, 3, 4, 5, 6, 7, 8, 9, 10]).unwrap().colorful, true);
}

#[test]
fn apply_args_without_changes_only_shows() {
    assert_eq!(apply_args(sample(), &no_args()), Ok(None));
}

#[test]
fn apply_args_caps_and_orders_flags() {
    let mut a = no_args();
    a.on = true;
    a.off = true;
    a.brightness = Some(20);
    a.speed = Some(9);
    a.effect = Some(5);
    a.rainbow = true;
    a.no_rainbow = true;
    a.color = Some("#ff0000".to_string());
    let l = apply_args(sample(), &a).unwrap().unwrap();
    assert_eq!(
        l,
        Light { enabled: false, mode: 5, brightness: 8, speed: 4, rgb: (255, 0, 0), colorful: false }
    );
    let mut b = no_args();
    b.rainbow = true;
    b.brightness = Some(3);
    let l = apply_args(sample(), &b).unwrap().unwrap();
    assert!(l.colorful);
    assert_eq!(l.brightness, 3);
}

#[test]
fn apply_args_reports_bad_colour() {
    let mut a = no_args();
    a.color = Some("#12".to_string());
    assert_eq!(apply_args(sample(), &a), Err(ColorError::HexLength));
}

#[test]
fn describe_lists_lighting_lines() {
    let l = Light { enabled: true, mode: 5, brightness: 6, speed: 2, rgb: (255, 0, 128), colorful: false };
    let lines = light::describe(Lang::En, &l);
    assert_eq!(
        lines,
        vec![
            "Lighting: on".to_string(),
            "  Effect: Reactive (5)".to_string(),
            "  Brightness: 6/8".to_string(),
            "  Speed: 2/4".to_string(),
            "  Color: #FF0080".to_string(),
            "  Rainbow: false".to_string(),
        ]
    );
    let off = Light { enabled: false, mode: 42, ..l };
    let lines = light::describe(Lang::Ko, &off);
    assert_eq!(lines[0], "조명: off");
    assert_eq!(lines[1], "  효과: effect 42 (42)");
}

#[test]
fn colour_error_texts() {
    assert_eq!(ColorError::HexLength.message(), "hex color must be #RRGGBB");
    assert_eq!(ColorError::Format.message(), "color must be #RRGGBB or r,g,b");
    assert_eq!(
        ColorError::Int(IntErrorKind::InvalidDigit).message(),
        "invalid digit found in string"
    );
    let e = parse_rgb("#12345").unwrap_err();
    assert_eq!(e.message(), "hex color must be #RRGGBB");
}
