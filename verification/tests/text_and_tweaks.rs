use atk68::i18n::{effect_name, tr, Lang};
use atk68::text::{chars_of, lines_of, trim_chars, IntErrorKind};
use atk68::tweaks::{self, parse_assignment, parse_value, status_line, TweakError};

fn s(v: &[char]) -> String {
    v.iter().collect()
}

#[test]
fn trim_and_lines_follow_std() {
    let t = trim_chars(&chars_of("\u{3000}\t a b \r\n"));
    assert_eq!(s(&t), "a b");
    let ls = lines_of(&chars_of("a\r\nb\n\nc\r"));
    let got: Vec<String> = ls.iter().map(|l| s(l)).collect();
    let want: Vec<String> = "a\r\nb\n\nc\r".lines().map(|l| l.to_string()).collect();
    assert_eq!(got, want);
    assert!(lines_of(&chars_of("")).is_empty());
    assert_eq!(lines_of(&chars_of("x\n")).len(), 1);
}

#[test]
fn parse_value_words_and_numbers() {
    assert_eq!(parse_value("on").ok(), Some(1));
    assert_eq!(parse_value("OFF").ok(), Some(0));
    assert_eq!(parse_value("Yes").ok(), Some(1));
    assert_eq!(parse_value("no").ok(), Some(0));
    assert_eq!(parse_value("3").ok(), Some(3));
    assert_eq!(parse_value("+7").ok(), Some(7));
    assert_eq!(parse_value("bad").unwrap_err().value, "bad");
    assert_eq!(parse_value("256").unwrap_err().value, "256");
}

#[test]
fn toggle_table_and_find() {
    let t = tweaks::find("rt").unwrap();
    assert_eq!((t.get, t.set), (0x5D, 0x5E));
    assert!(tweaks::find("nope").is_none());
    assert_eq!(tweaks::toggles().len(), tweaks::TOGGLE_COUNT);
    let q = tweaks::set_request(&t, 1);
    assert_eq!((q.cmd, q.body), (0x5E, vec![1, 1]));
    let q = tweaks::get_request(&t);
    assert_eq!((q.cmd, q.body), (0x5D, vec![0, 0]));
}

#[test]
fn assignments() {
    let (t, v) = parse_assignment("winlock=on").unwrap();
    assert_eq!((t.key, v), ("winlock", 1));
    let (t, v) = parse_assignment(" debounce = 5 ").unwrap();
    assert_eq!((t.key, v), ("debounce", 5));
    assert!(matches!(parse_assignment("rt"), Err(TweakError::NoAssignment)));
    match parse_assignment("nope =1") {
        Err(TweakError::UnknownSetting(k)) => assert_eq!(k, "nope "),
        other => panic!("unexpected {:?}", other.map(|(t, v)| (t.key, v))),
    }
    match parse_assignment("rt= maybe") {
        Err(TweakError::BadValue(b)) => assert_eq!(b.value, "maybe"),
        other => panic!("unexpected {:?}", other.map(|(t, v)| (t.key, v))),
    }
}

#[test]
fn status_lines_pad_like_format() {
    let t = tweaks::find("mac").unwrap();
    assert_eq!(status_line(&t, 1), format!("  {:<15} {:<4}  ({})", "mac", "on", t.help));
    let t = tweaks::find("debounce").unwrap();
    assert_eq!(status_line(&t, 12), format!("  {:<15} {:<4}  ({})", "debounce", "12", t.help));
    assert_eq!(status_line(&t, 0), format!("  {:<15} {:<4}  ({})", "debounce", "off", t.help));
}

#[test]
fn languages() {
    assert_eq!(Lang::parse("ko_KR.UTF-8", ""), Lang::Ko);
    assert_eq!(Lang::parse("auto", "ja_JP.UTF-8"), Lang::Ja);
    assert_eq!(Lang::parse("AUTO", ""), Lang::En);
    assert_eq!(Lang::parse("ZH", "ko"), Lang::Zh);
    assert_eq!(Lang::parse("fr", "ko"), Lang::En);
    assert_eq!(Lang::parse("\u{212A}o", ""), Lang::Ko);
    assert_eq!(Lang::Zh.idx(), 3);
}

#[test]
fn translations() {
    assert_eq!(tr(Lang::Ko, "lighting"), "조명");
    assert_eq!(tr(Lang::En, "rt_press"), "Rapid trigger (press)");
    assert_eq!(tr(Lang::Ja, "unknown_key"), "unknown_key");
    assert_eq!(effect_name(Lang::En, 5), "Reactive");
    assert_eq!(effect_name(Lang::Zh, 0), "光谱循环");
    assert_eq!(effect_name(Lang::En, 11), "effect 11");
    assert_eq!(effect_name(Lang::Ko, 255), "effect 255");
}

#[test]
fn setting_error_texts() {
    assert_eq!(parse_assignment("winlock").unwrap_err().message(), "use name=value");
    assert_eq!(
        parse_assignment(" nope =1").unwrap_err().message(),
        "unknown setting ' nope '"
    );
    assert_eq!(
        parse_assignment("rt= maybe ").unwrap_err().message(),
        "bad value 'maybe' (on/off/number)"
    );
    assert_eq!(parse_value("-1").unwrap_err().message(), "bad value '-1' (on/off/number)");
}

#[test]
fn integer_error_texts() {
    assert_eq!(IntErrorKind::Empty.message(), "cannot parse integer from empty string");
    assert_eq!(IntErrorKind::InvalidDigit.message(), "invalid digit found in string");
    assert_eq!(IntErrorKind::PosOverflow.message(), "number too large to fit in target type");
}
