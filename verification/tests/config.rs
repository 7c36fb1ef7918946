use atk68::actuation::Actuation;
use atk68::config::{nearest_rate, parse_bool, Config, ConfigError};
use atk68::device::op;
use atk68::light::{ColorError, Light};
use atk68::text::IntErrorKind;
use atk68::tweaks;

fn blank_config() -> Config {
    Config {
        light: Light {
            enabled: false,
            mode: 0,
            brightness: 0,
            speed: 0,
            rgb: (0, 0, 0),
            colorful: false,
        },
        act: Actuation { point: 1, down: 1, up: 1 },
        rate_index: 0,
        step: 10,
        tweaks: vec![0; tweaks::TOGGLE_COUNT],
        tweak_set: vec![false; tweaks::TOGGLE_COUNT],
    }
}

fn sample_config() -> Config {
    Config {
        light: Light {
            enabled: true,
            mode: 5,
            brightness: 6,
            speed: 2,
            rgb: (0xFF, 0x00, 0x80),
            colorful: false,
        },
        act: Actuation { point: 12, down: 3, up: 4 },
        rate_index: 6,
        step: 10,
        tweaks: vec![1, 0, 0, 1, 1, 0, 7],
        tweak_set: vec![true; tweaks::TOGGLE_COUNT],
    }
}

fn position(key: &str) -> usize {
    tweaks::toggles().iter().position(|t| t.key == key).unwrap()
}

/// The unit conversion the command-line tool applies to a millimetre text.
fn mm_to_raw(text: &str, step_hundredths: u32) -> Option<u8> {
    let step = step_hundredths as f32 / 100.0;
    let mm: f32 = text.parse().ok()?;
    let max = (4.0 / step).round().min(255.0);
    Some((mm / step).round().clamp(1.0, max) as u8)
}

#[test]
fn parses_tweak_overrides() {
    let mut cfg = blank_config();
    cfg.apply_overrides("tweak.rt = on\nlow-latency = 1\n", &[]).unwrap();
    let rt = position("rt");
    let low = position("low-latency");
    assert_eq!(cfg.tweaks[rt], 1);
    assert_eq!(cfg.tweaks[low], 1);
    assert!(cfg.tweak_set[rt] && cfg.tweak_set[low]);
}

#[test]
fn serialize_writes_every_setting() {
    let text = sample_config().serialize();
    let expected = "# atk68 profile \u{2014} apply with: atk68 apply <file>\n\
        light.enabled = true\n\
        light.effect = 5\n\
        light.brightness = 6\n\
        light.speed = 2\n\
        light.color = #FF0080\n\
        light.rainbow = false\n\
        actuation.point_mm = 1.2\n\
        actuation.press_mm = 0.3\n\
        actuation.release_mm = 0.4\n\
        rate.hz = 8000\n\
        tweak.winlock = on\n\
        tweak.wasd = off\n\
        tweak.mac = off\n\
        tweak.rt = on\n\
        tweak.low-latency = on\n\
        tweak.bottom-trigger = off\n\
        tweak.debounce = 7\n";
    assert_eq!(text, expected);
}

#[test]
fn serialize_fine_step_and_unlisted_rate() {
    let mut cfg = blank_config();
    cfg.step = 2;
    cfg.act = Actuation { point: 3, down: 2, up: 200 };
    cfg.rate_index = 9;
    let text = cfg.serialize();
    assert!(text.contains("actuation.point_mm = 0.06\n"));
    assert!(text.contains("actuation.press_mm = 0.04\n"));
    assert!(text.contains("actuation.release_mm = 4.00\n"));
    assert!(text.contains("rate.hz = 0\n"));
}

#[test]
fn export_then_apply_restores_fine_step_actuation() {
    // A 0.02 mm model: 3 and 5 units must export differently and come back.
    for (point, want) in [(3u8, "0.06"), (5u8, "0.10")] {
        let mut c = blank_config();
        c.step = 2;
        c.act = Actuation { point, down: point, up: point };
        let text = c.serialize();
        let texts = Config::mm_values(&text);
        assert_eq!(texts, vec![want.to_string(); 3]);
        let mm: Vec<Option<u8>> = texts.iter().map(|t| mm_to_raw(t, 2)).collect();
        let mut d = blank_config();
        d.step = 2;
        d.apply_overrides(&text, &mm).unwrap();
        assert_eq!(d.act, Actuation { point, down: point, up: point });
    }
}

#[test]
fn exported_millimetres_convert_back_within_travel() {
    // Every raw value the conversion can produce (1 up to 4 mm) comes back.
    for (step, max) in [(10u32, 40u8), (2u32, 200u8)] {
        for raw in 1..=max {
            let mut c = blank_config();
            c.step = step;
            c.act = Actuation { point: raw, down: raw, up: raw };
            let texts = Config::mm_values(&c.serialize());
            assert_eq!(mm_to_raw(&texts[0], step), Some(raw), "step {step} raw {raw}");
        }
    }
}

#[test]
fn export_then_apply_restores_settings() {
    let original = sample_config();
    let text = original.serialize();
    let mm_texts = Config::mm_values(&text);
    assert_eq!(mm_texts, vec!["1.2".to_string(), "0.3".to_string(), "0.4".to_string()]);
    let mm: Vec<Option<u8>> = mm_texts.iter().map(|t| mm_to_raw(t, original.step)).collect();
    let mut cfg = blank_config();
    cfg.apply_overrides(&text, &mm).unwrap();
    assert_eq!(cfg.light, original.light);
    assert_eq!(cfg.act, original.act);
    assert_eq!(cfg.rate_index, original.rate_index);
    assert_eq!(cfg.tweaks, original.tweaks);
    assert_eq!(cfg.tweak_set, vec![true; tweaks::TOGGLE_COUNT]);
}

#[test]
fn overrides_skip_comments_blank_and_unknown_lines() {
    let mut cfg = blank_config();
    let text = "# comment = 1\n\n   \nno equals sign\nunknown.key = 5\r\nlight.color = #0A0B0C\r\n  light.effect=  9  \n";
    cfg.apply_overrides(text, &[]).unwrap();
    assert_eq!(cfg.light.rgb, (0x0A, 0x0B, 0x0C));
    assert_eq!(cfg.light.mode, 9);
    assert_eq!(cfg.tweak_set, vec![false; tweaks::TOGGLE_COUNT]);
}

#[test]
fn overrides_report_the_first_bad_value() {
    let mut cfg = blank_config();
    let err = cfg
        .apply_overrides("light.effect = 3\nlight.brightness = 300\nlight.speed = x\n", &[])
        .unwrap_err();
    assert!(matches!(err, ConfigError::Int(IntErrorKind::PosOverflow)));
    assert_eq!(cfg.light.mode, 3);

    let mut cfg = blank_config();
    let err = cfg.apply_overrides("winlock = maybe\n", &[]).unwrap_err();
    match err {
        ConfigError::Value(b) => assert_eq!(b.value, "maybe"),
        other => panic!("unexpected {:?}", other),
    }

    let mut cfg = blank_config();
    let err = cfg.apply_overrides("light.color = red\n", &[]).unwrap_err();
    assert!(matches!(err, ConfigError::Color(ColorError::Format)));

    let mut cfg = blank_config();
    let err = cfg.apply_overrides("rate.hz = \n", &[]).unwrap_err();
    assert!(matches!(err, ConfigError::Int(IntErrorKind::Empty)));
}

#[test]
fn overrides_take_converted_millimetres_in_order() {
    let mut cfg = blank_config();
    let text = "actuation.release_mm = 0.5\nactuation.point_mm = 2.0\n";
    assert_eq!(Config::mm_values(text), vec!["0.5".to_string(), "2.0".to_string()]);
    cfg.apply_overrides(text, &[Some(5), Some(20)]).unwrap();
    assert_eq!(cfg.act, Actuation { point: 20, down: 1, up: 5 });

    let mut cfg = blank_config();
    let err = cfg.apply_overrides(text, &[Some(5), None]).unwrap_err();
    assert!(matches!(err, ConfigError::MmValue(1)));
    assert_eq!(cfg.act.up, 5);

    let mut cfg = blank_config();
    let err = cfg.apply_overrides(text, &[]).unwrap_err();
    assert!(matches!(err, ConfigError::MmValue(0)));
}

#[test]
fn rate_override_picks_nearest_index() {
    let mut cfg = blank_config();
    cfg.apply_overrides("rate.hz = 1100\n", &[]).unwrap();
    assert_eq!(cfg.rate_index, 3);
}

#[test]
fn parse_bool_accepts_only_true_words() {
    assert!(parse_bool("TRUE"));
    assert!(parse_bool("1"));
    assert!(parse_bool("On"));
    assert!(parse_bool("yes"));
    assert!(!parse_bool("0"));
    assert!(!parse_bool("false"));
    assert!(!parse_bool("whatever"));
}

#[test]
fn nearest_rate_prefers_closest_then_earliest() {
    assert_eq!(nearest_rate(1000), 3);
    assert_eq!(nearest_rate(0), 0);
    assert_eq!(nearest_rate(99_999), 6);
    assert_eq!(nearest_rate(187), 0);
    assert_eq!(nearest_rate(188), 1);
    assert_eq!(nearest_rate(375), 1);
    for (i, hz) in [125u32, 250, 500, 1000, 2000, 4000, 8000].iter().enumerate() {
        assert_eq!(nearest_rate(*hz) as usize, i);
    }
}

#[test]
fn apply_writes_only_set_toggles_and_changed_rate() {
    let mut cfg = blank_config();
    let reqs = cfg.requests();
    assert_eq!(reqs.len(), 2);
    assert_eq!(reqs[0].cmd, op::SET_LIGHT);
    assert_eq!(reqs[0].body, vec![8, 0, 0, 0, 0, 0, 0, 0, 0, 0]);
    assert_eq!(reqs[1].cmd, op::SET_ALL_ACTUATION);
    assert_eq!(reqs[1].body, vec![3, 1, 1, 1]);

    cfg.apply_overrides("tweak.mac = 1\n", &[]).unwrap();
    let reqs = cfg.requests();
    assert_eq!(reqs.len(), 3);
    assert_eq!(reqs[2].cmd, 0x1C);
    assert_eq!(reqs[2].body, vec![1, 1]);

    assert!(cfg.rate_request(0).is_none());
    let r = cfg.rate_request(4).unwrap();
    assert_eq!(r.cmd, op::SET_REPORT_RATE);
    assert_eq!(r.body, vec![1, 0]);
}

#[test]
fn new_config_has_every_toggle_unset() {
    let light = sample_config().light;
    let mut cfg = Config::new(light, Actuation { point: 10, down: 2, up: 2 }, 3, 10);
    assert_eq!(cfg.tweaks, vec![0; tweaks::TOGGLE_COUNT]);
    assert_eq!(cfg.tweak_set, vec![false; tweaks::TOGGLE_COUNT]);
    cfg.set_tweak(2, 1);
    assert_eq!(cfg.tweaks[2], 1);
    assert!(cfg.tweak_set[2]);
}

#[test]
fn millimetres_render_like_float_formatting_for_model_steps() {
    // One decimal at 0.1 mm, two at 0.02 mm: the float rendering with that
    // many decimals, which is exact at these steps.
    for (step, decimals) in [(10u32, 1usize), (2u32, 2usize)] {
        let step_mm = step as f32 / 100.0;
        for raw in 0..=255u8 {
            let mut cfg = blank_config();
            cfg.step = step;
            cfg.act = Actuation { point: raw, down: raw, up: raw };
            let text = cfg.serialize();
            let want = format!("actuation.point_mm = {:.*}\n", decimals, raw as f32 * step_mm);
            assert!(text.contains(&want), "step {step} raw {raw}");
        }
    }
}

fn same_settings(a: &Config, b: &Config) -> bool {
    a.light == b.light
        && a.act == b.act
        && a.rate_index == b.rate_index
        && a.step == b.step
        && a.tweaks == b.tweaks
        && a.tweak_set == b.tweak_set
}

#[test]
fn applying_a_profile_twice_is_applying_it_once() {
    let text = "light.brightness = 2\nwinlock = on\nlight.brightness = 7\nactuation.press_mm = 0.3\nrate.hz = 300\n";
    let mm = [Some(3u8)];
    let mut once = sample_config();
    once.apply_overrides(text, &mm).unwrap();
    let mut twice = sample_config();
    twice.apply_overrides(text, &mm).unwrap();
    twice.apply_overrides(text, &mm).unwrap();
    assert!(same_settings(&once, &twice));
    assert_eq!(once.light.brightness, 7);
    assert_eq!(once.act.down, 3);
    assert_eq!(once.rate_index, 1);

    let refused = "light.speed = 3\nlight.effect = x\nlight.mode = 1\n";
    let mut once = blank_config();
    let e1 = once.apply_overrides(refused, &[]).unwrap_err();
    let mut twice = blank_config();
    twice.apply_overrides(refused, &[]).unwrap_err();
    let e2 = twice.apply_overrides(refused, &[]).unwrap_err();
    assert!(same_settings(&once, &twice));
    assert!(matches!(e1, ConfigError::Int(IntErrorKind::InvalidDigit)));
    assert!(matches!(e2, ConfigError::Int(IntErrorKind::InvalidDigit)));
    assert_eq!(once.light.speed, 3);
}

#[test]
fn profile_writes_do_not_depend_on_prior_settings() {
    let text = "light.color = 1,2,3\ntweak.debounce = 9\n";
    let mut a = blank_config();
    let mut b = sample_config();
    a.apply_overrides(text, &[]).unwrap();
    b.apply_overrides(text, &[]).unwrap();
    assert_eq!(a.light.rgb, b.light.rgb);
    let d = position("debounce");
    assert_eq!((a.tweaks[d], a.tweak_set[d]), (9, true));
    assert_eq!((b.tweaks[d], b.tweak_set[d]), (9, true));
    // Fields the text does not name keep their values.
    assert_eq!(a.light.mode, 0);
    assert_eq!(b.light.mode, 5);
    assert_eq!(b.act, sample_config().act);
}

#[test]
fn profile_error_texts() {
    let mut cfg = blank_config();
    let e = cfg.apply_overrides("light.speed = 999\n", &[]).unwrap_err();
    assert_eq!(e.message().unwrap(), "number too large to fit in target type");
    let e = cfg.apply_overrides("mac = sometimes\n", &[]).unwrap_err();
    assert_eq!(e.message().unwrap(), "bad value 'sometimes' (on/off/number)");
    let e = cfg.apply_overrides("light.color = #GG0000\n", &[]).unwrap_err();
    assert_eq!(e.message().unwrap(), "invalid digit found in string");
    let e = cfg.apply_overrides("actuation.up_mm = 1\nactuation.release_mm = x\n", &[None]).unwrap_err();
    assert!(matches!(e, ConfigError::MmValue(0)));
    assert!(e.message().is_none());
}

#[test]
fn pushing_settings_never_touches_flash() {
    let reqs = sample_config().requests();
    assert_eq!(reqs.len(), 2 + tweaks::TOGGLE_COUNT);
    let cmds: Vec<u8> = reqs.iter().map(|r| r.cmd).collect();
    assert_eq!(cmds, vec![0x44, 0x42, 0x1E, 0x1A, 0x1C, 0x5E, 0x28, 0x2A, 0x26]);
    assert!(cmds.iter().all(|c| *c != 0x21 && *c != 0x22));
}

#[test]
fn overrides_need_slots_only_for_named_toggles() {
    let mut cfg = blank_config();
    cfg.tweaks = Vec::new();
    cfg.tweak_set = Vec::new();
    cfg.apply_overrides("light.effect = 4\nrate.hz = 500\n", &[]).unwrap();
    assert_eq!(cfg.light.mode, 4);
    assert_eq!(cfg.rate_index, 2);
    // A toggle line with a bad value is refused before any slot is touched.
    let err = cfg.apply_overrides("winlock = maybe\n", &[]).unwrap_err();
    assert!(matches!(err, ConfigError::Value(_)));
}
