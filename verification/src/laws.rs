//! Properties the library keeps across functions, proved over the spec
//! functions that the operations' contracts use.

use crate::actuation::{self, Actuation};
use crate::config::{
    apply_entry, apply_plan, classify, dist, has_toggles, join_lines, key_of,
    lemma_classify_toggle, lemma_nearest_among, lemma_run_lines_step, min3, mm_hundredths,
    mm_text, mm_texts, nearest_among, profile_lines, rate_hz_or_zero, run_lines,
    spec_apply_overrides, spec_nearest_rate, spec_parse_bool, spec_serialize, tweak_line,
    tweak_plan, ConfigFault, ConfigState, Key,
};
use crate::device::{
    frame, known_vids, model_table, op, rate_table, spec_first_data_byte, spec_reply_data, ReplyError, RATE_COUNT,
    REPORT_LEN,
};
use crate::light::{
    self, changed_light, rgb_of, spec_parse_rgb, ColorError, Light, LightArgs, BRIGHTNESS_MAX,
    SPEED_MAX,
};
use crate::i18n::{lang_index, spec_parse_lang, Lang};
use crate::text::{
    ascii_lower, ascii_lower_char, bool_text, dec, eq_ignore_ascii_case, digit_char, digit_value, hex2_lower, hex2_upper,
    is_ascii, is_digit, is_ws, lemma_dec, lemma_digit_char, lemma_find_at, lemma_hex_digit_lower,
    lemma_hex_digit_upper, lemma_parse_dec, lemma_parse_digits_concat, lemma_parse_hex2,
    lemma_parse_hex2_lower, lemma_split_kv, lemma_trim_space_after, lemma_trim_space_before,
    lemma_trim_unchanged, lines, parse_digits, parse_u32, parse_u8, plain, split, strip_cr,
    strip_prefix, to_lower, utf8_len, IntErrorKind,
};
use crate::tweaks::{index_in, shown_value, spec_parse_value, toggle_table, Toggle, TOGGLE_COUNT};
use vstd::prelude::*;

verus! {

pub open spec fn key_char(c: char) -> bool {
    &&& !is_ws(c)
    &&& c != '='
    &&& c != '\n'
    &&& c != '\r'
    &&& c != '#'
}

/// Text that can stand as a profile key.
pub open spec fn key_text(s: Seq<char>) -> bool {
    &&& s.len() > 0
    &&& forall|i: int| 0 <= i < s.len() ==> key_char(#[trigger] s[i])
}

pub open spec fn no_newline(s: Seq<char>) -> bool {
    forall|i: int| 0 <= i < s.len() ==> #[trigger] s[i] != '\n'
}

/// Text that `lines` gives back unchanged as one line.
pub open spec fn line_ok(l: Seq<char>) -> bool {
    &&& no_newline(l)
    &&& (l.len() == 0 || l.last() != '\r')
}

/// Text that can stand as a profile value: not blank at either end, on one
/// line.
pub open spec fn value_text(v: Seq<char>) -> bool {
    &&& v.len() > 0
    &&& !is_ws(v[0])
    &&& !is_ws(v.last())
    &&& v.last() != '\r'
    &&& no_newline(v)
}

proof fn lemma_join_front(ls: Seq<Seq<char>>)
    requires
        ls.len() > 0,
    ensures
        join_lines(ls) == ls[0] + seq!['\n'] + join_lines(ls.drop_first()),
    decreases ls.len(),
{
    if ls.len() == 1 {
        assert(ls.drop_last().len() == 0);
        assert(ls.drop_first().len() == 0);
        assert(join_lines(ls.drop_last()) =~= Seq::<char>::empty());
        assert(join_lines(ls) =~= ls[0] + seq!['\n'] + join_lines(ls.drop_first()));
    } else {
        lemma_join_front(ls.drop_last());
        assert(ls.drop_last()[0] == ls[0]);
        assert(ls.drop_last().drop_first() =~= ls.drop_first().drop_last());
        assert(ls.drop_first().last() == ls.last());
        assert(join_lines(ls.drop_first()) == join_lines(ls.drop_first().drop_last())
            + ls.drop_first().last() + seq!['\n']);
        assert(join_lines(ls) =~= ls[0] + seq!['\n'] + join_lines(ls.drop_first()));
    }
}

/// Lines joined with line feeds split back into the same lines.
pub proof fn lemma_lines_join(ls: Seq<Seq<char>>)
    requires
        forall|i: int| 0 <= i < ls.len() ==> line_ok(#[trigger] ls[i]),
    ensures
        lines(join_lines(ls)) == ls,
    decreases ls.len(),
{
    if ls.len() == 0 {
        assert(lines(join_lines(ls)) =~= ls);
    } else {
        lemma_join_front(ls);
        let l0 = ls[0];
        let rest = join_lines(ls.drop_first());
        let s = l0 + seq!['\n'] + rest;
        assert(line_ok(ls[0]));
        assert forall|j: int| 0 <= j < l0.len() implies s[j] != '\n' by {
            assert(s[j] == l0[j]);
        }
        assert(s[l0.len() as int] == '\n');
        lemma_find_at(s, '\n', l0.len() as int);
        assert(s.subrange(0, l0.len() as int) =~= l0);
        assert(s.subrange(l0.len() as int + 1, s.len() as int) =~= rest);
        assert(strip_cr(l0) == l0);
        assert forall|i: int| 0 <= i < ls.drop_first().len() implies line_ok(
            #[trigger] ls.drop_first()[i],
        ) by {
            assert(ls.drop_first()[i] == ls[i + 1]);
        }
        lemma_lines_join(ls.drop_first());
        assert(lines(s) == seq![l0] + lines(rest));
        assert(seq![l0] + ls.drop_first() =~= ls);
    }
}

/// What a `key = value` line says.
pub proof fn lemma_classify_kv(key: Seq<char>, v: Seq<char>)
    requires
        key_text(key),
        value_text(v),
    ensures
        classify(key + seq![' ', '=', ' '] + v) == (match key_of(key) {
            Some(k) => Some((k, v)),
            None => None,
        }),
        line_ok(key + seq![' ', '=', ' '] + v),
{
    reveal(classify);
    let l = key + seq![' ', '=', ' '] + v;
    assert(key_char(key[0]));
    assert(key_char(key.last()));
    assert(l[0] == key[0]);
    assert(l.last() == v.last());
    lemma_trim_unchanged(l);
    assert forall|i: int| 0 <= i < key.len() implies key[i] != '=' by {
        assert(key_char(key[i]));
    }
    lemma_split_kv(key, v);
    lemma_trim_space_after(key);
    lemma_trim_space_before(v);
    assert forall|i: int| 0 <= i < l.len() implies #[trigger] l[i] != '\n' by {
        if i < key.len() {
            assert(l[i] == key[i]);
            assert(key_char(key[i]));
        } else if i >= key.len() + 3 {
            assert(l[i] == v[i - key.len() - 3]);
        }
    }
}

/// The first toggle of `s` whose key differs from every earlier one is found
/// at its own index.
pub proof fn lemma_index_in_distinct(s: Seq<Toggle>, i: int)
    requires
        0 <= i < s.len(),
        forall|j: int| 0 <= j < i ==> (#[trigger] s[j]).key@ != s[i].key@,
    ensures
        index_in(s, s[i].key@) == Some(i),
    decreases i,
{
    if i > 0 {
        let t = s.drop_first();
        assert(s[0].key@ != s[i].key@);
        assert forall|j: int| 0 <= j < i - 1 implies (#[trigger] t[j]).key@ != t[i - 1].key@ by {
            assert(t[j] == s[j + 1]);
            assert(t[i - 1] == s[i]);
        }
        lemma_index_in_distinct(t, i - 1);
        assert(t[i - 1] == s[i]);
    }
}

/// A key no toggle of `s` has is not found.
pub proof fn lemma_index_in_none(s: Seq<Toggle>, key: Seq<char>)
    requires
        forall|j: int| 0 <= j < s.len() ==> (#[trigger] s[j]).key@ != key,
    ensures
        index_in(s, key) is None,
    decreases s.len(),
{
    if s.len() > 0 {
        let t = s.drop_first();
        assert forall|j: int| 0 <= j < t.len() implies (#[trigger] t[j]).key@ != key by {
            assert(t[j] == s[j + 1]);
        }
        lemma_index_in_none(t, key);
    }
}

pub proof fn lemma_utf8_len_ascii(s: Seq<char>)
    requires
        forall|i: int| 0 <= i < s.len() ==> (#[trigger] s[i] as u32) < 0x80,
    ensures
        utf8_len(s) == s.len(),
    decreases s.len(),
{
    if s.len() > 0 {
        assert forall|i: int| 0 <= i < s.drop_first().len() implies (
        #[trigger] s.drop_first()[i] as u32) < 0x80 by {
            assert(s.drop_first()[i] == s[i + 1]);
        }
        lemma_utf8_len_ascii(s.drop_first());
        assert((s[0] as u32) < 0x80);
    }
}

/// Decimal text is a profile value, lower-cases to itself, and is no word.
pub proof fn lemma_dec_value(n: nat)
    ensures
        value_text(dec(n)),
        is_ascii(dec(n)),
        to_lower(dec(n)) == dec(n),
        is_digit(dec(n)[0]),
{
    lemma_dec(n);
    let d = dec(n);
    assert(plain(d[0]));
    assert(plain(d.last()));
    assert forall|i: int| 0 <= i < d.len() implies #[trigger] d[i] != '\n' by {
        assert(plain(d[i]));
    }
    assert forall|i: int| 0 <= i < d.len() implies (#[trigger] d[i] as u32) < 0x80 by {
        assert(plain(d[i]));
    }
    assert forall|i: int| 0 <= i < d.len() implies #[trigger] ascii_lower_char(d[i]) == d[i] by {
        assert(is_digit(d[i]));
    }
    assert(ascii_lower(d) =~= d);
}

/// Every profile key is plain key text.
pub proof fn lemma_key_texts()
    ensures
        key_text("light.enabled"@),
        key_text("light.effect"@),
        key_text("light.brightness"@),
        key_text("light.speed"@),
        key_text("light.color"@),
        key_text("light.rainbow"@),
        key_text("actuation.point_mm"@),
        key_text("actuation.press_mm"@),
        key_text("actuation.release_mm"@),
        key_text("rate.hz"@),
        key_text("winlock"@),
        key_text("wasd"@),
        key_text("mac"@),
        key_text("rt"@),
        key_text("low-latency"@),
        key_text("bottom-trigger"@),
        key_text("debounce"@),
        key_text("tweak."@),
{
    reveal_strlit("light.enabled");
    reveal_strlit("light.effect");
    reveal_strlit("light.brightness");
    reveal_strlit("light.speed");
    reveal_strlit("light.color");
    reveal_strlit("light.rainbow");
    reveal_strlit("actuation.point_mm");
    reveal_strlit("actuation.press_mm");
    reveal_strlit("actuation.release_mm");
    reveal_strlit("rate.hz");
    reveal_strlit("winlock");
    reveal_strlit("wasd");
    reveal_strlit("mac");
    reveal_strlit("rt");
    reveal_strlit("low-latency");
    reveal_strlit("bottom-trigger");
    reveal_strlit("debounce");
    reveal_strlit("tweak.");
    assert forall|i: int| 0 <= i < "light.enabled"@.len() implies key_char(#[trigger] "light.enabled"@[i]) by {
        assert(i == 0 || i == 1 || i == 2 || i == 3 || i == 4 || i == 5 || i == 6 || i == 7 || i == 8 || i == 9 || i == 10 || i == 11 || i == 12);
    }
    assert forall|i: int| 0 <= i < "light.effect"@.len() implies key_char(#[trigger] "light.effect"@[i]) by {
        assert(i == 0 || i == 1 || i == 2 || i == 3 || i == 4 || i == 5 || i == 6 || i == 7 || i == 8 || i == 9 || i == 10 || i == 11);
    }
    assert forall|i: int| 0 <= i < "light.brightness"@.len() implies key_char(#[trigger] "light.brightness"@[i]) by {
        assert(i == 0 || i == 1 || i == 2 || i == 3 || i == 4 || i == 5 || i == 6 || i == 7 || i == 8 || i == 9 || i == 10 || i == 11 || i == 12 || i == 13 || i == 14 || i == 15);
    }
    assert forall|i: int| 0 <= i < "light.speed"@.len() implies key_char(#[trigger] "light.speed"@[i]) by {
        assert(i == 0 || i == 1 || i == 2 || i == 3 || i == 4 || i == 5 || i == 6 || i == 7 || i == 8 || i == 9 || i == 10);
    }
    assert forall|i: int| 0 <= i < "light.color"@.len() implies key_char(#[trigger] "light.color"@[i]) by {
        assert(i == 0 || i == 1 || i == 2 || i == 3 || i == 4 || i == 5 || i == 6 || i == 7 || i == 8 || i == 9 || i == 10);
    }
    assert forall|i: int| 0 <= i < "light.rainbow"@.len() implies key_char(#[trigger] "light.rainbow"@[i]) by {
        assert(i == 0 || i == 1 || i == 2 || i == 3 || i == 4 || i == 5 || i == 6 || i == 7 || i == 8 || i == 9 || i == 10 || i == 11 || i == 12);
    }
    assert forall|i: int| 0 <= i < "actuation.point_mm"@.len() implies key_char(#[trigger] "actuation.point_mm"@[i]) by {
        assert(i == 0 || i == 1 || i == 2 || i == 3 || i == 4 || i == 5 || i == 6 || i == 7 || i == 8 || i == 9 || i == 10 || i == 11 || i == 12 || i == 13 || i == 14 || i == 15 || i == 16 || i == 17);
    }
    assert forall|i: int| 0 <= i < "actuation.press_mm"@.len() implies key_char(#[trigger] "actuation.press_mm"@[i]) by {
        assert(i == 0 || i == 1 || i == 2 || i == 3 || i == 4 || i == 5 || i == 6 || i == 7 || i == 8 || i == 9 || i == 10 || i == 11 || i == 12 || i == 13 || i == 14 || i == 15 || i == 16 || i == 17);
    }
    assert forall|i: int| 0 <= i < "actuation.release_mm"@.len() implies key_char(#[trigger] "actuation.release_mm"@[i]) by {
        assert(i == 0 || i == 1 || i == 2 || i == 3 || i == 4 || i == 5 || i == 6 || i == 7 || i == 8 || i == 9 || i == 10 || i == 11 || i == 12 || i == 13 || i == 14 || i == 15 || i == 16 || i == 17 || i == 18 || i == 19);
    }
    assert forall|i: int| 0 <= i < "rate.hz"@.len() implies key_char(#[trigger] "rate.hz"@[i]) by {
        assert(i == 0 || i == 1 || i == 2 || i == 3 || i == 4 || i == 5 || i == 6);
    }
    assert forall|i: int| 0 <= i < "winlock"@.len() implies key_char(#[trigger] "winlock"@[i]) by {
        assert(i == 0 || i == 1 || i == 2 || i == 3 || i == 4 || i == 5 || i == 6);
    }
    assert forall|i: int| 0 <= i < "wasd"@.len() implies key_char(#[trigger] "wasd"@[i]) by {
        assert(i == 0 || i == 1 || i == 2 || i == 3);
    }
    assert forall|i: int| 0 <= i < "mac"@.len() implies key_char(#[trigger] "mac"@[i]) by {
        assert(i == 0 || i == 1 || i == 2);
    }
    assert forall|i: int| 0 <= i < "rt"@.len() implies key_char(#[trigger] "rt"@[i]) by {
        assert(i == 0 || i == 1);
    }
    assert forall|i: int| 0 <= i < "low-latency"@.len() implies key_char(#[trigger] "low-latency"@[i]) by {
        assert(i == 0 || i == 1 || i == 2 || i == 3 || i == 4 || i == 5 || i == 6 || i == 7 || i == 8 || i == 9 || i == 10);
    }
    assert forall|i: int| 0 <= i < "bottom-trigger"@.len() implies key_char(#[trigger] "bottom-trigger"@[i]) by {
        assert(i == 0 || i == 1 || i == 2 || i == 3 || i == 4 || i == 5 || i == 6 || i == 7 || i == 8 || i == 9 || i == 10 || i == 11 || i == 12 || i == 13);
    }
    assert forall|i: int| 0 <= i < "debounce"@.len() implies key_char(#[trigger] "debounce"@[i]) by {
        assert(i == 0 || i == 1 || i == 2 || i == 3 || i == 4 || i == 5 || i == 6 || i == 7);
    }
    assert forall|i: int| 0 <= i < "tweak."@.len() implies key_char(#[trigger] "tweak."@[i]) by {
        assert(i == 0 || i == 1 || i == 2 || i == 3 || i == 4 || i == 5);
    }
}

/// Each fixed profile line starts with its key and ` = `.
pub proof fn lemma_line_literals()
    ensures
        " = "@ == seq![' ', '=', ' '],
        "light.enabled = "@ == "light.enabled"@ + seq![' ', '=', ' '],
        "light.effect = "@ == "light.effect"@ + seq![' ', '=', ' '],
        "light.brightness = "@ == "light.brightness"@ + seq![' ', '=', ' '],
        "light.speed = "@ == "light.speed"@ + seq![' ', '=', ' '],
        "light.color = #"@ == "light.color"@ + seq![' ', '=', ' ', '#'],
        "light.rainbow = "@ == "light.rainbow"@ + seq![' ', '=', ' '],
        "actuation.point_mm = "@ == "actuation.point_mm"@ + seq![' ', '=', ' '],
        "actuation.press_mm = "@ == "actuation.press_mm"@ + seq![' ', '=', ' '],
        "actuation.release_mm = "@ == "actuation.release_mm"@ + seq![' ', '=', ' '],
        "rate.hz = "@ == "rate.hz"@ + seq![' ', '=', ' '],
{
    reveal_strlit(" = ");
    reveal_strlit("light.color = #");
    reveal_strlit("light.enabled");
    reveal_strlit("light.enabled = ");
    assert("light.enabled = "@ =~= "light.enabled"@ + seq![' ', '=', ' ']);
    reveal_strlit("light.effect");
    reveal_strlit("light.effect = ");
    assert("light.effect = "@ =~= "light.effect"@ + seq![' ', '=', ' ']);
    reveal_strlit("light.brightness");
    reveal_strlit("light.brightness = ");
    assert("light.brightness = "@ =~= "light.brightness"@ + seq![' ', '=', ' ']);
    reveal_strlit("light.speed");
    reveal_strlit("light.speed = ");
    assert("light.speed = "@ =~= "light.speed"@ + seq![' ', '=', ' ']);
    reveal_strlit("light.color");
    reveal_strlit("light.color = ");
    assert("light.color = #"@ =~= "light.color"@ + seq![' ', '=', ' ', '#']);
    reveal_strlit("light.rainbow");
    reveal_strlit("light.rainbow = ");
    assert("light.rainbow = "@ =~= "light.rainbow"@ + seq![' ', '=', ' ']);
    reveal_strlit("actuation.point_mm");
    reveal_strlit("actuation.point_mm = ");
    assert("actuation.point_mm = "@ =~= "actuation.point_mm"@ + seq![' ', '=', ' ']);
    reveal_strlit("actuation.press_mm");
    reveal_strlit("actuation.press_mm = ");
    assert("actuation.press_mm = "@ =~= "actuation.press_mm"@ + seq![' ', '=', ' ']);
    reveal_strlit("actuation.release_mm");
    reveal_strlit("actuation.release_mm = ");
    assert("actuation.release_mm = "@ =~= "actuation.release_mm"@ + seq![' ', '=', ' ']);
    reveal_strlit("rate.hz");
    reveal_strlit("rate.hz = ");
    assert("rate.hz = "@ =~= "rate.hz"@ + seq![' ', '=', ' ']);
    assert(" = "@ =~= seq![' ', '=', ' ']);
}

/// The fixed keys name their settings.
pub proof fn lemma_key_of_fixed()
    ensures
        key_of("light.enabled"@) == Some(Key::LightEnabled),
        key_of("light.effect"@) == Some(Key::LightEffect),
        key_of("light.brightness"@) == Some(Key::LightBrightness),
        key_of("light.speed"@) == Some(Key::LightSpeed),
        key_of("light.color"@) == Some(Key::LightColor),
        key_of("light.rainbow"@) == Some(Key::LightRainbow),
        key_of("actuation.point_mm"@) == Some(Key::PointMm),
        key_of("actuation.press_mm"@) == Some(Key::PressMm),
        key_of("actuation.release_mm"@) == Some(Key::ReleaseMm),
        key_of("rate.hz"@) == Some(Key::RateHz),
{
    reveal_strlit("tweak.");
    reveal_strlit("light.enabled");
    reveal_strlit("light.effect");
    reveal_strlit("light.brightness");
    reveal_strlit("light.speed");
    reveal_strlit("light.color");
    reveal_strlit("light.rainbow");
    reveal_strlit("actuation.point_mm");
    reveal_strlit("actuation.press_mm");
    reveal_strlit("actuation.release_mm");
    reveal_strlit("rate.hz");
    reveal_strlit("winlock");
    reveal_strlit("wasd");
    reveal_strlit("mac");
    reveal_strlit("rt");
    reveal_strlit("low-latency");
    reveal_strlit("bottom-trigger");
    reveal_strlit("debounce");
    reveal_strlit("tweak.");
    lemma_key_texts();
    assert("light.enabled"@.subrange(0, 6)[0] != "tweak."@[0]);
    assert(strip_prefix("light.enabled"@, "tweak."@) is None);
    assert forall|j: int| 0 <= j < toggle_table().len() implies (#[trigger] toggle_table()[j]).key@ != "light.enabled"@ by {
        assert(j == 0 || j == 1 || j == 2 || j == 3 || j == 4 || j == 5 || j == 6);
    }
    lemma_index_in_none(toggle_table(), "light.enabled"@);
    assert("light.effect"@.subrange(0, 6)[0] != "tweak."@[0]);
    assert(strip_prefix("light.effect"@, "tweak."@) is None);
    assert forall|j: int| 0 <= j < toggle_table().len() implies (#[trigger] toggle_table()[j]).key@ != "light.effect"@ by {
        assert(j == 0 || j == 1 || j == 2 || j == 3 || j == 4 || j == 5 || j == 6);
    }
    lemma_index_in_none(toggle_table(), "light.effect"@);
    assert("light.brightness"@.subrange(0, 6)[0] != "tweak."@[0]);
    assert(strip_prefix("light.brightness"@, "tweak."@) is None);
    assert forall|j: int| 0 <= j < toggle_table().len() implies (#[trigger] toggle_table()[j]).key@ != "light.brightness"@ by {
        assert(j == 0 || j == 1 || j == 2 || j == 3 || j == 4 || j == 5 || j == 6);
    }
    lemma_index_in_none(toggle_table(), "light.brightness"@);
    assert("light.speed"@.subrange(0, 6)[0] != "tweak."@[0]);
    assert(strip_prefix("light.speed"@, "tweak."@) is None);
    assert("light.speed"@[1] != "low-latency"@[1]);
    assert forall|j: int| 0 <= j < toggle_table().len() implies (#[trigger] toggle_table()[j]).key@ != "light.speed"@ by {
        assert(j == 0 || j == 1 || j == 2 || j == 3 || j == 4 || j == 5 || j == 6);
    }
    lemma_index_in_none(toggle_table(), "light.speed"@);
    assert("light.color"@.subrange(0, 6)[0] != "tweak."@[0]);
    assert(strip_prefix("light.color"@, "tweak."@) is None);
    assert("light.color"@[1] != "low-latency"@[1]);
    assert forall|j: int| 0 <= j < toggle_table().len() implies (#[trigger] toggle_table()[j]).key@ != "light.color"@ by {
        assert(j == 0 || j == 1 || j == 2 || j == 3 || j == 4 || j == 5 || j == 6);
    }
    lemma_index_in_none(toggle_table(), "light.color"@);
    assert("light.color"@[6] != "light.speed"@[6]);
    assert("light.rainbow"@.subrange(0, 6)[0] != "tweak."@[0]);
    assert(strip_prefix("light.rainbow"@, "tweak."@) is None);
    assert forall|j: int| 0 <= j < toggle_table().len() implies (#[trigger] toggle_table()[j]).key@ != "light.rainbow"@ by {
        assert(j == 0 || j == 1 || j == 2 || j == 3 || j == 4 || j == 5 || j == 6);
    }
    lemma_index_in_none(toggle_table(), "light.rainbow"@);
    assert("light.rainbow"@[6] != "light.enabled"@[6]);
    assert("actuation.point_mm"@.subrange(0, 6)[0] != "tweak."@[0]);
    assert(strip_prefix("actuation.point_mm"@, "tweak."@) is None);
    assert forall|j: int| 0 <= j < toggle_table().len() implies (#[trigger] toggle_table()[j]).key@ != "actuation.point_mm"@ by {
        assert(j == 0 || j == 1 || j == 2 || j == 3 || j == 4 || j == 5 || j == 6);
    }
    lemma_index_in_none(toggle_table(), "actuation.point_mm"@);
    assert("actuation.press_mm"@.subrange(0, 6)[0] != "tweak."@[0]);
    assert(strip_prefix("actuation.press_mm"@, "tweak."@) is None);
    assert forall|j: int| 0 <= j < toggle_table().len() implies (#[trigger] toggle_table()[j]).key@ != "actuation.press_mm"@ by {
        assert(j == 0 || j == 1 || j == 2 || j == 3 || j == 4 || j == 5 || j == 6);
    }
    lemma_index_in_none(toggle_table(), "actuation.press_mm"@);
    assert("actuation.press_mm"@[11] != "actuation.point_mm"@[11]);
    assert("actuation.release_mm"@.subrange(0, 6)[0] != "tweak."@[0]);
    assert(strip_prefix("actuation.release_mm"@, "tweak."@) is None);
    assert forall|j: int| 0 <= j < toggle_table().len() implies (#[trigger] toggle_table()[j]).key@ != "actuation.release_mm"@ by {
        assert(j == 0 || j == 1 || j == 2 || j == 3 || j == 4 || j == 5 || j == 6);
    }
    lemma_index_in_none(toggle_table(), "actuation.release_mm"@);
    assert("rate.hz"@.subrange(0, 6)[0] != "tweak."@[0]);
    assert(strip_prefix("rate.hz"@, "tweak."@) is None);
    assert("rate.hz"@[0] != "winlock"@[0]);
    assert forall|j: int| 0 <= j < toggle_table().len() implies (#[trigger] toggle_table()[j]).key@ != "rate.hz"@ by {
        assert(j == 0 || j == 1 || j == 2 || j == 3 || j == 4 || j == 5 || j == 6);
    }
    lemma_index_in_none(toggle_table(), "rate.hz"@);
}

/// `tweak.<name>` names toggle `<name>`.
pub proof fn lemma_key_of_toggle(i: int)
    requires
        0 <= i < 7,
    ensures
        key_of("tweak."@ + toggle_table()[i].key@) == Some(Key::Toggle(i as usize)),
{
    reveal_strlit("tweak.");
    reveal_strlit("winlock");
    reveal_strlit("wasd");
    reveal_strlit("mac");
    reveal_strlit("rt");
    reveal_strlit("low-latency");
    reveal_strlit("bottom-trigger");
    reveal_strlit("debounce");
    assert(toggle_table()[i].key@ == toggle_table()[i].key@);
    assert forall|j: int| 0 <= j < i implies (#[trigger] toggle_table()[j]).key@ != toggle_table()[i].key@ by {
        assert((i == 1 && j == 0) || (i == 2 && j == 0) || (i == 2 && j == 1) || (i == 3 && j == 0) || (i == 3 && j == 1) || (i == 3 && j == 2) || (i == 4 && j == 0) || (i == 4 && j == 1) || (i == 4 && j == 2) || (i == 4 && j == 3) || (i == 5 && j == 0) || (i == 5 && j == 1) || (i == 5 && j == 2) || (i == 5 && j == 3) || (i == 5 && j == 4) || (i == 6 && j == 0) || (i == 6 && j == 1) || (i == 6 && j == 2) || (i == 6 && j == 3) || (i == 6 && j == 4) || (i == 6 && j == 5));
    }
    lemma_index_in_distinct(toggle_table(), i);
    let k = "tweak."@ + toggle_table()[i].key@;
    assert(k.subrange(0, 6) =~= "tweak."@);
    assert(k.subrange(6, k.len() as int) =~= toggle_table()[i].key@);
}

/// The header line is a comment.
pub proof fn lemma_header()
    ensures
        line_ok("# atk68 profile \u{2014} apply with: atk68 apply <file>"@),
        classify("# atk68 profile \u{2014} apply with: atk68 apply <file>"@) is None,
{
    reveal(classify);
    reveal_strlit("# atk68 profile \u{2014} apply with: atk68 apply <file>");
    assert forall|i: int| 0 <= i < "# atk68 profile \u{2014} apply with: atk68 apply <file>"@.len() implies #[trigger] "# atk68 profile \u{2014} apply with: atk68 apply <file>"@[i] != '\n' by {
        assert(i == 0 || i == 1 || i == 2 || i == 3 || i == 4 || i == 5 || i == 6 || i == 7 || i == 8 || i == 9 || i == 10 || i == 11 || i == 12 || i == 13 || i == 14 || i == 15 || i == 16 || i == 17 || i == 18 || i == 19 || i == 20 || i == 21 || i == 22 || i == 23 || i == 24 || i == 25 || i == 26 || i == 27 || i == 28 || i == 29 || i == 30 || i == 31 || i == 32 || i == 33 || i == 34 || i == 35 || i == 36 || i == 37 || i == 38 || i == 39 || i == 40 || i == 41 || i == 42 || i == 43 || i == 44 || i == 45 || i == 46 || i == 47);
    }
    lemma_trim_unchanged("# atk68 profile \u{2014} apply with: atk68 apply <file>"@);
}


pub proof fn lemma_key_text_concat(a: Seq<char>, b: Seq<char>)
    requires
        key_text(a),
        key_text(b),
    ensures
        key_text(a + b),
{
    assert forall|i: int| 0 <= i < (a + b).len() implies key_char(#[trigger] (a + b)[i]) by {
        if i < a.len() {
            assert((a + b)[i] == a[i]);
        } else {
            assert((a + b)[i] == b[i - a.len()]);
        }
    }
}

proof fn lemma_ascii_word(w: Seq<char>)
    requires
        forall|i: int| 0 <= i < w.len() ==> 97 <= (#[trigger] w[i] as u32) <= 122,
    ensures
        is_ascii(w),
        to_lower(w) == w,
{
    assert forall|i: int| 0 <= i < w.len() implies #[trigger] ascii_lower_char(w[i]) == w[i] by {
        assert(97 <= (w[i] as u32) <= 122);
    }
    assert(ascii_lower(w) =~= w);
}

/// `true`/`false` read back as the boolean they render.
pub proof fn lemma_bool_value(b: bool)
    ensures
        value_text(bool_text(b)),
        spec_parse_bool(bool_text(b)) == b,
{
    reveal_strlit("true");
    reveal_strlit("false");
    reveal_strlit("1");
    reveal_strlit("on");
    reveal_strlit("yes");
    let t = bool_text(b);
    if b {
        assert forall|i: int| 0 <= i < t.len() implies 97 <= (#[trigger] t[i] as u32) <= 122 by {
            assert(i == 0 || i == 1 || i == 2 || i == 3);
        }
        assert forall|i: int| 0 <= i < t.len() implies #[trigger] t[i] != '\n' by {
            assert(i == 0 || i == 1 || i == 2 || i == 3);
        }
    } else {
        assert forall|i: int| 0 <= i < t.len() implies 97 <= (#[trigger] t[i] as u32) <= 122 by {
            assert(i == 0 || i == 1 || i == 2 || i == 3 || i == 4);
        }
        assert forall|i: int| 0 <= i < t.len() implies #[trigger] t[i] != '\n' by {
            assert(i == 0 || i == 1 || i == 2 || i == 3 || i == 4);
        }
    }
    lemma_ascii_word(t);
}

/// A toggle value reads back as the value it renders.
pub proof fn lemma_shown_value(v: u8)
    ensures
        value_text(shown_value(v)),
        spec_parse_value(shown_value(v)) == Some(v),
{
    reveal_strlit("on");
    reveal_strlit("off");
    reveal_strlit("true");
    reveal_strlit("false");
    reveal_strlit("yes");
    reveal_strlit("no");
    let t = shown_value(v);
    if v == 0 {
        assert forall|i: int| 0 <= i < t.len() implies 97 <= (#[trigger] t[i] as u32) <= 122 by {
            assert(i == 0 || i == 1 || i == 2);
        }
        assert forall|i: int| 0 <= i < t.len() implies #[trigger] t[i] != '\n' by {
            assert(i == 0 || i == 1 || i == 2);
        }
        lemma_ascii_word(t);
        assert("off"@[0] != "yes"@[0]);
    } else if v == 1 {
        assert forall|i: int| 0 <= i < t.len() implies 97 <= (#[trigger] t[i] as u32) <= 122 by {
            assert(i == 0 || i == 1);
        }
        assert forall|i: int| 0 <= i < t.len() implies #[trigger] t[i] != '\n' by {
            assert(i == 0 || i == 1);
        }
        lemma_ascii_word(t);
    } else {
        lemma_dec_value(v as nat);
        let d = dec(v as nat);
        if d == "on"@ {
            assert(d[0] == "on"@[0]);
        }
        if d == "true"@ {
            assert(d[0] == "true"@[0]);
        }
        if d == "yes"@ {
            assert(d[0] == "yes"@[0]);
        }
        if d == "off"@ {
            assert(d[0] == "off"@[0]);
        }
        if d == "false"@ {
            assert(d[0] == "false"@[0]);
        }
        if d == "no"@ {
            assert(d[0] == "no"@[0]);
        }
        lemma_parse_dec(v as nat, 255);
    }
}

/// A decimal byte reads back as itself.
pub proof fn lemma_u8_value(n: u8)
    ensures
        value_text(dec(n as nat)),
        parse_u8(dec(n as nat)) == Ok::<u8, IntErrorKind>(n),
{
    lemma_dec_value(n as nat);
    lemma_parse_dec(n as nat, 255);
}

/// `#RRGGBB` reads back as the colour it renders.
pub proof fn lemma_color_value(r: u8, g: u8, b: u8)
    ensures
        value_text(seq!['#'] + hex2_upper(r) + hex2_upper(g) + hex2_upper(b)),
        spec_parse_rgb(seq!['#'] + hex2_upper(r) + hex2_upper(g) + hex2_upper(b)) == Ok::<
            (u8, u8, u8),
            ColorError,
        >((r, g, b)),
{
    let hex = hex2_upper(r) + hex2_upper(g) + hex2_upper(b);
    let v = seq!['#'] + hex;
    assert(v =~= seq!['#'] + hex2_upper(r) + hex2_upper(g) + hex2_upper(b));
    lemma_hex_digit_upper(r as nat / 16);
    lemma_hex_digit_upper(r as nat % 16);
    lemma_hex_digit_upper(g as nat / 16);
    lemma_hex_digit_upper(g as nat % 16);
    lemma_hex_digit_upper(b as nat / 16);
    lemma_hex_digit_upper(b as nat % 16);
    assert(hex.len() == 6);
    assert forall|i: int| 0 <= i < 6 implies plain(#[trigger] hex[i]) by {
        assert(i == 0 || i == 1 || i == 2 || i == 3 || i == 4 || i == 5);
    }
    assert forall|i: int| 0 <= i < v.len() implies #[trigger] v[i] != '\n' by {
        if i > 0 {
            assert(v[i] == hex[i - 1]);
            assert(plain(hex[i - 1]));
        }
    }
    assert(v.last() == hex[5]);
    assert(plain(hex[5]));
    assert(is_ws('#') == false);
    lemma_trim_unchanged(v);
    assert(v.drop_first() =~= hex);
    assert forall|i: int| 0 <= i < hex.len() implies (#[trigger] hex[i] as u32) < 0x80 by {
        assert(plain(hex[i]));
    }
    lemma_utf8_len_ascii(hex);
    assert(plain(hex[0]));
    let max: nat = 0xffff_ffff;
    lemma_parse_hex2(r, max, 0);
    lemma_parse_digits_concat(hex2_upper(r), hex2_upper(g) + hex2_upper(b), 16, max, 0);
    lemma_parse_hex2(g, max, r as nat);
    lemma_parse_digits_concat(hex2_upper(g), hex2_upper(b), 16, max, r as nat);
    lemma_parse_hex2(b, max, r as nat * 256 + g as nat);
    assert(hex =~= hex2_upper(r) + (hex2_upper(g) + hex2_upper(b)));
    let n = (r as nat * 256 + g as nat) * 256 + b as nat;
    assert(parse_digits(hex, 16, max, 0) == Ok::<nat, IntErrorKind>(n));
    assert(rgb_of(n) == (r, g, b)) by (nonlinear_arith)
        requires
            n == (r as nat * 256 + g as nat) * 256 + b as nat,
            r < 256,
            g < 256,
            b < 256,
    {
        assert(n / 65536 == r as nat);
        assert((n / 256) % 256 == g as nat);
        assert(n % 256 == b as nat);
    }
}

/// `#rrggbb` in lower-case hex reads back as its colour.
proof fn lemma_color_lower(r: u8, g: u8, b: u8)
    ensures
        spec_parse_rgb(seq!['#'] + hex2_lower(r) + hex2_lower(g) + hex2_lower(b)) == Ok::<
            (u8, u8, u8),
            ColorError,
        >((r, g, b)),
{
    let hex = hex2_lower(r) + hex2_lower(g) + hex2_lower(b);
    let v = seq!['#'] + hex;
    assert(v =~= seq!['#'] + hex2_lower(r) + hex2_lower(g) + hex2_lower(b));
    lemma_hex_digit_lower(r as nat / 16);
    lemma_hex_digit_lower(r as nat % 16);
    lemma_hex_digit_lower(g as nat / 16);
    lemma_hex_digit_lower(g as nat % 16);
    lemma_hex_digit_lower(b as nat / 16);
    lemma_hex_digit_lower(b as nat % 16);
    assert(hex.len() == 6);
    assert forall|i: int| 0 <= i < 6 implies plain(#[trigger] hex[i]) by {
        assert(i == 0 || i == 1 || i == 2 || i == 3 || i == 4 || i == 5);
    }
    assert(v.last() == hex[5]);
    assert(plain(hex[5]));
    assert(is_ws('#') == false);
    lemma_trim_unchanged(v);
    assert(v.drop_first() =~= hex);
    assert forall|i: int| 0 <= i < hex.len() implies (#[trigger] hex[i] as u32) < 0x80 by {
        assert(plain(hex[i]));
    }
    lemma_utf8_len_ascii(hex);
    let max: nat = 0xffff_ffff;
    lemma_parse_hex2_lower(r, max, 0);
    lemma_parse_digits_concat(hex2_lower(r), hex2_lower(g) + hex2_lower(b), 16, max, 0);
    lemma_parse_hex2_lower(g, max, r as nat);
    lemma_parse_digits_concat(hex2_lower(g), hex2_lower(b), 16, max, r as nat);
    lemma_parse_hex2_lower(b, max, r as nat * 256 + g as nat);
    assert(hex =~= hex2_lower(r) + (hex2_lower(g) + hex2_lower(b)));
    let n = (r as nat * 256 + g as nat) * 256 + b as nat;
    assert(parse_digits(hex, 16, max, 0) == Ok::<nat, IntErrorKind>(n));
    assert(rgb_of(n) == (r, g, b)) by (nonlinear_arith)
        requires
            n == (r as nat * 256 + g as nat) * 256 + b as nat,
            r < 256,
            g < 256,
            b < 256,
    {
        assert(n / 65536 == r as nat);
        assert((n / 256) % 256 == g as nat);
        assert(n % 256 == b as nat);
    }
}

/// `r,g,b` in decimal reads back as its colour.
proof fn lemma_color_decimal(r: u8, g: u8, b: u8)
    ensures
        spec_parse_rgb(dec(r as nat) + ","@ + dec(g as nat) + ","@ + dec(b as nat)) == Ok::<
            (u8, u8, u8),
            ColorError,
        >((r, g, b)),
{
    let dr = dec(r as nat);
    let dg = dec(g as nat);
    let db = dec(b as nat);
    let comma: Seq<char> = ","@;
    assert(comma =~= seq![',']) by {
        reveal_strlit(",");
    }
    let t = dr + comma + dg + comma + db;
    lemma_dec(r as nat);
    lemma_dec(g as nat);
    lemma_dec(b as nat);
    lemma_u8_value(r);
    lemma_u8_value(g);
    lemma_u8_value(b);
    lemma_trim_unchanged(dr);
    lemma_trim_unchanged(dg);
    lemma_trim_unchanged(db);
    // The whole text is already trimmed and does not start with `#`.
    assert(t[0] == dr[0]);
    assert(is_digit(dr[0]));
    assert(t.last() == db.last());
    assert(is_digit(db[db.len() - 1]));
    lemma_trim_unchanged(t);
    // Its pieces between commas are the three numbers.
    let t2 = dg + comma + db;
    assert(t =~= dr + (comma + t2));
    assert forall|j: int| 0 <= j < dr.len() implies t[j] != ',' by {
        assert(t[j] == dr[j]);
        assert(is_digit(dr[j]));
    }
    lemma_find_at(t, ',', dr.len() as int);
    assert(t.subrange(0, dr.len() as int) =~= dr);
    assert(t.subrange(dr.len() as int + 1, t.len() as int) =~= t2);
    assert forall|j: int| 0 <= j < dg.len() implies t2[j] != ',' by {
        assert(t2[j] == dg[j]);
        assert(is_digit(dg[j]));
    }
    lemma_find_at(t2, ',', dg.len() as int);
    assert(t2.subrange(0, dg.len() as int) =~= dg);
    assert(t2.subrange(dg.len() as int + 1, t2.len() as int) =~= db);
    assert forall|j: int| 0 <= j < db.len() implies db[j] != ',' by {
        assert(is_digit(db[j]));
    }
    lemma_find_at(db, ',', db.len() as int);
    assert(split(db, ',') == seq![db]);
    assert(split(t2, ',') =~= seq![dg, db]);
    assert(split(t, ',') =~= seq![dr, dg, db]);
}

/// A colour reads back from each way of writing it: `#RRGGBB`, `#rrggbb`
/// and `r,g,b`.
pub proof fn law_color_reads_back(r: u8, g: u8, b: u8)
    ensures
        spec_parse_rgb(seq!['#'] + hex2_upper(r) + hex2_upper(g) + hex2_upper(b)) == Ok::<
            (u8, u8, u8),
            ColorError,
        >((r, g, b)),
        spec_parse_rgb(seq!['#'] + hex2_lower(r) + hex2_lower(g) + hex2_lower(b)) == Ok::<
            (u8, u8, u8),
            ColorError,
        >((r, g, b)),
        spec_parse_rgb(dec(r as nat) + ","@ + dec(g as nat) + ","@ + dec(b as nat)) == Ok::<
            (u8, u8, u8),
            ColorError,
        >((r, g, b)),
{
    lemma_color_value(r, g, b);
    lemma_color_lower(r, g, b);
    lemma_color_decimal(r, g, b);
}

/// A millimetre value is one line of plain text.
pub proof fn lemma_mm_value(raw: u8, step: u32)
    ensures
        value_text(mm_text(raw, step)),
{
    let h = raw as nat * step as nat;
    lemma_dec(h / 100);
    lemma_digit_char((h / 10) % 10);
    lemma_digit_char(h % 10);
    let d = dec(h / 100);
    let m = mm_text(raw, step);
    assert(plain(d[0]));
    assert(m[0] == d[0]);
    assert forall|i: int| 0 <= i < m.len() implies #[trigger] m[i] != '\n' by {
        if i < d.len() {
            assert(m[i] == d[i]);
            assert(plain(d[i]));
        }
    }
}

/// An exported millimetre value reads back exactly: the text of `raw`
/// units of `step` hundredths is worth `raw * step` hundredths.
pub proof fn lemma_mm_hundredths(raw: u8, step: u32)
    ensures
        mm_hundredths(mm_text(raw, step)) == Some(raw as nat * step as nat),
{
    let h = raw as nat * step as nat;
    assert(h <= 255 * 0xffff_ffff) by (nonlinear_arith)
        requires
            h == raw as nat * step as nat,
            raw <= 255,
            step <= 0xffff_ffff,
    ;
    let d = dec(h / 100);
    lemma_dec(h / 100);
    lemma_parse_dec(h / 100, 0xffff_ffff_ffff_ffff);
    lemma_digit_char((h / 10) % 10);
    lemma_digit_char(h % 10);
    let t = mm_text(raw, step);
    assert forall|j: int| 0 <= j < d.len() implies t[j] != '.' by {
        assert(t[j] == d[j]);
        assert(is_digit(d[j]));
    }
    assert(t[d.len() as int] == '.');
    lemma_find_at(t, '.', d.len() as int);
    let w = t.subrange(0, d.len() as int);
    let f = t.subrange(d.len() as int + 1, t.len() as int);
    assert(w =~= d);
    assert((h / 100) * 100 + ((h / 10) % 10) * 10 + h % 10 == h);
    if step % 10 == 0 {
        let k = raw as int * (step as int / 10);
        assert(h == k * 10) by (nonlinear_arith)
            requires
                h == raw as nat * step as nat,
                step % 10 == 0,
                k == raw as int * (step as int / 10),
        ;
        vstd::arithmetic::div_mod::lemma_mod_multiples_basic(k, 10);
        assert(h % 10 == 0);
        assert(f =~= seq![digit_char((h / 10) % 10)]);
        assert(digit_value(f[0], 10) is Some);
    } else {
        assert(f =~= seq![digit_char((h / 10) % 10), digit_char(h % 10)]);
        assert(digit_value(f[0], 10) is Some);
        assert(digit_value(f[1], 10) is Some);
    }
}

/// Export, then read back, gives a travel value exactly: an exported
/// millimetre text is worth `raw * step` hundredths, and dividing those
/// hundredths by the step gives `raw` back.
pub proof fn law_mm_text_reads_back(raw: u8, step: u32)
    requires
        step > 0,
    ensures
        mm_hundredths(mm_text(raw, step)) == Some(raw as nat * step as nat),
        (raw as nat * step as nat) / (step as nat) == raw,
{
    lemma_mm_hundredths(raw, step);
    assert((raw as nat * step as nat) / (step as nat) == raw) by (nonlinear_arith)
        requires
            step > 0,
    ;
}

/// Every listed polling rate reads back as its own index.
pub proof fn lemma_rate_value(i: int)
    requires
        0 <= i < RATE_COUNT,
    ensures
        value_text(dec(rate_table()[i] as nat)),
        parse_u32(dec(rate_table()[i] as nat)) == Ok::<u32, IntErrorKind>(rate_table()[i]),
        spec_nearest_rate(rate_table()[i]) == i as u8,
{
    let hz = rate_table()[i];
    lemma_dec_value(hz as nat);
    lemma_parse_dec(hz as nat, 0xffff_ffff);
    lemma_nearest_among(hz, RATE_COUNT as nat);
    let r = nearest_among(hz, RATE_COUNT as nat);
    assert(dist(rate_table()[r as int], hz) <= dist(rate_table()[i], hz));
    assert(r == 0 || r == 1 || r == 2 || r == 3 || r == 4 || r == 5 || r == 6);
    assert(i == 0 || i == 1 || i == 2 || i == 3 || i == 4 || i == 5 || i == 6);
}

/// `s` with the first `i` toggles taken from `c` and marked to be written.
pub open spec fn tweaked(s: ConfigState, c: ConfigState, i: int) -> ConfigState {
    ConfigState {
        tweaks: Seq::new(s.tweaks.len(), |k: int| if k < i { c.tweaks[k] } else { s.tweaks[k] }),
        tweak_set: Seq::new(s.tweak_set.len(), |k: int| k < i || s.tweak_set[k]),
        ..s
    }
}

/// The toggle line of toggle `i`.
pub proof fn lemma_tweak_line(i: int, v: u8)
    requires
        0 <= i < TOGGLE_COUNT,
    ensures
        classify(tweak_line(i, v)) == Some((Key::Toggle(i as usize), shown_value(v))),
        line_ok(tweak_line(i, v)),
{
    lemma_key_texts();
    lemma_line_literals();
    lemma_key_of_toggle(i);
    lemma_shown_value(v);
    let key = toggle_table()[i].key@;
    assert(key_text(key)) by {
        assert(i == 0 || i == 1 || i == 2 || i == 3 || i == 4 || i == 5 || i == 6);
    }
    lemma_key_text_concat("tweak."@, key);
    lemma_classify_kv("tweak."@ + key, shown_value(v));
    assert(tweak_line(i, v) =~= ("tweak."@ + key) + seq![' ', '=', ' '] + shown_value(v));
}

proof fn lemma_run_tweaks(c: ConfigState, s: ConfigState, ls: Seq<Seq<char>>, mm: Seq<Option<u8>>, i: int)
    requires
        0 <= i <= TOGGLE_COUNT,
        c.tweaks.len() >= TOGGLE_COUNT,
        has_toggles(s),
        ls.len() == 11 + TOGGLE_COUNT,
        forall|k: int| 0 <= k < TOGGLE_COUNT ==> #[trigger] ls[11 + k] == tweak_line(k, c.tweaks[k]),
    ensures
        run_lines(tweaked(s, c, i), ls.subrange(11 + i, ls.len() as int), mm, 3) == (
            tweaked(s, c, TOGGLE_COUNT as int),
            None::<ConfigFault>,
        ),
    decreases TOGGLE_COUNT - i,
{
    if i == TOGGLE_COUNT {
        assert(ls.subrange(11 + i, ls.len() as int).len() == 0);
    } else {
        lemma_run_lines_step(tweaked(s, c, i), ls, mm, 3, 11 + i);
        assert(ls[11 + i] == tweak_line(i, c.tweaks[i]));
        lemma_tweak_line(i, c.tweaks[i]);
        lemma_shown_value(c.tweaks[i]);
        let t = tweaked(s, c, i);
        let t2 = ConfigState {
            tweaks: t.tweaks.update(i, c.tweaks[i]),
            tweak_set: t.tweak_set.update(i, true),
            ..t
        };
        assert(t2.tweaks =~= tweaked(s, c, i + 1).tweaks);
        assert(t2.tweak_set =~= tweaked(s, c, i + 1).tweak_set);
        assert(t2 == tweaked(s, c, i + 1));
        lemma_run_tweaks(c, s, ls, mm, i + 1);
    }
}


pub proof fn lemma_mm_texts_step(ls: Seq<Seq<char>>, k: int)
    requires
        0 <= k < ls.len(),
    ensures
        mm_texts(ls.subrange(k, ls.len() as int)) == (match classify(ls[k]) {
            Some((Key::PointMm, v)) => seq![v],
            Some((Key::PressMm, v)) => seq![v],
            Some((Key::ReleaseMm, v)) => seq![v],
            _ => Seq::<Seq<char>>::empty(),
        }) + mm_texts(ls.subrange(k + 1, ls.len() as int)),
{
    let s = ls.subrange(k, ls.len() as int);
    assert(s[0] == ls[k]);
    assert(s.drop_first() =~= ls.subrange(k + 1, ls.len() as int));
    let rest = mm_texts(s.drop_first());
    assert(Seq::<Seq<char>>::empty() + rest =~= rest);
}

proof fn lemma_mm_texts_tweaks(c: ConfigState, ls: Seq<Seq<char>>, i: int)
    requires
        0 <= i <= TOGGLE_COUNT,
        c.tweaks.len() >= TOGGLE_COUNT,
        ls.len() == 11 + TOGGLE_COUNT,
        forall|k: int| 0 <= k < TOGGLE_COUNT ==> #[trigger] ls[11 + k] == tweak_line(k, c.tweaks[k]),
    ensures
        mm_texts(ls.subrange(11 + i, ls.len() as int)) == Seq::<Seq<char>>::empty(),
    decreases TOGGLE_COUNT - i,
{
    if i < TOGGLE_COUNT {
        lemma_mm_texts_step(ls, 11 + i);
        assert(ls[11 + i] == tweak_line(i, c.tweaks[i]));
        lemma_tweak_line(i, c.tweaks[i]);
        lemma_mm_texts_tweaks(c, ls, i + 1);
        assert(Seq::<Seq<char>>::empty() + Seq::<Seq<char>>::empty() =~= Seq::<Seq<char>>::empty());
    } else {
        assert(ls.subrange(11 + i, ls.len() as int).len() == 0);
    }
}

/// The settings an exported profile of `c` leaves after being applied on
/// top of `base`: lighting, actuation and polling rate of `c`, and every
/// toggle value of `c`, marked to be written.
pub open spec fn restored(base: ConfigState, c: ConfigState) -> ConfigState {
    tweaked(
        ConfigState { light: c.light, act: c.act, rate_index: c.rate_index, ..base },
        c,
        TOGGLE_COUNT as int,
    )
}

/// The raw values read back from the three actuation lines of the exported
/// profile of `c`: each text's hundredths divided by the step.
pub open spec fn exported_mm(c: ConfigState) -> Seq<Option<u8>> {
    seq![Some(c.act.point), Some(c.act.down), Some(c.act.up)]
}

proof fn lemma_fixed_line_1(c: ConfigState)
    requires
        (c.rate_index as int) < RATE_COUNT,
    ensures
        classify(profile_lines(c)[1]) == Some((Key::LightEnabled, bool_text(c.light.enabled))),
        line_ok(profile_lines(c)[1]),
{
    lemma_line_literals();
    lemma_key_texts();
    lemma_key_of_fixed();
    lemma_bool_value(c.light.enabled);
    let v = bool_text(c.light.enabled);
    lemma_classify_kv("light.enabled"@, v);
    assert(profile_lines(c)[1] =~= "light.enabled"@ + seq![' ', '=', ' '] + v);
}

proof fn lemma_fixed_line_2(c: ConfigState)
    requires
        (c.rate_index as int) < RATE_COUNT,
    ensures
        classify(profile_lines(c)[2]) == Some((Key::LightEffect, dec(c.light.mode as nat))),
        line_ok(profile_lines(c)[2]),
{
    lemma_line_literals();
    lemma_key_texts();
    lemma_key_of_fixed();
    lemma_u8_value(c.light.mode);
    let v = dec(c.light.mode as nat);
    lemma_classify_kv("light.effect"@, v);
    assert(profile_lines(c)[2] =~= "light.effect"@ + seq![' ', '=', ' '] + v);
}

proof fn lemma_fixed_line_3(c: ConfigState)
    requires
        (c.rate_index as int) < RATE_COUNT,
    ensures
        classify(profile_lines(c)[3]) == Some((Key::LightBrightness, dec(c.light.brightness as nat))),
        line_ok(profile_lines(c)[3]),
{
    lemma_line_literals();
    lemma_key_texts();
    lemma_key_of_fixed();
    lemma_u8_value(c.light.brightness);
    let v = dec(c.light.brightness as nat);
    lemma_classify_kv("light.brightness"@, v);
    assert(profile_lines(c)[3] =~= "light.brightness"@ + seq![' ', '=', ' '] + v);
}

proof fn lemma_fixed_line_4(c: ConfigState)
    requires
        (c.rate_index as int) < RATE_COUNT,
    ensures
        classify(profile_lines(c)[4]) == Some((Key::LightSpeed, dec(c.light.speed as nat))),
        line_ok(profile_lines(c)[4]),
{
    lemma_line_literals();
    lemma_key_texts();
    lemma_key_of_fixed();
    lemma_u8_value(c.light.speed);
    let v = dec(c.light.speed as nat);
    lemma_classify_kv("light.speed"@, v);
    assert(profile_lines(c)[4] =~= "light.speed"@ + seq![' ', '=', ' '] + v);
}

proof fn lemma_fixed_line_5(c: ConfigState)
    requires
        (c.rate_index as int) < RATE_COUNT,
    ensures
        classify(profile_lines(c)[5]) == Some((Key::LightColor, seq!['#'] + hex2_upper(c.light.rgb.0) + hex2_upper(c.light.rgb.1) + hex2_upper(c.light.rgb.2))),
        line_ok(profile_lines(c)[5]),
{
    lemma_line_literals();
    lemma_key_texts();
    lemma_key_of_fixed();
    lemma_color_value(c.light.rgb.0, c.light.rgb.1, c.light.rgb.2);
    let v = seq!['#'] + hex2_upper(c.light.rgb.0) + hex2_upper(c.light.rgb.1) + hex2_upper(c.light.rgb.2);
    lemma_classify_kv("light.color"@, v);
    assert(profile_lines(c)[5] =~= "light.color"@ + seq![' ', '=', ' '] + v);
}

proof fn lemma_fixed_line_6(c: ConfigState)
    requires
        (c.rate_index as int) < RATE_COUNT,
    ensures
        classify(profile_lines(c)[6]) == Some((Key::LightRainbow, bool_text(c.light.colorful))),
        line_ok(profile_lines(c)[6]),
{
    lemma_line_literals();
    lemma_key_texts();
    lemma_key_of_fixed();
    lemma_bool_value(c.light.colorful);
    let v = bool_text(c.light.colorful);
    lemma_classify_kv("light.rainbow"@, v);
    assert(profile_lines(c)[6] =~= "light.rainbow"@ + seq![' ', '=', ' '] + v);
}

proof fn lemma_fixed_line_7(c: ConfigState)
    requires
        (c.rate_index as int) < RATE_COUNT,
    ensures
        classify(profile_lines(c)[7]) == Some((Key::PointMm, mm_text(c.act.point, c.step))),
        line_ok(profile_lines(c)[7]),
{
    lemma_line_literals();
    lemma_key_texts();
    lemma_key_of_fixed();
    lemma_mm_value(c.act.point, c.step);
    let v = mm_text(c.act.point, c.step);
    lemma_classify_kv("actuation.point_mm"@, v);
    assert(profile_lines(c)[7] =~= "actuation.point_mm"@ + seq![' ', '=', ' '] + v);
}

proof fn lemma_fixed_line_8(c: ConfigState)
    requires
        (c.rate_index as int) < RATE_COUNT,
    ensures
        classify(profile_lines(c)[8]) == Some((Key::PressMm, mm_text(c.act.down, c.step))),
        line_ok(profile_lines(c)[8]),
{
    lemma_line_literals();
    lemma_key_texts();
    lemma_key_of_fixed();
    lemma_mm_value(c.act.down, c.step);
    let v = mm_text(c.act.down, c.step);
    lemma_classify_kv("actuation.press_mm"@, v);
    assert(profile_lines(c)[8] =~= "actuation.press_mm"@ + seq![' ', '=', ' '] + v);
}

proof fn lemma_fixed_line_9(c: ConfigState)
    requires
        (c.rate_index as int) < RATE_COUNT,
    ensures
        classify(profile_lines(c)[9]) == Some((Key::ReleaseMm, mm_text(c.act.up, c.step))),
        line_ok(profile_lines(c)[9]),
{
    lemma_line_literals();
    lemma_key_texts();
    lemma_key_of_fixed();
    lemma_mm_value(c.act.up, c.step);
    let v = mm_text(c.act.up, c.step);
    lemma_classify_kv("actuation.release_mm"@, v);
    assert(profile_lines(c)[9] =~= "actuation.release_mm"@ + seq![' ', '=', ' '] + v);
}

proof fn lemma_fixed_line_10(c: ConfigState)
    requires
        (c.rate_index as int) < RATE_COUNT,
    ensures
        classify(profile_lines(c)[10]) == Some((Key::RateHz, dec(rate_hz_or_zero(c.rate_index) as nat))),
        line_ok(profile_lines(c)[10]),
{
    lemma_line_literals();
    lemma_key_texts();
    lemma_key_of_fixed();
    lemma_rate_value(c.rate_index as int);
    let v = dec(rate_hz_or_zero(c.rate_index) as nat);
    lemma_classify_kv("rate.hz"@, v);
    assert(profile_lines(c)[10] =~= "rate.hz"@ + seq![' ', '=', ' '] + v);
}

/// What each fixed line of an exported profile says.
proof fn lemma_fixed_lines(c: ConfigState)
    requires
        (c.rate_index as int) < RATE_COUNT,
    ensures
        classify(profile_lines(c)[0]) is None,
        line_ok(profile_lines(c)[0]),
        classify(profile_lines(c)[1]) == Some((Key::LightEnabled, bool_text(c.light.enabled))),
        line_ok(profile_lines(c)[1]),
        classify(profile_lines(c)[2]) == Some((Key::LightEffect, dec(c.light.mode as nat))),
        line_ok(profile_lines(c)[2]),
        classify(profile_lines(c)[3]) == Some((Key::LightBrightness, dec(c.light.brightness as nat))),
        line_ok(profile_lines(c)[3]),
        classify(profile_lines(c)[4]) == Some((Key::LightSpeed, dec(c.light.speed as nat))),
        line_ok(profile_lines(c)[4]),
        classify(profile_lines(c)[5]) == Some((Key::LightColor, seq!['#'] + hex2_upper(c.light.rgb.0) + hex2_upper(c.light.rgb.1) + hex2_upper(c.light.rgb.2))),
        line_ok(profile_lines(c)[5]),
        classify(profile_lines(c)[6]) == Some((Key::LightRainbow, bool_text(c.light.colorful))),
        line_ok(profile_lines(c)[6]),
        classify(profile_lines(c)[7]) == Some((Key::PointMm, mm_text(c.act.point, c.step))),
        line_ok(profile_lines(c)[7]),
        classify(profile_lines(c)[8]) == Some((Key::PressMm, mm_text(c.act.down, c.step))),
        line_ok(profile_lines(c)[8]),
        classify(profile_lines(c)[9]) == Some((Key::ReleaseMm, mm_text(c.act.up, c.step))),
        line_ok(profile_lines(c)[9]),
        classify(profile_lines(c)[10]) == Some((Key::RateHz, dec(rate_hz_or_zero(c.rate_index) as nat))),
        line_ok(profile_lines(c)[10]),
{
    lemma_header();
    lemma_fixed_line_1(c);
    lemma_fixed_line_2(c);
    lemma_fixed_line_3(c);
    lemma_fixed_line_4(c);
    lemma_fixed_line_5(c);
    lemma_fixed_line_6(c);
    lemma_fixed_line_7(c);
    lemma_fixed_line_8(c);
    lemma_fixed_line_9(c);
    lemma_fixed_line_10(c);
}

/// The exported profile splits into its lines.
proof fn lemma_exported_lines(c: ConfigState)
    requires
        c.tweaks.len() >= TOGGLE_COUNT,
        (c.rate_index as int) < RATE_COUNT,
    ensures
        lines(spec_serialize(c)) == profile_lines(c),
        profile_lines(c).len() == 11 + TOGGLE_COUNT,
        forall|k: int|
            0 <= k < TOGGLE_COUNT ==> #[trigger] profile_lines(c)[11 + k] == tweak_line(
                k,
                c.tweaks[k],
            ),
{
    let ls = profile_lines(c);
    lemma_fixed_lines(c);
    assert(ls.len() == 11 + TOGGLE_COUNT);
    assert forall|k: int| 0 <= k < TOGGLE_COUNT implies #[trigger] ls[11 + k] == tweak_line(
        k,
        c.tweaks[k],
    ) by {}
    assert forall|i: int| 0 <= i < ls.len() implies line_ok(#[trigger] ls[i]) by {
        if i >= 11 {
            assert(ls[11 + (i - 11)] == tweak_line(i - 11, c.tweaks[i - 11]));
            lemma_tweak_line(i - 11, c.tweaks[i - 11]);
        }
    }
    lemma_lines_join(ls);
}

/// The millimetre texts of an exported profile.
proof fn lemma_exported_mm_texts(c: ConfigState)
    requires
        c.tweaks.len() >= TOGGLE_COUNT,
        (c.rate_index as int) < RATE_COUNT,
    ensures
        mm_texts(lines(spec_serialize(c))) == seq![
            mm_text(c.act.point, c.step),
            mm_text(c.act.down, c.step),
            mm_text(c.act.up, c.step),
        ],
{
    let ls = profile_lines(c);
    lemma_exported_lines(c);
    lemma_fixed_lines(c);
    assert(ls.subrange(0, ls.len() as int) =~= ls);
    lemma_mm_texts_step(ls, 0);
    lemma_mm_texts_step(ls, 1);
    lemma_mm_texts_step(ls, 2);
    lemma_mm_texts_step(ls, 3);
    lemma_mm_texts_step(ls, 4);
    lemma_mm_texts_step(ls, 5);
    lemma_mm_texts_step(ls, 6);
    lemma_mm_texts_step(ls, 7);
    lemma_mm_texts_step(ls, 8);
    lemma_mm_texts_step(ls, 9);
    lemma_mm_texts_step(ls, 10);
    lemma_mm_texts_tweaks(c, ls, 0);
    assert(mm_texts(ls) =~= seq![
        mm_text(c.act.point, c.step),
        mm_text(c.act.down, c.step),
        mm_text(c.act.up, c.step),
    ]);
}

/// The lighting lines of an exported profile set the lighting.
#[verifier::spinoff_prover]
#[verifier::rlimit(30)]
proof fn lemma_run_light(c: ConfigState, base: ConfigState)
    requires
        (c.rate_index as int) < RATE_COUNT,
    ensures
        run_lines(base, profile_lines(c).subrange(0, profile_lines(c).len() as int), exported_mm(c), 0)
            == run_lines(
            ConfigState { light: c.light, ..base },
            profile_lines(c).subrange(7, profile_lines(c).len() as int),
            exported_mm(c),
            0,
        ),
{
    let ls = profile_lines(c);
    let l = c.light;
    lemma_fixed_lines(c);
    lemma_bool_value(l.enabled);
    lemma_u8_value(l.mode);
    lemma_u8_value(l.brightness);
    lemma_u8_value(l.speed);
    lemma_color_value(l.rgb.0, l.rgb.1, l.rgb.2);
    lemma_bool_value(l.colorful);
    let mm = exported_mm(c);
    let s0 = base;
    let s1 = ConfigState { light: Light { enabled: l.enabled, ..s0.light }, ..s0 };
    let s2 = ConfigState { light: Light { mode: l.mode, ..s1.light }, ..s1 };
    let s3 = ConfigState { light: Light { brightness: l.brightness, ..s2.light }, ..s2 };
    let s4 = ConfigState { light: Light { speed: l.speed, ..s3.light }, ..s3 };
    let s5 = ConfigState { light: Light { rgb: l.rgb, ..s4.light }, ..s4 };
    let s6 = ConfigState { light: Light { colorful: l.colorful, ..s5.light }, ..s5 };
    lemma_run_lines_step(s0, ls, mm, 0, 0);
    lemma_run_lines_step(s0, ls, mm, 0, 1);
    lemma_run_lines_step(s1, ls, mm, 0, 2);
    lemma_run_lines_step(s2, ls, mm, 0, 3);
    lemma_run_lines_step(s3, ls, mm, 0, 4);
    lemma_run_lines_step(s4, ls, mm, 0, 5);
    lemma_run_lines_step(s5, ls, mm, 0, 6);
    assert(s6 == ConfigState { light: c.light, ..base });
}

/// The actuation lines of an exported profile set the actuation.
proof fn lemma_run_act(c: ConfigState, s6: ConfigState)
    requires
        (c.rate_index as int) < RATE_COUNT,
    ensures
        run_lines(s6, profile_lines(c).subrange(7, profile_lines(c).len() as int), exported_mm(c), 0)
            == run_lines(
            ConfigState { act: c.act, ..s6 },
            profile_lines(c).subrange(10, profile_lines(c).len() as int),
            exported_mm(c),
            3,
        ),
{
    let ls = profile_lines(c);
    lemma_fixed_line_7(c);
    lemma_fixed_line_8(c);
    lemma_fixed_line_9(c);
    let mm = exported_mm(c);
    let s7 = ConfigState { act: Actuation { point: c.act.point, ..s6.act }, ..s6 };
    let s8 = ConfigState { act: Actuation { down: c.act.down, ..s7.act }, ..s7 };
    let s9 = ConfigState { act: Actuation { up: c.act.up, ..s8.act }, ..s8 };
    assert(mm[0] == Some(c.act.point));
    assert(mm[1] == Some(c.act.down));
    assert(mm[2] == Some(c.act.up));
    lemma_run_lines_step(s6, ls, mm, 0, 7);
    lemma_run_lines_step(s7, ls, mm, 1, 8);
    lemma_run_lines_step(s8, ls, mm, 2, 9);
    assert(s9 == ConfigState { act: c.act, ..s6 });
}

/// The rate line of an exported profile sets the rate.
proof fn lemma_run_rate(c: ConfigState, s9: ConfigState)
    requires
        (c.rate_index as int) < RATE_COUNT,
    ensures
        run_lines(s9, profile_lines(c).subrange(10, profile_lines(c).len() as int), exported_mm(c), 3)
            == run_lines(
            ConfigState { rate_index: c.rate_index, ..s9 },
            profile_lines(c).subrange(11, profile_lines(c).len() as int),
            exported_mm(c),
            3,
        ),
{
    let ls = profile_lines(c);
    lemma_fixed_line_10(c);
    lemma_rate_value(c.rate_index as int);
    assert(rate_hz_or_zero(c.rate_index) == rate_table()[c.rate_index as int]);
    lemma_run_lines_step(s9, ls, exported_mm(c), 3, 10);
}

/// Export, then apply, gives the settings back: applying the profile text
/// of `c` on top of any settings `base` restores the lighting, the polling
/// rate, the actuation and every toggle of `c` (and marks the toggles to be
/// written), with no error. The millimetre texts handed to the caller's
/// conversion are the three exported actuation values, each worth exactly
/// its raw value times the step in hundredths of a millimetre, so the
/// conversion that divides those hundredths by the step hands back the raw
/// values that restore the actuation (`exported_mm`).
/// (A polling-rate index outside the table is exported as 0 Hz and comes
/// back as index 0, so the law is stated for listed indices.)
pub proof fn law_export_apply_round_trip(c: ConfigState, base: ConfigState)
    requires
        c.tweaks.len() >= TOGGLE_COUNT,
        (c.rate_index as int) < RATE_COUNT,
        has_toggles(base),
    ensures
        mm_texts(lines(spec_serialize(c))) == seq![
            mm_text(c.act.point, c.step),
            mm_text(c.act.down, c.step),
            mm_text(c.act.up, c.step),
        ],
        mm_hundredths(mm_text(c.act.point, c.step)) == Some(c.act.point as nat * c.step as nat),
        mm_hundredths(mm_text(c.act.down, c.step)) == Some(c.act.down as nat * c.step as nat),
        mm_hundredths(mm_text(c.act.up, c.step)) == Some(c.act.up as nat * c.step as nat),
        spec_apply_overrides(base, spec_serialize(c), exported_mm(c)) == (
            restored(base, c),
            None::<ConfigFault>,
        ),
{
    lemma_mm_hundredths(c.act.point, c.step);
    lemma_mm_hundredths(c.act.down, c.step);
    lemma_mm_hundredths(c.act.up, c.step);
    lemma_exported_mm_texts(c);
    lemma_exported_lines(c);
    lemma_run_light(c, base);
    lemma_run_act(c, ConfigState { light: c.light, ..base });
    lemma_run_rate(c, ConfigState { light: c.light, act: c.act, ..base });
    let ls = profile_lines(c);
    assert(ls.subrange(0, ls.len() as int) =~= ls);
    let s10 = ConfigState { light: c.light, act: c.act, rate_index: c.rate_index, ..base };
    assert(tweaked(s10, c, 0).tweaks =~= s10.tweaks);
    assert(tweaked(s10, c, 0).tweak_set =~= s10.tweak_set);
    assert(tweaked(s10, c, 0) == s10);
    lemma_run_tweaks(c, s10, profile_lines(c), exported_mm(c), 0);
}


/// A read reply that carries `data` after a zero result code.
pub open spec fn ok_reply(reply: Seq<u8>, data: Seq<u8>) -> bool {
    &&& reply.len() == REPORT_LEN
    &&& reply[2] == 0
    &&& reply[1] as int == data.len()
    &&& reply.subrange(3, 3 + data.len() as int) == data
}

/// Write, then read back, gives the lighting: a keyboard that answers the
/// lighting read with the fields the lighting write carried (the body
/// without its length byte and its padding byte) is decoded to the same
/// lighting.
pub proof fn law_light_readback(l: Light, reply: Seq<u8>)
    requires
        ok_reply(
            reply,
            light::spec_body(l).subrange(1, 8) + light::spec_body(l).subrange(9, 10),
        ),
    ensures
        light::spec_decode_reply(reply) == Ok::<Light, ReplyError>(l),
{
    let b = light::spec_body(l);
    let d = spec_reply_data(reply);
    assert(d =~= b.subrange(1, 8) + b.subrange(9, 10));
    assert(d[0] == b[1]);
    assert(d[7] == b[9]);
}

/// Write, then read back, gives the actuation: a keyboard that answers the
/// actuation read with the values the actuation write carried is decoded to
/// the same values.
pub proof fn law_actuation_readback(a: Actuation, reply: Seq<u8>)
    requires
        ok_reply(reply, actuation::spec_set_body(a).subrange(1, 4)),
    ensures
        actuation::spec_decode_reply(reply) == Ok::<Actuation, ReplyError>(a),
{
    let d = spec_reply_data(reply);
    assert(d =~= actuation::spec_set_body(a).subrange(1, 4));
}

/// Write, then read back, gives a single-byte setting: a keyboard that
/// answers the read with the value the write carried (`[1, value]`) is read
/// as that value.
pub proof fn law_toggle_readback(value: u8, reply: Seq<u8>)
    requires
        ok_reply(reply, seq![1u8, value].subrange(1, 2)),
    ensures
        spec_first_data_byte(reply) == value,
{
    assert(reply.subrange(3, 4)[0] == reply[3]);
}

/// A request frame puts the command id right after the report id and the
/// body right after it, so the keyboard sees `[cmd, body…]` at the start of
/// its report.
pub proof fn law_frame_layout(cmd: u8, body: Seq<u8>)
    requires
        body.len() + 2 <= REPORT_LEN,
    ensures
        frame(cmd, body).len() == REPORT_LEN + 1,
        frame(cmd, body)[0] == 0,
        frame(cmd, body)[1] == cmd,
        frame(cmd, body).subrange(2, 2 + body.len() as int) == body,
        forall|i: int| 2 + body.len() <= i < REPORT_LEN + 1 ==> #[trigger] frame(cmd, body)[i] == 0,
{
    assert(frame(cmd, body).subrange(2, 2 + body.len() as int) =~= body);
}


/// Line `l` sets toggle `i`.
pub open spec fn line_names_toggle(l: Seq<char>, i: int) -> bool {
    classify(l) matches Some((Key::Toggle(t), _)) && t == i
}

/// Some line of `ls` sets toggle `i`.
pub open spec fn names_toggle(ls: Seq<Seq<char>>, i: int) -> bool {
    exists|k: int| 0 <= k < ls.len() && #[trigger] line_names_toggle(ls[k], i)
}

proof fn lemma_run_keeps_unnamed(c: ConfigState, ls: Seq<Seq<char>>, mm: Seq<Option<u8>>, j: nat, i: int)
    requires
        has_toggles(c),
        0 <= i < TOGGLE_COUNT,
        !c.tweak_set[i],
    ensures
        run_lines(c, ls, mm, j).0.tweak_set.len() == c.tweak_set.len(),
        run_lines(c, ls, mm, j).0.tweak_set[i] ==> names_toggle(ls, i),
    decreases ls.len(),
{
    if ls.len() > 0 {
        let rest = ls.drop_first();
        lemma_classify_toggle(ls[0]);
        assert forall|k: int| 0 <= k < rest.len() && #[trigger] line_names_toggle(rest[k], i) implies names_toggle(ls, i) by {
            assert(rest[k] == ls[k + 1]);
            assert(line_names_toggle(ls[k + 1], i));
        }
        match classify(ls[0]) {
            None => {
                lemma_run_keeps_unnamed(c, rest, mm, j, i);
            },
            Some((key, v)) => {
                let (c2, j2, f) = apply_entry(c, key, v, mm, j);
                if key == Key::Toggle(i as usize) {
                    assert(line_names_toggle(ls[0], i));
                    if f is None {
                        lemma_run_keeps_unnamed_any(c2, rest, mm, j2);
                    }
                } else {
                    assert(c2.tweak_set.len() == c.tweak_set.len());
                    assert(!c2.tweak_set[i]);
                    assert(has_toggles(c2));
                    if f is None {
                        lemma_run_keeps_unnamed(c2, rest, mm, j2, i);
                    }
                }
            },
        }
    }
}

proof fn lemma_run_keeps_unnamed_any(c: ConfigState, ls: Seq<Seq<char>>, mm: Seq<Option<u8>>, j: nat)
    requires
        has_toggles(c),
    ensures
        run_lines(c, ls, mm, j).0.tweak_set.len() == c.tweak_set.len(),
    decreases ls.len(),
{
    if ls.len() > 0 {
        lemma_classify_toggle(ls[0]);
        match classify(ls[0]) {
            None => {
                lemma_run_keeps_unnamed_any(c, ls.drop_first(), mm, j);
            },
            Some((key, v)) => {
                let (c2, j2, f) = apply_entry(c, key, v, mm, j);
                assert(has_toggles(c2));
                if f is None {
                    lemma_run_keeps_unnamed_any(c2, ls.drop_first(), mm, j2);
                }
            },
        }
    }
}

/// Toggle values are written only when a profile names them: applying a
/// profile text never marks for writing a toggle that was unset and that
/// no line of the text names (by its name, with or without `tweak.`).
pub proof fn law_unnamed_toggles_stay_unset(c: ConfigState, text: Seq<char>, mm: Seq<Option<u8>>, i: int)
    requires
        has_toggles(c),
        0 <= i < TOGGLE_COUNT,
        !c.tweak_set[i],
        !names_toggle(lines(text), i),
    ensures
        !spec_apply_overrides(c, text, mm).0.tweak_set[i],
{
    lemma_run_keeps_unnamed(c, lines(text), mm, 0, i);
}

proof fn lemma_tweak_plan_unset(c: ConfigState, n: nat)
    requires
        n <= c.tweak_set.len(),
        forall|i: int| 0 <= i < n ==> !#[trigger] c.tweak_set[i],
    ensures
        tweak_plan(c, n) == Seq::<(u8, Seq<u8>)>::empty(),
    decreases n,
{
    if n > 0 {
        lemma_tweak_plan_unset(c, (n - 1) as nat);
        assert(!c.tweak_set[n - 1]);
        assert(tweak_plan(c, n) =~= Seq::<(u8, Seq<u8>)>::empty());
    }
}

/// Settings whose toggles are all unset are pushed as exactly the lighting
/// write and the actuation write, in that order.
pub proof fn law_unset_toggles_not_written(c: ConfigState)
    requires
        forall|i: int| 0 <= i < c.tweak_set.len() ==> !#[trigger] c.tweak_set[i],
    ensures
        apply_plan(c) == seq![
            (op::SET_LIGHT, light::spec_body(c.light)),
            (op::SET_ALL_ACTUATION, actuation::spec_set_body(c.act)),
        ],
{
    let n = min3(TOGGLE_COUNT as nat, c.tweaks.len(), c.tweak_set.len());
    lemma_tweak_plan_unset(c, n);
    assert(apply_plan(c) =~= seq![
        (op::SET_LIGHT, light::spec_body(c.light)),
        (op::SET_ALL_ACTUATION, actuation::spec_set_body(c.act)),
    ]);
}


/// Pushing settings never touches flash: none of the writes that push a
/// configuration is the flash save (0x21) or the flash reset (0x22).
pub proof fn law_apply_never_writes_flash(c: ConfigState)
    ensures
        forall|k: int|
            0 <= k < apply_plan(c).len() ==> #[trigger] apply_plan(c)[k].0 != 0x21u8
                && apply_plan(c)[k].0 != 0x22u8,
{
    let n = min3(TOGGLE_COUNT as nat, c.tweaks.len(), c.tweak_set.len());
    lemma_tweak_plan_cmds(c, n);
    let p = tweak_plan(c, n);
    let head = seq![
        (op::SET_LIGHT, light::spec_body(c.light)),
        (op::SET_ALL_ACTUATION, actuation::spec_set_body(c.act)),
    ];
    assert forall|k: int| 0 <= k < apply_plan(c).len() implies #[trigger] apply_plan(c)[k].0
        != 0x21u8 && apply_plan(c)[k].0 != 0x22u8 by {
        if k >= 2 {
            assert(apply_plan(c)[k] == p[k - 2]);
        } else {
            assert(apply_plan(c)[k] == head[k]);
        }
    }
}

proof fn lemma_tweak_plan_cmds(c: ConfigState, n: nat)
    requires
        n <= TOGGLE_COUNT,
    ensures
        forall|k: int|
            0 <= k < tweak_plan(c, n).len() ==> #[trigger] tweak_plan(c, n)[k].0 != 0x21u8
                && tweak_plan(c, n)[k].0 != 0x22u8,
    decreases n,
{
    if n > 0 {
        lemma_tweak_plan_cmds(c, (n - 1) as nat);
        let p = tweak_plan(c, (n - 1) as nat);
        let i = n - 1;
        assert(toggle_table()[i].set != 0x21u8 && toggle_table()[i].set != 0x22u8) by {
            assert(i == 0 || i == 1 || i == 2 || i == 3 || i == 4 || i == 5 || i == 6);
        }
        assert forall|k: int| 0 <= k < tweak_plan(c, n).len() implies #[trigger] tweak_plan(
            c,
            n,
        )[k].0 != 0x21u8 && tweak_plan(c, n)[k].0 != 0x22u8 by {
            if k < p.len() {
                assert(tweak_plan(c, n)[k] == p[k]);
            }
        }
    }
}

// ---------------------------------------------------------------- overwrites

/// The settings a run of profile lines writes: each field with the last
/// value a line set for it (`None` where no line set it), and the toggle
/// values by toggle index.
pub struct Writes {
    pub enabled: Option<bool>,
    pub mode: Option<u8>,
    pub brightness: Option<u8>,
    pub speed: Option<u8>,
    pub rgb: Option<(u8, u8, u8)>,
    pub colorful: Option<bool>,
    pub point: Option<u8>,
    pub down: Option<u8>,
    pub up: Option<u8>,
    pub rate_index: Option<u8>,
    pub tweaks: Map<int, u8>,
}

pub open spec fn no_writes() -> Writes {
    Writes {
        enabled: None,
        mode: None,
        brightness: None,
        speed: None,
        rgb: None,
        colorful: None,
        point: None,
        down: None,
        up: None,
        rate_index: None,
        tweaks: Map::empty(),
    }
}

pub open spec fn over<T>(x: T, w: Option<T>) -> T {
    match w {
        Some(v) => v,
        None => x,
    }
}

/// The later write if there is one, else the earlier.
pub open spec fn pick<T>(first: Option<T>, later: Option<T>) -> Option<T> {
    match later {
        Some(_) => later,
        None => first,
    }
}

/// `a`, then `b`: where both write a field, `b` wins.
pub open spec fn then(a: Writes, b: Writes) -> Writes {
    Writes {
        enabled: pick(a.enabled, b.enabled),
        mode: pick(a.mode, b.mode),
        brightness: pick(a.brightness, b.brightness),
        speed: pick(a.speed, b.speed),
        rgb: pick(a.rgb, b.rgb),
        colorful: pick(a.colorful, b.colorful),
        point: pick(a.point, b.point),
        down: pick(a.down, b.down),
        up: pick(a.up, b.up),
        rate_index: pick(a.rate_index, b.rate_index),
        tweaks: a.tweaks.union_prefer_right(b.tweaks),
    }
}

/// `c` with the writes of `w` over it; a written toggle is marked set.
pub open spec fn written(c: ConfigState, w: Writes) -> ConfigState {
    ConfigState {
        light: Light {
            enabled: over(c.light.enabled, w.enabled),
            mode: over(c.light.mode, w.mode),
            brightness: over(c.light.brightness, w.brightness),
            speed: over(c.light.speed, w.speed),
            rgb: over(c.light.rgb, w.rgb),
            colorful: over(c.light.colorful, w.colorful),
        },
        act: Actuation {
            point: over(c.act.point, w.point),
            down: over(c.act.down, w.down),
            up: over(c.act.up, w.up),
        },
        rate_index: over(c.rate_index, w.rate_index),
        step: c.step,
        tweaks: Seq::new(
            c.tweaks.len(),
            |i: int|
                if w.tweaks.contains_key(i) {
                    w.tweaks[i]
                } else {
                    c.tweaks[i]
                },
        ),
        tweak_set: Seq::new(c.tweak_set.len(), |i: int| w.tweaks.contains_key(i) || c.tweak_set[i]),
    }
}

/// What one profile entry writes, the new count of actuation lines, and
/// the fault if the entry is refused (it then writes nothing).
pub open spec fn entry_writes(key: Key, v: Seq<char>, mm: Seq<Option<u8>>, j: nat) -> (
    Writes,
    nat,
    Option<ConfigFault>,
) {
    let none = no_writes();
    match key {
        Key::Toggle(i) => match spec_parse_value(v) {
            Some(n) => (Writes { tweaks: Map::empty().insert(i as int, n), ..none }, j, None),
            None => (none, j, Some(ConfigFault::Value(v))),
        },
        Key::LightEnabled => (Writes { enabled: Some(spec_parse_bool(v)), ..none }, j, None),
        Key::LightEffect => match parse_u8(v) {
            Ok(n) => (Writes { mode: Some(n), ..none }, j, None),
            Err(k) => (none, j, Some(ConfigFault::Int(k))),
        },
        Key::LightBrightness => match parse_u8(v) {
            Ok(n) => (Writes { brightness: Some(n), ..none }, j, None),
            Err(k) => (none, j, Some(ConfigFault::Int(k))),
        },
        Key::LightSpeed => match parse_u8(v) {
            Ok(n) => (Writes { speed: Some(n), ..none }, j, None),
            Err(k) => (none, j, Some(ConfigFault::Int(k))),
        },
        Key::LightColor => match spec_parse_rgb(v) {
            Ok(rgb) => (Writes { rgb: Some(rgb), ..none }, j, None),
            Err(e) => (none, j, Some(ConfigFault::Color(e))),
        },
        Key::LightRainbow => (Writes { colorful: Some(spec_parse_bool(v)), ..none }, j, None),
        Key::PointMm => if j < mm.len() && mm[j as int] is Some {
            (Writes { point: mm[j as int], ..none }, j + 1, None)
        } else {
            (none, j, Some(ConfigFault::MmValue(j)))
        },
        Key::PressMm => if j < mm.len() && mm[j as int] is Some {
            (Writes { down: mm[j as int], ..none }, j + 1, None)
        } else {
            (none, j, Some(ConfigFault::MmValue(j)))
        },
        Key::ReleaseMm => if j < mm.len() && mm[j as int] is Some {
            (Writes { up: mm[j as int], ..none }, j + 1, None)
        } else {
            (none, j, Some(ConfigFault::MmValue(j)))
        },
        Key::RateHz => match parse_u32(v) {
            Ok(hz) => (Writes { rate_index: Some(spec_nearest_rate(hz)), ..none }, j, None),
            Err(k) => (none, j, Some(ConfigFault::Int(k))),
        },
    }
}

/// What the profile lines `ls` write, applied in order up to the first
/// refused entry, and that entry's fault.
pub open spec fn run_writes(ls: Seq<Seq<char>>, mm: Seq<Option<u8>>, j: nat) -> (
    Writes,
    Option<ConfigFault>,
)
    decreases ls.len(),
{
    if ls.len() == 0 {
        (no_writes(), None)
    } else {
        match classify(ls[0]) {
            None => run_writes(ls.drop_first(), mm, j),
            Some((key, v)) => {
                let (w, j2, f) = entry_writes(key, v, mm, j);
                if f is Some {
                    (w, f)
                } else {
                    let (w2, f2) = run_writes(ls.drop_first(), mm, j2);
                    (then(w, w2), f2)
                }
            },
        }
    }
}

/// What a profile text writes, given the caller's millimetre conversions.
pub open spec fn profile_writes(text: Seq<char>, mm: Seq<Option<u8>>) -> (
    Writes,
    Option<ConfigFault>,
) {
    run_writes(lines(text), mm, 0)
}

proof fn lemma_written_none(c: ConfigState)
    ensures
        written(c, no_writes()) == c,
{
    let r = written(c, no_writes());
    assert(r.tweaks =~= c.tweaks);
    assert(r.tweak_set =~= c.tweak_set);
}

proof fn lemma_entry_writes(c: ConfigState, key: Key, v: Seq<char>, mm: Seq<Option<u8>>, j: nat)
    requires
        has_toggles(c),
        key matches Key::Toggle(i) ==> i < TOGGLE_COUNT,
    ensures
        ({
            let (w, j2, f) = entry_writes(key, v, mm, j);
            apply_entry(c, key, v, mm, j) == (written(c, w), j2, f)
        }),
{
    let (w, j2, f) = entry_writes(key, v, mm, j);
    let r = written(c, w);
    if let Key::Toggle(i) = key {
        if let Some(n) = spec_parse_value(v) {
            assert(r.tweaks =~= c.tweaks.update(i as int, n));
            assert(r.tweak_set =~= c.tweak_set.update(i as int, true));
        } else {
            lemma_written_none(c);
        }
    } else {
        assert(w.tweaks =~= Map::<int, u8>::empty());
        assert(r.tweaks =~= c.tweaks);
        assert(r.tweak_set =~= c.tweak_set);
    }
}

proof fn lemma_written_then(c: ConfigState, a: Writes, b: Writes)
    ensures
        written(written(c, a), b) == written(c, then(a, b)),
{
    let l = written(written(c, a), b);
    let r = written(c, then(a, b));
    assert(l.tweaks =~= r.tweaks);
    assert(l.tweak_set =~= r.tweak_set);
}

proof fn lemma_written_twice(c: ConfigState, w: Writes)
    ensures
        written(written(c, w), w) == written(c, w),
{
    let l = written(written(c, w), w);
    let r = written(c, w);
    assert(l.tweaks =~= r.tweaks);
    assert(l.tweak_set =~= r.tweak_set);
}

proof fn lemma_run_writes(c: ConfigState, ls: Seq<Seq<char>>, mm: Seq<Option<u8>>, j: nat)
    requires
        has_toggles(c),
    ensures
        run_lines(c, ls, mm, j) == (written(c, run_writes(ls, mm, j).0), run_writes(ls, mm, j).1),
    decreases ls.len(),
{
    if ls.len() == 0 {
        lemma_written_none(c);
    } else {
        lemma_classify_toggle(ls[0]);
        match classify(ls[0]) {
            None => {
                lemma_run_writes(c, ls.drop_first(), mm, j);
            },
            Some((key, v)) => {
                lemma_entry_writes(c, key, v, mm, j);
                let (w, j2, f) = entry_writes(key, v, mm, j);
                if f is None {
                    let c2 = written(c, w);
                    lemma_run_writes(c2, ls.drop_first(), mm, j2);
                    lemma_written_then(c, w, run_writes(ls.drop_first(), mm, j2).0);
                }
            },
        }
    }
}

/// A profile text writes the values it names over the settings and leaves
/// every other field as it was: the result is the settings with the text's
/// writes over them (a later line winning over an earlier one for the same
/// setting), and those writes, like whether and where the text is refused,
/// depend on the text and the millimetre conversions alone.
pub proof fn law_overrides_write_named_values(c: ConfigState, text: Seq<char>, mm: Seq<Option<u8>>)
    requires
        has_toggles(c),
    ensures
        spec_apply_overrides(c, text, mm) == (
            written(c, profile_writes(text, mm).0),
            profile_writes(text, mm).1,
        ),
{
    lemma_run_writes(c, lines(text), mm, 0);
}

/// Applying a profile text twice leaves the settings as applying it once,
/// with the same outcome.
pub proof fn law_apply_twice_is_once(c: ConfigState, text: Seq<char>, mm: Seq<Option<u8>>)
    requires
        has_toggles(c),
    ensures
        spec_apply_overrides(spec_apply_overrides(c, text, mm).0, text, mm)
            == spec_apply_overrides(c, text, mm),
{
    let (w, f) = profile_writes(text, mm);
    law_overrides_write_named_values(c, text, mm);
    let c1 = written(c, w);
    assert(has_toggles(c1));
    law_overrides_write_named_values(c1, text, mm);
    lemma_written_twice(c, w);
}

// ---------------------------------------------------------------- what the operations are for

proof fn lemma_tweak_plan_has(c: ConfigState, n: nat, i: int)
    requires
        n <= c.tweaks.len(),
        n <= c.tweak_set.len(),
        n <= TOGGLE_COUNT,
        0 <= i < n,
        c.tweak_set[i],
    ensures
        exists|k: int|
            0 <= k < tweak_plan(c, n).len() && #[trigger] tweak_plan(c, n)[k] == (
                toggle_table()[i].set,
                seq![1u8, c.tweaks[i]],
            ),
    decreases n,
{
    let p = tweak_plan(c, (n - 1) as nat);
    if i < n - 1 {
        lemma_tweak_plan_has(c, (n - 1) as nat, i);
        let k = choose|k: int|
            0 <= k < p.len() && #[trigger] p[k] == (toggle_table()[i].set, seq![1u8, c.tweaks[i]]);
        assert(tweak_plan(c, n)[k] == p[k]);
    } else {
        let k = p.len() as int;
        assert(tweak_plan(c, n)[k] == (toggle_table()[i].set, seq![1u8, c.tweaks[i]]));
    }
}

/// Pushing settings writes every toggle that is set with its stored value
/// unchanged: among the writes after lighting and actuation is toggle `i`'s
/// write command with the body `[1, value]`.
pub proof fn law_set_toggles_written_with_their_values(c: ConfigState, i: int)
    requires
        0 <= i < TOGGLE_COUNT,
        i < c.tweaks.len(),
        i < c.tweak_set.len(),
        c.tweak_set[i],
    ensures
        exists|k: int|
            2 <= k < apply_plan(c).len() && #[trigger] apply_plan(c)[k] == (
                toggle_table()[i].set,
                seq![1u8, c.tweaks[i]],
            ),
{
    let n = min3(TOGGLE_COUNT as nat, c.tweaks.len(), c.tweak_set.len());
    lemma_tweak_plan_has(c, n, i);
    let p = tweak_plan(c, n);
    let k = choose|k: int|
        0 <= k < p.len() && #[trigger] p[k] == (toggle_table()[i].set, seq![1u8, c.tweaks[i]]);
    assert(apply_plan(c)[k + 2] == p[k]);
}

proof fn lemma_tweak_plan_only(c: ConfigState, n: nat, k: int)
    requires
        n <= c.tweaks.len(),
        n <= c.tweak_set.len(),
        n <= TOGGLE_COUNT,
        0 <= k < tweak_plan(c, n).len(),
    ensures
        exists|i: int|
            0 <= i < n && c.tweak_set[i] && tweak_plan(c, n)[k] == (
                #[trigger] toggle_table()[i].set,
                seq![1u8, c.tweaks[i]],
            ),
    decreases n,
{
    let p = tweak_plan(c, (n - 1) as nat);
    if k < p.len() {
        lemma_tweak_plan_only(c, (n - 1) as nat, k);
        assert(tweak_plan(c, n)[k] == p[k]);
        let i = choose|i: int|
            0 <= i < n - 1 && c.tweak_set[i] && p[k] == (
                #[trigger] toggle_table()[i].set,
                seq![1u8, c.tweaks[i]],
            );
        assert(0 <= i < n && c.tweak_set[i]);
    } else {
        let i = n - 1;
        assert(c.tweak_set[i]);
        assert(tweak_plan(c, n)[k] == (toggle_table()[i].set, seq![1u8, c.tweaks[i]]));
    }
}

/// Pushing settings writes nothing but the lighting, the actuation and set
/// toggles: every write after the first two is the write of a toggle that
/// is set, carrying its stored value.
pub proof fn law_toggle_writes_are_set_toggles(c: ConfigState, k: int)
    requires
        2 <= k < apply_plan(c).len(),
    ensures
        exists|i: int|
            0 <= i < TOGGLE_COUNT && i < c.tweak_set.len() && c.tweak_set[i] && apply_plan(c)[k] == (
                #[trigger] toggle_table()[i].set,
                seq![1u8, c.tweaks[i]],
            ),
{
    let n = min3(TOGGLE_COUNT as nat, c.tweaks.len(), c.tweak_set.len());
    let p = tweak_plan(c, n);
    assert(apply_plan(c)[k] == p[k - 2]);
    lemma_tweak_plan_only(c, n, k - 2);
}

/// What the `light` command's options do to the lighting: `--on` turns it
/// on and `--off` off (`--off` winning when both are given), `--rainbow` and
/// `--no-rainbow` likewise for the multicolour flag; brightness and speed
/// are set as asked when within range and never exceed their maxima; the
/// effect is set as asked; whatever is not asked stays as it was.
pub proof fn law_light_options(l: Light, a: LightArgs, rgb: (u8, u8, u8))
    ensures
        a.off ==> !changed_light(l, a, rgb).enabled,
        a.on && !a.off ==> changed_light(l, a, rgb).enabled,
        !a.on && !a.off ==> changed_light(l, a, rgb).enabled == l.enabled,
        a.no_rainbow ==> !changed_light(l, a, rgb).colorful,
        a.rainbow && !a.no_rainbow ==> changed_light(l, a, rgb).colorful,
        !a.rainbow && !a.no_rainbow ==> changed_light(l, a, rgb).colorful == l.colorful,
        changed_light(l, a, rgb).rgb == rgb,
        a.effect is None ==> changed_light(l, a, rgb).mode == l.mode,
        a.effect matches Some(e) ==> changed_light(l, a, rgb).mode == e,
        a.brightness is None ==> changed_light(l, a, rgb).brightness == l.brightness,
        a.brightness is Some ==> changed_light(l, a, rgb).brightness <= BRIGHTNESS_MAX,
        a.brightness is Some && a.brightness->0 <= BRIGHTNESS_MAX ==> changed_light(
            l,
            a,
            rgb,
        ).brightness == a.brightness->0,
        a.speed is None ==> changed_light(l, a, rgb).speed == l.speed,
        a.speed is Some ==> changed_light(l, a, rgb).speed <= SPEED_MAX,
        a.speed is Some && a.speed->0 <= SPEED_MAX ==> changed_light(l, a, rgb).speed
            == a.speed->0,
{
}

/// A word of lower-case letters matched in any ASCII case lower-cases to
/// that word.
proof fn lemma_word_any_case(v: Seq<char>, w: Seq<char>)
    requires
        forall|i: int| 0 <= i < w.len() ==> 'a' <= #[trigger] w[i] <= 'z',
        eq_ignore_ascii_case(v, w),
    ensures
        to_lower(v) == w,
{
    assert forall|i: int| 0 <= i < v.len() implies (#[trigger] v[i] as u32) < 0x80 by {
        assert('a' <= w[i] <= 'z');
        assert(ascii_lower_char(w[i]) == w[i]);
        assert(ascii_lower_char(v[i]) == w[i]);
    }
    assert forall|i: int| 0 <= i < v.len() implies #[trigger] ascii_lower(v)[i] == w[i] by {
        assert(ascii_lower_char(w[i]) == w[i]);
    }
    assert(ascii_lower(v) =~= w);
}

/// The on/off words, in any case: `on`, `true` and `yes` set a toggle to 1
/// and are true for a profile flag; `off`, `false` and `no` set it to 0 and
/// are false.
pub proof fn law_on_off_words(v: Seq<char>)
    ensures
        eq_ignore_ascii_case(v, "on"@) || eq_ignore_ascii_case(v, "true"@) || eq_ignore_ascii_case(
            v,
            "yes"@,
        ) ==> spec_parse_value(v) == Some(1u8) && spec_parse_bool(v),
        eq_ignore_ascii_case(v, "off"@) || eq_ignore_ascii_case(v, "false"@)
            || eq_ignore_ascii_case(v, "no"@) ==> spec_parse_value(v) == Some(0u8) && !spec_parse_bool(
            v,
        ),
{
    reveal_strlit("on");
    reveal_strlit("off");
    reveal_strlit("true");
    reveal_strlit("false");
    reveal_strlit("yes");
    reveal_strlit("no");
    reveal_strlit("1");
    if eq_ignore_ascii_case(v, "on"@) {
        lemma_word_any_case(v, "on"@);
    } else if eq_ignore_ascii_case(v, "true"@) {
        lemma_word_any_case(v, "true"@);
    } else if eq_ignore_ascii_case(v, "yes"@) {
        lemma_word_any_case(v, "yes"@);
    } else if eq_ignore_ascii_case(v, "off"@) {
        lemma_word_any_case(v, "off"@);
    } else if eq_ignore_ascii_case(v, "false"@) {
        lemma_word_any_case(v, "false"@);
    } else if eq_ignore_ascii_case(v, "no"@) {
        lemma_word_any_case(v, "no"@);
    }
}

/// The keyboards looked for: a vendor id is known exactly when it is one
/// of ATK's (0x1A81, 0x373B) or VXE's (0x3554), and every listed model has
/// a known vendor id.
pub proof fn law_known_vendor_ids(vid: u16)
    ensures
        known_vids().contains(vid) <==> (vid == 0x1A81 || vid == 0x3554 || vid == 0x373B),
        forall|i: int|
            0 <= i < model_table().len() ==> known_vids().contains(#[trigger] model_table()[i].vid),
{
    if vid == 0x1A81 {
        assert(known_vids()[0] == vid);
    } else if vid == 0x3554 {
        assert(known_vids()[1] == vid);
    } else if vid == 0x373B {
        assert(known_vids()[2] == vid);
    }
    assert forall|i: int| 0 <= i < model_table().len() implies known_vids().contains(
        #[trigger] model_table()[i].vid,
    ) by {
        let m = model_table()[i];
        assert(m.vid == 0x1A81 || m.vid == 0x373B);
        if m.vid == 0x1A81 {
            assert(known_vids()[0] == m.vid);
        } else {
            assert(known_vids()[2] == m.vid);
        }
    }
}

/// The language a tag selects: a tag other than `auto` whose first two
/// characters are `ko`, `ja` or `zh` in any case selects Korean, Japanese or
/// Chinese; any other ASCII tag English. `auto` (any case) defers to the
/// environment's tag.
pub proof fn law_language_tags(s: Seq<char>, auto_tag: Seq<char>)
    ensures
        eq_ignore_ascii_case(s, "auto"@) ==> spec_parse_lang(s, auto_tag) == spec_parse_lang(
            auto_tag,
            "en"@,
        ),
        !eq_ignore_ascii_case(s, "auto"@) && is_ascii(s) && s.len() >= 2 ==> (spec_parse_lang(
            s,
            auto_tag,
        ) == if eq_ignore_ascii_case(s.subrange(0, 2), "ko"@) {
            Lang::Ko
        } else if eq_ignore_ascii_case(s.subrange(0, 2), "ja"@) {
            Lang::Ja
        } else if eq_ignore_ascii_case(s.subrange(0, 2), "zh"@) {
            Lang::Zh
        } else {
            Lang::En
        }),
        !eq_ignore_ascii_case(s, "auto"@) && is_ascii(s) && s.len() < 2 ==> spec_parse_lang(
            s,
            auto_tag,
        ) == Lang::En,
{
    reveal_strlit("auto");
    reveal_strlit("en");
    reveal_strlit("ko");
    reveal_strlit("ja");
    reveal_strlit("zh");
    if eq_ignore_ascii_case(s, "auto"@) {
        lemma_word_any_case(s, "auto"@);
        assert(!eq_ignore_ascii_case(auto_tag, "auto"@) ==> spec_parse_lang(auto_tag, "en"@)
            == spec_parse_lang(s, auto_tag));
        if eq_ignore_ascii_case(auto_tag, "auto"@) {
            lemma_word_any_case(auto_tag, "auto"@);
            lemma_word_any_case(s, "auto"@);
            assert(to_lower("en"@) == "en"@) by {
                assert(eq_ignore_ascii_case("en"@, "en"@));
                lemma_word_any_case("en"@, "en"@);
            }
        }
    } else if is_ascii(s) {
        let l = to_lower(s);
        assert(l == ascii_lower(s));
        if s.len() >= 2 {
            let p = s.subrange(0, 2);
            assert(p[0] == s[0] && p[1] == s[1]);
        }
    }
}

/// Each language has a column of its own in the text tables, and the
/// columns come in the order English, Korean, Japanese, Chinese: the
/// language at a language's column index is that language.
pub proof fn law_language_columns(l: Lang)
    ensures
        0 <= lang_index(l) < 4,
        seq![Lang::En, Lang::Ko, Lang::Ja, Lang::Zh][lang_index(l)] == l,
{
}

} // verus!
