//! Local `key = value` profiles for keyboard settings: the profile text a
//! keyboard's settings are exported to, and how a profile text overrides
//! settings before they are pushed back.
//!
//! Millimetre values are rendered here from raw travel units and the model's
//! step (hundredths of a millimetre); turning a millimetre text back into raw
//! units is the caller's floating-point conversion, handed in per line.

use crate::actuation::{self, Actuation};
use crate::device::{rate_table, report_rate_hz, set_report_rate_request, Request, RATE_COUNT};
use crate::light::{self, color_error_text, spec_parse_rgb, ColorError, Light};
use crate::text::{
    bool_text, chars_of, dec, digit_char, digit_value, hex2_upper, int_error_text, is_text, lines,
    lines_of, lowercase_chars, parse_digits, parse_u32, parse_u32_chars, parse_u8, parse_u8_chars, push_bool, push_chars,
    push_dec, push_hex2_upper, split_once, split_once_chars, string_of, strip_prefix,
    strip_prefix_chars, to_lower, trim, trim_chars, IntErrorKind,
};
use crate::tweaks::{
    self, bad_value_text, push_shown_value, shown_value, spec_parse_value, toggle_index,
    toggle_table, BadValue, TOGGLE_COUNT,
};
use vstd::prelude::*;
use vstd::string::*;

verus! {

pub struct Config {
    pub light: Light,
    pub act: Actuation,
    pub rate_index: u8,
    /// Travel resolution in hundredths of a millimetre (10 = 0.1 mm).
    pub step: u32,
    /// Toggle values, in `tweaks::toggle_table` order.
    pub tweaks: Vec<u8>,
    /// Whether each toggle value is to be written on apply.
    pub tweak_set: Vec<bool>,
}

/// The settings a `Config` holds.
pub struct ConfigState {
    pub light: Light,
    pub act: Actuation,
    pub rate_index: u8,
    pub step: u32,
    pub tweaks: Seq<u8>,
    pub tweak_set: Seq<bool>,
}

impl View for Config {
    type V = ConfigState;

    open spec fn view(&self) -> ConfigState {
        ConfigState {
            light: self.light,
            act: self.act,
            rate_index: self.rate_index,
            step: self.step,
            tweaks: self.tweaks@,
            tweak_set: self.tweak_set@,
        }
    }
}

/// Room for every toggle.
pub open spec fn has_toggles(c: ConfigState) -> bool {
    c.tweaks.len() >= TOGGLE_COUNT && c.tweak_set.len() >= TOGGLE_COUNT
}

// ---------------------------------------------------------------- values

/// `true`/`1`/`on`/`yes` in any case; anything else is false.
pub open spec fn spec_parse_bool(v: Seq<char>) -> bool {
    let l = to_lower(v);
    l == "true"@ || l == "1"@ || l == "on"@ || l == "yes"@
}

pub fn parse_bool_chars(v: &Vec<char>) -> (r: bool)
    ensures
        r == spec_parse_bool(v@),
{
    let l = lowercase_chars(v);
    is_text(&l, "true") || is_text(&l, "1") || is_text(&l, "on") || is_text(&l, "yes")
}

/// Whether a profile value means "on". It never fails: anything but
/// `true`/`1`/`on`/`yes` (any case) is false.
pub fn parse_bool(v: &str) -> (r: bool)
    ensures
        r == spec_parse_bool(v@),
{
    let cv = chars_of(v);
    parse_bool_chars(&cv)
}

pub open spec fn dist(a: u32, b: u32) -> int {
    if a >= b {
        a - b
    } else {
        b - a
    }
}

/// The first index among the first `k` report rates whose rate is nearest
/// to `hz` (ties go to the earlier index).
pub open spec fn nearest_among(hz: u32, k: nat) -> nat
    decreases k,
{
    if k <= 1 {
        0
    } else {
        let best = nearest_among(hz, (k - 1) as nat);
        if dist(rate_table()[k - 1], hz) < dist(rate_table()[best as int], hz) {
            (k - 1) as nat
        } else {
            best
        }
    }
}

/// The report-rate index nearest to `hz`.
pub open spec fn spec_nearest_rate(hz: u32) -> u8 {
    nearest_among(hz, RATE_COUNT as nat) as u8
}

pub proof fn lemma_nearest_among(hz: u32, k: nat)
    requires
        1 <= k <= RATE_COUNT,
    ensures
        nearest_among(hz, k) < k,
        forall|j: int|
            0 <= j < k ==> dist(rate_table()[nearest_among(hz, k) as int], hz) <= dist(
                #[trigger] rate_table()[j],
                hz,
            ),
        forall|j: int|
            0 <= j < nearest_among(hz, k) ==> dist(rate_table()[nearest_among(hz, k) as int], hz)
                < dist(#[trigger] rate_table()[j], hz),
    decreases k,
{
    if k > 1 {
        lemma_nearest_among(hz, (k - 1) as nat);
    }
}

/// The report-rate index whose rate is nearest to `hz`: no listed rate is
/// nearer, and every earlier index is farther.
pub fn nearest_rate(hz: u32) -> (r: u8)
    ensures
        r == spec_nearest_rate(hz),
        (r as int) < RATE_COUNT,
        forall|j: int|
            0 <= j < RATE_COUNT ==> dist(rate_table()[r as int], hz) <= dist(
                #[trigger] rate_table()[j],
                hz,
            ),
        forall|j: int|
            0 <= j < r ==> dist(rate_table()[r as int], hz) < dist(#[trigger] rate_table()[j], hz),
{
    proof {
        lemma_nearest_among(hz, RATE_COUNT as nat);
    }
    let mut best: usize = 0;
    let mut best_d: u32 = match report_rate_hz(0) {
        Some(h) => if h >= hz {
            h - hz
        } else {
            hz - h
        },
        None => 0,
    };
    let mut i: usize = 1;
    while i < RATE_COUNT
        invariant
            1 <= i <= RATE_COUNT,
            best == nearest_among(hz, i as nat),
            best < i,
            best_d == dist(rate_table()[best as int], hz),
        decreases RATE_COUNT - i,
    {
        let h = match report_rate_hz(i) {
            Some(h) => h,
            None => 0,
        };
        let d = if h >= hz {
            h - hz
        } else {
            hz - h
        };
        if d < best_d {
            best = i;
            best_d = d;
        }
        i = i + 1;
    }
    best as u8
}

// ---------------------------------------------------------------- profile lines

/// The setting a profile line addresses.
#[derive(Clone, Copy, Debug, PartialEq, Eq, Structural)]
pub enum Key {
    /// A toggle, by its index in `tweaks::toggle_table`.
    Toggle(usize),
    LightEnabled,
    LightEffect,
    LightBrightness,
    LightSpeed,
    LightColor,
    LightRainbow,
    PointMm,
    PressMm,
    ReleaseMm,
    RateHz,
}

/// The key a (trimmed) key text names: a toggle name, with or without the
/// `tweak.` prefix, or one of the fixed setting names.
pub open spec fn key_of(k: Seq<char>) -> Option<Key> {
    let tk = match strip_prefix(k, "tweak."@) {
        Some(x) => x,
        None => k,
    };
    match toggle_index(tk) {
        Some(i) => Some(Key::Toggle(i as usize)),
        None => if k == "light.enabled"@ {
            Some(Key::LightEnabled)
        } else if k == "light.effect"@ {
            Some(Key::LightEffect)
        } else if k == "light.brightness"@ {
            Some(Key::LightBrightness)
        } else if k == "light.speed"@ {
            Some(Key::LightSpeed)
        } else if k == "light.color"@ {
            Some(Key::LightColor)
        } else if k == "light.rainbow"@ {
            Some(Key::LightRainbow)
        } else if k == "actuation.point_mm"@ {
            Some(Key::PointMm)
        } else if k == "actuation.press_mm"@ {
            Some(Key::PressMm)
        } else if k == "actuation.release_mm"@ {
            Some(Key::ReleaseMm)
        } else if k == "rate.hz"@ {
            Some(Key::RateHz)
        } else {
            None
        },
    }
}

/// What a profile line says: nothing for blank lines, full-line comments
/// (`#` first; a `#` later in the line is part of the value, as in colours),
/// lines without `=` and unknown keys; else the key and the trimmed value.
#[verifier::opaque]
pub open spec fn classify(line: Seq<char>) -> Option<(Key, Seq<char>)> {
    let l = trim(line);
    if l.len() == 0 || l[0] == '#' {
        None
    } else {
        match split_once(l, '=') {
            None => None,
            Some((k, v)) => match key_of(trim(k)) {
                Some(key) => Some((key, trim(v))),
                None => None,
            },
        }
    }
}

fn key_of_chars(k: &Vec<char>) -> (r: Option<Key>)
    ensures
        r == key_of(k@),
{
    let idx = match strip_prefix_chars(k, "tweak.") {
        Some(x) => tweaks::index_of_chars(&x),
        None => tweaks::index_of_chars(k),
    };
    match idx {
        Some(i) => Some(Key::Toggle(i)),
        None => if is_text(k, "light.enabled") {
            Some(Key::LightEnabled)
        } else if is_text(k, "light.effect") {
            Some(Key::LightEffect)
        } else if is_text(k, "light.brightness") {
            Some(Key::LightBrightness)
        } else if is_text(k, "light.speed") {
            Some(Key::LightSpeed)
        } else if is_text(k, "light.color") {
            Some(Key::LightColor)
        } else if is_text(k, "light.rainbow") {
            Some(Key::LightRainbow)
        } else if is_text(k, "actuation.point_mm") {
            Some(Key::PointMm)
        } else if is_text(k, "actuation.press_mm") {
            Some(Key::PressMm)
        } else if is_text(k, "actuation.release_mm") {
            Some(Key::ReleaseMm)
        } else if is_text(k, "rate.hz") {
            Some(Key::RateHz)
        } else {
            None
        },
    }
}

/// What a profile line says.
pub fn classify_line(line: &Vec<char>) -> (r: Option<(Key, Vec<char>)>)
    ensures
        match classify(line@) {
            Some((key, v)) => r matches Some((k2, w)) && k2 == key && w@ == v,
            None => r is None,
        },
{
    proof {
        reveal(classify);
    }
    let l = trim_chars(line);
    if l.len() == 0 || l[0] == '#' {
        return None;
    }
    let (k, v) = match split_once_chars(&l, '=') {
        Some(kv) => kv,
        None => {
            return None;
        },
    };
    let kt = trim_chars(&k);
    match key_of_chars(&kt) {
        Some(key) => Some((key, trim_chars(&v))),
        None => None,
    }
}

// ---------------------------------------------------------------- overrides

/// Why a profile text was refused.
#[derive(Debug)]
pub enum ConfigError {
    /// A toggle value that is neither an on/off word nor a byte.
    Value(BadValue),
    /// A number that did not parse.
    Int(IntErrorKind),
    /// A colour that did not parse.
    Color(ColorError),
    /// The caller's conversion of the millimetre value of the `n`-th
    /// actuation line (counting from 0) failed or was not given.
    MmValue(usize),
}

impl ConfigError {
    /// How the error reads; `None` for a millimetre value, which the
    /// caller's own conversion error describes.
    pub fn message(&self) -> (r: Option<String>)
        ensures
            match *self {
                ConfigError::Value(b) => r matches Some(s) && s@ == bad_value_text(b.value@),
                ConfigError::Int(k) => r matches Some(s) && s@ == int_error_text(k),
                ConfigError::Color(c) => r matches Some(s) && s@ == color_error_text(c),
                ConfigError::MmValue(_) => r is None,
            },
    {
        match self {
            ConfigError::Value(b) => Some(b.message()),
            ConfigError::Int(k) => Some(k.message()),
            ConfigError::Color(c) => Some(c.message()),
            ConfigError::MmValue(_) => None,
        }
    }
}

/// `ConfigError` as a value.
pub enum ConfigFault {
    Value(Seq<char>),
    Int(IntErrorKind),
    Color(ColorError),
    MmValue(nat),
}

pub open spec fn fault_of(e: ConfigError) -> ConfigFault {
    match e {
        ConfigError::Value(b) => ConfigFault::Value(b.value@),
        ConfigError::Int(k) => ConfigFault::Int(k),
        ConfigError::Color(c) => ConfigFault::Color(c),
        ConfigError::MmValue(n) => ConfigFault::MmValue(n as nat),
    }
}

pub open spec fn with_light(c: ConfigState, l: Light) -> ConfigState {
    ConfigState { light: l, ..c }
}

pub open spec fn with_act(c: ConfigState, a: Actuation) -> ConfigState {
    ConfigState { act: a, ..c }
}

/// One profile entry applied to `c`; `j` counts the actuation lines met so
/// far and `mm` holds the caller's raw values for them. Returns the new
/// settings, the new count, and the fault if the entry was refused (the
/// settings are then unchanged).
pub open spec fn apply_entry(
    c: ConfigState,
    key: Key,
    v: Seq<char>,
    mm: Seq<Option<u8>>,
    j: nat,
) -> (ConfigState, nat, Option<ConfigFault>) {
    match key {
        Key::Toggle(i) => match spec_parse_value(v) {
            Some(n) => (
                ConfigState {
                    tweaks: c.tweaks.update(i as int, n),
                    tweak_set: c.tweak_set.update(i as int, true),
                    ..c
                },
                j,
                None,
            ),
            None => (c, j, Some(ConfigFault::Value(v))),
        },
        Key::LightEnabled => (
            with_light(c, Light { enabled: spec_parse_bool(v), ..c.light }),
            j,
            None,
        ),
        Key::LightEffect => match parse_u8(v) {
            Ok(n) => (with_light(c, Light { mode: n, ..c.light }), j, None),
            Err(k) => (c, j, Some(ConfigFault::Int(k))),
        },
        Key::LightBrightness => match parse_u8(v) {
            Ok(n) => (with_light(c, Light { brightness: n, ..c.light }), j, None),
            Err(k) => (c, j, Some(ConfigFault::Int(k))),
        },
        Key::LightSpeed => match parse_u8(v) {
            Ok(n) => (with_light(c, Light { speed: n, ..c.light }), j, None),
            Err(k) => (c, j, Some(ConfigFault::Int(k))),
        },
        Key::LightColor => match spec_parse_rgb(v) {
            Ok(rgb) => (with_light(c, Light { rgb, ..c.light }), j, None),
            Err(e) => (c, j, Some(ConfigFault::Color(e))),
        },
        Key::LightRainbow => (
            with_light(c, Light { colorful: spec_parse_bool(v), ..c.light }),
            j,
            None,
        ),
        Key::PointMm => if j < mm.len() && mm[j as int] is Some {
            (with_act(c, Actuation { point: mm[j as int]->0, ..c.act }), j + 1, None)
        } else {
            (c, j, Some(ConfigFault::MmValue(j)))
        },
        Key::PressMm => if j < mm.len() && mm[j as int] is Some {
            (with_act(c, Actuation { down: mm[j as int]->0, ..c.act }), j + 1, None)
        } else {
            (c, j, Some(ConfigFault::MmValue(j)))
        },
        Key::ReleaseMm => if j < mm.len() && mm[j as int] is Some {
            (with_act(c, Actuation { up: mm[j as int]->0, ..c.act }), j + 1, None)
        } else {
            (c, j, Some(ConfigFault::MmValue(j)))
        },
        Key::RateHz => match parse_u32(v) {
            Ok(hz) => (ConfigState { rate_index: spec_nearest_rate(hz), ..c }, j, None),
            Err(k) => (c, j, Some(ConfigFault::Int(k))),
        },
    }
}

/// A toggle entry with a valid value has a slot in `c` to be written to.
pub open spec fn entry_fits(c: ConfigState, key: Key, v: Seq<char>) -> bool {
    match key {
        Key::Toggle(i) => spec_parse_value(v) is Some ==> i < c.tweaks.len() && i
            < c.tweak_set.len(),
        _ => true,
    }
}

/// Every toggle entry that the lines `ls` reach (up to the first refused
/// entry) with a valid value has a slot in the settings it is applied to.
pub open spec fn slots_fit(c: ConfigState, ls: Seq<Seq<char>>, mm: Seq<Option<u8>>, j: nat) -> bool
    decreases ls.len(),
{
    if ls.len() == 0 {
        true
    } else {
        match classify(ls[0]) {
            None => slots_fit(c, ls.drop_first(), mm, j),
            Some((key, v)) => {
                let (c2, j2, f) = apply_entry(c, key, v, mm, j);
                &&& entry_fits(c, key, v)
                &&& (f is None ==> slots_fit(c2, ls.drop_first(), mm, j2))
            },
        }
    }
}

/// The settings `c` have a slot for every toggle the profile text sets.
pub open spec fn overrides_fit(c: ConfigState, text: Seq<char>, mm: Seq<Option<u8>>) -> bool {
    slots_fit(c, lines(text), mm, 0)
}

/// The profile lines `ls` applied in order to `c`, stopping at the first
/// refused entry: the resulting settings and the fault, if any.
pub open spec fn run_lines(c: ConfigState, ls: Seq<Seq<char>>, mm: Seq<Option<u8>>, j: nat) -> (
    ConfigState,
    Option<ConfigFault>,
)
    decreases ls.len(),
{
    if ls.len() == 0 {
        (c, None)
    } else {
        match classify(ls[0]) {
            None => run_lines(c, ls.drop_first(), mm, j),
            Some((key, v)) => {
                let (c2, j2, f) = apply_entry(c, key, v, mm, j);
                if f is Some {
                    (c2, f)
                } else {
                    run_lines(c2, ls.drop_first(), mm, j2)
                }
            },
        }
    }
}

/// The overrides a profile text makes to `c`.
pub open spec fn spec_apply_overrides(c: ConfigState, text: Seq<char>, mm: Seq<Option<u8>>) -> (
    ConfigState,
    Option<ConfigFault>,
) {
    run_lines(c, lines(text), mm, 0)
}

/// The values of the actuation lines among `ls`, in order.
pub open spec fn mm_texts(ls: Seq<Seq<char>>) -> Seq<Seq<char>>
    decreases ls.len(),
{
    if ls.len() == 0 {
        seq![]
    } else {
        let rest = mm_texts(ls.drop_first());
        match classify(ls[0]) {
            Some((Key::PointMm, v)) => seq![v] + rest,
            Some((Key::PressMm, v)) => seq![v] + rest,
            Some((Key::ReleaseMm, v)) => seq![v] + rest,
            _ => rest,
        }
    }
}

/// A toggle entry names a listed toggle.
pub proof fn lemma_classify_toggle(line: Seq<char>)
    ensures
        classify(line) matches Some((Key::Toggle(i), _)) ==> i < TOGGLE_COUNT,
{
    reveal(classify);
    let l = trim(line);
    if let Some((k, v)) = split_once(l, '=') {
        let k2 = trim(k);
        let tk = match strip_prefix(k2, "tweak."@) {
            Some(x) => x,
            None => k2,
        };
        tweaks::lemma_toggle_index(tk);
    }
}

/// Settings with a slot for every toggle (as `Config::new` makes them)
/// accept every profile text.
pub proof fn lemma_toggles_fit(c: ConfigState, ls: Seq<Seq<char>>, mm: Seq<Option<u8>>, j: nat)
    requires
        has_toggles(c),
    ensures
        slots_fit(c, ls, mm, j),
    decreases ls.len(),
{
    if ls.len() > 0 {
        lemma_classify_toggle(ls[0]);
        match classify(ls[0]) {
            None => {
                lemma_toggles_fit(c, ls.drop_first(), mm, j);
            },
            Some((key, v)) => {
                let (c2, j2, f) = apply_entry(c, key, v, mm, j);
                assert(has_toggles(c2));
                if f is None {
                    lemma_toggles_fit(c2, ls.drop_first(), mm, j2);
                }
            },
        }
    }
}

pub proof fn lemma_run_lines_step(c: ConfigState, ls: Seq<Seq<char>>, mm: Seq<Option<u8>>, j: nat, k: int)
    requires
        0 <= k < ls.len(),
    ensures
        run_lines(c, ls.subrange(k, ls.len() as int), mm, j) == (match classify(ls[k]) {
            None => run_lines(c, ls.subrange(k + 1, ls.len() as int), mm, j),
            Some((key, v)) => {
                let (c2, j2, f) = apply_entry(c, key, v, mm, j);
                if f is Some {
                    (c2, f)
                } else {
                    run_lines(c2, ls.subrange(k + 1, ls.len() as int), mm, j2)
                }
            },
        }),
{
    let s = ls.subrange(k, ls.len() as int);
    assert(s[0] == ls[k]);
    assert(s.drop_first() =~= ls.subrange(k + 1, ls.len() as int));
}

impl Config {
    /// Settings read from a keyboard, with every toggle unset: toggle
    /// values are written only when a profile names them.
    pub fn new(light: Light, act: Actuation, rate_index: u8, step: u32) -> (r: Config)
        ensures
            r@.light == light,
            r@.act == act,
            r@.rate_index == rate_index,
            r@.step == step,
            r@.tweaks == Seq::new(TOGGLE_COUNT as nat, |i: int| 0u8),
            r@.tweak_set == Seq::new(TOGGLE_COUNT as nat, |i: int| false),
    {
        let mut tweaks: Vec<u8> = Vec::new();
        let mut tweak_set: Vec<bool> = Vec::new();
        let mut i: usize = 0;
        while i < TOGGLE_COUNT
            invariant
                i <= TOGGLE_COUNT,
                tweaks@ == Seq::new(i as nat, |k: int| 0u8),
                tweak_set@ == Seq::new(i as nat, |k: int| false),
            decreases TOGGLE_COUNT - i,
        {
            tweaks.push(0u8);
            tweak_set.push(false);
            i = i + 1;
            assert(tweaks@ =~= Seq::new(i as nat, |k: int| 0u8));
            assert(tweak_set@ =~= Seq::new(i as nat, |k: int| false));
        }
        Config { light, act, rate_index, step, tweaks, tweak_set }
    }

    /// Records toggle `i`'s value as read from the keyboard, to be written
    /// back on apply.
    pub fn set_tweak(&mut self, i: usize, value: u8)
        requires
            i < old(self).tweaks.len(),
            i < old(self).tweak_set.len(),
        ensures
            final(self)@ == (ConfigState {
                tweaks: old(self)@.tweaks.update(i as int, value),
                tweak_set: old(self)@.tweak_set.update(i as int, true),
                ..old(self)@
            }),
    {
        self.tweaks.set(i, value);
        self.tweak_set.set(i, true);
    }

    fn apply_entry_exec(&mut self, key: Key, v: &Vec<char>, mm: &[Option<u8>], j: usize) -> (r: Result<usize, ConfigError>)
        requires
            entry_fits(old(self)@, key, v@),
        ensures
            ({
                let (c2, j2, f) = apply_entry(old(self)@, key, v@, mm@, j as nat);
                &&& final(self)@ == c2
                &&& match f {
                    None => r == Ok::<usize, ConfigError>(j2 as usize) && j2 <= j + 1,
                    Some(x) => r matches Err(e) && fault_of(e) == x,
                }
            }),
    {
        match key {
            Key::Toggle(i) => match tweaks::parse_value_chars(v) {
                Some(n) => {
                    self.tweaks.set(i, n);
                    self.tweak_set.set(i, true);
                    Ok(j)
                },
                None => Err(ConfigError::Value(BadValue { value: string_of(v) })),
            },
            Key::LightEnabled => {
                self.light.enabled = parse_bool_chars(v);
                Ok(j)
            },
            Key::LightEffect => match parse_u8_chars(v) {
                Ok(n) => {
                    self.light.mode = n;
                    Ok(j)
                },
                Err(k) => Err(ConfigError::Int(k)),
            },
            Key::LightBrightness => match parse_u8_chars(v) {
                Ok(n) => {
                    self.light.brightness = n;
                    Ok(j)
                },
                Err(k) => Err(ConfigError::Int(k)),
            },
            Key::LightSpeed => match parse_u8_chars(v) {
                Ok(n) => {
                    self.light.speed = n;
                    Ok(j)
                },
                Err(k) => Err(ConfigError::Int(k)),
            },
            Key::LightColor => match light::parse_rgb_chars(v) {
                Ok(rgb) => {
                    self.light.rgb = rgb;
                    Ok(j)
                },
                Err(e) => Err(ConfigError::Color(e)),
            },
            Key::LightRainbow => {
                self.light.colorful = parse_bool_chars(v);
                Ok(j)
            },
            Key::PointMm => if j < mm.len() && mm[j].is_some() {
                self.act.point = mm[j].unwrap();
                Ok(j + 1)
            } else {
                Err(ConfigError::MmValue(j))
            },
            Key::PressMm => if j < mm.len() && mm[j].is_some() {
                self.act.down = mm[j].unwrap();
                Ok(j + 1)
            } else {
                Err(ConfigError::MmValue(j))
            },
            Key::ReleaseMm => if j < mm.len() && mm[j].is_some() {
                self.act.up = mm[j].unwrap();
                Ok(j + 1)
            } else {
                Err(ConfigError::MmValue(j))
            },
            Key::RateHz => match parse_u32_chars(v) {
                Ok(hz) => {
                    self.rate_index = nearest_rate(hz);
                    Ok(j)
                },
                Err(k) => Err(ConfigError::Int(k)),
            },
        }
    }

    /// Override fields from a profile text (file values win). `mm[n]` is the
    /// raw travel value of the `n`-th actuation line's millimetre text (see
    /// `mm_values`), or `None` where that text is not a number. Lines are
    /// applied in order; on the first refused line the error is returned and
    /// the lines before it stay applied. Only the toggles the text sets need
    /// a slot; settings made by `Config::new` have one for every toggle
    /// (`lemma_toggles_fit`).
    pub fn apply_overrides(&mut self, text: &str, mm: &[Option<u8>]) -> (r: Result<(), ConfigError>)
        requires
            overrides_fit(old(self)@, text@, mm@),
        ensures
            ({
                let (c2, f) = spec_apply_overrides(old(self)@, text@, mm@);
                &&& final(self)@ == c2
                &&& match f {
                    None => r is Ok,
                    Some(x) => r matches Err(e) && fault_of(e) == x,
                }
            }),
    {
        let tv = chars_of(text);
        let ls = lines_of(&tv);
        let ghost all = lines(text@);
        let ghost c0 = self@;
        let mut k: usize = 0;
        let mut j: usize = 0;
        assert(ls@.len() == all.len());
        assert(all.subrange(0, all.len() as int) =~= all);
        while k < ls.len()
            invariant
                k <= ls.len(),
                ls.len() == all.len(),
                all == lines(text@),
                forall|i: int| 0 <= i < ls.len() ==> ls[i]@ == all[i],
                j <= k,
                c0 == old(self)@,
                slots_fit(self@, all.subrange(k as int, all.len() as int), mm@, j as nat),
                spec_apply_overrides(c0, text@, mm@) == run_lines(
                    self@,
                    all.subrange(k as int, all.len() as int),
                    mm@,
                    j as nat,
                ),
            decreases ls.len() - k,
        {
            proof {
                lemma_run_lines_step(self@, all, mm@, j as nat, k as int);
                let rest = all.subrange(k as int, all.len() as int);
                assert(rest[0] == all[k as int]);
                assert(rest.drop_first() =~= all.subrange(k + 1, all.len() as int));
            }
            match classify_line(&ls[k]) {
                None => {},
                Some((key, v)) => {
                    proof {
                        lemma_classify_toggle(all[k as int]);
                    }
                    let ghost before = self@;
                    let ghost step = apply_entry(before, key, v@, mm@, j as nat);
                    match self.apply_entry_exec(key, &v, mm, j) {
                        Ok(j2) => {
                            j = j2;
                        },
                        Err(e) => {
                            assert(step.2 is Some);
                            assert(run_lines(
                                before,
                                all.subrange(k as int, all.len() as int),
                                mm@,
                                j as nat,
                            ) == (step.0, step.2));
                            return Err(e);
                        },
                    }
                },
            }
            k = k + 1;
        }
        assert(all.subrange(k as int, all.len() as int).len() == 0);
        Ok(())
    }

    /// The millimetre texts of the actuation lines of a profile text, in
    /// order: what the caller converts to raw units for `apply_overrides`.
    pub fn mm_values(text: &str) -> (r: Vec<String>)
        ensures
            r.len() == mm_texts(lines(text@)).len(),
            forall|i: int| 0 <= i < r.len() ==> r[i]@ == mm_texts(lines(text@))[i],
    {
        let tv = chars_of(text);
        let ls = lines_of(&tv);
        let ghost all = lines(text@);
        let mut r: Vec<String> = Vec::new();
        let mut k: usize = ls.len();
        assert(all.subrange(all.len() as int, all.len() as int) =~= Seq::<Seq<char>>::empty());
        while k > 0
            invariant
                k <= ls.len(),
                ls.len() == all.len(),
                all == lines(text@),
                forall|i: int| 0 <= i < ls.len() ==> ls[i]@ == all[i],
                r.len() == mm_texts(all.subrange(k as int, all.len() as int)).len(),
                forall|i: int|
                    0 <= i < r.len() ==> r[i]@ == mm_texts(
                        all.subrange(k as int, all.len() as int),
                    ).reverse()[i],
            decreases k,
        {
            k = k - 1;
            let ghost s = all.subrange(k as int, all.len() as int);
            assert(s[0] == all[k as int]);
            assert(s.drop_first() =~= all.subrange(k + 1, all.len() as int));
            let ghost before = r@;
            match classify_line(&ls[k]) {
                Some((key, v)) => {
                    match key {
                        Key::PointMm | Key::PressMm | Key::ReleaseMm => {
                            r.push(string_of(&v));
                            assert(seq![v@] + mm_texts(s.drop_first()) == mm_texts(s));
                            assert((seq![v@] + mm_texts(s.drop_first())).reverse() =~= mm_texts(
                                s.drop_first(),
                            ).reverse().push(v@));
                        },
                        _ => {},
                    }
                },
                None => {},
            }
        }
        assert(all.subrange(0, all.len() as int) =~= all);
        let ghost want = mm_texts(all);
        let mut out: Vec<String> = Vec::new();
        let mut i: usize = r.len();
        while i > 0
            invariant
                i <= r.len(),
                r.len() == want.len(),
                forall|x: int| 0 <= x < r.len() ==> r[x]@ == want.reverse()[x],
                out.len() == r.len() - i,
                forall|x: int| 0 <= x < out.len() ==> out[x]@ == want[x],
            decreases i,
        {
            i = i - 1;
            out.push(r[i].clone());
            assert(want.reverse()[i as int] == want[want.len() - 1 - i]);
        }
        out
    }
}


// ---------------------------------------------------------------- export

/// A millimetre value, exactly: `raw` units of `step` hundredths of a
/// millimetre, with one decimal when the step is a whole number of tenths
/// (`1.5`) and two otherwise (`0.06`), so no value is rounded.
pub open spec fn mm_text(raw: u8, step: u32) -> Seq<char> {
    let h = raw as nat * step as nat;
    if step % 10 == 0 {
        dec(h / 100) + seq!['.', digit_char((h / 10) % 10)]
    } else {
        dec(h / 100) + seq!['.', digit_char((h / 10) % 10), digit_char(h % 10)]
    }
}

/// The value of a millimetre text in hundredths of a millimetre: whole
/// millimetres in decimal digits, `.`, then one or two decimal digits.
pub open spec fn mm_hundredths(t: Seq<char>) -> Option<nat> {
    match split_once(t, '.') {
        None => None,
        Some((w, f)) => {
            if w.len() > 0 && parse_digits(w, 10, 0xffff_ffff_ffff_ffff, 0) is Ok && (f.len()
                == 1 || f.len() == 2) && forall|k: int|
                0 <= k < f.len() ==> #[trigger] digit_value(f[k], 10) is Some {
                let whole = parse_digits(w, 10, 0xffff_ffff_ffff_ffff, 0)->Ok_0;
                let tenth = digit_value(f[0], 10)->0;
                let hundredth = if f.len() == 2 {
                    digit_value(f[1], 10)->0
                } else {
                    0
                };
                Some(whole * 100 + tenth * 10 + hundredth)
            } else {
                None
            }
        },
    }
}

/// The rate of a report-rate index, 0 for an unlisted index.
pub open spec fn rate_hz_or_zero(i: u8) -> u32 {
    if (i as int) < rate_table().len() {
        rate_table()[i as int]
    } else {
        0
    }
}

pub open spec fn min_nat(a: nat, b: nat) -> nat {
    if a < b {
        a
    } else {
        b
    }
}

/// The profile line of toggle `i` with value `v`.
pub open spec fn tweak_line(i: int, v: u8) -> Seq<char> {
    "tweak."@ + toggle_table()[i].key@ + " = "@ + shown_value(v)
}

/// The lines of the profile text of `c`.
pub open spec fn profile_lines(c: ConfigState) -> Seq<Seq<char>> {
    let l = c.light;
    seq![
        "# atk68 profile \u{2014} apply with: atk68 apply <file>"@,
        "light.enabled = "@ + bool_text(l.enabled),
        "light.effect = "@ + dec(l.mode as nat),
        "light.brightness = "@ + dec(l.brightness as nat),
        "light.speed = "@ + dec(l.speed as nat),
        "light.color = #"@ + hex2_upper(l.rgb.0) + hex2_upper(l.rgb.1) + hex2_upper(l.rgb.2),
        "light.rainbow = "@ + bool_text(l.colorful),
        "actuation.point_mm = "@ + mm_text(c.act.point, c.step),
        "actuation.press_mm = "@ + mm_text(c.act.down, c.step),
        "actuation.release_mm = "@ + mm_text(c.act.up, c.step),
        "rate.hz = "@ + dec(rate_hz_or_zero(c.rate_index) as nat),
    ] + Seq::new(
        min_nat(TOGGLE_COUNT as nat, c.tweaks.len()),
        |i: int| tweak_line(i, c.tweaks[i]),
    )
}

/// Lines, each followed by a line feed.
pub open spec fn join_lines(ls: Seq<Seq<char>>) -> Seq<char>
    decreases ls.len(),
{
    if ls.len() == 0 {
        seq![]
    } else {
        join_lines(ls.drop_last()) + ls.last() + seq!['\n']
    }
}

/// The profile text of `c`.
pub open spec fn spec_serialize(c: ConfigState) -> Seq<char> {
    join_lines(profile_lines(c))
}

fn push_mm(s: &mut String, raw: u8, step: u32)
    ensures
        final(s)@ == old(s)@ + mm_text(raw, step),
{
    assert((raw as u64) * (step as u64) <= 255 * 0xffff_ffff) by (nonlinear_arith)
        requires
            raw <= 255,
            step <= 0xffff_ffff,
    ;
    let h: u64 = (raw as u64) * (step as u64);
    push_dec(s, h / 100);
    s.append(".");
    proof {
        reveal_strlit(".");
    }
    push_dec(s, (h / 10) % 10);
    assert(dec(((h / 10) % 10) as nat) == seq![digit_char(((h / 10) % 10) as nat)]);
    if step % 10 != 0 {
        push_dec(s, h % 10);
        assert(dec((h % 10) as nat) == seq![digit_char((h % 10) as nat)]);
    }
    assert(s@ =~= old(s)@ + mm_text(raw, step));
}

impl Config {
    /// The lines of the profile text.
    pub fn profile_lines(&self) -> (r: Vec<String>)
        ensures
            r.len() == profile_lines(self@).len(),
            forall|i: int| 0 <= i < r.len() ==> r[i]@ == profile_lines(self@)[i],
    {
        let ghost want = profile_lines(self@);
        let l = &self.light;
        let mut r: Vec<String> = Vec::new();
        r.push(String::from_str("# atk68 profile \u{2014} apply with: atk68 apply <file>"));

        let mut s = String::from_str("light.enabled = ");
        push_bool(&mut s, l.enabled);
        r.push(s);

        let mut s = String::from_str("light.effect = ");
        push_dec(&mut s, l.mode as u64);
        r.push(s);

        let mut s = String::from_str("light.brightness = ");
        push_dec(&mut s, l.brightness as u64);
        r.push(s);

        let mut s = String::from_str("light.speed = ");
        push_dec(&mut s, l.speed as u64);
        r.push(s);

        let mut s = String::from_str("light.color = #");
        push_hex2_upper(&mut s, l.rgb.0);
        push_hex2_upper(&mut s, l.rgb.1);
        push_hex2_upper(&mut s, l.rgb.2);
        r.push(s);

        let mut s = String::from_str("light.rainbow = ");
        push_bool(&mut s, l.colorful);
        r.push(s);

        let mut s = String::from_str("actuation.point_mm = ");
        push_mm(&mut s, self.act.point, self.step);
        r.push(s);

        let mut s = String::from_str("actuation.press_mm = ");
        push_mm(&mut s, self.act.down, self.step);
        r.push(s);

        let mut s = String::from_str("actuation.release_mm = ");
        push_mm(&mut s, self.act.up, self.step);
        r.push(s);

        let hz: u32 = match report_rate_hz(self.rate_index as usize) {
            Some(h) => h,
            None => 0,
        };
        let mut s = String::from_str("rate.hz = ");
        push_dec(&mut s, hz as u64);
        r.push(s);

        assert(r[0]@ =~= want[0]);
        assert(r[1]@ =~= want[1]);
        assert(r[2]@ =~= want[2]);
        assert(r[3]@ =~= want[3]);
        assert(r[4]@ =~= want[4]);
        assert(r[5]@ =~= want[5]);
        assert(r[6]@ =~= want[6]);
        assert(r[7]@ =~= want[7]);
        assert(r[8]@ =~= want[8]);
        assert(r[9]@ =~= want[9]);
        assert(r[10]@ =~= want[10]);

        let table = tweaks::toggles();
        let n = if self.tweaks.len() < TOGGLE_COUNT {
            self.tweaks.len()
        } else {
            TOGGLE_COUNT
        };
        let mut i: usize = 0;
        while i < n
            invariant
                i <= n,
                n == min_nat(TOGGLE_COUNT as nat, self.tweaks@.len()),
                table@ == toggle_table(),
                want == profile_lines(self@),
                want.len() == 11 + n,
                r.len() == 11 + i,
                forall|x: int| 0 <= x < r.len() ==> r[x]@ == want[x],
            decreases n - i,
        {
            let mut s = String::from_str("tweak.");
            s.append(table[i].key);
            s.append(" = ");
            push_shown_value(&mut s, self.tweaks[i]);
            assert(s@ =~= want[11 + i]);
            r.push(s);
            i = i + 1;
        }
        r
    }

    /// The profile text of these settings: one `key = value` line each for
    /// lighting, actuation (millimetres), polling rate and every toggle.
    pub fn serialize(&self) -> (r: String)
        ensures
            r@ == spec_serialize(self@),
    {
        let ls = self.profile_lines();
        let ghost want = profile_lines(self@);
        let mut out = String::new();
        let mut i: usize = 0;
        assert(want.subrange(0, 0) =~= Seq::<Seq<char>>::empty());
        while i < ls.len()
            invariant
                i <= ls.len(),
                ls.len() == want.len(),
                forall|x: int| 0 <= x < ls.len() ==> ls[x]@ == want[x],
                out@ == join_lines(want.subrange(0, i as int)),
            decreases ls.len() - i,
        {
            let ghost prev = out@;
            out.append(ls[i].as_str());
            push_chars(&mut out, &vec!['\n']);
            proof {
                let t = want.subrange(0, i + 1);
                assert(t.drop_last() =~= want.subrange(0, i as int));
                assert(t.last() == want[i as int]);
            }
            assert(out@ =~= join_lines(want.subrange(0, i + 1)));
            i = i + 1;
        }
        assert(want.subrange(0, want.len() as int) =~= want);
        out
    }
}

// ---------------------------------------------------------------- apply

pub open spec fn min3(a: nat, b: nat, c: nat) -> nat {
    min_nat(min_nat(a, b), c)
}

/// Writes for the first `n` toggles that are set.
pub open spec fn tweak_plan(c: ConfigState, n: nat) -> Seq<(u8, Seq<u8>)>
    decreases n,
{
    if n == 0 {
        seq![]
    } else {
        tweak_plan(c, (n - 1) as nat) + if c.tweak_set[n - 1] {
            seq![(toggle_table()[n - 1].set, seq![1u8, c.tweaks[n - 1]])]
        } else {
            seq![]
        }
    }
}

/// The writes that push `c` to the keyboard (RAM), in order: lighting,
/// actuation, then the value of every toggle that is set. The polling rate
/// comes last and separately (`rate_request`).
pub open spec fn apply_plan(c: ConfigState) -> Seq<(u8, Seq<u8>)> {
    seq![
        (crate::device::op::SET_LIGHT, light::spec_body(c.light)),
        (crate::device::op::SET_ALL_ACTUATION, actuation::spec_set_body(c.act)),
    ] + tweak_plan(c, min3(TOGGLE_COUNT as nat, c.tweaks.len(), c.tweak_set.len()))
}

impl Config {
    /// The writes that push these settings to the keyboard, in order.
    pub fn requests(&self) -> (r: Vec<Request>)
        ensures
            r.len() == apply_plan(self@).len(),
            forall|k: int|
                0 <= k < r.len() ==> r[k].cmd == apply_plan(self@)[k].0 && r[k].body@
                    == apply_plan(self@)[k].1,
    {
        let ghost c = self@;
        let mut r: Vec<Request> = Vec::new();
        r.push(light::set_request(&self.light));
        r.push(actuation::set_request(&self.act));
        let table = tweaks::toggles();
        let mut n = TOGGLE_COUNT;
        if self.tweaks.len() < n {
            n = self.tweaks.len();
        }
        if self.tweak_set.len() < n {
            n = self.tweak_set.len();
        }
        let mut i: usize = 0;
        while i < n
            invariant
                i <= n,
                n == min3(TOGGLE_COUNT as nat, c.tweaks.len(), c.tweak_set.len()),
                c == self@,
                table@ == toggle_table(),
                r.len() == 2 + tweak_plan(c, i as nat).len(),
                forall|k: int|
                    0 <= k < r.len() ==> r[k].cmd == (seq![
                        (crate::device::op::SET_LIGHT, light::spec_body(c.light)),
                        (crate::device::op::SET_ALL_ACTUATION, actuation::spec_set_body(c.act)),
                    ] + tweak_plan(c, i as nat))[k].0 && r[k].body@ == (seq![
                        (crate::device::op::SET_LIGHT, light::spec_body(c.light)),
                        (crate::device::op::SET_ALL_ACTUATION, actuation::spec_set_body(c.act)),
                    ] + tweak_plan(c, i as nat))[k].1,
            decreases n - i,
        {
            if self.tweak_set[i] {
                r.push(tweaks::set_request(&table[i], self.tweaks[i]));
            }
            i = i + 1;
        }
        r
    }

    /// The polling-rate write, only when the keyboard's current index differs
    /// (a rate change can re-enumerate the device, so it is sent last).
    pub fn rate_request(&self, current: u8) -> (r: Option<Request>)
        ensures
            current == self.rate_index ==> r is None,
            current != self.rate_index ==> (r matches Some(q) && q.cmd
                == crate::device::op::SET_REPORT_RATE && q.body@ == seq![1u8, self.rate_index]),
    {
        if current != self.rate_index {
            Some(set_report_rate_request(self.rate_index))
        } else {
            None
        }
    }
}

} // verus!
