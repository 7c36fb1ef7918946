//! RGB lighting model.
//!
//! GET 0x45 reply data: `[enabled, mode, brightness, speed, R, G, B, colorful]`
//! SET 0x44 body:       `[len=8, enabled, mode, brightness, speed, R, G, B, 0, colorful]`

use crate::device::{op, reply_data, spec_reply_data, Reading, ReplyError, Request};
use crate::i18n::{effect_name, spec_effect_name, spec_tr, tr, Lang};
use crate::text::{
    bool_text, chars_of, dec, hex2_upper, int_error_text, parse_digits, parse_u8, parse_u8_chars,
    parse_uint_chars, push_bool, push_dec, push_hex2_upper, split, split_chars, trim, trim_chars,
    utf8_len, utf8_len_is, IntErrorKind,
};
use vstd::prelude::*;
use vstd::string::*;

verus! {

#[derive(Clone, Copy, Debug, PartialEq, Eq)]
pub struct Light {
    pub enabled: bool,
    /// Effect id (see `i18n::effect_table`).
    pub mode: u8,
    /// 0..=BRIGHTNESS_MAX
    pub brightness: u8,
    /// 0..=SPEED_MAX
    pub speed: u8,
    pub rgb: (u8, u8, u8),
    /// Rainbow / per-LED multicolour flag.
    pub colorful: bool,
}

pub const BRIGHTNESS_MAX: u8 = 8;

pub const SPEED_MAX: u8 = 4;

pub open spec fn bool_byte(b: bool) -> u8 {
    if b {
        1
    } else {
        0
    }
}

/// The lighting described by reply data `d`.
pub open spec fn spec_decode(d: Seq<u8>) -> Result<Light, ReplyError> {
    if d.len() < 8 {
        Err(ReplyError::Short(Reading::Lighting, d.len() as usize))
    } else {
        Ok(
            Light {
                enabled: d[0] != 0,
                mode: d[1],
                brightness: d[2],
                speed: d[3],
                rgb: (d[4], d[5], d[6]),
                colorful: d[7] != 0,
            },
        )
    }
}

/// The body that writes `l`.
pub open spec fn spec_body(l: Light) -> Seq<u8> {
    seq![
        8u8,
        bool_byte(l.enabled),
        l.mode,
        l.brightness,
        l.speed,
        l.rgb.0,
        l.rgb.1,
        l.rgb.2,
        0u8,
        bool_byte(l.colorful),
    ]
}

/// The lighting a read reply describes.
pub open spec fn spec_decode_reply(reply: Seq<u8>) -> Result<Light, ReplyError> {
    if reply[2] != 0 {
        Err(ReplyError::Rejected(Reading::Lighting, reply[2]))
    } else {
        spec_decode(spec_reply_data(reply))
    }
}

impl Light {
    pub fn decode(d: &[u8]) -> (r: Result<Light, ReplyError>)
        ensures
            r == spec_decode(d@),
    {
        if d.len() < 8 {
            return Err(ReplyError::Short(Reading::Lighting, d.len()));
        }
        Ok(
            Light {
                enabled: d[0] != 0,
                mode: d[1],
                brightness: d[2],
                speed: d[3],
                rgb: (d[4], d[5], d[6]),
                colorful: d[7] != 0,
            },
        )
    }

    pub fn body(&self) -> (r: [u8; 10])
        ensures
            r@ == spec_body(*self),
    {
        let en: u8 = if self.enabled {
            1
        } else {
            0
        };
        let co: u8 = if self.colorful {
            1
        } else {
            0
        };
        let r = [8u8, en, self.mode, self.brightness, self.speed, self.rgb.0, self.rgb.1, self.rgb.2, 0u8, co];
        assert(r@ =~= spec_body(*self));
        r
    }
}

/// Read the current main-zone lighting (light type 0).
pub fn get_request() -> (r: Request)
    ensures
        r.cmd == op::GET_LIGHT,
        r.body@ == seq![0u8, 0u8],
{
    Request { cmd: op::GET_LIGHT, body: vec![0u8, 0u8] }
}

/// Decodes the reply to `get_request`.
pub fn decode_reply(reply: &[u8; 64]) -> (r: Result<Light, ReplyError>)
    ensures
        r == spec_decode_reply(reply@),
{
    if reply[2] != 0 {
        return Err(ReplyError::Rejected(Reading::Lighting, reply[2]));
    }
    let d = reply_data(reply);
    Light::decode(d.as_slice())
}

/// Apply lighting to RAM (reverts on replug; flash is never written).
pub fn set_request(l: &Light) -> (r: Request)
    ensures
        r.cmd == op::SET_LIGHT,
        r.body@ == spec_body(*l),
{
    let b = l.body();
    let mut body: Vec<u8> = Vec::new();
    let mut i: usize = 0;
    while i < 10
        invariant
            i <= 10,
            b@.len() == 10,
            body@ == b@.subrange(0, i as int),
        decreases 10 - i,
    {
        body.push(b[i]);
        i = i + 1;
        assert(body@ =~= b@.subrange(0, i as int));
    }
    assert(body@ =~= b@);
    Request { cmd: op::SET_LIGHT, body }
}

/// Why a colour did not parse.
#[derive(Clone, Copy, Debug, PartialEq, Eq, Structural)]
pub enum ColorError {
    /// `#` followed by something other than six bytes.
    HexLength,
    /// A number that did not parse.
    Int(IntErrorKind),
    /// Neither `#RRGGBB` nor `r,g,b`.
    Format,
}

/// How a colour error reads.
pub open spec fn color_error_text(e: ColorError) -> Seq<char> {
    match e {
        ColorError::HexLength => "hex color must be #RRGGBB"@,
        ColorError::Int(k) => int_error_text(k),
        ColorError::Format => "color must be #RRGGBB or r,g,b"@,
    }
}

impl ColorError {
    pub fn message(&self) -> (r: String)
        ensures
            r@ == color_error_text(*self),
    {
        match self {
            ColorError::HexLength => String::from_str("hex color must be #RRGGBB"),
            ColorError::Int(k) => k.message(),
            ColorError::Format => String::from_str("color must be #RRGGBB or r,g,b"),
        }
    }
}

pub open spec fn rgb_of(v: nat) -> (u8, u8, u8) {
    (((v / 65536) % 256) as u8, ((v / 256) % 256) as u8, (v % 256) as u8)
}

/// "#RRGGBB" (exactly six hex digits, split into three bytes) or "r,g,b"
/// (three decimal bytes), after trimming.
pub open spec fn spec_parse_rgb(s: Seq<char>) -> Result<(u8, u8, u8), ColorError> {
    let t = trim(s);
    if t.len() > 0 && t[0] == '#' {
        let hex = t.drop_first();
        if utf8_len(hex) != 6 {
            Err(ColorError::HexLength)
        } else {
            match parse_digits(hex, 16, 0xffff_ffff, 0) {
                Ok(v) => Ok(rgb_of(v)),
                Err(e) => Err(ColorError::Int(e)),
            }
        }
    } else {
        let p = split(t, ',');
        if p.len() == 3 {
            match parse_u8(trim(p[0])) {
                Err(e) => Err(ColorError::Int(e)),
                Ok(r) => match parse_u8(trim(p[1])) {
                    Err(e) => Err(ColorError::Int(e)),
                    Ok(g) => match parse_u8(trim(p[2])) {
                        Err(e) => Err(ColorError::Int(e)),
                        Ok(b) => Ok((r, g, b)),
                    },
                },
            }
        } else {
            Err(ColorError::Format)
        }
    }
}

pub fn parse_rgb_chars(s: &Vec<char>) -> (r: Result<(u8, u8, u8), ColorError>)
    ensures
        r == spec_parse_rgb(s@),
{
    let t = trim_chars(s);
    if t.len() > 0 && t[0] == '#' {
        let hex = crate::text::slice_chars(&t, 1, t.len());
        assert(hex@ =~= t@.drop_first());
        if !utf8_len_is(&hex, 6) {
            return Err(ColorError::HexLength);
        }
        if hex.len() == 0 || hex[0] == '+' {
            // A sign is no hex digit.
            return Err(ColorError::Int(IntErrorKind::InvalidDigit));
        }
        match parse_uint_chars(&hex, 16, 0xffff_ffff) {
            Ok(v) => Ok((((v / 65536) % 256) as u8, ((v / 256) % 256) as u8, (v % 256) as u8)),
            Err(e) => Err(ColorError::Int(e)),
        }
    } else {
        let p = split_chars(&t, ',');
        if p.len() == 3 {
            let r = match parse_u8_chars(&trim_chars(&p[0])) {
                Ok(x) => x,
                Err(e) => {
                    return Err(ColorError::Int(e));
                },
            };
            let g = match parse_u8_chars(&trim_chars(&p[1])) {
                Ok(x) => x,
                Err(e) => {
                    return Err(ColorError::Int(e));
                },
            };
            let b = match parse_u8_chars(&trim_chars(&p[2])) {
                Ok(x) => x,
                Err(e) => {
                    return Err(ColorError::Int(e));
                },
            };
            Ok((r, g, b))
        } else {
            Err(ColorError::Format)
        }
    }
}

/// Parse "#RRGGBB" or "r,g,b" into an RGB triple.
pub fn parse_rgb(s: &str) -> (r: Result<(u8, u8, u8), ColorError>)
    ensures
        r == spec_parse_rgb(s@),
{
    let v = chars_of(s);
    parse_rgb_chars(&v)
}

/// What the `light` command was asked to change.
pub struct LightArgs {
    pub on: bool,
    pub off: bool,
    pub color: Option<String>,
    pub brightness: Option<u8>,
    pub speed: Option<u8>,
    pub effect: Option<u8>,
    pub rainbow: bool,
    pub no_rainbow: bool,
}

pub open spec fn asks_change(a: LightArgs) -> bool {
    a.on || a.off || a.color is Some || a.brightness is Some || a.speed is Some || a.effect is Some
        || a.rainbow || a.no_rainbow
}

pub open spec fn min_u8(a: u8, b: u8) -> u8 {
    if a < b {
        a
    } else {
        b
    }
}

/// `l` with the requested changes, the colour being `rgb`: `off` beats
/// `on`, `no_rainbow` beats `rainbow`, brightness and speed are capped.
pub open spec fn changed_light(l: Light, a: LightArgs, rgb: (u8, u8, u8)) -> Light {
    Light {
        enabled: if a.off {
            false
        } else if a.on {
            true
        } else {
            l.enabled
        },
        mode: match a.effect {
            Some(e) => e,
            None => l.mode,
        },
        brightness: match a.brightness {
            Some(b) => min_u8(b, BRIGHTNESS_MAX),
            None => l.brightness,
        },
        speed: match a.speed {
            Some(s) => min_u8(s, SPEED_MAX),
            None => l.speed,
        },
        rgb,
        colorful: if a.no_rainbow {
            false
        } else if a.rainbow {
            true
        } else {
            l.colorful
        },
    }
}

/// The lighting to write for the `light` command: `None` when nothing was
/// asked to change (the current state is only shown), an error when the
/// colour does not parse.
pub fn apply_args(l: Light, a: &LightArgs) -> (r: Result<Option<Light>, ColorError>)
    ensures
        !asks_change(*a) ==> r == Ok::<Option<Light>, ColorError>(None),
        asks_change(*a) ==> match a.color {
            None => r == Ok::<Option<Light>, ColorError>(Some(changed_light(l, *a, l.rgb))),
            Some(c) => match spec_parse_rgb(c@) {
                Ok(rgb) => r == Ok::<Option<Light>, ColorError>(Some(changed_light(l, *a, rgb))),
                Err(e) => r == Err::<Option<Light>, ColorError>(e),
            },
        },
{
    let changing = a.on || a.off || a.color.is_some() || a.brightness.is_some()
        || a.speed.is_some() || a.effect.is_some() || a.rainbow || a.no_rainbow;
    if !changing {
        return Ok(None);
    }
    let mut l = l;
    let ghost l0 = l;
    if a.on {
        l.enabled = true;
    }
    if a.off {
        l.enabled = false;
    }
    match &a.color {
        Some(c) => {
            match parse_rgb(c.as_str()) {
                Ok(rgb) => {
                    l.rgb = rgb;
                },
                Err(e) => {
                    return Err(e);
                },
            }
        },
        None => {},
    }
    match a.brightness {
        Some(b) => {
            l.brightness = if b < BRIGHTNESS_MAX {
                b
            } else {
                BRIGHTNESS_MAX
            };
        },
        None => {},
    }
    match a.speed {
        Some(s) => {
            l.speed = if s < SPEED_MAX {
                s
            } else {
                SPEED_MAX
            };
        },
        None => {},
    }
    match a.effect {
        Some(e) => {
            l.mode = e;
        },
        None => {},
    }
    if a.rainbow {
        l.colorful = true;
    }
    if a.no_rainbow {
        l.colorful = false;
    }
    assert(l == changed_light(l0, *a, l.rgb));
    Ok(Some(l))
}

/// The lines shown for a lighting state.
pub open spec fn spec_describe(lang: Lang, l: Light) -> Seq<Seq<char>> {
    seq![
        spec_tr(lang, "lighting"@) + ": "@ + (if l.enabled {
            "on"@
        } else {
            "off"@
        }),
        "  "@ + spec_tr(lang, "effect"@) + ": "@ + spec_effect_name(lang, l.mode) + " ("@ + dec(
            l.mode as nat,
        ) + ")"@,
        "  "@ + spec_tr(lang, "brightness"@) + ": "@ + dec(l.brightness as nat) + "/"@ + dec(
            BRIGHTNESS_MAX as nat,
        ),
        "  "@ + spec_tr(lang, "speed"@) + ": "@ + dec(l.speed as nat) + "/"@ + dec(
            SPEED_MAX as nat,
        ),
        "  "@ + spec_tr(lang, "color"@) + ": #"@ + hex2_upper(l.rgb.0) + hex2_upper(l.rgb.1)
            + hex2_upper(l.rgb.2),
        "  "@ + spec_tr(lang, "rainbow"@) + ": "@ + bool_text(l.colorful),
    ]
}

/// The lines shown for a lighting state, in `lang`.
pub fn describe(lang: Lang, l: &Light) -> (r: Vec<String>)
    ensures
        r.len() == 6,
        forall|i: int| 0 <= i < 6 ==> r[i]@ == spec_describe(lang, *l)[i],
{
    let mut r: Vec<String> = Vec::new();

    let mut s = String::from_str(tr(lang, "lighting"));
    s.append(": ");
    s.append(if l.enabled { "on" } else { "off" });
    r.push(s);

    let mut s = String::from_str("  ");
    s.append(tr(lang, "effect"));
    s.append(": ");
    let name = effect_name(lang, l.mode);
    s.append(name.as_str());
    s.append(" (");
    push_dec(&mut s, l.mode as u64);
    s.append(")");
    r.push(s);

    let mut s = String::from_str("  ");
    s.append(tr(lang, "brightness"));
    s.append(": ");
    push_dec(&mut s, l.brightness as u64);
    s.append("/");
    push_dec(&mut s, BRIGHTNESS_MAX as u64);
    r.push(s);

    let mut s = String::from_str("  ");
    s.append(tr(lang, "speed"));
    s.append(": ");
    push_dec(&mut s, l.speed as u64);
    s.append("/");
    push_dec(&mut s, SPEED_MAX as u64);
    r.push(s);

    let mut s = String::from_str("  ");
    s.append(tr(lang, "color"));
    s.append(": #");
    push_hex2_upper(&mut s, l.rgb.0);
    push_hex2_upper(&mut s, l.rgb.1);
    push_hex2_upper(&mut s, l.rgb.2);
    r.push(s);

    let mut s = String::from_str("  ");
    s.append(tr(lang, "rainbow"));
    s.append(": ");
    push_bool(&mut s, l.colorful);
    r.push(s);

    assert(r[0]@ =~= spec_describe(lang, *l)[0]);
    assert(r[1]@ =~= spec_describe(lang, *l)[1]);
    assert(r[2]@ =~= spec_describe(lang, *l)[2]);
    assert(r[3]@ =~= spec_describe(lang, *l)[3]);
    assert(r[4]@ =~= spec_describe(lang, *l)[4]);
    assert(r[5]@ =~= spec_describe(lang, *l)[5]);
    r
}

} // verus!
