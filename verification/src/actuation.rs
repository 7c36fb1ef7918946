//! Global actuation + rapid-trigger settings (cmd 0x42/0x43).
//!
//! GET 0x43 reply data: `[point, down, up]`; SET 0x42 body: `[len=3, point,
//! down, up]`. Values are raw firmware units of the model's travel step;
//! `down`/`up` are the rapid-trigger press / release sensitivities.

use crate::device::{op, reply_data, spec_reply_data, Reading, ReplyError, Request};
use crate::i18n::{spec_tr, tr, Lang};
use crate::text::{dec, digit_char, push_dec};
use vstd::prelude::*;
use vstd::string::*;

verus! {

#[derive(Clone, Copy, Debug, PartialEq, Eq, Structural)]
pub struct Actuation {
    pub point: u8,
    pub down: u8,
    pub up: u8,
}

/// The setting a read reply describes.
pub open spec fn spec_decode_reply(reply: Seq<u8>) -> Result<Actuation, ReplyError> {
    let d = spec_reply_data(reply);
    if reply[2] != 0 {
        Err(ReplyError::Rejected(Reading::Actuation, reply[2]))
    } else if d.len() < 3 {
        Err(ReplyError::Short(Reading::Actuation, d.len() as usize))
    } else {
        Ok(Actuation { point: d[0], down: d[1], up: d[2] })
    }
}

/// The body that writes `a`.
pub open spec fn spec_set_body(a: Actuation) -> Seq<u8> {
    seq![3u8, a.point, a.down, a.up]
}

/// Read the global actuation and rapid-trigger values.
pub fn get_request() -> (r: Request)
    ensures
        r.cmd == op::GET_ALL_ACTUATION,
        r.body@ == seq![0u8, 0u8],
{
    Request { cmd: op::GET_ALL_ACTUATION, body: vec![0u8, 0u8] }
}

/// Decodes the reply to `get_request`.
pub fn decode_reply(reply: &[u8; 64]) -> (r: Result<Actuation, ReplyError>)
    ensures
        r == spec_decode_reply(reply@),
{
    if reply[2] != 0 {
        return Err(ReplyError::Rejected(Reading::Actuation, reply[2]));
    }
    let d = reply_data(reply);
    if d.len() < 3 {
        return Err(ReplyError::Short(Reading::Actuation, d.len()));
    }
    Ok(Actuation { point: d[0], down: d[1], up: d[2] })
}

/// Write the global actuation and rapid-trigger values (RAM).
pub fn set_request(a: &Actuation) -> (r: Request)
    ensures
        r.cmd == op::SET_ALL_ACTUATION,
        r.body@ == spec_set_body(*a),
{
    Request { cmd: op::SET_ALL_ACTUATION, body: vec![3u8, a.point, a.down, a.up] }
}

pub open spec fn or_keep(new: Option<u8>, current: u8) -> u8 {
    match new {
        Some(v) => v,
        None => current,
    }
}

/// The actuation to write for the `actuation` command, given the requested
/// raw values: `None` when nothing was requested (the current values are
/// only shown), else `a` with each requested value replaced and the others
/// kept.
pub fn with_requested(a: Actuation, point: Option<u8>, down: Option<u8>, up: Option<u8>) -> (r:
    Option<Actuation>)
    ensures
        point is None && down is None && up is None ==> r is None,
        !(point is None && down is None && up is None) ==> r == Some(
            Actuation {
                point: or_keep(point, a.point),
                down: or_keep(down, a.down),
                up: or_keep(up, a.up),
            },
        ),
{
    if point.is_none() && down.is_none() && up.is_none() {
        return None;
    }
    let mut r = a;
    if let Some(p) = point {
        r.point = p;
    }
    if let Some(d) = down {
        r.down = d;
    }
    if let Some(u) = up {
        r.up = u;
    }
    Some(r)
}

/// A travel value in millimetres with two decimals: `raw` units of `step`
/// hundredths of a millimetre (exact, so no rounding is involved).
pub open spec fn mm2_text(raw: u8, step: u32) -> Seq<char> {
    let h = raw as nat * step as nat;
    dec(h / 100) + seq!['.', digit_char((h / 10) % 10), digit_char(h % 10)]
}

/// The line shown for one value: its label, millimetres and raw units.
pub open spec fn value_line(label: Seq<char>, raw: u8, step: u32) -> Seq<char> {
    "  "@ + label + ": "@ + mm2_text(raw, step) + " mm ("@ + dec(raw as nat) + ")"@
}

/// The lines shown for the actuation and rapid-trigger values.
pub open spec fn spec_describe(lang: Lang, a: Actuation, step: u32) -> Seq<Seq<char>> {
    seq![
        value_line(spec_tr(lang, "actuation"@), a.point, step),
        value_line(spec_tr(lang, "rt_press"@), a.down, step),
        value_line(spec_tr(lang, "rt_release"@), a.up, step),
    ]
}

fn value_line_of(label: &str, raw: u8, step: u32) -> (r: String)
    ensures
        r@ == value_line(label@, raw, step),
{
    assert((raw as u64) * (step as u64) <= 255 * 0xffff_ffff) by (nonlinear_arith)
        requires
            raw <= 255,
            step <= 0xffff_ffff,
    ;
    let h: u64 = (raw as u64) * (step as u64);
    let mut s = String::from_str("  ");
    s.append(label);
    s.append(": ");
    push_dec(&mut s, h / 100);
    s.append(".");
    push_dec(&mut s, (h / 10) % 10);
    push_dec(&mut s, h % 10);
    s.append(" mm (");
    push_dec(&mut s, raw as u64);
    s.append(")");
    proof {
        reveal_strlit(".");
        assert(dec(((h / 10) % 10) as nat) == seq![digit_char(((h / 10) % 10) as nat)]);
        assert(dec((h % 10) as nat) == seq![digit_char((h % 10) as nat)]);
    }
    assert(s@ =~= value_line(label@, raw, step));
    s
}

/// The lines shown for the actuation and rapid-trigger values, in `lang`,
/// for a model whose travel step is `step` hundredths of a millimetre.
pub fn describe(lang: Lang, a: &Actuation, step: u32) -> (r: Vec<String>)
    ensures
        r.len() == 3,
        forall|i: int| 0 <= i < 3 ==> r[i]@ == spec_describe(lang, *a, step)[i],
{
    let mut r: Vec<String> = Vec::new();
    r.push(value_line_of(tr(lang, "actuation"), a.point, step));
    r.push(value_line_of(tr(lang, "rt_press"), a.down, step));
    r.push(value_line_of(tr(lang, "rt_release"), a.up, step));
    r
}

} // verus!
