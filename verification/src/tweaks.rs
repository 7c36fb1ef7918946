//! Simple single-byte keyboard settings. Each is `GET [0,0] -> value` and
//! `SET [1, value]`, so they share one tiny implementation.

use crate::device::Request;
use crate::text::{
    chars_of, dec, eq_chars, lowercase_chars, parse_u8, parse_u8_chars, push_chars, push_dec,
    split_once, split_once_chars, string_of, to_lower, trim, trim_chars,
};
use vstd::prelude::*;
use vstd::string::*;

verus! {

#[derive(Clone, Copy, Debug)]
pub struct Toggle {
    pub key: &'static str,
    pub get: u8,
    pub set: u8,
    pub help: &'static str,
}

/// Number of toggles.
pub const TOGGLE_COUNT: usize = 7;

pub open spec fn toggle_table() -> Seq<Toggle> {
    seq![
        Toggle { key: "winlock", get: 0x1D, set: 0x1E, help: "disable the Windows key" },
        Toggle { key: "wasd", get: 0x19, set: 0x1A, help: "swap WASD with arrow keys" },
        Toggle { key: "mac", get: 0x1B, set: 0x1C, help: "Mac layout (0=Win, 1=Mac)" },
        Toggle { key: "rt", get: 0x5D, set: 0x5E, help: "global rapid trigger" },
        Toggle { key: "low-latency", get: 0x27, set: 0x28, help: "low-latency mode" },
        Toggle { key: "bottom-trigger", get: 0x29, set: 0x2A, help: "full-press bottom trigger" },
        Toggle { key: "debounce", get: 0x25, set: 0x26, help: "key debounce (raw units)" },
    ]
}

/// The toggles, in display and profile order.
pub fn toggles() -> (r: Vec<Toggle>)
    ensures
        r@ == toggle_table(),
        r.len() == TOGGLE_COUNT,
{
    let r = vec![
        Toggle { key: "winlock", get: 0x1D, set: 0x1E, help: "disable the Windows key" },
        Toggle { key: "wasd", get: 0x19, set: 0x1A, help: "swap WASD with arrow keys" },
        Toggle { key: "mac", get: 0x1B, set: 0x1C, help: "Mac layout (0=Win, 1=Mac)" },
        Toggle { key: "rt", get: 0x5D, set: 0x5E, help: "global rapid trigger" },
        Toggle { key: "low-latency", get: 0x27, set: 0x28, help: "low-latency mode" },
        Toggle { key: "bottom-trigger", get: 0x29, set: 0x2A, help: "full-press bottom trigger" },
        Toggle { key: "debounce", get: 0x25, set: 0x26, help: "key debounce (raw units)" },
    ];
    assert(r@ =~= toggle_table());
    r
}

/// Index of the first toggle of `s` named `key`.
pub open spec fn index_in(s: Seq<Toggle>, key: Seq<char>) -> Option<int>
    decreases s.len(),
{
    if s.len() == 0 {
        None
    } else if s[0].key@ == key {
        Some(0)
    } else {
        match index_in(s.drop_first(), key) {
            Some(i) => Some(i + 1),
            None => None,
        }
    }
}

pub open spec fn toggle_index(key: Seq<char>) -> Option<int> {
    index_in(toggle_table(), key)
}

/// A toggle index names a listed toggle with that key.
pub proof fn lemma_toggle_index(key: Seq<char>)
    ensures
        toggle_index(key) matches Some(i) ==> 0 <= i < TOGGLE_COUNT && toggle_table()[i].key@
            == key,
{
    lemma_index_in_bound(toggle_table(), key);
}

pub proof fn lemma_index_in_bound(s: Seq<Toggle>, key: Seq<char>)
    ensures
        index_in(s, key) matches Some(i) ==> 0 <= i < s.len() && s[i].key@ == key,
    decreases s.len(),
{
    if s.len() > 0 && s[0].key@ != key {
        lemma_index_in_bound(s.drop_first(), key);
    }
}

/// Position of the toggle named by the characters `key`.
pub fn index_of_chars(key: &Vec<char>) -> (r: Option<usize>)
    ensures
        match toggle_index(key@) {
            Some(i) => r == Some(i as usize) && 0 <= i < TOGGLE_COUNT,
            None => r is None,
        },
{
    let table = toggles();
    let mut i: usize = 0;
    assert(table@.subrange(0, table.len() as int) =~= table@);
    proof {
        lemma_index_in_bound(toggle_table(), key@);
    }
    while i < table.len()
        invariant
            i <= table.len(),
            table@ == toggle_table(),
            table.len() == TOGGLE_COUNT,
            toggle_index(key@) == (match index_in(
                table@.subrange(i as int, table.len() as int),
                key@,
            ) {
                Some(j) => Some(j + i),
                None => None,
            }),
        decreases table.len() - i,
    {
        let ghost rest = table@.subrange(i as int, table.len() as int);
        assert(rest[0] == table@[i as int]);
        assert(rest.drop_first() =~= table@.subrange(i + 1, table.len() as int));
        let k = chars_of(table[i].key);
        if eq_chars(&k, key) {
            return Some(i);
        }
        i = i + 1;
    }
    None
}

/// The toggle named `key`.
pub fn find(key: &str) -> (r: Option<Toggle>)
    ensures
        match toggle_index(key@) {
            Some(i) => r == Some(toggle_table()[i]),
            None => r is None,
        },
{
    let k = chars_of(key);
    match index_of_chars(&k) {
        Some(i) => {
            let table = toggles();
            Some(table[i])
        },
        None => None,
    }
}

/// Read a toggle.
pub fn get_request(t: &Toggle) -> (r: Request)
    ensures
        r.cmd == t.get,
        r.body@ == seq![0u8, 0u8],
{
    Request { cmd: t.get, body: vec![0u8, 0u8] }
}

/// Write a toggle.
pub fn set_request(t: &Toggle, value: u8) -> (r: Request)
    ensures
        r.cmd == t.set,
        r.body@ == seq![1u8, value],
{
    Request { cmd: t.set, body: vec![1u8, value] }
}

/// The value a word such as `on`/`off`/`1`/`0`/`3` stands for: the words
/// `on`/`true`/`yes` and `off`/`false`/`no` in any case, else the lower-cased
/// text read as a byte.
pub open spec fn spec_parse_value(v: Seq<char>) -> Option<u8> {
    let l = to_lower(v);
    if l == "on"@ || l == "true"@ || l == "yes"@ {
        Some(1)
    } else if l == "off"@ || l == "false"@ || l == "no"@ {
        Some(0)
    } else {
        match parse_u8(l) {
            Ok(n) => Some(n),
            Err(_) => None,
        }
    }
}

/// A value that is neither an on/off word nor a byte.
#[derive(Debug)]
pub struct BadValue {
    pub value: String,
}

/// How a refused value `v` is reported.
pub open spec fn bad_value_text(v: Seq<char>) -> Seq<char> {
    "bad value '"@ + v + "' (on/off/number)"@
}

impl BadValue {
    pub fn message(&self) -> (r: String)
        ensures
            r@ == bad_value_text(self.value@),
    {
        let mut s = String::from_str("bad value '");
        s.append(self.value.as_str());
        s.append("' (on/off/number)");
        s
    }
}

pub fn parse_value_chars(v: &Vec<char>) -> (r: Option<u8>)
    ensures
        r == spec_parse_value(v@),
{
    let l = lowercase_chars(v);
    let on = chars_of("on");
    let tru = chars_of("true");
    let yes = chars_of("yes");
    let off = chars_of("off");
    let fal = chars_of("false");
    let no = chars_of("no");
    if eq_chars(&l, &on) || eq_chars(&l, &tru) || eq_chars(&l, &yes) {
        Some(1)
    } else if eq_chars(&l, &off) || eq_chars(&l, &fal) || eq_chars(&l, &no) {
        Some(0)
    } else {
        match parse_u8_chars(&l) {
            Ok(n) => Some(n),
            Err(_) => None,
        }
    }
}

/// Parse a value like `on`/`off`/`1`/`0`/`3`.
pub fn parse_value(v: &str) -> (r: Result<u8, BadValue>)
    ensures
        match spec_parse_value(v@) {
            Some(n) => r matches Ok(m) && m == n,
            None => r matches Err(e) && e.value@ == v@,
        },
{
    let cv = chars_of(v);
    match parse_value_chars(&cv) {
        Some(n) => Ok(n),
        None => Err(BadValue { value: String::from_str(v) }),
    }
}

/// How a toggle value is shown: `off`, `on`, or the number.
pub open spec fn shown_value(v: u8) -> Seq<char> {
    if v == 0 {
        "off"@
    } else if v == 1 {
        "on"@
    } else {
        dec(v as nat)
    }
}

/// Appends how a toggle value is shown.
pub fn push_shown_value(s: &mut String, v: u8)
    ensures
        final(s)@ == old(s)@ + shown_value(v),
{
    if v == 0 {
        s.append("off");
    } else if v == 1 {
        s.append("on");
    } else {
        push_dec(s, v as u64);
    }
}

/// Why a `name=value` setting was refused.
#[derive(Debug)]
pub enum TweakError {
    /// No `=` in the setting.
    NoAssignment,
    /// No toggle of that name (the name as written, untrimmed).
    UnknownSetting(String),
    /// The value is neither an on/off word nor a byte.
    BadValue(BadValue),
}

/// How a refused setting is reported.
pub open spec fn tweak_error_text(e: TweakError) -> Seq<char> {
    match e {
        TweakError::NoAssignment => "use name=value"@,
        TweakError::UnknownSetting(k) => "unknown setting '"@ + k@ + "'"@,
        TweakError::BadValue(b) => bad_value_text(b.value@),
    }
}

impl TweakError {
    pub fn message(&self) -> (r: String)
        ensures
            r@ == tweak_error_text(*self),
    {
        match self {
            TweakError::NoAssignment => String::from_str("use name=value"),
            TweakError::UnknownSetting(k) => {
                let mut s = String::from_str("unknown setting '");
                s.append(k.as_str());
                s.append("'");
                s
            },
            TweakError::BadValue(b) => b.message(),
        }
    }
}

/// The spec outcome of `parse_assignment`.
pub enum AssignmentOutcome {
    Assign(int, u8),
    NoAssignment,
    UnknownSetting(Seq<char>),
    BadValue(Seq<char>),
}

/// A `name=value` setting: the toggle named by the trimmed text before the
/// first `=`, and the value of the trimmed text after it.
pub open spec fn spec_parse_assignment(pair: Seq<char>) -> AssignmentOutcome {
    match split_once(pair, '=') {
        None => AssignmentOutcome::NoAssignment,
        Some((k, v)) => match toggle_index(trim(k)) {
            None => AssignmentOutcome::UnknownSetting(k),
            Some(i) => match spec_parse_value(trim(v)) {
                Some(n) => AssignmentOutcome::Assign(i, n),
                None => AssignmentOutcome::BadValue(trim(v)),
            },
        },
    }
}

/// Parses one `--set name=value` argument into a toggle and its value.
pub fn parse_assignment(pair: &str) -> (r: Result<(Toggle, u8), TweakError>)
    ensures
        match spec_parse_assignment(pair@) {
            AssignmentOutcome::Assign(i, n) => r matches Ok((t, m)) && t == toggle_table()[i] && m
                == n,
            AssignmentOutcome::NoAssignment => r matches Err(TweakError::NoAssignment),
            AssignmentOutcome::UnknownSetting(k) => r matches Err(TweakError::UnknownSetting(s))
                && s@ == k,
            AssignmentOutcome::BadValue(v) => r matches Err(TweakError::BadValue(e)) && e.value@
                == v,
        },
{
    let p = chars_of(pair);
    let (k, v) = match split_once_chars(&p, '=') {
        Some(kv) => kv,
        None => {
            return Err(TweakError::NoAssignment);
        },
    };
    let kt = trim_chars(&k);
    let i = match index_of_chars(&kt) {
        Some(i) => i,
        None => {
            return Err(TweakError::UnknownSetting(string_of(&k)));
        },
    };
    let vt = trim_chars(&v);
    match parse_value_chars(&vt) {
        Some(n) => {
            let table = toggles();
            Ok((table[i], n))
        },
        None => Err(TweakError::BadValue(BadValue { value: string_of(&vt) })),
    }
}

/// `s` left-aligned in a field of `width` characters (`{:<width}`).
pub open spec fn pad_right(s: Seq<char>, width: nat) -> Seq<char> {
    if s.len() >= width {
        s
    } else {
        s + Seq::new((width - s.len()) as nat, |i: int| ' ')
    }
}

/// The status line of a toggle: `  {key:<15} {shown:<4}  ({help})`.
pub open spec fn spec_status_line(t: Toggle, value: u8) -> Seq<char> {
    "  "@ + pad_right(t.key@, 15) + " "@ + pad_right(shown_value(value), 4) + "  ("@ + t.help@
        + ")"@
}

fn push_padded(s: &mut String, v: &Vec<char>, width: usize)
    ensures
        final(s)@ == old(s)@ + pad_right(v@, width as nat),
{
    push_chars(s, v);
    let mut k = v.len();
    while k < width
        invariant
            v.len() <= k <= width || (k == v.len() && k >= width),
            s@ == old(s)@ + v@ + Seq::new((k - v.len()) as nat, |i: int| ' '),
        decreases width - k,
    {
        s.append(" ");
        proof {
            reveal_strlit(" ");
        }
        k = k + 1;
        assert(s@ =~= old(s)@ + v@ + Seq::new((k - v.len()) as nat, |i: int| ' '));
    }
    if v.len() >= width {
        assert(s@ =~= old(s)@ + v@);
    } else {
        assert(s@ =~= old(s)@ + pad_right(v@, width as nat));
    }
}

/// The status line printed for a toggle and its current value.
pub fn status_line(t: &Toggle, value: u8) -> (r: String)
    ensures
        r@ == spec_status_line(*t, value),
{
    let mut s = String::from_str("  ");
    let k = chars_of(t.key);
    push_padded(&mut s, &k, 15);
    s.append(" ");
    let mut shown = String::new();
    push_shown_value(&mut shown, value);
    let sv = chars_of(shown.as_str());
    push_padded(&mut s, &sv, 4);
    s.append("  (");
    s.append(t.help);
    s.append(")");
    assert(s@ =~= spec_status_line(*t, value));
    s
}

} // verus!
