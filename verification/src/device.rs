//! The keyboard's HID command layer: which interfaces are ours, the model
//! table, request frames, reply matching and reply decoding.
//!
//! Frame (64 bytes): `[commandId, length, resultCode/selector, data…]`. A
//! request goes out as an output report with report id 0 in front; a reply
//! echoes `commandId` in byte 0, carries `resultCode` in byte 2, and its data
//! starts at byte 3.

pub mod op;

use crate::text::{
    chars_of, dec, hex2_lower, parse_uint, parse_uint_chars, push_dec, push_hex2_lower, words,
    words_of, IntErrorKind,
};
use vstd::prelude::*;
use vstd::string::*;

verus! {

/// Length of every report in either direction.
pub const REPORT_LEN: usize = 64;

/// Vendor usage pages start here; the configuration interface lives on one.
pub const VENDOR_USAGE_MIN: u16 = 0xFF00;

/// Travel resolution of an unlisted model, in hundredths of a millimetre.
pub const DEFAULT_STEP: u32 = 10;

/// How many input reports a request waits through before giving up.
pub const MAX_REPLY_READS: usize = 16;

/// Vendor ids of the ATK/VXE keyboards.
pub open spec fn known_vids() -> Seq<u16> {
    seq![0x1A81u16, 0x3554u16, 0x373Bu16]
}

pub fn is_known_vid(vid: u16) -> (r: bool)
    ensures
        r == known_vids().contains(vid),
{
    let r = vid == 0x1A81 || vid == 0x3554 || vid == 0x373B;
    proof {
        if r {
            if vid == 0x1A81 {
                assert(known_vids()[0] == vid);
            } else if vid == 0x3554 {
                assert(known_vids()[1] == vid);
            } else {
                assert(known_vids()[2] == vid);
            }
        }
    }
    r
}

/// Whether a HID interface is a keyboard's configuration interface: a known
/// vendor id on a vendor usage page.
pub fn is_config_interface(vid: u16, usage_page: u16) -> (r: bool)
    ensures
        r == (known_vids().contains(vid) && usage_page >= VENDOR_USAGE_MIN),
{
    is_known_vid(vid) && usage_page >= VENDOR_USAGE_MIN
}

/// A keyboard on the gtech controller. `step` is the actuation/travel
/// resolution in hundredths of a millimetre (10 = 0.1 mm).
#[derive(Clone, Copy)]
pub struct Model {
    pub vid: u16,
    pub pid: u16,
    pub name: &'static str,
    pub step: u32,
}

/// The known models, in lookup order.
pub open spec fn model_table() -> Seq<Model> {
    seq![
        Model { vid: 0x1A81, pid: 0x207E, name: "ATK68", step: 10 },
        Model { vid: 0x1A81, pid: 0x2075, name: "ATK75 G", step: 10 },
        Model { vid: 0x1A81, pid: 0x2082, name: "ATK75 L", step: 10 },
        Model { vid: 0x1A81, pid: 0x2083, name: "ATK68 L", step: 2 },
        Model { vid: 0x373B, pid: 0x1005, name: "ATK68 Air", step: 2 },
        Model { vid: 0x373B, pid: 0x2002, name: "ATK68 V2 Pro", step: 10 },
        Model { vid: 0x373B, pid: 0x2029, name: "ATK68 V2", step: 10 },
        Model { vid: 0x373B, pid: 0x1259, name: "ATK68 V4", step: 10 },
        Model { vid: 0x373B, pid: 0x21B8, name: "ATK68 V4", step: 10 },
        Model { vid: 0x373B, pid: 0x21C6, name: "ATK68 RX", step: 10 },
        Model { vid: 0x373B, pid: 0x2169, name: "ATK EDGE75", step: 10 },
        Model { vid: 0x373B, pid: 0x21BC, name: "EDGE 63HE Ultimate", step: 10 },
        Model { vid: 0x373B, pid: 0x2188, name: "ATK75 V2", step: 10 },
        Model { vid: 0x373B, pid: 0x21C9, name: "ATK RS7 Turbo", step: 10 },
        Model { vid: 0x373B, pid: 0x1177, name: "ATK x QK Hex80", step: 10 },
    ]
}

/// The first model of `s` with this vendor and product id.
pub open spec fn find_model(s: Seq<Model>, vid: u16, pid: u16) -> Option<Model>
    decreases s.len(),
{
    if s.len() == 0 {
        None
    } else if s[0].vid == vid && s[0].pid == pid {
        Some(s[0])
    } else {
        find_model(s.drop_first(), vid, pid)
    }
}

pub open spec fn spec_model_of(vid: u16, pid: u16) -> Option<Model> {
    find_model(model_table(), vid, pid)
}

/// The known models, in lookup order.
pub fn models() -> (r: Vec<Model>)
    ensures
        r@ == model_table(),
{
    let r = vec![
        Model { vid: 0x1A81, pid: 0x207E, name: "ATK68", step: 10 },
        Model { vid: 0x1A81, pid: 0x2075, name: "ATK75 G", step: 10 },
        Model { vid: 0x1A81, pid: 0x2082, name: "ATK75 L", step: 10 },
        Model { vid: 0x1A81, pid: 0x2083, name: "ATK68 L", step: 2 },
        Model { vid: 0x373B, pid: 0x1005, name: "ATK68 Air", step: 2 },
        Model { vid: 0x373B, pid: 0x2002, name: "ATK68 V2 Pro", step: 10 },
        Model { vid: 0x373B, pid: 0x2029, name: "ATK68 V2", step: 10 },
        Model { vid: 0x373B, pid: 0x1259, name: "ATK68 V4", step: 10 },
        Model { vid: 0x373B, pid: 0x21B8, name: "ATK68 V4", step: 10 },
        Model { vid: 0x373B, pid: 0x21C6, name: "ATK68 RX", step: 10 },
        Model { vid: 0x373B, pid: 0x2169, name: "ATK EDGE75", step: 10 },
        Model { vid: 0x373B, pid: 0x21BC, name: "EDGE 63HE Ultimate", step: 10 },
        Model { vid: 0x373B, pid: 0x2188, name: "ATK75 V2", step: 10 },
        Model { vid: 0x373B, pid: 0x21C9, name: "ATK RS7 Turbo", step: 10 },
        Model { vid: 0x373B, pid: 0x1177, name: "ATK x QK Hex80", step: 10 },
    ];
    assert(r@ =~= model_table());
    r
}

/// The listed model with this vendor and product id, if any.
pub fn model_of(vid: u16, pid: u16) -> (r: Option<Model>)
    ensures
        r == spec_model_of(vid, pid),
{
    let table = models();
    let mut i: usize = 0;
    assert(table@.subrange(0, table.len() as int) =~= table@);
    while i < table.len()
        invariant
            i <= table.len(),
            table@ == model_table(),
            spec_model_of(vid, pid) == find_model(
                table@.subrange(i as int, table.len() as int),
                vid,
                pid,
            ),
        decreases table.len() - i,
    {
        let ghost rest = table@.subrange(i as int, table.len() as int);
        assert(rest[0] == table@[i as int]);
        assert(rest.drop_first() =~= table@.subrange(i + 1, table.len() as int));
        let m = table[i];
        if m.vid == vid && m.pid == pid {
            return Some(m);
        }
        i = i + 1;
    }
    None
}

/// An attached configuration interface.
#[derive(Clone)]
pub struct Found {
    pub vid: u16,
    pub pid: u16,
    pub product: String,
    pub path: String,
    pub usage_page: u16,
}

/// How a keyboard is presented and scaled.
pub struct Identity {
    /// Friendly model name, or the USB product string for unlisted models.
    pub name: String,
    /// Travel resolution in hundredths of a millimetre.
    pub travel_step: u32,
}

/// Name and travel resolution of an attached keyboard: the model table's,
/// or the product string and the default resolution for unlisted models.
pub fn identify(found: &Found) -> (r: Identity)
    ensures
        match spec_model_of(found.vid, found.pid) {
            Some(m) => r.name@ == m.name@ && r.travel_step == m.step,
            None => r.name@ == found.product@ && r.travel_step == DEFAULT_STEP,
        },
{
    match model_of(found.vid, found.pid) {
        Some(m) => Identity { name: String::from_str(m.name), travel_step: m.step },
        None => Identity { name: found.product.clone(), travel_step: DEFAULT_STEP },
    }
}

/// The setting a failed read was for.
#[derive(Clone, Copy, Debug, PartialEq, Eq, Structural)]
pub enum Reading {
    Actuation,
    Lighting,
}

/// Why a command failed at the protocol level.
#[derive(Clone, Copy, Debug, PartialEq, Eq, Structural)]
pub enum ReplyError {
    /// The request body does not fit in a report.
    BodyTooLong,
    /// No reply echoing this command id arrived.
    NoReply(u8),
    /// The keyboard answered a read with a non-zero result code.
    Rejected(Reading, u8),
    /// The reply carried fewer data bytes than the setting needs.
    Short(Reading, usize),
    /// No key at this matrix position (row, col).
    NoKey(u8, u8),
    /// Setting the per-key value at (row, col) was refused.
    KeyNotSet(u8, u8),
    /// A raw exchange needs at least the command id.
    EmptyPayload,
}

/// What a setting is called in error texts.
pub open spec fn reading_name(r: Reading) -> Seq<char> {
    match r {
        Reading::Actuation => "actuation"@,
        Reading::Lighting => "lighting"@,
    }
}

/// How a protocol error reads.
pub open spec fn reply_error_text(e: ReplyError) -> Seq<char> {
    match e {
        ReplyError::BodyTooLong => "command body too long"@,
        ReplyError::NoReply(cmd) => "no reply for command 0x"@ + hex2_lower(cmd),
        ReplyError::Rejected(r, code) => "keyboard returned error 0x"@ + hex2_lower(code)
            + " reading "@ + reading_name(r),
        ReplyError::Short(Reading::Actuation, n) => "short actuation reply ("@ + dec(n as nat)
            + " bytes)"@,
        ReplyError::Short(Reading::Lighting, n) => "short light reply ("@ + dec(n as nat)
            + " bytes)"@,
        ReplyError::NoKey(row, col) => "no key at row "@ + dec(row as nat) + ", col "@ + dec(
            col as nat,
        ),
        ReplyError::KeyNotSet(row, col) => "could not set rapid trigger at row "@ + dec(
            row as nat,
        ) + ", col "@ + dec(col as nat),
        ReplyError::EmptyPayload => "empty payload"@,
    }
}

fn push_position(s: &mut String, row: u8, col: u8)
    ensures
        final(s)@ == old(s)@ + dec(row as nat) + ", col "@ + dec(col as nat),
{
    push_dec(s, row as u64);
    s.append(", col ");
    push_dec(s, col as u64);
}

impl ReplyError {
    pub fn message(&self) -> (r: String)
        ensures
            r@ == reply_error_text(*self),
    {
        match *self {
            ReplyError::BodyTooLong => String::from_str("command body too long"),
            ReplyError::NoReply(cmd) => {
                let mut s = String::from_str("no reply for command 0x");
                push_hex2_lower(&mut s, cmd);
                s
            },
            ReplyError::Rejected(r, code) => {
                let mut s = String::from_str("keyboard returned error 0x");
                push_hex2_lower(&mut s, code);
                match r {
                    Reading::Actuation => s.append(" reading actuation"),
                    Reading::Lighting => s.append(" reading lighting"),
                }
                proof {
                    reveal_strlit(" reading actuation");
                    reveal_strlit(" reading lighting");
                    reveal_strlit(" reading ");
                    reveal_strlit("actuation");
                    reveal_strlit("lighting");
                }
                assert(s@ =~= reply_error_text(*self));
                s
            },
            ReplyError::Short(r, n) => {
                let mut s = match r {
                    Reading::Actuation => String::from_str("short actuation reply ("),
                    Reading::Lighting => String::from_str("short light reply ("),
                };
                push_dec(&mut s, n as u64);
                s.append(" bytes)");
                s
            },
            ReplyError::NoKey(row, col) => {
                let mut s = String::from_str("no key at row ");
                push_position(&mut s, row, col);
                s
            },
            ReplyError::KeyNotSet(row, col) => {
                let mut s = String::from_str("could not set rapid trigger at row ");
                push_position(&mut s, row, col);
                s
            },
            ReplyError::EmptyPayload => String::from_str("empty payload"),
        }
    }
}

/// A command id and its body (`[length, selector/data…]`).
pub struct Request {
    pub cmd: u8,
    pub body: Vec<u8>,
}

/// The output report for a request: report id 0, the command id, the body,
/// zero padding to the full report.
pub open spec fn frame(cmd: u8, body: Seq<u8>) -> Seq<u8> {
    seq![0u8, cmd] + body + Seq::new((REPORT_LEN - 1 - body.len()) as nat, |i: int| 0u8)
}

/// Builds the output report sent for `cmd` with `body`.
pub fn request_frame(cmd: u8, body: &[u8]) -> (r: Result<Vec<u8>, ReplyError>)
    ensures
        body@.len() + 2 > REPORT_LEN ==> r == Err::<Vec<u8>, ReplyError>(ReplyError::BodyTooLong),
        body@.len() + 2 <= REPORT_LEN ==> (r matches Ok(v) && v@ == frame(cmd, body@)),
{
    if body.len() > REPORT_LEN - 2 {
        return Err(ReplyError::BodyTooLong);
    }
    let mut out: Vec<u8> = Vec::new();
    out.push(0u8);
    out.push(cmd);
    let mut i: usize = 0;
    while i < body.len()
        invariant
            i <= body@.len(),
            out@ == seq![0u8, cmd] + body@.subrange(0, i as int),
        decreases body@.len() - i,
    {
        out.push(body[i]);
        i = i + 1;
        assert(out@ =~= seq![0u8, cmd] + body@.subrange(0, i as int));
    }
    assert(body@.subrange(0, body@.len() as int) =~= body@);
    let ghost prefix = out@;
    while out.len() < REPORT_LEN + 1
        invariant
            prefix == seq![0u8, cmd] + body@,
            prefix.len() <= out@.len() <= REPORT_LEN + 1,
            out@.subrange(0, prefix.len() as int) == prefix,
            forall|k: int| prefix.len() <= k < out@.len() ==> out@[k] == 0u8,
        decreases REPORT_LEN + 1 - out.len(),
    {
        out.push(0u8);
    }
    assert(out@ =~= frame(cmd, body@));
    Ok(out)
}

/// What to do with an input report while waiting for a reply.
#[derive(Clone, Copy, Debug, PartialEq, Eq, Structural)]
pub enum ReadStep {
    /// This report is the reply.
    Accept,
    /// Not ours (for example an unsolicited report): read the next one.
    ReadAgain,
    /// Nothing more to wait for: the request got no reply.
    GiveUp,
}

/// Waiting for the reply to one request.
pub struct ReplyWait {
    pub cmd: u8,
    /// Input reports read so far.
    pub reads: usize,
}

impl ReplyWait {
    pub fn new(cmd: u8) -> (r: ReplyWait)
        ensures
            r.cmd == cmd,
            r.reads == 0,
    {
        ReplyWait { cmd, reads: 0 }
    }

    /// Decides on the input report just read (`n` bytes; 0 when the read
    /// timed out). Only a report echoing the command id is accepted, and at
    /// most `MAX_REPLY_READS` reports are read for one request.
    pub fn on_report(&mut self, n: usize, reply: &[u8; 64]) -> (step: ReadStep)
        requires
            old(self).reads < MAX_REPLY_READS,
        ensures
            final(self).cmd == old(self).cmd,
            final(self).reads == old(self).reads + 1,
            step == (if n == 0 {
                ReadStep::GiveUp
            } else if reply@[0] == old(self).cmd {
                ReadStep::Accept
            } else if final(self).reads < MAX_REPLY_READS {
                ReadStep::ReadAgain
            } else {
                ReadStep::GiveUp
            }),
            step == ReadStep::ReadAgain ==> final(self).reads < MAX_REPLY_READS,
    {
        self.reads = self.reads + 1;
        if n == 0 {
            ReadStep::GiveUp
        } else if reply[0] == self.cmd {
            ReadStep::Accept
        } else if self.reads < MAX_REPLY_READS {
            ReadStep::ReadAgain
        } else {
            ReadStep::GiveUp
        }
    }
}

/// Number of data bytes of a reply: its length byte, capped to the report.
pub open spec fn data_len(reply: Seq<u8>) -> int {
    if reply[1] < REPORT_LEN - 3 {
        reply[1] as int
    } else {
        REPORT_LEN - 3
    }
}

/// The data region of a reply (`length` bytes starting after the header).
pub open spec fn spec_reply_data(reply: Seq<u8>) -> Seq<u8> {
    reply.subrange(3, 3 + data_len(reply))
}

/// The data region of a reply.
pub fn reply_data(reply: &[u8; 64]) -> (r: Vec<u8>)
    ensures
        r@ == spec_reply_data(reply@),
{
    let len: usize = if (reply[1] as usize) < REPORT_LEN - 3 {
        reply[1] as usize
    } else {
        REPORT_LEN - 3
    };
    let mut r: Vec<u8> = Vec::new();
    let mut i: usize = 0;
    while i < len
        invariant
            len == data_len(reply@),
            len <= 61,
            reply@.len() == 64,
            i <= len,
            r@ == reply@.subrange(3, 3 + i),
        decreases len - i,
    {
        r.push(reply[3 + i]);
        i = i + 1;
        assert(r@ =~= reply@.subrange(3, 3 + i));
    }
    r
}

/// First data byte of a reply, or 0 when it carries no data.
pub open spec fn spec_first_data_byte(reply: Seq<u8>) -> u8 {
    if reply[1] > 0 {
        reply[3]
    } else {
        0
    }
}

/// First data byte of a simple read, or 0 when the reply carries no data
/// (active profile, report-rate index, single-byte settings).
pub fn first_data_byte(reply: &[u8; 64]) -> (r: u8)
    ensures
        r == spec_first_data_byte(reply@),
{
    if reply[1] > 0 {
        reply[3]
    } else {
        0
    }
}

/// Model and firmware version as the keyboard reports them.
pub struct Info {
    pub vid: u16,
    pub pid: u16,
    pub version: String,
}

/// Decodes a keyboard-info reply: big-endian vid and pid in data bytes 0–3,
/// version `major.minor` from data bytes 6 and 7 (`{}.{:02x}`).
pub fn decode_info(reply: &[u8; 64]) -> (r: Info)
    requires
        reply@[1] >= 8,
    ensures
        r.vid == reply@[3] as int * 256 + reply@[4] as int,
        r.pid == reply@[5] as int * 256 + reply@[6] as int,
        r.version@ == dec(reply@[9] as nat) + "."@ + hex2_lower(reply@[10]),
{
    let vid: u16 = (reply[3] as u16) * 256 + (reply[4] as u16);
    let pid: u16 = (reply[5] as u16) * 256 + (reply[6] as u16);
    let mut version = String::new();
    push_dec(&mut version, reply[9] as u64);
    version.append(".");
    push_hex2_lower(&mut version, reply[10]);
    assert(version@ =~= dec(reply@[9] as nat) + "."@ + hex2_lower(reply@[10]));
    Info { vid, pid, version }
}

/// Read the keyboard info.
pub fn info_request() -> (r: Request)
    ensures
        r.cmd == op::GET_KEYBOARD_INFO,
        r.body@ == seq![0u8, 0u8],
{
    Request { cmd: op::GET_KEYBOARD_INFO, body: vec![0u8, 0u8] }
}

/// Read the active profile.
pub fn profile_request() -> (r: Request)
    ensures
        r.cmd == op::GET_DEVICE_PROFILE,
        r.body@ == seq![0u8, 0u8],
{
    Request { cmd: op::GET_DEVICE_PROFILE, body: vec![0u8, 0u8] }
}

/// Switch to profile `index` (0-based).
pub fn set_profile_request(index: u8) -> (r: Request)
    ensures
        r.cmd == op::SET_DEVICE_PROFILE,
        r.body@ == seq![1u8, index],
{
    Request { cmd: op::SET_DEVICE_PROFILE, body: vec![1u8, index] }
}

/// Read the report-rate index.
pub fn report_rate_request() -> (r: Request)
    ensures
        r.cmd == op::GET_REPORT_RATE,
        r.body@ == seq![0u8, 0u8],
{
    Request { cmd: op::GET_REPORT_RATE, body: vec![0u8, 0u8] }
}

/// Set the report-rate index.
pub fn set_report_rate_request(index: u8) -> (r: Request)
    ensures
        r.cmd == op::SET_REPORT_RATE,
        r.body@ == seq![1u8, index],
{
    Request { cmd: op::SET_REPORT_RATE, body: vec![1u8, index] }
}

/// Read the rapid-trigger value of the key at matrix (row, col).
pub fn key_rt_request(row: u8, col: u8) -> (r: Request)
    ensures
        r.cmd == op::GET_ONE_FAST_TRIGGER,
        r.body@ == seq![2u8, row, col],
{
    Request { cmd: op::GET_ONE_FAST_TRIGGER, body: vec![2u8, row, col] }
}

/// Set the rapid-trigger value of the key at matrix (row, col).
pub fn set_key_rt_request(row: u8, col: u8, value: u8) -> (r: Request)
    ensures
        r.cmd == op::SET_ONE_FAST_TRIGGER,
        r.body@ == seq![3u8, row, col, value],
{
    Request { cmd: op::SET_ONE_FAST_TRIGGER, body: vec![3u8, row, col, value] }
}

/// A per-key rapid-trigger reply: an error for positions that don't exist on
/// this layout (non-zero result code), else the first data byte.
pub fn decode_key_rt(reply: &[u8; 64], row: u8, col: u8) -> (r: Result<u8, ReplyError>)
    ensures
        reply@[2] != 0 ==> r == Err::<u8, ReplyError>(ReplyError::NoKey(row, col)),
        reply@[2] == 0 ==> r == Ok::<u8, ReplyError>(spec_first_data_byte(reply@)),
{
    if reply[2] != 0 {
        Err(ReplyError::NoKey(row, col))
    } else {
        Ok(first_data_byte(reply))
    }
}

/// The reply to setting a per-key rapid-trigger value.
pub fn check_set_key_rt(reply: &[u8; 64], row: u8, col: u8) -> (r: Result<(), ReplyError>)
    ensures
        reply@[2] != 0 ==> r == Err::<(), ReplyError>(ReplyError::KeyNotSet(row, col)),
        reply@[2] == 0 ==> r is Ok,
{
    if reply[2] != 0 {
        Err(ReplyError::KeyNotSet(row, col))
    } else {
        Ok(())
    }
}

/// A debug exchange: the first byte is the command id, the rest the body.
pub fn raw_request(payload: &[u8]) -> (r: Result<Request, ReplyError>)
    ensures
        payload@.len() == 0 ==> r matches Err(ReplyError::EmptyPayload),
        payload@.len() > 0 ==> (r matches Ok(q) && q.cmd == payload@[0] && q.body@
            == payload@.drop_first()),
{
    if payload.len() == 0 {
        return Err(ReplyError::EmptyPayload);
    }
    let mut body: Vec<u8> = Vec::new();
    let mut i: usize = 1;
    while i < payload.len()
        invariant
            1 <= i <= payload@.len(),
            body@ == payload@.subrange(1, i as int),
        decreases payload@.len() - i,
    {
        body.push(payload[i]);
        i = i + 1;
        assert(body@ =~= payload@.subrange(1, i as int));
    }
    assert(body@ =~= payload@.drop_first());
    Ok(Request { cmd: payload[0], body })
}

/// Report-rate index → polling rate in Hz.
pub open spec fn rate_table() -> Seq<u32> {
    seq![125u32, 250u32, 500u32, 1000u32, 2000u32, 4000u32, 8000u32]
}

/// Number of report-rate indices.
pub const RATE_COUNT: usize = 7;

/// Polling rate of a report-rate index, if the index is listed.
pub fn report_rate_hz(index: usize) -> (r: Option<u32>)
    ensures
        index < rate_table().len() ==> r == Some(rate_table()[index as int]),
        index >= rate_table().len() ==> r is None,
{
    let table: Vec<u32> = vec![125u32, 250u32, 500u32, 1000u32, 2000u32, 4000u32, 8000u32];
    assert(table@ =~= rate_table());
    if index < table.len() {
        Some(table[index])
    } else {
        None
    }
}

/// The text shown when a configuration interface was found but could not be
/// opened. On Linux a normal user needs one-time privilege for the vendor
/// hidraw node, so the text lists the ways to grant it; elsewhere it is the
/// plain error.
pub open spec fn spec_permission_hint(path: Seq<char>, err: Seq<char>, exe: Seq<char>, linux: bool) -> Seq<
    char,
> {
    let head = "cannot open "@ + path + ": "@ + err;
    if !linux {
        head
    } else {
        head
            + "\nThe keyboard node needs access. Pick ONE of these (each is one-time):\n  \u{2022} no udev rule \u{2014} grant the binary capability:\n      sudo setcap cap_dac_override+ep "@
            + exe + "\n  \u{2022} or just run it elevated:\n      sudo "@ + exe
            + " \u{2026}\n  \u{2022} or keep a udev rule (see README.md \u{2192} Linux permissions)"@
    }
}

pub fn permission_hint(path: &str, err: &str, exe: &str, linux: bool) -> (r: String)
    ensures
        r@ == spec_permission_hint(path@, err@, exe@, linux),
{
    let mut s = String::from_str("cannot open ");
    s.append(path);
    s.append(": ");
    s.append(err);
    if linux {
        s.append(
            "\nThe keyboard node needs access. Pick ONE of these (each is one-time):\n  \u{2022} no udev rule \u{2014} grant the binary capability:\n      sudo setcap cap_dac_override+ep ",
        );
        s.append(exe);
        s.append("\n  \u{2022} or just run it elevated:\n      sudo ");
        s.append(exe);
        s.append(" \u{2026}\n  \u{2022} or keep a udev rule (see README.md \u{2192} Linux permissions)");
    }
    s
}


/// How a report-rate index is shown: `<hz> Hz`, or `index <n>` when the
/// index is not listed.
pub open spec fn spec_rate_label(index: u8) -> Seq<char> {
    if (index as int) < rate_table().len() {
        dec(rate_table()[index as int] as nat) + " Hz"@
    } else {
        "index "@ + dec(index as nat)
    }
}

pub fn rate_label(index: u8) -> (r: String)
    ensures
        r@ == spec_rate_label(index),
{
    match report_rate_hz(index as usize) {
        Some(h) => {
            let mut s = String::new();
            push_dec(&mut s, h as u64);
            s.append(" Hz");
            s
        },
        None => {
            let mut s = String::from_str("index ");
            push_dec(&mut s, index as u64);
            s
        },
    }
}

/// The bytes of a hex dump such as `45 00 00`: each whitespace-separated
/// word read as a base-16 byte; the first word that does not parse is the
/// error.
pub open spec fn spec_parse_hex_bytes(ws: Seq<Seq<char>>) -> Result<Seq<u8>, IntErrorKind>
    decreases ws.len(),
{
    if ws.len() == 0 {
        Ok(seq![])
    } else {
        match parse_uint(ws[0], 16, 255) {
            Err(e) => Err(e),
            Ok(b) => match spec_parse_hex_bytes(ws.drop_first()) {
                Err(e) => Err(e),
                Ok(rest) => Ok(seq![b as u8] + rest),
            },
        }
    }
}

/// Parses the payload of a debug exchange: whitespace-separated hex bytes.
pub fn parse_hex_bytes(s: &str) -> (r: Result<Vec<u8>, IntErrorKind>)
    ensures
        match spec_parse_hex_bytes(words(s@)) {
            Ok(b) => r matches Ok(v) && v@ == b,
            Err(e) => r == Err::<Vec<u8>, IntErrorKind>(e),
        },
{
    let cv = chars_of(s);
    let ws = words_of(&cv);
    let ghost all = words(s@);
    let mut out: Vec<u8> = Vec::new();
    let mut i: usize = 0;
    assert(all.subrange(0, all.len() as int) =~= all);
    assert(out@ =~= Seq::<u8>::empty());
    while i < ws.len()
        invariant
            i <= ws.len(),
            all == words(s@),
            ws.len() == all.len(),
            forall|k: int| 0 <= k < ws.len() ==> ws[k]@ == all[k],
            spec_parse_hex_bytes(all) == match spec_parse_hex_bytes(
                all.subrange(i as int, all.len() as int),
            ) {
                Ok(rest) => Ok(out@ + rest),
                Err(e) => Err(e),
            },
        decreases ws.len() - i,
    {
        let ghost rest = all.subrange(i as int, all.len() as int);
        assert(rest[0] == all[i as int]);
        assert(rest.drop_first() =~= all.subrange(i + 1, all.len() as int));
        match parse_uint_chars(&ws[i], 16, 255) {
            Ok(b) => {
                proof {
                    match spec_parse_hex_bytes(all.subrange(i + 1, all.len() as int)) {
                        Ok(r2) => {
                            assert(out@ + (seq![b as u8] + r2) =~= out@.push(b as u8) + r2);
                        },
                        Err(_) => {},
                    }
                }
                out.push(b as u8);
            },
            Err(e) => {
                assert(spec_parse_hex_bytes(rest) == Err::<Seq<u8>, IntErrorKind>(e));
                return Err(e);
            },
        }
        i = i + 1;
    }
    assert(all.subrange(i as int, all.len() as int).len() == 0);
    assert(out@ + Seq::<u8>::empty() =~= out@);
    Ok(out)
}

/// A reply as printed by a debug exchange: `reply:`, then every byte as two
/// hex digits and a space, sixteen to an indented line.
pub open spec fn dump_from(reply: Seq<u8>, i: int) -> Seq<char>
    decreases reply.len() - i,
{
    if i >= reply.len() {
        seq![]
    } else {
        (if i % 16 == 0 {
            "\n  "@
        } else {
            Seq::<char>::empty()
        }) + hex2_lower(reply[i]) + " "@ + dump_from(reply, i + 1)
    }
}

pub open spec fn spec_hex_dump(reply: Seq<u8>) -> Seq<char> {
    "reply:"@ + dump_from(reply, 0)
}

pub fn hex_dump(reply: &[u8; 64]) -> (r: String)
    ensures
        r@ == spec_hex_dump(reply@),
{
    let mut s = String::from_str("reply:");
    let mut i: usize = 0;
    while i < REPORT_LEN
        invariant
            i <= REPORT_LEN,
            reply@.len() == REPORT_LEN,
            spec_hex_dump(reply@) == s@ + dump_from(reply@, i as int),
        decreases REPORT_LEN - i,
    {
        let ghost before = s@;
        if i % 16 == 0 {
            s.append("\n  ");
        }
        push_hex2_lower(&mut s, reply[i]);
        s.append(" ");
        assert(s@ + dump_from(reply@, i + 1) =~= before + dump_from(reply@, i as int));
        i = i + 1;
    }
    assert(s@ + dump_from(reply@, i as int) =~= s@);
    s
}

} // verus!
