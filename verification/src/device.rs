//! Command vocabulary and response interpretation of the blocking device API.

use vstd::prelude::*;

use vstd::slice::slice_subrange;
use vstd::string::StringExecFns;

use crate::protocol::parser::{
    classify_response, classify_spec, feed_step, prompt, EventModel, ParseEvent, ResponseKind,
    ResponseKindModel, StreamParser,
};
use crate::protocol::text::{
    contains_text, debug_quoted, debug_text, decimal_text, parse_u32, parse_u32_spec, push_decimal_text,
    text_chars, text_contains, text_to_string, trim_text, trim_ws,
};
use crate::{Button, ButtonAction, ButtonMask, Error, Response, ResponseModel};

verus! {

/// A mouse input axis or button that can be locked.
///
/// Locking prevents the corresponding physical input from being forwarded to
/// the host PC while still allowing software-injected movement.
#[derive(Debug, Clone, Copy, PartialEq, Eq, Structural)]
pub enum Lock {
    /// X-axis movement.
    X,
    /// Y-axis movement.
    Y,
    /// Left mouse button.
    Left,
    /// Right mouse button.
    Right,
    /// Middle mouse button.
    Middle,
    /// Side button 1.
    Side1,
    /// Side button 2.
    Side2,
}

/// Firmware name of a button command.
pub open spec fn button_name(button: Button) -> &'static str {
    match button {
        Button::Left => "left",
        Button::Right => "right",
        Button::Middle => "middle",
        Button::Side1 => "ms1",
        Button::Side2 => "ms2",
    }
}

/// Firmware name of a lock command.
pub open spec fn lock_name(lock: Lock) -> &'static str {
    match lock {
        Lock::X => "lock_mx",
        Lock::Y => "lock_my",
        Lock::Left => "lock_ml",
        Lock::Right => "lock_mr",
        Lock::Middle => "lock_mm",
        Lock::Side1 => "lock_ms1",
        Lock::Side2 => "lock_ms2",
    }
}

/// Firmware argument of a button action: 0 silent up, 1 down, 2 forced up.
pub open spec fn action_code(action: ButtonAction) -> u8 {
    match action {
        ButtonAction::SilentUp => 0,
        ButtonAction::Down => 1,
        ButtonAction::ForcedUp => 2,
    }
}

pub fn lock_cmd(lock: Lock) -> (s: &'static str)
    ensures
        s == lock_name(lock),
{
    match lock {
        Lock::X => "lock_mx",
        Lock::Y => "lock_my",
        Lock::Left => "lock_ml",
        Lock::Right => "lock_mr",
        Lock::Middle => "lock_mm",
        Lock::Side1 => "lock_ms1",
        Lock::Side2 => "lock_ms2",
    }
}

pub fn button_cmd(button: Button) -> (s: &'static str)
    ensures
        s == button_name(button),
{
    match button {
        Button::Left => "left",
        Button::Right => "right",
        Button::Middle => "middle",
        Button::Side1 => "ms1",
        Button::Side2 => "ms2",
    }
}

/// Baud rate the device runs at after the baud-change frame.
pub const BAUD_4M: u32 = 4000000;

/// Baud rate of the device after power-up.
pub const BAUD_DEFAULT: u32 = 115200;

/// Binary frame that switches the device to 4 Mbaud.
/// Format: `DE AD [len_lo len_hi] [cmd] [rate_le_u32]`.
pub const BAUD_CHANGE_FRAME: [u8; 9] = [0xDE, 0xAD, 0x05, 0x00, 0xA5, 0x00, 0x09, 0x3D, 0x00];

/// USB vendor id of the MAKCU serial interface.
pub const USB_VID: u16 = 0x1A86;

/// USB product id of the MAKCU serial interface.
pub const USB_PID: u16 = 0x55D3;

/// Whether a USB serial port with these ids is a MAKCU device.
pub fn is_makcu_port(vid: u16, pid: u16) -> (r: bool)
    ensures
        r == (vid == 0x1A86 && pid == 0x55D3),
{
    vid == USB_VID && pid == USB_PID
}

/// The argument list `a0,a1,...` in decimal.
pub open spec fn args_text(args: Seq<i64>) -> Seq<char>
    decreases args.len(),
{
    if args.len() == 0 {
        Seq::empty()
    } else if args.len() == 1 {
        decimal_text(args[0] as int)
    } else {
        args_text(args.drop_last()) + seq![','] + decimal_text(args.last() as int)
    }
}

/// The command text `km.<name>(<args>)`.
pub open spec fn call_text(name: Seq<char>, args: Seq<char>) -> Seq<char> {
    "km."@ + name + "("@ + args + ")"@
}

/// Builds `km.<name>(a0,a1,...)`.
fn call_command(name: &str, args: &[i64]) -> (r: String)
    requires
        forall|i: int| 0 <= i < args@.len() ==> args@[i] > i64::MIN,
    ensures
        r@ == call_text(name@, args_text(args@)),
{
    let mut s = text_to_string("km.");
    s.append(name);
    s.append("(");
    let ghost head = s@;
    let mut i: usize = 0;
    while i < args.len()
        invariant
            0 <= i <= args@.len(),
            forall|k: int| 0 <= k < args@.len() ==> args@[k] > i64::MIN,
            s@ == head + args_text(args@.take(i as int)),
        decreases args@.len() - i,
    {
        proof {
            assert(args@.take(i + 1).drop_last() =~= args@.take(i as int));
            assert(args@.take(i + 1).last() == args@[i as int]);
        }
        if i > 0 {
            proof {
                reveal_strlit(",");
            }
            s.append(",");
        }
        push_decimal_text(&mut s, args[i]);
        proof {
            if i == 0 {
                assert(args@.take(0) =~= Seq::<i64>::empty());
            }
        }
        i = i + 1;
    }
    proof {
        assert(args@.take(args@.len() as int) =~= args@);
    }
    s.append(")");
    s
}

/// `km.<button>(<code>)`: set a button to an action state.
pub fn button_set_command(button: Button, action: ButtonAction) -> (r: String)
    ensures
        r@ == call_text(button_name(button)@, decimal_text(action_code(action) as int)),
{
    let code: i64 = match action {
        ButtonAction::SilentUp => 0,
        ButtonAction::Down => 1,
        ButtonAction::ForcedUp => 2,
    };
    let args: [i64; 1] = [code];
    call_command(button_cmd(button), args.as_slice())
}

/// `km.<button>()`: query a button state.
pub fn button_query_command(button: Button) -> (r: String)
    ensures
        r@ == call_text(button_name(button)@, Seq::empty()),
{
    let args: [i64; 0] = [];
    call_command(button_cmd(button), args.as_slice())
}

/// `km.move(x,y)`.
pub fn move_command(x: i32, y: i32) -> (r: String)
    ensures
        r@ == call_text("move"@, args_text(seq![x as i64, y as i64])),
{
    let args: [i64; 2] = [x as i64, y as i64];
    proof {
        assert(args@ =~= seq![x as i64, y as i64]);
    }
    call_command("move", args.as_slice())
}

/// `km.move(x,y,duration_ms)`.
pub fn move_smooth_command(x: i32, y: i32, duration_ms: u32) -> (r: String)
    ensures
        r@ == call_text("move"@, args_text(seq![x as i64, y as i64, duration_ms as i64])),
{
    let args: [i64; 3] = [x as i64, y as i64, duration_ms as i64];
    proof {
        assert(args@ =~= seq![x as i64, y as i64, duration_ms as i64]);
    }
    call_command("move", args.as_slice())
}

/// `km.move(x,y,duration_ms,overshoot_pct)`.
pub fn move_overshoot_command(x: i32, y: i32, duration_ms: u32, overshoot_pct: u32) -> (r: String)
    ensures
        r@ == call_text(
            "move"@,
            args_text(seq![x as i64, y as i64, duration_ms as i64, overshoot_pct as i64]),
        ),
{
    let args: [i64; 4] = [x as i64, y as i64, duration_ms as i64, overshoot_pct as i64];
    proof {
        assert(args@ =~= seq![x as i64, y as i64, duration_ms as i64, overshoot_pct as i64]);
    }
    call_command("move", args.as_slice())
}

/// `km.move(x,y,duration_ms,overshoot_pct,bezier)`.
pub fn move_bezier_command(x: i32, y: i32, duration_ms: u32, overshoot_pct: u32, bezier: u32) -> (r:
    String)
    ensures
        r@ == call_text(
            "move"@,
            args_text(
                seq![x as i64, y as i64, duration_ms as i64, overshoot_pct as i64, bezier as i64],
            ),
        ),
{
    let args: [i64; 5] = [
        x as i64,
        y as i64,
        duration_ms as i64,
        overshoot_pct as i64,
        bezier as i64,
    ];
    proof {
        assert(args@ =~= seq![
            x as i64,
            y as i64,
            duration_ms as i64,
            overshoot_pct as i64,
            bezier as i64,
        ]);
    }
    call_command("move", args.as_slice())
}

/// `km.silent(x,y)`.
pub fn silent_move_command(x: i32, y: i32) -> (r: String)
    ensures
        r@ == call_text("silent"@, args_text(seq![x as i64, y as i64])),
{
    let args: [i64; 2] = [x as i64, y as i64];
    proof {
        assert(args@ =~= seq![x as i64, y as i64]);
    }
    call_command("silent", args.as_slice())
}

/// `km.wheel(steps)`.
pub fn wheel_command(steps: i32) -> (r: String)
    ensures
        r@ == call_text("wheel"@, args_text(seq![steps as i64])),
{
    let args: [i64; 1] = [steps as i64];
    proof {
        assert(args@ =~= seq![steps as i64]);
    }
    call_command("wheel", args.as_slice())
}

/// `km.<lock>(1)` or `km.<lock>(0)`.
pub fn lock_set_command(lock: Lock, enabled: bool) -> (r: String)
    ensures
        r@ == call_text(lock_name(lock)@, args_text(seq![if enabled { 1i64 } else { 0i64 }])),
{
    let args: [i64; 1] = [if enabled { 1 } else { 0 }];
    proof {
        assert(args@ =~= seq![if enabled { 1i64 } else { 0i64 }]);
    }
    call_command(lock_cmd(lock), args.as_slice())
}

/// `km.<lock>()`: query a lock state.
pub fn lock_query_command(lock: Lock) -> (r: String)
    ensures
        r@ == call_text(lock_name(lock)@, Seq::empty()),
{
    let args: [i64; 0] = [];
    call_command(lock_cmd(lock), args.as_slice())
}

/// `km.buttons(1)` or `km.buttons(0)`: enable or disable the button stream.
pub fn button_stream_command(enable: bool) -> (r: String)
    ensures
        r@ == call_text("buttons"@, args_text(seq![if enable { 1i64 } else { 0i64 }])),
{
    let args: [i64; 1] = [if enable { 1 } else { 0 }];
    proof {
        assert(args@ =~= seq![if enable { 1i64 } else { 0i64 }]);
    }
    call_command("buttons", args.as_slice())
}

/// Firmware name of a click-counter query.
pub open spec fn catch_name(button: Button) -> &'static str {
    match button {
        Button::Left => "catch_ml",
        Button::Right => "catch_mr",
        Button::Middle => "catch_mm",
        Button::Side1 => "catch_ms1",
        Button::Side2 => "catch_ms2",
    }
}

/// `km.catch_<button>()`: query the click counter of a button.
pub fn catch_command(button: Button) -> (r: String)
    ensures
        r@ == call_text(catch_name(button)@, Seq::empty()),
{
    let name: &str = match button {
        Button::Left => "catch_ml",
        Button::Right => "catch_mr",
        Button::Middle => "catch_mm",
        Button::Side1 => "catch_ms1",
        Button::Side2 => "catch_ms2",
    };
    let args: [i64; 0] = [];
    call_command(name, args.as_slice())
}

/// Each lock target has its own firmware name: the axes `lock_mx` and
/// `lock_my`, the buttons `lock_ml`, `lock_mr`, `lock_mm`, `lock_ms1` and
/// `lock_ms2`; two different targets never share a name. Setting a lock
/// sends `km.<name>(1)` or `km.<name>(0)`, querying it `km.<name>()`.
pub proof fn law_lock_names(lock: Lock, enabled: bool)
    ensures
        lock_name(lock)@ == (match lock {
            Lock::X => "lock_mx"@,
            Lock::Y => "lock_my"@,
            Lock::Left => "lock_ml"@,
            Lock::Right => "lock_mr"@,
            Lock::Middle => "lock_mm"@,
            Lock::Side1 => "lock_ms1"@,
            Lock::Side2 => "lock_ms2"@,
        }),
        forall|other: Lock| #[trigger] lock_name(other)@ == lock_name(lock)@ ==> other == lock,
        call_text(lock_name(lock)@, args_text(seq![if enabled { 1i64 } else { 0i64 }])) == "km."@
            + lock_name(lock)@ + (if enabled {
            "(1)"@
        } else {
            "(0)"@
        }),
        call_text(lock_name(lock)@, Seq::empty()) == "km."@ + lock_name(lock)@ + "()"@,
{
    reveal_strlit("lock_mx");
    reveal_strlit("lock_my");
    reveal_strlit("lock_ml");
    reveal_strlit("lock_mr");
    reveal_strlit("lock_mm");
    reveal_strlit("lock_ms1");
    reveal_strlit("lock_ms2");
    assert forall|other: Lock| #[trigger] lock_name(other)@ == lock_name(lock)@ implies other
        == lock by {
        if other != lock {
            let a = lock_name(other)@;
            let b = lock_name(lock)@;
            assert(a.len() != b.len() || a[6] != b[6] || a[7] != b[7]);
        }
    }
    lemma_call_args_digit(lock_name(lock)@, enabled);
    lemma_call_no_args(lock_name(lock)@);
}

/// The click counter of each button has its own firmware name: `catch_ml`,
/// `catch_mr`, `catch_mm`, `catch_ms1` and `catch_ms2`, never shared by two
/// buttons, with the same button code as the lock of that button. The query
/// sends `km.<name>()`.
pub proof fn law_catch_names(button: Button)
    ensures
        catch_name(button)@ == (match button {
            Button::Left => "catch_ml"@,
            Button::Right => "catch_mr"@,
            Button::Middle => "catch_mm"@,
            Button::Side1 => "catch_ms1"@,
            Button::Side2 => "catch_ms2"@,
        }),
        forall|other: Button| #[trigger] catch_name(other)@ == catch_name(button)@ ==> other == button,
        catch_name(button)@.skip(6) == lock_name(
            match button {
                Button::Left => Lock::Left,
                Button::Right => Lock::Right,
                Button::Middle => Lock::Middle,
                Button::Side1 => Lock::Side1,
                Button::Side2 => Lock::Side2,
            },
        )@.skip(5),
        call_text(catch_name(button)@, Seq::empty()) == "km."@ + catch_name(button)@ + "()"@,
{
    reveal_strlit("catch_ml");
    reveal_strlit("catch_mr");
    reveal_strlit("catch_mm");
    reveal_strlit("catch_ms1");
    reveal_strlit("catch_ms2");
    reveal_strlit("lock_ml");
    reveal_strlit("lock_mr");
    reveal_strlit("lock_mm");
    reveal_strlit("lock_ms1");
    reveal_strlit("lock_ms2");
    assert forall|other: Button| #[trigger] catch_name(other)@ == catch_name(button)@ implies other
        == button by {
        if other != button {
            let a = catch_name(other)@;
            let b = catch_name(button)@;
            assert(a.len() != b.len() || a[7] != b[7] || a[8] != b[8]);
        }
    }
    let l = match button {
        Button::Left => Lock::Left,
        Button::Right => Lock::Right,
        Button::Middle => Lock::Middle,
        Button::Side1 => Lock::Side1,
        Button::Side2 => Lock::Side2,
    };
    assert(catch_name(button)@.skip(6) =~= lock_name(l)@.skip(5));
    lemma_call_no_args(catch_name(button)@);
}

/// `km.<name>(<0 or 1>)` spelled out.
proof fn lemma_call_args_digit(name: Seq<char>, on: bool)
    ensures
        call_text(name, args_text(seq![if on { 1i64 } else { 0i64 }])) == "km."@ + name + (if on {
            "(1)"@
        } else {
            "(0)"@
        }),
{
    reveal_strlit("(");
    reveal_strlit(")");
    reveal_strlit("(1)");
    reveal_strlit("(0)");
    let v: i64 = if on { 1i64 } else { 0i64 };
    assert(seq![v].len() == 1);
    assert(args_text(seq![v]) == decimal_text(v as int));
    assert(decimal_text(v as int) =~= seq![if on { '1' } else { '0' }]);
    assert(call_text(name, args_text(seq![v])) =~= "km."@ + name + (if on {
        "(1)"@
    } else {
        "(0)"@
    }));
}

/// `km.<name>()` spelled out.
proof fn lemma_call_no_args(name: Seq<char>)
    ensures
        call_text(name, Seq::empty()) == "km."@ + name + "()"@,
{
    reveal_strlit("(");
    reveal_strlit(")");
    reveal_strlit("()");
    assert(call_text(name, Seq::empty()) =~= "km."@ + name + "()"@);
}

/// `km.serial('<serial>')`: spoof the mouse serial number.
pub fn serial_set_command(serial: &str) -> (r: String)
    ensures
        r@ == call_text("serial"@, "'"@ + serial@ + "'"@),
{
    let mut s = text_to_string("km.serial(");
    s.append("'");
    s.append(serial);
    s.append("'");
    s.append(")");
    proof {
        reveal_strlit("km.serial(");
        reveal_strlit("km.");
        reveal_strlit("serial");
        reveal_strlit("(");
        assert("km.serial("@ =~= "km."@ + "serial"@ + "("@);
        assert(s@ =~= call_text("serial"@, "'"@ + serial@ + "'"@));
    }
    s
}

/// Index of the first `>>> ` prompt in `raw` at or after `i`.
pub open spec fn first_prompt_from(raw: Seq<u8>, i: int) -> Option<int>
    decreases raw.len() - i,
{
    if i < 0 || i + 4 > raw.len() {
        None
    } else if raw.subrange(i, i + 4) == prompt() {
        Some(i)
    } else {
        first_prompt_from(raw, i + 1)
    }
}

/// A prompt found at or after `i` lies within `raw`, at or after `i`.
pub proof fn lemma_first_prompt_bounds(raw: Seq<u8>, i: int)
    ensures
        first_prompt_from(raw, i) matches Some(p) ==> i <= p && p + 4 <= raw.len()
            && raw.subrange(p, p + 4) == prompt(),
    decreases raw.len() - i,
{
    if !(i < 0 || i + 4 > raw.len()) && raw.subrange(i, i + 4) != prompt() {
        lemma_first_prompt_bounds(raw, i + 1);
    }
}

/// Position of the first `>>> ` prompt in `raw`.
pub fn find_terminator(raw: &[u8]) -> (r: Option<usize>)
    ensures
        match r {
            Some(p) => first_prompt_from(raw@, 0) == Some(p as int),
            None => first_prompt_from(raw@, 0) is None,
        },
{
    let n = raw.len();
    let mut i: usize = 0;
    while n >= 4 && i <= n - 4
        invariant
            n == raw@.len(),
            0 <= i <= n,
            first_prompt_from(raw@, 0) == first_prompt_from(raw@, i as int),
        decreases n - i,
    {
        if raw[i] == 0x3e && raw[i + 1] == 0x3e && raw[i + 2] == 0x3e && raw[i + 3] == 0x20 {
            proof {
                assert(raw@.subrange(i as int, i + 4) =~= prompt());
            }
            return Some(i);
        }
        proof {
            assert(raw@.subrange(i as int, i + 4) != prompt()) by {
                if raw@.subrange(i as int, i + 4) == prompt() {
                    assert(raw@.subrange(i as int, i + 4)[0] == raw@[i as int]);
                    assert(raw@.subrange(i as int, i + 4)[1] == raw@[i + 1]);
                    assert(raw@.subrange(i as int, i + 4)[2] == raw@[i + 2]);
                    assert(raw@.subrange(i as int, i + 4)[3] == raw@[i + 3]);
                }
            }
        }
        i = i + 1;
    }
    None
}

/// Whether `buf` holds a complete response (a `>>> ` prompt).
pub fn has_terminator(buf: &[u8]) -> (r: bool)
    ensures
        r == (first_prompt_from(buf@, 0) is Some),
{
    find_terminator(buf).is_some()
}

/// The response that a classified body stands for, given the command sent:
/// a single line equal to the sent command (both trimmed) is its echo.
pub open spec fn resolve_spec(kind: ResponseKindModel, sent: Seq<char>) -> ResponseModel {
    match kind {
        ResponseKindModel::Executed => ResponseModel::Executed,
        ResponseKindModel::Value(v) => ResponseModel::Responded(v),
        ResponseKindModel::ValueOrEcho(t) => if t == trim_ws(sent) {
            ResponseModel::Executed
        } else {
            ResponseModel::Responded(t)
        },
    }
}

/// What the bytes read after sending `sent` mean: no prompt is `Silent`;
/// otherwise the body before the first prompt, classified and resolved
/// against the sent command.
pub open spec fn response_spec(raw: Seq<u8>, sent: Seq<char>) -> ResponseModel {
    match first_prompt_from(raw, 0) {
        None => ResponseModel::Silent,
        Some(p) => resolve_spec(classify_spec(raw.take(p)), sent),
    }
}

/// Turns a classified response body into a [`Response`]: a single line that
/// repeats the sent command is only its echo.
pub fn resolve_echo(kind: ResponseKind, sent_cmd: &str) -> (r: Response)
    ensures
        r@ == resolve_spec(kind@, sent_cmd@),
{
    match kind {
        ResponseKind::Executed => Response::Executed,
        ResponseKind::Value(v) => Response::Responded(v),
        ResponseKind::ValueOrEcho(text) => {
            let sent = text_to_string(trim_text(sent_cmd));
            if text == sent {
                Response::Executed
            } else {
                Response::Responded(text)
            }
        },
    }
}

/// Parse a raw response buffer into a [`Response`].
pub fn parse_response(raw: &[u8], sent_cmd: &str) -> (r: Result<Response, Error>)
    ensures
        r matches Ok(resp) && resp@ == response_spec(raw@, sent_cmd@),
{
    let term_pos = match find_terminator(raw) {
        Some(p) => p,
        None => return Ok(Response::Silent),
    };
    proof {
        lemma_first_prompt_bounds(raw@, 0);
    }
    let body = slice_subrange(raw, 0, term_pos);
    proof {
        assert(body@ =~= raw@.take(term_pos as int));
    }
    Ok(resolve_echo(classify_response(body), sent_cmd))
}

/// The `Debug` text of a response.
pub open spec fn response_debug(r: ResponseModel) -> Seq<char> {
    match r {
        ResponseModel::Executed => "Executed"@,
        ResponseModel::Responded(v) => "Responded("@ + debug_quoted(v) + ")"@,
        ResponseModel::Silent => "Silent"@,
    }
}

/// Formats a response as its `Debug` text.
pub fn response_debug_text(r: &Response) -> (s: String)
    ensures
        s@ == response_debug(r@),
{
    match r {
        Response::Executed => text_to_string("Executed"),
        Response::Responded(v) => {
            let mut s = text_to_string("Responded(");
            let q = debug_text(v.as_str());
            s.append(q.as_str());
            s.append(")");
            s
        },
        Response::Silent => text_to_string("Silent"),
    }
}

/// The check of a command that returns no value: it must be `Executed`.
pub fn expect_executed(resp: Response, cmd: &str) -> (r: Result<(), Error>)
    ensures
        match r {
            Ok(()) => resp@ is Executed,
            Err(Error::Protocol(m)) => !(resp@ is Executed) && m@ == "command "@ + debug_quoted(
                cmd@,
            ) + " expected EXECUTED, got "@ + response_debug(resp@),
            Err(_) => false,
        },
{
    match resp {
        Response::Executed => Ok(()),
        other => {
            let mut m = text_to_string("command ");
            let q = debug_text(cmd);
            m.append(q.as_str());
            m.append(" expected EXECUTED, got ");
            let d = response_debug_text(&other);
            m.append(d.as_str());
            Err(Error::Protocol(m))
        },
    }
}

/// The message for a query (`what`) that returned no value.
fn no_value_error(what: &str, resp: &Response) -> (e: Error)
    ensures
        e matches Error::Protocol(m) && m@ == what@ + " expected a value, got "@ + response_debug(
            resp@,
        ),
{
    let mut m = text_to_string(what);
    m.append(" expected a value, got ");
    let d = response_debug_text(resp);
    m.append(d.as_str());
    Error::Protocol(m)
}

/// The value returned by a query (`what` names it in the error).
pub fn expect_value(resp: Response, what: &str) -> (r: Result<String, Error>)
    ensures
        match r {
            Ok(v) => resp@ == ResponseModel::Responded(v@),
            Err(Error::Protocol(m)) => !(resp@ is Responded) && m@ == what@
                + " expected a value, got "@ + response_debug(resp@),
            Err(_) => false,
        },
{
    match resp {
        Response::Responded(v) => Ok(v),
        other => Err(no_value_error(what, &other)),
    }
}

/// A query value read as a flag: `1` (after trimming) is true, anything else false.
pub fn expect_flag(resp: Response, what: &str) -> (r: Result<bool, Error>)
    ensures
        match r {
            Ok(b) => resp@ is Responded && b == (trim_ws(resp@->Responded_0) == seq!['1']),
            Err(Error::Protocol(m)) => !(resp@ is Responded) && m@ == what@
                + " expected a value, got "@ + response_debug(resp@),
            Err(_) => false,
        },
{
    match resp {
        Response::Responded(v) => {
            let t = text_chars(trim_text(v.as_str()));
            let b = t.len() == 1 && t[0] == '1';
            proof {
                if trim_ws(v@) == seq!['1'] {
                    assert(t@[0] == '1');
                }
                if b {
                    assert(t@ =~= seq!['1']);
                }
            }
            Ok(b)
        },
        other => Err(no_value_error(what, &other)),
    }
}

/// The click count returned by a `km.catch_*()` query.
pub fn parse_catch_count(resp: Response) -> (r: Result<u32, Error>)
    ensures
        match r {
            Ok(n) => resp@ is Responded && parse_u32_spec(trim_ws(resp@->Responded_0)) == Some(n),
            Err(Error::Protocol(m)) => match resp@ {
                ResponseModel::Responded(v) => parse_u32_spec(trim_ws(v)) is None && m@
                    == "catch returned non-integer: "@ + debug_quoted(v),
                other => m@ == "catch()"@ + " expected a value, got "@ + response_debug(other),
            },
            Err(_) => false,
        },
{
    match resp {
        Response::Responded(v) => match parse_u32(trim_text(v.as_str())) {
            Some(n) => {
                Ok(n)
            },
            None => {
                let mut m = text_to_string("catch returned non-integer: ");
                let q = debug_text(v.as_str());
                m.append(q.as_str());
                Err(Error::Protocol(m))
            },
        },
        other => Err(no_value_error("catch()", &other)),
    }
}

/// The firmware identifier that a live device answers to a version query.
pub open spec fn makcu_id() -> Seq<char> {
    "km.MAKCU"@
}

/// The check of the version query that verifies a fresh connection: the
/// response must be a value containing `km.MAKCU`.
pub fn check_version_response(resp: Response) -> (r: Result<(), Error>)
    ensures
        match r {
            Ok(()) => resp@ is Responded && contains_text(resp@->Responded_0, makcu_id()),
            Err(Error::Protocol(m)) => !(resp@ is Responded && contains_text(
                resp@->Responded_0,
                makcu_id(),
            )) && m@ == "unexpected version response: "@ + response_debug(resp@),
            Err(_) => false,
        },
{
    if let Response::Responded(v) = &resp {
        if text_contains(v.as_str(), "km.MAKCU") {
            return Ok(());
        }
    }
    let mut m = text_to_string("unexpected version response: ");
    let d = response_debug_text(&resp);
    m.append(d.as_str());
    Err(Error::Protocol(m))
}

/// The button state reported by one stream byte, as the stream parser decides
/// it: the mask is the byte right after a `km.` prefix; other bytes (response
/// text, prompts) are consumed by the parser and give no event.
pub fn stream_event(p: &mut StreamParser, byte: u8) -> (r: Option<ButtonMask>)
    requires
        old(p).wf(),
    ensures
        final(p).wf(),
        final(p)@ == feed_step(old(p)@, byte).0,
        r == (match feed_step(old(p)@, byte).1 {
            Some(EventModel::ButtonEvent(m)) => Some(ButtonMask::decode(m)),
            _ => None,
        }),
{
    match p.feed(byte) {
        Some(ParseEvent::ButtonEvent(m)) => Some(ButtonMask::from_byte(m)),
        _ => None,
    }
}

} // verus!
