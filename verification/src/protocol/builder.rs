//! Formatting of the parametric commands (`km.move`, `km.silent`,
//! `km.wheel`, `km.serial`) into a bounded command buffer.

use vstd::prelude::*;
use vstd::slice::slice_to_vec;
use vstd::utf8::encode_utf8;

use crate::error::MakcuError;
use crate::protocol::text::text_to_string;

verus! {

/// Maximum absolute value for move/silent_move coordinates (firmware limit).
pub const MOVE_RANGE: i32 = 32767;

/// Maximum absolute value for wheel scroll (firmware limit).
pub const WHEEL_RANGE: i32 = 127;

/// Capacity of a command buffer in bytes.
pub const CMD_CAPACITY: usize = 64;

/// Longest serial value (in bytes) that `build_serial_set` accepts.
pub const SERIAL_MAX_LEN: usize = 45;

/// ASCII decimal digits of a natural number, most significant first.
pub open spec fn digits(n: nat) -> Seq<u8>
    decreases n,
{
    if n < 10 {
        seq![(0x30 + n) as u8]
    } else {
        digits(n / 10).push((0x30 + n % 10) as u8)
    }
}

/// ASCII decimal representation of an integer, with a leading `-` when negative.
pub open spec fn decimal(i: int) -> Seq<u8> {
    if i < 0 {
        seq![0x2du8] + digits((-i) as nat)
    } else {
        digits(i as nat)
    }
}

/// UTF-8 bytes of a text.
pub open spec fn utf8(s: &str) -> Seq<u8> {
    encode_utf8(s@)
}

/// The bytes `km.move(x,y)\r\n`.
pub open spec fn move_text(x: int, y: int) -> Seq<u8> {
    utf8("km.move(") + decimal(x) + utf8(",") + decimal(y) + utf8(")\r\n")
}

/// The bytes `km.silent(x,y)\r\n`.
pub open spec fn silent_move_text(x: int, y: int) -> Seq<u8> {
    utf8("km.silent(") + decimal(x) + utf8(",") + decimal(y) + utf8(")\r\n")
}

/// The bytes `km.wheel(delta)\r\n`.
pub open spec fn wheel_text(delta: int) -> Seq<u8> {
    utf8("km.wheel(") + decimal(delta) + utf8(")\r\n")
}

/// The bytes `km.serial('value')\r\n`.
pub open spec fn serial_set_text(value: Seq<u8>) -> Seq<u8> {
    utf8("km.serial('") + value + utf8("')\r\n")
}

/// A well-formed command: 1 to 64 bytes, whose only line feed is the last byte.
pub open spec fn command_wf(c: Seq<u8>) -> bool {
    &&& 1 <= c.len() <= 64
    &&& c.index_of_first(0x0au8) == Some(c.len() - 1)
}


/// Ten to the power `k`.
pub open spec fn pow10(k: nat) -> nat
    decreases k,
{
    if k == 0 {
        1
    } else {
        10 * pow10((k - 1) as nat)
    }
}

/// Ten to the power `k` exceeds `k`.
pub proof fn lemma_pow10_bound(k: nat)
    ensures
        k < pow10(k),
    decreases k,
{
    if k > 0 {
        lemma_pow10_bound((k - 1) as nat);
    }
}

/// The decimal digits of a number are ASCII digits, at most `k` of them
/// when the number is below ten to the `k`.
pub proof fn lemma_digits(n: nat, k: nat)
    requires
        k >= 1,
        n < pow10(k),
    ensures
        1 <= digits(n).len() <= k,
        forall|i: int| 0 <= i < digits(n).len() ==> 0x30 <= #[trigger] digits(n)[i] <= 0x39,
    decreases n,
{
    if n >= 10 {
        if k == 1 {
            assert(pow10(1) == 10) by {
                reveal_with_fuel(pow10, 2);
            }
        }
        let p = pow10((k - 1) as nat);
        assert(n / 10 < p) by (nonlinear_arith)
            requires
                n < 10 * p,
        ;
        lemma_digits(n / 10, (k - 1) as nat);
        let d = digits(n / 10);
        assert forall|i: int| 0 <= i < digits(n).len() implies 0x30 <= #[trigger] digits(n)[i]
            <= 0x39 by {
            if i < d.len() {
                assert(digits(n)[i] == d[i]);
            }
        }
    }
}

/// The decimal representation of an integer holds no line feed, and is at
/// most six bytes long for magnitudes up to 32767.
pub proof fn lemma_decimal(i: int)
    ensures
        decimal(i).len() >= 1,
        forall|k: int| 0 <= k < decimal(i).len() ==> #[trigger] decimal(i)[k] != 0x0au8,
        -32767 <= i <= 32767 ==> decimal(i).len() <= 6,
{
    assert(pow10(5) == 100000 && pow10(10) == 10000000000) by {
        reveal_with_fuel(pow10, 11);
    }
    if i < 0 {
        if i >= -32767 {
            lemma_digits((-i) as nat, 5);
        } else {
            lemma_pow10_bound((-i) as nat);
            lemma_digits((-i) as nat, (-i) as nat);
        }
        let d = digits((-i) as nat);
        assert forall|k: int| 0 <= k < decimal(i).len() implies #[trigger] decimal(i)[k]
            != 0x0au8 by {
            if k > 0 {
                assert(decimal(i)[k] == d[k - 1]);
            }
        }
    } else {
        if i <= 32767 {
            lemma_digits(i as nat, 5);
        } else {
            lemma_pow10_bound(i as nat);
            lemma_digits(i as nat, i as nat);
        }
    }
}

/// The UTF-8 bytes of the literal pieces of the parametric commands.
pub proof fn lemma_literals()
    ensures
        utf8("km.move(") == seq![0x6bu8, 0x6du8, 0x2eu8, 0x6du8, 0x6fu8, 0x76u8, 0x65u8, 0x28u8],
        utf8("km.silent(") == seq![
            0x6bu8,
            0x6du8,
            0x2eu8,
            0x73u8,
            0x69u8,
            0x6cu8,
            0x65u8,
            0x6eu8,
            0x74u8,
            0x28u8,
        ],
        utf8("km.wheel(") == seq![
            0x6bu8,
            0x6du8,
            0x2eu8,
            0x77u8,
            0x68u8,
            0x65u8,
            0x65u8,
            0x6cu8,
            0x28u8,
        ],
        utf8("km.serial('") == seq![
            0x6bu8,
            0x6du8,
            0x2eu8,
            0x73u8,
            0x65u8,
            0x72u8,
            0x69u8,
            0x61u8,
            0x6cu8,
            0x28u8,
            0x27u8,
        ],
        utf8(",") == seq![0x2cu8],
        utf8(")\r\n") == seq![0x29u8, 0x0du8, 0x0au8],
        utf8("')\r\n") == seq![0x27u8, 0x29u8, 0x0du8, 0x0au8],
{
    reveal_strlit("km.move(");
    reveal_strlit("km.silent(");
    reveal_strlit("km.wheel(");
    reveal_strlit("km.serial('");
    reveal_strlit(",");
    reveal_strlit(")\r\n");
    reveal_strlit("')\r\n");
    vstd::utf8::is_ascii_chars_encode_utf8("km.move("@);
    vstd::utf8::is_ascii_chars_encode_utf8("km.silent("@);
    vstd::utf8::is_ascii_chars_encode_utf8("km.wheel("@);
    vstd::utf8::is_ascii_chars_encode_utf8("km.serial('"@);
    vstd::utf8::is_ascii_chars_encode_utf8(","@);
    vstd::utf8::is_ascii_chars_encode_utf8(")\r\n"@);
    vstd::utf8::is_ascii_chars_encode_utf8("')\r\n"@);
    assert(utf8("km.move(") =~= seq![0x6bu8, 0x6du8, 0x2eu8, 0x6du8, 0x6fu8, 0x76u8, 0x65u8, 0x28u8]);
    assert(utf8("km.silent(") =~= seq![
        0x6bu8,
        0x6du8,
        0x2eu8,
        0x73u8,
        0x69u8,
        0x6cu8,
        0x65u8,
        0x6eu8,
        0x74u8,
        0x28u8,
    ]);
    assert(utf8("km.wheel(") =~= seq![
        0x6bu8,
        0x6du8,
        0x2eu8,
        0x77u8,
        0x68u8,
        0x65u8,
        0x65u8,
        0x6cu8,
        0x28u8,
    ]);
    assert(utf8("km.serial('") =~= seq![
        0x6bu8,
        0x6du8,
        0x2eu8,
        0x73u8,
        0x65u8,
        0x72u8,
        0x69u8,
        0x61u8,
        0x6cu8,
        0x28u8,
        0x27u8,
    ]);
    assert(utf8(",") =~= seq![0x2cu8]);
    assert(utf8(")\r\n") =~= seq![0x29u8, 0x0du8, 0x0au8]);
    assert(utf8("')\r\n") =~= seq![0x27u8, 0x29u8, 0x0du8, 0x0au8]);
}

/// At most 64 bytes whose only line feed is the last byte form a
/// well-formed command.
pub proof fn lemma_single_line(t: Seq<u8>)
    requires
        1 <= t.len() <= 64,
        t.last() == 0x0au8,
        forall|i: int| 0 <= i < t.len() - 1 ==> t[i] != 0x0au8,
    ensures
        command_wf(t),
{
    t.index_of_first_ensures(0x0au8);
    assert(t.contains(0x0au8)) by {
        assert(t[t.len() - 1] == 0x0au8);
    }
    let p = t.index_of_first(0x0au8)->0;
    assert(p == t.len() - 1);
}

proof fn lemma_coords_command(prefix: Seq<u8>, x: int, y: int)
    requires
        prefix == utf8("km.move(") || prefix == utf8("km.silent("),
        -32767 <= x <= 32767,
        -32767 <= y <= 32767,
    ensures
        ({
            let t = prefix + decimal(x) + utf8(",") + decimal(y) + utf8(")\r\n");
            command_wf(t)
        }),
{
    lemma_literals();
    lemma_decimal(x);
    lemma_decimal(y);
    let dx = decimal(x);
    let dy = decimal(y);
    let t = prefix + dx + utf8(",") + dy + utf8(")\r\n");
    assert forall|i: int| 0 <= i < t.len() - 1 implies t[i] != 0x0au8 by {
        let a = prefix.len();
        let b = a + dx.len();
        let c = b + 1;
        let d = c + dy.len();
        if i < a {
            assert(t[i] == prefix[i]);
        } else if i < b {
            assert(t[i] == dx[i - a]);
        } else if i < c {
            assert(t[i] == 0x2cu8);
        } else if i < d {
            assert(t[i] == dy[i - c]);
        } else {
            assert(t[i] == utf8(")\r\n")[i - d]);
        }
    }
    lemma_single_line(t);
}

proof fn lemma_wheel_command(delta: int)
    requires
        -127 <= delta <= 127,
    ensures
        command_wf(wheel_text(delta)),
{
    lemma_literals();
    lemma_decimal(delta);
    let d = decimal(delta);
    let t = wheel_text(delta);
    assert forall|i: int| 0 <= i < t.len() - 1 implies t[i] != 0x0au8 by {
        if i < 9 {
            assert(t[i] == utf8("km.wheel(")[i]);
        } else if i < 9 + d.len() {
            assert(t[i] == d[i - 9]);
        } else {
            assert(t[i] == utf8(")\r\n")[i - 9 - d.len()]);
        }
    }
    lemma_single_line(t);
}

proof fn lemma_serial_command(value: Seq<u8>)
    requires
        value.len() <= 45,
    ensures
        serial_set_text(value).len() <= 64,
{
    lemma_literals();
}

/// Bounded command buffer for parametric commands.
pub struct CommandBuf {
    bytes: Vec<u8>,
}

impl View for CommandBuf {
    type V = Seq<u8>;

    closed spec fn view(&self) -> Seq<u8> {
        self.bytes@
    }
}

impl CommandBuf {
    /// The command bytes, including the terminating `\r\n`.
    pub fn as_bytes(&self) -> (b: &[u8])
        ensures
            b@ == self@,
    {
        self.bytes.as_slice()
    }
}

/// Appends the decimal digits of `n`.
fn push_digits(buf: &mut Vec<u8>, n: u32)
    ensures
        final(buf)@ == old(buf)@ + digits(n as nat),
    decreases n,
{
    if n >= 10 {
        push_digits(buf, n / 10);
    }
    buf.push(0x30 + (n % 10) as u8);
}

/// Appends the decimal representation of `v`.
fn push_decimal(buf: &mut Vec<u8>, v: i32)
    ensures
        final(buf)@ == old(buf)@ + decimal(v as int),
{
    if v < 0 {
        buf.push(0x2d);
        let magnitude: i64 = -(v as i64);
        push_digits(buf, magnitude as u32);
        proof {
            assert(old(buf)@.push(0x2du8) + digits((-v) as nat) =~= old(buf)@ + (seq![0x2du8]
                + digits((-v) as nat)));
        }
    } else {
        push_digits(buf, v as u32);
    }
}

/// Appends the UTF-8 bytes of `s`.
pub(crate) fn push_text(buf: &mut Vec<u8>, s: &str)
    ensures
        final(buf)@ == old(buf)@ + utf8(s),
{
    let b = s.as_bytes();
    let ghost start = buf@;
    let mut i: usize = 0;
    while i < b.len()
        invariant
            0 <= i <= b@.len(),
            b@ == utf8(s),
            buf@ == start + b@.take(i as int),
        decreases b@.len() - i,
    {
        buf.push(b[i]);
        proof {
            assert(b@.take(i + 1) =~= b@.take(i as int).push(b@[i as int]));
        }
        i = i + 1;
    }
    proof {
        assert(b@.take(i as int) =~= b@);
    }
}

/// Build `km.move(x,y)\r\n`. Returns an error if coordinates exceed ±32767.
pub fn build_move(x: i32, y: i32) -> (r: Result<CommandBuf, MakcuError>)
    ensures
        match r {
            Ok(c) => -32767 <= x <= 32767 && -32767 <= y <= 32767 && c@ == move_text(
                x as int,
                y as int,
            ) && command_wf(c@),
            Err(MakcuError::OutOfRange { value, min, max }) => min == -32767 && max == 32767 && (
            if !(-32767 <= x <= 32767) {
                value == x
            } else {
                !(-32767 <= y <= 32767) && value == y
            }),
            Err(_) => false,
        },
{
    check_move_range(x, "x")?;
    check_move_range(y, "y")?;
    let mut out: Vec<u8> = Vec::new();
    push_text(&mut out, "km.move(");
    push_decimal(&mut out, x);
    push_text(&mut out, ",");
    push_decimal(&mut out, y);
    push_text(&mut out, ")\r\n");
    proof {
        lemma_coords_command(utf8("km.move("), x as int, y as int);
    }
    build_cmd(out.as_slice())
}

/// Build `km.silent(x,y)\r\n`. Returns an error if coordinates exceed ±32767.
pub fn build_silent_move(x: i32, y: i32) -> (r: Result<CommandBuf, MakcuError>)
    ensures
        match r {
            Ok(c) => -32767 <= x <= 32767 && -32767 <= y <= 32767 && c@ == silent_move_text(
                x as int,
                y as int,
            ) && command_wf(c@),
            Err(MakcuError::OutOfRange { value, min, max }) => min == -32767 && max == 32767 && (
            if !(-32767 <= x <= 32767) {
                value == x
            } else {
                !(-32767 <= y <= 32767) && value == y
            }),
            Err(_) => false,
        },
{
    check_move_range(x, "x")?;
    check_move_range(y, "y")?;
    let mut out: Vec<u8> = Vec::new();
    push_text(&mut out, "km.silent(");
    push_decimal(&mut out, x);
    push_text(&mut out, ",");
    push_decimal(&mut out, y);
    push_text(&mut out, ")\r\n");
    proof {
        lemma_coords_command(utf8("km.silent("), x as int, y as int);
    }
    build_cmd(out.as_slice())
}

/// Build `km.wheel(delta)\r\n`. Returns an error if delta exceeds ±127.
pub fn build_wheel(delta: i32) -> (r: Result<CommandBuf, MakcuError>)
    ensures
        match r {
            Ok(c) => -127 <= delta <= 127 && c@ == wheel_text(delta as int) && command_wf(c@),
            Err(MakcuError::OutOfRange { value, min, max }) => !(-127 <= delta <= 127) && value
                == delta && min == -127 && max == 127,
            Err(_) => false,
        },
{
    if !(-WHEEL_RANGE <= delta && delta <= WHEEL_RANGE) {
        return Err(
            MakcuError::OutOfRange {
                value: delta as i64,
                min: -WHEEL_RANGE as i64,
                max: WHEEL_RANGE as i64,
            },
        );
    }
    let mut out: Vec<u8> = Vec::new();
    push_text(&mut out, "km.wheel(");
    push_decimal(&mut out, delta);
    push_text(&mut out, ")\r\n");
    proof {
        lemma_wheel_command(delta as int);
    }
    build_cmd(out.as_slice())
}

fn check_move_range(v: i32, _axis: &str) -> (r: Result<(), MakcuError>)
    ensures
        match r {
            Ok(()) => -32767 <= v <= 32767,
            Err(MakcuError::OutOfRange { value, min, max }) => !(-32767 <= v <= 32767) && value
                == v && min == -32767 && max == 32767,
            Err(_) => false,
        },
{
    if !(-MOVE_RANGE <= v && v <= MOVE_RANGE) {
        return Err(
            MakcuError::OutOfRange {
                value: v as i64,
                min: -MOVE_RANGE as i64,
                max: MOVE_RANGE as i64,
            },
        );
    }
    Ok(())
}

/// Keeps formatted output as a command when it fits the 64-byte buffer.
fn build_cmd(out: &[u8]) -> (r: Result<CommandBuf, MakcuError>)
    ensures
        match r {
            Ok(c) => out@.len() <= 64 && c@ == out@,
            Err(MakcuError::Protocol(m)) => out@.len() > 64 && m@ == "command too long for buffer"@,
            Err(_) => false,
        },
{
    if out.len() > CMD_CAPACITY {
        return Err(MakcuError::Protocol(text_to_string("command too long for buffer")));
    }
    Ok(CommandBuf { bytes: slice_to_vec(out) })
}

/// Build `km.serial('value')\r\n`.
///
/// Returns an error if the value is longer than 45 bytes.
pub fn build_serial_set(value: &str) -> (r: Result<CommandBuf, MakcuError>)
    ensures
        match r {
            Ok(c) => utf8(value).len() <= 45 && c@ == serial_set_text(utf8(value)),
            Err(MakcuError::Protocol(m)) => utf8(value).len() > 45 && m@
                == "serial value too long"@,
            Err(_) => false,
        },
{
    if value.as_bytes().len() > SERIAL_MAX_LEN {
        return Err(MakcuError::Protocol(text_to_string("serial value too long")));
    }
    let mut out: Vec<u8> = Vec::new();
    push_text(&mut out, "km.serial('");
    push_text(&mut out, value);
    push_text(&mut out, "')\r\n");
    proof {
        lemma_serial_command(utf8(value));
    }
    build_cmd(out.as_slice())
}

} // verus!
