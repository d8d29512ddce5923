//! The fixed (argument-free or enumerated-argument) command byte strings.

use vstd::prelude::*;

use crate::device::{button_cmd, button_name, lock_cmd, lock_name, Lock};
use crate::protocol::builder::{push_text, utf8};
use crate::Button;

verus! {

/// The bytes `km.<name>(<digit>)\r\n`.
pub open spec fn set_text(name: &str, digit: u8) -> Seq<u8> {
    utf8("km.") + utf8(name) + utf8("(") + seq![(0x30 + digit) as u8] + utf8(")\r\n")
}

fn set_command(name: &str, digit: u8) -> (r: Vec<u8>)
    requires
        digit <= 9,
    ensures
        r@ == set_text(name, digit),
{
    let mut out: Vec<u8> = Vec::new();
    push_text(&mut out, "km.");
    push_text(&mut out, name);
    push_text(&mut out, "(");
    out.push(0x30 + digit);
    push_text(&mut out, ")\r\n");
    out
}

/// `km.<button>(1)\r\n`: force the button down.
pub fn button_down_cmd(button: Button) -> (r: Vec<u8>)
    ensures
        r@ == set_text(button_name(button), 1),
{
    set_command(button_cmd(button), 1)
}

/// `km.<button>(0)\r\n`: release without overriding a physical press.
pub fn button_up_cmd(button: Button) -> (r: Vec<u8>)
    ensures
        r@ == set_text(button_name(button), 0),
{
    set_command(button_cmd(button), 0)
}

/// `km.<button>(2)\r\n`: force the button up.
pub fn button_force_up_cmd(button: Button) -> (r: Vec<u8>)
    ensures
        r@ == set_text(button_name(button), 2),
{
    set_command(button_cmd(button), 2)
}

/// `km.<lock>(1)\r\n` or `km.<lock>(0)\r\n`.
pub fn lock_set_cmd(target: Lock, locked: bool) -> (r: Vec<u8>)
    ensures
        r@ == set_text(lock_name(target), if locked { 1 } else { 0 }),
{
    set_command(lock_cmd(target), if locked { 1 } else { 0 })
}

} // verus!
