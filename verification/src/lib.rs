//! makcu — verified protocol core for MAKCU USB HID interceptor devices.

pub mod batch;
pub mod config;
pub mod device;
pub mod error;
pub mod extras;
pub mod info;
pub mod protocol;

pub use device::Lock;

use vstd::prelude::*;

verus! {

/// Library version.
pub const VERSION: &'static str = "0.1.0";

/// Library error type.
#[derive(Debug)]
pub enum Error {
    /// No MAKCU device found on any available serial port.
    NotFound,
    /// Device did not respond within the timeout — command not supported or
    /// device is unresponsive.
    Timeout,
    /// Serial port error.
    Port(serialport::Error),
    /// I/O error.
    Io(std::io::Error),
    /// Unexpected or malformed response from the device.
    Protocol(String),
}

pub type Result<T> = std::result::Result<T, Error>;

/// The three response types the MAKCU protocol can produce.
#[derive(Debug, Clone, PartialEq, Eq)]
pub enum Response {
    /// Command executed, device echoed the command back with no return value.
    Executed,
    /// Command returned a value (echo + value line).
    Responded(String),
    /// No response within timeout — command is not supported in current firmware.
    Silent,
}

/// Mathematical value of a [`Response`].
pub enum ResponseModel {
    Executed,
    Responded(Seq<char>),
    Silent,
}

impl View for Response {
    type V = ResponseModel;

    open spec fn view(&self) -> ResponseModel {
        match self {
            Response::Executed => ResponseModel::Executed,
            Response::Responded(v) => ResponseModel::Responded(v@),
            Response::Silent => ResponseModel::Silent,
        }
    }
}

/// A mouse button.
#[derive(Debug, Clone, Copy, PartialEq, Eq, Structural)]
pub enum Button {
    Left,
    Right,
    Middle,
    /// Side button 1 (back).
    Side1,
    /// Side button 2 (forward).
    Side2,
}

/// The state to set a button to.
#[derive(Debug, Clone, Copy, PartialEq, Eq, Structural)]
pub enum ButtonAction {
    /// Silent release — does not override the user's own physical press.
    SilentUp,
    /// Force the button down (held).
    Down,
    /// Force the button up, even if the user is physically holding it.
    ForcedUp,
}

/// Decoded bitmask from a button-stream notification byte.
#[derive(Debug, Clone, Copy, PartialEq, Eq, Structural, Default)]
pub struct ButtonMask {
    pub left: bool,
    pub right: bool,
    pub middle: bool,
    pub side1: bool,
    pub side2: bool,
}

/// The value of a single flag bit of a byte.
pub open spec fn bit_set(b: u8, m: u8) -> bool {
    b & m != 0
}

impl ButtonMask {
    /// The flags that a mask byte carries.
    pub open spec fn decode(b: u8) -> ButtonMask {
        ButtonMask {
            left: bit_set(b, 0x01),
            right: bit_set(b, 0x02),
            middle: bit_set(b, 0x04),
            side1: bit_set(b, 0x08),
            side2: bit_set(b, 0x10),
        }
    }
}

/// The byte whose low five bits carry the given flags (bit0 = left .. bit4 = side2).
pub open spec fn mask_byte(m: ButtonMask) -> u8 {
    ((if m.left { 1u8 } else { 0u8 }) | (if m.right { 2u8 } else { 0u8 }) | (if m.middle {
        4u8
    } else {
        0u8
    }) | (if m.side1 { 8u8 } else { 0u8 }) | (if m.side2 { 16u8 } else { 0u8 })) as u8
}

impl ButtonMask {
    /// Decode from the raw bitmask byte sent by the device.
    ///
    /// Bit layout: `bit0`=left, `bit1`=right, `bit2`=middle, `bit3`=side1, `bit4`=side2.
    pub fn from_byte(b: u8) -> (m: Self)
        ensures
            m == ButtonMask::decode(b),
    {
        ButtonMask {
            left: b & 0x01 != 0,
            right: b & 0x02 != 0,
            middle: b & 0x04 != 0,
            side1: b & 0x08 != 0,
            side2: b & 0x10 != 0,
        }
    }

    /// Re-encode to the raw bitmask byte.
    pub fn to_byte(self) -> (b: u8)
        ensures
            b == mask_byte(self),
    {
        let l: u8 = if self.left { 1 } else { 0 };
        let r: u8 = if self.right { 2 } else { 0 };
        let mi: u8 = if self.middle { 4 } else { 0 };
        let s1: u8 = if self.side1 { 8 } else { 0 };
        let s2: u8 = if self.side2 { 16 } else { 0 };
        l | r | mi | s1 | s2
    }
}

/// Decoding a byte and encoding it again keeps exactly the five button bits.
pub proof fn law_mask_decode_encode(b: u8)
    ensures
        mask_byte(ButtonMask::decode(b)) == b & 0x1f,
{
    assert(((if b & 1 != 0 { 1u8 } else { 0u8 }) | (if b & 2 != 0 { 2u8 } else { 0u8 }) | (if b
        & 4 != 0 {
        4u8
    } else {
        0u8
    }) | (if b & 8 != 0 { 8u8 } else { 0u8 }) | (if b & 16 != 0 { 16u8 } else { 0u8 })) == b
        & 0x1f) by (bit_vector);
}

/// Encoding a mask and decoding the byte again gives back the same mask, and
/// the encoded byte is below 32, as every button-stream byte is.
pub proof fn law_mask_encode_decode(m: ButtonMask)
    ensures
        ButtonMask::decode(mask_byte(m)) == m,
        mask_byte(m) < 32,
{
    let b = mask_byte(m);
    let l = m.left;
    let r = m.right;
    let mi = m.middle;
    let s1 = m.side1;
    let s2 = m.side2;
    assert(((if l { 1u8 } else { 0u8 }) | (if r { 2u8 } else { 0u8 }) | (if mi { 4u8 } else { 0u8 })
        | (if s1 { 8u8 } else { 0u8 }) | (if s2 { 16u8 } else { 0u8 })) & 1 != 0 <==> l) by (bit_vector);
    assert(((if l { 1u8 } else { 0u8 }) | (if r { 2u8 } else { 0u8 }) | (if mi { 4u8 } else { 0u8 })
        | (if s1 { 8u8 } else { 0u8 }) | (if s2 { 16u8 } else { 0u8 })) & 2 != 0 <==> r) by (bit_vector);
    assert(((if l { 1u8 } else { 0u8 }) | (if r { 2u8 } else { 0u8 }) | (if mi { 4u8 } else { 0u8 })
        | (if s1 { 8u8 } else { 0u8 }) | (if s2 { 16u8 } else { 0u8 })) & 4 != 0 <==> mi) by (bit_vector);
    assert(((if l { 1u8 } else { 0u8 }) | (if r { 2u8 } else { 0u8 }) | (if mi { 4u8 } else { 0u8 })
        | (if s1 { 8u8 } else { 0u8 }) | (if s2 { 16u8 } else { 0u8 })) & 8 != 0 <==> s1) by (bit_vector);
    assert(((if l { 1u8 } else { 0u8 }) | (if r { 2u8 } else { 0u8 }) | (if mi { 4u8 } else { 0u8 })
        | (if s1 { 8u8 } else { 0u8 }) | (if s2 { 16u8 } else { 0u8 })) & 16 != 0 <==> s2) by (bit_vector);
    assert(((if l { 1u8 } else { 0u8 }) | (if r { 2u8 } else { 0u8 }) | (if mi { 4u8 } else { 0u8 })
        | (if s1 { 8u8 } else { 0u8 }) | (if s2 { 16u8 } else { 0u8 })) < 32) by (bit_vector);
}


/// Which bit is which button: bit 0 left, bit 1 right, bit 2 middle, bit 3
/// side 1, bit 4 side 2; the bits above are ignored.
pub proof fn law_mask_bits(b: u8)
    ensures
        ButtonMask::decode(b).left == (b % 2 == 1),
        ButtonMask::decode(b).right == ((b / 2) % 2 == 1),
        ButtonMask::decode(b).middle == ((b / 4) % 2 == 1),
        ButtonMask::decode(b).side1 == ((b / 8) % 2 == 1),
        ButtonMask::decode(b).side2 == ((b / 16) % 2 == 1),
        ButtonMask::decode(b) == ButtonMask::decode((b % 32) as u8),
{
    assert(b & 0x01 != 0 <==> b % 2 == 1) by (bit_vector);
    assert(b & 0x02 != 0 <==> (b / 2) % 2 == 1) by (bit_vector);
    assert(b & 0x04 != 0 <==> (b / 4) % 2 == 1) by (bit_vector);
    assert(b & 0x08 != 0 <==> (b / 8) % 2 == 1) by (bit_vector);
    assert(b & 0x10 != 0 <==> (b / 16) % 2 == 1) by (bit_vector);
    let c = (b % 32) as u8;
    assert(c == b % 32);
    assert(c & 0x01 != 0 <==> b & 0x01 != 0) by (bit_vector)
        requires
            c == b % 32,
    ;
    assert(c & 0x02 != 0 <==> b & 0x02 != 0) by (bit_vector)
        requires
            c == b % 32,
    ;
    assert(c & 0x04 != 0 <==> b & 0x04 != 0) by (bit_vector)
        requires
            c == b % 32,
    ;
    assert(c & 0x08 != 0 <==> b & 0x08 != 0) by (bit_vector)
        requires
            c == b % 32,
    ;
    assert(c & 0x10 != 0 <==> b & 0x10 != 0) by (bit_vector)
        requires
            c == b % 32,
    ;
}

/// The byte of a mask is the sum of the values of its pressed buttons: 1 for
/// left, 2 for right, 4 for middle, 8 for side 1, 16 for side 2.
pub proof fn law_mask_byte_sum(m: ButtonMask)
    ensures
        mask_byte(m) == (if m.left { 1int } else { 0 }) + (if m.right { 2int } else { 0 }) + (if m.middle {
            4int
        } else {
            0
        }) + (if m.side1 { 8int } else { 0 }) + (if m.side2 { 16int } else { 0 }),
{
    let l = m.left;
    let r = m.right;
    let mi = m.middle;
    let s1 = m.side1;
    let s2 = m.side2;
    assert(((if l { 1u8 } else { 0u8 }) | (if r { 2u8 } else { 0u8 }) | (if mi { 4u8 } else { 0u8 })
        | (if s1 { 8u8 } else { 0u8 }) | (if s2 { 16u8 } else { 0u8 })) == (if l { 1u8 } else { 0u8 })
        + (if r { 2u8 } else { 0u8 }) + (if mi { 4u8 } else { 0u8 }) + (if s1 { 8u8 } else { 0u8 }) + (
    if s2 {
        16u8
    } else {
        0u8
    })) by (bit_vector);
}

} // verus!
