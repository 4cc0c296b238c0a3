//! The bytes that the notation is written with.

use vstd::prelude::*;

verus! {

/// A space.
pub const SPACE: u8 = 0x20;

/// A horizontal tab.
pub const TAB: u8 = 0x09;

/// A line feed.
pub const LINE_FEED: u8 = 0x0a;

/// A carriage return.
pub const CARRIAGE_RETURN: u8 = 0x0d;

/// `,`
pub const COMMA: u8 = 0x2c;

/// `+`
pub const PLUS: u8 = 0x2b;

/// `-`
pub const MINUS: u8 = 0x2d;

/// `*`
pub const STAR: u8 = 0x2a;

/// `/`
pub const SLASH: u8 = 0x2f;

/// `^`
pub const CARET: u8 = 0x5e;

/// `d`
pub const LOWER_D: u8 = 0x64;

/// `(`
pub const OPEN: u8 = 0x28;

/// `)`
pub const CLOSE: u8 = 0x29;

/// `0`
pub const ZERO: u8 = 0x30;

/// `9`
pub const NINE: u8 = 0x39;

} // verus!
