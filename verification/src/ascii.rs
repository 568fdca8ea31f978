//! The codes of the ASCII characters that the language and its assembly use.

use vstd::prelude::*;

verus! {

pub const TAB: u8 = 9;

pub const LINE_FEED: u8 = 10;

pub const CARRIAGE_RETURN: u8 = 13;

pub const SPACE: u8 = 32;

/// `!`
pub const BANG: u8 = 33;

/// `(`
pub const OPEN: u8 = 40;

/// `)`
pub const CLOSE: u8 = 41;

/// `*`
pub const STAR: u8 = 42;

/// `+`
pub const PLUS: u8 = 43;

/// `-`
pub const MINUS: u8 = 45;

/// `/`
pub const SLASH: u8 = 47;

/// `0`
pub const ZERO: u8 = 48;

/// `9`
pub const NINE: u8 = 57;

/// `=`
pub const EQUALS: u8 = 61;

/// `A`
pub const UPPER_A: u8 = 65;

/// `Z`
pub const UPPER_Z: u8 = 90;

/// `_`
pub const UNDERSCORE: u8 = 95;

/// `a`
pub const LOWER_A: u8 = 97;

/// `z`
pub const LOWER_Z: u8 = 122;

/// `~`
pub const TILDE: u8 = 126;

} // verus!
