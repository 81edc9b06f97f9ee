//! Names for the ASCII characters that the library's parsers and writers
//! deal with.

use vstd::prelude::*;

verus! {

pub const NUL: u8 = 0;

pub const SPACE: u8 = 32;

pub const PERCENT: u8 = 37;

pub const PAREN_OPEN: u8 = 40;

pub const PAREN_CLOSE: u8 = 41;

pub const STAR: u8 = 42;

pub const MINUS: u8 = 45;

pub const DOT: u8 = 46;

pub const SLASH: u8 = 47;

pub const ZERO: u8 = 48;

pub const NINE: u8 = 57;

pub const COLON: u8 = 58;

pub const LESS: u8 = 60;

pub const GREATER: u8 = 62;

pub const AT: u8 = 64;

pub const UPPER_A: u8 = 65;

pub const UPPER_C: u8 = 67;

pub const UPPER_X: u8 = 88;

pub const UPPER_Z: u8 = 90;

pub const UNDERSCORE: u8 = 95;

pub const LOWER_A: u8 = 97;

pub const LOWER_C: u8 = 99;

pub const LOWER_D: u8 = 100;

pub const LOWER_E: u8 = 101;

pub const LOWER_F: u8 = 102;

pub const LOWER_G: u8 = 103;

pub const LOWER_I: u8 = 105;

pub const LOWER_L: u8 = 108;

pub const LOWER_N: u8 = 110;

pub const LOWER_O: u8 = 111;

pub const LOWER_P: u8 = 112;

pub const LOWER_S: u8 = 115;

pub const LOWER_T: u8 = 116;

pub const LOWER_U: u8 = 117;

pub const LOWER_X: u8 = 120;

pub const LOWER_Z: u8 = 122;

} // verus!
