//! Named byte constants for the ASCII characters the formats use.
use vstd::prelude::*;

verus! {

pub const B_ZERO: u8 = 48;

pub const B_NINE: u8 = 57;

pub const B_MINUS: u8 = 45;

pub const B_DOT: u8 = 46;

pub const B_QUOTE: u8 = 34;

pub const B_BACKSLASH: u8 = 92;

pub const B_NEWLINE: u8 = 10;

pub const B_SPACE: u8 = 32;

pub const B_COLON: u8 = 58;

pub const B_COMMA: u8 = 44;

pub const B_LBRACE: u8 = 123;

pub const B_RBRACE: u8 = 125;

pub const B_LBRACKET: u8 = 91;

pub const B_RBRACKET: u8 = 93;

pub const B_EQUALS: u8 = 61;

pub const B_LOWER_N: u8 = 110;

pub const B_LOWER_A: u8 = 97;

pub const B_LOWER_Z: u8 = 122;

pub const B_UPPER_A: u8 = 65;

pub const B_UPPER_F: u8 = 70;

pub const B_UPPER_T: u8 = 84;

pub const B_LOWER_F: u8 = 102;

pub const B_UNDERSCORE: u8 = 95;

pub const B_PLUS: u8 = 43;

pub const B_UPPER_Z: u8 = 90;

pub const B_LOWER_M: u8 = 109;

pub const B_LOWER_S: u8 = 115;

pub const B_LOWER_H: u8 = 104;

pub const B_LOWER_T: u8 = 116;

pub const B_LOWER_R: u8 = 114;

pub const B_LOWER_U: u8 = 117;

pub const B_LOWER_E: u8 = 101;

pub const B_LOWER_L: u8 = 108;

pub const B_TAB: u8 = 9;

pub const B_CR: u8 = 13;

pub const B_UPPER_D: u8 = 68;

} // verus!
