//! Names for the ASCII byte values the file framers write.

use vstd::prelude::*;

verus! {

pub const LF: u8 = 10;

pub const CR: u8 = 13;

pub const SPACE: u8 = 32;

pub const QUOTE: u8 = 34;

pub const COMMA: u8 = 44;

pub const COLON: u8 = 58;

pub const UNDERSCORE: u8 = 95;

pub const LBRACE: u8 = 123;

pub const RBRACE: u8 = 125;

pub const B_CAP_G: u8 = 71;

pub const B_A: u8 = 97;

pub const B_B: u8 = 98;

pub const B_C: u8 = 99;

pub const B_D: u8 = 100;

pub const B_E: u8 = 101;

pub const B_F: u8 = 102;

pub const B_G: u8 = 103;

pub const B_H: u8 = 104;

pub const B_I: u8 = 105;

pub const B_K: u8 = 107;

pub const B_L: u8 = 108;

pub const B_M: u8 = 109;

pub const B_N: u8 = 110;

pub const B_O: u8 = 111;

pub const B_R: u8 = 114;

pub const B_S: u8 = 115;

pub const B_T: u8 = 116;

pub const B_U: u8 = 117;

} // verus!
