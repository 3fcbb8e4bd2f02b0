//! Names for the ASCII bytes that the parsers and writers look for.

use vstd::prelude::*;

verus! {

pub const TAB: u8 = 0x09;

pub const NEWLINE: u8 = 0x0a;

pub const SPACE: u8 = 0x20;

pub const BANG: u8 = 0x21;

pub const DQUOTE: u8 = 0x22;

pub const HASH: u8 = 0x23;

pub const DOLLAR: u8 = 0x24;

pub const AMPERSAND: u8 = 0x26;

pub const QUOTE: u8 = 0x27;

pub const LPAREN: u8 = 0x28;

pub const RPAREN: u8 = 0x29;

pub const STAR: u8 = 0x2a;

pub const DIGIT_0: u8 = 0x30;

pub const DIGIT_1: u8 = 0x31;

pub const DIGIT_2: u8 = 0x32;

pub const DIGIT_9: u8 = 0x39;

pub const SEMICOLON: u8 = 0x3b;

pub const LESS: u8 = 0x3c;

pub const GREATER: u8 = 0x3e;

pub const QUESTION: u8 = 0x3f;

pub const AT: u8 = 0x40;

pub const UPPER_A: u8 = 0x41;

pub const UPPER_Z: u8 = 0x5a;

pub const LBRACKET: u8 = 0x5b;

pub const BACKSLASH: u8 = 0x5c;

pub const UNDERSCORE: u8 = 0x5f;

pub const BACKTICK: u8 = 0x60;

pub const LOWER_A: u8 = 0x61;

pub const LOWER_Z: u8 = 0x7a;

pub const LBRACE: u8 = 0x7b;

pub const BAR: u8 = 0x7c;

pub const RBRACE: u8 = 0x7d;

} // verus!
