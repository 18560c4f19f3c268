//! Classes of characters, as far as they matter for how a text is split into tokens.
//!
//! The classes are those of Unicode's general categories, told by ranges: a
//! character that may belong to a class is counted in it, and some that do not
//! belong to it are counted too.
use crate::text::{is_white_space, white_space};
use vstd::prelude::*;

verus! {

/// The character lies in a range of code points.
pub open spec fn within(c: char, a: u32, b: u32) -> bool {
    a <= c as u32 <= b
}

/// Whether a character lies in a range of code points.
fn lies(c: char, a: u32, b: u32) -> (r: bool)
    ensures
        r == within(c, a, b),
{
    let u = c as u32;
    a <= u && u <= b
}

/// Ranges outside ASCII without letters and marks: punctuation, symbols, digits.
pub open spec fn surely_no_letter(c: char) -> bool {
    ||| within(c, 0x80, 0xa9)
    ||| within(c, 0xab, 0xb4)
    ||| within(c, 0xb6, 0xb9)
    ||| within(c, 0xbb, 0xbf)
    ||| within(c, 0xd7, 0xd7)
    ||| within(c, 0xf7, 0xf7)
    ||| within(c, 0x2c2, 0x2c5)
    ||| within(c, 0x2d2, 0x2df)
    ||| within(c, 0x5f3, 0x60f)
    ||| within(c, 0x61b, 0x61f)
    ||| within(c, 0x660, 0x66d)
    ||| within(c, 0x6f0, 0x6f9)
    ||| within(c, 0x964, 0x970)
    ||| within(c, 0xe4f, 0xe7f)
    ||| within(c, 0x1040, 0x104f)
    ||| within(c, 0x1360, 0x137f)
    ||| within(c, 0x17de, 0x180a)
    ||| within(c, 0x1ffd, 0x2070)
    ||| within(c, 0x2072, 0x207e)
    ||| within(c, 0x2080, 0x208f)
    ||| within(c, 0x209d, 0x20cf)
    ||| within(c, 0x20f1, 0x2101)
    ||| within(c, 0x214f, 0x2182)
    ||| within(c, 0x2185, 0x2bff)
    ||| within(c, 0x2e00, 0x2e2e)
    ||| within(c, 0x2e30, 0x3004)
    ||| within(c, 0x3007, 0x3029)
    ||| within(c, 0x3030, 0x3030)
    ||| within(c, 0x3036, 0x303a)
    ||| within(c, 0x303d, 0x3040)
    ||| within(c, 0x309b, 0x309c)
    ||| within(c, 0x30a0, 0x30a0)
    ||| within(c, 0x30fb, 0x30fb)
    ||| within(c, 0x318f, 0x319f)
    ||| within(c, 0x31c0, 0x31ef)
    ||| within(c, 0x3200, 0x33ff)
    ||| within(c, 0x4dc0, 0x4dff)
    ||| within(c, 0xa48d, 0xa4cf)
    ||| within(c, 0xd7fc, 0xf8ff)
    ||| within(c, 0xfd3e, 0xfd4f)
    ||| within(c, 0xfe10, 0xfe1f)
    ||| within(c, 0xfe30, 0xfe6f)
    ||| within(c, 0xfefd, 0xff20)
    ||| within(c, 0xff3b, 0xff40)
    ||| within(c, 0xff5b, 0xff65)
    ||| within(c, 0xffdd, 0xffff)
    ||| within(c, 0x100fb, 0x101fc)
    ||| within(c, 0x1cf47, 0x1d164)
    ||| within(c, 0x1d245, 0x1d3ff)
    ||| within(c, 0x1d7cc, 0x1d9ff)
    ||| within(c, 0x1eebc, 0x1ffff)
    ||| within(c, 0x323b0, 0xe00ff)
    ||| within(c, 0xe01f0, 0x10ffff)
}

/// Whether a character lies in one of the ranges without letters and marks.
fn is_surely_no_letter(c: char) -> (b: bool)
    ensures
        b == surely_no_letter(c),
{
    lies(c, 0x80, 0xa9) || lies(c, 0xab, 0xb4) || lies(c, 0xb6, 0xb9)
        || lies(c, 0xbb, 0xbf) || lies(c, 0xd7, 0xd7) || lies(c, 0xf7, 0xf7)
        || lies(c, 0x2c2, 0x2c5) || lies(c, 0x2d2, 0x2df) || lies(c, 0x5f3, 0x60f)
        || lies(c, 0x61b, 0x61f) || lies(c, 0x660, 0x66d) || lies(c, 0x6f0, 0x6f9)
        || lies(c, 0x964, 0x970) || lies(c, 0xe4f, 0xe7f) || lies(c, 0x1040, 0x104f)
        || lies(c, 0x1360, 0x137f) || lies(c, 0x17de, 0x180a) || lies(c, 0x1ffd, 0x2070)
        || lies(c, 0x2072, 0x207e) || lies(c, 0x2080, 0x208f) || lies(c, 0x209d, 0x20cf)
        || lies(c, 0x20f1, 0x2101) || lies(c, 0x214f, 0x2182) || lies(c, 0x2185, 0x2bff)
        || lies(c, 0x2e00, 0x2e2e) || lies(c, 0x2e30, 0x3004) || lies(c, 0x3007, 0x3029)
        || lies(c, 0x3030, 0x3030) || lies(c, 0x3036, 0x303a) || lies(c, 0x303d, 0x3040)
        || lies(c, 0x309b, 0x309c) || lies(c, 0x30a0, 0x30a0) || lies(c, 0x30fb, 0x30fb)
        || lies(c, 0x318f, 0x319f) || lies(c, 0x31c0, 0x31ef) || lies(c, 0x3200, 0x33ff)
        || lies(c, 0x4dc0, 0x4dff) || lies(c, 0xa48d, 0xa4cf) || lies(c, 0xd7fc, 0xf8ff)
        || lies(c, 0xfd3e, 0xfd4f) || lies(c, 0xfe10, 0xfe1f) || lies(c, 0xfe30, 0xfe6f)
        || lies(c, 0xfefd, 0xff20) || lies(c, 0xff3b, 0xff40) || lies(c, 0xff5b, 0xff65)
        || lies(c, 0xffdd, 0xffff) || lies(c, 0x100fb, 0x101fc) || lies(c, 0x1cf47, 0x1d164)
        || lies(c, 0x1d245, 0x1d3ff) || lies(c, 0x1d7cc, 0x1d9ff)
        || lies(c, 0x1eebc, 0x1ffff) || lies(c, 0x323b0, 0xe00ff)
        || lies(c, 0xe01f0, 0x10ffff)
}

/// Ranges outside ASCII of nothing but letters and numbers.
pub open spec fn surely_no_sign(c: char) -> bool {
    ||| within(c, 0xc0, 0xd6)
    ||| within(c, 0xd8, 0xf6)
    ||| within(c, 0xf8, 0x2c1)
    ||| within(c, 0x3a3, 0x3f5)
    ||| within(c, 0x3f7, 0x481)
    ||| within(c, 0x48a, 0x52f)
    ||| within(c, 0x5d0, 0x5ea)
    ||| within(c, 0x620, 0x64a)
    ||| within(c, 0x671, 0x6d3)
    ||| within(c, 0x904, 0x939)
    ||| within(c, 0xe01, 0xe30)
    ||| within(c, 0x10fc, 0x1248)
    ||| within(c, 0x1401, 0x166c)
    ||| within(c, 0x1d00, 0x1dbf)
    ||| within(c, 0x1e00, 0x1f15)
    ||| within(c, 0x3041, 0x3096)
    ||| within(c, 0x30a1, 0x30fa)
    ||| within(c, 0x30fc, 0x30ff)
    ||| within(c, 0x3131, 0x318e)
    ||| within(c, 0x3400, 0x4dbf)
    ||| within(c, 0x4e00, 0xa48c)
    ||| within(c, 0xac00, 0xd7a3)
    ||| within(c, 0xf900, 0xfa6d)
    ||| within(c, 0xff10, 0xff19)
    ||| within(c, 0xff21, 0xff3a)
    ||| within(c, 0xff41, 0xff5a)
    ||| within(c, 0xff66, 0xffbe)
    ||| within(c, 0x1d552, 0x1d6a5)
    ||| within(c, 0x20000, 0x2a6df)
    ||| within(c, 0x2a700, 0x2b739)
    ||| within(c, 0x2b740, 0x2b81d)
    ||| within(c, 0x2b820, 0x2cea1)
    ||| within(c, 0x2ceb0, 0x2ebe0)
    ||| within(c, 0x30000, 0x3134a)
    ||| within(c, 0x31350, 0x323af)
}

/// Whether a character lies in one of the ranges of letters and numbers.
fn is_surely_no_sign(c: char) -> (b: bool)
    ensures
        b == surely_no_sign(c),
{
    lies(c, 0xc0, 0xd6) || lies(c, 0xd8, 0xf6) || lies(c, 0xf8, 0x2c1)
        || lies(c, 0x3a3, 0x3f5) || lies(c, 0x3f7, 0x481) || lies(c, 0x48a, 0x52f)
        || lies(c, 0x5d0, 0x5ea) || lies(c, 0x620, 0x64a) || lies(c, 0x671, 0x6d3)
        || lies(c, 0x904, 0x939) || lies(c, 0xe01, 0xe30) || lies(c, 0x10fc, 0x1248)
        || lies(c, 0x1401, 0x166c) || lies(c, 0x1d00, 0x1dbf) || lies(c, 0x1e00, 0x1f15)
        || lies(c, 0x3041, 0x3096) || lies(c, 0x30a1, 0x30fa) || lies(c, 0x30fc, 0x30ff)
        || lies(c, 0x3131, 0x318e) || lies(c, 0x3400, 0x4dbf) || lies(c, 0x4e00, 0xa48c)
        || lies(c, 0xac00, 0xd7a3) || lies(c, 0xf900, 0xfa6d) || lies(c, 0xff10, 0xff19)
        || lies(c, 0xff21, 0xff3a) || lies(c, 0xff41, 0xff5a) || lies(c, 0xff66, 0xffbe)
        || lies(c, 0x1d552, 0x1d6a5) || lies(c, 0x20000, 0x2a6df)
        || lies(c, 0x2a700, 0x2b739) || lies(c, 0x2b740, 0x2b81d)
        || lies(c, 0x2b820, 0x2cea1) || lies(c, 0x2ceb0, 0x2ebe0)
        || lies(c, 0x30000, 0x3134a) || lies(c, 0x31350, 0x323af)
}

/// Ranges outside ASCII that hold the upper-case and title-case letters.
pub open spec fn foreign_upper(c: char) -> bool {
    ||| within(c, 0xc0, 0x24e)
    ||| within(c, 0x370, 0x482)
    ||| within(c, 0x48a, 0x556)
    ||| within(c, 0x10a0, 0x10cd)
    ||| within(c, 0x13a0, 0x13f5)
    ||| within(c, 0x1c89, 0x1cbf)
    ||| within(c, 0x1e00, 0x1ffc)
    ||| within(c, 0x2102, 0x2183)
    ||| within(c, 0x2c00, 0x2cee)
    ||| within(c, 0x2cf2, 0x2cf2)
    ||| within(c, 0xa640, 0xa66e)
    ||| within(c, 0xa680, 0xa69a)
    ||| within(c, 0xa722, 0xa7f5)
    ||| within(c, 0xff21, 0xff3a)
    ||| within(c, 0x10400, 0x10427)
    ||| within(c, 0x104b0, 0x104d3)
    ||| within(c, 0x10570, 0x10595)
    ||| within(c, 0x10c80, 0x10cb2)
    ||| within(c, 0x10d50, 0x10d65)
    ||| within(c, 0x118a0, 0x118bf)
    ||| within(c, 0x16e40, 0x16e5f)
    ||| within(c, 0x1d400, 0x1d7ca)
    ||| within(c, 0x1e900, 0x1e921)
}

/// Whether a character lies in one of the ranges of upper-case letters.
fn is_foreign_upper(c: char) -> (b: bool)
    ensures
        b == foreign_upper(c),
{
    lies(c, 0xc0, 0x24e) || lies(c, 0x370, 0x482) || lies(c, 0x48a, 0x556)
        || lies(c, 0x10a0, 0x10cd) || lies(c, 0x13a0, 0x13f5) || lies(c, 0x1c89, 0x1cbf)
        || lies(c, 0x1e00, 0x1ffc) || lies(c, 0x2102, 0x2183) || lies(c, 0x2c00, 0x2cee)
        || lies(c, 0x2cf2, 0x2cf2) || lies(c, 0xa640, 0xa66e) || lies(c, 0xa680, 0xa69a)
        || lies(c, 0xa722, 0xa7f5) || lies(c, 0xff21, 0xff3a) || lies(c, 0x10400, 0x10427)
        || lies(c, 0x104b0, 0x104d3) || lies(c, 0x10570, 0x10595)
        || lies(c, 0x10c80, 0x10cb2) || lies(c, 0x10d50, 0x10d65)
        || lies(c, 0x118a0, 0x118bf) || lies(c, 0x16e40, 0x16e5f)
        || lies(c, 0x1d400, 0x1d7ca) || lies(c, 0x1e900, 0x1e921)
}

/// An ASCII upper-case letter.
pub open spec fn ascii_upper(c: char) -> bool {
    within(c, 0x41, 0x5a)
}

/// An ASCII letter.
pub open spec fn ascii_letter(c: char) -> bool {
    ascii_upper(c) || within(c, 0x61, 0x7a)
}

/// An ASCII digit.
pub open spec fn ascii_digit(c: char) -> bool {
    within(c, 0x30, 0x39)
}

/// The character may be a letter or a mark.
pub open spec fn may_be_letter(c: char) -> bool {
    !white_space(c) && (ascii_letter(c) || c as u32 >= 0x80 && !surely_no_letter(c))
}

/// Whether a character may be a letter or a mark.
pub fn is_maybe_letter(c: char) -> (b: bool)
    ensures
        b == may_be_letter(c),
{
    !is_white_space(c) && (lies(c, 0x41, 0x5a) || lies(c, 0x61, 0x7a) || (c as u32 >= 0x80
        && !is_surely_no_letter(c)))
}

/// The character may be neither white space nor a letter nor a number.
pub open spec fn may_be_sign(c: char) -> bool {
    !white_space(c) && !ascii_letter(c) && !ascii_digit(c) && !surely_no_sign(c)
}

/// Whether a character may be neither white space nor a letter nor a number.
pub fn is_maybe_sign(c: char) -> (b: bool)
    ensures
        b == may_be_sign(c),
{
    !is_white_space(c) && !lies(c, 0x41, 0x5a) && !lies(c, 0x61, 0x7a) && !lies(c, 0x30, 0x39)
        && !is_surely_no_sign(c)
}

/// The character may be an upper-case or title-case letter.
pub open spec fn may_be_upper(c: char) -> bool {
    ascii_upper(c) || foreign_upper(c)
}

/// Whether a character may be an upper-case or title-case letter.
pub fn is_maybe_upper(c: char) -> (b: bool)
    ensures
        b == may_be_upper(c),
{
    lies(c, 0x41, 0x5a) || is_foreign_upper(c)
}

/// The character may be a mark: ranges that hold the marks.
pub open spec fn may_be_mark(c: char) -> bool {
    ||| within(c, 0x300, 0x36f)
    ||| within(c, 0x483, 0x489)
    ||| within(c, 0x591, 0x109d)
    ||| within(c, 0x135d, 0x135f)
    ||| within(c, 0x1712, 0x1c37)
    ||| within(c, 0x1cd0, 0x1cf9)
    ||| within(c, 0x1dc0, 0x1dff)
    ||| within(c, 0x20d0, 0x20f0)
    ||| within(c, 0x2cef, 0x2cf1)
    ||| within(c, 0x2d7f, 0x2dff)
    ||| within(c, 0x302a, 0x302f)
    ||| within(c, 0x3099, 0x309a)
    ||| within(c, 0xa66f, 0xa67d)
    ||| within(c, 0xa69e, 0xa69f)
    ||| within(c, 0xa6f0, 0xa6f1)
    ||| within(c, 0xa802, 0xaaf6)
    ||| within(c, 0xabe3, 0xabed)
    ||| within(c, 0xfb1e, 0xfb1e)
    ||| within(c, 0xfe00, 0xfe2f)
    ||| within(c, 0x101fd, 0x1037a)
    ||| within(c, 0x10a01, 0x10ae6)
    ||| within(c, 0x10d24, 0x10d27)
    ||| within(c, 0x10d69, 0x1183a)
    ||| within(c, 0x11930, 0x11f5a)
    ||| within(c, 0x13440, 0x13455)
    ||| within(c, 0x1611e, 0x16b36)
    ||| within(c, 0x16f4f, 0x16ff1)
    ||| within(c, 0x1bc9d, 0x1d244)
    ||| within(c, 0x1da00, 0x1e8d6)
    ||| within(c, 0x1e944, 0x1e94a)
    ||| within(c, 0xe0100, 0xe01ef)
}

/// Whether a character may be a mark.
pub fn is_maybe_mark(c: char) -> (b: bool)
    ensures
        b == may_be_mark(c),
{
    lies(c, 0x300, 0x36f) || lies(c, 0x483, 0x489) || lies(c, 0x591, 0x109d)
        || lies(c, 0x135d, 0x135f) || lies(c, 0x1712, 0x1c37) || lies(c, 0x1cd0, 0x1cf9)
        || lies(c, 0x1dc0, 0x1dff) || lies(c, 0x20d0, 0x20f0) || lies(c, 0x2cef, 0x2cf1)
        || lies(c, 0x2d7f, 0x2dff) || lies(c, 0x302a, 0x302f) || lies(c, 0x3099, 0x309a)
        || lies(c, 0xa66f, 0xa67d) || lies(c, 0xa69e, 0xa69f) || lies(c, 0xa6f0, 0xa6f1)
        || lies(c, 0xa802, 0xaaf6) || lies(c, 0xabe3, 0xabed) || lies(c, 0xfb1e, 0xfb1e)
        || lies(c, 0xfe00, 0xfe2f) || lies(c, 0x101fd, 0x1037a) || lies(c, 0x10a01, 0x10ae6)
        || lies(c, 0x10d24, 0x10d27) || lies(c, 0x10d69, 0x1183a)
        || lies(c, 0x11930, 0x11f5a) || lies(c, 0x13440, 0x13455)
        || lies(c, 0x1611e, 0x16b36) || lies(c, 0x16f4f, 0x16ff1)
        || lies(c, 0x1bc9d, 0x1d244) || lies(c, 0x1da00, 0x1e8d6)
        || lies(c, 0x1e944, 0x1e94a) || lies(c, 0xe0100, 0xe01ef)
}

} // verus!
