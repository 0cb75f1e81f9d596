use vstd::prelude::*;

verus! {

/// A blank: a space or a tab.
pub open spec fn space_byte(b: u8) -> bool {
    b == ' ' as u8 || b == '\t' as u8
}

pub open spec fn digit_byte(b: u8) -> bool {
    '0' as u8 <= b && b <= '9' as u8
}

pub open spec fn hex_digit_byte(b: u8) -> bool {
    digit_byte(b) || ('a' as u8 <= b && b <= 'f' as u8) || ('A' as u8 <= b && b <= 'F' as u8)
}

pub open spec fn alpha_byte(b: u8) -> bool {
    ('a' as u8 <= b && b <= 'z' as u8) || ('A' as u8 <= b && b <= 'Z' as u8)
}

pub open spec fn alnum_byte(b: u8) -> bool {
    alpha_byte(b) || digit_byte(b)
}

/// A byte that may begin an identifier.
pub open spec fn ident_start_byte(b: u8) -> bool {
    alpha_byte(b) || b == '_' as u8
}

/// A byte that may continue an identifier (HCL allows `-` inside names).
pub open spec fn ident_byte(b: u8) -> bool {
    alnum_byte(b) || b == '_' as u8 || b == '-' as u8
}

pub fn is_space(b: u8) -> (r: bool)
    ensures
        r == space_byte(b),
{
    b == ' ' as u8 || b == '\t' as u8
}

pub fn is_digit(b: u8) -> (r: bool)
    ensures
        r == digit_byte(b),
{
    '0' as u8 <= b && b <= '9' as u8
}

pub fn is_hex_digit(b: u8) -> (r: bool)
    ensures
        r == hex_digit_byte(b),
{
    is_digit(b) || ('a' as u8 <= b && b <= 'f' as u8) || ('A' as u8 <= b && b <= 'F' as u8)
}

pub fn is_alpha(b: u8) -> (r: bool)
    ensures
        r == alpha_byte(b),
{
    ('a' as u8 <= b && b <= 'z' as u8) || ('A' as u8 <= b && b <= 'Z' as u8)
}

pub fn is_alnum(b: u8) -> (r: bool)
    ensures
        r == alnum_byte(b),
{
    is_alpha(b) || is_digit(b)
}

} // verus!
