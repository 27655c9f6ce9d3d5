//! Checks of what is typed into dialogs: a new note password with its
//! confirmation, and a colour written in hexadecimal.
use vstd::prelude::*;
use crate::search::char_index_at_byte;
use crate::snippet::{trim_start_matches, trim_start_matches_chars};
use crate::text::{chars_eq, chars_of, utf8_len, utf8_len_reaches};

verus! {

/// Why a new note password is refused.
#[derive(Debug, Clone, Copy, PartialEq, Eq, Structural)]
pub enum PasswordError {
    /// The confirmation differs from the password.
    Mismatch,
    /// The password has fewer than four bytes.
    TooShort,
}

/// The message a refusal shows in the dialog.
pub open spec fn password_message(e: PasswordError) -> Seq<char> {
    match e {
        PasswordError::Mismatch => "Passwords don't match"@,
        PasswordError::TooShort => "Password too short (min 4)"@,
    }
}

impl PasswordError {
    /// The message shown in the dialog.
    pub fn message(&self) -> (r: String)
        ensures
            r@ == password_message(*self),
    {
        match self {
            PasswordError::Mismatch => "Passwords don't match".to_owned(),
            PasswordError::TooShort => "Password too short (min 4)".to_owned(),
        }
    }
}

/// Checks a new note password (to encrypt a note, or to change its
/// password) against its confirmation: refused when the two differ, else
/// when the password is shorter than four bytes.
pub fn check_new_password(password: &str, confirm: &str) -> (r: Result<(), PasswordError>)
    ensures
        password@ != confirm@ ==> r == Err::<(), PasswordError>(PasswordError::Mismatch),
        password@ == confirm@ && utf8_len(password@) < 4 ==> r == Err::<(), PasswordError>(
            PasswordError::TooShort,
        ),
        password@ == confirm@ && utf8_len(password@) >= 4 ==> r is Ok,
{
    let p = chars_of(password);
    let c = chars_of(confirm);
    if !chars_eq(&p, &c) {
        return Err(PasswordError::Mismatch);
    }
    if !utf8_len_reaches(&p, 4) {
        return Err(PasswordError::TooShort);
    }
    Ok(())
}

/// The value of a hexadecimal digit (either case).
pub open spec fn hex_digit(c: char) -> Option<nat> {
    let u = c as u32;
    if 48 <= u <= 57 {
        Some((u - 48) as nat)
    } else if 97 <= u <= 102 {
        Some((u - 87) as nat)
    } else if 65 <= u <= 70 {
        Some((u - 55) as nat)
    } else {
        None
    }
}

/// What `u8::from_str_radix` gives in base 16 for a text of two characters:
/// two hex digits, or a plus sign and one hex digit.
pub open spec fn hex_pair(a: char, b: char) -> Option<u8> {
    match (hex_digit(a), hex_digit(b)) {
        (Some(x), Some(y)) => Some((16 * x + y) as u8),
        (None, Some(y)) => if a == '+' {
            Some(y as u8)
        } else {
            None
        },
        _ => None,
    }
}

/// The colour that a hex input names: after its leading `#`s, six
/// characters read as three pairs (red, green, blue).
pub open spec fn hex_color(s: Seq<char>) -> Option<(u8, u8, u8)> {
    let t = trim_start_matches(s, seq!['#']);
    if t.len() == 6 {
        match (hex_pair(t[0], t[1]), hex_pair(t[2], t[3]), hex_pair(t[4], t[5])) {
            (Some(r), Some(g), Some(b)) => Some((r, g, b)),
            _ => None,
        }
    } else {
        None
    }
}

/// Whether the pairs of a six-byte input start and end on character
/// boundaries (the pairs are cut out by byte offsets).
pub open spec fn hex_input_sliceable(s: Seq<char>) -> bool {
    let t = trim_start_matches(s, seq!['#']);
    utf8_len(t) == 6 ==> char_index_at_byte(t, 2) is Some && char_index_at_byte(t, 4) is Some
}

/// The value of a hexadecimal digit, computed.
fn hex_digit_exec(c: char) -> (r: Option<u8>)
    ensures
        match r {
            Some(d) => hex_digit(c) == Some(d as nat),
            None => hex_digit(c) is None,
        },
{
    let u = c as u32;
    if 48 <= u && u <= 57 {
        Some((u - 48) as u8)
    } else if 97 <= u && u <= 102 {
        Some((u - 87) as u8)
    } else if 65 <= u && u <= 70 {
        Some((u - 55) as u8)
    } else {
        None
    }
}

/// A two-character byte in base 16, computed.
fn hex_pair_exec(a: char, b: char) -> (r: Option<u8>)
    ensures
        r == hex_pair(a, b),
{
    match (hex_digit_exec(a), hex_digit_exec(b)) {
        (Some(x), Some(y)) => Some(16 * x + y),
        (None, Some(y)) => if a == '+' {
            Some(y)
        } else {
            None
        },
        _ => None,
    }
}

/// Reads a colour typed in hexadecimal (`#RRGGBB`, any number of leading
/// `#`s, digits in either case): `None` unless six characters in three
/// valid pairs remain.
pub fn parse_hex_color(input: &str) -> (r: Option<(u8, u8, u8)>)
    requires
        hex_input_sliceable(input@),
    ensures
        r == hex_color(input@),
{
    let v = chars_of(input);
    let t = trim_start_matches_chars(&v, &['#']);
    assert(seq!['#'] == ['#']@) by {
        assert(['#']@.len() == 1);
    }
    if t.len() != 6 {
        return None;
    }
    match (hex_pair_exec(t[0], t[1]), hex_pair_exec(t[2], t[3]), hex_pair_exec(t[4], t[5])) {
        (Some(r), Some(g), Some(b)) => Some((r, g, b)),
        _ => None,
    }
}

} // verus!
