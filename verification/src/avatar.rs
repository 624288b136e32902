//! What the avatar and the row of an account show.

use crate::account::DEFAULT_ACCOUNT_ID;
use crate::text::same_text;
use vstd::prelude::*;
use vstd::string::StringSliceAdditionalSpecFns;

verus! {

/// The red, green and blue of the default avatar colour.
pub const DEFAULT_RED: u8 = 53;

pub const DEFAULT_GREEN: u8 = 132;

pub const DEFAULT_BLUE: u8 = 228;

/// The value of a hexadecimal digit, in either case.
pub open spec fn hex_value(b: u8) -> Option<u8> {
    if 48 <= b <= 57 {
        Some((b - 48) as u8)
    } else if 97 <= b <= 102 {
        Some((b - 87) as u8)
    } else if 65 <= b <= 70 {
        Some((b - 55) as u8)
    } else {
        None
    }
}

/// The number that two characters stand for: two hexadecimal digits, or a plus sign
/// and one hexadecimal digit.
pub open spec fn hex_pair(high: u8, low: u8) -> Option<u8> {
    match hex_value(low) {
        None => None,
        Some(l) => if high == 43 {
            Some(l)
        } else {
            match hex_value(high) {
                Some(h) => Some((16 * h + l) as u8),
                None => None,
            }
        },
    }
}

/// How many number signs `bytes` begins with.
pub open spec fn sign_prefix(bytes: Seq<u8>) -> int
    decreases bytes.len(),
{
    if bytes.len() == 0 || bytes[0] != 35 {
        0
    } else {
        1 + sign_prefix(bytes.drop_first())
    }
}

/// The colour component that stands at `at` in `hex`, or `fallback` where two
/// characters there do not make a number.
pub open spec fn component(hex: Seq<u8>, at: int, fallback: u8) -> u8 {
    if at + 2 <= hex.len() {
        match hex_pair(hex[at], hex[at + 1]) {
            Some(v) => v,
            None => fallback,
        }
    } else {
        fallback
    }
}

/// The red, green and blue of a colour written as `#rrggbb`, by its bytes. A
/// component that cannot be read is that of the default colour.
pub open spec fn rgb_of(bytes: Seq<u8>) -> (u8, u8, u8) {
    let hex = bytes.skip(sign_prefix(bytes));
    (
        component(hex, 0, DEFAULT_RED),
        component(hex, 2, DEFAULT_GREEN),
        component(hex, 4, DEFAULT_BLUE),
    )
}

/// The value of a hexadecimal digit.
fn digit_value(b: u8) -> (r: Option<u8>)
    ensures
        r == hex_value(b),
{
    if 48 <= b && b <= 57 {
        Some(b - 48)
    } else if 97 <= b && b <= 102 {
        Some(b - 87)
    } else if 65 <= b && b <= 70 {
        Some(b - 55)
    } else {
        None
    }
}

/// The colour component at `from + at` in `bytes`.
fn component_at(bytes: &[u8], from: usize, at: usize, fallback: u8) -> (r: u8)
    requires
        from <= bytes@.len(),
        at <= 4,
    ensures
        r == component(bytes@.skip(from as int), at as int, fallback),
{
    let len = bytes.len();
    if len - from < at + 2 {
        return fallback;
    }
    let high: u8 = bytes[from + at];
    let low: u8 = bytes[from + at + 1];
    assert(bytes@.skip(from as int)[at as int] == high);
    assert(bytes@.skip(from as int)[at + 1] == low);
    match digit_value(low) {
        None => fallback,
        Some(l) => {
            if high == 43 {
                l
            } else {
                match digit_value(high) {
                    Some(h) => 16 * h + l,
                    None => fallback,
                }
            }
        },
    }
}

/// The red, green and blue of the avatar colour `color`, written as `#rrggbb`.
pub fn parse_rgb(color: &str) -> (r: (u8, u8, u8))
    ensures
        r == rgb_of(color.spec_bytes()),
{
    let bytes = color.as_bytes();
    let mut from: usize = 0;
    assert(bytes@.skip(0) =~= bytes@);
    while from < bytes.len() && bytes[from] == 35
        invariant
            from <= bytes@.len(),
            sign_prefix(bytes@) == from + sign_prefix(bytes@.skip(from as int)),
        decreases bytes@.len() - from,
    {
        assert(bytes@.skip(from as int).drop_first() =~= bytes@.skip(from as int + 1));
        assert(bytes@.skip(from as int)[0] == bytes@[from as int]);
        from += 1;
    }
    proof {
        if from < bytes@.len() {
            assert(bytes@.skip(from as int)[0] == bytes@[from as int]);
        }
        assert(sign_prefix(bytes@) == from);
    }
    (
        component_at(bytes, from, 0, DEFAULT_RED),
        component_at(bytes, from, 2, DEFAULT_GREEN),
        component_at(bytes, from, 4, DEFAULT_BLUE),
    )
}

/// What marks a row with something unread: a filled circle and a space.
pub const UNREAD_MARK: &'static str = "\u{25CF} ";

/// What the row of an account says: its name, behind the unread mark where
/// something is unread.
pub fn account_row_label(name: &str, has_unread: bool) -> (r: String)
    ensures
        r@ == (if has_unread {
            UNREAD_MARK@ + name@
        } else {
            name@
        }),
{
    if has_unread {
        let mut label = UNREAD_MARK.to_owned();
        label.append(name);
        label
    } else {
        name.to_owned()
    }
}

/// Which buttons the row of an account shows.
#[derive(Clone, Copy, Debug, PartialEq, Eq, Structural)]
pub struct RowControls {
    pub move_up: bool,
    pub move_down: bool,
    pub delete: bool,
}

/// Which buttons the row of the account `account_id` shows. The default account
/// can be neither moved nor deleted; no account moves past an end of the list.
pub fn row_controls(account_id: &str, is_first: bool, is_last: bool) -> (r: RowControls)
    ensures
        r == (RowControls {
            move_up: account_id@ != DEFAULT_ACCOUNT_ID@ && !is_first,
            move_down: account_id@ != DEFAULT_ACCOUNT_ID@ && !is_last,
            delete: account_id@ != DEFAULT_ACCOUNT_ID@,
        }),
{
    let movable = !same_text(account_id, DEFAULT_ACCOUNT_ID);
    RowControls { move_up: movable && !is_first, move_down: movable && !is_last, delete: movable }
}

} // verus!
