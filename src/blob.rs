//! Names for stored files: twenty random letters or digits, a dot, and the
//! extension the client gave.

use rand::Rng;
use vstd::prelude::*;
use vstd::string::*;
use vstd::utf8::*;
use crate::codec::utf8_str;

verus! {

broadcast use {vstd::utf8::encode_utf8_valid_utf8, vstd::utf8::encode_utf8_decode_utf8};

/// Relies on rand's `thread_rng().gen_range(0..bound)`: a number drawn from
/// `0..bound`. `gen_range` panics on an empty range, hence the `requires`.
#[verifier::external_body]
fn draw_below(bound: u32) -> (r: u32)
    requires
        0 < bound,
    ensures
        r < bound,
{
    rand::thread_rng().gen_range(0..bound)
}

/// The number of random characters in a name.
pub const NAME_LEN: usize = 20;

pub open spec fn is_name_char(c: char) -> bool {
    ('a' <= c <= 'z') || ('A' <= c <= 'Z') || ('0' <= c <= '9')
}

/// How many characters alphabet `kind` has: lower-case letters, upper-case
/// letters, digits.
pub open spec fn alphabet_len(kind: u32) -> u32 {
    if kind == 2 {
        10
    } else {
        26
    }
}

/// The `offset`-th character of alphabet `kind`.
pub open spec fn alphabet_char(kind: u32, offset: u32) -> u8 {
    if kind == 0 {
        (97 + offset) as u8
    } else if kind == 1 {
        (65 + offset) as u8
    } else {
        (48 + offset) as u8
    }
}

/// The character that a draw of the alphabet and a draw within it select.
pub fn name_char(kind: u32, offset: u32) -> (r: u8)
    requires
        kind < 3,
        offset < alphabet_len(kind),
    ensures
        r == alphabet_char(kind, offset),
        is_name_char(r as char),
{
    if kind == 0 {
        97 + offset as u8
    } else if kind == 1 {
        65 + offset as u8
    } else {
        48 + offset as u8
    }
}

/// A fresh random name for a file with extension `ext`.
pub fn blob_name(ext: &str) -> (r: String)
    ensures
        r@.len() == NAME_LEN + 1 + ext@.len(),
        forall|i: int| 0 <= i < NAME_LEN ==> is_name_char(#[trigger] r@[i]),
        r@[NAME_LEN as int] == '.',
        r@.subrange(NAME_LEN + 1, r@.len() as int) == ext@,
{
    let mut bytes: Vec<u8> = Vec::new();
    while bytes.len() < NAME_LEN
        invariant
            bytes@.len() <= NAME_LEN,
            forall|i: int| 0 <= i < bytes@.len() ==> is_name_char(#[trigger] bytes@[i] as char),
        decreases NAME_LEN - bytes@.len(),
    {
        let kind = draw_below(3);
        let span: u32 = if kind == 2 {
            10
        } else {
            26
        };
        let offset = draw_below(span);
        bytes.push(name_char(kind, offset));
    }
    bytes.push(46u8);
    let ghost chars = Seq::new(bytes@.len(), |i: int| bytes@[i] as char);
    proof {
        assert(chars[NAME_LEN as int] == '.');
        assert(is_ascii_chars(chars));
        is_ascii_chars_encode_utf8(chars);
        assert(encode_utf8(chars) =~= bytes@);
        assert(valid_utf8(bytes@));
    }
    let mut name = match utf8_str(bytes.as_slice()) {
        Some(prefix) => {
            proof {
                assert(decode_utf8(encode_utf8(prefix@)) == prefix@);
                assert(decode_utf8(encode_utf8(chars)) == chars);
            }
            prefix.to_owned()
        },
        None => String::new(),
    };
    proof {
        assert(name@ == chars);
    }
    name.append(ext);
    proof {
        assert(name@.subrange(NAME_LEN + 1, name@.len() as int) =~= ext@);
    }
    name
}

} // verus!
