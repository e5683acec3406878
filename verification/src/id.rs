//! Chart identifiers: a fresh id is ten random characters drawn from a
//! 64-symbol URL-safe alphabet.

use vstd::prelude::*;

verus! {

/// The characters ids are drawn from: ASCII digits, lower-case and
/// upper-case letters, `-` and `_`.
pub open spec fn is_id_char(c: char) -> bool {
    ||| 48 <= c as int <= 57
    ||| 97 <= c as int <= 122
    ||| 65 <= c as int <= 90
    ||| c == '-'
    ||| c == '_'
}

/// The URL-safe symbol for a six-bit value: `0`-`9` for 0 to 9, `a`-`z`
/// for 10 to 35, `A`-`Z` for 36 to 61, then `-` and `_`.
pub open spec fn base64_symbol(num: u8) -> char {
    if num < 10 {
        ((num + 48) as char)
    } else if num < 36 {
        ((num + 87) as char)
    } else if num < 62 {
        ((num + 29) as char)
    } else if num == 62 {
        '-'
    } else {
        '_'
    }
}

/// The symbol of one six-bit value; only values below 64 have one (the
/// alphabet has 64 symbols).
pub fn to_base64_symbol(num: u8) -> (c: char)
    requires
        num < 64,
    ensures
        c == base64_symbol(num),
        is_id_char(c),
{
    if num < 10 {
        (num + 48) as char
    } else if num < 36 {
        (num + 87) as char
    } else if num < 62 {
        (num + 29) as char
    } else if num == 62 {
        '-'
    } else {
        '_'
    }
}

/// Relies on rand::random: draws one byte; nothing can be promised of
/// its value.
#[verifier::external_body]
fn random_u8() -> (r: u8) {
    rand::random::<u8>()
}

/// Relies on String::push: appends exactly the given character.
#[verifier::external_body]
fn push_char(s: &mut String, c: char)
    ensures
        final(s)@ == old(s)@.push(c),
{
    s.push(c)
}

/// A fresh chart id: ten characters, each the symbol of a random
/// six-bit value. The draws are random, so only the length and the
/// alphabet are promised.
pub fn gen_id() -> (r: String)
    ensures
        r@.len() == 10,
        forall|i: int| 0 <= i < r@.len() ==> is_id_char(#[trigger] r@[i]),
{
    let mut res = String::new();
    let mut i: usize = 0;
    while i < 10
        invariant
            0 <= i <= 10,
            res@.len() == i,
            forall|j: int| 0 <= j < res@.len() ==> is_id_char(#[trigger] res@[j]),
        decreases 10 - i,
    {
        let drawn = random_u8();
        let b = drawn & 63;
        proof {
            assert(drawn & 63 < 64) by (bit_vector);
        }
        let c = to_base64_symbol(b);
        push_char(&mut res, c);
        i = i + 1;
    }
    res
}

} // verus!
