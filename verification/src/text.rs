//! Building identifiers and names as text.
use vstd::prelude::*;

verus! {

/// Appends one character to a string.
///
/// Trusted: calls `String::push`, which std documents as appending the given
/// `char` to the end of the string; the contract states exactly that.
#[verifier::external_body]
pub(crate) fn push_char(s: &mut String, c: char)
    ensures
        final(s)@ == old(s)@.push(c),
{
    s.push(c);
}

/// The character of a decimal digit.
pub open spec fn digit_char(d: int) -> char {
    if d == 0 {
        '0'
    } else if d == 1 {
        '1'
    } else if d == 2 {
        '2'
    } else if d == 3 {
        '3'
    } else if d == 4 {
        '4'
    } else if d == 5 {
        '5'
    } else if d == 6 {
        '6'
    } else if d == 7 {
        '7'
    } else if d == 8 {
        '8'
    } else {
        '9'
    }
}

/// The decimal representation of a natural number, without leading zeros.
pub open spec fn decimal_chars(n: nat) -> Seq<char>
    decreases n,
{
    if n < 10 {
        seq![digit_char(n as int)]
    } else {
        decimal_chars(n / 10).push(digit_char((n % 10) as int))
    }
}

fn digit_char_exec(d: u64) -> (c: char)
    requires
        d < 10,
    ensures
        c == digit_char(d as int),
{
    if d == 0 {
        '0'
    } else if d == 1 {
        '1'
    } else if d == 2 {
        '2'
    } else if d == 3 {
        '3'
    } else if d == 4 {
        '4'
    } else if d == 5 {
        '5'
    } else if d == 6 {
        '6'
    } else if d == 7 {
        '7'
    } else if d == 8 {
        '8'
    } else {
        '9'
    }
}

/// Appends the decimal representation of `n`.
pub fn push_decimal(s: &mut String, n: u64)
    ensures
        final(s)@ == old(s)@ + decimal_chars(n as nat),
    decreases n,
{
    if n >= 10 {
        push_decimal(s, n / 10);
    }
    push_char(s, digit_char_exec(n % 10));
    assert(final(s)@ =~= old(s)@ + decimal_chars(n as nat));
}

/// The identifier of the world created from a seed: `world_<seed>`.
pub open spec fn world_id_chars(seed: u64) -> Seq<char> {
    seq!['w', 'o', 'r', 'l', 'd', '_'] + decimal_chars(seed as nat)
}

/// Builds `world_<seed>`.
pub fn world_id_for_seed(seed: u64) -> (r: String)
    ensures
        r@ == world_id_chars(seed),
{
    let mut s = String::new();
    push_char(&mut s, 'w');
    push_char(&mut s, 'o');
    push_char(&mut s, 'r');
    push_char(&mut s, 'l');
    push_char(&mut s, 'd');
    push_char(&mut s, '_');
    push_decimal(&mut s, seed);
    assert(s@ =~= world_id_chars(seed));
    s
}

/// The name of the origin zone.
pub open spec fn origin_name_chars() -> Seq<char> {
    seq!['O', 'r', 'i', 'g', 'i', 'n']
}

/// Builds the origin zone's name, "Origin".
pub fn origin_name() -> (r: String)
    ensures
        r@ == origin_name_chars(),
{
    let mut s = String::new();
    push_char(&mut s, 'O');
    push_char(&mut s, 'r');
    push_char(&mut s, 'i');
    push_char(&mut s, 'g');
    push_char(&mut s, 'i');
    push_char(&mut s, 'n');
    assert(s@ =~= origin_name_chars());
    s
}

} // verus!
