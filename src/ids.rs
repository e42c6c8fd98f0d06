//! Textual identifiers of the items of a drawn exploration graph, and the
//! decimal rendering of integers that they rely on.

use vstd::prelude::*;
use vstd::string::*;

verus! {

/// The character that writes the decimal digit `d`.
pub open spec fn digit_char(d: nat) -> char {
    if d == 0 {
        '0'
    } else if d == 1 {
        '1'
    } else if d == 2 {
        '2'
    } else if d == 3 {
        '3'
    } else if d == 4 {
        '4'
    } else if d == 5 {
        '5'
    } else if d == 6 {
        '6'
    } else if d == 7 {
        '7'
    } else if d == 8 {
        '8'
    } else {
        '9'
    }
}

/// The decimal digits of `n`, most significant first, with no leading zero.
pub open spec fn decimal(n: nat) -> Seq<char>
    decreases n,
{
    if n < 10 {
        seq![digit_char(n)]
    } else {
        decimal(n / 10) + seq![digit_char(n % 10)]
    }
}

fn digit_str(d: u32) -> (r: &'static str)
    requires
        d < 10,
    ensures
        r@ == seq![digit_char(d as nat)],
{
    proof {
        reveal_strlit("0");
        reveal_strlit("1");
        reveal_strlit("2");
        reveal_strlit("3");
        reveal_strlit("4");
        reveal_strlit("5");
        reveal_strlit("6");
        reveal_strlit("7");
        reveal_strlit("8");
        reveal_strlit("9");
    }
    match d {
        0 => "0",
        1 => "1",
        2 => "2",
        3 => "3",
        4 => "4",
        5 => "5",
        6 => "6",
        7 => "7",
        8 => "8",
        _ => "9",
    }
}

/// Writes `n` in decimal.
pub fn decimal_string(n: u32) -> (r: String)
    ensures
        r@ == decimal(n as nat),
    decreases n,
{
    if n < 10 {
        String::from_str(digit_str(n))
    } else {
        let mut s = decimal_string(n / 10);
        s.append(digit_str(n % 10));
        s
    }
}

/// `prefix`, then `tag`, then the decimal digits of `id`.
fn tagged_id(prefix: &str, tag: &str, id: u32) -> (r: String)
    ensures
        r@ == prefix@ + tag@ + decimal(id as nat),
{
    let mut s = String::from_str(prefix);
    s.append(tag);
    let digits = decimal_string(id);
    s.append(digits.as_str());
    s
}

/// Identifier of the anchor of node `id`: `<prefix>_a<id>`.
pub fn get_anchor_id(prefix: &str, id: u32) -> (r: String)
    ensures
        r@ == prefix@ + seq!['_', 'a'] + decimal(id as nat),
{
    proof {
        reveal_strlit("_a");
    }
    tagged_id(prefix, "_a", id)
}

/// Identifier of node `id`: `<prefix>_n<id>`.
pub fn get_node_id(prefix: &str, id: u32) -> (r: String)
    ensures
        r@ == prefix@ + seq!['_', 'n'] + decimal(id as nat),
{
    proof {
        reveal_strlit("_n");
    }
    tagged_id(prefix, "_n", id)
}

/// Identifier of the filtration result `id`: `<prefix>_f<id>`.
pub fn get_filtration_id(prefix: &str, id: u32) -> (r: String)
    ensures
        r@ == prefix@ + seq!['_', 'f'] + decimal(id as nat),
{
    proof {
        reveal_strlit("_f");
    }
    tagged_id(prefix, "_f", id)
}

/// Identifier of the step from `origin_id` to `target_id`:
/// `<prefix>_s_<origin_id>_<target_id>`.
pub fn get_step_id(prefix: &str, origin_id: u32, target_id: u32) -> (r: String)
    ensures
        r@ == prefix@ + seq!['_', 's', '_'] + decimal(origin_id as nat) + seq!['_']
            + decimal(target_id as nat),
{
    proof {
        reveal_strlit("_s_");
        reveal_strlit("_");
    }
    let mut s = tagged_id(prefix, "_s_", origin_id);
    s.append("_");
    let digits = decimal_string(target_id);
    s.append(digits.as_str());
    s
}

} // verus!
