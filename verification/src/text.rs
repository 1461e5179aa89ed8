//! The status messages the engine reports, built as strings whose exact
//! character sequences are pinned down by spec functions.

use vstd::prelude::*;

verus! {

/// The decimal digit character for a value below ten.
pub open spec fn dec_digit(d: int) -> char {
    if d == 0 {
        '0'
    } else if d == 1 {
        '1'
    } else if d == 2 {
        '2'
    } else if d == 3 {
        '3'
    } else if d == 4 {
        '4'
    } else if d == 5 {
        '5'
    } else if d == 6 {
        '6'
    } else if d == 7 {
        '7'
    } else if d == 8 {
        '8'
    } else {
        '9'
    }
}

/// The decimal rendering of a nonnegative integer, most significant digit
/// first.
pub open spec fn dec_str(n: int) -> Seq<char>
    decreases n,
{
    if n < 10 {
        seq![dec_digit(n)]
    } else {
        dec_str(n / 10).push(dec_digit(n % 10))
    }
}

pub open spec fn started_text() -> Seq<char> {
    "Game started!"@
}

pub open spec fn miss_text(row1: int, col1: int) -> Seq<char> {
    "Miss at ("@ + dec_str(row1) + ", "@ + dec_str(col1) + ")!"@
}

pub open spec fn hit_text(row1: int, col1: int) -> Seq<char> {
    "Hit at ("@ + dec_str(row1) + ", "@ + dec_str(col1) + ")!"@
}

pub open spec fn sunk_text(name: Seq<char>) -> Seq<char> {
    "You sunk the "@ + name + "!"@
}

pub open spec fn victory_text() -> Seq<char> {
    "Congratulations! You sunk all the ships!"@
}

fn digit_str(d: usize) -> (r: &'static str)
    requires
        d < 10,
    ensures
        r@ == seq![dec_digit(d as int)],
{
    proof {
        reveal_strlit("0");
        reveal_strlit("1");
        reveal_strlit("2");
        reveal_strlit("3");
        reveal_strlit("4");
        reveal_strlit("5");
        reveal_strlit("6");
        reveal_strlit("7");
        reveal_strlit("8");
        reveal_strlit("9");
    }
    let r: &'static str = if d == 0 {
        "0"
    } else if d == 1 {
        "1"
    } else if d == 2 {
        "2"
    } else if d == 3 {
        "3"
    } else if d == 4 {
        "4"
    } else if d == 5 {
        "5"
    } else if d == 6 {
        "6"
    } else if d == 7 {
        "7"
    } else {
        "8"
    };
    let r: &'static str = if d == 9 {
        "9"
    } else {
        r
    };
    proof {
        assert(r@ =~= seq![dec_digit(d as int)]);
    }
    r
}

/// The decimal rendering of `n` as an owned string.
pub fn decimal_string(n: usize) -> (r: String)
    ensures
        r@ == dec_str(n as int),
    decreases n,
{
    if n < 10 {
        digit_str(n).to_owned()
    } else {
        let mut s = decimal_string(n / 10);
        s.append(digit_str(n % 10));
        proof {
            assert(s@ =~= dec_str(n as int));
        }
        s
    }
}

pub fn started_message() -> (r: String)
    ensures
        r@ == started_text(),
{
    "Game started!".to_owned()
}

pub fn victory_message() -> (r: String)
    ensures
        r@ == victory_text(),
{
    "Congratulations! You sunk all the ships!".to_owned()
}

/// The report of a miss at the given 1-based coordinates.
pub fn miss_message(row1: usize, col1: usize) -> (r: String)
    ensures
        r@ == miss_text(row1 as int, col1 as int),
{
    let mut s = "Miss at (".to_owned();
    let d1 = decimal_string(row1);
    s.append(d1.as_str());
    s.append(", ");
    let d2 = decimal_string(col1);
    s.append(d2.as_str());
    s.append(")!");
    proof {
        assert(s@ =~= miss_text(row1 as int, col1 as int));
    }
    s
}

/// The report of a hit at the given 1-based coordinates.
pub fn hit_message(row1: usize, col1: usize) -> (r: String)
    ensures
        r@ == hit_text(row1 as int, col1 as int),
{
    let mut s = "Hit at (".to_owned();
    let d1 = decimal_string(row1);
    s.append(d1.as_str());
    s.append(", ");
    let d2 = decimal_string(col1);
    s.append(d2.as_str());
    s.append(")!");
    proof {
        assert(s@ =~= hit_text(row1 as int, col1 as int));
    }
    s
}

/// The report that the named ship was sunk.
pub fn sunk_message(name: &str) -> (r: String)
    ensures
        r@ == sunk_text(name@),
{
    let mut s = "You sunk the ".to_owned();
    s.append(name);
    s.append("!");
    proof {
        assert(s@ =~= sunk_text(name@));
    }
    s
}

} // verus!
