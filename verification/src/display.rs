//! The displayable-failure capability: a failure value of any concrete type
//! is usable by the registry as long as it can be rendered as text.

use vstd::prelude::*;

verus! {

/// A value that can be rendered as text, so that the registry can surface it
/// as a failure message. `text` is the mathematical rendering; `render`
/// produces it.
pub trait PrsmDisplay {
    /// The text this value renders as.
    spec fn text(&self) -> Seq<char>;

    /// Produce the textual rendering.
    fn render(&self) -> (r: String)
        ensures
            r@ == self.text(),
    ;
}

/// The decimal digit character for `d`.
pub open spec fn digit_char(d: nat) -> char
    recommends
        d < 10,
{
    if d == 0 {
        '0'
    } else if d == 1 {
        '1'
    } else if d == 2 {
        '2'
    } else if d == 3 {
        '3'
    } else if d == 4 {
        '4'
    } else if d == 5 {
        '5'
    } else if d == 6 {
        '6'
    } else if d == 7 {
        '7'
    } else if d == 8 {
        '8'
    } else {
        '9'
    }
}

/// The decimal rendering of `n`, without leading zeros (just "0" for zero).
pub open spec fn spec_decimal(n: nat) -> Seq<char>
    decreases n,
{
    if n < 10 {
        seq![digit_char(n)]
    } else {
        spec_decimal(n / 10) + seq![digit_char(n % 10)]
    }
}

/// The one-character string for a single decimal digit.
fn digit_str(d: usize) -> (s: &'static str)
    requires
        d < 10,
    ensures
        s@ == seq![digit_char(d as nat)],
{
    if d == 0 {
        proof { reveal_strlit("0"); }
        "0"
    } else if d == 1 {
        proof { reveal_strlit("1"); }
        "1"
    } else if d == 2 {
        proof { reveal_strlit("2"); }
        "2"
    } else if d == 3 {
        proof { reveal_strlit("3"); }
        "3"
    } else if d == 4 {
        proof { reveal_strlit("4"); }
        "4"
    } else if d == 5 {
        proof { reveal_strlit("5"); }
        "5"
    } else if d == 6 {
        proof { reveal_strlit("6"); }
        "6"
    } else if d == 7 {
        proof { reveal_strlit("7"); }
        "7"
    } else if d == 8 {
        proof { reveal_strlit("8"); }
        "8"
    } else {
        proof { reveal_strlit("9"); }
        "9"
    }
}

/// Render `n` in decimal.
pub fn usize_to_string(n: usize) -> (r: String)
    ensures
        r@ == spec_decimal(n as nat),
    decreases n,
{
    if n < 10 {
        digit_str(n).to_owned()
    } else {
        proof {
            assert(n / 10 < n) by (nonlinear_arith)
                requires n >= 10;
        }
        let mut r = usize_to_string(n / 10);
        r.append(digit_str(n % 10));
        r
    }
}

impl PrsmDisplay for usize {
    open spec fn text(&self) -> Seq<char> {
        spec_decimal(*self as nat)
    }

    fn render(&self) -> (r: String) {
        usize_to_string(*self)
    }
}

impl<'a> PrsmDisplay for &'a str {
    open spec fn text(&self) -> Seq<char> {
        (*self)@
    }

    fn render(&self) -> (r: String) {
        (*self).to_owned()
    }
}

impl PrsmDisplay for core::convert::Infallible {
    open spec fn text(&self) -> Seq<char> {
        Seq::empty()
    }

    fn render(&self) -> (r: String) {
        String::new()
    }
}

impl PrsmDisplay for String {
    open spec fn text(&self) -> Seq<char> {
        self@
    }

    fn render(&self) -> (r: String) {
        self.clone()
    }
}

} // verus!
