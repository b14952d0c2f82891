//! Motif occurrences.

use vstd::prelude::*;
use vstd::string::StringExecFns;

verus! {

/// One occurrence of a motif, named by the nodes that take part in it.
///
/// * `Chain(a, b, c)`: a path from `a` through `b` to `c`.
/// * `Convergent(a, b, c)`: `a` and `c` both project to `b`.
/// * `Divergent(a, b, c)`: `b` projects to both `a` and `c`.
/// * `Reciprocal(a, b)`: `a` and `b` project to each other.
#[derive(Clone, Copy, Debug, PartialEq, Eq, Structural)]
pub enum MotifShape {
    Chain(usize, usize, usize),
    Convergent(usize, usize, usize),
    Divergent(usize, usize, usize),
    Reciprocal(usize, usize),
}

/// The character of a decimal digit.
pub open spec fn digit_char(d: nat) -> char {
    if d == 0 {
        '0'
    } else if d == 1 {
        '1'
    } else if d == 2 {
        '2'
    } else if d == 3 {
        '3'
    } else if d == 4 {
        '4'
    } else if d == 5 {
        '5'
    } else if d == 6 {
        '6'
    } else if d == 7 {
        '7'
    } else if d == 8 {
        '8'
    } else {
        '9'
    }
}

/// A number in decimal digits, without leading zeros.
pub open spec fn decimal(n: nat) -> Seq<char>
    decreases n,
{
    if n < 10 {
        seq![digit_char(n)]
    } else {
        decimal(n / 10).push(digit_char(n % 10))
    }
}

/// The three nodes of an occurrence with the two arrows between them.
pub open spec fn arrow_text(
    name: Seq<char>,
    a: usize,
    first: Seq<char>,
    b: usize,
    second: Seq<char>,
    c: usize,
) -> Seq<char> {
    name + decimal(a as nat) + first + decimal(b as nat) + second + decimal(c as nat)
}

/// The text of one decimal digit.
fn digit_text(d: usize) -> (text: &'static str)
    requires
        d < 10,
    ensures
        text@ == seq![digit_char(d as nat)],
{
    proof {
        reveal_strlit("0");
        reveal_strlit("1");
        reveal_strlit("2");
        reveal_strlit("3");
        reveal_strlit("4");
        reveal_strlit("5");
        reveal_strlit("6");
        reveal_strlit("7");
        reveal_strlit("8");
        reveal_strlit("9");
    }
    let text = if d == 0 {
        "0"
    } else if d == 1 {
        "1"
    } else if d == 2 {
        "2"
    } else if d == 3 {
        "3"
    } else if d == 4 {
        "4"
    } else if d == 5 {
        "5"
    } else if d == 6 {
        "6"
    } else if d == 7 {
        "7"
    } else if d == 8 {
        "8"
    } else {
        "9"
    };
    text
}

/// Appends a number in decimal digits.
fn append_decimal(text: &mut String, n: usize)
    ensures
        final(text)@ == old(text)@ + decimal(n as nat),
    decreases n,
{
    if n >= 10 {
        append_decimal(text, n / 10);
    }
    text.append(digit_text(n % 10));
}

/// Appends three nodes with the two arrows between them.
fn append_arrows(text: &mut String, a: usize, first: &str, b: usize, second: &str, c: usize)
    ensures
        final(text)@ == arrow_text(old(text)@, a, first@, b, second@, c),
{
    append_decimal(text, a);
    text.append(first);
    append_decimal(text, b);
    text.append(second);
    append_decimal(text, c);
}

impl MotifShape {
    /// The occurrence as a line of text: the name of the shape, a colon, and
    /// the nodes with arrows between them that show the direction of the
    /// edges.
    pub open spec fn text(self) -> Seq<char> {
        match self {
            MotifShape::Chain(a, b, c) => arrow_text(
                "chain: "@,
                a,
                " \u{2192} "@,
                b,
                " \u{2192} "@,
                c,
            ),
            MotifShape::Convergent(a, b, c) => arrow_text(
                "convergent: "@,
                a,
                " \u{2192} "@,
                b,
                " \u{2190} "@,
                c,
            ),
            MotifShape::Divergent(a, b, c) => arrow_text(
                "divergent: "@,
                a,
                " \u{2190} "@,
                b,
                " \u{2192} "@,
                c,
            ),
            MotifShape::Reciprocal(a, b) => "reciprocal: "@ + decimal(a as nat) + " \u{2194} "@
                + decimal(b as nat),
        }
    }

    /// The occurrence as a line of text, such as `chain: 0 \u{2192} 1 \u{2192} 2`.
    pub fn to_text(&self) -> (line: String)
        ensures
            line@ == self.text(),
    {
        match *self {
            MotifShape::Chain(a, b, c) => {
                let mut line = String::from_str("chain: ");
                append_arrows(&mut line, a, " \u{2192} ", b, " \u{2192} ", c);
                line
            },
            MotifShape::Convergent(a, b, c) => {
                let mut line = String::from_str("convergent: ");
                append_arrows(&mut line, a, " \u{2192} ", b, " \u{2190} ", c);
                line
            },
            MotifShape::Divergent(a, b, c) => {
                let mut line = String::from_str("divergent: ");
                append_arrows(&mut line, a, " \u{2190} ", b, " \u{2192} ", c);
                line
            },
            MotifShape::Reciprocal(a, b) => {
                let mut line = String::from_str("reciprocal: ");
                append_decimal(&mut line, a);
                line.append(" \u{2194} ");
                append_decimal(&mut line, b);
                line
            },
        }
    }

    /// Every node that the occurrence names is below `count`.
    pub open spec fn within(self, count: nat) -> bool {
        match self {
            MotifShape::Chain(a, b, c) => a < count && b < count && c < count,
            MotifShape::Convergent(a, b, c) => a < count && b < count && c < count,
            MotifShape::Divergent(a, b, c) => a < count && b < count && c < count,
            MotifShape::Reciprocal(a, b) => a < count && b < count,
        }
    }

    /// The two nodes that play the same role stand in ascending order; for a
    /// chain, whose ends play different roles, the ends are different nodes.
    pub open spec fn canonical(self) -> bool {
        match self {
            MotifShape::Chain(a, _, c) => a != c,
            MotifShape::Convergent(a, _, c) => a < c,
            MotifShape::Divergent(a, _, c) => a < c,
            MotifShape::Reciprocal(a, b) => a < b,
        }
    }

    /// The same occurrence with its two outer nodes exchanged.
    pub open spec fn swapped(self) -> MotifShape {
        match self {
            MotifShape::Chain(a, b, c) => MotifShape::Chain(c, b, a),
            MotifShape::Convergent(a, b, c) => MotifShape::Convergent(c, b, a),
            MotifShape::Divergent(a, b, c) => MotifShape::Divergent(c, b, a),
            MotifShape::Reciprocal(a, b) => MotifShape::Reciprocal(b, a),
        }
    }
}

} // verus!
