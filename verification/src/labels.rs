//! Human-readable labels for a tag set with a payload-carrying variant,
//! including a verified decimal rendering of the rank.

use vstd::prelude::*;
use vstd::string::StringExecFns;

verus! {

/// The character that writes a single decimal digit.
pub open spec fn digit_char(d: nat) -> char {
    if d == 0 {
        '0'
    } else if d == 1 {
        '1'
    } else if d == 2 {
        '2'
    } else if d == 3 {
        '3'
    } else if d == 4 {
        '4'
    } else if d == 5 {
        '5'
    } else if d == 6 {
        '6'
    } else if d == 7 {
        '7'
    } else if d == 8 {
        '8'
    } else {
        '9'
    }
}

/// The decimal writing of a number, most significant digit first, with no
/// leading zero except for the number 0 itself.
pub open spec fn spec_decimal(n: nat) -> Seq<char>
    decreases n,
{
    if n < 10 {
        seq![digit_char(n)]
    } else {
        spec_decimal(n / 10).push(digit_char(n % 10))
    }
}

/// Returns the one-character text of a single decimal digit.
fn digit_str(d: u64) -> (r: &'static str)
    requires
        d < 10,
    ensures
        r@ == seq![digit_char(d as nat)],
{
    proof {
        reveal_strlit("0");
        reveal_strlit("1");
        reveal_strlit("2");
        reveal_strlit("3");
        reveal_strlit("4");
        reveal_strlit("5");
        reveal_strlit("6");
        reveal_strlit("7");
        reveal_strlit("8");
        reveal_strlit("9");
    }
    let r = match d {
        0 => "0",
        1 => "1",
        2 => "2",
        3 => "3",
        4 => "4",
        5 => "5",
        6 => "6",
        7 => "7",
        8 => "8",
        _ => "9",
    };
    proof {
        assert(r@ =~= seq![digit_char(d as nat)]);
    }
    r
}

/// Renders a number in decimal.
pub fn fmt_u64(n: u64) -> (r: String)
    ensures
        r@ == spec_decimal(n as nat),
    decreases n,
{
    if n < 10 {
        digit_str(n).to_owned()
    } else {
        let mut s = fmt_u64(n / 10);
        s.append(digit_str(n % 10));
        proof {
            assert(s@ =~= spec_decimal(n as nat));
        }
        s
    }
}

/// A closed tag set over programming languages: two fixed variants that map
/// to fixed labels, and one payload variant carrying a text reference and an
/// integer rank. The payload variant offers no numeric representation, so
/// converting it to a number is not expressible.
#[derive(Clone, Copy)]
pub enum ProgramLanguage<'a> {
    Rust,
    Java,
    Rest(&'a str, usize),
}

impl<'a> ProgramLanguage<'a> {
    /// The label of each variant: fixed text for the fixed variants, and the
    /// rank and text of the payload variant joined as "Top{rank}: {text}".
    pub open spec fn spec_label(self) -> Seq<char> {
        match self {
            ProgramLanguage::Rust => "Top1: Rust"@,
            ProgramLanguage::Java => "Top2: Java"@,
            ProgramLanguage::Rest(lang, rank) => "Top"@ + spec_decimal(rank as nat) + ": "@
                + lang@,
        }
    }

    /// Renders the human-readable label of this variant.
    pub fn label(&self) -> (r: String)
        ensures
            r@ == self.spec_label(),
    {
        match *self {
            ProgramLanguage::Rust => "Top1: Rust".to_owned(),
            ProgramLanguage::Java => "Top2: Java".to_owned(),
            ProgramLanguage::Rest(lang, rank) => {
                let mut s = "Top".to_owned();
                let num = fmt_u64(rank as u64);
                s.append(num.as_str());
                s.append(": ");
                s.append(lang);
                proof {
                    assert(s@ =~= self.spec_label());
                }
                s
            },
        }
    }
}

} // verus!
