//! The four numbers of a browser version, and their text.

use vstd::prelude::*;
use vstd::string::*;
use crate::text::{
    all_digits, decimal_value, lemma_split_append, lemma_split_plain, parse_unsigned, parse_usize,
    split, split_on, to_chars, without_plus,
};

verus! {

/// A version of the browser: major, minor, branch and patch.
#[derive(Debug, PartialEq, Eq, PartialOrd, Ord, Structural)]
pub struct ChromiumVersion(pub usize, pub usize, pub usize, pub usize);

/// The number that segment `k` of `parts` writes, if it writes one that fits
/// a machine word.
pub open spec fn number_at(parts: Seq<Seq<char>>, k: int) -> Option<nat> {
    parse_unsigned(parts[k], usize::MAX as nat)
}

/// The version that `text` writes, if it writes one: four unsigned numbers
/// with a dot between neighbours, each of which fits a machine word.
pub open spec fn version_of(text: Seq<char>) -> Option<ChromiumVersion> {
    let parts = split_on(text, '.');
    if parts.len() == 4 && number_at(parts, 0) is Some && number_at(parts, 1) is Some && number_at(
        parts,
        2,
    ) is Some && number_at(parts, 3) is Some {
        Some(
            ChromiumVersion(
                number_at(parts, 0)->0 as usize,
                number_at(parts, 1)->0 as usize,
                number_at(parts, 2)->0 as usize,
                number_at(parts, 3)->0 as usize,
            ),
        )
    } else {
        None
    }
}

/// The character that writes the digit `d`.
pub open spec fn digit_char(d: nat) -> char {
    if d == 0 {
        '0'
    } else if d == 1 {
        '1'
    } else if d == 2 {
        '2'
    } else if d == 3 {
        '3'
    } else if d == 4 {
        '4'
    } else if d == 5 {
        '5'
    } else if d == 6 {
        '6'
    } else if d == 7 {
        '7'
    } else if d == 8 {
        '8'
    } else {
        '9'
    }
}

/// The digits that write `n` in base ten, without leading zeros.
pub open spec fn decimal_digits(n: nat) -> Seq<char>
    decreases n,
{
    if n < 10 {
        seq![digit_char(n)]
    } else {
        decimal_digits(n / 10).push(digit_char(n % 10))
    }
}

/// The text of a version: its four numbers with a dot between neighbours.
pub open spec fn version_text(version: ChromiumVersion) -> Seq<char> {
    decimal_digits(version.0 as nat) + seq!['.'] + decimal_digits(version.1 as nat) + seq!['.']
        + decimal_digits(version.2 as nat) + seq!['.'] + decimal_digits(version.3 as nat)
}

/// The text of the digit `d`.
fn digit_text(d: usize) -> (text: &'static str)
    requires
        d < 10,
    ensures
        text@ == seq![digit_char(d as nat)],
{
    proof {
        reveal_strlit("0");
        reveal_strlit("1");
        reveal_strlit("2");
        reveal_strlit("3");
        reveal_strlit("4");
        reveal_strlit("5");
        reveal_strlit("6");
        reveal_strlit("7");
        reveal_strlit("8");
        reveal_strlit("9");
    }
    let text = if d == 0 {
        "0"
    } else if d == 1 {
        "1"
    } else if d == 2 {
        "2"
    } else if d == 3 {
        "3"
    } else if d == 4 {
        "4"
    } else if d == 5 {
        "5"
    } else if d == 6 {
        "6"
    } else if d == 7 {
        "7"
    } else if d == 8 {
        "8"
    } else {
        "9"
    };
    assert(text@ =~= seq![digit_char(d as nat)]);
    text
}

/// The text of `n` in base ten, without leading zeros.
pub fn render_decimal(n: usize) -> (text: String)
    ensures
        text@ == decimal_digits(n as nat),
    decreases n,
{
    if n < 10 {
        String::from_str(digit_text(n))
    } else {
        let mut text = render_decimal(n / 10);
        text.append(digit_text(n % 10));
        text
    }
}

impl ChromiumVersion {
    /// The version that `s` writes. A text that does not split into four
    /// segments at its dots, or of which a segment writes no number, is
    /// refused.
    pub fn from_str(s: &str) -> (version: Result<ChromiumVersion, &'static str>)
        ensures
            version is Ok <==> version_of(s@) is Some,
            version is Ok ==> version->Ok_0 == version_of(s@)->0,
            version is Err ==> version->Err_0@ == "无效的版本长度。"@,
    {
        let chars = to_chars(s);
        let parts = split(&chars, '.');
        if parts.len() != 4 {
            return Err("无效的版本长度。");
        }
        match (
            parse_usize(&parts[0]),
            parse_usize(&parts[1]),
            parse_usize(&parts[2]),
            parse_usize(&parts[3]),
        ) {
            (Some(major), Some(minor), Some(branch), Some(patch)) => Ok(
                ChromiumVersion(major, minor, branch, patch),
            ),
            _ => Err("无效的版本长度。"),
        }
    }

    /// The text of the version: its four numbers with a dot between
    /// neighbours.
    pub fn to_string(&self) -> (text: String)
        ensures
            text@ == version_text(*self),
    {
        proof {
            reveal_strlit(".");
            assert("."@ =~= seq!['.']);
        }
        let mut text = render_decimal(self.0);
        text.append(".");
        text.append(render_decimal(self.1).as_str());
        text.append(".");
        text.append(render_decimal(self.2).as_str());
        text.append(".");
        text.append(render_decimal(self.3).as_str());
        text
    }
}

/// The digits of a number are digits, at least one of them, and write that
/// number.
pub proof fn lemma_digits_write_the_number(n: nat)
    ensures
        decimal_digits(n).len() > 0,
        all_digits(decimal_digits(n)),
        decimal_value(decimal_digits(n)) == n,
    decreases n,
{
    let digits = decimal_digits(n);
    if n < 10 {
        assert(digits.drop_last().len() == 0);
        assert(decimal_value(digits.drop_last()) == 0);
    } else {
        lemma_digits_write_the_number(n / 10);
        assert(digits.drop_last() == decimal_digits(n / 10));
    }
}

/// What is rendered is read back: the digits of a number within the bound
/// parse as that number.
pub proof fn lemma_digits_parse(n: nat, max: nat)
    requires
        n <= max,
    ensures
        parse_unsigned(decimal_digits(n), max) == Some(n),
{
    lemma_digits_write_the_number(n);
    assert(without_plus(decimal_digits(n)) == decimal_digits(n));
}

/// The text of a version is read back as that version.
pub proof fn lemma_version_round_trip(version: ChromiumVersion)
    ensures
        version_of(version_text(version)) == Some(version),
{
    let d0 = decimal_digits(version.0 as nat);
    let d1 = decimal_digits(version.1 as nat);
    let d2 = decimal_digits(version.2 as nat);
    let d3 = decimal_digits(version.3 as nat);
    lemma_digits_write_the_number(version.0 as nat);
    lemma_digits_write_the_number(version.1 as nat);
    lemma_digits_write_the_number(version.2 as nat);
    lemma_digits_write_the_number(version.3 as nat);
    lemma_digits_parse(version.0 as nat, usize::MAX as nat);
    lemma_digits_parse(version.1 as nat, usize::MAX as nat);
    lemma_digits_parse(version.2 as nat, usize::MAX as nat);
    lemma_digits_parse(version.3 as nat, usize::MAX as nat);
    lemma_split_plain(d0, '.');
    lemma_split_append(d0, d1, '.');
    lemma_split_append(d0 + seq!['.'] + d1, d2, '.');
    lemma_split_append(d0 + seq!['.'] + d1 + seq!['.'] + d2, d3, '.');
    let parts = split_on(version_text(version), '.');
    assert(parts == seq![d0, d1, d2, d3]);
    assert(parts[0] == d0 && parts[1] == d1 && parts[2] == d2 && parts[3] == d3);
}

} // verus!
