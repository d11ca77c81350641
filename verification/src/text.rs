//! Strings seen as sequences of characters: splitting and decimal numbers.

use vstd::prelude::*;
use vstd::string::*;

verus! {

/// The characters of `s`, in order.
pub fn to_chars(s: &str) -> (v: Vec<char>)
    ensures
        v@ == s@,
{
    let n = s.unicode_len();
    let mut v: Vec<char> = Vec::new();
    let mut i: usize = 0;
    while i < n
        invariant
            i <= n,
            n == s@.len(),
            v@ == s@.take(i as int),
        decreases n - i,
    {
        v.push(s.get_char(i));
        i += 1;
    }
    v
}

/// The views of a sequence of strings.
pub open spec fn names(entries: Seq<String>) -> Seq<Seq<char>> {
    entries.map_values(|entry: String| entry@)
}

/// The views of a sequence of character vectors.
pub open spec fn views(parts: Seq<Vec<char>>) -> Seq<Seq<char>> {
    parts.map_values(|p: Vec<char>| p@)
}

/// The segments of `s` between occurrences of `sep`. A string without `sep`
/// is one segment; a separator at either end gives an empty segment there.
pub open spec fn split_on(s: Seq<char>, sep: char) -> Seq<Seq<char>>
    decreases s.len(),
{
    if s.len() == 0 {
        seq![Seq::<char>::empty()]
    } else {
        let head = split_on(s.drop_last(), sep);
        if s.last() == sep {
            head.push(Seq::<char>::empty())
        } else {
            head.update(head.len() - 1, head.last().push(s.last()))
        }
    }
}

/// A split always yields at least one segment.
pub proof fn lemma_split_nonempty(s: Seq<char>, sep: char)
    ensures
        split_on(s, sep).len() >= 1,
    decreases s.len(),
{
    if s.len() > 0 {
        lemma_split_nonempty(s.drop_last(), sep);
    }
}

/// Splits `s` at every occurrence of `sep`: part `k` holds segment `k`.
pub fn split(s: &Vec<char>, sep: char) -> (parts: Vec<Vec<char>>)
    ensures
        views(parts@) == split_on(s@, sep),
        parts@.len() == split_on(s@, sep).len(),
        forall|k: int| 0 <= k < parts@.len() ==> (#[trigger] parts@[k])@ == split_on(s@, sep)[k],
{
    let mut parts: Vec<Vec<char>> = Vec::new();
    let mut cur: Vec<char> = Vec::new();
    let mut i: usize = 0;
    while i < s.len()
        invariant
            i <= s.len(),
            views(parts@).push(cur@) == split_on(s@.take(i as int), sep),
        decreases s.len() - i,
    {
        let c = s[i];
        proof {
            let next = s@.take(i + 1);
            assert(next.drop_last() == s@.take(i as int));
            assert(next.last() == c);
            lemma_split_nonempty(s@.take(i as int), sep);
        }
        if c == sep {
            let ghost before = parts@;
            parts.push(cur);
            cur = Vec::new();
            assert(views(parts@) == views(before).push(parts@.last()@));
        } else {
            cur.push(c);
        }
        i += 1;
    }
    proof {
        assert(s@.take(s.len() as int) == s@);
    }
    let ghost before = parts@;
    parts.push(cur);
    proof {
        assert(views(parts@) == views(before).push(parts@.last()@));
        assert forall|k: int| 0 <= k < parts@.len() implies (#[trigger] parts@[k])@ == split_on(
            s@,
            sep,
        )[k] by {
            assert(views(parts@)[k] == parts@[k]@);
        }
    }
    parts
}

/// Whether `c` is one of the ten ASCII digits.
pub open spec fn is_digit(c: char) -> bool {
    '0' <= c <= '9'
}

/// The number that the ASCII digit `c` stands for.
pub open spec fn digit_value(c: char) -> nat {
    if is_digit(c) {
        (c as u32 - '0' as u32) as nat
    } else {
        0
    }
}

/// Whether every character of `s` is an ASCII digit.
pub open spec fn all_digits(s: Seq<char>) -> bool {
    forall|i: int| 0 <= i < s.len() ==> is_digit(#[trigger] s[i])
}

/// The number written by the digits `s` in base ten, most significant first.
pub open spec fn decimal_value(s: Seq<char>) -> nat
    decreases s.len(),
{
    if s.len() == 0 {
        0
    } else {
        decimal_value(s.drop_last()) * 10 + digit_value(s.last())
    }
}

/// `s` without one leading plus sign, if it has one.
pub open spec fn without_plus(s: Seq<char>) -> Seq<char> {
    if s.len() > 0 && s[0] == '+' {
        s.subrange(1, s.len() as int)
    } else {
        s
    }
}

/// The unsigned number that `s` writes, if it writes one that is at most
/// `max`: an optional plus sign and then one or more ASCII digits. Anything
/// else, the empty string and a lone sign included, writes no number.
pub open spec fn parse_unsigned(s: Seq<char>, max: nat) -> Option<nat> {
    let digits = without_plus(s);
    if digits.len() > 0 && all_digits(digits) && decimal_value(digits) <= max {
        Some(decimal_value(digits))
    } else {
        None
    }
}

/// A number does not get smaller when digits are written after it.
pub proof fn lemma_decimal_prefix(s: Seq<char>, n: int)
    requires
        0 <= n <= s.len(),
    ensures
        decimal_value(s.take(n)) <= decimal_value(s),
    decreases s.len() - n,
{
    if n == s.len() {
        assert(s.take(n) == s);
    } else {
        lemma_decimal_prefix(s, n + 1);
        assert(s.take(n + 1).drop_last() == s.take(n));
    }
}

/// Reads `s` as an unsigned decimal number that is at most `max`.
pub fn parse_decimal(s: &Vec<char>, max: u64) -> (r: Option<u64>)
    ensures
        r is Some <==> parse_unsigned(s@, max as nat) is Some,
        r is Some ==> r->0 as nat == parse_unsigned(s@, max as nat)->0,
{
    let start: usize = if s.len() > 0 && s[0] == '+' {
        1
    } else {
        0
    };
    let ghost digits = without_plus(s@);
    if start == s.len() {
        return None;
    }
    let mut acc: u64 = 0;
    let mut i: usize = start;
    while i < s.len()
        invariant
            start <= i <= s.len(),
            digits == without_plus(s@),
            digits == s@.subrange(start as int, s.len() as int),
            all_digits(digits.take(i - start)),
            acc as nat == decimal_value(digits.take(i - start)),
            acc <= max,
        decreases s.len() - i,
    {
        let c = s[i];
        proof {
            assert(digits[i - start] == c);
            assert(digits.take(i - start + 1).drop_last() == digits.take(i - start));
            assert(digits.take(i - start + 1).last() == c);
        }
        if c < '0' || c > '9' {
            assert(!is_digit(digits[i - start]));
            return None;
        }
        let d: u64 = (c as u32 - '0' as u32) as u64;
        let next: u128 = acc as u128 * 10 + d as u128;
        if next > max as u128 {
            proof {
                assert(decimal_value(digits.take(i - start + 1)) == next);
                lemma_decimal_prefix(digits, i - start + 1);
            }
            return None;
        }
        acc = next as u64;
        i += 1;
    }
    proof {
        assert(digits.take(i - start) == digits);
    }
    Some(acc)
}

/// Reads `s` as an unsigned decimal number that fits a machine word.
pub fn parse_usize(s: &Vec<char>) -> (r: Option<usize>)
    ensures
        r is Some <==> parse_unsigned(s@, usize::MAX as nat) is Some,
        r is Some ==> r->0 as nat == parse_unsigned(s@, usize::MAX as nat)->0,
{
    match parse_decimal(s, usize::MAX as u64) {
        Some(n) => Some(n as usize),
        None => None,
    }
}

/// Whether two character vectors hold the same characters.
pub fn same_chars(a: &Vec<char>, b: &Vec<char>) -> (same: bool)
    ensures
        same == (a@ == b@),
{
    if a.len() != b.len() {
        return false;
    }
    let mut i: usize = 0;
    while i < a.len()
        invariant
            i <= a.len(),
            a.len() == b.len(),
            a@.take(i as int) == b@.take(i as int),
        decreases a.len() - i,
    {
        if a[i] != b[i] {
            return false;
        }
        proof {
            assert(a@.take(i + 1) == a@.take(i as int).push(a[i as int]));
            assert(b@.take(i + 1) == b@.take(i as int).push(b[i as int]));
        }
        i += 1;
    }
    proof {
        assert(a@.take(a.len() as int) == a@);
        assert(b@.take(b.len() as int) == b@);
    }
    true
}

/// Whether `s` begins with the characters of `prefix`.
pub fn starts_with(s: &Vec<char>, prefix: &Vec<char>) -> (begins: bool)
    ensures
        begins == prefix@.is_prefix_of(s@),
{
    if prefix.len() > s.len() {
        return false;
    }
    let mut i: usize = 0;
    while i < prefix.len()
        invariant
            i <= prefix.len() <= s.len(),
            prefix@.take(i as int) == s@.take(i as int),
        decreases prefix.len() - i,
    {
        if s[i] != prefix[i] {
            assert(s@.subrange(0, prefix.len() as int)[i as int] != prefix@[i as int]);
            return false;
        }
        proof {
            assert(prefix@.take(i + 1) == prefix@.take(i as int).push(prefix[i as int]));
            assert(s@.take(i + 1) == s@.take(i as int).push(s[i as int]));
        }
        i += 1;
    }
    proof {
        assert(prefix@.take(prefix.len() as int) == prefix@);
        assert(s@.take(prefix.len() as int) == s@.subrange(0, prefix.len() as int));
    }
    true
}

/// Whether two strings hold the same characters.
pub fn same_text(a: &str, b: &str) -> (same: bool)
    ensures
        same == (a@ == b@),
{
    let left = to_chars(a);
    let right = to_chars(b);
    same_chars(&left, &right)
}

/// Whether `s` ends with the characters of `suffix`.
pub fn ends_with(s: &Vec<char>, suffix: &Vec<char>) -> (ends: bool)
    ensures
        ends == suffix@.is_suffix_of(s@),
{
    if suffix.len() > s.len() {
        return false;
    }
    let shift: usize = s.len() - suffix.len();
    let ghost tail = s@.subrange(shift as int, s.len() as int);
    let mut i: usize = 0;
    while i < suffix.len()
        invariant
            i <= suffix.len(),
            shift + suffix.len() == s.len(),
            tail == s@.subrange(shift as int, s.len() as int),
            suffix@.take(i as int) == tail.take(i as int),
        decreases suffix.len() - i,
    {
        if s[shift + i] != suffix[i] {
            assert(tail[i as int] != suffix@[i as int]);
            return false;
        }
        proof {
            assert(suffix@.take(i + 1) == suffix@.take(i as int).push(suffix[i as int]));
            assert(tail.take(i + 1) == tail.take(i as int).push(tail[i as int]));
        }
        i += 1;
    }
    proof {
        assert(suffix@.take(suffix.len() as int) == suffix@);
        assert(tail.take(suffix.len() as int) == tail);
    }
    true
}

/// `s` without the run of `c` at its end.
pub open spec fn trimmed(s: Seq<char>, c: char) -> Seq<char>
    decreases s.len(),
{
    if s.len() > 0 && s.last() == c {
        trimmed(s.drop_last(), c)
    } else {
        s
    }
}

/// `s` without the run of `c` at its end.
pub fn trim_end(s: &str, c: char) -> (kept: String)
    ensures
        kept@ == trimmed(s@, c),
{
    let chars = to_chars(s);
    let mut end: usize = chars.len();
    proof {
        assert(s@.take(end as int) == s@);
    }
    while end > 0 && chars[end - 1] == c
        invariant
            end <= chars.len(),
            chars@ == s@,
            trimmed(s@, c) == trimmed(s@.take(end as int), c),
        decreases end,
    {
        proof {
            assert(s@.take(end as int).drop_last() == s@.take(end - 1));
        }
        end -= 1;
    }
    s.substring_char(0, end).to_owned()
}

/// The segments `parts` put together again, with `sep` between neighbours.
pub open spec fn join(parts: Seq<Seq<char>>, sep: char) -> Seq<char>
    decreases parts.len(),
{
    if parts.len() == 0 {
        Seq::<char>::empty()
    } else if parts.len() == 1 {
        parts[0]
    } else {
        join(parts.drop_last(), sep) + seq![sep] + parts.last()
    }
}

/// Splitting loses nothing: the segments of a string, joined with the
/// separator, are the string.
pub proof fn lemma_join_split(s: Seq<char>, sep: char)
    ensures
        join(split_on(s, sep), sep) == s,
    decreases s.len(),
{
    if s.len() == 0 {
        assert(join(split_on(s, sep), sep) == s);
    } else {
        let before = split_on(s.drop_last(), sep);
        lemma_split_nonempty(s.drop_last(), sep);
        lemma_join_split(s.drop_last(), sep);
        assert(s == s.drop_last().push(s.last()));
        if s.last() == sep {
            assert(before.push(Seq::<char>::empty()).drop_last() == before);
            assert(join(before, sep) + seq![sep] + Seq::<char>::empty() == s);
        } else {
            let grown = before.update(before.len() - 1, before.last().push(s.last()));
            if before.len() == 1 {
                assert(join(grown, sep) == s);
            } else {
                assert(grown.drop_last() == before.drop_last());
                assert(join(before.drop_last(), sep) + seq![sep] + before.last().push(s.last())
                    == (join(before.drop_last(), sep) + seq![sep] + before.last()).push(s.last()));
            }
        }
    }
}

/// No segment of a split holds the separator.
pub proof fn lemma_segments_hold_no_separator(s: Seq<char>, sep: char, k: int, i: int)
    requires
        0 <= k < split_on(s, sep).len(),
        0 <= i < split_on(s, sep)[k].len(),
    ensures
        split_on(s, sep)[k][i] != sep,
    decreases s.len(),
{
    if s.len() > 0 {
        let before = split_on(s.drop_last(), sep);
        lemma_split_nonempty(s.drop_last(), sep);
        if s.last() == sep {
            lemma_segments_hold_no_separator(s.drop_last(), sep, k, i);
        } else if k < before.len() - 1 || i < before.last().len() {
            lemma_segments_hold_no_separator(s.drop_last(), sep, k, i);
        }
    }
}

/// A split yields one segment more than the string holds separators.
pub proof fn lemma_split_counts_separators(s: Seq<char>, sep: char)
    ensures
        split_on(s, sep).len() == 1 + s.filter(|c: char| c == sep).len(),
    decreases s.len(),
{
    reveal(Seq::filter);
    if s.len() > 0 {
        lemma_split_counts_separators(s.drop_last(), sep);
    }
}

/// A string that does not hold the separator is its own single segment.
pub proof fn lemma_split_plain(t: Seq<char>, sep: char)
    requires
        forall|i: int| 0 <= i < t.len() ==> t[i] != sep,
    ensures
        split_on(t, sep) == seq![t],
    decreases t.len(),
{
    if t.len() == 0 {
        assert(t == Seq::<char>::empty());
    } else {
        lemma_split_plain(t.drop_last(), sep);
        assert(t.drop_last().push(t.last()) == t);
        assert(seq![t.drop_last()].update(0, t) == seq![t]);
    }
}

/// Writing a separator and then a string that holds none adds that string
/// as one more segment.
pub proof fn lemma_split_append(s: Seq<char>, t: Seq<char>, sep: char)
    requires
        forall|i: int| 0 <= i < t.len() ==> t[i] != sep,
    ensures
        split_on(s + seq![sep] + t, sep) == split_on(s, sep).push(t),
    decreases t.len(),
{
    let whole = s + seq![sep] + t;
    if t.len() == 0 {
        assert(t == Seq::<char>::empty());
        assert(whole.drop_last() == s);
        assert(whole.last() == sep);
    } else {
        lemma_split_append(s, t.drop_last(), sep);
        assert(whole.drop_last() == s + seq![sep] + t.drop_last());
        assert(whole.last() == t.last());
        assert(t.drop_last().push(t.last()) == t);
        let head = split_on(s, sep).push(t.drop_last());
        assert(head.update(head.len() - 1, head.last().push(t.last())) == split_on(s, sep).push(
            t,
        ));
    }
}

} // verus!
