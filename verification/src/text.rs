//! The small pieces of text that escape sequences are made of: decimal
//! numbers and the delimiters between them.

use vstd::prelude::*;

verus! {

/// `String::push` appends one character to the end of the string.
pub assume_specification[ String::push ](s: &mut String, ch: char)
    ensures
        final(s)@ == old(s)@.push(ch),
;

/// Whether `c` is one of the ten ASCII digits.
pub open spec fn is_digit(c: char) -> bool {
    0x30 <= c as u32 <= 0x39
}

/// The ASCII digit that stands for `d`, for `d` below ten.
pub open spec fn digit_char(d: nat) -> char {
    ((0x30 + d) as u8) as char
}

/// Whether every character of `s` is an ASCII digit.
pub open spec fn all_digits(s: Seq<char>) -> bool {
    forall|i: int| 0 <= i < s.len() ==> is_digit(#[trigger] s[i])
}

/// The number that a run of ASCII digits denotes in base ten; leading zeros count for nothing.
pub open spec fn digits_value(s: Seq<char>) -> nat
    decreases s.len(),
{
    if s.len() == 0 {
        0
    } else {
        digits_value(s.drop_last()) * 10 + (s.last() as u32 - 0x30) as nat
    }
}

/// The digits of `s` after an optional leading `+`.
pub open spec fn unsigned_digits(s: Seq<char>) -> Seq<char> {
    if s.len() > 0 && s[0] == '+' {
        s.skip(1)
    } else {
        s
    }
}

/// The number that `s` denotes: an optional `+`, then one digit or more, with a
/// value of at most `max`. Any other text denotes no number.
pub open spec fn unsigned_decimal(s: Seq<char>, max: nat) -> Option<nat> {
    let digits = unsigned_digits(s);
    if digits.len() > 0 && all_digits(digits) && digits_value(digits) <= max {
        Some(digits_value(digits))
    } else {
        None
    }
}

/// The base-ten digits of `n`, without leading zeros.
pub open spec fn decimal_digits(n: nat) -> Seq<char>
    decreases n,
{
    if n < 10 {
        seq![digit_char(n)]
    } else {
        decimal_digits(n / 10).push(digit_char(n % 10))
    }
}

/// The first index from `from` on at which `s` holds `a` or `b`, or the length
/// of `s` where it holds neither from there on.
pub open spec fn index_of_either(s: Seq<char>, from: int, a: char, b: char) -> int
    decreases s.len() - from,
{
    if from >= s.len() {
        s.len() as int
    } else if s[from] == a || s[from] == b {
        from
    } else {
        index_of_either(s, from + 1, a, b)
    }
}

/// The index that `index_of_either` gives lies between `from` and the length,
/// holds one of the two characters where it is an index, and none of them
/// stands between `from` and it.
pub proof fn lemma_index_of_either_bounds(s: Seq<char>, from: int, a: char, b: char)
    requires
        0 <= from <= s.len(),
    ensures
        from <= index_of_either(s, from, a, b) <= s.len(),
        index_of_either(s, from, a, b) < s.len() ==> {
            let found = s[index_of_either(s, from, a, b)];
            found == a || found == b
        },
        forall|i: int| from <= i < index_of_either(s, from, a, b) ==> s[i] != a && s[i] != b,
    decreases s.len() - from,
{
    if from < s.len() && !(s[from] == a || s[from] == b) {
        lemma_index_of_either_bounds(s, from + 1, a, b);
    }
}

/// Where the search finds a delimiter, it finds the same one in any longer text.
pub proof fn lemma_index_of_either_extends(
    s: Seq<char>,
    more: Seq<char>,
    from: int,
    a: char,
    b: char,
)
    requires
        0 <= from <= s.len(),
        index_of_either(s, from, a, b) < s.len(),
    ensures
        index_of_either(s + more, from, a, b) == index_of_either(s, from, a, b),
    decreases s.len() - from,
{
    if from < s.len() {
        assert((s + more)[from] == s[from]);
        if !(s[from] == a || s[from] == b) {
            lemma_index_of_either_extends(s, more, from + 1, a, b);
        }
    }
}

/// A longer run of digits denotes no smaller a number than any of its prefixes.
pub proof fn lemma_digits_value_grows(s: Seq<char>, k: int)
    requires
        all_digits(s),
        0 <= k <= s.len(),
    ensures
        digits_value(s.take(k)) <= digits_value(s),
    decreases s.len(),
{
    if k == s.len() {
        assert(s.take(k) =~= s);
    } else {
        let shorter = s.drop_last();
        assert(all_digits(shorter)) by {
            assert forall|i: int| 0 <= i < shorter.len() implies is_digit(
                #[trigger] shorter[i],
            ) by {
                assert(shorter[i] == s[i]);
            }
        }
        lemma_digits_value_grows(shorter, k);
        assert(shorter.take(k) =~= s.take(k));
        assert(is_digit(s.last()));
    }
}

/// Printing a number and reading the digits back gives the number again.
pub proof fn lemma_decimal_digits_value(n: nat)
    ensures
        decimal_digits(n).len() > 0,
        all_digits(decimal_digits(n)),
        digits_value(decimal_digits(n)) == n,
    decreases n,
{
    if n < 10 {
        let s = decimal_digits(n);
        assert(s.drop_last() =~= Seq::<char>::empty());
        assert(digits_value(s.drop_last()) == 0);
        assert(s.last() == digit_char(n));
    } else {
        lemma_decimal_digits_value(n / 10);
        let head = decimal_digits(n / 10);
        let s = decimal_digits(n);
        assert(s.drop_last() =~= head);
        assert(s.last() == digit_char(n % 10));
        assert forall|i: int| 0 <= i < s.len() implies is_digit(#[trigger] s[i]) by {
            if i < head.len() {
                assert(s[i] == head[i]);
            }
        }
    }
}

/// Appends the base-ten digits of `n` to `out`.
pub(crate) fn push_decimal(out: &mut String, n: u128)
    ensures
        final(out)@ == old(out)@ + decimal_digits(n as nat),
    decreases n,
{
    if n < 10 {
        let digit: u8 = 0x30 + n as u8;
        out.push(digit as char);
        assert(final(out)@ =~= old(out)@ + decimal_digits(n as nat));
    } else {
        push_decimal(out, n / 10);
        let digit: u8 = 0x30 + (n % 10) as u8;
        out.push(digit as char);
        assert(out@ =~= old(out)@ + decimal_digits(n as nat));
    }
}

/// The characters of a string, in a vector.
pub(crate) fn chars_of(s: &str) -> (text: Vec<char>)
    ensures
        text@ == s@,
{
    let mut text: Vec<char> = Vec::new();
    for c in it: s.chars()
        invariant
            it.seq() == s@,
            text@ == it.seq().take(it.index() as int),
    {
        text.push(c);
        assert(text@ =~= it.seq().take(it.index() + 1));
    }
    assert(text@ =~= s@);
    text
}

/// Finds the first index in `from..text.len()` at which `text` holds `a` or
/// `b`, and returns the length of `text` where there is none.
pub(crate) fn find_either(text: &[char], from: usize, a: char, b: char) -> (index: usize)
    ensures
        index == index_of_either(text@, from as int, a, b),
        from <= text@.len() ==> from <= index <= text@.len(),
{
    let mut i: usize = from;
    while i < text.len()
        invariant
            from <= i,
            index_of_either(text@, from as int, a, b) == index_of_either(text@, i as int, a, b),
        decreases text@.len() - i,
    {
        if text[i] == a || text[i] == b {
            return i;
        }
        i += 1;
    }
    text.len()
}

/// Reads `text[start..end]` as an unsigned decimal number of at most `max`.
pub(crate) fn parse_unsigned(text: &[char], start: usize, end: usize, max: u32) -> (value: Option<u32>)
    requires
        start <= end <= text@.len(),
    ensures
        match unsigned_decimal(text@.subrange(start as int, end as int), max as nat) {
            Some(n) => value == Some(n as u32),
            None => value.is_none(),
        },
{
    let ghost field = text@.subrange(start as int, end as int);
    let first: usize = if start < end && text[start] == '+' {
        start + 1
    } else {
        start
    };
    let ghost digits = unsigned_digits(field);
    assert(digits =~= text@.subrange(first as int, end as int));
    if first == end {
        return None;
    }
    let mut acc: u64 = 0;
    let mut i: usize = first;
    while i < end
        invariant
            start <= first <= i <= end <= text@.len(),
            digits == text@.subrange(first as int, end as int),
            digits == unsigned_digits(text@.subrange(start as int, end as int)),
            all_digits(digits.take(i - first)),
            acc == digits_value(digits.take(i - first)),
            acc <= max,
        decreases end - i,
    {
        let code: u32 = text[i] as u32;
        if code < 0x30 || code > 0x39 {
            assert(!is_digit(digits[i - first]));
            return None;
        }
        let next: u64 = acc * 10 + (code - 0x30) as u64;
        proof {
            let longer = digits.take(i - first + 1);
            assert(longer.drop_last() =~= digits.take(i - first));
            assert(longer.last() == text@[i as int]);
            assert(next == digits_value(longer));
            assert forall|j: int| 0 <= j < longer.len() implies is_digit(#[trigger] longer[j]) by {
                if j < i - first {
                    assert(longer[j] == digits.take(i - first)[j]);
                }
            }
            if next > max && all_digits(digits) {
                lemma_digits_value_grows(digits, i - first + 1);
            }
        }
        if next > max as u64 {
            return None;
        }
        acc = next;
        i += 1;
    }
    assert(digits.take(end - first) =~= digits);
    Some(acc as u32)
}

} // verus!
