//! Character-level helpers shared by the parsers and the statement builder.

use vstd::prelude::*;
use vstd::string::StringExecFns;

verus! {

/// Position of the first occurrence of `c` in `s`, or `s.len()` when `c` does
/// not occur.
pub open spec fn first_index(s: Seq<char>, c: char) -> int
    decreases s.len(),
{
    if s.len() == 0 {
        0
    } else if s[0] == c {
        0
    } else {
        1 + first_index(s.drop_first(), c)
    }
}

/// `first_index` stays within the sequence, nothing before it is `c`, and the
/// element at it, if any, is `c`.
pub proof fn lemma_first_index_bounds(s: Seq<char>, c: char)
    ensures
        0 <= first_index(s, c) <= s.len(),
        forall|j: int| 0 <= j < first_index(s, c) ==> s[j] != c,
        first_index(s, c) < s.len() ==> s[first_index(s, c)] == c,
        first_index(s, c) == s.len() <==> !s.contains(c),
    decreases s.len(),
{
    if s.len() == 0 {
    } else if s[0] == c {
    } else {
        let t = s.drop_first();
        lemma_first_index_bounds(t, c);
        assert forall|j: int| 0 <= j < first_index(s, c) implies s[j] != c by {
            if j > 0 {
                assert(s[j] == t[j - 1]);
            }
        }
        if first_index(s, c) < s.len() {
            assert(s[first_index(s, c)] == t[first_index(t, c)]);
        }
        if t.contains(c) {
            let i = choose|i: int| 0 <= i < t.len() && t[i] == c;
            assert(s[i + 1] == c);
        }
        if s.contains(c) {
            let i = choose|i: int| 0 <= i < s.len() && s[i] == c;
            assert(t[i - 1] == c);
        }
    }
}

/// The position `k` is the first occurrence of `c` as soon as nothing before
/// it is `c` and it is either the end or holds `c`.
pub proof fn lemma_first_index_is(s: Seq<char>, c: char, k: int)
    requires
        0 <= k <= s.len(),
        forall|j: int| 0 <= j < k ==> s[j] != c,
        k < s.len() ==> s[k] == c,
    ensures
        first_index(s, c) == k,
{
    lemma_first_index_bounds(s, c);
    let f = first_index(s, c);
    if f < k {
        assert(s[f] == c);
    } else if k < f {
        assert(s[k] != c);
    }
}

/// Appends one character to a string.
///
/// Wraps `String::push`, which the standard library documents as appending
/// the given character to the end of the string.
#[verifier::external_body]
pub(crate) fn push_char(s: &mut String, c: char)
    ensures
        final(s)@ == old(s)@.push(c),
{
    s.push(c);
}

/// The characters of a string slice, in order.
pub fn chars_of(s: &str) -> (v: Vec<char>)
    ensures
        v@ == s@,
{
    let mut v: Vec<char> = Vec::new();
    for c in it: s.chars()
        invariant
            v@ == it.seq().take(it.index()),
    {
        v.push(c);
    }
    v
}

/// Whether two string slices hold the same characters.
pub fn same_text(a: &str, b: &str) -> (same: bool)
    ensures
        same == (a@ == b@),
{
    let left = chars_of(a);
    let right = chars_of(b);
    if left.len() != right.len() {
        return false;
    }
    let mut i: usize = 0;
    while i < left.len()
        invariant
            i <= left.len() == right.len(),
            left@ == a@,
            right@ == b@,
            forall|k: int| 0 <= k < i ==> left@[k] == right@[k],
        decreases left.len() - i,
    {
        if left[i] != right[i] {
            return false;
        }
        i += 1;
    }
    proof {
        assert(left@ =~= right@);
    }
    true
}

/// The string made of `chars[from..to]`.
pub(crate) fn string_of(chars: &Vec<char>, from: usize, to: usize) -> (s: String)
    requires
        from <= to <= chars.len(),
    ensures
        s@ == chars@.subrange(from as int, to as int),
{
    let mut s = String::new();
    let mut i: usize = from;
    while i < to
        invariant
            from <= i <= to <= chars.len(),
            s@ == chars@.subrange(from as int, i as int),
        decreases to - i,
    {
        push_char(&mut s, chars[i]);
        i += 1;
    }
    s
}

/// Index in `start..end` of the first `c` in `chars`; `end` when there is
/// none in that range.
pub(crate) fn find_first(chars: &Vec<char>, start: usize, end: usize, c: char) -> (k: usize)
    requires
        start <= end <= chars.len(),
    ensures
        start <= k <= end,
        k - start == first_index(chars@.subrange(start as int, end as int), c),
{
    let mut k: usize = start;
    while k < end && chars[k] != c
        invariant
            start <= k <= end <= chars.len(),
            forall|j: int| start <= j < k ==> chars@[j] != c,
        decreases end - k,
    {
        k += 1;
    }
    proof {
        lemma_first_index_is(chars@.subrange(start as int, end as int), c, k - start);
    }
    k
}

/// The views of a list of strings.
pub open spec fn texts_of(strings: Seq<String>) -> Seq<Seq<char>> {
    Seq::new(strings.len(), |i: int| strings[i]@)
}

/// The items written one after the other with a comma between neighbours.
pub open spec fn joined_text(items: Seq<Seq<char>>) -> Seq<char>
    decreases items.len(),
{
    if items.len() == 0 {
        Seq::empty()
    } else if items.len() == 1 {
        items[0]
    } else {
        joined_text(items.drop_last()) + ","@ + items.last()
    }
}

/// Writes the items one after the other with a comma between neighbours.
pub fn joined(items: &Vec<String>) -> (text: String)
    ensures
        text@ == joined_text(texts_of(items@)),
{
    let ghost all = texts_of(items@);
    let mut text = String::new();
    let mut i: usize = 0;
    while i < items.len()
        invariant
            i <= items.len(),
            all == texts_of(items@),
            text@ == joined_text(all.take(i as int)),
        decreases items.len() - i,
    {
        proof {
            let next = all.take(i + 1);
            assert(next.drop_last() == all.take(i as int));
            assert(next.last() == items@[i as int]@);
            if i == 0 {
                assert(text@ + items@[i as int]@ == items@[i as int]@);
            }
        }
        if i > 0 {
            text.append(",");
        }
        text.append(items[i].as_str());
        i += 1;
    }
    proof {
        assert(all.take(i as int) == all);
    }
    text
}

/// The character that stands for a digit.
pub open spec fn digit_char(digit: int) -> char {
    (digit + 48) as char
}

/// A natural number in decimal, without leading zeros.
pub open spec fn natural_text(n: nat) -> Seq<char>
    decreases n,
{
    if n < 10 {
        seq![digit_char(n as int)]
    } else {
        natural_text(n / 10).push(digit_char((n % 10) as int))
    }
}

/// An integer in decimal: a minus sign where it is negative, then its
/// magnitude without leading zeros.
pub open spec fn decimal_text(n: int) -> Seq<char> {
    if n < 0 {
        seq!['-'] + natural_text((-n) as nat)
    } else {
        natural_text(n as nat)
    }
}

/// Writes an integer in decimal.
pub fn decimal(n: i32) -> (text: String)
    ensures
        text@ == decimal_text(n as int),
{
    let wide: i64 = n as i64;
    let magnitude: u64 = if wide < 0 {
        (-wide) as u64
    } else {
        wide as u64
    };
    // The digits, least significant first.
    let mut digits: Vec<char> = Vec::new();
    let mut rest: u64 = magnitude;
    while rest >= 10
        invariant
            natural_text(magnitude as nat) == natural_text(rest as nat) + digits@.reverse(),
        decreases rest,
    {
        let digit: u8 = (rest % 10) as u8;
        let ghost before = digits@;
        digits.push((digit + 48) as char);
        proof {
            assert(digits@.reverse() == seq![digit_char(digit as int)] + before.reverse());
            assert(natural_text(rest as nat) == natural_text((rest / 10) as nat).push(
                digit_char(digit as int),
            ));
        }
        rest = rest / 10;
    }
    let ghost before = digits@;
    let last: u8 = rest as u8;
    digits.push((last + 48) as char);
    proof {
        assert(digits@.reverse() == seq![digit_char(last as int)] + before.reverse());
    }
    let mut text = String::new();
    if wide < 0 {
        push_char(&mut text, '-');
    }
    let ghost sign = text@;
    let mut i: usize = digits.len();
    while i > 0
        invariant
            i <= digits.len(),
            text@ == sign + digits@.reverse().take(digits.len() - i),
        decreases i,
    {
        i -= 1;
        push_char(&mut text, digits[i]);
        proof {
            let reversed = digits@.reverse();
            assert(reversed.take(digits.len() - i) == reversed.take(digits.len() - i - 1).push(
                digits@[i as int],
            ));
        }
    }
    proof {
        assert(digits@.reverse().take(digits.len() as int) == digits@.reverse());
    }
    text
}

} // verus!
