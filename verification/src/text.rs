//! Character-level text primitives shared by the tokenizer, the assembler and
//! the renderer: substring search, the order of texts, leading-space
//! counting, and decimal numbers in both directions.

use vstd::prelude::*;
use vstd::string::*;

verus! {

/// `needle` occurs in `hay` starting at index `at`.
pub open spec fn occurs_at(hay: Seq<char>, needle: Seq<char>, at: int) -> bool {
    &&& 0 <= at
    &&& at + needle.len() <= hay.len()
    &&& hay.subrange(at, at + needle.len()) == needle
}

/// `needle` occurs somewhere in `hay`. The empty needle occurs in every text.
pub open spec fn contains(hay: Seq<char>, needle: Seq<char>) -> bool {
    exists|at: int| occurs_at(hay, needle, at)
}

/// `at` is the leftmost index at which `needle` occurs in `hay`.
pub open spec fn is_first_occurrence(hay: Seq<char>, needle: Seq<char>, at: int) -> bool {
    &&& occurs_at(hay, needle, at)
    &&& forall|earlier: int| 0 <= earlier < at ==> !occurs_at(hay, needle, earlier)
}

/// The leftmost index at which `needle` occurs in `hay`; meaningful only when
/// `contains(hay, needle)`.
pub open spec fn first_occurrence(hay: Seq<char>, needle: Seq<char>) -> int {
    choose|at: int| is_first_occurrence(hay, needle, at)
}

/// A text that contains a needle has exactly one leftmost occurrence, and
/// `first_occurrence` names it.
pub proof fn lemma_first_occurrence(hay: Seq<char>, needle: Seq<char>, at: int)
    requires
        is_first_occurrence(hay, needle, at),
    ensures
        contains(hay, needle),
        first_occurrence(hay, needle) == at,
{
    let chosen = first_occurrence(hay, needle);
    assert(is_first_occurrence(hay, needle, chosen));
    if chosen < at {
        assert(!occurs_at(hay, needle, chosen));
    }
    if at < chosen {
        assert(!occurs_at(hay, needle, at));
    }
}

/// At or before any occurrence of a needle lies its leftmost occurrence.
proof fn lemma_leftmost_at_or_before(hay: Seq<char>, needle: Seq<char>, at: int)
    requires
        occurs_at(hay, needle, at),
    ensures
        exists|first: int| first <= at && is_first_occurrence(hay, needle, first),
    decreases at,
{
    if exists|earlier: int| 0 <= earlier < at && occurs_at(hay, needle, earlier) {
        let earlier = choose|earlier: int| 0 <= earlier < at && occurs_at(hay, needle, earlier);
        lemma_leftmost_at_or_before(hay, needle, earlier);
    } else {
        assert(is_first_occurrence(hay, needle, at));
    }
}

/// A text that contains a needle has a leftmost occurrence of it, and
/// `first_occurrence` names it.
pub proof fn lemma_contains_has_first(hay: Seq<char>, needle: Seq<char>)
    requires
        contains(hay, needle),
    ensures
        is_first_occurrence(hay, needle, first_occurrence(hay, needle)),
{
    let at = choose|at: int| occurs_at(hay, needle, at);
    lemma_leftmost_at_or_before(hay, needle, at);
}

/// The characters of a string, in order.
pub fn chars_of(s: &str) -> (chars: Vec<char>)
    ensures
        chars@ == s@,
{
    let mut chars: Vec<char> = Vec::new();
    for c in it: s.chars()
        invariant
            chars@ == it.seq().take(it.index() as int),
            it.seq() == s@,
    {
        chars.push(c);
    }
    chars
}

/// Whether `needle` occurs in `hay` at index `at`.
pub fn matches_at(hay: &Vec<char>, needle: &Vec<char>, at: usize) -> (hit: bool)
    requires
        at + needle.len() <= hay.len(),
    ensures
        hit == occurs_at(hay@, needle@, at as int),
{
    let mut k: usize = 0;
    while k < needle.len()
        invariant
            k <= needle.len(),
            at + needle.len() <= hay.len(),
            forall|j: int| 0 <= j < k ==> hay@[at + j] == needle@[j],
        decreases needle.len() - k,
    {
        if hay[at + k] != needle[k] {
            proof {
                let window = hay@.subrange(at as int, at + needle.len());
                assert(window[k as int] == hay@[at + k]);
            }
            return false;
        }
        k = k + 1;
    }
    proof {
        assert(hay@.subrange(at as int, at + needle.len()) =~= needle@);
    }
    true
}

/// The leftmost index at which `needle` occurs in `hay`, if it occurs at all.
pub fn find(hay: &Vec<char>, needle: &Vec<char>) -> (found: Option<usize>)
    ensures
        match found {
            Some(at) => is_first_occurrence(hay@, needle@, at as int),
            None => !contains(hay@, needle@),
        },
{
    if needle.len() > hay.len() {
        return None;
    }
    if needle.len() == 0 {
        proof {
            assert(hay@.subrange(0, 0) =~= needle@);
        }
        return Some(0);
    }
    let limit: usize = hay.len() - needle.len() + 1;
    let mut at: usize = 0;
    while at < limit
        invariant
            at <= limit,
            limit == hay.len() - needle.len() + 1,
            forall|earlier: int| 0 <= earlier < at ==> !occurs_at(hay@, needle@, earlier),
        decreases limit - at,
    {
        if matches_at(hay, needle, at) {
            return Some(at);
        }
        at = at + 1;
    }
    None
}

/// Whether `needle` occurs somewhere in the characters `hay`.
pub fn contains_chars(hay: &Vec<char>, needle: &str) -> (hit: bool)
    ensures
        hit == contains(hay@, needle@),
{
    let needle_chars = chars_of(needle);
    let found = find(hay, &needle_chars);
    proof {
        if let Some(at) = found {
            assert(occurs_at(hay@, needle@, at as int));
        }
    }
    found.is_some()
}

/// Whether `needle` occurs somewhere in `hay`.
pub fn contains_text(hay: &str, needle: &str) -> (hit: bool)
    ensures
        hit == contains(hay@, needle@),
{
    contains_chars(&chars_of(hay), needle)
}

/// Whether two strings hold the same characters.
pub fn same_text(a: &str, b: &str) -> (same: bool)
    ensures
        same == (a@ == b@),
{
    let left = chars_of(a);
    let right = chars_of(b);
    if left.len() != right.len() {
        return false;
    }
    let same = matches_at(&left, &right, 0);
    proof {
        assert(left@.subrange(0, left@.len() as int) =~= left@);
    }
    same
}

/// `a` has the smaller code of the two characters.
pub open spec fn char_before(a: char, b: char) -> bool {
    (a as u32) < (b as u32)
}

/// Of two different characters, one has the smaller code.
pub proof fn lemma_char_before_connected(a: char, b: char)
    requires
        a != b,
    ensures
        char_before(a, b) || char_before(b, a),
{
}

/// `a` stands before `b` in the order of texts: at the first place where
/// they differ, `a` has the character with the smaller code, or `a` ends
/// there and `b` goes on.
pub open spec fn text_before(a: Seq<char>, b: Seq<char>) -> bool
    decreases a.len(),
{
    if b.len() == 0 {
        false
    } else if a.len() == 0 {
        true
    } else if a[0] != b[0] {
        char_before(a[0], b[0])
    } else {
        text_before(a.drop_first(), b.drop_first())
    }
}

/// No text stands before itself.
pub proof fn lemma_text_before_irreflexive(a: Seq<char>)
    ensures
        !text_before(a, a),
    decreases a.len(),
{
    if a.len() > 0 {
        lemma_text_before_irreflexive(a.drop_first());
    }
}

/// The order of texts is transitive.
pub proof fn lemma_text_before_transitive(a: Seq<char>, b: Seq<char>, c: Seq<char>)
    requires
        text_before(a, b),
        text_before(b, c),
    ensures
        text_before(a, c),
    decreases a.len(),
{
    if a.len() > 0 && a[0] == b[0] && b[0] == c[0] {
        lemma_text_before_transitive(a.drop_first(), b.drop_first(), c.drop_first());
    }
}

/// Of two different texts, one stands before the other.
pub proof fn lemma_text_before_connected(a: Seq<char>, b: Seq<char>)
    requires
        a != b,
    ensures
        text_before(a, b) || text_before(b, a),
    decreases a.len(),
{
    if a.len() == 0 || b.len() == 0 {
        if a.len() == 0 && b.len() == 0 {
            assert(a =~= b);
        }
    } else if a[0] == b[0] {
        if a.drop_first() == b.drop_first() {
            assert(a =~= seq![a[0]] + a.drop_first());
            assert(b =~= seq![b[0]] + b.drop_first());
        } else {
            lemma_text_before_connected(a.drop_first(), b.drop_first());
        }
    } else {
        lemma_char_before_connected(a[0], b[0]);
    }
}

/// Whether `a` stands before `b` in the order of texts.
pub fn comes_before(a: &str, b: &str) -> (before: bool)
    ensures
        before == text_before(a@, b@),
{
    let left = chars_of(a);
    let right = chars_of(b);
    let mut k: usize = 0;
    proof {
        assert(left@.skip(0) =~= left@);
        assert(right@.skip(0) =~= right@);
    }
    while k < left.len() && k < right.len()
        invariant
            k <= left.len(),
            k <= right.len(),
            left@ == a@,
            right@ == b@,
            text_before(a@, b@) == text_before(left@.skip(k as int), right@.skip(k as int)),
        decreases left.len() - k,
    {
        let ghost rest_left = left@.skip(k as int);
        let ghost rest_right = right@.skip(k as int);
        proof {
            assert(rest_left[0] == left@[k as int]);
            assert(rest_right[0] == right@[k as int]);
            assert(rest_left.drop_first() =~= left@.skip(k + 1));
            assert(rest_right.drop_first() =~= right@.skip(k + 1));
        }
        let here: char = left[k];
        let there: char = right[k];
        if here != there {
            return (here as u32) < (there as u32);
        }
        k = k + 1;
    }
    proof {
        assert(left@.skip(k as int).len() == left@.len() - k);
        assert(right@.skip(k as int).len() == right@.len() - k);
    }
    k < right.len()
}

/// The number of space characters before the first other character.
pub open spec fn leading_spaces(s: Seq<char>) -> nat
    decreases s.len(),
{
    if s.len() > 0 && s[0] == ' ' {
        1 + leading_spaces(s.drop_first())
    } else {
        0
    }
}

/// The leading spaces of a text are a prefix of it, all of them are spaces,
/// and the character after them, if there is one, is not a space.
pub proof fn lemma_leading_spaces(s: Seq<char>)
    ensures
        leading_spaces(s) <= s.len(),
        forall|i: int| 0 <= i < leading_spaces(s) ==> s[i] == ' ',
        leading_spaces(s) < s.len() ==> s[leading_spaces(s) as int] != ' ',
    decreases s.len(),
{
    if s.len() > 0 && s[0] == ' ' {
        let rest = s.drop_first();
        lemma_leading_spaces(rest);
        assert forall|i: int| 0 <= i < leading_spaces(s) implies s[i] == ' ' by {
            if i > 0 {
                assert(s[i] == rest[i - 1]);
            }
        }
        if leading_spaces(s) < s.len() {
            assert(s[leading_spaces(s) as int] == rest[leading_spaces(rest) as int]);
        }
    }
}

/// A prefix of spaces that ends at the end of the text or before another
/// character is the whole run of leading spaces.
pub proof fn lemma_leading_spaces_unique(s: Seq<char>, n: int)
    requires
        0 <= n <= s.len(),
        forall|i: int| 0 <= i < n ==> s[i] == ' ',
        n < s.len() ==> s[n] != ' ',
    ensures
        leading_spaces(s) == n,
{
    lemma_leading_spaces(s);
    let m = leading_spaces(s) as int;
    if m < n {
        assert(s[m] == ' ');
    }
    if n < m {
        assert(s[n] == ' ');
    }
}

/// The number of space characters at the start of `chars`.
pub fn count_leading_spaces(chars: &Vec<char>) -> (n: usize)
    ensures
        n == leading_spaces(chars@),
{
    let mut n: usize = 0;
    while n < chars.len() && chars[n] == ' '
        invariant
            n <= chars.len(),
            forall|i: int| 0 <= i < n ==> chars@[i] == ' ',
        decreases chars.len() - n,
    {
        n = n + 1;
    }
    proof {
        lemma_leading_spaces_unique(chars@, n as int);
    }
    n
}

/// A run of `n` spaces.
pub open spec fn spaces(n: nat) -> Seq<char> {
    Seq::new(n, |i: int| ' ')
}

/// A string of `n` spaces.
pub fn spaces_string(n: u32) -> (run: String)
    ensures
        run@ == spaces(n as nat),
{
    let mut run = String::new();
    let mut k: u32 = 0;
    while k < n
        invariant
            k <= n,
            run@ == spaces(k as nat),
        decreases n - k,
    {
        proof {
            reveal_strlit(" ");
        }
        run.append(" ");
        k = k + 1;
        proof {
            assert(run@ =~= spaces(k as nat));
        }
    }
    run
}

/// The character that writes the digit `d`.
pub open spec fn digit_char(d: nat) -> char
    recommends
        d < 10,
{
    if d == 0 {
        '0'
    } else if d == 1 {
        '1'
    } else if d == 2 {
        '2'
    } else if d == 3 {
        '3'
    } else if d == 4 {
        '4'
    } else if d == 5 {
        '5'
    } else if d == 6 {
        '6'
    } else if d == 7 {
        '7'
    } else if d == 8 {
        '8'
    } else {
        '9'
    }
}

/// The decimal numeral of `n`, without sign or leading zeros.
pub open spec fn decimal(n: nat) -> Seq<char>
    decreases n,
{
    if n < 10 {
        seq![digit_char(n)]
    } else {
        decimal(n / 10).push(digit_char(n % 10))
    }
}

/// The one-character text of a digit.
fn digit_text(d: usize) -> (text: &'static str)
    requires
        d < 10,
    ensures
        text@ == seq![digit_char(d as nat)],
{
    proof {
        reveal_strlit("0");
        reveal_strlit("1");
        reveal_strlit("2");
        reveal_strlit("3");
        reveal_strlit("4");
        reveal_strlit("5");
        reveal_strlit("6");
        reveal_strlit("7");
        reveal_strlit("8");
        reveal_strlit("9");
    }
    let text = if d == 0 {
        "0"
    } else if d == 1 {
        "1"
    } else if d == 2 {
        "2"
    } else if d == 3 {
        "3"
    } else if d == 4 {
        "4"
    } else if d == 5 {
        "5"
    } else if d == 6 {
        "6"
    } else if d == 7 {
        "7"
    } else if d == 8 {
        "8"
    } else {
        "9"
    };
    proof {
        assert(text@ =~= seq![digit_char(d as nat)]);
    }
    text
}

/// Appends the decimal numeral of `n` to `out`.
pub fn push_decimal(out: &mut String, n: usize)
    ensures
        final(out)@ == old(out)@ + decimal(n as nat),
    decreases n,
{
    if n < 10 {
        out.append(digit_text(n));
    } else {
        push_decimal(out, n / 10);
        out.append(digit_text(n % 10));
        proof {
            assert(final(out)@ =~= old(out)@ + decimal(n as nat));
        }
    }
}

/// The decimal numeral of `n` as a string.
pub fn decimal_string(n: usize) -> (numeral: String)
    ensures
        numeral@ == decimal(n as nat),
{
    let mut numeral = String::new();
    push_decimal(&mut numeral, n);
    proof {
        assert(numeral@ =~= decimal(n as nat));
    }
    numeral
}

/// The value of a decimal digit character; `None` for any other character.
pub open spec fn digit_value(c: char) -> Option<nat> {
    if c == '0' {
        Some(0)
    } else if c == '1' {
        Some(1)
    } else if c == '2' {
        Some(2)
    } else if c == '3' {
        Some(3)
    } else if c == '4' {
        Some(4)
    } else if c == '5' {
        Some(5)
    } else if c == '6' {
        Some(6)
    } else if c == '7' {
        Some(7)
    } else if c == '8' {
        Some(8)
    } else if c == '9' {
        Some(9)
    } else {
        None
    }
}

/// The number that a text of one or more decimal digits writes; `None` for
/// the empty text and for a text that holds anything but digits.
pub open spec fn decimal_value(s: Seq<char>) -> Option<nat>
    decreases s.len(),
{
    if s.len() == 0 {
        None
    } else if s.len() == 1 {
        digit_value(s[0])
    } else {
        match (decimal_value(s.drop_last()), digit_value(s.last())) {
            (Some(high), Some(low)) => Some(10 * high + low),
            _ => None,
        }
    }
}

/// The 32-bit number that a text of decimal digits writes; `None` where the
/// text is no numeral or its value does not fit.
pub open spec fn parse_u32(s: Seq<char>) -> Option<u32> {
    match decimal_value(s) {
        Some(value) => if value <= u32::MAX {
            Some(value as u32)
        } else {
            None
        },
        None => None,
    }
}

/// A numeral is worth at least as much as each of its non-empty prefixes, and
/// a text with a prefix that is no numeral is no numeral.
pub proof fn lemma_decimal_value_prefix(s: Seq<char>, k: int)
    requires
        0 < k <= s.len(),
    ensures
        decimal_value(s.take(k)) is None ==> decimal_value(s) is None,
        decimal_value(s) matches Some(whole) ==> decimal_value(s.take(k)).unwrap() <= whole,
    decreases s.len(),
{
    if k == s.len() {
        assert(s.take(k) =~= s);
    } else {
        assert(s.drop_last().take(k) =~= s.take(k));
        lemma_decimal_value_prefix(s.drop_last(), k);
    }
}

/// The value of a decimal digit character.
fn digit_of(c: char) -> (d: Option<u64>)
    ensures
        match d {
            Some(v) => digit_value(c) == Some(v as nat) && v < 10,
            None => digit_value(c) is None,
        },
{
    if c == '0' {
        Some(0)
    } else if c == '1' {
        Some(1)
    } else if c == '2' {
        Some(2)
    } else if c == '3' {
        Some(3)
    } else if c == '4' {
        Some(4)
    } else if c == '5' {
        Some(5)
    } else if c == '6' {
        Some(6)
    } else if c == '7' {
        Some(7)
    } else if c == '8' {
        Some(8)
    } else if c == '9' {
        Some(9)
    } else {
        None
    }
}

/// Reads a text of decimal digits as a 32-bit number.
pub fn parse_number(text: &str) -> (number: Option<u32>)
    ensures
        number == parse_u32(text@),
{
    let chars = chars_of(text);
    if chars.len() == 0 {
        return None;
    }
    let mut value: u64 = 0;
    let mut k: usize = 0;
    while k < chars.len()
        invariant
            k <= chars.len(),
            chars@ == text@,
            value <= u32::MAX,
            k > 0 ==> decimal_value(chars@.take(k as int)) == Some(value as nat),
            k == 0 ==> value == 0,
        decreases chars.len() - k,
    {
        let ghost before = chars@.take(k as int);
        let ghost after = chars@.take(k + 1);
        proof {
            assert(after.drop_last() =~= before);
            assert(after.last() == chars@[k as int]);
        }
        match digit_of(chars[k]) {
            None => {
                proof {
                    lemma_decimal_value_prefix(chars@, k + 1);
                }
                return None;
            },
            Some(d) => {
                let next: u64 = value * 10 + d;
                if next > 0xffff_ffff {
                    proof {
                        lemma_decimal_value_prefix(chars@, k + 1);
                    }
                    return None;
                }
                value = next;
            },
        }
        k = k + 1;
    }
    proof {
        assert(chars@.take(k as int) =~= chars@);
    }
    Some(value as u32)
}

} // verus!
