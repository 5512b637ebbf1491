//! Characters and decimal numbers: the small vocabulary that directory names
//! and environment variables are described in.

use vstd::prelude::*;

verus! {

/// An ASCII decimal digit.
pub open spec fn is_digit(c: char) -> bool {
    '0' <= c <= '9'
}

/// An ASCII hexadecimal digit of either case.
pub open spec fn is_hex_digit(c: char) -> bool {
    is_digit(c) || 'a' <= c <= 'f' || 'A' <= c <= 'F'
}

/// An ASCII hexadecimal digit as a lower-case formatter writes it.
pub open spec fn is_lower_hex_digit(c: char) -> bool {
    is_digit(c) || 'a' <= c <= 'f'
}

pub open spec fn all_digits(s: Seq<char>) -> bool {
    forall|i: int| 0 <= i < s.len() ==> is_digit(#[trigger] s[i])
}

pub open spec fn all_hex_digits(s: Seq<char>) -> bool {
    forall|i: int| 0 <= i < s.len() ==> is_hex_digit(#[trigger] s[i])
}

pub open spec fn all_lower_hex_digits(s: Seq<char>) -> bool {
    forall|i: int| 0 <= i < s.len() ==> is_lower_hex_digit(#[trigger] s[i])
}

/// The digit `d` as a character.
pub open spec fn digit_char(d: nat) -> char {
    ('0' as nat + d) as char
}

/// The number that a run of decimal digits denotes.
pub open spec fn digits_value(s: Seq<char>) -> nat
    decreases s.len(),
{
    if s.len() == 0 {
        0
    } else {
        digits_value(s.drop_last()) * 10 + (s.last() as nat - '0' as nat) as nat
    }
}

/// `n` in decimal, without leading zeros.
pub open spec fn decimal(n: nat) -> Seq<char>
    decreases n,
{
    if n < 10 {
        seq![digit_char(n)]
    } else {
        decimal(n / 10).push(digit_char(n % 10))
    }
}

/// The `u32` that `s` is the decimal form of: one or more digits, the first of
/// them no zero unless it is the only one, whose value fits.
pub open spec fn u32_of_text(s: Seq<char>) -> Option<u32> {
    if s.len() > 0 && all_digits(s) && (s[0] == '0' ==> s.len() == 1) && digits_value(s)
        <= u32::MAX {
        Some(digits_value(s) as u32)
    } else {
        None
    }
}

/// The lower-case form of an ASCII letter; any other character is unchanged.
pub open spec fn ascii_lower(c: char) -> char {
    if 'A' <= c <= 'Z' {
        (c as nat + 32) as char
    } else {
        c
    }
}

/// Equality up to the case of ASCII letters.
pub open spec fn same_ignoring_ascii_case(a: Seq<char>, b: Seq<char>) -> bool {
    &&& a.len() == b.len()
    &&& forall|i: int| 0 <= i < a.len() ==> ascii_lower(#[trigger] a[i]) == ascii_lower(b[i])
}

/// The lexicographic order of texts by code point: `a` is a proper prefix of
/// `b`, or has the smaller character where the two first differ.
pub open spec fn precedes(a: Seq<char>, b: Seq<char>) -> bool {
    exists|k: int|
        0 <= k <= a.len() && k < b.len() && #[trigger] a.take(k) == b.take(k) && (k == a.len()
            || a[k] < b[k])
}

/// A longer run of digits denotes a number at least as large as its prefix.
proof fn lemma_prefix_value(s: Seq<char>, n: int)
    requires
        0 <= n <= s.len(),
        all_digits(s),
    ensures
        digits_value(s.take(n)) <= digits_value(s),
    decreases s.len(),
{
    if n < s.len() {
        let front = s.drop_last();
        assert(front.take(n) =~= s.take(n));
        lemma_prefix_value(front, n);
        assert(s.last() as nat - '0' as nat >= 0);
    } else {
        assert(s.take(n) =~= s);
    }
}

/// Writing a number in decimal and reading it back gives the number.
pub(crate) proof fn lemma_decimal_value(n: nat)
    ensures
        decimal(n).len() > 0,
        all_digits(decimal(n)),
        digits_value(decimal(n)) == n,
        n > 0 ==> decimal(n)[0] != '0',
        n == 0 ==> decimal(n).len() == 1,
    decreases n,
{
    if n < 10 {
        let s = decimal(n);
        assert(s.drop_last() =~= Seq::<char>::empty());
        assert(digits_value(s.drop_last()) == 0);
    } else {
        lemma_decimal_value(n / 10);
        assert(decimal(n).drop_last() =~= decimal(n / 10));
    }
}

/// Digits without a leading zero are the decimal form of their value.
pub(crate) proof fn lemma_digits_are_decimal(s: Seq<char>)
    requires
        s.len() > 0,
        all_digits(s),
        s[0] == '0' ==> s.len() == 1,
    ensures
        decimal(digits_value(s)) == s,
        s[0] != '0' ==> digits_value(s) > 0,
    decreases s.len(),
{
    let front = s.drop_last();
    let low = (s.last() as nat - '0' as nat) as nat;
    assert(is_digit(s.last()));
    assert(digit_char(low) == s.last());
    if s.len() == 1 {
        assert(front =~= Seq::<char>::empty());
        assert(digits_value(front) == 0);
        assert(s =~= seq![digit_char(low)]);
    } else {
        lemma_digits_are_decimal(front);
        let high = digits_value(front);
        assert(digits_value(s) == high * 10 + low);
        assert(decimal(digits_value(s)) == decimal(high).push(digit_char(low)));
        assert(s =~= front.push(s.last()));
    }
}

pub(crate) proof fn lemma_precedes_irreflexive(a: Seq<char>)
    ensures
        !precedes(a, a),
{
}

pub(crate) proof fn lemma_precedes_transitive(a: Seq<char>, b: Seq<char>, c: Seq<char>)
    requires
        precedes(a, b),
        precedes(b, c),
    ensures
        precedes(a, c),
{
    let j = choose|k: int|
        0 <= k <= a.len() && k < b.len() && #[trigger] a.take(k) == b.take(k) && (k == a.len()
            || a[k] < b[k]);
    let l = choose|k: int|
        0 <= k <= b.len() && k < c.len() && #[trigger] b.take(k) == c.take(k) && (k == b.len()
            || b[k] < c[k]);
    let m = if j < l {
        j
    } else {
        l
    };
    assert forall|i: int| 0 <= i < m implies a[i] == c[i] by {
        assert(a.take(j)[i] == b.take(j)[i]);
        assert(b.take(l)[i] == c.take(l)[i]);
    }
    assert(a.take(m) =~= c.take(m));
    if j < l {
        assert(b.take(l)[j] == c.take(l)[j]);
    } else if l < j {
        assert(a.take(j)[l] == b.take(j)[l]);
    }
}

/// Of two different texts one comes first.
pub(crate) proof fn lemma_precedes_total(a: Seq<char>, b: Seq<char>)
    requires
        a != b,
    ensures
        precedes(a, b) || precedes(b, a),
{
    let k = common_prefix(a, b, 0);
    lemma_common_prefix(a, b, 0);
    assert(a.take(k) =~= b.take(k));
    if k == a.len() && k == b.len() {
        assert(a =~= b);
    }
}

/// Where `a` and `b` first differ, or one of them ends, from position `from` on.
spec fn common_prefix(a: Seq<char>, b: Seq<char>, from: int) -> int
    decreases a.len() - from,
{
    if 0 <= from < a.len() && from < b.len() && a[from] == b[from] {
        common_prefix(a, b, from + 1)
    } else {
        from
    }
}

proof fn lemma_common_prefix(a: Seq<char>, b: Seq<char>, from: int)
    requires
        0 <= from <= a.len(),
        from <= b.len(),
        forall|i: int| 0 <= i < from ==> a[i] == b[i],
    ensures
        ({
            let k = common_prefix(a, b, from);
            &&& from <= k <= a.len()
            &&& k <= b.len()
            &&& forall|i: int| 0 <= i < k ==> a[i] == b[i]
            &&& k == a.len() || k == b.len() || a[k] != b[k]
        }),
    decreases a.len() - from,
{
    if from < a.len() && from < b.len() && a[from] == b[from] {
        lemma_common_prefix(a, b, from + 1);
    }
}

/// The characters of `s`, in order.
pub(crate) fn chars_of(s: &str) -> (chars: Vec<char>)
    ensures
        chars@ == s@,
{
    let mut chars: Vec<char> = Vec::new();
    for c in it: s.chars()
        invariant
            it.seq() == s@,
            chars@ == s@.take(it.index()),
    {
        chars.push(c);
    }
    chars
}

/// Whether two strings hold the same characters.
pub(crate) fn same_text(a: &str, b: &str) -> (same: bool)
    ensures
        same == (a@ == b@),
{
    let left = chars_of(a);
    let right = chars_of(b);
    if left.len() != right.len() {
        return false;
    }
    for i in 0..left.len()
        invariant
            left@ == a@,
            right@ == b@,
            left.len() == right.len(),
            forall|j: int| 0 <= j < i ==> left@[j] == right@[j],
    {
        if left[i] != right[i] {
            return false;
        }
    }
    assert(a@ =~= b@);
    true
}

fn lower_ascii(c: char) -> (lower: char)
    ensures
        lower == ascii_lower(c),
{
    if 'A' <= c && c <= 'Z' {
        let code: u8 = c as u8;
        (code + 32) as char
    } else {
        c
    }
}

/// Whether two strings are equal up to the case of ASCII letters.
pub(crate) fn eq_ignore_ascii_case(a: &str, b: &str) -> (same: bool)
    ensures
        same == same_ignoring_ascii_case(a@, b@),
{
    let left = chars_of(a);
    let right = chars_of(b);
    if left.len() != right.len() {
        return false;
    }
    for i in 0..left.len()
        invariant
            left@ == a@,
            right@ == b@,
            left.len() == right.len(),
            forall|j: int| 0 <= j < i ==> ascii_lower(#[trigger] left@[j]) == ascii_lower(right@[j]),
    {
        if lower_ascii(left[i]) != lower_ascii(right[i]) {
            assert(ascii_lower(a@[i as int]) != ascii_lower(b@[i as int]));
            return false;
        }
    }
    true
}

fn digit_text(d: u32) -> (text: &'static str)
    requires
        d < 10,
    ensures
        text@ == seq![digit_char(d as nat)],
{
    proof {
        reveal_strlit("0");
        reveal_strlit("1");
        reveal_strlit("2");
        reveal_strlit("3");
        reveal_strlit("4");
        reveal_strlit("5");
        reveal_strlit("6");
        reveal_strlit("7");
        reveal_strlit("8");
        reveal_strlit("9");
    }
    match d {
        0 => "0",
        1 => "1",
        2 => "2",
        3 => "3",
        4 => "4",
        5 => "5",
        6 => "6",
        7 => "7",
        8 => "8",
        _ => "9",
    }
}

/// `n` in decimal.
pub(crate) fn decimal_text(n: u32) -> (text: String)
    ensures
        text@ == decimal(n as nat),
    decreases n,
{
    if n < 10 {
        digit_text(n).to_owned()
    } else {
        decimal_text(n / 10).concat(digit_text(n % 10))
    }
}

/// Reads a `u32` in decimal form from the characters before position `end`.
pub(crate) fn parse_u32(chars: &Vec<char>, end: usize) -> (value: Option<u32>)
    requires
        end <= chars@.len(),
    ensures
        value == u32_of_text(chars@.take(end as int)),
{
    let ghost digits = chars@.take(end as int);
    if end == 0 || (chars[0] == '0' && end > 1) {
        return None;
    }
    let mut total: u32 = 0;
    let mut i: usize = 0;
    while i < end
        invariant
            0 <= i <= end <= chars@.len(),
            digits == chars@.take(end as int),
            digits.len() > 0,
            digits[0] == '0' ==> digits.len() == 1,
            all_digits(digits.take(i as int)),
            total == digits_value(digits.take(i as int)),
        decreases end - i,
    {
        let c = chars[i];
        assert(digits[i as int] == c);
        if c < '0' || c > '9' {
            return None;
        }
        let d: u32 = c as u32 - '0' as u32;
        let ghost seen = digits.take(i + 1);
        assert(seen.drop_last() =~= digits.take(i as int));
        assert(digits_value(seen) == total * 10 + d);
        if total > (u32::MAX - d) / 10 {
            proof {
                if all_digits(digits) {
                    lemma_prefix_value(digits, i + 1);
                }
            }
            return None;
        }
        total = total * 10 + d;
        i = i + 1;
    }
    assert(digits.take(i as int) =~= digits);
    Some(total)
}

/// Whether `a` comes before `b` in the order of their code points.
pub(crate) fn comes_before(a: &str, b: &str) -> (before: bool)
    ensures
        before == precedes(a@, b@),
{
    let left = chars_of(a);
    let right = chars_of(b);
    let mut i: usize = 0;
    while i < left.len() && i < right.len() && left[i] == right[i]
        invariant
            left@ == a@,
            right@ == b@,
            i <= left.len(),
            i <= right.len(),
            forall|j: int| 0 <= j < i ==> a@[j] == b@[j],
        decreases left.len() - i,
    {
        i = i + 1;
    }
    assert(a@.take(i as int) =~= b@.take(i as int));
    let before = i < right.len() && (i == left.len() || left[i] < right[i]);
    proof {
        if !before && precedes(a@, b@) {
            let k = choose|k: int|
                0 <= k <= a@.len() && k < b@.len() && #[trigger] a@.take(k) == b@.take(k) && (k
                    == a@.len() || a@[k] < b@[k]);
            if i < k {
                assert(a@.take(k)[i as int] == b@.take(k)[i as int]);
            }
        }
    }
    before
}

/// Texts are equal up to case exactly when they are as long as each other and
/// hold, place by place, the same character or the two cases of one ASCII letter,
/// which are 32 apart.
pub proof fn law_only_the_case_of_ascii_letters_is_ignored(a: Seq<char>, b: Seq<char>)
    ensures
        same_ignoring_ascii_case(a, b) <==> a.len() == b.len() && forall|i: int|
            0 <= i < a.len() ==> (#[trigger] a[i] == b[i] || ('a' <= a[i] <= 'z' && a[i] as int
                == b[i] as int + 32) || ('A' <= a[i] <= 'Z' && a[i] as int + 32 == b[i] as int)),
{
    if a.len() == b.len() {
        assert forall|i: int| 0 <= i < a.len() implies ((ascii_lower(#[trigger] a[i])
            == ascii_lower(b[i])) <==> (a[i] == b[i] || ('a' <= a[i] <= 'z' && a[i] as int
            == b[i] as int + 32) || ('A' <= a[i] <= 'Z' && a[i] as int + 32 == b[i] as int))) by {}
    }
}

/// Texts are ordered by their first characters, and by what follows where these
/// are the same; the empty text comes first.
pub proof fn law_texts_are_ordered_from_the_front(a: Seq<char>, b: Seq<char>)
    ensures
        b.len() == 0 ==> !precedes(a, b),
        a.len() == 0 && b.len() > 0 ==> precedes(a, b),
        a.len() > 0 && b.len() > 0 && a[0] != b[0] ==> (precedes(a, b) <==> a[0] < b[0]),
        a.len() > 0 && b.len() > 0 && a[0] == b[0] ==> (precedes(a, b) <==> precedes(
            a.skip(1),
            b.skip(1),
        )),
{
    if a.len() == 0 && b.len() > 0 {
        assert(a.take(0) =~= b.take(0));
    }
    if a.len() > 0 && b.len() > 0 {
        let (s, t) = (a.skip(1), b.skip(1));
        if a[0] != b[0] {
            assert(a.take(0) =~= b.take(0));
            if precedes(a, b) {
                let k = choose|k: int|
                    0 <= k <= a.len() && k < b.len() && #[trigger] a.take(k) == b.take(k) && (k
                        == a.len() || a[k] < b[k]);
                if k > 0 {
                    assert(a.take(k)[0] == b.take(k)[0]);
                }
            }
        } else {
            if precedes(a, b) {
                let k = choose|k: int|
                    0 <= k <= a.len() && k < b.len() && #[trigger] a.take(k) == b.take(k) && (k
                        == a.len() || a[k] < b[k]);
                assert(s.take(k - 1) =~= a.take(k).skip(1));
                assert(t.take(k - 1) =~= b.take(k).skip(1));
            }
            if precedes(s, t) {
                let k = choose|k: int|
                    0 <= k <= s.len() && k < t.len() && #[trigger] s.take(k) == t.take(k) && (k
                        == s.len() || s[k] < t[k]);
                assert(a.take(k + 1) =~= seq![a[0]] + s.take(k));
                assert(b.take(k + 1) =~= seq![b[0]] + t.take(k));
            }
        }
    }
}

} // verus!
