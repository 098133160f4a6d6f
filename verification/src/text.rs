//! Text primitives: searching, trimming, comparing and numbers in decimal.
//!
//! Text is modelled as a sequence of characters. Lookups run over a slice of
//! characters so that an index in the code is an index in the model.

use vstd::prelude::*;
use vstd::slice::slice_subrange;

verus! {

/// Whether `pat` stands in `s` at position `i`.
pub open spec fn occurs_at<T>(s: Seq<T>, pat: Seq<T>, i: int) -> bool {
    &&& 0 <= i
    &&& i + pat.len() <= s.len()
    &&& s.subrange(i, i + pat.len()) == pat
}

/// The first position at or after `from` where `pat` stands in `s`.
pub open spec fn find_from<T>(s: Seq<T>, pat: Seq<T>, from: int) -> Option<int>
    decreases s.len() + 1 - from,
{
    if from < 0 || from + pat.len() > s.len() {
        None
    } else if occurs_at(s, pat, from) {
        Some(from)
    } else {
        find_from(s, pat, from + 1)
    }
}

/// The first position where `pat` stands in `s`.
pub open spec fn find<T>(s: Seq<T>, pat: Seq<T>) -> Option<int> {
    find_from(s, pat, 0)
}

/// The first position at or after `from` that holds one of `stops`.
pub open spec fn find_any_from(s: Seq<char>, stops: Seq<char>, from: int) -> Option<int>
    decreases s.len() - from,
{
    if from < 0 || from >= s.len() {
        None
    } else if stops.contains(s[from]) {
        Some(from)
    } else {
        find_any_from(s, stops, from + 1)
    }
}

/// The first position that holds one of `stops`.
pub open spec fn find_any(s: Seq<char>, stops: Seq<char>) -> Option<int> {
    find_any_from(s, stops, 0)
}

/// The first position that holds `c`.
pub open spec fn find_char(s: Seq<char>, c: char) -> Option<int> {
    find_any(s, seq![c])
}

/// The part of `s` before position `i`.
pub open spec fn before<T>(s: Seq<T>, i: int) -> Seq<T> {
    s.subrange(0, i)
}

/// The part of `s` from position `i` on.
pub open spec fn after<T>(s: Seq<T>, i: int) -> Seq<T> {
    s.subrange(i, s.len() as int)
}

/// Whether `s` ends with `suffix`.
pub open spec fn ends_with<T>(s: Seq<T>, suffix: Seq<T>) -> bool {
    occurs_at(s, suffix, s.len() - suffix.len())
}

/// Whether `s` begins with `prefix`.
pub open spec fn starts_with<T>(s: Seq<T>, prefix: Seq<T>) -> bool {
    occurs_at(s, prefix, 0)
}

/// The pieces of `s` between the occurrences of `sep`.
pub open spec fn split<T>(s: Seq<T>, sep: Seq<T>) -> Seq<Seq<T>>
    decreases s.len(),
{
    match find(s, sep) {
        Some(i) => if sep.len() > 0 && 0 <= i && i + sep.len() <= s.len() {
            seq![before(s, i)] + split(after(s, i + sep.len()), sep)
        } else {
            seq![s]
        },
        None => seq![s],
    }
}

/// The characters with the Unicode property White_Space.
pub open spec fn is_whitespace(c: char) -> bool {
    let n = c as u32;
    ||| 0x09 <= n <= 0x0D
    ||| n == 0x20
    ||| n == 0x85
    ||| n == 0xA0
    ||| n == 0x1680
    ||| 0x2000 <= n <= 0x200A
    ||| n == 0x2028
    ||| n == 0x2029
    ||| n == 0x202F
    ||| n == 0x205F
    ||| n == 0x3000
}

/// `s` without its leading white space.
pub open spec fn trim_start(s: Seq<char>) -> Seq<char>
    decreases s.len(),
{
    if s.len() > 0 && is_whitespace(s[0]) {
        trim_start(s.drop_first())
    } else {
        s
    }
}

/// `s` without its trailing white space.
pub open spec fn trim_end(s: Seq<char>) -> Seq<char>
    decreases s.len(),
{
    if s.len() > 0 && is_whitespace(s.last()) {
        trim_end(s.drop_last())
    } else {
        s
    }
}

/// `s` without white space at either end.
pub open spec fn trim(s: Seq<char>) -> Seq<char> {
    trim_end(trim_start(s))
}

/// Whether `s` is empty or neither begins nor ends with white space.
pub open spec fn is_trimmed(s: Seq<char>) -> bool {
    s.len() > 0 ==> !is_whitespace(s[0]) && !is_whitespace(s.last())
}

/// `c` with an ASCII upper case letter made lower case.
pub open spec fn lower(c: char) -> char {
    if 'A' <= c && c <= 'Z' {
        (c as u32 + 32) as char
    } else {
        c
    }
}

/// `s` with its ASCII letters in lower case.
pub open spec fn lower_text(s: Seq<char>) -> Seq<char> {
    Seq::new(s.len(), |i: int| lower(s[i]))
}

/// The texts of a list of strings.
pub open spec fn texts(list: Seq<String>) -> Seq<Seq<char>> {
    Seq::new(list.len(), |i: int| list[i]@)
}

/// The text of a string that may be missing.
pub open spec fn text_option(s: Option<String>) -> Option<Seq<char>> {
    match s {
        Some(s) => Some(s@),
        None => None,
    }
}

/// Equality up to the case of ASCII letters.
pub open spec fn eq_ignore_case(a: Seq<char>, b: Seq<char>) -> bool {
    &&& a.len() == b.len()
    &&& forall|i: int| 0 <= i < a.len() ==> lower(#[trigger] a[i]) == lower(b[i])
}

pub open spec fn is_digit(c: char) -> bool {
    '0' <= c && c <= '9'
}

pub open spec fn all_digits(s: Seq<char>) -> bool {
    forall|i: int| 0 <= i < s.len() ==> is_digit(#[trigger] s[i])
}

/// The character for a value below ten.
pub open spec fn digit(n: nat) -> char {
    ('0' as u32 + n) as char
}

/// `n` written in decimal, without leading zeros.
pub open spec fn decimal(n: nat) -> Seq<char>
    decreases n,
{
    if n < 10 {
        seq![digit(n)]
    } else {
        decimal(n / 10).push(digit(n % 10))
    }
}

/// The value of a run of decimal digits.
pub open spec fn digits_value(s: Seq<char>) -> nat
    decreases s.len(),
{
    if s.len() == 0 {
        0
    } else {
        (digits_value(s.drop_last()) * 10 + (s.last() as u32 - '0' as u32)) as nat
    }
}

/// `s` without one leading plus sign.
pub open spec fn strip_plus(s: Seq<char>) -> Seq<char> {
    if s.len() > 0 && s[0] == '+' {
        s.drop_first()
    } else {
        s
    }
}

/// The number that `s` writes: an optional plus sign, then at least one digit and
/// nothing else, for a value of at most `max`.
pub open spec fn parse_decimal(s: Seq<char>, max: nat) -> Option<nat> {
    let digits = strip_plus(s);
    if digits.len() > 0 && all_digits(digits) && digits_value(digits) <= max {
        Some(digits_value(digits))
    } else {
        None
    }
}

// ── Facts ──

/// A search that starts inside `s` finds the first occurrence, and only that.
pub proof fn lemma_find_from<T>(s: Seq<T>, pat: Seq<T>, from: int)
    requires
        0 <= from,
    ensures
        match find_from(s, pat, from) {
            Some(i) => {
                &&& from <= i
                &&& occurs_at(s, pat, i)
                &&& forall|j: int| from <= j < i ==> !occurs_at(s, pat, j)
            },
            None => forall|j: int| from <= j ==> !occurs_at(s, pat, j),
        },
    decreases s.len() + 1 - from,
{
    if from + pat.len() > s.len() {
    } else if occurs_at(s, pat, from) {
    } else {
        lemma_find_from(s, pat, from + 1);
    }
}

/// An occurrence with none before it is what a search finds.
pub proof fn lemma_find_is<T>(s: Seq<T>, pat: Seq<T>, from: int, i: int)
    requires
        0 <= from <= i,
        occurs_at(s, pat, i),
        forall|j: int| from <= j < i ==> !occurs_at(s, pat, j),
    ensures
        find_from(s, pat, from) == Some(i),
    decreases i - from,
{
    if from < i {
        assert(!occurs_at(s, pat, from));
        lemma_find_is(s, pat, from + 1, i);
    }
}

/// Without an occurrence a search finds nothing.
pub proof fn lemma_find_none<T>(s: Seq<T>, pat: Seq<T>, from: int)
    requires
        0 <= from,
        forall|j: int| from <= j ==> !occurs_at(s, pat, j),
    ensures
        find_from(s, pat, from) is None,
    decreases s.len() + 1 - from,
{
    if from + pat.len() <= s.len() {
        assert(!occurs_at(s, pat, from));
        lemma_find_none(s, pat, from + 1);
    }
}

/// A search for single characters finds the first of them, and only that.
pub proof fn lemma_find_any_from(s: Seq<char>, stops: Seq<char>, from: int)
    requires
        0 <= from,
    ensures
        match find_any_from(s, stops, from) {
            Some(i) => {
                &&& from <= i < s.len()
                &&& stops.contains(s[i])
                &&& forall|j: int| from <= j < i ==> !stops.contains(#[trigger] s[j])
            },
            None => forall|j: int| from <= j < s.len() ==> !stops.contains(#[trigger] s[j]),
        },
    decreases s.len() - from,
{
    if from < s.len() && !stops.contains(s[from]) {
        lemma_find_any_from(s, stops, from + 1);
    }
}

/// A stop with none before it is what the search finds.
pub proof fn lemma_find_any_is(s: Seq<char>, stops: Seq<char>, from: int, i: int)
    requires
        0 <= from <= i < s.len(),
        stops.contains(s[i]),
        forall|j: int| from <= j < i ==> !stops.contains(#[trigger] s[j]),
    ensures
        find_any_from(s, stops, from) == Some(i),
    decreases i - from,
{
    if from < i {
        assert(!stops.contains(s[from]));
        lemma_find_any_is(s, stops, from + 1, i);
    }
}

/// Without a stop the search finds nothing.
pub proof fn lemma_find_any_none(s: Seq<char>, stops: Seq<char>, from: int)
    requires
        0 <= from,
        forall|j: int| from <= j < s.len() ==> !stops.contains(#[trigger] s[j]),
    ensures
        find_any_from(s, stops, from) is None,
    decreases s.len() - from,
{
    if from < s.len() {
        assert(!stops.contains(s[from]));
        lemma_find_any_none(s, stops, from + 1);
    }
}

pub proof fn lemma_single_contains(c: char)
    ensures
        forall|x: char| #[trigger] seq![c].contains(x) <==> x == c,
{
    assert(seq![c][0] == c);
}

/// A character search finds the first such character, and only that.
pub proof fn lemma_find_char(s: Seq<char>, c: char)
    ensures
        match find_char(s, c) {
            Some(i) => {
                &&& 0 <= i < s.len()
                &&& s[i] == c
                &&& forall|j: int| 0 <= j < i ==> #[trigger] s[j] != c
            },
            None => forall|j: int| 0 <= j < s.len() ==> #[trigger] s[j] != c,
        },
{
    lemma_find_any_from(s, seq![c], 0);
    lemma_single_contains(c);
}

/// The first position of `c` is where the character search lands.
pub proof fn lemma_find_char_is(s: Seq<char>, c: char, i: int)
    requires
        0 <= i < s.len(),
        s[i] == c,
        forall|j: int| 0 <= j < i ==> #[trigger] s[j] != c,
    ensures
        find_char(s, c) == Some(i),
{
    lemma_single_contains(c);
    lemma_find_any_is(s, seq![c], 0, i);
}

pub proof fn lemma_find_char_none(s: Seq<char>, c: char)
    requires
        forall|j: int| 0 <= j < s.len() ==> #[trigger] s[j] != c,
    ensures
        find_char(s, c) is None,
{
    lemma_single_contains(c);
    lemma_find_any_none(s, seq![c], 0);
}

/// The part of `s` that trimming keeps.
proof fn lemma_trim_bounds(s: Seq<char>, a: int, b: int)
    requires
        0 <= a <= b <= s.len(),
        forall|i: int| 0 <= i < a ==> is_whitespace(#[trigger] s[i]),
        forall|i: int| b <= i < s.len() ==> is_whitespace(#[trigger] s[i]),
        a < b ==> !is_whitespace(s[a]) && !is_whitespace(s[b - 1]),
        a == b ==> a == s.len(),
    ensures
        trim(s) == s.subrange(a, b),
{
    lemma_trim_start_bound(s, a);
    lemma_trim_end_bound(s.subrange(a, s.len() as int), b - a);
    assert(s.subrange(a, s.len() as int).subrange(0, b - a) =~= s.subrange(a, b));
}

proof fn lemma_trim_start_bound(s: Seq<char>, a: int)
    requires
        0 <= a <= s.len(),
        forall|i: int| 0 <= i < a ==> is_whitespace(#[trigger] s[i]),
        a < s.len() ==> !is_whitespace(s[a]),
    ensures
        trim_start(s) == s.subrange(a, s.len() as int),
    decreases a,
{
    if a == 0 {
        assert(s.subrange(0, s.len() as int) =~= s);
    } else {
        assert(is_whitespace(s[0]));
        let t = s.drop_first();
        assert forall|i: int| 0 <= i < a - 1 implies is_whitespace(#[trigger] t[i]) by {
            assert(t[i] == s[i + 1]);
        }
        lemma_trim_start_bound(t, a - 1);
        assert(t.subrange(a - 1, t.len() as int) =~= s.subrange(a, s.len() as int));
    }
}

proof fn lemma_trim_end_bound(s: Seq<char>, b: int)
    requires
        0 <= b <= s.len(),
        forall|i: int| b <= i < s.len() ==> is_whitespace(#[trigger] s[i]),
        b > 0 ==> !is_whitespace(s[b - 1]),
    ensures
        trim_end(s) == s.subrange(0, b),
    decreases s.len() - b,
{
    if b == s.len() {
        assert(s.subrange(0, b) =~= s);
    } else {
        assert(is_whitespace(s.last()));
        lemma_trim_end_bound(s.drop_last(), b);
        assert(s.drop_last().subrange(0, b) =~= s.subrange(0, b));
    }
}

/// What trimming keeps is a part of the text, and trimmed.
pub proof fn lemma_trim_part(s: Seq<char>) -> (res: (int, int))
    ensures
        0 <= res.0 <= res.1 <= s.len(),
        trim(s) == s.subrange(res.0, res.1),
        is_trimmed(trim(s)),
{
    let a = lemma_trim_start_part(s);
    let t = s.subrange(a, s.len() as int);
    let b = lemma_trim_end_part(t);
    assert(t.subrange(0, b) =~= s.subrange(a, a + b));
    (a, a + b)
}

proof fn lemma_trim_start_part(s: Seq<char>) -> (a: int)
    ensures
        0 <= a <= s.len(),
        trim_start(s) == s.subrange(a, s.len() as int),
        a < s.len() ==> !is_whitespace(s[a]),
    decreases s.len(),
{
    if s.len() > 0 && is_whitespace(s[0]) {
        let t = s.drop_first();
        let a = lemma_trim_start_part(t);
        assert(t.subrange(a, t.len() as int) =~= s.subrange(a + 1, s.len() as int));
        a + 1
    } else {
        assert(s.subrange(0, s.len() as int) =~= s);
        0
    }
}

proof fn lemma_trim_end_part(s: Seq<char>) -> (b: int)
    ensures
        0 <= b <= s.len(),
        trim_end(s) == s.subrange(0, b),
        b > 0 ==> !is_whitespace(s[b - 1]),
    decreases s.len(),
{
    if s.len() > 0 && is_whitespace(s.last()) {
        let t = s.drop_last();
        let b = lemma_trim_end_part(t);
        assert(t.subrange(0, b) =~= s.subrange(0, b));
        b
    } else {
        assert(s.subrange(0, s.len() as int) =~= s);
        s.len() as int
    }
}

/// Trimming leaves trimmed text alone.
pub proof fn lemma_trim_idle(s: Seq<char>)
    requires
        is_trimmed(s),
    ensures
        trim(s) == s,
{
    lemma_trim_bounds(s, 0, s.len() as int);
    assert(s.subrange(0, s.len() as int) =~= s);
}

/// White space around text that neither begins nor ends with any is what trimming takes
/// off.
pub proof fn law_trim(pre: Seq<char>, s: Seq<char>, post: Seq<char>)
    requires
        forall|i: int| 0 <= i < pre.len() ==> is_whitespace(#[trigger] pre[i]),
        forall|i: int| 0 <= i < post.len() ==> is_whitespace(#[trigger] post[i]),
        s.len() > 0,
        !is_whitespace(s[0]),
        !is_whitespace(s.last()),
    ensures
        trim(pre + s + post) == s,
{
    let all = pre + s + post;
    let a = pre.len() as int;
    let b = a + s.len();
    assert forall|i: int| 0 <= i < a implies is_whitespace(#[trigger] all[i]) by {
        assert(all[i] == pre[i]);
    }
    assert forall|i: int| b <= i < all.len() implies is_whitespace(#[trigger] all[i]) by {
        assert(all[i] == post[i - b]);
    }
    assert(all[a] == s[0] && all[b - 1] == s.last());
    lemma_trim_bounds(all, a, b);
    assert(all.subrange(a, b) =~= s);
}

/// White space is what the blanks, tabs and line breaks of ASCII are; letters, digits and
/// signs of ASCII are none.
pub proof fn law_whitespace(c: char)
    requires
        (c as u32) < 128,
    ensures
        is_whitespace(c) <==> c == ' ' || (9 <= c as u32 && c as u32 <= 13),
{
}

/// Of the ASCII letters only the case is passed over.
pub proof fn law_lower(c: char)
    ensures
        'A' <= c && c <= 'Z' ==> lower(c) as u32 == c as u32 + 32,
        !('A' <= c && c <= 'Z') ==> lower(c) == c,
{
}

/// A number is read from digits, with or without a plus sign before them, and from nothing
/// else; one that is too large is not read.
pub proof fn law_decimal_read(n: nat, max: nat, s: Seq<char>, i: int)
    ensures
        n <= max ==> parse_decimal(decimal(n), max) == Some(n),
        n > max ==> parse_decimal(decimal(n), max) is None,
        0 < i < s.len() && !is_digit(s[i]) ==> parse_decimal(s, max) is None,
        s.len() == 0 ==> parse_decimal(s, max) is None,
        parse_decimal(s, max) matches Some(m) ==> m <= max,
{
    lemma_parse_decimal(n, if n <= max {
        max
    } else {
        n
    });
    lemma_decimal_value(n);
    if 0 < i < s.len() && !is_digit(s[i]) {
        let t = strip_plus(s);
        if t.len() < s.len() {
            assert(t[i - 1] == s[i]);
        }
    }
}

/// A space in front of text is taken off with what else trimming takes off.
pub proof fn lemma_trim_space_before(s: Seq<char>)
    ensures
        trim(seq![' '] + s) == trim(s),
{
    assert((seq![' '] + s).drop_first() =~= s);
}

/// Case-insensitive equality is an equivalence.
pub proof fn lemma_eq_ignore_case(a: Seq<char>, b: Seq<char>, c: Seq<char>)
    ensures
        eq_ignore_case(a, a),
        eq_ignore_case(a, b) ==> eq_ignore_case(b, a),
        eq_ignore_case(a, b) && eq_ignore_case(b, c) ==> eq_ignore_case(a, c),
{
    if eq_ignore_case(a, b) {
        assert forall|i: int| 0 <= i < b.len() implies lower(#[trigger] b[i]) == lower(a[i]) by {
            assert(lower(a[i]) == lower(b[i]));
        }
        if eq_ignore_case(b, c) {
            assert forall|i: int| 0 <= i < a.len() implies lower(#[trigger] a[i]) == lower(
                c[i],
            ) by {
                assert(lower(b[i]) == lower(c[i]));
            }
        }
    }
}

/// Writing a number and reading it back gives the number.
pub proof fn lemma_decimal_value(n: nat)
    ensures
        decimal(n).len() > 0,
        all_digits(decimal(n)),
        digits_value(decimal(n)) == n,
    decreases n,
{
    if n < 10 {
        let s = decimal(n);
        assert(s.drop_last() =~= Seq::<char>::empty());
        assert(digits_value(s.drop_last()) == 0);
        assert(s.last() == digit(n));
    } else {
        lemma_decimal_value(n / 10);
        let s = decimal(n);
        assert(s.drop_last() =~= decimal(n / 10));
        assert(s.last() == digit(n % 10));
    }
}

/// A written number parses to itself wherever it is in range.
pub proof fn lemma_parse_decimal(n: nat, max: nat)
    requires
        n <= max,
    ensures
        parse_decimal(decimal(n), max) == Some(n),
        is_trimmed(decimal(n)),
{
    lemma_decimal_value(n);
    assert(is_digit(decimal(n)[0]));
    assert(is_digit(decimal(n)[decimal(n).len() - 1]));
}

/// Different numbers are written differently.
pub proof fn lemma_decimal_injective(a: nat, b: nat)
    requires
        decimal(a) == decimal(b),
    ensures
        a == b,
{
    lemma_decimal_value(a);
    lemma_decimal_value(b);
}

proof fn lemma_digits_value_grows(s: Seq<char>, k: int)
    requires
        0 <= k <= s.len(),
        all_digits(s),
    ensures
        digits_value(s.subrange(0, k)) <= digits_value(s),
    decreases s.len() - k,
{
    if k < s.len() {
        let t = s.drop_last();
        assert(is_digit(s[s.len() - 1]));
        assert forall|i: int| 0 <= i < t.len() implies is_digit(#[trigger] t[i]) by {
            assert(is_digit(s[i]));
        }
        lemma_digits_value_grows(t, k);
        assert(t.subrange(0, k) =~= s.subrange(0, k));
    } else {
        assert(s.subrange(0, k) =~= s);
    }
}

/// Digits stand for ten times what those before the last stand for, and the last. A run of
/// them is read as that number, however many zeros it begins with, and with one plus sign
/// before it too; a sign alone, or two of them, is no number.
pub proof fn law_digits(s: Seq<char>, c: char, max: nat)
    requires
        all_digits(s),
        is_digit(c),
    ensures
        digits_value(seq![]) == 0,
        digits_value(s.push(c)) == 10 * digits_value(s) + (c as int - '0' as int),
        parse_decimal(s.push(c), max) == if digits_value(s.push(c)) <= max {
            Some(digits_value(s.push(c)))
        } else {
            None
        },
        parse_decimal(seq!['+'] + s.push(c), max) == parse_decimal(s.push(c), max),
        parse_decimal(seq!['+', '+'] + s, max) is None,
        parse_decimal(seq!['+'], max) is None,
{
    let digits = s.push(c);
    assert(digits.drop_last() =~= s);
    assert forall|i: int| 0 <= i < digits.len() implies is_digit(#[trigger] digits[i]) by {
        if i < s.len() {
            assert(is_digit(s[i]));
        }
    }
    assert(is_digit(digits[0]));
    assert((seq!['+'] + digits).drop_first() =~= digits);
    let twice = (seq!['+', '+'] + s).drop_first();
    assert(!is_digit(twice[0]));
}

/// Beyond ASCII, white space is what Unicode says it is.
pub proof fn law_wide_space(c: char)
    requires
        c as u32 >= 128,
    ensures
        is_whitespace(c) <==> c as u32 == 133 || c as u32 == 160 || c as u32 == 5760 || (8192
            <= c as u32 && c as u32 <= 8202) || c as u32 == 8232 || c as u32 == 8233 || c as u32
            == 8239 || c as u32 == 8287 || c as u32 == 12288,
{
}

/// A text is split at the first separator, and what follows that is split on; without one
/// it is a single piece.
pub proof fn law_split<T>(s: Seq<T>, sep: Seq<T>, rest: Seq<T>)
    requires
        sep.len() > 0,
    ensures
        (forall|j: int| 0 <= j < s.len() ==> !#[trigger] occurs_at(s + sep + rest, sep, j)) ==> split(
            s + sep + rest,
            sep,
        ) == seq![s] + split(rest, sep),
        (forall|j: int| !#[trigger] occurs_at(s, sep, j)) ==> split(s, sep) == seq![s],
{
    let all = s + sep + rest;
    let n = s.len() as int;
    if forall|j: int| 0 <= j < s.len() ==> !#[trigger] occurs_at(all, sep, j) {
        assert(all.subrange(n, n + sep.len()) =~= sep);
        lemma_find_is(all, sep, 0, n);
        assert(before(all, n) =~= s);
        assert(after(all, n + sep.len()) =~= rest);
    }
    if forall|j: int| !#[trigger] occurs_at(s, sep, j) {
        lemma_find_none(s, sep, 0);
    }
}

// ── Code ──

/// `String::push` of std: one character more at the end.
pub assume_specification[ String::push ](s: &mut String, c: char)
    ensures
        final(s)@ == old(s)@.push(c),
;

/// `str::from_utf8` of std: the text that the bytes encode, or nothing where they
/// are not UTF-8.
#[verifier::external_body]
pub(crate) fn utf8_text(bytes: &[u8]) -> (text: Option<&str>)
    ensures
        text is Some <==> vstd::utf8::valid_utf8(bytes@),
        text is Some ==> text->0@ == vstd::utf8::decode_utf8(bytes@),
{
    std::str::from_utf8(bytes).ok()
}

/// The characters of `s`.
pub fn chars_of(s: &str) -> (out: Vec<char>)
    ensures
        out@ == s@,
{
    let mut out: Vec<char> = Vec::new();
    for c in iter: s.chars()
        invariant
            iter.seq() == s@,
            out@ == s@.take(iter.index()),
    {
        out.push(c);
    }
    assert(s@.take(s@.len() as int) =~= s@);
    out
}

/// The string of the given characters.
pub fn string_of(chars: &[char]) -> (out: String)
    ensures
        out@ == chars@,
{
    let mut out: String = String::new();
    let mut i: usize = 0;
    while i < chars.len()
        invariant
            i <= chars@.len(),
            out@ == chars@.take(i as int),
        decreases chars@.len() - i,
    {
        out.push(chars[i]);
        assert(chars@.take(i + 1) =~= chars@.take(i as int).push(chars@[i as int]));
        i += 1;
    }
    assert(chars@.take(i as int) =~= chars@);
    out
}

/// Whether `c` is white space.
pub fn is_white(c: char) -> (res: bool)
    ensures
        res == is_whitespace(c),
{
    let n: u32 = c as u32;
    (0x09 <= n && n <= 0x0D) || n == 0x20 || n == 0x85 || n == 0xA0 || n == 0x1680 || (0x2000 <= n
        && n <= 0x200A) || n == 0x2028 || n == 0x2029 || n == 0x202F || n == 0x205F || n == 0x3000
}

/// `c` with an ASCII upper case letter made lower case.
pub fn to_lower(c: char) -> (res: char)
    ensures
        res == lower(c),
{
    if 'A' <= c && c <= 'Z' {
        ((c as u8) + 32) as char
    } else {
        c
    }
}

/// `s` with its ASCII letters in lower case.
pub fn lower_string(s: &str) -> (res: String)
    ensures
        res@ == lower_text(s@),
{
    let mut out: String = String::new();
    for c in iter: s.chars()
        invariant
            iter.seq() == s@,
            out@ == lower_text(s@.take(iter.index())),
    {
        out.push(to_lower(c));
        assert(out@ =~= lower_text(s@.take(iter.index() + 1)));
    }
    assert(s@.take(s@.len() as int) =~= s@);
    out
}

/// A copy of a string that may be missing.
pub fn copy_option(s: &Option<String>) -> (res: Option<String>)
    ensures
        text_option(res) == text_option(*s),
{
    match s {
        Some(t) => Some(t.clone()),
        None => None,
    }
}

/// A copy of a list of strings.
pub fn copy_strings(list: &Vec<String>) -> (res: Vec<String>)
    ensures
        texts(res@) == texts(list@),
{
    let mut out: Vec<String> = Vec::new();
    let mut i: usize = 0;
    while i < list.len()
        invariant
            i <= list@.len(),
            texts(out@) == texts(list@.take(i as int)),
        decreases list@.len() - i,
    {
        let ghost before = out@;
        out.push(list[i].clone());
        assert(texts(out@) =~= texts(before).push(list@[i as int]@));
        assert(texts(list@.take(i + 1)) =~= texts(list@.take(i as int)).push(list@[i as int]@));
        i += 1;
    }
    assert(list@.take(i as int) =~= list@);
    out
}

/// Whether the two slices hold the same characters.
pub fn same_chars(a: &[char], b: &[char]) -> (res: bool)
    ensures
        res == (a@ == b@),
{
    if a.len() != b.len() {
        return false;
    }
    let mut i: usize = 0;
    while i < a.len()
        invariant
            a@.len() == b@.len(),
            i <= a@.len(),
            forall|j: int| 0 <= j < i ==> a@[j] == b@[j],
        decreases a@.len() - i,
    {
        if a[i] != b[i] {
            return false;
        }
        i += 1;
    }
    assert(a@ =~= b@);
    true
}

/// Whether the two strings are equal.
pub fn same_text(a: &str, b: &str) -> (res: bool)
    ensures
        res == (a@ == b@),
{
    same_chars(chars_of(a).as_slice(), chars_of(b).as_slice())
}

/// Whether the two slices are equal up to the case of ASCII letters.
pub fn same_chars_any_case(a: &[char], b: &[char]) -> (res: bool)
    ensures
        res == eq_ignore_case(a@, b@),
{
    if a.len() != b.len() {
        return false;
    }
    let mut i: usize = 0;
    while i < a.len()
        invariant
            a@.len() == b@.len(),
            i <= a@.len(),
            forall|j: int| 0 <= j < i ==> lower(#[trigger] a@[j]) == lower(b@[j]),
        decreases a@.len() - i,
    {
        if to_lower(a[i]) != to_lower(b[i]) {
            return false;
        }
        i += 1;
    }
    true
}

/// Whether the two strings are equal up to the case of ASCII letters.
pub fn same_any_case(a: &str, b: &str) -> (res: bool)
    ensures
        res == eq_ignore_case(a@, b@),
{
    same_chars_any_case(chars_of(a).as_slice(), chars_of(b).as_slice())
}

/// The first position in `s` that holds `c`.
pub fn position_of(s: &[char], c: char) -> (res: Option<usize>)
    ensures
        match res {
            Some(i) => i < s@.len() && find_char(s@, c) == Some(i as int),
            None => find_char(s@, c) is None,
        },
{
    let mut i: usize = 0;
    while i < s.len()
        invariant
            i <= s@.len(),
            forall|j: int| 0 <= j < i ==> #[trigger] s@[j] != c,
        decreases s@.len() - i,
    {
        if s[i] == c {
            proof {
                lemma_find_char_is(s@, c, i as int);
            }
            return Some(i);
        }
        i += 1;
    }
    proof {
        lemma_find_char_none(s@, c);
    }
    None
}

/// The first position in `s` that holds one of `stops`.
pub fn position_of_any(s: &[char], stops: &[char]) -> (res: Option<usize>)
    ensures
        match res {
            Some(i) => i < s@.len() && find_any(s@, stops@) == Some(i as int),
            None => find_any(s@, stops@) is None,
        },
{
    let mut i: usize = 0;
    while i < s.len()
        invariant
            i <= s@.len(),
            forall|j: int| 0 <= j < i ==> !stops@.contains(#[trigger] s@[j]),
        decreases s@.len() - i,
    {
        if position_of(stops, s[i]).is_some() {
            proof {
                lemma_find_char(stops@, s@[i as int]);
                lemma_find_any_is(s@, stops@, 0, i as int);
            }
            return Some(i);
        }
        proof {
            lemma_find_char(stops@, s@[i as int]);
        }
        i += 1;
    }
    proof {
        lemma_find_any_none(s@, stops@, 0);
    }
    None
}

/// Whether `pat` stands in `s` at position `i`.
fn stands_at(s: &[char], pat: &[char], i: usize) -> (res: bool)
    requires
        i + pat@.len() <= s@.len(),
    ensures
        res == occurs_at(s@, pat@, i as int),
{
    let _total: usize = s.len();
    let end: usize = i + pat.len();
    same_chars(slice_subrange(s, i, end), pat)
}

/// Whether `s` ends with `suffix`.
pub fn has_suffix(s: &[char], suffix: &[char]) -> (res: bool)
    ensures
        res == ends_with(s@, suffix@),
{
    if suffix.len() > s.len() {
        return false;
    }
    let total: usize = s.len();
    same_chars(slice_subrange(s, total - suffix.len(), total), suffix)
}

/// Whether `s` begins with `prefix`.
pub fn has_prefix(s: &[char], prefix: &[char]) -> (res: bool)
    ensures
        res == starts_with(s@, prefix@),
{
    prefix.len() <= s.len() && stands_at(s, prefix, 0)
}

/// The first position in `s` where `pat` stands.
pub fn position_of_text(s: &[char], pat: &[char]) -> (res: Option<usize>)
    ensures
        match res {
            Some(i) => i + pat@.len() <= s@.len() && find(s@, pat@) == Some(i as int),
            None => find(s@, pat@) is None,
        },
{
    let mut i: usize = 0;
    while pat.len() <= s.len() - i
        invariant
            i <= s@.len(),
            forall|j: int| 0 <= j < i ==> !occurs_at(s@, pat@, j),
        decreases s@.len() - i,
    {
        if stands_at(s, pat, i) {
            proof {
                lemma_find_is(s@, pat@, 0, i as int);
            }
            return Some(i);
        }
        proof {
            if pat@.len() == 0 {
                assert(s@.subrange(i as int, i as int) =~= pat@);
            }
        }
        i += 1;
    }
    proof {
        lemma_find_none(s@, pat@, 0);
    }
    None
}

/// The first position in `data` where the four bytes `\r\n\r\n` stand.
pub fn position_of_blank_line(data: &[u8]) -> (res: Option<usize>)
    ensures
        match res {
            Some(i) => i + 4 <= data@.len() && find(data@, seq![13u8, 10u8, 13u8, 10u8]) == Some(
                i as int,
            ),
            None => find(data@, seq![13u8, 10u8, 13u8, 10u8]) is None,
        },
{
    let ghost pat = seq![13u8, 10u8, 13u8, 10u8];
    let mut i: usize = 0;
    while i < data.len() && data.len() - i >= 4
        invariant
            i <= data@.len(),
            pat == seq![13u8, 10u8, 13u8, 10u8],
            forall|j: int| 0 <= j < i ==> !occurs_at(data@, pat, j),
        decreases data@.len() - i,
    {
        if data[i] == 13 && data[i + 1] == 10 && data[i + 2] == 13 && data[i + 3] == 10 {
            proof {
                assert(data@.subrange(i as int, i + 4) =~= pat);
                lemma_find_is(data@, pat, 0, i as int);
            }
            return Some(i);
        }
        proof {
            if occurs_at(data@, pat, i as int) {
                let w = data@.subrange(i as int, i + 4);
                assert(w[0] == data@[i as int] && w[1] == data@[i + 1]);
                assert(w[2] == data@[i + 2] && w[3] == data@[i + 3]);
            }
        }
        i += 1;
    }
    proof {
        lemma_find_none(data@, pat, 0);
    }
    None
}

/// The bounds of what trimming keeps of `s`.
pub fn trim_range(s: &[char]) -> (res: (usize, usize))
    ensures
        res.0 <= res.1 <= s@.len(),
        s@.subrange(res.0 as int, res.1 as int) == trim(s@),
{
    let mut a: usize = 0;
    while a < s.len() && is_white(s[a])
        invariant
            a <= s@.len(),
            forall|i: int| 0 <= i < a ==> is_whitespace(#[trigger] s@[i]),
        decreases s@.len() - a,
    {
        a += 1;
    }
    let mut b: usize = s.len();
    while b > a && is_white(s[b - 1])
        invariant
            a <= b <= s@.len(),
            a < s@.len() ==> !is_whitespace(s@[a as int]),
            forall|i: int| b <= i < s@.len() ==> is_whitespace(#[trigger] s@[i]),
        decreases b,
    {
        b -= 1;
    }
    proof {
        lemma_trim_bounds(s@, a as int, b as int);
    }
    (a, b)
}

/// `s` without white space at either end.
pub fn trimmed(s: &[char]) -> (res: &[char])
    ensures
        res@ == trim(s@),
{
    let (a, b) = trim_range(s);
    slice_subrange(s, a, b)
}

/// The number that `s` writes, where it is at most `max`.
pub fn read_decimal(s: &[char], max: u64) -> (res: Option<u64>)
    ensures
        match res {
            Some(n) => parse_decimal(s@, max as nat) == Some(n as nat),
            None => parse_decimal(s@, max as nat) is None,
        },
{
    let start: usize = if s.len() > 0 && s[0] == '+' {
        1
    } else {
        0
    };
    let digits: &[char] = slice_subrange(s, start, s.len());
    assert(digits@ =~= strip_plus(s@));
    if digits.len() == 0 {
        return None;
    }
    let mut value: u128 = 0;
    let mut i: usize = 0;
    while i < digits.len()
        invariant
            digits@ == strip_plus(s@),
            i <= digits@.len(),
            value <= max,
            value == digits_value(digits@.subrange(0, i as int)),
            forall|j: int| 0 <= j < i ==> is_digit(#[trigger] digits@[j]),
        decreases digits@.len() - i,
    {
        let c: char = digits[i];
        if c < '0' || '9' < c {
            assert(!is_digit(digits@[i as int]));
            return None;
        }
        let next: u128 = value * 10 + ((c as u32) - ('0' as u32)) as u128;
        proof {
            let t = digits@.subrange(0, i + 1);
            assert(t.drop_last() =~= digits@.subrange(0, i as int));
            assert(t.last() == c);
        }
        if next > max as u128 {
            proof {
                if all_digits(digits@) {
                    lemma_digits_value_grows(digits@, i + 1);
                }
            }
            return None;
        }
        value = next;
        i += 1;
    }
    assert(digits@.subrange(0, i as int) =~= digits@);
    Some(value as u64)
}

/// Appends `n` in decimal.
pub fn push_decimal(out: &mut String, n: u64)
    ensures
        final(out)@ == old(out)@ + decimal(n as nat),
    decreases n,
{
    if n >= 10 {
        push_decimal(out, n / 10);
    }
    let d: u8 = (n % 10) as u8;
    out.push((48u8 + d) as char);
    assert(out@ =~= old(out)@ + decimal(n as nat));
}

/// `n` in decimal.
pub fn decimal_string(n: u64) -> (out: String)
    ensures
        out@ == decimal(n as nat),
{
    let mut out: String = String::new();
    push_decimal(&mut out, n);
    assert(out@ =~= decimal(n as nat));
    out
}

} // verus!
