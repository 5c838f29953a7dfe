//! Strings as sequences of characters: searching, replacing, trimming, and
//! decimal numerals.
use vstd::prelude::*;

verus! {

/// `String::push`: the character is added at the end of the string.
pub assume_specification[ String::push ](s: &mut String, c: char)
    ensures
        final(s)@ == old(s)@.push(c),
;

// ---------------------------------------------------------------------------
// Model
// ---------------------------------------------------------------------------

/// `pat` stands in `s` from position `i` on.
pub open spec fn occurs_at(s: Seq<char>, pat: Seq<char>, i: int) -> bool {
    0 <= i && i + pat.len() <= s.len() && s.subrange(i, i + pat.len()) == pat
}

/// `pat` stands somewhere in `s`.
pub open spec fn contains(s: Seq<char>, pat: Seq<char>) -> bool {
    exists|i: int| occurs_at(s, pat, i)
}

/// `s` with every occurrence of `pat`, taken from left to right and without
/// overlap, replaced by `with`.
pub open spec fn replaced(s: Seq<char>, pat: Seq<char>, with: Seq<char>) -> Seq<char>
    decreases s.len(),
{
    if s.len() == 0 || pat.len() == 0 {
        s
    } else if occurs_at(s, pat, 0) {
        with + replaced(s.skip(pat.len() as int), pat, with)
    } else {
        seq![s[0]] + replaced(s.skip(1), pat, with)
    }
}

/// `s` with each `from` character replaced by `to`.
pub open spec fn char_replaced(s: Seq<char>, from: char, to: char) -> Seq<char> {
    s.map_values(
        |c: char|
            if c == from {
                to
            } else {
                c
            },
    )
}

/// `s` without the `c` characters at its end.
pub open spec fn end_trimmed(s: Seq<char>, c: char) -> Seq<char>
    decreases s.len(),
{
    if s.len() > 0 && s.last() == c {
        end_trimmed(s.drop_last(), c)
    } else {
        s
    }
}

pub open spec fn ascii_lower_char(c: char) -> char {
    if 'A' <= c && c <= 'Z' {
        ((c as u32) + 32) as char
    } else {
        c
    }
}

/// `s` with the letters `A` to `Z` turned into `a` to `z`.
pub open spec fn ascii_lowered(s: Seq<char>) -> Seq<char> {
    s.map_values(|c: char| ascii_lower_char(c))
}

/// The numeral of one decimal digit.
pub open spec fn digit_char(d: nat) -> char {
    (48 + d) as char
}

/// The decimal numeral of a natural number, without leading zeros.
pub open spec fn decimal(n: nat) -> Seq<char>
    decreases n,
{
    if n < 10 {
        seq![digit_char(n)]
    } else {
        decimal(n / 10).push(digit_char(n % 10))
    }
}

/// The decimal numeral of an integer, with a minus sign if it is negative.
pub open spec fn signed_decimal(n: int) -> Seq<char> {
    if n < 0 {
        seq!['-'] + decimal((-n) as nat)
    } else {
        decimal(n as nat)
    }
}

/// The numeral of `n`, with leading zeros up to a width of two.
pub open spec fn two_digits(n: nat) -> Seq<char> {
    if n < 10 {
        seq!['0'] + decimal(n)
    } else {
        decimal(n)
    }
}

pub open spec fn is_digit(c: char) -> bool {
    '0' <= c && c <= '9'
}

/// The number that a sequence of decimal digits stands for.
pub open spec fn digits_value(s: Seq<char>) -> nat
    decreases s.len(),
{
    if s.len() == 0 {
        0
    } else {
        digits_value(s.drop_last()) * 10 + (s.last() as u32 - 48) as nat
    }
}

/// What is left of a numeral without its plus sign.
pub open spec fn unsigned_part(s: Seq<char>) -> Seq<char> {
    if s.len() > 0 && s[0] == '+' {
        s.skip(1)
    } else {
        s
    }
}

/// What `s` reads as a number of at most `max`: an optional plus sign, then
/// one or more digits and nothing else.
pub open spec fn parsed_number(s: Seq<char>, max: nat) -> Option<nat> {
    let digits = unsigned_part(s);
    if digits.len() > 0 && (forall|i: int| 0 <= i < digits.len() ==> is_digit(#[trigger] digits[i]))
        && digits_value(digits) <= max {
        Some(digits_value(digits))
    } else {
        None
    }
}

/// The views of a sequence of strings.
pub open spec fn views(s: Seq<String>) -> Seq<Seq<char>> {
    s.map_values(|x: String| x@)
}

/// The view of a string that may be absent.
pub open spec fn opt_view(s: Option<String>) -> Option<Seq<char>> {
    match s {
        Some(x) => Some(x@),
        None => None,
    }
}

// ---------------------------------------------------------------------------
// Facts
// ---------------------------------------------------------------------------

/// What is cut off at the end of a text, and where.
pub proof fn lemma_end_trimmed(s: Seq<char>, c: char)
    ensures
        end_trimmed(s, c).len() <= s.len(),
        end_trimmed(s, c) == s.take(end_trimmed(s, c).len() as int),
        end_trimmed(s, c).len() > 0 ==> s[end_trimmed(s, c).len() - 1] != c,
        forall|i: int| end_trimmed(s, c).len() <= i < s.len() ==> #[trigger] s[i] == c,
    decreases s.len(),
{
    if s.len() > 0 && s.last() == c {
        let front = s.drop_last();
        lemma_end_trimmed(front, c);
        let n = end_trimmed(s, c).len() as int;
        assert(front.take(n) =~= s.take(n));
        assert forall|i: int| n <= i < s.len() implies #[trigger] s[i] == c by {
            if i < front.len() {
                assert(front[i] == c);
            }
        }
    } else {
        assert(s.take(s.len() as int) =~= s);
    }
}

pub proof fn lemma_digit_char(d: nat)
    requires
        d < 10,
    ensures
        is_digit(digit_char(d)),
        digit_char(d) as u32 == 48 + d,
{
}

/// The numeral of a number consists of digits and reads back as the number.
pub proof fn lemma_decimal_value(n: nat)
    ensures
        decimal(n).len() > 0,
        forall|i: int| 0 <= i < decimal(n).len() ==> is_digit(#[trigger] decimal(n)[i]),
        digits_value(decimal(n)) == n,
    decreases n,
{
    if n < 10 {
        lemma_digit_char(n);
        assert(decimal(n).drop_last() =~= Seq::<char>::empty());
        assert(digits_value(decimal(n).drop_last()) == 0);
    } else {
        lemma_decimal_value(n / 10);
        lemma_digit_char(n % 10);
        assert(decimal(n).drop_last() =~= decimal(n / 10));
    }
}

/// Reading the numeral of a number gives the number back, as long as it is
/// within the bound.
pub proof fn law_decimal_parses_back(n: nat, max: nat)
    requires
        n <= max,
    ensures
        parsed_number(decimal(n), max) == Some(n),
{
    lemma_decimal_value(n);
    assert(is_digit(decimal(n)[0]));
}

/// Different numbers have different numerals.
pub proof fn law_decimal_injective(a: nat, b: nat)
    requires
        decimal(a) == decimal(b),
    ensures
        a == b,
{
    lemma_decimal_value(a);
    lemma_decimal_value(b);
}

/// The first separator of a text tells its two sides apart.
pub proof fn lemma_first_separator(a: Seq<char>, x: Seq<char>, b: Seq<char>, y: Seq<char>, c: char)
    requires
        !a.contains(c),
        !b.contains(c),
        a + seq![c] + x == b + seq![c] + y,
    ensures
        a == b,
        x == y,
{
    let left = a + seq![c] + x;
    let right = b + seq![c] + y;
    assert(left[a.len() as int] == c);
    assert(right[b.len() as int] == c);
    if a.len() < b.len() {
        assert(right[a.len() as int] == b[a.len() as int]);
    } else if b.len() < a.len() {
        assert(left[b.len() as int] == a[b.len() as int]);
    }
    assert(left.take(a.len() as int) =~= a);
    assert(right.take(a.len() as int) =~= b);
    assert(left.skip(a.len() as int + 1) =~= x);
    assert(right.skip(a.len() as int + 1) =~= y);
}

/// A numeral holds nothing but digits.
pub proof fn lemma_decimal_is_digits(n: nat, c: char)
    requires
        !is_digit(c),
    ensures
        !decimal(n).contains(c),
        !two_digits(n).contains(c),
{
    lemma_decimal_value(n);
    if decimal(n).contains(c) {
        let i = choose|i: int| 0 <= i < decimal(n).len() && decimal(n)[i] == c;
        assert(is_digit(decimal(n)[i]));
    }
    if two_digits(n).contains(c) {
        let i = choose|i: int| 0 <= i < two_digits(n).len() && two_digits(n)[i] == c;
        if n < 10 && i > 0 {
            assert(two_digits(n)[i] == decimal(n)[i - 1]);
        }
    }
}

/// Different numbers have different numerals of at least two digits.
pub proof fn lemma_two_digits_injective(a: nat, b: nat)
    requires
        two_digits(a) == two_digits(b),
    ensures
        a == b,
{
    lemma_two_digits_value(a);
    lemma_two_digits_value(b);
}

proof fn lemma_two_digits_value(n: nat)
    ensures
        digits_value(two_digits(n)) == n,
{
    lemma_decimal_value(n);
    if n < 10 {
        lemma_digit_char(n);
        let s = two_digits(n);
        assert(s.drop_last() =~= seq!['0']);
        assert(seq!['0'].drop_last() =~= Seq::<char>::empty());
        assert(digits_value(Seq::<char>::empty()) == 0);
        assert(digits_value(seq!['0']) == 0);
    }
}

// ---------------------------------------------------------------------------
// Conversions and comparison
// ---------------------------------------------------------------------------

/// The characters of a string, in order.
pub fn chars_of(s: &str) -> (out: Vec<char>)
    ensures
        out@ == s@,
{
    let mut out: Vec<char> = Vec::new();
    for c in it: s.chars()
        invariant
            out@ == s@.take(it.index() as int),
            it.seq() == s@,
    {
        out.push(c);
    }
    out
}

/// The string that holds the given characters, in order.
pub fn string_of(chars: &Vec<char>) -> (out: String)
    ensures
        out@ == chars@,
{
    let mut out = String::new();
    let mut i: usize = 0;
    while i < chars.len()
        invariant
            i <= chars.len(),
            out@ == chars@.take(i as int),
        decreases chars.len() - i,
    {
        out.push(chars[i]);
        i += 1;
    }
    out
}

/// Whether two strings hold the same characters.
pub fn str_eq(a: &str, b: &str) -> (same: bool)
    ensures
        same == (a@ == b@),
{
    a.to_owned() == b.to_owned()
}

/// A copy of a list of strings.
pub fn copy_strings(list: &Vec<String>) -> (out: Vec<String>)
    ensures
        out@ == list@,
{
    let mut out: Vec<String> = Vec::new();
    let mut i: usize = 0;
    while i < list.len()
        invariant
            i <= list.len(),
            out@ == list@.take(i as int),
        decreases list.len() - i,
    {
        out.push(list[i].clone());
        i += 1;
    }
    assert(list@.take(i as int) =~= list@);
    out
}

/// A copy of a string that may be absent.
pub fn copy_option(s: &Option<String>) -> (out: Option<String>)
    ensures
        out == *s,
{
    match s {
        Some(x) => Some(x.clone()),
        None => None,
    }
}

/// Whether a list holds a string with the characters of `s`.
pub fn list_contains(list: &Vec<String>, s: &str) -> (found: bool)
    ensures
        found == views(list@).contains(s@),
{
    let mut i: usize = 0;
    while i < list.len()
        invariant
            i <= list.len(),
            forall|j: int| 0 <= j < i ==> (#[trigger] list@[j])@ != s@,
        decreases list.len() - i,
    {
        if str_eq(list[i].as_str(), s) {
            assert(views(list@)[i as int] == s@);
            return true;
        }
        i += 1;
    }
    assert forall|j: int| 0 <= j < views(list@).len() implies views(list@)[j] != s@ by {
        assert(list@[j]@ != s@);
    }
    false
}

// ---------------------------------------------------------------------------
// Searching and replacing
// ---------------------------------------------------------------------------

/// Whether `pat` stands in `s` from position `at` on.
pub fn matches_at(s: &Vec<char>, pat: &Vec<char>, at: usize) -> (found: bool)
    requires
        at <= s.len(),
    ensures
        found == occurs_at(s@, pat@, at as int),
{
    if pat.len() > s.len() - at {
        return false;
    }
    let mut i: usize = 0;
    while i < pat.len()
        invariant
            i <= pat.len(),
            at + pat.len() <= s.len(),
            forall|j: int| 0 <= j < i ==> s@[at + j] == #[trigger] pat@[j],
        decreases pat.len() - i,
    {
        if s[at + i] != pat[i] {
            assert(s@.subrange(at as int, at + pat@.len())[i as int] != pat@[i as int]);
            return false;
        }
        i += 1;
    }
    assert(s@.subrange(at as int, at + pat@.len()) =~= pat@);
    true
}

/// Whether `pat` stands somewhere in `s`.
pub fn contains_str(s: &str, pat: &str) -> (found: bool)
    ensures
        found == contains(s@, pat@),
{
    let text = chars_of(s);
    let needle = chars_of(pat);
    let mut i: usize = 0;
    while i < text.len()
        invariant
            text@ == s@,
            needle@ == pat@,
            i <= text.len(),
            forall|j: int| 0 <= j < i ==> !occurs_at(s@, pat@, j),
        decreases text.len() - i,
    {
        if matches_at(&text, &needle, i) {
            return true;
        }
        i += 1;
    }
    matches_at(&text, &needle, i)
}

/// `s` with every occurrence of `pat` replaced by `with`.
pub fn replace_str(s: &str, pat: &str, with: &str) -> (out: String)
    requires
        pat@.len() > 0,
    ensures
        out@ == replaced(s@, pat@, with@),
{
    let text = chars_of(s);
    let needle = chars_of(pat);
    let mut out = String::new();
    let mut i: usize = 0;
    assert(s@.skip(0) =~= s@);
    while i < text.len()
        invariant
            text@ == s@,
            needle@ == pat@,
            pat@.len() > 0,
            i <= text.len(),
            replaced(s@, pat@, with@) == out@ + replaced(s@.skip(i as int), pat@, with@),
        decreases text.len() - i,
    {
        let ghost rest = s@.skip(i as int);
        let hit = matches_at(&text, &needle, i);
        assert(occurs_at(rest, pat@, 0) == hit) by {
            if i + pat@.len() <= s@.len() {
                assert(rest.subrange(0, pat@.len() as int) =~= s@.subrange(
                    i as int,
                    i + pat@.len(),
                ));
            }
        }
        if hit {
            out.append(with);
            i += needle.len();
            assert(rest.skip(pat@.len() as int) =~= s@.skip(i as int));
        } else {
            out.push(text[i]);
            i += 1;
            assert(rest.skip(1) =~= s@.skip(i as int));
        }
        assert(replaced(s@, pat@, with@) =~= out@ + replaced(s@.skip(i as int), pat@, with@));
    }
    assert(out@ + replaced(s@.skip(i as int), pat@, with@) =~= out@);
    out
}

/// `s` with each `from` character replaced by `to`.
pub fn replace_char(s: &str, from: char, to: char) -> (out: String)
    ensures
        out@ == char_replaced(s@, from, to),
{
    let text = chars_of(s);
    let mut out = String::new();
    let mut i: usize = 0;
    while i < text.len()
        invariant
            text@ == s@,
            i <= text.len(),
            out@ == char_replaced(s@, from, to).take(i as int),
        decreases text.len() - i,
    {
        if text[i] == from {
            out.push(to);
        } else {
            out.push(text[i]);
        }
        i += 1;
        assert(out@ =~= char_replaced(s@, from, to).take(i as int));
    }
    assert(out@ =~= char_replaced(s@, from, to));
    out
}

/// `s` without the `c` characters at its end.
pub fn trim_end(s: &str, c: char) -> (out: String)
    ensures
        out@ == end_trimmed(s@, c),
{
    let mut text = chars_of(s);
    while text.len() > 0 && text[text.len() - 1] == c
        invariant
            end_trimmed(text@, c) == end_trimmed(s@, c),
        decreases text.len(),
    {
        assert(text@.last() == c);
        let ghost before = text@;
        let _ = text.pop();
        assert(text@ =~= before.drop_last());
    }
    string_of(&text)
}

/// `s` with the letters `A` to `Z` turned into `a` to `z`.
pub fn ascii_lower(s: &str) -> (out: String)
    ensures
        out@ == ascii_lowered(s@),
{
    let text = chars_of(s);
    let mut out = String::new();
    let mut i: usize = 0;
    while i < text.len()
        invariant
            text@ == s@,
            i <= text.len(),
            out@ == ascii_lowered(s@).take(i as int),
        decreases text.len() - i,
    {
        let c = text[i];
        if 'A' <= c && c <= 'Z' {
            let b: u8 = (c as u32 + 32) as u8;
            out.push(b as char);
        } else {
            out.push(c);
        }
        i += 1;
        assert(out@ =~= ascii_lowered(s@).take(i as int));
    }
    assert(out@ =~= ascii_lowered(s@));
    out
}

// ---------------------------------------------------------------------------
// Quoted texts
// ---------------------------------------------------------------------------

/// A text between quotation marks, with escapes, as the standard library
/// writes it for debugging.
pub uninterp spec fn quoted(s: Seq<char>) -> Seq<char>;

/// A path between quotation marks, with escapes, as the standard library
/// writes it for debugging.
pub uninterp spec fn quoted_path(s: Seq<char>) -> Seq<char>;

/// The `Debug` form of a `str`: it depends on the text alone.
#[verifier::external_body]
pub(crate) fn quote(s: &str) -> (out: String)
    ensures
        out@ == quoted(s@),
{
    format!("{:?}", s)
}

/// The `Debug` form of a `std::path::Path`: it depends on the path alone.
#[verifier::external_body]
pub(crate) fn quote_path(s: &str) -> (out: String)
    ensures
        out@ == quoted_path(s@),
{
    format!("{:?}", std::path::Path::new(s))
}

// ---------------------------------------------------------------------------
// Numerals
// ---------------------------------------------------------------------------

/// The decimal numeral of a number.
pub fn decimal_u64(n: u64) -> (out: String)
    ensures
        out@ == decimal(n as nat),
    decreases n,
{
    let b: u8 = 48 + (n % 10) as u8;
    let mut out = if n < 10 {
        String::new()
    } else {
        decimal_u64(n / 10)
    };
    out.push(b as char);
    assert(out@ =~= decimal(n as nat));
    out
}

/// The decimal numeral of a number that may be negative.
pub fn decimal_i64(n: i64) -> (out: String)
    ensures
        out@ == signed_decimal(n as int),
{
    if n < 0 {
        let magnitude: u64 = if n == i64::MIN {
            9223372036854775808
        } else {
            (-n) as u64
        };
        let mut out = "-".to_string();
        proof {
            reveal_strlit("-");
            assert("-"@ =~= seq!['-']);
        }
        out.append(decimal_u64(magnitude).as_str());
        out
    } else {
        decimal_u64(n as u64)
    }
}

/// The numeral of `n`, with leading zeros up to a width of two.
pub fn padded_two(n: u64) -> (out: String)
    ensures
        out@ == two_digits(n as nat),
{
    if n < 10 {
        let mut out = "0".to_string();
        proof {
            reveal_strlit("0");
            assert("0"@ =~= seq!['0']);
        }
        out.append(decimal_u64(n).as_str());
        out
    } else {
        decimal_u64(n)
    }
}

proof fn lemma_digits_value_prefix(s: Seq<char>, i: int)
    requires
        0 <= i <= s.len(),
    ensures
        digits_value(s.take(i)) <= digits_value(s),
    decreases s.len() - i,
{
    if i < s.len() {
        lemma_digits_value_prefix(s, i + 1);
        assert(s.take(i + 1).drop_last() =~= s.take(i));
    } else {
        assert(s.take(i) =~= s);
    }
}

/// What a string reads as a number of at most `max`.
pub fn parse_number(s: &str, max: u64) -> (out: Option<u64>)
    ensures
        out matches Some(n) ==> parsed_number(s@, max as nat) == Some(n as nat),
        out is None ==> parsed_number(s@, max as nat) is None,
{
    let text = chars_of(s);
    let start: usize = if text.len() > 0 && text[0] == '+' {
        1
    } else {
        0
    };
    let ghost digits = unsigned_part(s@);
    assert(digits =~= s@.skip(start as int));
    if start == text.len() {
        return None;
    }
    let mut value: u64 = 0;
    let mut i: usize = start;
    assert(digits.take(0) =~= Seq::<char>::empty());
    while i < text.len()
        invariant
            text@ == s@,
            start <= i <= text.len(),
            digits == unsigned_part(s@),
            digits == s@.skip(start as int),
            digits.len() > 0,
            value == digits_value(digits.take(i - start)),
            value <= max,
            forall|j: int| 0 <= j < i - start ==> is_digit(#[trigger] digits[j]),
        decreases text.len() - i,
    {
        let c = text[i];
        assert(digits[i - start] == c);
        if !('0' <= c && c <= '9') {
            assert(!is_digit(digits[i - start]));
            return None;
        }
        let d: u64 = (c as u32 - 48) as u64;
        proof {
            assert(digits.take(i - start + 1).drop_last() =~= digits.take(i - start));
            assert(digits_value(digits.take(i - start + 1)) == value * 10 + d);
            lemma_digits_value_prefix(digits, i - start + 1);
        }
        if value > (u64::MAX - d) / 10 || value * 10 + d > max {
            return None;
        }
        value = value * 10 + d;
        i += 1;
    }
    assert(digits.take(i - start) =~= digits);
    Some(value)
}

/// What is wrong with digits from position `i` on, as a number of at most
/// `max`: the first character that is no digit, or makes the number too large.
pub open spec fn digits_flaw(digits: Seq<char>, max: nat, i: int) -> Seq<char>
    decreases digits.len() - i,
{
    if i < 0 || i >= digits.len() || !is_digit(digits[i]) {
        "invalid digit found in string"@
    } else if digits_value(digits.take(i + 1)) > max {
        "number too large to fit in target type"@
    } else {
        digits_flaw(digits, max, i + 1)
    }
}

/// What is wrong with a text that does not read as a number of at most `max`.
pub open spec fn number_flaw(s: Seq<char>, max: nat) -> Seq<char> {
    if s.len() == 0 {
        "cannot parse integer from empty string"@
    } else {
        digits_flaw(unsigned_part(s), max, 0)
    }
}

/// What is wrong with a string that does not read as a number of at most
/// `max`.
pub fn find_number_flaw(s: &str, max: u64) -> (flaw: String)
    ensures
        flaw@ == number_flaw(s@, max as nat),
{
    let text = chars_of(s);
    if text.len() == 0 {
        return "cannot parse integer from empty string".to_string();
    }
    let start: usize = if text[0] == '+' {
        1
    } else {
        0
    };
    let ghost digits = unsigned_part(s@);
    assert(digits =~= s@.skip(start as int));
    let mut value: u64 = 0;
    let mut i: usize = start;
    assert(digits.take(0) =~= Seq::<char>::empty());
    while i < text.len()
        invariant
            text@ == s@,
            start <= i <= text.len(),
            digits == s@.skip(start as int),
            value == digits_value(digits.take(i - start)),
            digits_flaw(digits, max as nat, 0) == digits_flaw(digits, max as nat, i - start),
            number_flaw(s@, max as nat) == digits_flaw(digits, max as nat, 0),
        decreases text.len() - i,
    {
        let c = text[i];
        assert(digits[i - start] == c);
        if !('0' <= c && c <= '9') {
            return "invalid digit found in string".to_string();
        }
        let d: u64 = (c as u32 - 48) as u64;
        proof {
            assert(digits.take(i - start + 1).drop_last() =~= digits.take(i - start));
            assert(digits_value(digits.take(i - start + 1)) == value * 10 + d);
        }
        if value > (u64::MAX - d) / 10 || value * 10 + d > max {
            return "number too large to fit in target type".to_string();
        }
        value = value * 10 + d;
        i += 1;
    }
    "invalid digit found in string".to_string()
}

// ---------------------------------------------------------------------------
// Laws
// ---------------------------------------------------------------------------

/// One character is replaced by another wherever it stands, and nothing else
/// is.
pub proof fn law_character_is_replaced(s: &str, from: char, to: char, out: String)
    requires
        call_ensures(replace_char, (s, from, to), out),
    ensures
        out@.len() == s@.len(),
        forall|i: int|
            0 <= i < s@.len() ==> (s@[i] == from ==> #[trigger] out@[i] == to) && (s@[i] != from
                ==> out@[i] == s@[i]),
{
}

/// A character is trimmed from the end of a text as often as it stands there,
/// and the rest stays.
pub proof fn law_end_is_trimmed(s: &str, c: char, out: String)
    requires
        call_ensures(trim_end, (s, c), out),
    ensures
        out@.len() <= s@.len(),
        out@ == s@.take(out@.len() as int),
        out@.len() > 0 ==> out@.last() != c,
        forall|i: int| out@.len() <= i < s@.len() ==> #[trigger] s@[i] == c,
{
    lemma_end_trimmed(s@, c);
    if out@.len() > 0 {
        assert(out@.last() == s@[out@.len() - 1]);
    }
}

/// Capital letters become small ones, and nothing else changes.
pub proof fn law_letters_become_small(s: &str, out: String)
    requires
        call_ensures(ascii_lower, (s,), out),
    ensures
        out@.len() == s@.len(),
        forall|i: int|
            0 <= i < s@.len() ==> ('A' <= s@[i] <= 'Z' ==> #[trigger] out@[i] as u32 == s@[i] as u32
                + 32) && (!('A' <= s@[i] <= 'Z') ==> out@[i] == s@[i]),
{
    assert forall|i: int| 0 <= i < s@.len() implies ('A' <= s@[i] <= 'Z' ==> #[trigger] out@[i]
        as u32 == s@[i] as u32 + 32) && (!('A' <= s@[i] <= 'Z') ==> out@[i] == s@[i]) by {
        assert(out@[i] == ascii_lower_char(s@[i]));
    }
}

/// A text holds another exactly if it is made of something, that text, and
/// something else.
pub proof fn law_text_is_held(
    s: &str,
    pat: &str,
    found: bool,
    before: Seq<char>,
    after: Seq<char>,
)
    requires
        call_ensures(contains_str, (s, pat), found),
    ensures
        s@ == before + pat@ + after ==> found,
        found ==> exists|a: Seq<char>, b: Seq<char>| s@ == #[trigger] (a + pat@ + b),
{
    if s@ == before + pat@ + after {
        let n = before.len() as int;
        assert(s@.subrange(n, n + pat@.len()) =~= pat@);
        assert(occurs_at(s@, pat@, n));
    }
    if found {
        let i = choose|i: int| occurs_at(s@, pat@, i);
        let (a, b) = (s@.take(i), s@.skip(i + pat@.len()));
        assert(s@ =~= s@.take(i) + s@.subrange(i, i + pat@.len()) + b);
        assert(s@ == a + pat@ + b);
    }
}

proof fn lemma_decimal_start(n: nat)
    ensures
        n > 0 ==> decimal(n)[0] != '0',
        n < 10 ==> decimal(n).len() == 1,
        10 <= n < 100 ==> decimal(n).len() == 2,
    decreases n,
{
    if n >= 10 {
        lemma_decimal_start(n / 10);
        lemma_decimal_value(n / 10);
    }
}

/// The numeral of a number has digits only, reads as the number, and does not
/// begin with a zero, unless the number is zero.
pub proof fn law_numeral(n: u64, out: String)
    requires
        call_ensures(decimal_u64, (n,), out),
    ensures
        out@.len() > 0,
        forall|i: int| 0 <= i < out@.len() ==> '0' <= #[trigger] out@[i] <= '9',
        digits_value(out@) == n,
        n > 0 ==> out@[0] != '0',
        n == 0 ==> out@ == seq!['0'],
{
    lemma_decimal_value(n as nat);
    lemma_decimal_start(n as nat);
    assert forall|i: int| 0 <= i < out@.len() implies '0' <= #[trigger] out@[i] <= '9' by {
        assert(is_digit(decimal(n as nat)[i]));
    }
    if n == 0 {
        assert(out@ =~= seq!['0']);
    }
}

/// The numeral of a negative number is that of its opposite behind a minus
/// sign; that of any other has none.
pub proof fn law_signed_numeral(n: i64, out: String)
    requires
        call_ensures(decimal_i64, (n,), out),
    ensures
        n >= 0 ==> out@ == decimal(n as nat),
        n < 0 ==> out@.len() > 0 && out@[0] == '-' && out@.skip(1) == decimal((-n) as nat),
{
    if n < 0 {
        assert(out@.skip(1) =~= decimal((-n) as nat));
    }
}

/// A padded numeral has at least two digits: a number of one digit has a zero
/// before it, and any other is as it is.
pub proof fn law_padded_numeral(n: u64, out: String)
    requires
        call_ensures(padded_two, (n,), out),
    ensures
        n < 100 ==> out@.len() == 2,
        n < 10 ==> out@[0] == '0' && out@.skip(1) == decimal(n as nat),
        n >= 10 ==> out@ == decimal(n as nat),
{
    lemma_decimal_start(n as nat);
    if n < 10 {
        assert(out@.skip(1) =~= decimal(n as nat));
    }
}

/// Which texts are read as a number of at most `max`: the numeral of such a
/// number, also behind a plus sign; but neither the numeral of a larger one, nor
/// an empty text, nor one with anything but digits behind its first character.
pub proof fn law_number_is_read(s: &str, max: u64, out: Option<u64>, n: nat)
    requires
        call_ensures(parse_number, (s, max), out),
    ensures
        s@ == decimal(n) || s@ == seq!['+'] + decimal(n) ==> if n <= max {
            out == Some(n as u64)
        } else {
            out is None
        },
        s@.len() == 0 ==> out is None,
        forall|i: int| 0 < i < s@.len() && !('0' <= #[trigger] s@[i] <= '9') ==> out is None,
        out matches Some(value) ==> value <= max && digits_value(
            if s@[0] == '+' {
                s@.skip(1)
            } else {
                s@
            },
        ) == value,
{
    lemma_decimal_value(n);
    assert(is_digit(decimal(n)[0]));
    if s@ == seq!['+'] + decimal(n) {
        assert(s@.skip(1) =~= decimal(n));
    }
    assert forall|i: int|
        0 < i < s@.len() && !('0' <= #[trigger] s@[i] <= '9') implies out is None by {
        let digits = unsigned_part(s@);
        if s@[0] == '+' {
            assert(digits[i - 1] == s@[i]);
        } else {
            assert(digits[i] == s@[i]);
        }
    }
}

/// What is said of a text that is no number: that it is empty, that it is too
/// large if it is the numeral of a number that does not fit, and that a
/// character of it is no digit if already the first one is none.
pub proof fn law_number_flaw(s: &str, max: u64, flaw: String, n: nat)
    requires
        call_ensures(find_number_flaw, (s, max), flaw),
    ensures
        s@.len() == 0 ==> flaw@ == "cannot parse integer from empty string"@,
        s@ == decimal(n) && n > max ==> flaw@ == "number too large to fit in target type"@,
        s@.len() > 0 && s@[0] != '+' && !('0' <= s@[0] <= '9') ==> flaw@
            == "invalid digit found in string"@,
{
    if s@ == decimal(n) && n > max {
        lemma_decimal_value(n);
        assert(is_digit(s@[0]));
        lemma_too_large(s@, max as nat, 0);
    }
}

proof fn lemma_too_large(digits: Seq<char>, max: nat, i: int)
    requires
        0 <= i < digits.len(),
        forall|j: int| 0 <= j < digits.len() ==> is_digit(#[trigger] digits[j]),
        digits_value(digits) > max,
    ensures
        digits_flaw(digits, max, i) == "number too large to fit in target type"@,
    decreases digits.len() - i,
{
    if digits_value(digits.take(i + 1)) <= max {
        if i + 1 == digits.len() {
            assert(digits.take(i + 1) =~= digits);
        } else {
            lemma_too_large(digits, max, i + 1);
        }
    }
}

/// A text is replaced where it first stands, and then in what follows; a text
/// in which it does not stand stays as it is.
pub proof fn law_text_is_replaced(
    before: Seq<char>,
    rest: &str,
    s: &str,
    pat: &str,
    with: &str,
    rest_out: String,
    out: String,
)
    requires
        pat@.len() > 0,
        call_ensures(replace_str, (s, pat, with), out),
        call_ensures(replace_str, (rest, pat, with), rest_out),
    ensures
        s@ == before + pat@ + rest@ && (forall|i: int|
            0 <= i < before.len() ==> !#[trigger] occurs_at(s@, pat@, i)) ==> out@ == before + with@
            + rest_out@,
        (forall|i: int| !#[trigger] occurs_at(s@, pat@, i)) ==> out@ == s@,
{
    if s@ == before + pat@ + rest@ && (forall|i: int|
        0 <= i < before.len() ==> !#[trigger] occurs_at(s@, pat@, i)) {
        let n = before.len() as int;
        lemma_replaced_from(s@, pat@, with@, n);
        let tail = s@.skip(n);
        assert(tail =~= pat@ + rest@);
        assert(tail.subrange(0, pat@.len() as int) =~= pat@);
        assert(tail.skip(pat@.len() as int) =~= rest@);
        assert(s@.take(n) =~= before);
        assert(out@ =~= before + with@ + rest_out@);
    }
    if forall|i: int| !#[trigger] occurs_at(s@, pat@, i) {
        lemma_replaced_from(s@, pat@, with@, s@.len() as int);
        assert(s@.skip(s@.len() as int) =~= Seq::<char>::empty());
        assert(out@ =~= s@);
    }
}

proof fn lemma_replaced_from(s: Seq<char>, pat: Seq<char>, with: Seq<char>, n: int)
    requires
        pat.len() > 0,
        0 <= n <= s.len(),
        forall|i: int| 0 <= i < n ==> !#[trigger] occurs_at(s, pat, i),
    ensures
        replaced(s, pat, with) == s.take(n) + replaced(s.skip(n), pat, with),
    decreases n,
{
    if n == 0 {
        assert(s.skip(0) =~= s);
        assert(s.take(0) + replaced(s, pat, with) =~= replaced(s, pat, with));
    } else {
        let rest = s.skip(1);
        assert(!occurs_at(s, pat, 0));
        assert forall|i: int| 0 <= i < n - 1 implies !#[trigger] occurs_at(rest, pat, i) by {
            if occurs_at(rest, pat, i) {
                assert(rest.subrange(i, i + pat.len()) =~= s.subrange(i + 1, i + 1 + pat.len()));
                assert(occurs_at(s, pat, i + 1));
            }
        }
        lemma_replaced_from(rest, pat, with, n - 1);
        assert(rest.skip(n - 1) =~= s.skip(n));
        assert(seq![s[0]] + (rest.take(n - 1) + replaced(s.skip(n), pat, with)) =~= s.take(n)
            + replaced(s.skip(n), pat, with));
    }
}

} // verus!
