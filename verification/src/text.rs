//! Character-level helpers: trimming, splitting, and decimal numbers.
use vstd::prelude::*;
use vstd::string::{StrSliceExecFns, StringExecFns};

verus! {

/// `String::push`: appends the given character to the end of the string.
pub assume_specification[ std::string::String::push ](s: &mut String, c: char)
    ensures
        final(s)@ == old(s)@.push(c),
;

/// The views of a sequence of strings.
pub open spec fn texts(v: Seq<String>) -> Seq<Seq<char>> {
    v.map_values(|s: String| s@)
}

/// The view of an optional string.
pub open spec fn text_of(s: Option<String>) -> Option<Seq<char>> {
    match s {
        Some(t) => Some(t@),
        None => None,
    }
}

/// The characters with the Unicode property `White_Space`.
pub open spec fn is_white_space(c: char) -> bool {
    ||| '\u{9}' <= c <= '\u{d}'
    ||| c == ' '
    ||| c == '\u{85}'
    ||| c == '\u{a0}'
    ||| c == '\u{1680}'
    ||| '\u{2000}' <= c <= '\u{200a}'
    ||| '\u{2028}' <= c <= '\u{2029}'
    ||| c == '\u{202f}'
    ||| c == '\u{205f}'
    ||| c == '\u{3000}'
}

/// `s` without its leading white space.
pub open spec fn without_leading(s: Seq<char>) -> Seq<char>
    decreases s.len(),
{
    if s.len() > 0 && is_white_space(s[0]) {
        without_leading(s.skip(1))
    } else {
        s
    }
}

/// `s` without its trailing white space.
pub open spec fn without_trailing(s: Seq<char>) -> Seq<char>
    decreases s.len(),
{
    if s.len() > 0 && is_white_space(s.last()) {
        without_trailing(s.drop_last())
    } else {
        s
    }
}

/// `s` without white space at either end.
pub open spec fn trimmed(s: Seq<char>) -> Seq<char> {
    without_trailing(without_leading(s))
}

/// The parts of `s` between occurrences of `sep`; there is always at least one part.
pub open spec fn split(s: Seq<char>, sep: char) -> Seq<Seq<char>>
    decreases s.len(),
{
    if s.len() == 0 {
        seq![Seq::<char>::empty()]
    } else {
        let before = split(s.drop_last(), sep);
        if s.last() == sep {
            before.push(Seq::empty())
        } else {
            before.drop_last().push(before.last().push(s.last()))
        }
    }
}

/// The characters of a string, as a vector.
pub fn chars(s: &str) -> (r: Vec<char>)
    ensures
        r@ == s@,
{
    let mut r: Vec<char> = Vec::new();
    for c in it: s.chars()
        invariant
            it.seq() == s@,
            r@ == it.seq().take(it.index() as int),
    {
        r.push(c);
        assert(it.seq().take(it.index() as int + 1) == it.seq().take(it.index() as int).push(c));
    }
    assert(s@.take(s@.len() as int) == s@);
    r
}

/// A problem with its subject and its cause: `what`, the subject, a colon and the cause.
pub fn chained(what: &str, subject: &str, cause: &str) -> (r: String)
    ensures
        r@ == what@ + subject@ + ": "@ + cause@,
{
    let mut r = what.to_owned();
    r.append(subject);
    r.append(": ");
    r.append(cause);
    r
}

/// A problem with its cause: `what`, a colon and the cause.
pub fn because(what: &str, cause: &str) -> (r: String)
    ensures
        r@ == what@ + ": "@ + cause@,
{
    let mut r = what.to_owned();
    r.append(": ");
    r.append(cause);
    r
}

/// Whether two strings hold the same characters.
pub fn same(a: &str, b: &str) -> (r: bool)
    ensures
        r == (a@ == b@),
{
    a.to_owned() == b.to_owned()
}

fn white_space(c: char) -> (r: bool)
    ensures
        r == is_white_space(c),
{
    ('\u{9}' <= c && c <= '\u{d}') || c == ' ' || c == '\u{85}' || c == '\u{a0}' || c == '\u{1680}'
        || ('\u{2000}' <= c && c <= '\u{200a}') || ('\u{2028}' <= c && c <= '\u{2029}') || c
        == '\u{202f}' || c == '\u{205f}' || c == '\u{3000}'
}

/// The text without white space at either end.
pub fn trim(s: &str) -> (r: &str)
    ensures
        r@ == trimmed(s@),
{
    let v = chars(s);
    let mut i: usize = 0;
    assert(s@.skip(0) == s@);
    while i < v.len() && white_space(v[i])
        invariant
            v@ == s@,
            i <= v.len(),
            without_leading(s@) == without_leading(s@.skip(i as int)),
        decreases v.len() - i,
    {
        assert(s@.skip(i as int).skip(1) == s@.skip(i + 1));
        i += 1;
    }
    let ghost t = s@.skip(i as int);
    assert(without_leading(s@) == t);
    let mut j: usize = v.len();
    assert(t.take(j - i) == t);
    while i < j && white_space(v[j - 1])
        invariant
            v@ == s@,
            i <= j <= v.len(),
            t == s@.skip(i as int),
            without_trailing(t) == without_trailing(t.take(j - i)),
        decreases j,
    {
        assert(t.take(j - i).drop_last() == t.take(j - 1 - i));
        j -= 1;
    }
    assert(t.take(j - i) == s@.subrange(i as int, j as int));
    s.substring_char(i, j)
}

/// The parts of a text between occurrences of a separator.
pub fn split_on(s: &str, sep: char) -> (r: Vec<String>)
    ensures
        texts(r@) == split(s@, sep),
{
    let v = chars(s);
    let mut r: Vec<String> = Vec::new();
    let mut part = String::new();
    let mut i: usize = 0;
    assert(texts(r@).push(part@) == split(s@.take(0), sep));
    while i < v.len()
        invariant
            v@ == s@,
            i <= v.len(),
            texts(r@).push(part@) == split(s@.take(i as int), sep),
        decreases v.len() - i,
    {
        let c = v[i];
        proof {
            assert(s@.take(i + 1).drop_last() == s@.take(i as int));
            assert(s@.take(i + 1).last() == c);
            assert(texts(r@).push(part@).last() == part@);
            assert(texts(r@).push(part@).drop_last() == texts(r@));
        }
        let ghost before = texts(r@);
        if c == sep {
            let ghost done = part@;
            r.push(part);
            part = String::new();
            assert(texts(r@) == before.push(done));
        } else {
            part.push(c);
        }
        i += 1;
    }
    let ghost before = texts(r@);
    let ghost last = part@;
    r.push(part);
    proof {
        assert(texts(r@) == before.push(last));
        assert(s@.take(s@.len() as int) == s@);
    }
    r
}

/// Whether `c` is one of the ASCII digits.
pub open spec fn is_digit(c: char) -> bool {
    '0' <= c <= '9'
}

/// Whether every character of `s` is a digit, and there is at least one.
pub open spec fn is_number(s: Seq<char>) -> bool {
    &&& s.len() > 0
    &&& forall|i: int| 0 <= i < s.len() ==> is_digit(#[trigger] s[i])
}

/// The number that a sequence of digits stands for in base ten.
pub open spec fn number(s: Seq<char>) -> nat
    decreases s.len(),
{
    if s.len() == 0 {
        0
    } else {
        number(s.drop_last()) * 10 + (s.last() as nat - '0' as nat) as nat
    }
}

/// The unsigned number that `s` spells: an optional `+`, then digits only, at most `max`.
pub open spec fn unsigned(s: Seq<char>, max: nat) -> Option<nat> {
    let digits = if s.len() > 0 && s[0] == '+' {
        s.skip(1)
    } else {
        s
    };
    if is_number(digits) && number(digits) <= max {
        Some(number(digits))
    } else {
        None
    }
}

/// The signed 32-bit number that `s` spells: an optional sign, then digits only.
pub open spec fn signed_32(s: Seq<char>) -> Option<int> {
    if s.len() > 0 && s[0] == '-' {
        if is_number(s.skip(1)) && number(s.skip(1)) <= 0x8000_0000 {
            Some(-(number(s.skip(1)) as int))
        } else {
            None
        }
    } else {
        match unsigned(s, 0x7fff_ffff) {
            Some(n) => Some(n as int),
            None => None,
        }
    }
}

/// The decimal digits of `n`, without leading zeros.
pub open spec fn decimal(n: nat) -> Seq<char>
    decreases n,
{
    if n < 10 {
        seq![digit_char(n)]
    } else {
        decimal(n / 10).push(digit_char(n % 10))
    }
}

/// The digit for a number below ten.
pub open spec fn digit_char(n: nat) -> char {
    (n + '0' as nat) as char
}

/// The number spelled by the characters from `from` on, if they are digits only, at least one,
/// and the number is at most `max`.
fn parse_digits(v: &Vec<char>, from: usize, max: u64) -> (r: Option<u64>)
    requires
        from <= v.len(),
    ensures
        r matches Some(n) ==> is_number(v@.skip(from as int)) && n == number(v@.skip(from as int))
            && n <= max,
        r is None ==> !(is_number(v@.skip(from as int)) && number(v@.skip(from as int)) <= max),
{
    let ghost s = v@.skip(from as int);
    if from == v.len() {
        return None;
    }
    let mut n: u64 = 0;
    let mut i: usize = from;
    let mut fits: bool = true;
    while i < v.len()
        invariant
            s == v@.skip(from as int),
            from <= i <= v.len(),
            forall|j: int| 0 <= j < i - from ==> is_digit(#[trigger] s[j]),
            fits ==> n == number(s.take(i - from)) && n <= max,
            !fits ==> number(s.take(i - from)) > max,
        decreases v.len() - i,
    {
        let c = v[i];
        assert(s[i - from] == c);
        if c < '0' || c > '9' {
            assert(!is_digit(s[i - from]));
            return None;
        }
        assert(s.take(i - from + 1).drop_last() == s.take(i - from));
        assert(s.take(i - from + 1).last() == c);
        let d: u64 = (c as u32 - '0' as u32) as u64;
        if fits {
            let wide: u128 = n as u128 * 10 + d as u128;
            if wide <= max as u128 {
                n = wide as u64;
            } else {
                fits = false;
            }
        }
        i += 1;
    }
    assert(s.take(s.len() as int) == s);
    if fits {
        Some(n)
    } else {
        None
    }
}

/// The unsigned number that a text spells, if it spells one that is at most `max`.
pub fn parse_unsigned(s: &str, max: u64) -> (r: Option<u64>)
    ensures
        r matches Some(n) ==> unsigned(s@, max as nat) == Some(n as nat),
        r is None ==> unsigned(s@, max as nat) is None,
{
    let v = chars(s);
    if v.len() > 0 && v[0] == '+' {
        parse_digits(&v, 1, max)
    } else {
        assert(s@.skip(0) == s@);
        parse_digits(&v, 0, max)
    }
}

/// The signed 32-bit number that a text spells, if it spells one.
pub fn parse_signed_32(s: &str) -> (r: Option<i32>)
    ensures
        r matches Some(n) ==> signed_32(s@) == Some(n as int),
        r is None ==> signed_32(s@) is None,
{
    let v = chars(s);
    if v.len() > 0 && v[0] == '-' {
        match parse_digits(&v, 1, 0x8000_0000) {
            Some(n) => Some((-(n as i64)) as i32),
            None => None,
        }
    } else {
        match parse_unsigned(s, 0x7fff_ffff) {
            Some(n) => Some(n as i32),
            None => None,
        }
    }
}

fn digit(n: u32) -> (c: char)
    requires
        n < 10,
    ensures
        c == digit_char(n as nat),
{
    match n {
        0 => '0',
        1 => '1',
        2 => '2',
        3 => '3',
        4 => '4',
        5 => '5',
        6 => '6',
        7 => '7',
        8 => '8',
        _ => '9',
    }
}

/// Appends the decimal digits of `n`.
pub fn push_decimal(s: &mut String, n: u32)
    ensures
        final(s)@ == old(s)@ + decimal(n as nat),
    decreases n,
{
    if n < 10 {
        s.push(digit(n));
        assert(s@ == old(s)@ + decimal(n as nat));
    } else {
        push_decimal(s, n / 10);
        let ghost front = s@;
        s.push(digit(n % 10));
        assert(s@ == old(s)@ + decimal(n as nat));
    }
}

/// Parsing the decimal digits of a number gives the number back.
pub proof fn decimal_parses_back(n: nat)
    ensures
        is_number(decimal(n)),
        number(decimal(n)) == n,
    decreases n,
{
    reveal_with_fuel(number, 2);
    if n < 10 {
        assert(decimal(n).drop_last() == Seq::<char>::empty());
        assert(is_digit(decimal(n)[0]));
    } else {
        decimal_parses_back(n / 10);
        let front = decimal(n / 10);
        assert(decimal(n).drop_last() == front);
        assert forall|i: int| 0 <= i < decimal(n).len() implies is_digit(#[trigger] decimal(n)[i]) by {
            if i < front.len() {
                assert(decimal(n)[i] == front[i]);
            }
        }
    }
}

proof fn trailing_is_a_prefix(s: Seq<char>)
    ensures
        without_trailing(s).len() <= s.len(),
        without_trailing(s) == s.take(without_trailing(s).len() as int),
        without_trailing(s).len() > 0 ==> !is_white_space(without_trailing(s).last()),
    decreases s.len(),
{
    if s.len() > 0 && is_white_space(s.last()) {
        trailing_is_a_prefix(s.drop_last());
        let n = without_trailing(s).len() as int;
        assert(s.drop_last().take(n) == s.take(n));
    } else {
        assert(s.take(s.len() as int) == s);
    }
}

proof fn leading_is_gone(s: Seq<char>)
    ensures
        without_leading(s).len() > 0 ==> !is_white_space(without_leading(s)[0]),
    decreases s.len(),
{
    if s.len() > 0 && is_white_space(s[0]) {
        leading_is_gone(s.skip(1));
    }
}

/// A trimmed text neither begins nor ends with white space, so trimming it again changes nothing.
pub proof fn trimming_is_final(s: Seq<char>)
    ensures
        trimmed(s).len() > 0 ==> !is_white_space(trimmed(s)[0]) && !is_white_space(
            trimmed(s).last(),
        ),
        trimmed(trimmed(s)) == trimmed(s),
{
    leading_is_gone(s);
    trailing_is_a_prefix(without_leading(s));
}

/// The parts put together again, with the separator between them.
pub open spec fn rejoined(parts: Seq<Seq<char>>, sep: char) -> Seq<char>
    decreases parts.len(),
{
    if parts.len() == 0 {
        Seq::empty()
    } else if parts.len() == 1 {
        parts[0]
    } else {
        rejoined(parts.drop_last(), sep).push(sep) + parts.last()
    }
}

/// No part of a split text holds the separator, and the parts put together again are the text.
pub proof fn split_loses_nothing(s: Seq<char>, sep: char)
    ensures
        split(s, sep).len() > 0,
        forall|i: int|
            0 <= i < split(s, sep).len() ==> !(#[trigger] split(s, sep)[i]).contains(sep),
        rejoined(split(s, sep), sep) == s,
    decreases s.len(),
{
    if s.len() > 0 {
        let front = s.drop_last();
        let c = s.last();
        split_loses_nothing(front, sep);
        let before = split(front, sep);
        let parts = split(s, sep);
        assert(s == front.push(c));
        if c == sep {
            assert(parts.drop_last() == before);
            assert(parts.last() == Seq::<char>::empty());
            assert forall|i: int| 0 <= i < parts.len() implies !(#[trigger] parts[i]).contains(
                sep,
            ) by {
                if i < before.len() {
                    assert(parts[i] == before[i]);
                }
            }
            assert(rejoined(parts, sep) == s);
        } else {
            let grown = before.last().push(c);
            assert(parts.drop_last() == before.drop_last());
            assert(parts.last() == grown);
            assert forall|i: int| 0 <= i < parts.len() implies !(#[trigger] parts[i]).contains(
                sep,
            ) by {
                if i < before.len() - 1 {
                    assert(parts[i] == before[i]);
                } else {
                    if grown.contains(sep) {
                        let j = choose|j: int| 0 <= j < grown.len() && grown[j] == sep;
                        assert(before[before.len() - 1][j] == sep);
                    }
                }
            }
            assert(rejoined(parts, sep) == s);
        }
    } else {
        let parts = split(s, sep);
        assert(parts[0] == Seq::<char>::empty());
        assert(rejoined(parts, sep) == s);
    }
}

/// White space is exactly what these code points are: the horizontal tab to the carriage return, the
/// space, the next line, and the spaces and separators beyond Latin-1.
pub proof fn white_space_code_points(c: char)
    ensures
        is_white_space(c) <==> {
            let n = c as nat;
            ||| 9 <= n <= 13 || n == 32 || n == 133 || n == 160 || n == 5760
            ||| 8192 <= n <= 8202 || n == 8232 || n == 8233 || n == 8239 || n == 8287 || n == 12288
        },
{
}

/// Trimming keeps one stretch of the text: everything before and after it is white space, and it
/// neither begins nor ends with white space.
pub proof fn trimming_cuts_white_space_only(s: Seq<char>) -> (r: (int, int))
    ensures
        0 <= r.0 <= r.1 <= s.len(),
        trimmed(s) == s.subrange(r.0, r.1),
        forall|i: int| 0 <= i < r.0 ==> is_white_space(#[trigger] s[i]),
        forall|i: int| r.1 <= i < s.len() ==> is_white_space(#[trigger] s[i]),
        r.0 < r.1 ==> !is_white_space(s[r.0]) && !is_white_space(s[r.1 - 1]),
{
    let i = leading_part(s);
    let t = without_leading(s);
    let j = trailing_part(t);
    leading_is_gone(s);
    trailing_is_a_prefix(t);
    assert(t.take(j) == s.subrange(i, i + j));
    assert forall|k: int| i + j <= k < s.len() implies is_white_space(#[trigger] s[k]) by {
        assert(t[k - i] == s[k]);
    }
    if j > 0 {
        assert(t[0] == s[i]);
        assert(trimmed(s).last() == s[i + j - 1]);
    }
    (i, i + j)
}

proof fn leading_part(s: Seq<char>) -> (n: int)
    ensures
        0 <= n <= s.len(),
        without_leading(s) == s.skip(n),
        forall|i: int| 0 <= i < n ==> is_white_space(#[trigger] s[i]),
    decreases s.len(),
{
    if s.len() > 0 && is_white_space(s[0]) {
        let n = leading_part(s.skip(1));
        assert(s.skip(1).skip(n) == s.skip(n + 1));
        assert forall|i: int| 0 <= i < n + 1 implies is_white_space(#[trigger] s[i]) by {
            if i > 0 {
                assert(s.skip(1)[i - 1] == s[i]);
            }
        }
        n + 1
    } else {
        assert(s.skip(0) == s);
        0
    }
}

proof fn trailing_part(s: Seq<char>) -> (n: int)
    ensures
        0 <= n <= s.len(),
        without_trailing(s) == s.take(n),
        forall|i: int| n <= i < s.len() ==> is_white_space(#[trigger] s[i]),
    decreases s.len(),
{
    if s.len() > 0 && is_white_space(s.last()) {
        let n = trailing_part(s.drop_last());
        assert(s.drop_last().take(n) == s.take(n));
        assert forall|i: int| n <= i < s.len() implies is_white_space(#[trigger] s[i]) by {
            if i < s.len() - 1 {
                assert(s.drop_last()[i] == s[i]);
            }
        }
        n
    } else {
        assert(s.take(s.len() as int) == s);
        s.len() as int
    }
}

/// The digits of a number stand for ones, tens, hundreds and so on, the ones last: putting a digit
/// behind a number multiplies it by ten and adds the digit.
pub proof fn digits_have_place_values(s: Seq<char>, c: char, n: nat, d: nat)
    requires
        d < 10,
    ensures
        is_digit(c) <==> 48 <= c as nat <= 57,
        is_number(seq![c]) <==> is_digit(c),
        s.len() > 0 ==> (is_number(s.push(c)) <==> is_number(s) && is_digit(c)),
        !is_number(Seq::<char>::empty()),
        is_digit(c) ==> number(seq![c]) == c as nat - 48,
        is_digit(c) ==> number(s.push(c)) == 10 * number(s) + (c as nat - 48),
        decimal(d) == seq![(48 + d) as char],
        n > 0 ==> decimal(10 * n + d) == decimal(n).push((48 + d) as char),
{
    reveal_with_fuel(number, 2);
    assert(seq![c].drop_last() == Seq::<char>::empty());
    assert(s.push(c).drop_last() == s);
    assert(s.push(c).last() == c);
    assert((10 * n + d) / 10 == n && (10 * n + d) % 10 == d);
    if is_digit(c) {
        assert(is_number(seq![c]));
    }
    if is_number(seq![c]) {
        assert(is_digit(seq![c][0]));
    }
    if s.len() > 0 {
        if is_number(s.push(c)) {
            assert(is_digit(s.push(c)[s.len() as int]));
            assert forall|i: int| 0 <= i < s.len() implies is_digit(#[trigger] s[i]) by {
                assert(s.push(c)[i] == s[i]);
            }
        }
        if is_number(s) && is_digit(c) {
            assert forall|i: int| 0 <= i < s.push(c).len() implies is_digit(
                #[trigger] s.push(c)[i],
            ) by {
                if i < s.len() {
                    assert(s.push(c)[i] == s[i]);
                }
            }
        }
    }
}

/// An unsigned number is read from its decimal digits, with or without a `+` in front, exactly if
/// it is at most the bound. A text that holds anything else than digits behind an optional `+` is
/// read as no number.
pub proof fn unsigned_numbers_are_read(n: nat, max: nat, s: Seq<char>, i: int)
    requires
        0 <= i < s.len(),
        !is_digit(s[i]),
        i > 0 || s[0] != '+',
    ensures
        unsigned(decimal(n), max) == (if n <= max {
            Some(n)
        } else {
            None::<nat>
        }),
        unsigned(seq!['+'] + decimal(n), max) == unsigned(decimal(n), max),
        unsigned(s, max) is None,
        unsigned(Seq::empty(), max) is None,
{
    decimal_parses_back(n);
    assert(is_digit(decimal(n)[0]));
    assert((seq!['+'] + decimal(n)).skip(1) == decimal(n));
    if s[0] == '+' {
        assert(s.skip(1)[i - 1] == s[i]);
    }
}

/// A number that is read is at most the bound, and is the one that the digits stand for.
pub proof fn unsigned_numbers_are_in_bounds(s: Seq<char>, max: nat)
    ensures
        unsigned(s, max) matches Some(n) ==> n <= max && (is_number(s) && number(s) == n || s.len()
            > 0 && s[0] == '+' && is_number(s.skip(1)) && number(s.skip(1)) == n),
        is_number(s) && number(s) <= max ==> unsigned(s, max) == Some(number(s)),
{
    if is_number(s) {
        assert(is_digit(s[0]));
    }
}

/// A signed number is read from its decimal digits, with a `-` in front where it is negative,
/// exactly if it fits in 32 bits.
pub proof fn signed_numbers_are_read(n: nat)
    ensures
        signed_32(decimal(n)) == (if n <= i32::MAX {
            Some(n as int)
        } else {
            None::<int>
        }),
        signed_32(seq!['-'] + decimal(n)) == (if -(n as int) >= i32::MIN {
            Some(-(n as int))
        } else {
            None::<int>
        }),
{
    decimal_parses_back(n);
    assert(is_digit(decimal(n)[0]));
    assert((seq!['-'] + decimal(n)).skip(1) == decimal(n));
}

} // verus!
