use vstd::prelude::*;
use vstd::utf8::is_ascii_chars;

verus! {

/// A fresh `String` holding the characters of `s`.
pub fn string_of(s: &str) -> (r: String)
    ensures
        r@ == s@,
{
    s.to_owned()
}

/// An empty `String`.
pub fn string_new() -> (r: String)
    ensures
        r@ == Seq::<char>::empty(),
{
    String::new()
}

/// Appends `c` to `s`: a wrapper of `String::push`, whose contract (the
/// string grows by that one character) is taken on trust.
#[verifier::external_body]
pub(crate) fn push_char(s: &mut String, c: char)
    ensures
        final(s)@ == old(s)@.push(c),
{
    s.push(c)
}

/// What `str::to_lowercase` gives for a string: the Unicode lowercase mapping
/// of each character, which can take more than one character to write.
pub uninterp spec fn lowercase(s: Seq<char>) -> Seq<char>;

/// The ASCII lowercase form of a character; other characters stay as they are.
pub open spec fn ascii_lower(c: char) -> char {
    if 'A' <= c <= 'Z' {
        ((c as u32) + 32) as char
    } else {
        c
    }
}

/// Every character is ASCII.
pub open spec fn all_ascii(s: Seq<char>) -> bool {
    forall|i: int| 0 <= i < s.len() ==> (s[i] as u32) < 128
}

/// The lowercase form of `s`: a wrapper of `str::to_lowercase`. Its contract,
/// taken on trust, names the result `lowercase(s@)` and states the one fact
/// that the standard library documents plainly for it: on ASCII text it lowers
/// the capitals `A`..`Z` one for one and leaves every other character. What it
/// does beyond ASCII is left unsaid.
#[verifier::external_body]
pub(crate) fn to_lowercase(s: &str) -> (r: String)
    ensures
        r@ == lowercase(s@),
        all_ascii(s@) ==> r@ == s@.map_values(|c: char| ascii_lower(c)),
{
    s.to_lowercase()
}

/// The decimal digits of a natural number, most significant first, without
/// leading zeros ("0" for zero).
pub open spec fn nat_text(n: nat) -> Seq<char>
    decreases n,
{
    if n < 10 {
        seq![digit_char(n)]
    } else {
        nat_text(n / 10).push(digit_char(n % 10))
    }
}

/// The character of a decimal digit.
pub open spec fn digit_char(d: nat) -> char {
    (('0' as u32) + d) as char
}

/// The decimal form of an integer, with a leading `-` when it is negative.
pub open spec fn int_text(i: int) -> Seq<char> {
    if i < 0 {
        seq!['-'] + nat_text((-i) as nat)
    } else {
        nat_text(i as nat)
    }
}

/// The text of a boolean.
pub open spec fn bool_text(b: bool) -> Seq<char> {
    if b {
        "true"@
    } else {
        "false"@
    }
}

/// Appends the decimal digits of `n` to `s`.
fn push_decimal(s: &mut String, n: u64)
    ensures
        final(s)@ == old(s)@ + nat_text(n as nat),
    decreases n,
{
    if n >= 10 {
        push_decimal(s, n / 10);
    }
    let d: u64 = n % 10;
    let c: char = if d == 0 {
        '0'
    } else if d == 1 {
        '1'
    } else if d == 2 {
        '2'
    } else if d == 3 {
        '3'
    } else if d == 4 {
        '4'
    } else if d == 5 {
        '5'
    } else if d == 6 {
        '6'
    } else if d == 7 {
        '7'
    } else if d == 8 {
        '8'
    } else {
        '9'
    };
    assert(c == digit_char(d as nat));
    push_char(s, c);
    proof {
        if n >= 10 {
            assert(nat_text(n as nat) == nat_text((n / 10) as nat).push(digit_char((n % 10) as nat)));
        }
    }
}

/// The decimal form of `i`.
pub fn int_to_string(i: i64) -> (s: String)
    ensures
        s@ == int_text(i as int),
{
    let mut s = string_new();
    if i < 0 {
        push_char(&mut s, '-');
        let m: u64 = (0i128 - (i as i128)) as u64;
        push_decimal(&mut s, m);
    } else {
        push_decimal(&mut s, i as u64);
    }
    s
}

/// The text of a boolean.
pub fn bool_to_string(b: bool) -> (s: String)
    ensures
        s@ == bool_text(b),
{
    if b {
        string_of("true")
    } else {
        string_of("false")
    }
}

/// An ASCII decimal digit.
pub open spec fn is_digit_char(c: char) -> bool {
    '0' <= c <= '9'
}

/// The value of a run of decimal digits.
pub open spec fn digits_value(s: Seq<char>) -> int
    decreases s.len(),
{
    if s.len() == 0 {
        0
    } else {
        digits_value(s.subrange(0, s.len() - 1)) * 10 + (s[s.len() - 1] as int - '0' as int)
    }
}

/// Every character is an ASCII decimal digit.
pub open spec fn all_digits(s: Seq<char>) -> bool {
    forall|i: int| 0 <= i < s.len() ==> is_digit_char(#[trigger] s[i])
}

/// The text after a leading sign, if there is one.
pub open spec fn unsigned_part(s: Seq<char>) -> Seq<char> {
    if s.len() > 0 && (s[0] == '-' || s[0] == '+') {
        s.subrange(1, s.len() as int)
    } else {
        s
    }
}

/// What `str::parse::<i64>` gives: an optional sign (`+` or `-`) followed by
/// at least one ASCII decimal digit, with a value in the range of `i64`.
pub open spec fn parse_i64(s: Seq<char>) -> Option<i64> {
    let body = unsigned_part(s);
    let magnitude = digits_value(body);
    let v = if s.len() > 0 && s[0] == '-' {
        -magnitude
    } else {
        magnitude
    };
    if body.len() > 0 && all_digits(body) && i64::MIN <= v <= i64::MAX {
        Some(v as i64)
    } else {
        None
    }
}

proof fn lemma_digits_value_nonneg(s: Seq<char>)
    requires
        forall|i: int| 0 <= i < s.len() ==> is_digit_char(#[trigger] s[i]),
    ensures
        digits_value(s) >= 0,
    decreases s.len(),
{
    if s.len() > 0 {
        let t = s.subrange(0, s.len() - 1);
        assert(forall|i: int| 0 <= i < t.len() ==> t[i] == s[i]);
        lemma_digits_value_nonneg(t);
    }
}

proof fn lemma_digits_value_grows(s: Seq<char>, k: int)
    requires
        0 <= k <= s.len(),
        forall|i: int| 0 <= i < s.len() ==> is_digit_char(#[trigger] s[i]),
    ensures
        digits_value(s) >= digits_value(s.subrange(0, k)),
    decreases s.len(),
{
    if k < s.len() {
        let t = s.subrange(0, s.len() - 1);
        assert(forall|i: int| 0 <= i < t.len() ==> t[i] == s[i]);
        assert(t.subrange(0, k) =~= s.subrange(0, k));
        lemma_digits_value_grows(t, k);
        lemma_digits_value_nonneg(t);
    } else {
        assert(s.subrange(0, k) =~= s);
    }
}

/// The decimal digits of `n` are a non-empty run of digits whose value is `n`.
pub proof fn lemma_nat_text(n: nat)
    ensures
        nat_text(n).len() > 0,
        all_digits(nat_text(n)),
        digits_value(nat_text(n)) == n,
    decreases n,
{
    let c = digit_char(n % 10);
    assert(c as int == '0' as int + n % 10);
    if n >= 10 {
        lemma_nat_text(n / 10);
        let t = nat_text(n);
        assert(t.subrange(0, t.len() - 1) =~= nat_text(n / 10));
        assert(t[t.len() - 1] == c);
        assert(digits_value(t) == digits_value(nat_text(n / 10)) * 10 + (c as int - '0' as int));
        assert((n / 10) * 10 + n % 10 == n);
    } else {
        assert(n % 10 == n);
        assert(nat_text(n) == seq![c]);
        assert(seq![c].subrange(0, 0) =~= Seq::<char>::empty());
        assert(digits_value(seq![c]) == digits_value(seq![c].subrange(0, 0)) * 10 + (c as int
            - '0' as int));
    }
}

/// Printing an integer and reading the text back gives the integer again.
pub proof fn lemma_int_text_round_trip(i: i64)
    ensures
        parse_i64(int_text(i as int)) == Some(i),
{
    if i < 0 {
        let m = (-i) as nat;
        lemma_nat_text(m);
        let t = seq!['-'] + nat_text(m);
        assert(unsigned_part(t) =~= nat_text(m));
    } else {
        lemma_nat_text(i as nat);
    }
}

/// Reads a decimal integer, as `str::parse::<i64>` does.
pub fn parse_int(s: &str) -> (r: Option<i64>)
    ensures
        r == parse_i64(s@),
{
    if !s.is_ascii() {
        proof {
            let body = unsigned_part(s@);
            let j = choose|j: int| 0 <= j < s@.len() && !('\0' <= #[trigger] s@[j] <= '\u{7f}');
            if s@.len() > 0 && (s@[0] == '-' || s@[0] == '+') {
                assert(j > 0);
                assert(body[j - 1] == s@[j]);
                assert(!is_digit_char(body[j - 1]));
            } else {
                assert(body[j] == s@[j]);
                assert(!is_digit_char(body[j]));
            }
            assert(!all_digits(body));
            assert(parse_i64(s@) is None);
        }
        return None;
    }
    let bytes = s.as_bytes();
    proof {
        vstd::string::is_ascii_spec_bytes(s);
    }
    let n = bytes.len();
    assert(n == s@.len());
    let negative = n > 0 && bytes[0] == 45;
    let signed = n > 0 && (bytes[0] == 45 || bytes[0] == 43);
    let start: usize = if signed {
        1
    } else {
        0
    };
    let ghost body = unsigned_part(s@);
    proof {
        if n > 0 {
            assert(s@[0] as u8 == bytes@[0]);
            assert('\0' <= s@[0] <= '\u{7f}');
        }
    }
    assert(signed == (s@.len() > 0 && (s@[0] == '-' || s@[0] == '+')));
    assert(negative == (s@.len() > 0 && s@[0] == '-'));
    if start == n {
        return None;
    }
    // The magnitude, kept within i64 range: up to 2^63 for a negative value.
    let limit: u64 = if negative {
        9223372036854775808
    } else {
        9223372036854775807
    };
    let mut value: u64 = 0;
    let mut i: usize = start;
    while i < n
        invariant
            start <= i <= n,
            n == s@.len(),
            n == bytes@.len(),
            bytes@ == Seq::new(s@.len(), |k: int| s@[k] as u8),
            is_ascii_chars(s@),
            body == s@.subrange(start as int, n as int),
            body == unsigned_part(s@),
            negative == (s@.len() > 0 && s@[0] == '-'),
            value as int == digits_value(body.subrange(0, i - start)),
            value <= limit,
            limit == (if negative { 9223372036854775808u64 } else { 9223372036854775807u64 }),
            forall|k: int| 0 <= k < i - start ==> is_digit_char(#[trigger] body[k]),
        decreases n - i,
    {
        let b = bytes[i];
        proof {
            assert(body[i - start] == s@[i as int]);
            assert(b == s@[i as int] as u8);
            assert('\0' <= s@[i as int] <= '\u{7f}');
        }
        if b < 48 || b > 57 {
            proof {
                assert(!is_digit_char(body[i - start]));
                assert(!all_digits(body));
                assert(parse_i64(s@) is None);
            }
            return None;
        }
        let d: u64 = (b - 48) as u64;
        assert(d <= 9);
        proof {
            assert(body.subrange(0, i - start + 1).subrange(0, i - start) =~= body.subrange(0, i - start));
            assert(s@[i as int] as int - '0' as int == d);
        }
        if value > (limit - d) / 10 {
            proof {
                assert(forall|k: int| 0 <= k < i - start + 1 ==> is_digit_char(#[trigger] body[k]));
                // The prefix read so far already exceeds the limit; more digits only add.
                if all_digits(body) {
                    lemma_digits_value_grows(body, i - start + 1);
                    assert(digits_value(body.subrange(0, i - start + 1)) == value * 10 + d);
                    assert(value * 10 + d > limit) by (nonlinear_arith)
                        requires
                            value > (limit - d) / 10,
                            d <= 9,
                            limit >= 9,
                    ;
                }
                assert(parse_i64(s@) is None);
            }
            return None;
        }
        assert(value * 10 + d <= limit) by (nonlinear_arith)
            requires
                value <= (limit - d) / 10,
                d <= 9,
                limit >= 9,
        ;
        value = value * 10 + d;
        i = i + 1;
    }
    assert(body.subrange(0, n - start) =~= body);
    if negative {
        if value == 9223372036854775808 {
            Some(-9223372036854775807 - 1)
        } else {
            Some(-(value as i64))
        }
    } else {
        Some(value as i64)
    }
}

/// What the `Debug` form of a string is: the string in double quotes, with
/// some characters escaped.
pub uninterp spec fn debug_str(s: Seq<char>) -> Seq<char>;

/// A printable ASCII character that the `Debug` form of a string writes as
/// it is: from space to `~`, but for `"` and `\\`.
pub open spec fn plain_debug_char(c: char) -> bool {
    ' ' <= c <= '~' && c != '"' && c != '\\'
}

/// The `Debug` form of a string, written out where the string holds only
/// characters that it keeps as they are.
pub open spec fn string_debug(s: Seq<char>) -> Seq<char> {
    if forall|i: int| 0 <= i < s.len() ==> plain_debug_char(#[trigger] s[i]) {
        "\""@ + s + "\""@
    } else {
        debug_str(s)
    }
}

/// The `Debug` form of a string: a wrapper of `format!("{:?}", s)`. Its
/// contract, taken on trust, names the result `debug_str(s@)` and states what
/// the standard library documents for strings of printable ASCII characters
/// other than `"` and `\\`: they are written as they are, between double
/// quotes. How other characters are escaped is left unsaid.
#[verifier::external_body]
pub(crate) fn debug_quoted(s: &str) -> (r: String)
    ensures
        r@ == debug_str(s@),
        (forall|i: int| 0 <= i < s@.len() ==> plain_debug_char(#[trigger] s@[i])) ==> r@ == "\""@
            + s@ + "\""@,
{
    format!("{:?}", s)
}

/// Whether two string slices hold the same characters.
pub fn str_eq(a: &str, b: &str) -> (r: bool)
    ensures
        r == (a@ == b@),
{
    let n = a.unicode_len();
    if n != b.unicode_len() {
        return false;
    }
    let mut i: usize = 0;
    while i < n
        invariant
            n == a@.len(),
            n == b@.len(),
            i <= n,
            forall|j: int| 0 <= j < i ==> a@[j] == b@[j],
        decreases n - i,
    {
        if a.get_char(i) != b.get_char(i) {
            return false;
        }
        i = i + 1;
    }
    assert(a@ =~= b@);
    true
}

} // verus!
