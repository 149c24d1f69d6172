//! Text helpers shared by the compiler phases: a canonical string for each
//! character sequence, character classes, ASCII case folding and decimal
//! numerals.
use vstd::prelude::*;
use vstd::string::StrSliceExecFns;
use vstd::string::StringExecFns;

verus! {

/// The canonical `String` whose characters are `s`. Models of the compiler's
/// data keep strings as character sequences; this turns one back into a string
/// where a model needs a value of the executable type.
pub open spec fn canon(s: Seq<char>) -> String {
    choose|t: String| t@ == s
}

/// Every string is described by its canonical representative.
pub proof fn lemma_canon(x: String)
    ensures
        canon(x@)@ == x@,
{
}

/// `c` has the Unicode `Alphabetic` property (as `char::is_alphabetic` decides it).
pub uninterp spec fn alphabetic(c: char) -> bool;

/// Calls `char::is_alphabetic`. Its result is the Unicode `Alphabetic` property of
/// `c`, a fixed table of the standard library: this contract names that result
/// `alphabetic(c)` and says nothing more of which characters have it.
#[verifier::external_body]
pub(crate) fn is_alphabetic(c: char) -> (r: bool)
    ensures
        r == alphabetic(c),
{
    c.is_alphabetic()
}

/// A decimal digit `0`-`9` (what `char::is_digit(10)` accepts).
pub open spec fn is_digit(c: char) -> bool {
    '0' <= c && c <= '9'
}

pub fn is_digit_exec(c: char) -> (r: bool)
    ensures
        r == is_digit(c),
{
    '0' <= c && c <= '9'
}

/// The code of `c` after ASCII lower-casing; other characters keep their code.
pub open spec fn ascii_lower(c: char) -> int {
    if 'A' <= c && c <= 'Z' {
        (c as int) + 32
    } else {
        c as int
    }
}

/// The two sequences are equal once ASCII letters are lower-cased.
pub open spec fn eq_ignore_ascii_case(a: Seq<char>, b: Seq<char>) -> bool {
    &&& a.len() == b.len()
    &&& forall|i: int| 0 <= i < a.len() ==> #[trigger] ascii_lower(a[i]) == ascii_lower(b[i])
}

fn ascii_lower_exec(c: char) -> (r: u32)
    ensures
        r == ascii_lower(c),
{
    if 'A' <= c && c <= 'Z' {
        (c as u32) + 32
    } else {
        c as u32
    }
}

/// Compares `a` with `b` ignoring the case of ASCII letters.
pub fn string_eq_ignore_ascii_case(a: &String, b: &str) -> (r: bool)
    ensures
        r == eq_ignore_ascii_case(a@, b@),
{
    let n: usize = a.as_str().unicode_len();
    let m: usize = b.unicode_len();
    if n != m {
        return false;
    }
    let mut i: usize = 0;
    while i < n
        invariant
            n == a@.len(),
            m == b@.len(),
            n == m,
            i <= n,
            forall|j: int| 0 <= j < i ==> #[trigger] ascii_lower(a@[j]) == ascii_lower(b@[j]),
        decreases n - i,
    {
        let x: char = a.as_str().get_char(i);
        let y: char = b.get_char(i);
        if ascii_lower_exec(x) != ascii_lower_exec(y) {
            return false;
        }
        i = i + 1;
    }
    true
}

/// Whether two strings hold the same characters.
pub fn string_equal(a: &String, b: &String) -> (r: bool)
    ensures
        r == (a@ == b@),
{
    *a == *b
}

/// A `String` holding the characters of the literal `s`.
pub fn string_of(s: &str) -> (r: String)
    ensures
        r@ == s@,
{
    String::from_str(s)
}

/// The value of one decimal digit.
pub open spec fn digit_value(c: char) -> nat {
    ((c as int) - ('0' as int)) as nat
}

/// The character of the digit `d < 10`.
pub open spec fn digit_char(d: nat) -> char {
    ((d + ('0' as int)) as u32) as char
}

/// All characters of `s` are decimal digits.
pub open spec fn all_digits(s: Seq<char>) -> bool {
    forall|i: int| 0 <= i < s.len() ==> is_digit(#[trigger] s[i])
}

/// The number that the digits `s` denote, most significant first.
pub open spec fn decimal_value(s: Seq<char>) -> nat
    decreases s.len(),
{
    if s.len() == 0 {
        0
    } else {
        decimal_value(s.drop_last()) * 10 + digit_value(s.last())
    }
}

/// The decimal numeral of `n`, without leading zeros (`0` for zero).
pub open spec fn decimal_text(n: nat) -> Seq<char>
    decreases n,
{
    if n < 10 {
        seq![digit_char(n)]
    } else {
        decimal_text(n / 10).push(digit_char(n % 10))
    }
}

/// Reads a numeral: `Some` exactly when `s` is a non-empty run of decimal digits
/// whose value fits in a `u64`, with that value.
pub fn parse_decimal(s: &String) -> (r: Option<u64>)
    ensures
        r is Some <==> (s@.len() > 0 && all_digits(s@) && decimal_value(s@) <= u64::MAX),
        r matches Some(v) ==> v == decimal_value(s@),
{
    let n: usize = s.as_str().unicode_len();
    if n == 0 {
        return None;
    }
    let mut value: u64 = 0;
    let mut i: usize = 0;
    while i < n
        invariant
            n == s@.len(),
            i <= n,
            all_digits(s@.take(i as int)),
            value == decimal_value(s@.take(i as int)),
        decreases n - i,
    {
        let c: char = s.as_str().get_char(i);
        assert(s@.take(i as int + 1).drop_last() =~= s@.take(i as int));
        if !is_digit_exec(c) {
            proof {
                assert(!is_digit(s@[i as int]));
            }
            return None;
        }
        let d: u64 = ((c as u32) - ('0' as u32)) as u64;
        if value > (u64::MAX - d) / 10 {
            proof {
                assert(s@.take(i as int + 1).last() == c);
                assert(value * 10 + d > u64::MAX) by (nonlinear_arith)
                    requires
                        value > (u64::MAX - d) / 10,
                        d <= 9,
                ;
                if all_digits(s@) {
                    lemma_decimal_value_grows(s@, i as int + 1);
                }
            }
            return None;
        }
        value = value * 10 + d;
        i = i + 1;
        assert(all_digits(s@.take(i as int)));
    }
    assert(s@.take(n as int) =~= s@);
    Some(value)
}

/// A longer prefix of digits never has a smaller value.
pub proof fn lemma_decimal_value_grows(s: Seq<char>, k: int)
    requires
        0 <= k <= s.len(),
        all_digits(s),
    ensures
        decimal_value(s.take(k)) <= decimal_value(s),
    decreases s.len(),
{
    if k < s.len() {
        assert(s.drop_last().take(k) =~= s.take(k));
        assert forall|i: int| 0 <= i < s.drop_last().len() implies is_digit(
            #[trigger] s.drop_last()[i],
        ) by {
            assert(s.drop_last()[i] == s[i]);
        }
        lemma_decimal_value_grows(s.drop_last(), k);
    } else {
        assert(s.take(k) =~= s);
    }
}

proof fn lemma_digit_char(d: nat)
    requires
        d < 10,
    ensures
        digit_value(digit_char(d)) == d,
        is_digit(digit_char(d)),
{
    let x: u32 = (d + ('0' as int)) as u32;
    assert(x as char as int == x as int);
}

/// A one-character string holding the digit `d`.
fn digit_string(d: u64) -> (r: String)
    requires
        d < 10,
    ensures
        r@ == seq![digit_char(d as nat)],
{
    proof {
        reveal_strlit("0");
        reveal_strlit("1");
        reveal_strlit("2");
        reveal_strlit("3");
        reveal_strlit("4");
        reveal_strlit("5");
        reveal_strlit("6");
        reveal_strlit("7");
        reveal_strlit("8");
        reveal_strlit("9");
    }
    let r = if d == 0 {
        String::from_str("0")
    } else if d == 1 {
        String::from_str("1")
    } else if d == 2 {
        String::from_str("2")
    } else if d == 3 {
        String::from_str("3")
    } else if d == 4 {
        String::from_str("4")
    } else if d == 5 {
        String::from_str("5")
    } else if d == 6 {
        String::from_str("6")
    } else if d == 7 {
        String::from_str("7")
    } else if d == 8 {
        String::from_str("8")
    } else {
        String::from_str("9")
    };
    r
}

/// The decimal numeral of `n`.
pub fn decimal_string(n: u64) -> (r: String)
    ensures
        r@ == decimal_text(n as nat),
    decreases n,
{
    if n < 10 {
        digit_string(n)
    } else {
        let mut r = decimal_string(n / 10);
        let d = digit_string(n % 10);
        r.append(d.as_str());
        r
    }
}

/// The numeral of a number reads back as that number.
pub proof fn lemma_decimal_round_trip(n: nat)
    ensures
        decimal_value(decimal_text(n)) == n,
        all_digits(decimal_text(n)),
        decimal_text(n).len() > 0,
    decreases n,
{
    if n < 10 {
        lemma_digit_char(n);
        let t = decimal_text(n);
        assert(t.drop_last() =~= Seq::<char>::empty());
        assert(decimal_value(t.drop_last()) == 0);
    } else {
        lemma_decimal_round_trip(n / 10);
        let t = decimal_text(n);
        assert(t.drop_last() =~= decimal_text(n / 10));
        lemma_digit_char(n % 10);
        assert(t.last() == digit_char(n % 10));
        assert(decimal_value(t) == decimal_value(t.drop_last()) * 10 + digit_value(t.last()));
        assert forall|i: int| 0 <= i < t.len() implies is_digit(#[trigger] t[i]) by {
            if i < t.len() - 1 {
                assert(t[i] == decimal_text(n / 10)[i]);
            }
        }
    }
}

// ---------------------------------------------------------------------------
// The syntax of a float numeral, as the standard library reads one (the
// grammar documented for `FromStr` of the float types, taken without regard
// to the case of ASCII letters):
//   Float  ::= Sign? ( 'inf' | 'infinity' | 'nan' | Number )
//   Number ::= ( Digit+ | Digit+ '.' Digit* | Digit* '.' Digit+ ) Exp?
//   Exp    ::= 'e' Sign? Digit+
// ---------------------------------------------------------------------------

/// The first position in `lo..hi` that holds `a` or `b`, or `hi`.
pub open spec fn find_either(s: Seq<char>, a: char, b: char, lo: int, hi: int) -> int
    decreases hi - lo,
{
    if lo < hi && s[lo] != a && s[lo] != b {
        find_either(s, a, b, lo + 1, hi)
    } else {
        lo
    }
}

/// `s[lo..hi]` is digits, optionally followed by a point and more digits, with
/// at least one digit in all.
pub open spec fn mantissa_syntax(s: Seq<char>, lo: int, hi: int) -> bool {
    let p = find_either(s, '.', '.', lo, hi);
    &&& all_digits(s.subrange(lo, p))
    &&& (p == hi || all_digits(s.subrange(p + 1, hi)))
    &&& (p > lo || p + 1 < hi)
}

/// `s[lo..hi]` is an optional sign and at least one digit.
pub open spec fn exponent_syntax(s: Seq<char>, lo: int, hi: int) -> bool {
    let d = if lo < hi && (s[lo] == '+' || s[lo] == '-') {
        lo + 1
    } else {
        lo
    };
    d < hi && all_digits(s.subrange(d, hi))
}

/// `s[lo..hi]` is `inf`, `infinity` or `nan` in any ASCII case, or a mantissa
/// with an optional exponent after `e` or `E`.
pub open spec fn unsigned_float_syntax(s: Seq<char>, lo: int, hi: int) -> bool {
    let e = find_either(s, 'e', 'E', lo, hi);
    ||| eq_ignore_ascii_case(s.subrange(lo, hi), "inf"@)
    ||| eq_ignore_ascii_case(s.subrange(lo, hi), "infinity"@)
    ||| eq_ignore_ascii_case(s.subrange(lo, hi), "nan"@)
    ||| mantissa_syntax(s, lo, e) && (e == hi || exponent_syntax(s, e + 1, hi))
}

/// `s` is a float numeral: an optional sign, then an unsigned float.
pub open spec fn float_syntax(s: Seq<char>) -> bool {
    let lo = if s.len() > 0 && (s[0] == '+' || s[0] == '-') {
        1int
    } else {
        0int
    };
    unsigned_float_syntax(s, lo, s.len() as int)
}

fn find_either_exec(s: &String, a: char, b: char, lo: usize, hi: usize) -> (r: usize)
    requires
        lo <= hi <= s@.len(),
    ensures
        r == find_either(s@, a, b, lo as int, hi as int),
        lo <= r <= hi,
{
    let mut i = lo;
    while i < hi && s.as_str().get_char(i) != a && s.as_str().get_char(i) != b
        invariant
            lo <= i <= hi,
            hi <= s@.len(),
            find_either(s@, a, b, lo as int, hi as int) == find_either(s@, a, b, i as int, hi as int),
        decreases hi - i,
    {
        i = i + 1;
    }
    i
}

fn digits_between(s: &String, lo: usize, hi: usize) -> (r: bool)
    requires
        lo <= hi <= s@.len(),
    ensures
        r == all_digits(s@.subrange(lo as int, hi as int)),
{
    let mut i = lo;
    while i < hi
        invariant
            lo <= i <= hi,
            hi <= s@.len(),
            forall|j: int| lo <= j < i ==> is_digit(#[trigger] s@[j]),
        decreases hi - i,
    {
        if !is_digit_exec(s.as_str().get_char(i)) {
            assert(!is_digit(s@.subrange(lo as int, hi as int)[i - lo]));
            return false;
        }
        i = i + 1;
    }
    assert forall|j: int| 0 <= j < hi - lo implies is_digit(#[trigger] s@.subrange(lo as int, hi as int)[j]) by {
        assert(is_digit(s@[lo + j]));
    }
    true
}

fn range_eq_ignore_ascii_case(s: &String, lo: usize, hi: usize, w: &str) -> (r: bool)
    requires
        lo <= hi <= s@.len(),
    ensures
        r == eq_ignore_ascii_case(s@.subrange(lo as int, hi as int), w@),
{
    let m: usize = w.unicode_len();
    if hi - lo != m {
        return false;
    }
    let mut i: usize = 0;
    while i < m
        invariant
            m == w@.len(),
            hi - lo == m,
            lo <= hi <= s@.len(),
            i <= m,
            forall|j: int| 0 <= j < i ==> ascii_lower(#[trigger] s@[lo + j]) == ascii_lower(w@[j]),
        decreases m - i,
    {
        if ascii_lower_exec(s.as_str().get_char(lo + i)) != ascii_lower_exec(w.get_char(i)) {
            assert(s@.subrange(lo as int, hi as int)[i as int] == s@[lo + i]);
            return false;
        }
        i = i + 1;
    }
    assert forall|j: int| 0 <= j < m implies #[trigger] ascii_lower(
        s@.subrange(lo as int, hi as int)[j],
    ) == ascii_lower(w@[j]) by {
        assert(s@.subrange(lo as int, hi as int)[j] == s@[lo + j]);
    }
    true
}

/// Whether `s` is a float numeral (see `float_syntax`).
pub fn is_float_numeral(s: &String) -> (r: bool)
    ensures
        r == float_syntax(s@),
{
    let n: usize = s.as_str().unicode_len();
    let lo: usize = if n > 0 && (s.as_str().get_char(0) == '+' || s.as_str().get_char(0) == '-') {
        1
    } else {
        0
    };
    if range_eq_ignore_ascii_case(s, lo, n, "inf") || range_eq_ignore_ascii_case(s, lo, n, "infinity")
        || range_eq_ignore_ascii_case(s, lo, n, "nan") {
        return true;
    }
    let e = find_either_exec(s, 'e', 'E', lo, n);
    let p = find_either_exec(s, '.', '.', lo, e);
    let mantissa = digits_between(s, lo, p) && (p == e || digits_between(s, p + 1, e)) && (p > lo
        || p + 1 < e);
    if !mantissa {
        return false;
    }
    if e == n {
        return true;
    }
    let d: usize = if e + 1 < n && (s.as_str().get_char(e + 1) == '+' || s.as_str().get_char(e + 1) == '-') {
        e + 2
    } else {
        e + 1
    };
    d < n && digits_between(s, d, n)
}

} // verus!
