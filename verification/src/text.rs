//! Verified text utilities: decimal integer parsing and printing, boolean
//! parsing, and small string helpers used by the lexer, the assembler and the
//! virtual machine.

use vstd::prelude::*;

verus! {

/// An ASCII decimal digit.
pub open spec fn is_digit(c: char) -> bool {
    48 <= c as u32 <= 57
}

/// The numeric value of an ASCII decimal digit.
pub open spec fn digit_val(c: char) -> int {
    c as u32 - 48
}

/// Every character of `s` is an ASCII decimal digit.
pub open spec fn all_digits(s: Seq<char>) -> bool {
    forall|i: int| 0 <= i < s.len() ==> is_digit(#[trigger] s[i])
}

/// The value of a sequence of ASCII decimal digits, most significant first.
pub open spec fn digits_val(s: Seq<char>) -> int
    decreases s.len(),
{
    if s.len() == 0 {
        0
    } else {
        digits_val(s.drop_last()) * 10 + digit_val(s.last())
    }
}

/// What `str::parse::<i32>` accepts and returns: an optional sign followed by
/// at least one ASCII digit, whose value fits in an `i32`.
pub open spec fn spec_parse_i32(s: Seq<char>) -> Option<i32> {
    if s.len() == 0 {
        None
    } else {
        let neg = s[0] == '-';
        let digits = if s[0] == '-' || s[0] == '+' {
            s.subrange(1, s.len() as int)
        } else {
            s
        };
        if digits.len() == 0 || !all_digits(digits) {
            None
        } else {
            let v = if neg {
                -digits_val(digits)
            } else {
                digits_val(digits)
            };
            if i32::MIN <= v <= i32::MAX {
                Some(v as i32)
            } else {
                None
            }
        }
    }
}

/// What `str::parse::<usize>` accepts and returns: an optional `+` followed
/// by at least one ASCII digit, whose value fits in a `usize`.
pub open spec fn spec_parse_usize(s: Seq<char>) -> Option<usize> {
    if s.len() == 0 {
        None
    } else {
        let digits = if s[0] == '+' {
            s.subrange(1, s.len() as int)
        } else {
            s
        };
        if digits.len() == 0 || !all_digits(digits) {
            None
        } else if digits_val(digits) <= usize::MAX {
            Some(digits_val(digits) as usize)
        } else {
            None
        }
    }
}

/// What `str::parse::<bool>` accepts and returns.
pub open spec fn spec_parse_bool(s: Seq<char>) -> Option<bool> {
    if s == "true"@ {
        Some(true)
    } else if s == "false"@ {
        Some(false)
    } else {
        None
    }
}

proof fn lemma_digits_val_nonneg(s: Seq<char>)
    requires
        all_digits(s),
    ensures
        digits_val(s) >= 0,
    decreases s.len(),
{
    if s.len() > 0 {
        assert(all_digits(s.drop_last()));
        lemma_digits_val_nonneg(s.drop_last());
    }
}

/// Reports whether `c` is an ASCII decimal digit.
pub fn digit(c: char) -> (r: bool)
    ensures
        r == is_digit(c),
{
    c >= '0' && c <= '9'
}

/// Parses a decimal integer exactly as `str::parse::<i32>` does.
pub fn parse_i32(s: &str) -> (r: Option<i32>)
    ensures
        r == spec_parse_i32(s@),
{
    let n = s.unicode_len();
    if n == 0 {
        return None;
    }
    let first = s.get_char(0);
    let neg = first == '-';
    let start: usize = if first == '-' || first == '+' {
        1
    } else {
        0
    };
    if start == n {
        return None;
    }
    let ghost digits = s@.subrange(start as int, n as int);
    proof {
        if start == 0 {
            assert(digits =~= s@);
        }
    }
    assert(digits.len() > 0);
    let mut acc: u64 = 0;
    let mut i: usize = start;
    while i < n
        invariant
            start <= i <= n,
            n == s@.len(),
            n > 0,
            start == (if s@[0] == '-' || s@[0] == '+' {
                1usize
            } else {
                0usize
            }),
            start < n,
            digits == (if s@[0] == '-' || s@[0] == '+' {
                s@.subrange(1, s@.len() as int)
            } else {
                s@
            }),
            digits == s@.subrange(start as int, n as int),
            all_digits(s@.subrange(start as int, i as int)),
            ({
                let v = digits_val(s@.subrange(start as int, i as int));
                &&& v >= 0
                &&& acc == if v <= 0x8000_0000 {
                    v
                } else {
                    0x8000_0001int
                }
            }),
        decreases n - i,
    {
        let c = s.get_char(i);
        if !digit(c) {
            assert(!all_digits(digits)) by {
                assert(digits[i - start] == c);
            }
            return None;
        }
        let d: u64 = (c as u32 - 48) as u64;
        proof {
            let pre = s@.subrange(start as int, i as int);
            let post = s@.subrange(start as int, i + 1);
            assert(post.drop_last() =~= pre);
            assert(post.last() == c);
            lemma_digits_val_nonneg(pre);
        }
        acc = acc * 10 + d;
        if acc > 0x8000_0000 {
            acc = 0x8000_0001;
        }
        i += 1;
    }
    assert(s@.subrange(start as int, n as int) =~= digits);
    proof {
        lemma_digits_val_nonneg(digits);
    }
    if neg {
        if acc > 0x8000_0000 {
            None
        } else {
            Some((-(acc as i64)) as i32)
        }
    } else {
        if acc > 0x7FFF_FFFF {
            None
        } else {
            Some(acc as i32)
        }
    }
}

/// Parses a decimal integer exactly as `str::parse::<usize>` does.
pub fn parse_usize(s: &str) -> (r: Option<usize>)
    ensures
        r == spec_parse_usize(s@),
{
    let n = s.unicode_len();
    if n == 0 {
        return None;
    }
    let first = s.get_char(0);
    let start: usize = if first == '+' {
        1
    } else {
        0
    };
    if start == n {
        return None;
    }
    let ghost digits = s@.subrange(start as int, n as int);
    proof {
        if start == 0 {
            assert(digits =~= s@);
        }
    }
    let bound: u128 = usize::MAX as u128;
    let mut acc: u128 = 0;
    let mut i: usize = start;
    while i < n
        invariant
            start <= i <= n,
            n == s@.len(),
            n > 0,
            start == (if s@[0] == '+' {
                1usize
            } else {
                0usize
            }),
            start < n,
            digits == (if s@[0] == '+' {
                s@.subrange(1, s@.len() as int)
            } else {
                s@
            }),
            digits == s@.subrange(start as int, n as int),
            bound == usize::MAX as u128,
            all_digits(s@.subrange(start as int, i as int)),
            ({
                let v = digits_val(s@.subrange(start as int, i as int));
                &&& v >= 0
                &&& acc == if v <= bound {
                    v
                } else {
                    bound + 1
                }
            }),
        decreases n - i,
    {
        let c = s.get_char(i);
        if !digit(c) {
            assert(!all_digits(digits)) by {
                assert(digits[i - start] == c);
            }
            return None;
        }
        let d: u128 = (c as u32 - 48) as u128;
        proof {
            let pre = s@.subrange(start as int, i as int);
            let post = s@.subrange(start as int, i + 1);
            assert(post.drop_last() =~= pre);
            assert(post.last() == c);
            lemma_digits_val_nonneg(pre);
        }
        acc = acc * 10 + d;
        if acc > bound {
            acc = bound + 1;
        }
        i += 1;
    }
    assert(s@.subrange(start as int, n as int) =~= digits);
    proof {
        lemma_digits_val_nonneg(digits);
    }
    if acc > bound {
        None
    } else {
        Some(acc as usize)
    }
}

/// The character for a decimal digit value.
pub open spec fn digit_char(d: int) -> char {
    if d == 0 {
        '0'
    } else if d == 1 {
        '1'
    } else if d == 2 {
        '2'
    } else if d == 3 {
        '3'
    } else if d == 4 {
        '4'
    } else if d == 5 {
        '5'
    } else if d == 6 {
        '6'
    } else if d == 7 {
        '7'
    } else if d == 8 {
        '8'
    } else {
        '9'
    }
}

/// The decimal digits of a non-negative integer, most significant first.
pub open spec fn nat_digits(n: int) -> Seq<char>
    decreases n,
{
    if n < 10 {
        seq![digit_char(n)]
    } else {
        nat_digits(n / 10).push(digit_char(n % 10))
    }
}

/// What `i32::to_string` returns.
pub open spec fn spec_i32_string(i: int) -> Seq<char> {
    if i < 0 {
        seq!['-'] + nat_digits(-i)
    } else {
        nat_digits(i)
    }
}

fn digit_to_char(d: u64) -> (c: char)
    requires
        d < 10,
    ensures
        c == digit_char(d as int),
{
    if d == 0 {
        '0'
    } else if d == 1 {
        '1'
    } else if d == 2 {
        '2'
    } else if d == 3 {
        '3'
    } else if d == 4 {
        '4'
    } else if d == 5 {
        '5'
    } else if d == 6 {
        '6'
    } else if d == 7 {
        '7'
    } else if d == 8 {
        '8'
    } else {
        '9'
    }
}

fn digits_of(m: u64) -> (r: Vec<char>)
    ensures
        r@ == nat_digits(m as int),
    decreases m,
{
    if m < 10 {
        let mut r: Vec<char> = Vec::new();
        r.push(digit_to_char(m));
        assert(r@ =~= nat_digits(m as int));
        r
    } else {
        let mut r = digits_of(m / 10);
        r.push(digit_to_char(m % 10));
        r
    }
}

/// Renders a decimal integer exactly as `i32::to_string` does.
pub fn i32_to_string(i: i32) -> (r: String)
    ensures
        r@ == spec_i32_string(i as int),
{
    let mag: u64 = if i < 0 {
        #[verifier::truncate] ((-(i as i64)) as u64)
    } else {
        i as u64
    };
    let digits = digits_of(mag);
    let mut r = String::new();
    if i < 0 {
        push_char(&mut r, '-');
    }
    let mut j: usize = 0;
    while j < digits.len()
        invariant
            j <= digits.len(),
            digits@ == nat_digits(mag as int),
            r@ == (if i < 0 {
                seq!['-']
            } else {
                Seq::<char>::empty()
            }) + digits@.subrange(0, j as int),
        decreases digits.len() - j,
    {
        push_char(&mut r, digits[j]);
        assert(digits@.subrange(0, j + 1) =~= digits@.subrange(0, j as int).push(digits@[j as int]));
        j += 1;
    }
    assert(digits@.subrange(0, digits@.len() as int) =~= digits@);
    assert(i < 0 ==> mag == -(i as int));
    r
}

/// Renders a decimal integer exactly as `usize::to_string` does.
pub fn usize_to_string(u: usize) -> (r: String)
    ensures
        r@ == nat_digits(u as int),
{
    let digits = digits_of(u as u64);
    string_of_chars(&digits)
}

/// Concatenates three string slices.
pub fn concat3(a: &str, b: &str, c: &str) -> (r: String)
    ensures
        r@ == a@ + b@ + c@,
{
    let mut s = a.to_owned();
    s.append(b);
    s.append(c);
    assert(s@ =~= a@ + b@ + c@);
    s
}

/// Parses a boolean exactly as `str::parse::<bool>` does.
pub fn parse_bool(s: &str) -> (r: Option<bool>)
    ensures
        r == spec_parse_bool(s@),
{
    if str_eq(s, "true") {
        Some(true)
    } else if str_eq(s, "false") {
        Some(false)
    } else {
        None
    }
}

/// Compares two string slices by their character content.
pub fn str_eq(a: &str, b: &str) -> (r: bool)
    ensures
        r == (a@ == b@),
{
    a.to_owned() == b.to_owned()
}

/// Compares an owned string against a string slice.
pub fn is_word(s: &String, w: &str) -> (r: bool)
    ensures
        r == (s@ == w@),
{
    str_eq(s.as_str(), w)
}

/// Addition on source positions: saturates at the type bound.
pub open spec fn sat_add_spec(a: usize, b: int) -> usize {
    if a + b > usize::MAX {
        usize::MAX
    } else {
        (a + b) as usize
    }
}

/// Adds two source positions, saturating at the type bound.
pub fn sat_add(a: usize, b: usize) -> (r: usize)
    ensures
        r == sat_add_spec(a, b as int),
{
    match a.checked_add(b) {
        Some(v) => v,
        None => usize::MAX,
    }
}

/// Adds a length and one more to a source position, saturating at the type
/// bound.
pub fn sat_add1(a: usize, b: usize) -> (r: usize)
    ensures
        r == sat_add_spec(a, b + 1),
{
    match b.checked_add(1) {
        Some(v) => sat_add(a, v),
        None => usize::MAX,
    }
}

/// Collects the characters of a string slice.
pub fn chars_of(s: &str) -> (r: Vec<char>)
    ensures
        r@ == s@,
{
    let n = s.unicode_len();
    let mut r: Vec<char> = Vec::new();
    let mut i: usize = 0;
    while i < n
        invariant
            i <= n,
            n == s@.len(),
            r@ == s@.subrange(0, i as int),
        decreases n - i,
    {
        r.push(s.get_char(i));
        assert(s@.subrange(0, i + 1) =~= s@.subrange(0, i as int).push(s@[i as int]));
        i += 1;
    }
    assert(s@.subrange(0, s@.len() as int) =~= s@);
    r
}

/// Appends one character to a string.
///
/// Relies on `String::push`, which appends the given character to the end of
/// the string.
#[verifier::external_body]
pub fn push_char(s: &mut String, c: char)
    ensures
        final(s)@ == old(s)@.push(c),
{
    s.push(c);
}

/// Builds an owned string from a sequence of characters.
pub fn string_of_chars(v: &Vec<char>) -> (r: String)
    ensures
        r@ == v@,
{
    let mut r = String::new();
    let mut i: usize = 0;
    while i < v.len()
        invariant
            i <= v.len(),
            r@ == v@.subrange(0, i as int),
        decreases v.len() - i,
    {
        push_char(&mut r, v[i]);
        assert(v@.subrange(0, i + 1) =~= v@.subrange(0, i as int).push(v@[i as int]));
        i += 1;
    }
    assert(v@.subrange(0, v@.len() as int) =~= v@);
    r
}

} // verus!
