//! Field-level coercions of raw text into typed column values.
//!
//! The decoder turns decimal text into integers, validates the text of
//! real-number columns, and maps the four accepted boolean tokens of the
//! `explicit` flag onto its integer coding.
use vstd::prelude::*;
use vstd::string::StrSliceExecFns;

verus! {

/// Kinds of failure a single raw field can produce while being coerced.
#[derive(Clone, Copy, Debug, PartialEq, Eq, Structural)]
pub enum DecodeError {
    /// The row has no non-empty `track_id` field.
    MissingTrackId,
    /// A numeric column holds non-numeric text.
    InvalidInteger,
    /// The `explicit` flag holds a token other than the accepted four.
    InvalidBoolean,
    /// The duration column holds text that is not a decimal number.
    InvalidReal,
}

// --- character classes --------------------------------------------------

pub open spec fn is_digit(c: char) -> bool {
    48 <= c as u32 && c as u32 <= 57
}

pub open spec fn digit_val(c: char) -> int {
    c as u32 - 48
}

pub open spec fn all_digits(s: Seq<char>) -> bool {
    forall|i: int| 0 <= i < s.len() ==> is_digit(#[trigger] s[i])
}

/// Whether every position of `s` in `[from, to)` holds an ASCII digit.
fn all_digits_range(s: &str, from: usize, to: usize) -> (r: bool)
    requires
        from <= to <= s@.len(),
    ensures
        r == all_digits(s@.subrange(from as int, to as int)),
{
    let ghost sub = s@.subrange(from as int, to as int);
    let mut i: usize = from;
    while i < to
        invariant
            from <= i <= to <= s@.len(),
            sub == s@.subrange(from as int, to as int),
            forall|k: int| 0 <= k < i - from ==> is_digit(#[trigger] sub[k]),
        decreases to - i,
    {
        let c = s.get_char(i);
        let cu = c as u32;
        if cu < 48 || cu > 57 {
            assert(!is_digit(sub[i - from]));
            return false;
        }
        assert(is_digit(sub[i - from]));
        i += 1;
    }
    true
}

// --- integer tokens -----------------------------------------------------

/// The numeric value of a digit string, most significant digit first.
pub open spec fn digits_val(s: Seq<char>) -> int
    decreases s.len(),
{
    if s.len() == 0 {
        0
    } else {
        digits_val(s.drop_last()) * 10 + digit_val(s.last())
    }
}

pub proof fn lemma_digits_val_nonneg(s: Seq<char>)
    requires
        all_digits(s),
    ensures
        digits_val(s) >= 0,
    decreases s.len(),
{
    if s.len() > 0 {
        assert(all_digits(s.drop_last()));
        lemma_digits_val_nonneg(s.drop_last());
    }
}

/// A digit string is worth at least any of its prefixes.
pub proof fn lemma_digits_val_prefix(s: Seq<char>, k: int)
    requires
        all_digits(s),
        0 <= k <= s.len(),
    ensures
        digits_val(s.take(k)) <= digits_val(s),
    decreases s.len(),
{
    if k == s.len() {
        assert(s.take(k) =~= s);
    } else {
        assert(all_digits(s.drop_last()));
        assert(s.drop_last().take(k) =~= s.take(k));
        lemma_digits_val_prefix(s.drop_last(), k);
        lemma_digits_val_nonneg(s.drop_last());
    }
}

/// What `str::parse::<i32>` accepts as a token: an optional sign followed by
/// one or more ASCII digits.
pub open spec fn is_int_token(s: Seq<char>) -> bool {
    if s.len() == 0 {
        false
    } else if s[0] == '+' || s[0] == '-' {
        s.len() > 1 && all_digits(s.skip(1))
    } else {
        all_digits(s)
    }
}

pub open spec fn int_token_value(s: Seq<char>) -> int {
    if s.len() > 0 && s[0] == '-' {
        -digits_val(s.skip(1))
    } else if s.len() > 0 && s[0] == '+' {
        digits_val(s.skip(1))
    } else {
        digits_val(s)
    }
}

/// What `str::parse::<i32>` returns: the token's value when the token is
/// well formed and inside the `i32` range, nothing otherwise.
pub open spec fn spec_parse_i32(s: Seq<char>) -> Option<i32> {
    if is_int_token(s) && i32::MIN <= int_token_value(s) <= i32::MAX {
        Some(int_token_value(s) as i32)
    } else {
        None
    }
}

/// Parses decimal text to an `i32` exactly as the store's integer columns
/// require: sign and digits only, rejected on any other shape or on
/// overflow.
pub fn parse_i32(s: &str) -> (r: Option<i32>)
    ensures
        r == spec_parse_i32(s@),
{
    let n = s.unicode_len();
    if n == 0 {
        return None;
    }
    let c0 = s.get_char(0);
    let neg = c0 == '-';
    let has_sign = neg || c0 == '+';
    let start: usize = if has_sign {
        1
    } else {
        0
    };
    if start >= n {
        // a bare sign has no digits
        return None;
    }
    let ghost digits = s@.skip(start as int);
    let limit: u64 = if neg {
        2147483648
    } else {
        2147483647
    };
    let mut i: usize = start;
    let mut acc: u64 = 0;
    while i < n
        invariant
            start <= i <= n,
            n == s@.len(),
            start == if has_sign { 1int } else { 0int },
            has_sign == (s@[0] == '+' || s@[0] == '-'),
            neg == (s@[0] == '-'),
            digits == s@.skip(start as int),
            limit == if neg { 2147483648u64 } else { 2147483647u64 },
            acc <= limit,
            forall|k: int| 0 <= k < i - start ==> is_digit(#[trigger] digits[k]),
            acc == digits_val(digits.take(i - start)),
        decreases n - i,
    {
        let c = s.get_char(i);
        let cu = c as u32;
        if cu < 48 || cu > 57 {
            // a non-digit makes the whole token invalid
            proof {
                assert(!is_digit(digits[i - start]));
                assert(!all_digits(digits));
                assert(s@.skip(0) =~= s@);
                assert(!is_int_token(s@));
            }
            return None;
        }
        proof {
            let taken = digits.take(i - start);
            assert(digits.take(i + 1 - start).drop_last() =~= taken);
            assert(digits.take(i + 1 - start).last() == digits[i - start]);
            assert(digit_val(digits[i - start]) == cu - 48);
        }
        acc = acc * 10 + (cu - 48) as u64;
        assert(is_digit(digits[i - start]));
        assert(acc == digits_val(digits.take(i + 1 - start)));
        if acc > limit {
            // Even if the remaining characters are all digits, the value can
            // only grow, so the token is out of range either way.
            proof {
                assert(s@.skip(0) =~= s@);
                if all_digits(digits) {
                    lemma_digits_val_prefix(digits, i + 1 - start);
                    assert(digits_val(digits) >= acc);
                    if neg {
                        assert(int_token_value(s@) == -digits_val(digits));
                        assert(int_token_value(s@) < i32::MIN);
                    } else {
                        assert(int_token_value(s@) == digits_val(digits));
                        assert(int_token_value(s@) > i32::MAX);
                    }
                } else {
                    assert(!is_int_token(s@));
                }
            }
            return None;
        }
        i += 1;
    }
    proof {
        assert(digits.len() == n - start);
        assert(forall|k: int| 0 <= k < digits.len() ==> is_digit(#[trigger] digits[k]));
        assert(all_digits(digits));
        assert(digits.take(n - start) =~= digits);
        assert(acc == digits_val(digits));
        assert(s@.skip(0) =~= s@);
        assert(is_int_token(s@));
        lemma_digits_val_nonneg(digits);
        if neg {
            assert(int_token_value(s@) == -digits_val(digits));
        } else {
            assert(int_token_value(s@) == digits_val(digits));
        }
    }
    if neg {
        if acc == 2147483648 {
            Some(i32::MIN)
        } else {
            Some(-(acc as i32))
        }
    } else {
        Some(acc as i32)
    }
}

// --- string equality ----------------------------------------------------

/// Character-for-character equality of two string slices.
pub fn str_eq(a: &str, b: &str) -> (r: bool)
    ensures
        r == (a@ == b@),
{
    let n = a.unicode_len();
    if n != b.unicode_len() {
        return false;
    }
    let mut i: usize = 0;
    while i < n
        invariant
            i <= n,
            n == a@.len(),
            n == b@.len(),
            forall|k: int| 0 <= k < i ==> a@[k] == b@[k],
        decreases n - i,
    {
        if a.get_char(i) != b.get_char(i) {
            return false;
        }
        i += 1;
    }
    proof {
        assert(a@ =~= b@);
    }
    true
}

// --- real-number tokens ---------------------------------------------------

/// Case-insensitive match of one character against a lower/upper pair.
pub open spec fn ci(c: char, lo: char, up: char) -> bool {
    c == lo || c == up
}

pub open spec fn is_inf_token(b: Seq<char>) -> bool {
    b.len() == 3 && ci(b[0], 'i', 'I') && ci(b[1], 'n', 'N') && ci(b[2], 'f', 'F')
}

pub open spec fn is_infinity_token(b: Seq<char>) -> bool {
    b.len() == 8 && ci(b[0], 'i', 'I') && ci(b[1], 'n', 'N') && ci(b[2], 'f', 'F') && ci(
        b[3],
        'i',
        'I',
    ) && ci(b[4], 'n', 'N') && ci(b[5], 'i', 'I') && ci(b[6], 't', 'T') && ci(b[7], 'y', 'Y')
}

pub open spec fn is_nan_token(b: Seq<char>) -> bool {
    b.len() == 3 && ci(b[0], 'n', 'N') && ci(b[1], 'a', 'A') && ci(b[2], 'n', 'N')
}

/// An exponent part: an optional sign followed by one or more digits.
pub open spec fn is_exp_part(e: Seq<char>) -> bool {
    if e.len() == 0 {
        false
    } else {
        let d = if e[0] == '+' || e[0] == '-' {
            e.skip(1)
        } else {
            e
        };
        d.len() > 0 && all_digits(d)
    }
}

/// A mantissa: digits with at most one point and at least one digit.
pub open spec fn is_mantissa(m: Seq<char>) -> bool {
    (m.len() > 0 && all_digits(m)) || (exists|i: int|
        0 <= i < m.len() && m[i] == '.' && m.len() > 1 && all_digits(m.take(i)) && all_digits(
            m.skip(i + 1),
        ))
}

/// A number: a mantissa with an optional exponent.
pub open spec fn is_number_token(b: Seq<char>) -> bool {
    is_mantissa(b) || (exists|i: int|
        0 <= i < b.len() && (b[i] == 'e' || b[i] == 'E') && is_mantissa(b.take(i)) && is_exp_part(
            b.skip(i + 1),
        ))
}

/// What `str::parse::<f64>` accepts: an optional sign, then one of the
/// case-insensitive words `inf`, `infinity`, `nan`, or a decimal number with
/// an optional fraction and an optional exponent.
pub open spec fn is_real_token(s: Seq<char>) -> bool {
    if s.len() == 0 {
        false
    } else {
        let b = if s[0] == '+' || s[0] == '-' {
            s.skip(1)
        } else {
            s
        };
        is_inf_token(b) || is_infinity_token(b) || is_nan_token(b) || is_number_token(b)
    }
}

/// Every character of a mantissa is a digit or the point.
pub proof fn lemma_mantissa_chars(m: Seq<char>, k: int)
    requires
        is_mantissa(m),
        0 <= k < m.len(),
    ensures
        is_digit(m[k]) || m[k] == '.',
{
    if m.len() > 0 && all_digits(m) {
    } else {
        let i = choose|i: int|
            0 <= i < m.len() && m[i] == '.' && m.len() > 1 && all_digits(m.take(i)) && all_digits(
                m.skip(i + 1),
            );
        if k < i {
            assert(m.take(i)[k] == m[k]);
            assert(is_digit(m.take(i)[k]));
        } else if k > i {
            assert(m.skip(i + 1)[k - i - 1] == m[k]);
            assert(is_digit(m.skip(i + 1)[k - i - 1]));
        }
    }
}

/// First position in `[from, to)` holding `c1` or `c2`.
fn find_first(s: &str, from: usize, to: usize, c1: char, c2: char) -> (r: Option<usize>)
    requires
        from <= to <= s@.len(),
    ensures
        match r {
            Some(j) => from <= j < to && (s@[j as int] == c1 || s@[j as int] == c2) && forall|
                k: int,
            | from <= k < j ==> #[trigger] s@[k] != c1 && s@[k] != c2,
            None => forall|k: int| from <= k < to ==> #[trigger] s@[k] != c1 && s@[k] != c2,
        },
{
    let mut i: usize = from;
    while i < to
        invariant
            from <= i <= to <= s@.len(),
            forall|k: int| from <= k < i ==> #[trigger] s@[k] != c1 && s@[k] != c2,
        decreases to - i,
    {
        let c = s.get_char(i);
        if c == c1 || c == c2 {
            return Some(i);
        }
        i += 1;
    }
    None
}

fn is_exp_exec(s: &str, from: usize, to: usize) -> (r: bool)
    requires
        from <= to <= s@.len(),
    ensures
        r == is_exp_part(s@.subrange(from as int, to as int)),
{
    let ghost e = s@.subrange(from as int, to as int);
    if from == to {
        return false;
    }
    let c0 = s.get_char(from);
    let dstart: usize = if c0 == '+' || c0 == '-' {
        from + 1
    } else {
        from
    };
    proof {
        if dstart > from {
            assert(e.skip(1) =~= s@.subrange(dstart as int, to as int));
        } else {
            assert(e =~= s@.subrange(dstart as int, to as int));
        }
    }
    if dstart == to {
        return false;
    }
    all_digits_range(s, dstart, to)
}

fn is_mantissa_exec(s: &str, from: usize, to: usize) -> (r: bool)
    requires
        from <= to <= s@.len(),
    ensures
        r == is_mantissa(s@.subrange(from as int, to as int)),
{
    let ghost m = s@.subrange(from as int, to as int);
    match find_first(s, from, to, '.', '.') {
        None => {
            let r = to > from && all_digits_range(s, from, to);
            proof {
                assert forall|i: int| !(0 <= i < m.len() && m[i] == '.') by {
                    if 0 <= i < m.len() {
                        assert(m[i] == s@[from + i]);
                    }
                }
            }
            r
        },
        Some(j) => {
            let ghost jr = j - from;
            proof {
                assert(m[jr] == '.');
                assert(m.take(jr) =~= s@.subrange(from as int, j as int));
                assert(m.skip(jr + 1) =~= s@.subrange(j + 1 as int, to as int));
                assert(!is_digit(m[jr]));
            }
            let ok = to - from > 1 && all_digits_range(s, from, j) && all_digits_range(
                s,
                j + 1,
                to,
            );
            proof {
                if !ok {
                    assert forall|i: int|
                        (0 <= i < m.len() && m[i] == '.' && m.len() > 1) implies !(all_digits(
                        m.take(i),
                    ) && all_digits(m.skip(i + 1))) by {
                        if i < jr {
                            assert(s@[from + i] != '.');
                            assert(m[i] == s@[from + i]);
                        } else if i > jr {
                            assert(m.take(i)[jr] == m[jr]);
                            assert(!all_digits(m.take(i)));
                        }
                    }
                }
            }
            ok
        },
    }
}

fn is_number_exec(s: &str, from: usize, to: usize) -> (r: bool)
    requires
        from <= to <= s@.len(),
    ensures
        r == is_number_token(s@.subrange(from as int, to as int)),
{
    let ghost b = s@.subrange(from as int, to as int);
    match find_first(s, from, to, 'e', 'E') {
        None => {
            let r = is_mantissa_exec(s, from, to);
            proof {
                assert forall|i: int| !(0 <= i < b.len() && (b[i] == 'e' || b[i] == 'E')) by {
                    if 0 <= i < b.len() {
                        assert(b[i] == s@[from + i]);
                    }
                }
            }
            r
        },
        Some(j) => {
            let ghost jr = j - from;
            proof {
                assert(b[jr] == 'e' || b[jr] == 'E');
                assert(b.take(jr) =~= s@.subrange(from as int, j as int));
                assert(b.skip(jr + 1) =~= s@.subrange(j + 1 as int, to as int));
            }
            let ok = is_mantissa_exec(s, from, j) && is_exp_exec(s, j + 1, to);
            proof {
                if !ok {
                    if is_mantissa(b) {
                        lemma_mantissa_chars(b, jr);
                    }
                    assert forall|i: int|
                        (0 <= i < b.len() && (b[i] == 'e' || b[i] == 'E')) implies !(is_mantissa(
                        b.take(i),
                    ) && is_exp_part(b.skip(i + 1))) by {
                        if i < jr {
                            assert(b[i] == s@[from + i]);
                            assert(s@[from + i] != 'e' && s@[from + i] != 'E');
                        } else if i > jr {
                            if is_mantissa(b.take(i)) {
                                lemma_mantissa_chars(b.take(i), jr);
                                assert(b.take(i)[jr] == b[jr]);
                            }
                        }
                    }
                }
            }
            ok
        },
    }
}

fn is_special_exec(s: &str, from: usize, to: usize) -> (r: bool)
    requires
        from <= to <= s@.len(),
    ensures
        r == {
            let b = s@.subrange(from as int, to as int);
            is_inf_token(b) || is_infinity_token(b) || is_nan_token(b)
        },
{
    let ghost b = s@.subrange(from as int, to as int);
    let len = to - from;
    if len == 3 {
        let c0 = s.get_char(from);
        let c1 = s.get_char(from + 1);
        let c2 = s.get_char(from + 2);
        ((c0 == 'i' || c0 == 'I') && (c1 == 'n' || c1 == 'N') && (c2 == 'f' || c2 == 'F')) || ((c0
            == 'n' || c0 == 'N') && (c1 == 'a' || c1 == 'A') && (c2 == 'n' || c2 == 'N'))
    } else if len == 8 {
        let c0 = s.get_char(from);
        let c1 = s.get_char(from + 1);
        let c2 = s.get_char(from + 2);
        let c3 = s.get_char(from + 3);
        let c4 = s.get_char(from + 4);
        let c5 = s.get_char(from + 5);
        let c6 = s.get_char(from + 6);
        let c7 = s.get_char(from + 7);
        (c0 == 'i' || c0 == 'I') && (c1 == 'n' || c1 == 'N') && (c2 == 'f' || c2 == 'F') && (c3
            == 'i' || c3 == 'I') && (c4 == 'n' || c4 == 'N') && (c5 == 'i' || c5 == 'I') && (c6
            == 't' || c6 == 'T') && (c7 == 'y' || c7 == 'Y')
    } else {
        false
    }
}

/// Checks whether the duration column accepts `s`, following the grammar of
/// `str::parse::<f64>`.
pub fn real_token_ok(s: &str) -> (r: bool)
    ensures
        r == is_real_token(s@),
{
    let n = s.unicode_len();
    if n == 0 {
        return false;
    }
    let c0 = s.get_char(0);
    let start: usize = if c0 == '+' || c0 == '-' {
        1
    } else {
        0
    };
    proof {
        if start == 1 {
            assert(s@.skip(1) =~= s@.subrange(1, n as int));
        } else {
            assert(s@ =~= s@.subrange(0, n as int));
        }
    }
    if is_special_exec(s, start, n) {
        true
    } else {
        is_number_exec(s, start, n)
    }
}

// --- the explicit flag --------------------------------------------------

/// The integer coding of the `explicit` flag: the relation stores `1` for
/// true and `0` for false, and only the four listed tokens are accepted.
pub open spec fn bool_code(s: Seq<char>) -> Option<i32> {
    if s == "TRUE"@ || s == "true"@ {
        Some(1)
    } else if s == "FALSE"@ || s == "false"@ {
        Some(0)
    } else {
        None
    }
}

/// Coercion of one raw `explicit` field: absent or empty text is null, the
/// four accepted tokens map to their integer code, anything else fails.
pub open spec fn spec_bool_from_csv(s: Option<Seq<char>>) -> Result<Option<i32>, DecodeError> {
    match s {
        None => Ok(None),
        Some(t) => if t.len() == 0 {
            Ok(None)
        } else {
            match bool_code(t) {
                Some(c) => Ok(Some(c)),
                None => Err(DecodeError::InvalidBoolean),
            }
        },
    }
}

/// Boolean coercion: each of the four accepted tokens has a fixed stored
/// coding, every other non-empty token is rejected, and an absent or empty
/// field is null.
pub proof fn lemma_boolean_coercion()
    ensures
        spec_bool_from_csv(Some("TRUE"@)) == Ok::<Option<i32>, DecodeError>(Some(1i32)),
        spec_bool_from_csv(Some("true"@)) == Ok::<Option<i32>, DecodeError>(Some(1i32)),
        spec_bool_from_csv(Some("FALSE"@)) == Ok::<Option<i32>, DecodeError>(Some(0i32)),
        spec_bool_from_csv(Some("false"@)) == Ok::<Option<i32>, DecodeError>(Some(0i32)),
        forall|t: Seq<char>|
            t.len() > 0 && bool_code(t) is None ==> spec_bool_from_csv(Some(t)) == Err::<
                Option<i32>,
                DecodeError,
            >(DecodeError::InvalidBoolean),
        spec_bool_from_csv(None) == Ok::<Option<i32>, DecodeError>(None::<i32>),
{
    reveal_strlit("TRUE");
    reveal_strlit("true");
    reveal_strlit("FALSE");
    reveal_strlit("false");
}

/// Maps a raw `explicit` field to its stored integer code.
pub fn bool_from_csv(s: &Option<String>) -> (r: Result<Option<i32>, DecodeError>)
    ensures
        r == spec_bool_from_csv(s.deep_view()),
{
    match s {
        None => Ok(None),
        Some(t) => {
            if t.as_str().unicode_len() == 0 {
                Ok(None)
            } else if str_eq(t.as_str(), "TRUE") || str_eq(t.as_str(), "true") {
                Ok(Some(1))
            } else if str_eq(t.as_str(), "FALSE") || str_eq(t.as_str(), "false") {
                Ok(Some(0))
            } else {
                Err(DecodeError::InvalidBoolean)
            }
        },
    }
}

} // verus!

