//! Character-level scanning: whitespace, digit runs, trimming, and
//! integer parsing with the semantics of `str::parse::<i64>`.

use vstd::prelude::*;
use vstd::string::StrSliceExecFns;

verus! {

/// The Unicode `White_Space` characters, the set that `str::trim`
/// removes.
pub open spec fn is_space_char(c: char) -> bool {
    ||| c == ' '
    ||| c == '\t'
    ||| c == '\n'
    ||| c == '\u{000B}'
    ||| c == '\u{000C}'
    ||| c == '\r'
    ||| c == '\u{0085}'
    ||| c == '\u{00A0}'
    ||| c == '\u{1680}'
    ||| c == '\u{2000}'
    ||| c == '\u{2001}'
    ||| c == '\u{2002}'
    ||| c == '\u{2003}'
    ||| c == '\u{2004}'
    ||| c == '\u{2005}'
    ||| c == '\u{2006}'
    ||| c == '\u{2007}'
    ||| c == '\u{2008}'
    ||| c == '\u{2009}'
    ||| c == '\u{200A}'
    ||| c == '\u{2028}'
    ||| c == '\u{2029}'
    ||| c == '\u{202F}'
    ||| c == '\u{205F}'
    ||| c == '\u{3000}'
}

/// Decides `is_space_char`.
pub fn is_space_char_exec(c: char) -> (r: bool)
    ensures
        r == is_space_char(c),
{
    c == ' ' || c == '\t' || c == '\n' || c == '\u{000B}' || c == '\u{000C}' || c == '\r'
        || c == '\u{0085}' || c == '\u{00A0}' || c == '\u{1680}' || c == '\u{2000}'
        || c == '\u{2001}' || c == '\u{2002}' || c == '\u{2003}' || c == '\u{2004}'
        || c == '\u{2005}' || c == '\u{2006}' || c == '\u{2007}' || c == '\u{2008}'
        || c == '\u{2009}' || c == '\u{200A}' || c == '\u{2028}' || c == '\u{2029}'
        || c == '\u{202F}' || c == '\u{205F}' || c == '\u{3000}'
}

/// ASCII decimal digit.
pub open spec fn is_digit_char(c: char) -> bool {
    ||| c == '0'
    ||| c == '1'
    ||| c == '2'
    ||| c == '3'
    ||| c == '4'
    ||| c == '5'
    ||| c == '6'
    ||| c == '7'
    ||| c == '8'
    ||| c == '9'
}

/// Decides `is_digit_char`.
pub fn is_digit_char_exec(c: char) -> (r: bool)
    ensures
        r == is_digit_char(c),
{
    c == '0' || c == '1' || c == '2' || c == '3' || c == '4' || c == '5' || c == '6' || c == '7'
        || c == '8' || c == '9'
}

/// Numeric value of an ASCII digit.
pub open spec fn digit_val(c: char) -> int {
    if c == '0' {
        0
    } else if c == '1' {
        1
    } else if c == '2' {
        2
    } else if c == '3' {
        3
    } else if c == '4' {
        4
    } else if c == '5' {
        5
    } else if c == '6' {
        6
    } else if c == '7' {
        7
    } else if c == '8' {
        8
    } else {
        9
    }
}

/// Computes `digit_val`.
pub fn digit_val_exec(c: char) -> (r: u64)
    requires
        is_digit_char(c),
    ensures
        r == digit_val(c),
{
    if c == '0' {
        0
    } else if c == '1' {
        1
    } else if c == '2' {
        2
    } else if c == '3' {
        3
    } else if c == '4' {
        4
    } else if c == '5' {
        5
    } else if c == '6' {
        6
    } else if c == '7' {
        7
    } else if c == '8' {
        8
    } else {
        9
    }
}

/// Every character of `s` is an ASCII digit.
pub open spec fn all_digits(s: Seq<char>) -> bool {
    forall|i: int| 0 <= i < s.len() ==> is_digit_char(#[trigger] s[i])
}

/// Value of a digit string read in base ten.
pub open spec fn digits_val(s: Seq<char>) -> int
    decreases s.len(),
{
    if s.len() == 0 {
        0
    } else {
        10 * digits_val(s.drop_last()) + digit_val(s.last())
    }
}

pub proof fn lemma_digits_val_nonneg(s: Seq<char>)
    requires
        all_digits(s),
    ensures
        digits_val(s) >= 0,
    decreases s.len(),
{
    if s.len() > 0 {
        assert(all_digits(s.drop_last()));
        lemma_digits_val_nonneg(s.drop_last());
    }
}

/// Appending one digit multiplies the value by ten and adds it.
pub proof fn lemma_digits_val_extend(s: Seq<char>, k: int)
    requires
        0 <= k < s.len(),
    ensures
        digits_val(s.subrange(0, k + 1)) == 10 * digits_val(s.subrange(0, k)) + digit_val(s[k]),
{
    assert(s.subrange(0, k + 1).drop_last() =~= s.subrange(0, k));
    assert(s.subrange(0, k + 1).last() == s[k]);
}

/// A prefix of a digit string is worth no more than the whole.
pub proof fn lemma_digits_val_prefix_le(s: Seq<char>, k: int)
    requires
        all_digits(s),
        0 <= k <= s.len(),
    ensures
        digits_val(s.subrange(0, k)) <= digits_val(s),
    decreases s.len() - k,
{
    if k == s.len() {
        assert(s.subrange(0, k) =~= s);
    } else {
        lemma_digits_val_extend(s, k);
        assert(all_digits(s.subrange(0, k)));
        lemma_digits_val_nonneg(s.subrange(0, k));
        lemma_digits_val_prefix_le(s, k + 1);
    }
}

/// Ten to the `n`.
pub open spec fn pow10(n: nat) -> int
    decreases n,
{
    if n == 0 {
        1
    } else {
        10 * pow10((n - 1) as nat)
    }
}

/// A digit string is smaller than ten to its length.
pub proof fn lemma_digits_val_bound(s: Seq<char>)
    requires
        all_digits(s),
    ensures
        digits_val(s) < pow10(s.len()),
    decreases s.len(),
{
    if s.len() > 0 {
        assert(all_digits(s.drop_last()));
        lemma_digits_val_bound(s.drop_last());
    }
}

/// At most four digits are worth at most 9999.
pub proof fn lemma_digits_val_at_most_four(s: Seq<char>)
    requires
        all_digits(s),
        s.len() <= 4,
    ensures
        digits_val(s) <= 9999,
{
    lemma_digits_val_bound(s);
    assert(pow10(0) == 1);
    assert(pow10(1) == 10);
    assert(pow10(2) == 100);
    assert(pow10(3) == 1000);
    assert(pow10(4) == 10000);
}

/// `s` with leading whitespace removed.
pub open spec fn trim_start_spec(s: Seq<char>) -> Seq<char>
    decreases s.len(),
{
    if s.len() > 0 && is_space_char(s[0]) {
        trim_start_spec(s.subrange(1, s.len() as int))
    } else {
        s
    }
}

/// `s` with trailing whitespace removed.
pub open spec fn trim_end_spec(s: Seq<char>) -> Seq<char>
    decreases s.len(),
{
    if s.len() > 0 && is_space_char(s.last()) {
        trim_end_spec(s.drop_last())
    } else {
        s
    }
}

/// `s` with surrounding whitespace removed, as `str::trim` leaves it.
pub open spec fn trim_spec(s: Seq<char>) -> Seq<char> {
    trim_end_spec(trim_start_spec(s))
}

/// A trimmed-start sequence does not begin with whitespace.
pub proof fn lemma_trim_start_no_leading_space(s: Seq<char>)
    ensures
        trim_start_spec(s).len() > 0 ==> !is_space_char(trim_start_spec(s)[0]),
    decreases s.len(),
{
    if s.len() > 0 && is_space_char(s[0]) {
        lemma_trim_start_no_leading_space(s.subrange(1, s.len() as int));
    }
}

/// Trimming the end keeps a prefix of the sequence.
pub proof fn lemma_trim_end_prefix(s: Seq<char>)
    ensures
        trim_end_spec(s).len() <= s.len(),
        trim_end_spec(s) == s.subrange(0, trim_end_spec(s).len() as int),
    decreases s.len(),
{
    if s.len() > 0 && is_space_char(s.last()) {
        lemma_trim_end_prefix(s.drop_last());
        let t = trim_end_spec(s);
        assert(s.drop_last().subrange(0, t.len() as int) =~= s.subrange(0, t.len() as int));
    } else {
        assert(s.subrange(0, s.len() as int) =~= s);
    }
}

/// Trimming the end twice is trimming it once.
pub proof fn lemma_trim_end_idempotent(s: Seq<char>)
    ensures
        trim_end_spec(trim_end_spec(s)) == trim_end_spec(s),
    decreases s.len(),
{
    if s.len() > 0 && is_space_char(s.last()) {
        lemma_trim_end_idempotent(s.drop_last());
    }
}

/// Trimming an already-trimmed sequence changes nothing.
pub proof fn lemma_trim_idempotent(s: Seq<char>)
    ensures
        trim_spec(trim_spec(s)) == trim_spec(s),
{
    let y = trim_start_spec(s);
    let t = trim_end_spec(y);
    lemma_trim_start_no_leading_space(s);
    lemma_trim_end_prefix(y);
    if t.len() > 0 {
        assert(t[0] == y[0]);
        assert(!is_space_char(t[0]));
        assert(trim_start_spec(t) == t);
    } else {
        assert(trim_start_spec(t) == t);
    }
    lemma_trim_end_idempotent(y);
}

/// The characters of `s`, in order.
pub fn chars_of(s: &str) -> (v: Vec<char>)
    ensures
        v@ == s@,
{
    let n: usize = s.unicode_len();
    let mut v: Vec<char> = Vec::new();
    let mut i: usize = 0;
    while i < n
        invariant
            i <= n,
            n == s@.len(),
            v@ =~= s@.subrange(0, i as int),
        decreases n - i,
    {
        v.push(s.get_char(i));
        i = i + 1;
    }
    assert(v@ =~= s@);
    v
}

/// The characters of `s` with surrounding whitespace removed, as
/// `str::trim` leaves them.
pub fn trimmed_chars(s: &str) -> (v: Vec<char>)
    ensures
        v@ == trim_spec(s@),
{
    let w = chars_of(s);
    let (a, b) = trim_bounds(&w);
    let mut v: Vec<char> = Vec::new();
    let mut i: usize = a;
    while i < b
        invariant
            a <= i <= b <= w.len(),
            w@.subrange(a as int, b as int) == trim_spec(s@),
            v@ =~= w@.subrange(a as int, i as int),
        decreases b - i,
    {
        v.push(w[i]);
        i = i + 1;
    }
    assert(v@ =~= w@.subrange(a as int, b as int));
    v
}

/// Bounds of the trimmed window of `v`: the characters between them
/// are exactly `trim_spec(v@)`.
pub fn trim_bounds(v: &Vec<char>) -> (r: (usize, usize))
    ensures
        r.0 <= r.1 <= v.len(),
        v@.subrange(r.0 as int, r.1 as int) == trim_spec(v@),
{
    let n: usize = v.len();
    proof {
        assert(v@.subrange(0, n as int) =~= v@);
    }
    let mut i: usize = 0;
    while i < n && is_space_char_exec(v[i])
        invariant
            i <= n,
            n == v@.len(),
            trim_start_spec(v@) == trim_start_spec(v@.subrange(i as int, n as int)),
        decreases n - i,
    {
        proof {
            assert(v@.subrange(i as int, n as int)[0] == v@[i as int]);
            assert(v@.subrange(i as int, n as int).subrange(1, (n - i) as int) =~= v@.subrange(
                i as int + 1,
                n as int,
            ));
        }
        i = i + 1;
    }
    proof {
        if i < n {
            assert(trim_start_spec(v@.subrange(i as int, n as int)) == v@.subrange(
                i as int,
                n as int,
            ));
        } else {
            assert(v@.subrange(i as int, n as int).len() == 0);
        }
    }
    let mut j: usize = n;
    while j > i && is_space_char_exec(v[j - 1])
        invariant
            i <= j <= n,
            n == v@.len(),
            trim_start_spec(v@) == v@.subrange(i as int, n as int),
            trim_end_spec(v@.subrange(i as int, n as int)) == trim_end_spec(
                v@.subrange(i as int, j as int),
            ),
        decreases j,
    {
        proof {
            assert(v@.subrange(i as int, j as int).drop_last() =~= v@.subrange(
                i as int,
                j as int - 1,
            ));
        }
        j = j - 1;
    }
    proof {
        if j > i {
            assert(trim_end_spec(v@.subrange(i as int, j as int)) == v@.subrange(
                i as int,
                j as int,
            ));
        } else {
            assert(v@.subrange(i as int, j as int).len() == 0);
        }
    }
    (i, j)
}

/// Index of the first non-whitespace character of `s` at or after `i`.
pub open spec fn skip_ws(s: Seq<char>, i: int) -> int
    decreases s.len() - i,
{
    if 0 <= i < s.len() && is_space_char(s[i]) {
        skip_ws(s, i + 1)
    } else {
        i
    }
}

/// Computes `skip_ws`.
pub fn skip_ws_exec(v: &Vec<char>, start: usize) -> (r: usize)
    requires
        start <= v.len(),
    ensures
        r == skip_ws(v@, start as int),
        start <= r <= v.len(),
{
    let n: usize = v.len();
    let mut i: usize = start;
    while i < n && is_space_char_exec(v[i])
        invariant
            start <= i <= n,
            n == v@.len(),
            skip_ws(v@, start as int) == skip_ws(v@, i as int),
        decreases n - i,
    {
        i = i + 1;
    }
    i
}

/// End of the run of at most `max` digits beginning at `i`.
pub open spec fn digit_run_end(s: Seq<char>, i: int, max: int) -> int
    decreases max,
{
    if 0 <= i < s.len() && max > 0 && is_digit_char(s[i]) {
        digit_run_end(s, i + 1, max - 1)
    } else {
        i
    }
}

/// The digit run holds digits, and stops at its end for a reason:
/// the input, the width limit, or a non-digit character.
pub proof fn lemma_digit_run_digits(s: Seq<char>, i: int, max: int)
    requires
        0 <= i <= s.len(),
    ensures
        i <= digit_run_end(s, i, max) <= s.len(),
        digit_run_end(s, i, max) - i <= if max >= 0 {
            max
        } else {
            0
        },
        all_digits(s.subrange(i, digit_run_end(s, i, max))),
        ({
            let e = digit_run_end(s, i, max);
            e < s.len() && e - i < max ==> !is_digit_char(s[e])
        }),
    decreases max,
{
    let e = digit_run_end(s, i, max);
    if 0 <= i < s.len() && max > 0 && is_digit_char(s[i]) {
        lemma_digit_run_digits(s, i + 1, max - 1);
        assert forall|k: int| 0 <= k < e - i implies is_digit_char(
            #[trigger] s.subrange(i, e)[k],
        ) by {
            assert(s.subrange(i, e)[k] == s[i + k]);
            if k > 0 {
                assert(s.subrange(i + 1, e)[k - 1] == s[i + k]);
            }
        }
    }
}

/// Computes `digit_run_end`.
pub fn digit_run_exec(v: &Vec<char>, start: usize, max: usize) -> (r: usize)
    requires
        start <= v.len(),
    ensures
        r == digit_run_end(v@, start as int, max as int),
        start <= r <= v.len(),
{
    let n: usize = v.len();
    let mut i: usize = start;
    let mut left: usize = max;
    while i < n && left > 0 && is_digit_char_exec(v[i])
        invariant
            start <= i <= n,
            n == v@.len(),
            digit_run_end(v@, start as int, max as int) == digit_run_end(v@, i as int, left as int),
        decreases n - i,
    {
        i = i + 1;
        left = left - 1;
    }
    i
}

/// Value of the digit range `[from, to)` of `v`, unless it exceeds
/// `cap`.
pub fn digits_value_capped(v: &Vec<char>, from: usize, to: usize, cap: u64) -> (r: Option<u64>)
    requires
        from <= to <= v.len(),
        all_digits(v@.subrange(from as int, to as int)),
    ensures
        match r {
            Some(x) => x <= cap && x == digits_val(v@.subrange(from as int, to as int)),
            None => digits_val(v@.subrange(from as int, to as int)) > cap,
        },
{
    let ghost t = v@.subrange(from as int, to as int);
    let mut mag: u64 = 0;
    let mut i: usize = from;
    while i < to
        invariant
            from <= i <= to <= v.len(),
            t == v@.subrange(from as int, to as int),
            all_digits(t),
            mag <= cap,
            mag == digits_val(t.subrange(0, i - from)),
        decreases to - i,
    {
        proof {
            assert(t[i - from] == v@[i as int]);
            lemma_digits_val_extend(t, i - from);
        }
        let d: u64 = digit_val_exec(v[i]);
        let next: Option<u64> = match mag.checked_mul(10) {
            Some(m10) => m10.checked_add(d),
            None => None,
        };
        match next {
            Some(nv) => {
                if nv > cap {
                    proof {
                        lemma_digits_val_prefix_le(t, i - from + 1);
                    }
                    return None;
                }
                mag = nv;
            },
            None => {
                proof {
                    lemma_digits_val_prefix_le(t, i - from + 1);
                }
                return None;
            },
        }
        i = i + 1;
    }
    proof {
        assert(t.subrange(0, i - from) =~= t);
    }
    Some(mag)
}

/// What `str::parse::<i64>` accepts: an optional single `+` or `-`
/// sign, then one or more ASCII digits, whose signed value fits in an
/// `i64`.
pub open spec fn spec_parse_i64(s: Seq<char>) -> Option<int> {
    if s.len() == 0 {
        None
    } else {
        let neg = s[0] == '-';
        let signed = s[0] == '-' || s[0] == '+';
        let rest = if signed {
            s.subrange(1, s.len() as int)
        } else {
            s
        };
        if rest.len() > 0 && all_digits(rest) {
            let sv = if neg {
                -digits_val(rest)
            } else {
                digits_val(rest)
            };
            if i64::MIN <= sv <= i64::MAX {
                Some(sv)
            } else {
                None
            }
        } else {
            None
        }
    }
}

/// Parses the range `[from, to)` of `v` as `str::parse::<i64>` would.
pub fn parse_i64_range(v: &Vec<char>, from: usize, to: usize) -> (r: Option<i64>)
    requires
        from <= to <= v.len(),
    ensures
        match r {
            Some(x) => spec_parse_i64(v@.subrange(from as int, to as int)) == Some(x as int),
            None => spec_parse_i64(v@.subrange(from as int, to as int)) is None,
        },
{
    let ghost s = v@.subrange(from as int, to as int);
    if from == to {
        return None;
    }
    let c0 = v[from];
    let neg = c0 == '-';
    let signed = c0 == '-' || c0 == '+';
    let off: usize = if signed {
        from + 1
    } else {
        from
    };
    let ghost rest = if signed {
        s.subrange(1, s.len() as int)
    } else {
        s
    };
    proof {
        assert(rest =~= v@.subrange(off as int, to as int));
    }
    if off == to {
        return None;
    }
    // every remaining character must be a digit
    let run: usize = digit_run_exec(v, off, to - off);
    proof {
        lemma_digit_run_digits(v@, off as int, (to - off) as int);
    }
    if run != to {
        proof {
            let e = digit_run_end(v@, off as int, (to - off) as int);
            assert(!is_digit_char(v@[e]));
            assert(rest[e - off] == v@[e]);
            assert(!all_digits(rest));
        }
        return None;
    }
    let limit: u64 = if neg {
        9223372036854775808
    } else {
        9223372036854775807
    };
    match digits_value_capped(v, off, to, limit) {
        None => {
            proof {
                lemma_digits_val_nonneg(rest);
            }
            None
        },
        Some(mag) => {
            if neg {
                if mag == 9223372036854775808 {
                    Some(i64::MIN)
                } else {
                    Some(-(mag as i64))
                }
            } else {
                Some(mag as i64)
            }
        },
    }
}

/// Parses a whole string as `str::parse::<i64>` would.
pub fn parse_i64(s: &str) -> (r: Option<i64>)
    ensures
        match r {
            Some(x) => spec_parse_i64(s@) == Some(x as int),
            None => spec_parse_i64(s@) is None,
        },
{
    let v = chars_of(s);
    let n: usize = v.len();
    let r = parse_i64_range(&v, 0, n);
    proof {
        assert(v@.subrange(0, n as int) =~= s@);
    }
    r
}

} // verus!
