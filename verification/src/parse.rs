//! Parsing of `NUMBER1,NUMBER2` pair strings, as used for the lattice
//! dimensions: exactly one separator, flanked by two unsigned decimal
//! numbers (an optional leading plus sign is accepted, as the standard
//! integer parser does).

use vstd::prelude::*;
use vstd::string::StrSliceExecFns;

verus! {

/// `c` is a decimal digit.
pub open spec fn is_digit(c: char) -> bool {
    48 <= c as u32 <= 57
}

/// Numeric value of a decimal digit.
pub open spec fn digit_val(c: char) -> int {
    c as u32 - 48
}

/// Every character of `s` is a decimal digit.
pub open spec fn all_digits(s: Seq<char>) -> bool {
    forall|i: int| 0 <= i < s.len() ==> is_digit(#[trigger] s[i])
}

/// Value of a digit string, most significant digit first.
pub open spec fn digits_val(s: Seq<char>) -> int
    decreases s.len(),
{
    if s.len() == 0 {
        0
    } else {
        digits_val(s.drop_last()) * 10 + digit_val(s.last())
    }
}

/// The digits of a number: everything after an optional leading plus sign.
pub open spec fn num_body(s: Seq<char>) -> Seq<char> {
    if s.len() > 0 && s[0] == '+' {
        s.subrange(1, s.len() as int)
    } else {
        s
    }
}

/// A string accepted as one number: an optional plus sign, then at least
/// one digit, with a value that fits in `usize`.
pub open spec fn valid_number(s: Seq<char>) -> bool {
    &&& num_body(s).len() > 0
    &&& all_digits(num_body(s))
    &&& digits_val(num_body(s)) <= usize::MAX
}

/// How often the separator occurs in `s`.
pub open spec fn sep_count(s: Seq<char>, sep: char) -> int
    decreases s.len(),
{
    if s.len() == 0 {
        0
    } else {
        sep_count(s.drop_last(), sep) + if s.last() == sep {
            1int
        } else {
            0int
        }
    }
}

/// Index of the first separator occurrence.
pub open spec fn first_sep(s: Seq<char>, sep: char) -> int
    decreases s.len(),
{
    if s.len() == 0 {
        0
    } else if s[0] == sep {
        0
    } else {
        1 + first_sep(s.subrange(1, s.len() as int), sep)
    }
}

/// The two halves flanking the first separator.
pub open spec fn spec_pair_parts(s: Seq<char>, sep: char) -> (Seq<char>, Seq<char>) {
    let m = first_sep(s, sep);
    (s.take(m), s.subrange(m + 1, s.len() as int))
}

proof fn lemma_first_sep_at(s: Seq<char>, sep: char, m: int)
    requires
        0 <= m < s.len(),
        s[m] == sep,
        forall|k: int| 0 <= k < m ==> s[k] != sep,
    ensures
        first_sep(s, sep) == m,
    decreases m,
{
    if m > 0 {
        let t = s.subrange(1, s.len() as int);
        assert(forall|k: int| 0 <= k < m - 1 ==> #[trigger] t[k] == s[k + 1]);
        lemma_first_sep_at(t, sep, m - 1);
    }
}

proof fn lemma_digits_val_nonneg(s: Seq<char>)
    requires
        all_digits(s),
    ensures
        digits_val(s) >= 0,
    decreases s.len(),
{
    if s.len() > 0 {
        assert(all_digits(s.drop_last()));
        lemma_digits_val_nonneg(s.drop_last());
    }
}

proof fn lemma_digits_val_prefix_le(s: Seq<char>, j: int)
    requires
        all_digits(s),
        0 <= j <= s.len(),
    ensures
        digits_val(s.take(j)) <= digits_val(s),
    decreases s.len() - j,
{
    if j < s.len() {
        let a = s.take(j);
        let b = s.take(j + 1);
        assert(b.drop_last() =~= a);
        assert(all_digits(a));
        lemma_digits_val_nonneg(a);
        assert(digits_val(b) == digits_val(a) * 10 + digit_val(s[j]));
        lemma_digits_val_prefix_le(s, j + 1);
        assert(s.take(s.len() as int) =~= s);
    } else {
        assert(s.take(j) =~= s);
    }
}

/// Parses `s[start..end)` as one number; `None` iff that slice is not a
/// valid number.
#[verifier::loop_isolation(false)]
fn parse_usize_range(s: &str, start: usize, end: usize) -> (r: Option<usize>)
    requires
        start <= end <= s@.len(),
    ensures
        ({
            let part = s@.subrange(start as int, end as int);
            match r {
                Some(v) => valid_number(part) && v == digits_val(num_body(part)),
                None => !valid_number(part),
            }
        }),
{
    let ghost part = s@.subrange(start as int, end as int);
    let mut i = start;
    if i < end && s.get_char(i) == '+' {
        i = i + 1;
    }
    let ghost bs = i as int;
    proof {
        assert(num_body(part) =~= s@.subrange(bs, end as int));
    }
    let ghost body = s@.subrange(bs, end as int);
    if i == end {
        return None;
    }
    let mut val: usize = 0;
    while i < end
        invariant
            bs <= i <= end <= s@.len(),
            body == s@.subrange(bs, end as int),
            body.len() == end - bs,
            all_digits(body.take(i - bs)),
            val == digits_val(body.take(i - bs)),
        decreases end - i,
    {
        let c = s.get_char(i);
        let cu = c as u32;
        proof {
            assert(body[i - bs] == s@[i as int]);
        }
        if cu < 48 || cu > 57 {
            proof {
                assert(!is_digit(body[i - bs]));
            }
            return None;
        }
        let d = (cu - 48) as usize;
        let ghost pre = body.take(i - bs);
        let ghost post = body.take(i + 1 - bs);
        proof {
            assert(post.drop_last() =~= pre);
            assert(post.last() == body[i - bs]);
            assert(digits_val(post) == val * 10 + d);
        }
        if val > (usize::MAX - d) / 10 {
            proof {
                assert(val * 10 + d > usize::MAX) by (nonlinear_arith)
                    requires
                        val > (usize::MAX - d) / 10,
                        0 <= d <= 9,
                ;
                if all_digits(body) {
                    lemma_digits_val_prefix_le(body, i + 1 - bs);
                }
            }
            return None;
        }
        proof {
            assert(val * 10 + d <= usize::MAX) by (nonlinear_arith)
                requires
                    val <= (usize::MAX - d) / 10,
                    0 <= d <= 9,
            ;
        }
        val = val * 10 + d;
        i = i + 1;
    }
    proof {
        assert(body.take(i - bs) =~= body);
    }
    Some(val)
}

/// Splits `s` at the separator and parses both halves as numbers.
///
/// Returns the pair iff the separator occurs exactly once and both halves
/// are valid numbers; otherwise the error says which condition failed, with
/// the wording the original command line reported.
#[verifier::loop_isolation(false)]
pub fn parse_number_pair(s: &str, separator: char) -> (r: Result<(usize, usize), &'static str>)
    ensures
        ({
            let parts = spec_pair_parts(s@, separator);
            match r {
                Ok(p) => {
                    &&& sep_count(s@, separator) == 1
                    &&& valid_number(parts.0)
                    &&& valid_number(parts.1)
                    &&& p.0 == digits_val(num_body(parts.0))
                    &&& p.1 == digits_val(num_body(parts.1))
                },
                Err(msg) => {
                    if sep_count(s@, separator) != 1 {
                        msg@ == "Invalid format. Use NUMBER1,NUMBER2"@
                    } else {
                        &&& (!valid_number(parts.0) || !valid_number(parts.1))
                        &&& msg@ == "Invalid number"@
                    }
                },
            }
        }),
{
    let len = s.unicode_len();
    let mut count: usize = 0;
    let mut m: usize = 0;
    let mut i: usize = 0;
    while i < len
        invariant
            i <= len,
            len == s@.len(),
            count <= i,
            count == sep_count(s@.take(i as int), separator),
            count > 0 ==> m < i && s@[m as int] == separator && (forall|k: int|
                0 <= k < m ==> s@[k] != separator),
            count == 0 ==> forall|k: int| 0 <= k < i ==> s@[k] != separator,
        decreases len - i,
    {
        let c = s.get_char(i);
        proof {
            let pre = s@.take(i as int);
            let post = s@.take(i + 1);
            assert(post.drop_last() =~= pre);
            assert(post.last() == s@[i as int]);
        }
        if c == separator {
            if count == 0 {
                m = i;
            }
            count = count + 1;
        }
        i = i + 1;
    }
    proof {
        assert(s@.take(len as int) =~= s@);
    }
    if count != 1 {
        return Err("Invalid format. Use NUMBER1,NUMBER2");
    }
    proof {
        lemma_first_sep_at(s@, separator, m as int);
    }
    let a = match parse_usize_range(s, 0, m) {
        Some(v) => v,
        None => {
            proof {
                assert(s@.subrange(0, m as int) =~= s@.take(m as int));
            }
            return Err("Invalid number");
        },
    };
    let b = match parse_usize_range(s, m + 1, len) {
        Some(v) => v,
        None => {
            return Err("Invalid number");
        },
    };
    proof {
        assert(s@.subrange(0, m as int) =~= s@.take(m as int));
    }
    Ok((a, b))
}

} // verus!
