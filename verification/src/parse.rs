//! Parsing of the free-text input fields. Each field is parsed
//! independently by an explicit, exactly specified grammar; a field that
//! does not parse is reported as such, and the caller substitutes zero —
//! the recovery policy is the caller's, not hidden in the parser.
//!
//! Angles are read as plain signed decimal numbers (an optional sign,
//! digits, optionally a point and more digits) straight into micro-degree
//! fixed point: the first six fraction digits are taken and further ones
//! are truncated. This is deliberately narrower than the general
//! floating-point syntax: exponent forms such as `1e2`, the words for
//! infinities and non-numbers, and whole parts of a trillion degrees or
//! more are all rejected (and so fall to the caller's zero default).
//! Calendar fields are read as signed whole numbers with the value range
//! of `i32`.

use vstd::prelude::*;
use vstd::string::StrSliceExecFns;

verus! {

/// Whether a character is a decimal digit.
pub open spec fn is_digit(c: char) -> bool {
    48 <= c as u32 <= 57
}

/// The numeric value of a digit character.
pub open spec fn digit_val(c: char) -> int {
    (c as u32) - 48
}

/// Whether every character of the sequence is a decimal digit.
pub open spec fn all_digits(s: Seq<char>) -> bool {
    forall|i: int| 0 <= i < s.len() ==> is_digit(s[i])
}

/// The value of a digit sequence read in base ten.
pub open spec fn digits_val(s: Seq<char>) -> int
    decreases s.len(),
{
    if s.len() == 0 {
        0
    } else {
        digits_val(s.drop_last()) * 10 + digit_val(s.last())
    }
}

/// A digit sequence never has a negative value.
pub proof fn lemma_digits_val_nonneg(s: Seq<char>)
    requires
        all_digits(s),
    ensures
        digits_val(s) >= 0,
    decreases s.len(),
{
    if s.len() > 0 {
        assert(all_digits(s.drop_last()));
        lemma_digits_val_nonneg(s.drop_last());
    }
}

/// The index of the first decimal point of the sequence, or its length
/// if it has none.
pub open spec fn dot_index(s: Seq<char>) -> int
    decreases s.len(),
{
    if s.len() == 0 {
        0
    } else if s[0] == '.' {
        0
    } else {
        1 + dot_index(s.subrange(1, s.len() as int))
    }
}

/// `dot_index` is what its name says: no dot lies before it, and a dot
/// lies at it unless it is the length.
pub proof fn lemma_dot_index(s: Seq<char>)
    ensures
        0 <= dot_index(s) <= s.len(),
        forall|j: int| 0 <= j < dot_index(s) ==> s[j] != '.',
        dot_index(s) < s.len() ==> s[dot_index(s)] == '.',
    decreases s.len(),
{
    if s.len() > 0 && s[0] != '.' {
        lemma_dot_index(s.subrange(1, s.len() as int));
        assert forall|j: int| 0 <= j < dot_index(s) implies s[j] != '.' by {
            if j > 0 {
                assert(s.subrange(1, s.len() as int)[j - 1] == s[j]);
            }
        }
        if dot_index(s) < s.len() {
            assert(s.subrange(1, s.len() as int)[dot_index(s) - 1] == s[dot_index(s)]);
        }
    }
}

/// The first characterization pins the dot index: any position with no
/// dot before it that is either the length or holds a dot is `dot_index`.
pub proof fn lemma_dot_index_unique(s: Seq<char>, d: int)
    requires
        0 <= d <= s.len(),
        forall|j: int| 0 <= j < d ==> s[j] != '.',
        d < s.len() ==> s[d] == '.',
    ensures
        d == dot_index(s),
{
    lemma_dot_index(s);
    if d < dot_index(s) {
        assert(s[d] != '.');
        assert(false);
    }
    if dot_index(s) < d {
        assert(s[dot_index(s)] != '.');
        assert(false);
    }
}

/// The first six fraction digits as a micro-unit count: shorter fraction
/// parts are padded with zeros, longer ones are truncated.
pub open spec fn frac_micro(f: Seq<char>) -> int {
    if f.len() >= 6 {
        digits_val(f.subrange(0, 6))
    } else if f.len() == 5 {
        digits_val(f) * 10
    } else if f.len() == 4 {
        digits_val(f) * 100
    } else if f.len() == 3 {
        digits_val(f) * 1000
    } else if f.len() == 2 {
        digits_val(f) * 10000
    } else if f.len() == 1 {
        digits_val(f) * 100000
    } else {
        0
    }
}

/// The largest whole-degree magnitude the angle grammar accepts; integer
/// parts at or above it are rejected rather than overflowed.
pub const MAX_WHOLE: i64 = 1_000_000_000_000;

/// The angle grammar at specification level: an optional sign, then
/// digits with at most one decimal point among them, at least one digit
/// in all, the whole part below `MAX_WHOLE`; the value in micro-units,
/// the fraction truncated to six digits.
pub open spec fn spec_parse_micro(s: Seq<char>) -> Option<int> {
    if s.len() == 0 {
        None
    } else {
        let has_sign = s[0] == '+' || s[0] == '-';
        let neg = s[0] == '-';
        let rest = if has_sign {
            s.subrange(1, s.len() as int)
        } else {
            s
        };
        let d = dot_index(rest);
        let ip = rest.subrange(0, d);
        let fp = if d < rest.len() {
            rest.subrange(d + 1, rest.len() as int)
        } else {
            Seq::<char>::empty()
        };
        if ip.len() + fp.len() == 0 || !all_digits(ip) || !all_digits(fp) {
            None
        } else if digits_val(ip) >= MAX_WHOLE {
            None
        } else {
            let v = digits_val(ip) * 1_000_000 + frac_micro(fp);
            if neg {
                Some(-v)
            } else {
                Some(v)
            }
        }
    }
}

/// Scans `s` over `[from, to)` for a run of digits. `None` when some
/// character there is no digit. Otherwise the value of the run, with a
/// flag: either the flag is clear and the value lies below `cap`, or the
/// flag is set and the value (which the scan then does not carry) is at
/// least `cap`.
fn scan_digits(s: &str, from: usize, to: usize, cap: i64) -> (r: Option<(i64, bool)>)
    requires
        from <= to <= s@.len(),
        1 <= cap <= 2_000_000_000_000,
    ensures
        ({
            let run = s@.subrange(from as int, to as int);
            match r {
                Some(p) => {
                    &&& all_digits(run)
                    &&& (p.1 ==> digits_val(run) >= cap)
                    &&& (!p.1 ==> p.0 == digits_val(run) && 0 <= p.0 < cap)
                },
                None => !all_digits(run),
            }
        }),
{
    let mut idx: usize = from;
    let mut acc: i64 = 0;
    let mut big: bool = false;
    proof {
        assert(s@.subrange(from as int, from as int) =~= Seq::<char>::empty());
    }
    while idx < to
        invariant
            from <= idx <= to <= s@.len(),
            1 <= cap <= 2_000_000_000_000,
            forall|j: int| from <= j < idx ==> is_digit(s@[j]),
            !big ==> acc == digits_val(s@.subrange(from as int, idx as int)) && 0 <= acc < cap,
            big ==> digits_val(s@.subrange(from as int, idx as int)) >= cap,
        decreases to - idx,
    {
        let c: char = s.get_char(idx);
        let cu: u32 = c as u32;
        if cu < 48 || cu > 57 {
            proof {
                let run = s@.subrange(from as int, to as int);
                assert(run[idx - from] == s@[idx as int]);
                assert(!is_digit(run[idx - from]));
            }
            return None;
        }
        proof {
            let old_pre = s@.subrange(from as int, idx as int);
            let new_pre = s@.subrange(from as int, idx + 1);
            assert(new_pre.drop_last() =~= old_pre);
            assert(new_pre.last() == s@[idx as int]);
            assert(digits_val(new_pre) == digits_val(old_pre) * 10 + digit_val(s@[idx as int]));
            if big {
                lemma_digits_val_nonneg(old_pre);
            }
        }
        if !big {
            let next: i64 = acc * 10 + ((cu - 48) as i64);
            if next >= cap {
                big = true;
            } else {
                acc = next;
            }
            proof {
                if big {
                    assert(digits_val(s@.subrange(from as int, idx + 1)) >= cap);
                }
            }
        }
        idx = idx + 1;
    }
    Some((acc, big))
}

/// The whole-number grammar at specification level: an optional sign and
/// digits, with the value within the range of `i32`.
pub open spec fn spec_parse_i32(s: Seq<char>) -> Option<int> {
    if s.len() == 0 {
        None
    } else {
        let has_sign = s[0] == '+' || s[0] == '-';
        let neg = s[0] == '-';
        let rest = if has_sign {
            s.subrange(1, s.len() as int)
        } else {
            s
        };
        if rest.len() == 0 || !all_digits(rest) {
            None
        } else {
            let v = if neg {
                -digits_val(rest)
            } else {
                digits_val(rest)
            };
            if -2_147_483_648 <= v <= 2_147_483_647 {
                Some(v)
            } else {
                None
            }
        }
    }
}

/// Parses a whole number with the value range of `i32`: exactly the
/// strings of `spec_parse_i32` succeed, with exactly that value.
pub fn parse_i32(s: &str) -> (r: Option<i32>)
    ensures
        ({
            match r {
                Some(v) => spec_parse_i32(s@) == Some(v as int),
                None => spec_parse_i32(s@) is None,
            }
        }),
{
    let n: usize = s.unicode_len();
    if n == 0 {
        return None;
    }
    let c0: char = s.get_char(0);
    let has_sign: bool = c0 == '+' || c0 == '-';
    let neg: bool = c0 == '-';
    let start: usize = if has_sign {
        1
    } else {
        0
    };
    proof {
        if has_sign {
            assert(s@.subrange(1, s@.len() as int) =~= s@.subrange(start as int, n as int));
        } else {
            assert(s@ =~= s@.subrange(start as int, n as int));
        }
    }
    if start >= n {
        return None;
    }
    let scanned: Option<(i64, bool)> = scan_digits(s, start, n, 2_147_483_649);
    match scanned {
        None => None,
        Some(p) => {
            if p.1 {
                proof {
                    lemma_digits_val_nonneg(s@.subrange(start as int, n as int));
                }
                None
            } else if neg {
                Some((-p.0) as i32)
            } else if p.0 > 2_147_483_647 {
                None
            } else {
                Some(p.0 as i32)
            }
        },
    }
}

/// Parses a signed decimal angle straight into micro-units: exactly the
/// strings of `spec_parse_micro` succeed, with exactly that value.
#[verifier::loop_isolation(false)]
#[verifier::rlimit(60)]
pub fn parse_angle_micro(s: &str) -> (r: Option<i64>)
    ensures
        ({
            match r {
                Some(v) => spec_parse_micro(s@) == Some(v as int),
                None => spec_parse_micro(s@) is None,
            }
        }),
{
    let n: usize = s.unicode_len();
    if n == 0 {
        return None;
    }
    let c0: char = s.get_char(0);
    let has_sign: bool = c0 == '+' || c0 == '-';
    let neg: bool = c0 == '-';
    let start: usize = if has_sign {
        1
    } else {
        0
    };
    let ghost rest = if has_sign {
        s@.subrange(1, s@.len() as int)
    } else {
        s@
    };
    proof {
        assert(rest =~= s@.subrange(start as int, n as int));
    }
    let mut d: usize = start;
    while d < n && s.get_char(d) != '.'
        invariant
            start <= d <= n,
            n == s@.len(),
            forall|j: int| start <= j < d ==> s@[j] != '.',
        decreases n - d,
    {
        d = d + 1;
    }
    proof {
        assert forall|j: int| 0 <= j < d - start implies rest[j] != '.' by {
            assert(rest[j] == s@[start + j]);
        }
        if (d as int) - (start as int) < rest.len() {
            assert(rest[d - start] == s@[d as int]);
        }
        lemma_dot_index_unique(rest, d as int - start as int);
        assert(rest.subrange(0, d as int - start as int) =~= s@.subrange(start as int, d as int));
    }
    let scanned: Option<(i64, bool)> = scan_digits(s, start, d, MAX_WHOLE);
    let p: (i64, bool) = match scanned {
        None => {
            return None;
        },
        Some(p) => p,
    };
    let fstart: usize = if d < n {
        d + 1
    } else {
        n
    };
    let ghost fp = if (d as int) - (start as int) < rest.len() {
        rest.subrange(d as int - start as int + 1, rest.len() as int)
    } else {
        Seq::<char>::empty()
    };
    proof {
        assert(fp =~= s@.subrange(fstart as int, n as int));
    }
    let mut j: usize = fstart;
    let mut facc: i64 = 0;
    let mut fcnt: usize = 0;
    proof {
        assert(s@.subrange(fstart as int, fstart as int) =~= Seq::<char>::empty());
    }
    while j < n
        invariant
            fstart <= j <= n,
            n == s@.len(),
            fstart as int == if (d as int) < n as int {
                d + 1
            } else {
                n as int
            },
            d <= n,
            fp == s@.subrange(fstart as int, n as int),
            forall|k: int| fstart <= k < j ==> is_digit(s@[k]),
            fcnt as int == if j - fstart <= 6 {
                j as int - fstart as int
            } else {
                6
            },
            facc == digits_val(s@.subrange(fstart as int, fstart as int + fcnt as int)),
            fcnt == 0 ==> facc == 0,
            fcnt <= 1 ==> facc <= 9,
            fcnt <= 2 ==> facc <= 99,
            fcnt <= 3 ==> facc <= 999,
            fcnt <= 4 ==> facc <= 9_999,
            fcnt <= 5 ==> facc <= 99_999,
            0 <= facc <= 999_999,
        decreases n - j,
    {
        let c: char = s.get_char(j);
        let cu: u32 = c as u32;
        if cu < 48 || cu > 57 {
            proof {
                assert(fp[j - fstart] == s@[j as int]);
                assert(!all_digits(fp));
            }
            return None;
        }
        if fcnt < 6 {
            proof {
                let old_pre = s@.subrange(fstart as int, fstart as int + fcnt as int);
                let new_pre = s@.subrange(fstart as int, fstart as int + fcnt as int + 1);
                assert(new_pre.drop_last() =~= old_pre);
                assert(new_pre.last() == s@[fstart as int + fcnt as int]);
                assert(fstart as int + fcnt as int == j as int);
            }
            facc = facc * 10 + ((cu - 48) as i64);
            fcnt = fcnt + 1;
        }
        j = j + 1;
    }
    if d == start && fstart == n {
        return None;
    }
    if p.1 {
        proof {
            lemma_digits_val_nonneg(s@.subrange(start as int, d as int));
        }
        return None;
    }
    let fv: i64 = if fcnt == 6 {
        facc
    } else if fcnt == 5 {
        facc * 10
    } else if fcnt == 4 {
        facc * 100
    } else if fcnt == 3 {
        facc * 1000
    } else if fcnt == 2 {
        facc * 10000
    } else if fcnt == 1 {
        facc * 100000
    } else {
        0
    };
    proof {
        if fp.len() >= 6 {
            assert(fp.subrange(0, 6) =~= s@.subrange(fstart as int, fstart as int + 6));
        } else {
            assert(fp =~= s@.subrange(fstart as int, fstart as int + fp.len() as int));
        }
        assert(fv == frac_micro(fp));
    }
    let v: i64 = p.0 * 1_000_000 + fv;
    if neg {
        Some(-v)
    } else {
        Some(v)
    }
}

} // verus!
