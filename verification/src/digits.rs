//! Decimal-digit parsing over character sequences, shared by the retention
//! and duration parsers.
use vstd::prelude::*;
use vstd::string::StrSliceExecFns;

verus! {

/// An ASCII decimal digit.
pub open spec fn is_digit(c: char) -> bool {
    '0' <= c && c <= '9'
}

/// Numeric value of one digit character.
pub open spec fn digit_val(c: char) -> int {
    c as int - '0' as int
}

/// Every character of the sequence is a decimal digit.
pub open spec fn all_digits(s: Seq<char>) -> bool {
    forall|i: int| 0 <= i < s.len() ==> is_digit(#[trigger] s[i])
}

/// The value of a digit sequence read in base ten.
pub open spec fn digits_val(s: Seq<char>) -> int
    decreases s.len(),
{
    if s.len() == 0 {
        0
    } else {
        digits_val(s.drop_last()) * 10 + digit_val(s.last())
    }
}

/// What a plain decimal numeral denotes: at least one character, all digits.
pub open spec fn digits_opt(s: Seq<char>) -> Option<int> {
    if s.len() > 0 && all_digits(s) {
        Some(digits_val(s))
    } else {
        None
    }
}

pub proof fn lemma_digits_val_nonneg(s: Seq<char>)
    requires
        all_digits(s),
    ensures
        digits_val(s) >= 0,
    decreases s.len(),
{
    if s.len() > 0 {
        assert(all_digits(s.drop_last())) by {
            assert(forall|i: int|
                0 <= i < s.len() - 1 ==> is_digit(#[trigger] s.drop_last()[i]) == is_digit(s[i]));
        }
        lemma_digits_val_nonneg(s.drop_last());
        assert(is_digit(s.last()));
    }
}

/// Extending a numeral by one digit multiplies its value by ten and adds the
/// digit.
pub proof fn lemma_digits_val_push(s: Seq<char>, c: char)
    ensures
        digits_val(s.push(c)) == digits_val(s) * 10 + digit_val(c),
{
    assert(s.push(c).drop_last() =~= s);
    assert(s.push(c).last() == c);
}

/// A numeral is worth at least any of its prefixes.
pub proof fn lemma_digits_val_prefix(s: Seq<char>, k: int)
    requires
        all_digits(s),
        0 <= k <= s.len(),
    ensures
        digits_val(s.subrange(0, k)) <= digits_val(s),
    decreases s.len() - k,
{
    if k < s.len() {
        let p = s.subrange(0, k);
        let q = s.subrange(0, k + 1);
        assert(q.drop_last() =~= p);
        assert(q.last() == s[k]);
        assert(all_digits(p)) by {
            assert(forall|i: int| 0 <= i < k ==> is_digit(#[trigger] p[i]) == is_digit(s[i]));
        }
        lemma_digits_val_nonneg(p);
        assert(is_digit(s[k]));
        assert(digits_val(q) == digits_val(p) * 10 + digit_val(s[k]));
        assert(digits_val(p) * 10 >= digits_val(p)) by (nonlinear_arith)
            requires
                digits_val(p) >= 0,
        ;
        lemma_digits_val_prefix(s, k + 1);
    } else {
        assert(s.subrange(0, k) =~= s);
    }
}

/// Reads `s[from..to]` as a decimal numeral. Returns the value when the range
/// is a non-empty run of digits whose value fits in a `u64`, and `None`
/// otherwise.
pub fn parse_digits_u64(s: &str, from: usize, to: usize) -> (r: Option<u64>)
    requires
        from <= to <= s@.len(),
    ensures
        match digits_opt(s@.subrange(from as int, to as int)) {
            Option::None => r is None,
            Option::Some(v) => if v <= u64::MAX { r == Some(v as u64) } else { r is None },
        },
{
    let ghost seg = s@.subrange(from as int, to as int);
    if from == to {
        return None;
    }
    let mut val: u64 = 0;
    let mut i: usize = from;
    while i < to
        invariant
            from <= i <= to <= s@.len(),
            seg == s@.subrange(from as int, to as int),
            all_digits(s@.subrange(from as int, i as int)),
            val as int == digits_val(s@.subrange(from as int, i as int)),
        decreases to - i,
    {
        let c = s.get_char(i);
        if !('0' <= c && c <= '9') {
            proof {
                assert(seg[i - from] == s@[i as int]);
                assert(!all_digits(seg));
            }
            return None;
        }
        let d: u64 = (c as u32 as u64) - ('0' as u32 as u64);
        let ghost pref = s@.subrange(from as int, i as int);
        let ghost prefc = s@.subrange(from as int, i as int + 1);
        proof {
            assert(prefc =~= pref.push(s@[i as int]));
            lemma_digits_val_push(pref, s@[i as int]);
        }
        if val > (u64::MAX - d) / 10 {
            // The numeral has already outgrown u64: every extension only grows.
            proof {
                assert(val as int * 10 + d as int > u64::MAX) by (nonlinear_arith)
                    requires
                        val as int > (u64::MAX as int - d) / 10,
                        0 <= d <= 9,
                ;
                if digits_opt(seg) is Some {
                    assert(all_digits(seg));
                    assert(all_digits(prefc)) by {
                        assert(forall|j: int|
                            0 <= j < prefc.len() ==> #[trigger] prefc[j] == seg[j]);
                    }
                    assert(prefc =~= seg.subrange(0, i - from + 1));
                    lemma_digits_val_prefix(seg, i - from + 1);
                    assert(digits_val(seg) > u64::MAX);
                }
            }
            return None;
        }
        proof {
            assert(val as int * 10 + d as int <= u64::MAX) by (nonlinear_arith)
                requires
                    val as int <= (u64::MAX as int - d) / 10,
                    0 <= d <= 9,
            ;
        }
        val = val * 10 + d;
        i += 1;
        proof {
            assert(all_digits(prefc)) by {
                assert(forall|j: int|
                    0 <= j < pref.len() ==> #[trigger] prefc[j] == pref[j]);
            }
        }
    }
    proof {
        assert(seg =~= s@.subrange(from as int, i as int));
    }
    Some(val)
}

} // verus!
