//! Decimal literals: the mathematical reading of digit strings, a verified
//! 64-bit parser for them, and the verified rendering used on the write path.

use vstd::prelude::*;

verus! {

/// Is `c` a decimal digit?
pub open spec fn is_digit_char(c: char) -> bool {
    '0' <= c && c <= '9'
}

/// The numeric value of a digit character.
pub open spec fn digit_val(c: char) -> int {
    c as int - '0' as int
}

/// Every character of `s` is a decimal digit.
pub open spec fn all_digits(s: Seq<char>) -> bool {
    forall|i: int| 0 <= i < s.len() ==> is_digit_char(#[trigger] s[i])
}

/// The number a digit string denotes, most significant digit first.
pub open spec fn spec_dec_value(s: Seq<char>) -> int
    decreases s.len(),
{
    if s.len() == 0 {
        0
    } else {
        spec_dec_value(s.drop_last()) * 10 + digit_val(s.last())
    }
}

/// The reading of the inner literal of `int(...)`: an optional minus sign,
/// then one or more digits; `None` when malformed or outside the 64-bit
/// signed range.
pub open spec fn spec_int_literal(s: Seq<char>) -> Option<int> {
    if s.len() > 0 && s[0] == '-' {
        let digits = s.drop_first();
        if digits.len() > 0 && all_digits(digits) && -spec_dec_value(digits) >= i64::MIN {
            Some(-spec_dec_value(digits))
        } else {
            None
        }
    } else if s.len() > 0 && all_digits(s) && spec_dec_value(s) <= i64::MAX {
        Some(spec_dec_value(s))
    } else {
        None
    }
}

/// A digit string denotes a non-negative number.
pub proof fn lemma_dec_value_nonneg(s: Seq<char>)
    requires
        all_digits(s),
    ensures
        spec_dec_value(s) >= 0,
    decreases s.len(),
{
    if s.len() > 0 {
        assert(all_digits(s.drop_last()));
        lemma_dec_value_nonneg(s.drop_last());
    }
}

/// Extending a digit string on the right multiplies its value by ten and
/// adds the new digit.
pub proof fn lemma_dec_value_push(s: Seq<char>, c: char)
    ensures
        spec_dec_value(s.push(c)) == spec_dec_value(s) * 10 + digit_val(c),
{
    assert(s.push(c).drop_last() == s);
    assert(s.push(c).last() == c);
}

/// A prefix of a digit string never denotes more than the whole string.
pub proof fn lemma_dec_value_prefix_le(s: Seq<char>, k: int)
    requires
        all_digits(s),
        0 <= k <= s.len(),
    ensures
        spec_dec_value(s.subrange(0, k)) <= spec_dec_value(s),
    decreases s.len() - k,
{
    if k < s.len() {
        let p = s.subrange(0, k);
        let q = s.subrange(0, k + 1);
        assert(q == p.push(s[k]));
        lemma_dec_value_push(p, s[k]);
        assert(all_digits(p));
        lemma_dec_value_nonneg(p);
        lemma_dec_value_prefix_le(s, k + 1);
    } else {
        assert(s.subrange(0, k) == s);
    }
}

/// Parses the character range `[a, b)` of `s` as the inner literal of
/// `int(...)`, exactly as [`spec_int_literal`] reads it.
pub fn parse_i64_range(s: &str, n: usize, a: usize, b: usize) -> (r: Option<i64>)
    requires
        n == s@.len(),
        a <= b <= n,
    ensures
        match r {
            Some(v) => spec_int_literal(s@.subrange(a as int, b as int)) == Some(v as int),
            None => spec_int_literal(s@.subrange(a as int, b as int)) is None,
        },
{
    let ghost inner = s@.subrange(a as int, b as int);
    if a == b {
        return None;
    }
    let neg = s.get_char(a) == '-';
    proof {
        assert(inner[0] == s@[a as int]);
    }
    let start = if neg {
        a + 1
    } else {
        a
    };
    let ghost digits = s@.subrange(start as int, b as int);
    proof {
        if neg {
            assert(digits == inner.drop_first());
        } else {
            assert(digits == inner);
        }
    }
    if start == b {
        // a bare minus sign, or nothing at all
        return None;
    }
    // The largest admissible magnitude: one more for a negated literal.
    let limit: u64 = if neg {
        9223372036854775808
    } else {
        9223372036854775807
    };
    let mut acc: u64 = 0;
    let mut idx: usize = start;
    while idx < b
        invariant
            n == s@.len(),
            a <= start <= idx <= b <= n,
            start <= a + 1,
            inner == s@.subrange(a as int, b as int),
            inner.len() > 0,
            digits.len() > 0,
            neg <==> inner[0] == '-',
            neg ==> digits == inner.drop_first() && start == a + 1,
            !neg ==> digits == inner && start == a,
            digits == s@.subrange(start as int, b as int),
            all_digits(digits.subrange(0, idx - start)),
            acc == spec_dec_value(digits.subrange(0, idx - start)),
            acc <= limit,
            limit == if neg {
                9223372036854775808u64
            } else {
                9223372036854775807u64
            },
        decreases b - idx,
    {
        let c = s.get_char(idx);
        proof {
            assert(digits[idx - start] == s@[idx as int]);
        }
        if c < '0' || c > '9' {
            proof {
                assert(!is_digit_char(digits[idx - start]));
                assert(!all_digits(digits));
            }
            return None;
        }
        let d: u64 = (c as u32 as u64) - 48;
        proof {
            assert(d == digit_val(c));
        }
        let wide: u128 = (acc as u128) * 10 + (d as u128);
        let ghost sofar = digits.subrange(0, idx - start);
        let ghost now = digits.subrange(0, idx + 1 - start);
        proof {
            assert(now == sofar.push(c));
            lemma_dec_value_push(sofar, c);
            assert(wide == spec_dec_value(now));
        }
        if wide > limit as u128 {
            proof {
                assert(all_digits(now));
                if all_digits(digits) {
                    lemma_dec_value_prefix_le(digits, idx + 1 - start);
                    assert(spec_dec_value(digits) >= spec_dec_value(now));
                }
            }
            return None;
        }
        acc = wide as u64;
        idx = idx + 1;
    }
    proof {
        assert(digits.subrange(0, b - start) == digits);
    }
    if neg {
        if acc == 9223372036854775808 {
            Some(i64::MIN)
        } else {
            Some(-(acc as i64))
        }
    } else {
        Some(acc as i64)
    }
}

/// The decimal digits of a non-negative number, most significant first.
pub open spec fn spec_digits_of(v: int) -> Seq<char>
    decreases v,
{
    if v <= 0 {
        seq!['0']
    } else if v < 10 {
        seq![spec_digit_char(v)]
    } else {
        spec_digits_of(v / 10).push(spec_digit_char(v % 10))
    }
}

/// The digit character for a value between zero and nine.
pub open spec fn spec_digit_char(d: int) -> char {
    if d == 0 {
        '0'
    } else if d == 1 {
        '1'
    } else if d == 2 {
        '2'
    } else if d == 3 {
        '3'
    } else if d == 4 {
        '4'
    } else if d == 5 {
        '5'
    } else if d == 6 {
        '6'
    } else if d == 7 {
        '7'
    } else if d == 8 {
        '8'
    } else {
        '9'
    }
}

/// The canonical decimal rendering of a 64-bit signed integer.
pub open spec fn spec_i64_chars(v: int) -> Seq<char> {
    if v < 0 {
        seq!['-'] + spec_digits_of(-v)
    } else {
        spec_digits_of(v)
    }
}

/// The rendering of a number consists of digits only.
pub proof fn lemma_digits_of_all_digits(v: int)
    ensures
        all_digits(spec_digits_of(v)),
        spec_digits_of(v).len() > 0,
    decreases v,
{
    if v > 0 && v >= 10 {
        lemma_digits_of_all_digits(v / 10);
        let p = spec_digits_of(v / 10);
        assert(forall|i: int|
            0 <= i < p.len() ==> p.push(spec_digit_char(v % 10))[i] == p[i]);
    }
}

/// Rendering then reading a non-negative number gives it back.
pub proof fn lemma_digits_of_value(v: int)
    requires
        v >= 0,
    ensures
        spec_dec_value(spec_digits_of(v)) == v,
    decreases v,
{
    assert(spec_dec_value(Seq::<char>::empty()) == 0);
    if v >= 10 {
        lemma_digits_of_value(v / 10);
        lemma_dec_value_push(spec_digits_of(v / 10), spec_digit_char(v % 10));
    } else {
        let c = spec_digit_char(v);
        assert(seq![c].drop_last() == Seq::<char>::empty());
        assert(spec_dec_value(seq![c]) == digit_val(c));
    }
}

fn digit_str(d: u64) -> (r: &'static str)
    requires
        d < 10,
    ensures
        r@ == seq![spec_digit_char(d as int)],
{
    let r = if d == 0 {
        "0"
    } else if d == 1 {
        "1"
    } else if d == 2 {
        "2"
    } else if d == 3 {
        "3"
    } else if d == 4 {
        "4"
    } else if d == 5 {
        "5"
    } else if d == 6 {
        "6"
    } else if d == 7 {
        "7"
    } else if d == 8 {
        "8"
    } else {
        "9"
    };
    proof {
        reveal_strlit("0");
        reveal_strlit("1");
        reveal_strlit("2");
        reveal_strlit("3");
        reveal_strlit("4");
        reveal_strlit("5");
        reveal_strlit("6");
        reveal_strlit("7");
        reveal_strlit("8");
        reveal_strlit("9");
    }
    r
}

/// The reversed digits collected so far, rendered as characters.
spec fn collected_chars(digits: Seq<u64>) -> Seq<char> {
    Seq::new(digits.len(), |k: int| spec_digit_char(digits[digits.len() - 1 - k] as int))
}

/// Appends the canonical decimal rendering of `v` to `out`.
pub fn append_i64(out: &mut String, v: i64)
    ensures
        final(out)@ == old(out)@ + spec_i64_chars(v as int),
{
    let mag: u64 = if v < 0 {
        if v == i64::MIN {
            9223372036854775808
        } else {
            (-v) as u64
        }
    } else {
        v as u64
    };
    if v < 0 {
        out.append("-");
        proof {
            reveal_strlit("-");
            assert(out@ =~= old(out)@ + seq!['-']);
        }
    }
    append_u64(out, mag);
    proof {
        assert(out@ =~= old(out)@ + spec_i64_chars(v as int));
    }
}

/// Appends the canonical decimal rendering of `v` to `out`.
pub fn append_u64(out: &mut String, v: u64)
    ensures
        final(out)@ == old(out)@ + spec_digits_of(v as int),
{
    let mag = v;
    let ghost base = out@;
    let ghost target = mag as int;
    // collect digits, least significant first
    let mut digits: Vec<u64> = Vec::new();
    let mut rest: u64 = mag;
    while digits.len() == 0 || rest > 0
        invariant
            forall|k: int| 0 <= k < digits@.len() ==> #[trigger] digits@[k] < 10,
            digits@.len() == 0 ==> rest == mag,
            digits@.len() > 0 && rest > 0 ==> spec_digits_of(target) == spec_digits_of(rest as int)
                + collected_chars(digits@),
            digits@.len() > 0 && rest == 0 ==> spec_digits_of(target) == collected_chars(digits@),
            target == mag as int,
        decreases rest, (if digits@.len() == 0 { 1int } else { 0int }),
    {
        let ghost prev_digits = digits@;
        let ghost prev_rest = rest as int;
        let d = rest % 10;
        let next = rest / 10;
        digits.push(d);
        rest = next;
        proof {
            assert(collected_chars(digits@) =~= seq![spec_digit_char(d as int)] + collected_chars(
                prev_digits,
            ));
            if next == 0 {
                // the digits of a one-digit number
                assert(spec_digits_of(prev_rest) =~= seq![spec_digit_char(d as int)]);
            } else {
                assert(spec_digits_of(prev_rest) =~= spec_digits_of(next as int) + seq![
                    spec_digit_char(d as int),
                ]);
            }
            if prev_digits.len() > 0 {
                assert(spec_digits_of(target) =~= spec_digits_of(prev_rest) + collected_chars(
                    prev_digits,
                ));
            }
        }
    }
    let mut k: usize = digits.len();
    while k > 0
        invariant
            k <= digits@.len(),
            forall|j: int| 0 <= j < digits@.len() ==> #[trigger] digits@[j] < 10,
            out@ == base + collected_chars(digits@).subrange(0, digits@.len() - k),
        decreases k,
    {
        k = k - 1;
        out.append(digit_str(digits[k]));
        proof {
            assert(out@ =~= base + collected_chars(digits@).subrange(0, digits@.len() - k));
        }
    }
    proof {
        assert(collected_chars(digits@).subrange(0, digits@.len() as int) == collected_chars(
            digits@,
        ));
        assert(out@ =~= old(out)@ + spec_digits_of(v as int));
    }
}

} // verus!
