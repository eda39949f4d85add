//! Line-oriented numeric input: trimming, integer literals, and the
//! default-on-failure policy (blank or unparseable input stands for zero).

use vstd::prelude::*;

verus! {

/// A byte that trimming removes from either end of a line: space, tab,
/// line feed, carriage return.
pub open spec fn is_space(b: u8) -> bool {
    b == 32u8 || b == 9u8 || b == 10u8 || b == 13u8
}

/// A decimal digit byte.
pub open spec fn is_digit(b: u8) -> bool {
    48 <= b <= 57
}

/// A sign byte: `+` or `-`.
pub open spec fn is_sign(b: u8) -> bool {
    b == 43u8 || b == 45u8
}

/// The line with leading and trailing whitespace removed.
pub open spec fn trimmed(s: Seq<u8>) -> Seq<u8>
    decreases s.len(),
{
    if s.len() == 0 {
        s
    } else if is_space(s[0]) {
        trimmed(s.subrange(1, s.len() as int))
    } else if is_space(s[s.len() - 1]) {
        trimmed(s.subrange(0, s.len() - 1))
    } else {
        s
    }
}

/// Value of a sequence of decimal digit bytes, most significant first.
pub open spec fn digits_value(s: Seq<u8>) -> int
    decreases s.len(),
{
    if s.len() == 0 {
        0
    } else {
        digits_value(s.drop_last()) * 10 + (s.last() - 48)
    }
}

/// The digits of a literal: everything after an optional leading sign.
pub open spec fn digits_part(s: Seq<u8>) -> Seq<u8> {
    if s.len() > 0 && is_sign(s[0]) {
        s.subrange(1, s.len() as int)
    } else {
        s
    }
}

/// An integer literal: an optional sign followed by at least one digit.
pub open spec fn is_int_literal(s: Seq<u8>) -> bool {
    &&& digits_part(s).len() > 0
    &&& forall|i: int| 0 <= i < digits_part(s).len() ==> is_digit(#[trigger] digits_part(s)[i])
}

/// Mathematical value of an integer literal.
pub open spec fn literal_value(s: Seq<u8>) -> int {
    if s.len() > 0 && s[0] == 45u8 {
        -digits_value(digits_part(s))
    } else {
        digits_value(digits_part(s))
    }
}

/// How one input line is read: blank, a number, or unusable.
#[derive(PartialEq, Eq, Structural, Clone, Copy, Debug)]
pub enum LineValue {
    /// Nothing but whitespace.
    Blank,
    /// An integer literal whose value fits the cell type.
    Number(i64),
    /// Anything else, out-of-range literals included.
    Invalid,
}

/// The class a line falls in once trimmed.
pub open spec fn line_class(s: Seq<u8>) -> LineValue {
    let t = trimmed(s);
    if t.len() == 0 {
        LineValue::Blank
    } else if is_int_literal(t) && i64::MIN <= literal_value(t) <= i64::MAX {
        LineValue::Number(literal_value(t) as i64)
    } else {
        LineValue::Invalid
    }
}

/// The cell value a line stands for: its number if it has one, otherwise
/// the default zero.
pub open spec fn cell_value(s: Seq<u8>) -> int {
    match line_class(s) {
        LineValue::Number(v) => v as int,
        _ => 0,
    }
}

/// Digit sequences have non-negative values.
pub proof fn lemma_digits_nonneg(s: Seq<u8>)
    requires
        forall|i: int| 0 <= i < s.len() ==> is_digit(#[trigger] s[i]),
    ensures
        digits_value(s) >= 0,
    decreases s.len(),
{
    if s.len() > 0 {
        lemma_digits_nonneg(s.drop_last());
    }
}

/// Extending a digit sequence on the right never lowers its value.
pub proof fn lemma_digits_take_le(s: Seq<u8>, k: int)
    requires
        forall|i: int| 0 <= i < s.len() ==> is_digit(#[trigger] s[i]),
        0 <= k <= s.len(),
    ensures
        digits_value(s.take(k)) <= digits_value(s),
    decreases s.len(),
{
    if k == s.len() {
        assert(s.take(k) =~= s);
    } else {
        let front = s.drop_last();
        assert(s.take(k) =~= front.take(k));
        lemma_digits_take_le(front, k);
        lemma_digits_nonneg(front);
    }
}

/// Trimming keeps exactly the bytes between the first and last non-space.
pub proof fn lemma_trimmed_is_subrange(s: Seq<u8>, lo: int, hi: int)
    requires
        0 <= lo <= hi <= s.len(),
        forall|j: int| 0 <= j < lo ==> is_space(#[trigger] s[j]),
        forall|j: int| hi <= j < s.len() ==> is_space(#[trigger] s[j]),
        lo < hi ==> !is_space(s[lo]) && !is_space(s[hi - 1]),
    ensures
        trimmed(s) =~= s.subrange(lo, hi),
    decreases s.len(),
{
    if s.len() == 0 {
    } else if is_space(s[0]) {
        let tail = s.subrange(1, s.len() as int);
        if lo == hi {
            lemma_trimmed_is_subrange(tail, 0, 0);
        } else {
            lemma_trimmed_is_subrange(tail, lo - 1, hi - 1);
            assert(tail.subrange(lo - 1, hi - 1) =~= s.subrange(lo, hi));
        }
    } else if is_space(s[s.len() - 1]) {
        let front = s.subrange(0, s.len() - 1);
        lemma_trimmed_is_subrange(front, lo, hi);
        assert(front.subrange(lo, hi) =~= s.subrange(lo, hi));
    } else {
    }
}

/// Whether a byte is trimmed away.
fn space_byte(b: u8) -> (r: bool)
    ensures
        r == is_space(b),
{
    b == 32 || b == 9 || b == 10 || b == 13
}

/// Reads one input line: blank once trimmed, an in-range integer literal,
/// or invalid. Mirrors `line_class` exactly.
#[verifier::loop_isolation(false)]
pub fn classify_line(line: &Vec<u8>) -> (r: LineValue)
    ensures
        r == line_class(line@),
{
    let n = line.len();
    let mut lo: usize = 0;
    while lo < n && space_byte(line[lo])
        invariant
            lo <= n,
            forall|j: int| 0 <= j < lo ==> is_space(#[trigger] line@[j]),
        decreases n - lo,
    {
        lo = lo + 1;
    }
    let mut hi: usize = n;
    while hi > lo && space_byte(line[hi - 1])
        invariant
            lo <= hi <= n,
            forall|j: int| hi <= j < n ==> is_space(#[trigger] line@[j]),
        decreases hi,
    {
        hi = hi - 1;
    }
    proof {
        lemma_trimmed_is_subrange(line@, lo as int, hi as int);
    }
    let ghost t = line@.subrange(lo as int, hi as int);
    if lo == hi {
        return LineValue::Blank;
    }
    let first = line[lo];
    let neg = first == 45;
    let start: usize = if neg || first == 43 {
        lo + 1
    } else {
        lo
    };
    proof {
        assert(digits_part(t) =~= line@.subrange(start as int, hi as int));
    }
    if start == hi {
        // A bare sign has no digits, so it is no literal.
        return LineValue::Invalid;
    }
    let mut val: i64 = 0;
    let mut k: usize = start;
    while k < hi
        invariant
            start <= k <= hi,
            forall|m: int| start <= m < k ==> is_digit(#[trigger] line@[m]),
            neg ==> val as int == -digits_value(line@.subrange(start as int, k as int)),
            !neg ==> val as int == digits_value(line@.subrange(start as int, k as int)),
        decreases hi - k,
    {
        let b = line[k];
        if !(48 <= b && b <= 57) {
            // A non-digit after the sign: the trimmed line is no literal.
            assert(!is_int_literal(t)) by {
                assert(digits_part(t)[k - start] == line@[k as int]);
            }
            return LineValue::Invalid;
        }
        let d = (b - 48) as i64;
        let ghost prefix = line@.subrange(start as int, k as int);
        let ghost extended = line@.subrange(start as int, k as int + 1);
        proof {
            assert(extended.drop_last() =~= prefix);
            assert(extended.last() == line@[k as int]);
            assert(digits_value(extended) == digits_value(prefix) * 10 + (b - 48));
            lemma_digits_nonneg(prefix);
        }
        let shifted = val.checked_mul(10);
        let stepped: Option<i64> = match shifted {
            Some(m) => if neg {
                m.checked_sub(d)
            } else {
                m.checked_add(d)
            },
            None => None,
        };
        match stepped {
            Some(v) => {
                val = v;
            },
            None => {
                // The value has already left the cell range; more digits only
                // push it further out, so the line is invalid either way.
                proof {
                    if neg {
                        assert(-digits_value(extended) < i64::MIN);
                    } else {
                        assert(digits_value(extended) > i64::MAX);
                    }
                    if is_int_literal(t) {
                        let dp = digits_part(t);
                        assert(extended =~= dp.take(k - start + 1));
                        lemma_digits_take_le(dp, k - start + 1);
                    }
                }
                return LineValue::Invalid;
            },
        }
        k = k + 1;
    }
    proof {
        assert(digits_part(t) =~= line@.subrange(start as int, hi as int));
        assert(is_int_literal(t));
    }
    LineValue::Number(val)
}

/// The value a line puts in a cell: its number, or zero for blank or
/// invalid input, the non-fatal default policy.
pub fn cell_of_line(line: &Vec<u8>) -> (v: i64)
    ensures
        v as int == cell_value(line@),
{
    match classify_line(line) {
        LineValue::Number(v) => v,
        LineValue::Blank => 0,
        LineValue::Invalid => 0,
    }
}

} // verus!
