//! Rendering: decimal strings for cell values, bracketed rows with one
//! fractional digit per cell, and the scalar calculator's result line.

use vstd::prelude::*;
use vstd::string::StringExecFns;
use crate::matrix::Matrix;

verus! {

/// The digit character for a value below ten.
pub open spec fn digit_char(d: int) -> char {
    ((48 + d) as u8) as char
}

/// Decimal digits of a non-negative number, most significant first.
pub open spec fn dec_digits(n: nat) -> Seq<char>
    decreases n,
{
    if n < 10 {
        seq![digit_char(n as int)]
    } else {
        dec_digits(n / 10).push(digit_char((n % 10) as int))
    }
}

/// Decimal rendering of an integer, with a leading minus when negative.
pub open spec fn int_chars(v: int) -> Seq<char> {
    if v < 0 {
        seq!['-'] + dec_digits((-v) as nat)
    } else {
        dec_digits(v as nat)
    }
}

/// One rendered cell as it stands inside a row: the value, one fractional
/// digit (always zero for integer cells), and a separating space.
pub open spec fn cell_chars(v: int) -> Seq<char> {
    int_chars(v) + seq!['.', '0', ' ']
}

/// All cells of a row, rendered in order.
pub open spec fn cells_chars(r: Seq<int>) -> Seq<char>
    decreases r.len(),
{
    if r.len() == 0 {
        Seq::empty()
    } else {
        cells_chars(r.drop_last()) + cell_chars(r.last())
    }
}

/// A whole rendered row: bracketed, space-separated cells.
pub open spec fn row_chars(r: Seq<int>) -> Seq<char> {
    seq!['[', ' '] + cells_chars(r) + seq![']']
}

/// Row `i` of a matrix as a sequence of cell values.
pub open spec fn row_seq(m: &Matrix, i: int) -> Seq<int> {
    Seq::new(m.spec_cols() as nat, |j: int| m.entry(i, j))
}

/// The scalar calculator's result line: both operands and their product.
pub open spec fn product_line_chars(a: int, b: int, p: int) -> Seq<char> {
    int_chars(a) + seq![' ', '\u{d7}', ' '] + int_chars(b) + seq![' ', '=', ' '] + int_chars(p)
}

/// The one-character string for a digit value.
fn digit_str(d: u64) -> (r: &'static str)
    requires
        d < 10,
    ensures
        r@ == seq![digit_char(d as int)],
{
    proof {
        reveal_strlit("0");
        reveal_strlit("1");
        reveal_strlit("2");
        reveal_strlit("3");
        reveal_strlit("4");
        reveal_strlit("5");
        reveal_strlit("6");
        reveal_strlit("7");
        reveal_strlit("8");
        reveal_strlit("9");
    }
    let r = match d {
        0 => "0",
        1 => "1",
        2 => "2",
        3 => "3",
        4 => "4",
        5 => "5",
        6 => "6",
        7 => "7",
        8 => "8",
        _ => "9",
    };
    proof {
        assert(r@ =~= seq![digit_char(d as int)]);
    }
    r
}

/// The decimal digits of a non-negative number, as a string.
fn digits_string(n: u64) -> (r: String)
    ensures
        r@ == dec_digits(n as nat),
    decreases n,
{
    let d = n % 10;
    let ds = digit_str(d);
    if n < 10 {
        ds.to_owned()
    } else {
        let mut s = digits_string(n / 10);
        s.append(ds);
        proof {
            assert(dec_digits((n / 10) as nat).push(digit_char(d as int)) =~= dec_digits(
                (n / 10) as nat,
            ) + seq![digit_char(d as int)]);
        }
        s
    }
}

/// Decimal rendering of a cell value, minus sign included.
pub fn render_int(v: i64) -> (r: String)
    ensures
        r@ == int_chars(v as int),
{
    if v >= 0 {
        digits_string(v as u64)
    } else {
        let mag: u64 = ((-(v + 1)) as u64) + 1;
        proof {
            assert(mag as int == -(v as int));
            reveal_strlit("-");
            assert(("-")@ =~= seq!['-']);
        }
        let mut s = "-".to_owned();
        let digits = digits_string(mag);
        s.append(digits.as_str());
        s
    }
}

/// One row of a matrix, rendered as a bracketed line of cells, each with
/// one fractional digit.
#[verifier::loop_isolation(false)]
pub fn render_row(m: &Matrix, i: usize) -> (r: String)
    requires
        m.wf(),
        i < m.spec_rows(),
    ensures
        r@ == row_chars(row_seq(m, i as int)),
{
    proof {
        reveal_strlit("[ ");
        reveal_strlit(".0 ");
        reveal_strlit("]");
        assert(("[ ")@ =~= seq!['[', ' ']);
        assert((".0 ")@ =~= seq!['.', '0', ' ']);
        assert(("]")@ =~= seq![']']);
    }
    let ghost full = row_seq(m, i as int);
    let cols = m.cols();
    let mut s = "[ ".to_owned();
    let mut j: usize = 0;
    while j < cols
        invariant
            j <= cols,
            s@ == seq!['[', ' '] + cells_chars(full.take(j as int)),
        decreases cols - j,
    {
        let cell = render_int(m.get(i, j));
        s.append(cell.as_str());
        s.append(".0 ");
        proof {
            let done = full.take(j as int + 1);
            assert(done.drop_last() =~= full.take(j as int));
            assert(done.last() == m.entry(i as int, j as int));
            assert(s@ =~= seq!['[', ' '] + cells_chars(done));
        }
        j = j + 1;
    }
    s.append("]");
    proof {
        assert(full.take(cols as int) =~= full);
        assert(s@ =~= row_chars(full));
    }
    s
}

/// A whole matrix, rendered as one line per row.
#[verifier::loop_isolation(false)]
pub fn render_matrix(m: &Matrix) -> (r: Vec<String>)
    requires
        m.wf(),
    ensures
        r@.len() == m.spec_rows(),
        forall|i: int| 0 <= i < m.spec_rows() ==> (#[trigger] r@[i])@ == row_chars(row_seq(m, i)),
{
    let rows = m.rows();
    let mut out: Vec<String> = Vec::new();
    let mut i: usize = 0;
    while i < rows
        invariant
            i <= rows,
            out@.len() == i,
            forall|p: int| 0 <= p < i ==> (#[trigger] out@[p])@ == row_chars(row_seq(m, p)),
        decreases rows - i,
    {
        out.push(render_row(m, i));
        i = i + 1;
    }
    out
}

/// The scalar calculator's result line for two operands and their product.
pub fn render_product_line(a: i64, b: i64, p: i64) -> (r: String)
    ensures
        r@ == product_line_chars(a as int, b as int, p as int),
{
    proof {
        reveal_strlit(" \u{d7} ");
        reveal_strlit(" = ");
        assert((" \u{d7} ")@ =~= seq![' ', '\u{d7}', ' ']);
        assert((" = ")@ =~= seq![' ', '=', ' ']);
    }
    let mut s = render_int(a);
    s.append(" \u{d7} ");
    let sb = render_int(b);
    s.append(sb.as_str());
    s.append(" = ");
    let sp = render_int(p);
    s.append(sp.as_str());
    s
}

} // verus!
