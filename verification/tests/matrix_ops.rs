use matmul::matrix::{from_lines, identity, multiply, product_of, Matrix, ProductError};
use matmul::render::{render_matrix, render_row};

fn lines_of(texts: &[&str]) -> Vec<Vec<u8>> {
    texts.iter().map(|t| t.as_bytes().to_vec()).collect()
}

fn grid(m: &Matrix) -> Vec<Vec<i64>> {
    let mut out = Vec::new();
    for i in 0..m.rows() {
        let mut row = Vec::new();
        for j in 0..m.cols() {
            row.push(m.get(i, j));
        }
        out.push(row);
    }
    out
}

#[test]
fn builder_fills_row_major() {
    let m = from_lines(2, 3, &lines_of(&["1", "2", "3", "4", "5", "6"]));
    assert_eq!(m.rows(), 2);
    assert_eq!(m.cols(), 3);
    assert_eq!(grid(&m), vec![vec![1, 2, 3], vec![4, 5, 6]]);
}

#[test]
fn blank_input_builds_zero_matrix() {
    let m = from_lines(2, 3, &lines_of(&["", "", "", "", "", ""]));
    assert_eq!(m.rows(), 2);
    assert_eq!(m.cols(), 3);
    assert_eq!(grid(&m), vec![vec![0, 0, 0], vec![0, 0, 0]]);
}

#[test]
fn invalid_line_defaults_without_aborting() {
    let m = from_lines(2, 2, &lines_of(&["1", "abc", "3", "4"]));
    assert_eq!(grid(&m), vec![vec![1, 0], vec![3, 4]]);
}

#[test]
fn concrete_product_is_exact() {
    let a = from_lines(2, 3, &lines_of(&["1", "2", "3", "4", "5", "6"]));
    let b = from_lines(3, 2, &lines_of(&["7", "8", "9", "10", "11", "12"]));
    assert!(a.can_multiply(&b));
    let r = multiply(&a, &b);
    assert_eq!(grid(&r), vec![vec![58, 64], vec![139, 154]]);
}

#[test]
fn product_dimensions_follow_operands() {
    let a = from_lines(3, 4, &lines_of(&["1"; 12]));
    let b = from_lines(4, 2, &lines_of(&["2"; 8]));
    let r = multiply(&a, &b);
    assert_eq!(r.rows(), 3);
    assert_eq!(r.cols(), 2);
}

#[test]
fn shape_mismatch_yields_no_result() {
    let a = from_lines(2, 3, &lines_of(&["1"; 6]));
    let b = from_lines(2, 2, &lines_of(&["1"; 4]));
    assert!(!a.can_multiply(&b));
    assert!(matches!(product_of(&a, &b), Err(ProductError::ShapeMismatch)));
}

#[test]
fn oversized_accumulation_is_reported() {
    let a = from_lines(1, 1, &lines_of(&["9223372036854775807"]));
    let b = from_lines(1, 1, &lines_of(&["2"]));
    assert!(matches!(product_of(&a, &b), Err(ProductError::CellOverflow)));
}

#[test]
fn compatible_shapes_yield_a_result() {
    let a = from_lines(2, 3, &lines_of(&["1"; 6]));
    let b = from_lines(3, 2, &lines_of(&["1"; 6]));
    let r = product_of(&a, &b).expect("compatible shapes multiply");
    assert_eq!(grid(&r), vec![vec![3, 3], vec![3, 3]]);
}

#[test]
fn identity_leaves_matrix_unchanged() {
    let m = from_lines(2, 3, &lines_of(&["1", "-2", "3", "40", "5", "-6"]));
    let id = identity(3);
    let r = multiply(&m, &id);
    assert_eq!(grid(&r), grid(&m));
}

#[test]
fn identity_matrix_has_unit_diagonal() {
    let id = identity(2);
    assert_eq!(grid(&id), vec![vec![1, 0], vec![0, 1]]);
}

#[test]
fn negative_cells_multiply_correctly() {
    let a = from_lines(1, 2, &lines_of(&["-2", "3"]));
    let b = from_lines(2, 1, &lines_of(&["4", "-5"]));
    let r = multiply(&a, &b);
    assert_eq!(grid(&r), vec![vec![-23]]);
}

#[test]
fn rows_render_bracketed_with_one_decimal() {
    let a = from_lines(2, 3, &lines_of(&["1", "2", "3", "4", "5", "6"]));
    let b = from_lines(3, 2, &lines_of(&["7", "8", "9", "10", "11", "12"]));
    let r = multiply(&a, &b);
    let printed = render_matrix(&r);
    assert_eq!(printed, vec!["[ 58.0 64.0 ]", "[ 139.0 154.0 ]"]);
}

#[test]
fn negative_cells_render_with_sign() {
    let m = from_lines(1, 2, &lines_of(&["-3", ""]));
    assert_eq!(render_row(&m, 0), "[ -3.0 0.0 ]");
}
