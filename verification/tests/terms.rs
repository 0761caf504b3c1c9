use halo2_proofs::plonk::Expression;
use halo2_proofs::poly::Rotation;
use pasta_curves::Fp;
use zk_layers::conv::Geometry;
use zk_layers::encoder::{decode, encode};
use zk_layers::term::{add_term_grids, affine_term, correlate, linear_term, value_neg, Term};

fn known(x: i32) -> Option<Fp> {
    Some(encode(x).unwrap())
}

fn constant(x: i32) -> Expression<Fp> {
    Expression::Constant(encode(x).unwrap())
}

fn cell(column: usize) -> Expression<Fp> {
    Expression::Advice { query_index: column, column_index: column, rotation: Rotation::cur() }
}

fn value_of(e: &Expression<Fp>, cells: &[Fp]) -> Fp {
    e.evaluate(
        &|c| c,
        &|_| panic!("no selector"),
        &|_, _, _| panic!("no fixed column"),
        &|_, column, _| cells[column],
        &|_, _, _| panic!("no instance column"),
        &|a| -a,
        &|a, b| a + b,
        &|a, b| a * b,
        &|a, s| a * s,
    )
}

#[test]
fn negation_of_a_value_is_its_additive_inverse() {
    assert_eq!(value_neg(known(3)), known(-3));
    assert_eq!(value_neg(known(-3)), known(3));
    assert_eq!(value_neg(known(0)), known(0));
    assert_eq!(value_neg(None), None);
}

#[test]
fn values_are_terms() {
    assert_eq!(<Option<Fp> as Term>::zero(), known(0));
    assert_eq!(known(4).duplicate(), known(4));
    assert_eq!(known(4).negated(), known(-4));
    assert_eq!(known(4).sum(known(-6)), known(-2));
    assert_eq!(known(4).product(known(-6)), known(-24));
    assert_eq!(known(4).product(None), None);
}

#[test]
fn expressions_are_terms() {
    let zero = <Expression<Fp> as Term>::zero();
    assert_eq!(format!("{:?}", zero), format!("{:?}", constant(0)));
    assert_eq!(format!("{:?}", cell(1).duplicate()), format!("{:?}", cell(1)));
    assert_eq!(format!("{:?}", cell(1).negated()), format!("Negated({:?})", cell(1)));
    assert_eq!(
        format!("{:?}", cell(1).sum(cell(2))),
        format!("Sum({:?}, {:?})", cell(1), cell(2))
    );
    assert_eq!(
        format!("{:?}", cell(1).product(cell(2))),
        format!("Product({:?}, {:?})", cell(1), cell(2))
    );
}

#[test]
fn the_affine_sum_on_values_and_on_expressions_is_one_sum() {
    let w = [3, -5, 7];
    let x = [2, 11, -13];
    let b = 17;
    let start = -19;
    let want = start + 3 * 2 - 5 * 11 - 7 * 13 + 17;

    let values = affine_term(
        known(start),
        &w.iter().map(|v| known(*v)).collect(),
        &x.iter().map(|v| known(*v)).collect(),
        &known(b),
    );
    assert_eq!(decode(values.unwrap()).unwrap(), want);

    let cells: Vec<Fp> =
        w.iter().chain(x.iter()).chain([b, start].iter()).map(|v| encode(*v).unwrap()).collect();
    let expression =
        affine_term(cell(7), &vec![cell(0), cell(1), cell(2)], &vec![cell(3), cell(4), cell(5)], &cell(6));
    assert_eq!(decode(value_of(&expression, &cells)).unwrap(), want);
    assert_eq!(
        format!("{:?}", expression),
        format!(
            "Sum(Sum(Sum(Sum({:?}, Product({:?}, {:?})), Product({:?}, {:?})), Product({:?}, {:?})), {:?})",
            cell(7),
            cell(0),
            cell(3),
            cell(1),
            cell(4),
            cell(2),
            cell(5),
            cell(6)
        )
    );
}

#[test]
fn the_linear_sum_starts_where_it_is_told() {
    let w = vec![known(2), known(3)];
    let x = vec![known(5), known(7)];
    assert_eq!(linear_term(known(0), &w, &x), known(31));
    assert_eq!(linear_term(known(100), &w, &x), known(131));
    assert_eq!(linear_term(known(100), &vec![], &vec![]), known(100));
    assert_eq!(linear_term(None, &w, &x), None);
}

#[test]
fn the_correlation_on_values_and_on_expressions_is_one_correlation() {
    let kernel = [[1, -2], [3, 4]];
    let image = [[5, 6, 7], [8, 9, 10], [11, 12, 13]];
    for (stride, padding) in [(1, 0), (1, 1), (2, 1), (2, 0), (3, 2)] {
        let g = Geometry {
            kernel_height: 2,
            kernel_width: 2,
            image_height: 3,
            image_width: 3,
            stride,
            padding,
        };
        let kernel_values: Vec<Vec<Option<Fp>>> =
            kernel.iter().map(|r| r.iter().map(|v| known(*v)).collect()).collect();
        let image_values: Vec<Vec<Option<Fp>>> =
            image.iter().map(|r| r.iter().map(|v| known(*v)).collect()).collect();
        let on_values = correlate(&g, &kernel_values, &image_values);

        let kernel_cells: Vec<Vec<Expression<Fp>>> =
            (0..2).map(|i| (0..2).map(|j| cell(i * 2 + j)).collect()).collect();
        let image_cells: Vec<Vec<Expression<Fp>>> =
            (0..3).map(|i| (0..3).map(|j| cell(4 + i * 3 + j)).collect()).collect();
        let on_cells = correlate(&g, &kernel_cells, &image_cells);

        let table: Vec<Fp> = kernel
            .iter()
            .flatten()
            .chain(image.iter().flatten())
            .map(|v| encode(*v).unwrap())
            .collect();
        assert_eq!(on_values.len(), on_cells.len());
        for (values, cells) in on_values.iter().zip(&on_cells) {
            assert_eq!(values.len(), cells.len());
            for (value, expression) in values.iter().zip(cells) {
                assert_eq!(value.unwrap(), value_of(expression, &table));
            }
        }
    }
}

#[test]
fn grids_of_terms_add_entry_by_entry() {
    let a = vec![vec![known(1), known(2)], vec![known(3), None]];
    let b = vec![vec![known(10), known(20)], vec![known(30), known(40)]];
    assert_eq!(add_term_grids(&a, &b), vec![vec![known(11), known(22)], vec![known(33), None]]);
    let c = add_term_grids(&vec![vec![cell(0)]], &vec![vec![constant(5)]]);
    assert_eq!(format!("{:?}", c[0][0]), format!("Sum({:?}, {:?})", cell(0), constant(5)));
}
