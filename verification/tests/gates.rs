use halo2_proofs::plonk::ConstraintSystem;
use pasta_curves::Fp;
use zk_layers::affine_config::Affine1dConfig;
use zk_layers::backend::{AdviceColumn, System};
use zk_layers::conv_config::Config;

fn without_query_indices(shown: &str) -> String {
    let mut out = String::new();
    let mut rest = shown;
    while let Some(at) = rest.find("query_index: ") {
        out.push_str(&rest[..at]);
        let tail = &rest[at..];
        let end = tail.find(", ").unwrap() + 2;
        rest = &tail[end..];
    }
    out.push_str(rest);
    out
}

fn gates_of(sys: &System) -> String {
    let shown = without_query_indices(&format!("{:?}", sys.inner.pinned()));
    let from = shown.find("gates: [").unwrap() + "gates: [".len();
    let to = shown.find("], advice_queries").unwrap();
    shown[from..to].to_string()
}

fn cell(column: usize, rotation: usize) -> String {
    format!("Advice {{ column_index: {}, rotation: Rotation({}) }}", column, rotation)
}

fn sum(a: String, b: String) -> String {
    format!("Sum({}, {})", a, b)
}

fn product(a: String, b: String) -> String {
    format!("Product({}, {})", a, b)
}

fn guarded(selector: usize, poly: String) -> String {
    format!("Product(Selector(Selector({}, true)), {})", selector, poly)
}

fn affine_gate(base: usize, selector: usize, inputs: usize, outputs: usize) -> String {
    let mut polys = Vec::new();
    for i in 0..outputs {
        let mut poly = format!("Negated({})", cell(base + inputs + i, 0));
        for j in 0..inputs {
            let weight = cell(base + inputs + outputs + i * inputs + j, 0);
            poly = sum(poly, product(weight, cell(base + j, 0)));
        }
        poly = sum(poly, cell(base + inputs + outputs + outputs * inputs + i, 0));
        polys.push(guarded(selector, poly));
    }
    polys.join(", ")
}

#[test]
fn gate_of_the_affine_layer_is_the_stated_polynomial() {
    let mut sys = System { inner: ConstraintSystem::<Fp>::default() };
    let _ = Affine1dConfig::<2, 1>::configure(&mut sys).unwrap();
    assert_eq!(gates_of(&sys), affine_gate(0, 0, 2, 1));
    assert_eq!(
        gates_of(&sys),
        "Product(Selector(Selector(0, true)), Sum(Sum(Sum(Negated(Advice { column_index: 2, \
         rotation: Rotation(0) }), Product(Advice { column_index: 3, rotation: Rotation(0) }, \
         Advice { column_index: 0, rotation: Rotation(0) })), Product(Advice { column_index: 4, \
         rotation: Rotation(0) }, Advice { column_index: 1, rotation: Rotation(0) })), Advice { \
         column_index: 5, rotation: Rotation(0) }))"
    );
}

#[test]
fn gates_of_two_affine_layers_stand_side_by_side() {
    let mut sys = System { inner: ConstraintSystem::<Fp>::default() };
    let _ = Affine1dConfig::<3, 2>::configure(&mut sys).unwrap();
    let _ = Affine1dConfig::<1, 3>::configure(&mut sys).unwrap();
    let first = affine_gate(0, 0, 3, 2);
    let second = affine_gate(3 + 2 + 6 + 2, 1, 1, 3);
    assert_eq!(gates_of(&sys), format!("{}, {}", first, second));
}

#[test]
fn equality_is_enabled_on_every_column_of_the_affine_layer() {
    let mut sys = System { inner: ConstraintSystem::<Fp>::default() };
    let _ = Affine1dConfig::<2, 1>::configure(&mut sys).unwrap();
    let shown = format!("{:?}", sys.inner.pinned());
    let columns = (0..6)
        .map(|i| format!("Column {{ index: {}, column_type: Advice }}", i))
        .collect::<Vec<_>>()
        .join(", ");
    assert!(shown.contains(&format!("permutation: Argument {{ columns: [{}] }}", columns)));
}

#[test]
fn equality_is_enabled_on_image_and_output_columns_of_the_convolution() {
    let mut sys = System { inner: ConstraintSystem::<Fp>::default() };
    let advices = columns(&mut sys, 5);
    let _ = Config::<1, 2, 1, 1, 1, 3, 2, 0>::configure(&mut sys, advices).unwrap();
    let shown = format!("{:?}", sys.inner.pinned());
    let columns = (0..3)
        .map(|i| format!("Column {{ index: {}, column_type: Advice }}", i))
        .collect::<Vec<_>>()
        .join(", ");
    assert!(shown.contains(&format!("permutation: Argument {{ columns: [{}] }}", columns)));
    assert!(shown.contains("num_advice_columns: 7"));
}

const ZERO: &str = "Constant(0x0000000000000000000000000000000000000000000000000000000000000000)";

#[allow(clippy::too_many_arguments)]
fn conv_gate(
    kernel_base: usize,
    kh: usize,
    kw: usize,
    ih: usize,
    iw: usize,
    stride: usize,
    padding: usize,
    channels: usize,
) -> String {
    let oh = (ih + 2 * padding - kh) / stride + 1;
    let ow = (iw + 2 * padding - kw) / stride + 1;
    let mut polys = Vec::new();
    for a in 0..oh {
        for b in 0..ow {
            let mut expected = String::new();
            for ch in 0..channels {
                let mut conv = ZERO.to_string();
                for i in 0..kh {
                    for j in 0..kw {
                        let r = a * stride + i;
                        let c = b * stride + j;
                        if r >= padding && r - padding < ih && c >= padding && c - padding < iw {
                            let image = cell((r - padding) * iw + (c - padding), ch);
                            let kernel = cell(kernel_base + i * kw + j, ch);
                            conv = sum(conv, product(kernel, image));
                        }
                    }
                }
                expected = if ch == 0 { conv } else { sum(expected, conv) };
            }
            let witnessed = format!("Negated({})", cell(a * ow + b, channels));
            polys.push(guarded(0, sum(witnessed, expected)));
        }
    }
    polys.join(", ")
}

fn columns(sys: &mut System, n: usize) -> Vec<AdviceColumn> {
    (0..n).map(|_| AdviceColumn { inner: sys.inner.advice_column() }).collect()
}

#[test]
fn gate_of_a_small_convolution_is_the_stated_polynomial() {
    let mut sys = System { inner: ConstraintSystem::<Fp>::default() };
    let advices = columns(&mut sys, 3);
    let _ = Config::<1, 2, 1, 1, 1, 3, 2, 0>::configure(&mut sys, advices).unwrap();
    assert_eq!(gates_of(&sys), conv_gate(3, 1, 2, 1, 3, 1, 0, 2));
    let k0 = cell(3, 0);
    let k1 = cell(4, 0);
    let first = sum(sum(ZERO.to_string(), product(k0, cell(0, 0))), product(k1, cell(1, 0)));
    let second =
        sum(sum(ZERO.to_string(), product(cell(3, 1), cell(0, 1))), product(cell(4, 1), cell(1, 1)));
    let constraint = sum(format!("Negated({})", cell(0, 2)), sum(first, second));
    assert!(gates_of(&sys).starts_with(&guarded(0, constraint)));
}

#[test]
fn gate_of_a_padded_strided_convolution_is_the_stated_polynomial() {
    let mut sys = System { inner: ConstraintSystem::<Fp>::default() };
    let advices = columns(&mut sys, 49);
    let _ = Config::<3, 3, 2, 2, 7, 7, 2, 2>::configure(&mut sys, advices).unwrap();
    let one = conv_gate(49, 3, 3, 7, 7, 2, 2, 2);
    assert_eq!(gates_of(&sys), format!("{}, {}", one, one));
}

#[test]
fn a_convolution_registers_its_gate_once_for_each_output_channel() {
    let mut sys = System { inner: ConstraintSystem::<Fp>::default() };
    let advices = columns(&mut sys, 9);
    let _ = Config::<2, 2, 3, 1, 2, 2, 1, 1>::configure(&mut sys, advices).unwrap();
    let one = conv_gate(9, 2, 2, 2, 2, 1, 1, 1);
    assert_eq!(gates_of(&sys), format!("{}, {}, {}", one, one, one));
    let shown = format!("{:?}", sys.inner.pinned());
    assert!(shown.contains("num_selectors: 1"));

    let mut none = System { inner: ConstraintSystem::<Fp>::default() };
    let advices = columns(&mut none, 9);
    let _ = Config::<2, 2, 0, 1, 2, 2, 1, 1>::configure(&mut none, advices).unwrap();
    assert_eq!(gates_of(&none), "");
}

#[test]
fn gate_of_a_convolution_with_one_channel_has_no_channel_sum() {
    let mut sys = System { inner: ConstraintSystem::<Fp>::default() };
    let advices = columns(&mut sys, 9);
    let _ = Config::<2, 2, 1, 1, 2, 2, 1, 1>::configure(&mut sys, advices).unwrap();
    assert_eq!(gates_of(&sys), conv_gate(9, 2, 2, 2, 2, 1, 1, 1));
}
