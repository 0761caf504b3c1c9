use halo2_proofs::circuit::{Layouter, SimpleFloorPlanner, Value};
use halo2_proofs::dev::MockProver;
use halo2_proofs::plonk::{Advice, Assigned, Circuit, Column, ConstraintSystem, Error};
use pasta_curves::Fp;
use std::cell::RefCell;
use std::rc::Rc;
use zk_layers::affine_config::{Affine1dConfig, Wiring};
use zk_layers::backend::{LayoutRegion, System, WitnessCell};
use zk_layers::cells::read_cells;
use zk_layers::encoder::{decode, encode};
use zk_layers::error::LayerError;

const IN: usize = 3;
const OUT: usize = 2;

fn to_backend(e: LayerError) -> Error {
    match e {
        LayerError::Backend(inner) => inner,
        _ => Error::Synthesis,
    }
}

fn decoded(v: &[Option<Fp>]) -> Vec<i32> {
    v.iter().map(|x| decode(x.unwrap()).unwrap()).collect()
}

fn expected(weights: &[Vec<i32>], biases: &[i32], input: &[i32]) -> Vec<i32> {
    weights
        .iter()
        .zip(biases)
        .map(|(row, b)| row.iter().zip(input).map(|(w, x)| w * x).sum::<i32>() + b)
        .collect()
}

fn input_cells(
    layouter: &mut impl Layouter<Fp>,
    columns: &[Column<Advice>],
    input: &[i32],
) -> Result<Vec<WitnessCell>, Error> {
    layouter.assign_region(
        || "input",
        |mut region| {
            let mut cells = Vec::new();
            for (j, x) in input.iter().enumerate() {
                let value = Value::known(Assigned::from(encode(*x).unwrap()));
                let cell = region.assign_advice(|| "x", columns[j], 0, || value)?;
                cells.push(WitnessCell { inner: cell });
            }
            Ok(cells)
        },
    )
}

#[derive(Clone)]
struct LayerConfig {
    inputs: Vec<Column<Advice>>,
    layer: Affine1dConfig<IN, OUT>,
}

#[derive(Clone)]
enum Mode {
    Layout,
    Steps(Wiring),
    Tampered(usize),
}

#[derive(Clone)]
struct LayerCircuit {
    weights: Vec<Vec<i32>>,
    biases: Vec<i32>,
    input: Vec<i32>,
    mode: Mode,
    seen: Rc<RefCell<Vec<Option<Fp>>>>,
}

impl LayerCircuit {
    fn new(mode: Mode) -> Self {
        LayerCircuit {
            weights: vec![vec![1, -2, 3], vec![-4, 5, 6]],
            biases: vec![7, -8],
            input: vec![9, 10, -11],
            mode,
            seen: Rc::new(RefCell::new(Vec::new())),
        }
    }
}

impl Circuit<Fp> for LayerCircuit {
    type Config = LayerConfig;
    type FloorPlanner = SimpleFloorPlanner;

    fn without_witnesses(&self) -> Self {
        self.clone()
    }

    fn configure(meta: &mut ConstraintSystem<Fp>) -> LayerConfig {
        let inputs: Vec<Column<Advice>> = (0..IN)
            .map(|_| {
                let c = meta.advice_column();
                meta.enable_equality(c);
                c
            })
            .collect();
        let mut sys = System { inner: std::mem::take(meta) };
        let layer = Affine1dConfig::<IN, OUT>::configure(&mut sys).unwrap();
        *meta = sys.inner;
        LayerConfig { inputs, layer }
    }

    fn synthesize(&self, config: LayerConfig, mut layouter: impl Layouter<Fp>) -> Result<(), Error> {
        let cells = input_cells(&mut layouter, &config.inputs, &self.input)?;
        let out = match self.mode {
            Mode::Layout => layouter.assign_region(
                || "layer",
                |region| {
                    let mut rows = LayoutRegion { inner: region };
                    config
                        .layer
                        .layout(&mut rows, self.weights.clone(), self.biases.clone(), cells.clone())
                        .map_err(to_backend)
                },
            )?,
            Mode::Steps(wiring) => layouter.assign_region(
                || "steps",
                |region| {
                    let mut rows = LayoutRegion { inner: region };
                    config.layer.q.enable(&mut rows.inner, 0)?;
                    let params = config
                        .layer
                        .assign_parameters(&mut rows, 0, self.weights.clone(), self.biases.clone())
                        .map_err(to_backend)?;
                    match wiring {
                        Wiring::Copy => config
                            .layer
                            .forward(&mut rows, 0, cells.clone(), params)
                            .map_err(to_backend),
                        Wiring::Reuse => {
                            let mut own = Vec::new();
                            for (j, cell) in cells.iter().enumerate() {
                                let column = config.layer.advice.input[j].inner;
                                own.push(WitnessCell {
                                    inner: cell.inner.copy_advice(|| "x", &mut rows.inner, column, 0)?,
                                });
                            }
                            config
                                .layer
                                .forward_wired(&mut rows, 0, own, params, Wiring::Reuse)
                                .map_err(to_backend)
                        }
                    }
                },
            )?,
            Mode::Tampered(index) => layouter.assign_region(
                || "tampered",
                |region| {
                    let mut rows = LayoutRegion { inner: region };
                    config.layer.q.enable(&mut rows.inner, 0)?;
                    let params = config
                        .layer
                        .assign_parameters(&mut rows, 0, self.weights.clone(), self.biases.clone())
                        .map_err(to_backend)?;
                    let out = config
                        .layer
                        .forward(&mut rows, 0, cells.clone(), params)
                        .map_err(to_backend)?;
                    let wrong = match read_cells(&out)[index] {
                        Some(honest) => Value::known(Assigned::from(honest + Fp::from(1u64))),
                        None => Value::unknown(),
                    };
                    let column = config.layer.advice.output[index].inner;
                    rows.inner.assign_advice(|| "wrong", column, 0, || wrong)?;
                    Ok(out)
                },
            )?,
        };
        *self.seen.borrow_mut() = read_cells(&out);
        Ok(())
    }
}

#[test]
fn layout_assigns_weights_times_input_plus_bias() {
    let circuit = LayerCircuit::new(Mode::Layout);
    let prover = MockProver::run(4, &circuit, vec![]).unwrap();
    assert_eq!(prover.verify(), Ok(()));
    let want = expected(&circuit.weights, &circuit.biases, &circuit.input);
    assert_eq!(want, vec![1 * 9 - 2 * 10 - 3 * 11 + 7, -4 * 9 + 5 * 10 - 6 * 11 - 8]);
    assert_eq!(decoded(&circuit.seen.borrow()), want);
}

#[test]
fn parameters_then_forward_satisfy_the_layer_gate() {
    let circuit = LayerCircuit::new(Mode::Steps(Wiring::Copy));
    let prover = MockProver::run(4, &circuit, vec![]).unwrap();
    assert_eq!(prover.verify(), Ok(()));
    let want = expected(&circuit.weights, &circuit.biases, &circuit.input);
    assert_eq!(decoded(&circuit.seen.borrow()), want);
}

#[test]
fn forward_on_cells_already_in_place_satisfies_the_layer_gate() {
    let circuit = LayerCircuit::new(Mode::Steps(Wiring::Reuse));
    let prover = MockProver::run(4, &circuit, vec![]).unwrap();
    assert_eq!(prover.verify(), Ok(()));
    let want = expected(&circuit.weights, &circuit.biases, &circuit.input);
    assert_eq!(decoded(&circuit.seen.borrow()), want);
}

#[test]
fn a_changed_output_cell_is_rejected() {
    for index in 0..OUT {
        let circuit = LayerCircuit::new(Mode::Tampered(index));
        let prover = MockProver::run(4, &circuit, vec![]).unwrap();
        assert!(prover.verify().is_err());
    }
}

#[test]
fn layout_refuses_weights_of_the_wrong_shape() {
    let mut meta = ConstraintSystem::<Fp>::default();
    let config = LayerCircuit::configure(&mut meta);
    let mut circuit = LayerCircuit::new(Mode::Layout);
    circuit.weights = vec![vec![1, -2], vec![-4, 5]];
    assert!(MockProver::run(4, &circuit, vec![]).is_err());
    assert!(config.layer.advice.is_well_formed());
}

#[test]
fn configure_allocates_the_columns_and_one_gate() {
    let mut sys = System { inner: ConstraintSystem::<Fp>::default() };
    let config = Affine1dConfig::<IN, OUT>::configure(&mut sys).unwrap();
    assert!(config.advice.is_well_formed());
    let shown = format!("{:?}", sys.inner.pinned());
    assert!(shown.contains(&format!("num_advice_columns: {}", IN + OUT + OUT * IN + OUT)));
    assert!(shown.contains("num_selectors: 1"));
    let mut seen = Vec::new();
    for c in config.advice.input.iter().chain(&config.advice.output).chain(&config.advice.biases) {
        seen.push(c.inner);
    }
    for row in &config.advice.weights {
        for c in row {
            seen.push(c.inner);
        }
    }
    for (i, a) in seen.iter().enumerate() {
        for b in &seen[i + 1..] {
            assert_ne!(a, b);
        }
    }
    assert_eq!(seen.len(), IN + OUT + OUT * IN + OUT);
}

#[test]
fn configure_refuses_a_layer_without_outputs() {
    let mut sys = System { inner: ConstraintSystem::<Fp>::default() };
    assert!(matches!(Affine1dConfig::<3, 0>::configure(&mut sys), Err(LayerError::Shape)));
    let shown = format!("{:?}", sys.inner.pinned());
    assert!(shown.contains("num_advice_columns: 0"));
}

#[test]
fn configure_with_input_takes_the_given_columns() {
    let mut sys = System { inner: ConstraintSystem::<Fp>::default() };
    let first = Affine1dConfig::<IN, OUT>::configure(&mut sys).unwrap();
    let second =
        Affine1dConfig::<OUT, 1>::configure_with_input(first.advice.output.clone(), &mut sys)
            .unwrap();
    for (a, b) in second.advice.input.iter().zip(&first.advice.output) {
        assert_eq!(a.inner, b.inner);
    }
    assert!(matches!(
        Affine1dConfig::<IN, 1>::configure_with_input(first.advice.output.clone(), &mut sys),
        Err(LayerError::Shape)
    ));
}

#[test]
fn configure_with_input_allocates_no_column_for_the_input() {
    let mut sys = System { inner: ConstraintSystem::<Fp>::default() };
    let first = Affine1dConfig::<IN, OUT>::configure(&mut sys).unwrap();
    let before = IN + OUT + OUT * IN + OUT;
    assert!(format!("{:?}", sys.inner.pinned())
        .contains(&format!("num_advice_columns: {}", before)));
    let second =
        Affine1dConfig::<OUT, 4>::configure_with_input(first.advice.output.clone(), &mut sys)
            .unwrap();
    let after = before + 4 + 4 * OUT + 4;
    assert!(format!("{:?}", sys.inner.pinned())
        .contains(&format!("num_advice_columns: {}", after)));
    assert!(second.advice.is_well_formed());
    let mut fresh = Vec::new();
    fresh.extend(second.advice.output.iter().map(|c| c.inner));
    for row in &second.advice.weights {
        fresh.extend(row.iter().map(|c| c.inner));
    }
    fresh.extend(second.advice.biases.iter().map(|c| c.inner));
    assert_eq!(fresh.len(), after - before);
    for (i, a) in fresh.iter().enumerate() {
        for b in &fresh[i + 1..] {
            assert_ne!(a, b);
        }
        for used in first.advice.input.iter().chain(&first.advice.output) {
            assert_ne!(*a, used.inner);
        }
    }
}
