use halo2_proofs::circuit::{Layouter, SimpleFloorPlanner, Value};
use halo2_proofs::dev::MockProver;
use halo2_proofs::plonk::{Advice, Assigned, Circuit, Column, ConstraintSystem, Error};
use pasta_curves::Fp;
use std::cell::RefCell;
use std::rc::Rc;
use zk_layers::affine::Affine1d;
use zk_layers::affine_config::{Affine1dConfig, Parameters};
use zk_layers::backend::{LayoutRegion, System, WitnessCell};
use zk_layers::cells::read_cells;
use zk_layers::encoder::{decode, encode};
use zk_layers::error::LayerError;

fn to_backend(e: LayerError) -> Error {
    match e {
        LayerError::Backend(inner) => inner,
        _ => Error::Synthesis,
    }
}

fn weights() -> Vec<Vec<i32>> {
    vec![vec![3, -5], vec![7, 11]]
}

fn biases() -> Vec<i32> {
    vec![-13, 17]
}

fn affine(x: &[i32]) -> Vec<i32> {
    vec![3 * x[0] - 5 * x[1] - 13, 7 * x[0] + 11 * x[1] + 17]
}

#[derive(Clone)]
struct Tied {
    inputs: Vec<Column<Advice>>,
    layer: Affine1dConfig<2, 2>,
}

#[derive(Clone)]
struct TwoPasses {
    first: Vec<i32>,
    second: Vec<i32>,
    tamper: bool,
    seen: Rc<RefCell<Vec<Vec<Option<Fp>>>>>,
}

fn input_cells(
    layouter: &mut impl Layouter<Fp>,
    columns: &[Column<Advice>],
    input: &[i32],
) -> Result<Vec<WitnessCell>, Error> {
    layouter.assign_region(
        || "input",
        |mut region| {
            let mut cells = Vec::new();
            for (j, x) in input.iter().enumerate() {
                let value = Value::known(Assigned::from(encode(*x).unwrap()));
                let cell = region.assign_advice(|| "x", columns[j], 0, || value)?;
                cells.push(WitnessCell { inner: cell });
            }
            Ok(cells)
        },
    )
}

impl Circuit<Fp> for TwoPasses {
    type Config = Tied;
    type FloorPlanner = SimpleFloorPlanner;

    fn without_witnesses(&self) -> Self {
        self.clone()
    }

    fn configure(meta: &mut ConstraintSystem<Fp>) -> Tied {
        let inputs: Vec<Column<Advice>> = (0..2)
            .map(|_| {
                let c = meta.advice_column();
                meta.enable_equality(c);
                c
            })
            .collect();
        let mut sys = System { inner: std::mem::take(meta) };
        let layer = Affine1dConfig::<2, 2>::configure(&mut sys).unwrap();
        *meta = sys.inner;
        Tied { inputs, layer }
    }

    fn synthesize(&self, config: Tied, mut layouter: impl Layouter<Fp>) -> Result<(), Error> {
        let first = input_cells(&mut layouter, &config.inputs, &self.first)?;
        let second = input_cells(&mut layouter, &config.inputs, &self.second)?;
        let outputs = layouter.assign_region(
            || "two passes",
            |region| {
                let mut rows = LayoutRegion { inner: region };
                config.layer.q.enable(&mut rows.inner, 0)?;
                config.layer.q.enable(&mut rows.inner, 1)?;
                let params: Parameters<2, 2> = config
                    .layer
                    .assign_parameters(&mut rows, 0, weights(), biases())
                    .map_err(to_backend)?;
                let tied = config.layer.tie_parameters(&mut rows, 1, &params).map_err(to_backend)?;
                if self.tamper {
                    let column = config.layer.advice.weights[1][0].inner;
                    let wrong = Value::known(Assigned::from(encode(8).unwrap()));
                    rows.inner.assign_advice(|| "wrong", column, 1, || wrong)?;
                }
                let a = config
                    .layer
                    .forward(&mut rows, 0, first.clone(), params)
                    .map_err(to_backend)?;
                let b = config
                    .layer
                    .forward(&mut rows, 1, second.clone(), tied)
                    .map_err(to_backend)?;
                Ok(vec![read_cells(&a), read_cells(&b)])
            },
        )?;
        *self.seen.borrow_mut() = outputs;
        Ok(())
    }
}

fn decoded(v: &[Option<Fp>]) -> Vec<i32> {
    v.iter().map(|x| decode(x.unwrap()).unwrap()).collect()
}

#[test]
fn tied_parameters_serve_a_second_forward_pass() {
    let circuit = TwoPasses {
        first: vec![2, 9],
        second: vec![-4, 6],
        tamper: false,
        seen: Rc::new(RefCell::new(Vec::new())),
    };
    let prover = MockProver::run(4, &circuit, vec![]).unwrap();
    assert_eq!(prover.verify(), Ok(()));
    let seen = circuit.seen.borrow();
    assert_eq!(decoded(&seen[0]), affine(&[2, 9]));
    assert_eq!(decoded(&seen[1]), affine(&[-4, 6]));
    assert_eq!(affine(&[2, 9]), vec![-52, 130]);
}

#[test]
fn a_changed_tied_weight_is_rejected() {
    let circuit = TwoPasses {
        first: vec![2, 9],
        second: vec![-4, 6],
        tamper: true,
        seen: Rc::new(RefCell::new(Vec::new())),
    };
    let prover = MockProver::run(4, &circuit, vec![]).unwrap();
    assert!(prover.verify().is_err());
}

#[test]
fn parameters_set_once_serve_many_forward_passes_on_values() {
    let mut layer = Affine1d::<Option<Fp>, 2, 2>::from_parameters(weights(), biases()).unwrap();
    for x in [[2, 9], [-4, 6], [0, 0], [100, -100]] {
        let input = x.iter().map(|v| Some(encode(*v).unwrap())).collect();
        let out = layer.forward(input).unwrap();
        assert_eq!(decoded(&out), affine(&x));
    }
}
