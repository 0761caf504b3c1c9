use halo2_proofs::circuit::{Layouter, SimpleFloorPlanner, Value};
use halo2_proofs::dev::MockProver;
use halo2_proofs::plonk::{Advice, Assigned, Circuit, Column, ConstraintSystem, Error};
use pasta_curves::Fp;
use std::cell::RefCell;
use std::rc::Rc;
use zk_layers::affine_config::{Affine1dConfig, Wiring};
use zk_layers::backend::{LayoutRegion, System, WitnessCell};
use zk_layers::cells::read_cells;
use zk_layers::encoder::{decode, encode};
use zk_layers::error::LayerError;

fn to_backend(e: LayerError) -> Error {
    match e {
        LayerError::Backend(inner) => inner,
        _ => Error::Synthesis,
    }
}

fn first_weights() -> Vec<Vec<i32>> {
    vec![vec![2, -3, 5], vec![-7, 11, 13]]
}

fn second_weights() -> Vec<Vec<i32>> {
    vec![vec![17, -19]]
}

fn input() -> Vec<i32> {
    vec![4, -6, 9]
}

fn expected() -> i32 {
    let x = input();
    let a0 = 2 * x[0] - 3 * x[1] + 5 * x[2] + 1;
    let a1 = -7 * x[0] + 11 * x[1] + 13 * x[2] - 2;
    17 * a0 - 19 * a1 + 3
}

#[derive(Clone)]
struct Chained {
    inputs: Vec<Column<Advice>>,
    first: Affine1dConfig<3, 2>,
    second: Affine1dConfig<2, 1>,
}

fn input_cells(
    layouter: &mut impl Layouter<Fp>,
    columns: &[Column<Advice>],
) -> Result<Vec<WitnessCell>, Error> {
    layouter.assign_region(
        || "input",
        |mut region| {
            let mut cells = Vec::new();
            for (j, x) in input().iter().enumerate() {
                let value = Value::known(Assigned::from(encode(*x).unwrap()));
                let cell = region.assign_advice(|| "x", columns[j], 0, || value)?;
                cells.push(WitnessCell { inner: cell });
            }
            Ok(cells)
        },
    )
}

fn input_columns(meta: &mut ConstraintSystem<Fp>) -> Vec<Column<Advice>> {
    (0..3)
        .map(|_| {
            let c = meta.advice_column();
            meta.enable_equality(c);
            c
        })
        .collect()
}

#[derive(Clone)]
struct Reusing {
    seen: Rc<RefCell<Vec<Option<Fp>>>>,
}

impl Circuit<Fp> for Reusing {
    type Config = Chained;
    type FloorPlanner = SimpleFloorPlanner;

    fn without_witnesses(&self) -> Self {
        self.clone()
    }

    fn configure(meta: &mut ConstraintSystem<Fp>) -> Chained {
        let inputs = input_columns(meta);
        let mut sys = System { inner: std::mem::take(meta) };
        let first = Affine1dConfig::<3, 2>::configure(&mut sys).unwrap();
        let second =
            Affine1dConfig::<2, 1>::configure_with_input(first.advice.output.clone(), &mut sys)
                .unwrap();
        *meta = sys.inner;
        Chained { inputs, first, second }
    }

    fn synthesize(&self, config: Chained, mut layouter: impl Layouter<Fp>) -> Result<(), Error> {
        let cells = input_cells(&mut layouter, &config.inputs)?;
        let out = layouter.assign_region(
            || "both layers",
            |region| {
                let mut rows = LayoutRegion { inner: region };
                config.first.q.enable(&mut rows.inner, 0)?;
                config.second.q.enable(&mut rows.inner, 0)?;
                let first_params = config
                    .first
                    .assign_parameters(&mut rows, 0, first_weights(), vec![1, -2])
                    .map_err(to_backend)?;
                let hidden =
                    config.first.forward(&mut rows, 0, cells.clone(), first_params).map_err(to_backend)?;
                let second_params = config
                    .second
                    .assign_parameters(&mut rows, 0, second_weights(), vec![3])
                    .map_err(to_backend)?;
                config
                    .second
                    .forward_wired(&mut rows, 0, hidden, second_params, Wiring::Reuse)
                    .map_err(to_backend)
            },
        )?;
        *self.seen.borrow_mut() = read_cells(&out);
        Ok(())
    }
}

#[derive(Clone)]
struct Copying {
    seen: Rc<RefCell<Vec<Option<Fp>>>>,
}

impl Circuit<Fp> for Copying {
    type Config = Chained;
    type FloorPlanner = SimpleFloorPlanner;

    fn without_witnesses(&self) -> Self {
        self.clone()
    }

    fn configure(meta: &mut ConstraintSystem<Fp>) -> Chained {
        let inputs = input_columns(meta);
        let mut sys = System { inner: std::mem::take(meta) };
        let first = Affine1dConfig::<3, 2>::configure(&mut sys).unwrap();
        let second = Affine1dConfig::<2, 1>::configure(&mut sys).unwrap();
        *meta = sys.inner;
        Chained { inputs, first, second }
    }

    fn synthesize(&self, config: Chained, mut layouter: impl Layouter<Fp>) -> Result<(), Error> {
        let cells = input_cells(&mut layouter, &config.inputs)?;
        let hidden = layouter.assign_region(
            || "first layer",
            |region| {
                let mut rows = LayoutRegion { inner: region };
                config
                    .first
                    .layout(&mut rows, first_weights(), vec![1, -2], cells.clone())
                    .map_err(to_backend)
            },
        )?;
        let out = layouter.assign_region(
            || "second layer",
            |region| {
                let mut rows = LayoutRegion { inner: region };
                config
                    .second
                    .layout(&mut rows, second_weights(), vec![3], hidden.clone())
                    .map_err(to_backend)
            },
        )?;
        *self.seen.borrow_mut() = read_cells(&out);
        Ok(())
    }
}

#[test]
fn reuse_and_copy_give_the_same_final_output() {
    let reusing = Reusing { seen: Rc::new(RefCell::new(Vec::new())) };
    let prover = MockProver::run(4, &reusing, vec![]).unwrap();
    assert_eq!(prover.verify(), Ok(()));

    let copying = Copying { seen: Rc::new(RefCell::new(Vec::new())) };
    let prover = MockProver::run(4, &copying, vec![]).unwrap();
    assert_eq!(prover.verify(), Ok(()));

    assert_eq!(*reusing.seen.borrow(), *copying.seen.borrow());
    assert_eq!(reusing.seen.borrow().len(), 1);
    assert_eq!(decode(reusing.seen.borrow()[0].unwrap()).unwrap(), expected());
}

#[test]
fn reuse_adds_no_columns_for_the_second_input() {
    let mut reused = ConstraintSystem::<Fp>::default();
    let a = Reusing::configure(&mut reused);
    let mut copied = ConstraintSystem::<Fp>::default();
    let b = Copying::configure(&mut copied);
    for (x, y) in a.second.advice.input.iter().zip(&a.first.advice.output) {
        assert_eq!(x.inner, y.inner);
    }
    for (x, y) in b.second.advice.input.iter().zip(&b.first.advice.output) {
        assert_ne!(x.inner, y.inner);
    }
}
