use halo2_proofs::circuit::{Layouter, SimpleFloorPlanner, Value};
use halo2_proofs::dev::MockProver;
use halo2_proofs::plonk::{Advice, Assigned, Circuit, Column, ConstraintSystem, Error};
use pasta_curves::Fp;
use std::cell::RefCell;
use std::rc::Rc;
use zk_layers::affine_config::Affine1dConfig;
use zk_layers::backend::{LayoutRegion, System, WitnessCell};
use zk_layers::encoder::encode;
use zk_layers::error::LayerError;

#[derive(Clone, Copy, PartialEq, Debug)]
enum Outcome {
    Fine,
    Shape,
    OutOfRange,
    Backend,
}

fn outcome<T>(r: &Result<T, LayerError>) -> Outcome {
    match r {
        Ok(_) => Outcome::Fine,
        Err(LayerError::Shape) => Outcome::Shape,
        Err(LayerError::OutOfRange) => Outcome::OutOfRange,
        Err(LayerError::Backend(_)) => Outcome::Backend,
    }
}

#[derive(Clone)]
struct Loose {
    input: Column<Advice>,
    layer: Affine1dConfig<1, 1>,
}

#[derive(Clone, Copy)]
enum Fault {
    NoEquality,
    RowOutOfReach,
    WrongShape,
    OutOfRange,
    Nothing,
}

#[derive(Clone)]
struct Faulty {
    fault: Fault,
    seen: Rc<RefCell<Vec<Outcome>>>,
}

impl Circuit<Fp> for Faulty {
    type Config = Loose;
    type FloorPlanner = SimpleFloorPlanner;

    fn without_witnesses(&self) -> Self {
        self.clone()
    }

    fn configure(meta: &mut ConstraintSystem<Fp>) -> Loose {
        let input = meta.advice_column();
        let mut sys = System { inner: std::mem::take(meta) };
        let layer = Affine1dConfig::<1, 1>::configure(&mut sys).unwrap();
        *meta = sys.inner;
        Loose { input, layer }
    }

    fn synthesize(&self, config: Loose, mut layouter: impl Layouter<Fp>) -> Result<(), Error> {
        let cell = layouter.assign_region(
            || "input",
            |mut region| {
                let value = Value::known(Assigned::from(encode(3).unwrap()));
                region.assign_advice(|| "x", config.input, 0, || value)
            },
        )?;
        let cells = vec![WitnessCell { inner: cell }];
        match self.fault {
            Fault::NoEquality | Fault::Nothing | Fault::WrongShape | Fault::OutOfRange => {
                let weights = match self.fault {
                    Fault::WrongShape => vec![vec![2, 2]],
                    Fault::OutOfRange => vec![vec![i32::MIN]],
                    _ => vec![vec![2]],
                };
                let input = match self.fault {
                    Fault::Nothing => {
                        let own = layouter.assign_region(
                            || "own input",
                            |mut region| {
                                let value = Value::known(Assigned::from(encode(3).unwrap()));
                                let column = config.layer.advice.input[0].inner;
                                region.assign_advice(|| "x", column, 0, || value)
                            },
                        )?;
                        vec![WitnessCell { inner: own }]
                    }
                    _ => cells,
                };
                let _ = layouter.assign_region(
                    || "layer",
                    |region| {
                        let mut rows = LayoutRegion { inner: region };
                        let r = config.layer.layout(
                            &mut rows,
                            weights.clone(),
                            vec![1],
                            input.clone(),
                        );
                        self.seen.borrow_mut().push(outcome(&r));
                        match r {
                            Ok(_) => Ok(()),
                            Err(LayerError::Backend(e)) => Err(e),
                            Err(_) => Err(Error::Synthesis),
                        }
                    },
                );
            }
            Fault::RowOutOfReach => {
                let _ = layouter.assign_region(
                    || "far",
                    |region| {
                        let mut rows = LayoutRegion { inner: region };
                        let r = config.layer.assign_parameters(
                            &mut rows,
                            1 << 20,
                            vec![vec![2]],
                            vec![1],
                        );
                        self.seen.borrow_mut().push(outcome(&r));
                        Ok(())
                    },
                );
            }
        }
        Ok(())
    }
}

fn last_outcome(fault: Fault) -> Outcome {
    let circuit = Faulty { fault, seen: Rc::new(RefCell::new(Vec::new())) };
    let _ = MockProver::run(4, &circuit, vec![]);
    let seen = circuit.seen.borrow();
    *seen.last().unwrap()
}

#[test]
fn a_copy_from_a_column_without_equality_is_a_backend_error() {
    assert_eq!(last_outcome(Fault::NoEquality), Outcome::Backend);
}

#[test]
fn a_write_beyond_the_rows_is_a_backend_error() {
    assert_eq!(last_outcome(Fault::RowOutOfReach), Outcome::Backend);
}

#[test]
fn shape_and_range_errors_are_told_from_backend_errors() {
    assert_eq!(last_outcome(Fault::WrongShape), Outcome::Shape);
    assert_eq!(last_outcome(Fault::OutOfRange), Outcome::OutOfRange);
    assert_eq!(last_outcome(Fault::Nothing), Outcome::Fine);
}
