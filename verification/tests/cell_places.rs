use halo2_proofs::circuit::{Layouter, SimpleFloorPlanner, Value};
use halo2_proofs::dev::MockProver;
use halo2_proofs::plonk::{Advice, Assigned, Circuit, Column, ConstraintSystem, Error};
use pasta_curves::Fp;
use std::cell::RefCell;
use std::rc::Rc;
use zk_layers::affine_config::Affine1dConfig;
use zk_layers::backend::{AdviceColumn, LayoutRegion, System, WitnessCell};
use zk_layers::conv_config::Config;
use zk_layers::encoder::encode;
use zk_layers::error::LayerError;

const CHANNELS_IN: usize = 3;
const CHANNELS_OUT: usize = 2;

type Small = Config<2, 2, CHANNELS_OUT, 1, 3, 3, CHANNELS_IN, 0>;

fn backend_error(e: LayerError) -> Error {
    match e {
        LayerError::Backend(inner) => inner,
        _ => Error::Synthesis,
    }
}

fn place_of(cell: &WitnessCell) -> String {
    format!("{:?}", cell.inner.cell())
}

fn lies_at(cell: &WitnessCell, column: &AdviceColumn, row: usize) -> bool {
    let place = place_of(cell);
    place.contains(&format!("row_offset: {},", row))
        && place.contains(&format!("column: {:?}", column.inner))
}

fn lies_in(cell: &WitnessCell, region: usize) -> bool {
    place_of(cell).contains(&format!("region_index: RegionIndex({}),", region))
}

#[derive(Clone)]
struct Dense {
    inputs: Vec<Column<Advice>>,
    layer: Affine1dConfig<2, 3>,
}

#[derive(Clone)]
struct DenseRun {
    seen: Rc<RefCell<Vec<bool>>>,
}

impl Circuit<Fp> for DenseRun {
    type Config = Dense;
    type FloorPlanner = SimpleFloorPlanner;

    fn without_witnesses(&self) -> Self {
        self.clone()
    }

    fn configure(meta: &mut ConstraintSystem<Fp>) -> Dense {
        let inputs = (0..2)
            .map(|_| {
                let c = meta.advice_column();
                meta.enable_equality(c);
                c
            })
            .collect();
        let mut sys = System { inner: std::mem::take(meta) };
        let layer = Affine1dConfig::<2, 3>::configure(&mut sys).unwrap();
        *meta = sys.inner;
        Dense { inputs, layer }
    }

    fn synthesize(&self, config: Dense, mut layouter: impl Layouter<Fp>) -> Result<(), Error> {
        let cells = layouter.assign_region(
            || "input",
            |mut region| {
                let mut cells = Vec::new();
                for (j, x) in [4, -9].iter().enumerate() {
                    let value = Value::known(Assigned::from(encode(*x).unwrap()));
                    let cell = region.assign_advice(|| "x", config.inputs[j], 0, || value)?;
                    cells.push(WitnessCell { inner: cell });
                }
                Ok(cells)
            },
        )?;
        let (out, tied) = layouter.assign_region(
            || "layer",
            |region| {
                let mut rows = LayoutRegion { inner: region };
                let out = config
                    .layer
                    .layout(
                        &mut rows,
                        vec![vec![1, 2], vec![3, 4], vec![5, 6]],
                        vec![7, 8, 9],
                        cells.clone(),
                    )
                    .map_err(backend_error)?;
                let params = config
                    .layer
                    .assign_parameters(
                        &mut rows,
                        1,
                        vec![vec![1, 2], vec![3, 4], vec![5, 6]],
                        vec![7, 8, 9],
                    )
                    .map_err(backend_error)?;
                let tied =
                    config.layer.tie_parameters(&mut rows, 2, &params).map_err(backend_error)?;
                Ok((out, (params, tied)))
            },
        )?;
        let (params, tied) = tied;
        let advice = &config.layer.advice;
        let mut fine = out.len() == 3;
        for i in 0..3 {
            fine = fine && lies_at(&out[i], &advice.output[i], 0);
            fine = fine && lies_in(&out[i], 1) && !lies_in(&out[i], 0);
            fine = fine && lies_in(&params.biases[i], 1) && lies_in(&tied.biases[i], 1);
            fine = fine && !lies_at(&out[i], &advice.output[i], 1);
            fine = fine && !lies_at(&out[i], &advice.biases[i], 0);
            fine = fine && lies_at(&params.biases[i], &advice.biases[i], 1);
            fine = fine && lies_at(&tied.biases[i], &advice.biases[i], 2);
            for j in 0..2 {
                fine = fine && lies_at(&params.weights[i][j], &advice.weights[i][j], 1);
                fine = fine && lies_at(&tied.weights[i][j], &advice.weights[i][j], 2);
            }
        }
        self.seen.borrow_mut().push(fine);
        Ok(())
    }
}

#[test]
fn layer_cells_lie_in_their_columns_on_the_row_asked_for() {
    let circuit = DenseRun { seen: Rc::new(RefCell::new(Vec::new())) };
    let prover = MockProver::run(4, &circuit, vec![]).unwrap();
    assert_eq!(prover.verify(), Ok(()));
    let seen = circuit.seen.borrow();
    assert!(!seen.is_empty());
    assert!(seen.iter().all(|fine| *fine));
}

#[derive(Clone)]
struct Filters {
    seen: Rc<RefCell<Vec<bool>>>,
}

fn plane(height: usize, width: usize, seed: i32) -> Vec<Vec<Option<Fp>>> {
    (0..height)
        .map(|r| {
            (0..width)
                .map(|c| Some(encode(seed + 3 * (r as i32) - (c as i32)).unwrap()))
                .collect()
        })
        .collect()
}

impl Circuit<Fp> for Filters {
    type Config = Small;
    type FloorPlanner = SimpleFloorPlanner;

    fn without_witnesses(&self) -> Self {
        self.clone()
    }

    fn configure(meta: &mut ConstraintSystem<Fp>) -> Small {
        let advices = (0..9).map(|_| AdviceColumn { inner: meta.advice_column() }).collect();
        let mut sys = System { inner: std::mem::take(meta) };
        let config = Small::configure(&mut sys, advices).unwrap();
        *meta = sys.inner;
        config
    }

    fn synthesize(&self, config: Small, mut layouter: impl Layouter<Fp>) -> Result<(), Error> {
        let image: Vec<_> = (0..CHANNELS_IN).map(|c| plane(3, 3, c as i32)).collect();
        let kernels: Vec<Vec<_>> = (0..CHANNELS_OUT)
            .map(|f| (0..CHANNELS_IN).map(|c| plane(2, 2, (5 * f + c) as i32)).collect())
            .collect();
        let out = layouter.assign_region(
            || "filters",
            |region| {
                let mut rows = LayoutRegion { inner: region };
                config.assign(&mut rows, image.clone(), kernels.clone()).map_err(backend_error)
            },
        )?;
        let mut fine = out.len() == CHANNELS_OUT;
        for f in 0..CHANNELS_OUT {
            let row = f * (CHANNELS_IN + 1) + CHANNELS_IN;
            fine = fine && out[f].len() == 2;
            for oh in 0..2 {
                fine = fine && out[f][oh].len() == 2;
                for ow in 0..2 {
                    fine = fine && lies_at(&out[f][oh][ow], &config.output.columns[oh][ow], row);
                    fine = fine && lies_in(&out[f][oh][ow], 0);
                    fine = fine && !lies_at(&out[f][oh][ow], &config.output.columns[oh][ow], 0);
                }
            }
        }
        self.seen.borrow_mut().push(fine);
        Ok(())
    }
}

#[test]
fn each_filter_has_its_own_rows_in_the_region() {
    let circuit = Filters { seen: Rc::new(RefCell::new(Vec::new())) };
    let prover = MockProver::run(4, &circuit, vec![]).unwrap();
    assert_eq!(prover.verify(), Ok(()));
    let seen = circuit.seen.borrow();
    assert!(!seen.is_empty());
    assert!(seen.iter().all(|fine| *fine));
}

fn dense_layer() -> Affine1dConfig<2, 3> {
    let mut sys = System { inner: ConstraintSystem::<Fp>::default() };
    Affine1dConfig::<2, 3>::configure(&mut sys).unwrap()
}

#[test]
fn parameters_are_checked_and_encoded_before_any_region() {
    let layer = dense_layer();
    let weights = vec![vec![1, -2], vec![3, 4], vec![5, 6]];
    let (w, b) = match layer.encode_parameters(&weights, &vec![7, -8, 9]) {
        Ok(encoded) => encoded,
        Err(_) => panic!("parameters of the layer's dimensions were refused"),
    };
    assert_eq!(w.len(), 3);
    assert_eq!(w[0], vec![Some(Fp::from(1u64)), Some(-Fp::from(2u64))]);
    assert_eq!(w[2], vec![Some(Fp::from(5u64)), Some(Fp::from(6u64))]);
    assert_eq!(b, vec![Some(Fp::from(7u64)), Some(-Fp::from(8u64)), Some(Fp::from(9u64))]);
}

#[test]
fn parameters_of_other_dimensions_are_a_shape_error() {
    let layer = dense_layer();
    let short = layer.encode_parameters(&vec![vec![1, 2], vec![3, 4]], &vec![7, 8, 9]);
    assert!(matches!(short, Err(LayerError::Shape)));
    let ragged = layer.encode_parameters(&vec![vec![1, 2], vec![3], vec![5, 6]], &vec![7, 8, 9]);
    assert!(matches!(ragged, Err(LayerError::Shape)));
    let biases = layer.encode_parameters(&vec![vec![1, 2], vec![3, 4], vec![5, 6]], &vec![7, 8]);
    assert!(matches!(biases, Err(LayerError::Shape)));
    let both = layer.encode_parameters(&vec![vec![i32::MIN, 2], vec![3, 4]], &vec![7, 8, 9]);
    assert!(matches!(both, Err(LayerError::Shape)));
}

#[test]
fn a_parameter_beyond_the_range_is_a_range_error() {
    let layer = dense_layer();
    let weight =
        layer.encode_parameters(&vec![vec![1, 2], vec![3, i32::MIN], vec![5, 6]], &vec![7, 8, 9]);
    assert!(matches!(weight, Err(LayerError::OutOfRange)));
    let bias =
        layer.encode_parameters(&vec![vec![1, 2], vec![3, 4], vec![5, 6]], &vec![i32::MIN, 8, 9]);
    assert!(matches!(bias, Err(LayerError::OutOfRange)));
    let edge =
        layer.encode_parameters(&vec![vec![1, 2], vec![3, 4], vec![5, 6]], &vec![i32::MAX, 8, 9]);
    assert!(edge.is_ok());
}
