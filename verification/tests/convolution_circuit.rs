use halo2_proofs::arithmetic::Field;
use halo2_proofs::circuit::{Layouter, SimpleFloorPlanner, Value};
use halo2_proofs::dev::MockProver;
use halo2_proofs::plonk::{Assigned, Circuit, ConstraintSystem, Error};
use pasta_curves::Fp;
use rand::rngs::OsRng;
use std::cell::RefCell;
use std::cmp::max;
use std::rc::Rc;
use zk_layers::backend::{AdviceColumn, LayoutRegion, System};
use zk_layers::cells::read_grid;
use zk_layers::conv::{add_grids, convolution, Geometry};
use zk_layers::conv_config::Config;
use zk_layers::encoder::{decode, encode};
use zk_layers::error::LayerError;

const KERNEL_HEIGHT: usize = 3;
const KERNEL_WIDTH: usize = 3;
const OUT_CHANNELS: usize = 2;
const STRIDE: usize = 2;
const IMAGE_HEIGHT: usize = 7;
const IMAGE_WIDTH: usize = 7;
const IN_CHANNELS: usize = 2;
const PADDING: usize = 2;

type Layer = Config<
    KERNEL_HEIGHT,
    KERNEL_WIDTH,
    OUT_CHANNELS,
    STRIDE,
    IMAGE_HEIGHT,
    IMAGE_WIDTH,
    IN_CHANNELS,
    PADDING,
>;

type Grid = Vec<Vec<Option<Fp>>>;

fn to_backend(e: LayerError) -> Error {
    match e {
        LayerError::Backend(inner) => inner,
        _ => Error::Synthesis,
    }
}

fn matrix(height: usize, width: usize, mut f: impl FnMut() -> Option<Fp>) -> Grid {
    (0..height).map(|_| (0..width).map(|_| f()).collect()).collect()
}

fn known_grid(m: &[Vec<i32>]) -> Grid {
    m.iter().map(|row| row.iter().map(|x| Some(encode(*x).unwrap())).collect()).collect()
}

fn decoded_grid(m: &[Vec<Option<Fp>>]) -> Vec<Vec<i32>> {
    m.iter().map(|row| row.iter().map(|x| decode(x.unwrap()).unwrap()).collect()).collect()
}

fn correlate(kernel: &[Vec<i32>], image: &[Vec<i32>]) -> Vec<Vec<i32>> {
    let mut padded = vec![vec![0i32; IMAGE_WIDTH + 2 * PADDING]; IMAGE_HEIGHT + 2 * PADDING];
    for r in 0..IMAGE_HEIGHT {
        for c in 0..IMAGE_WIDTH {
            padded[r + PADDING][c + PADDING] = image[r][c];
        }
    }
    let oh = (IMAGE_HEIGHT + 2 * PADDING - KERNEL_HEIGHT) / STRIDE + 1;
    let ow = (IMAGE_WIDTH + 2 * PADDING - KERNEL_WIDTH) / STRIDE + 1;
    let mut out = vec![vec![0i32; ow]; oh];
    for a in 0..oh {
        for b in 0..ow {
            for i in 0..KERNEL_HEIGHT {
                for j in 0..KERNEL_WIDTH {
                    out[a][b] += kernel[i][j] * padded[a * STRIDE + i][b * STRIDE + j];
                }
            }
        }
    }
    out
}

#[derive(Clone)]
struct MyCircuit {
    image: Vec<Grid>,
    kernels: Vec<Vec<Grid>>,
    tamper: Option<(usize, usize)>,
    seen: Rc<RefCell<Vec<Vec<Grid>>>>,
}

impl Circuit<Fp> for MyCircuit {
    type Config = Layer;
    type FloorPlanner = SimpleFloorPlanner;

    fn without_witnesses(&self) -> Self {
        self.clone()
    }

    fn configure(meta: &mut ConstraintSystem<Fp>) -> Layer {
        let output_height = IMAGE_HEIGHT + 2 * PADDING - KERNEL_HEIGHT + 1;
        let output_width = IMAGE_WIDTH + 2 * PADDING - KERNEL_WIDTH + 1;
        let num_advices = max(output_height * output_width, IMAGE_HEIGHT * IMAGE_WIDTH);
        let advices = (0..num_advices)
            .map(|_| AdviceColumn { inner: meta.advice_column() })
            .collect::<Vec<_>>();
        let mut sys = System { inner: std::mem::take(meta) };
        let config = Layer::configure(&mut sys, advices).unwrap();
        *meta = sys.inner;
        config
    }

    fn synthesize(&self, config: Layer, mut layouter: impl Layouter<Fp>) -> Result<(), Error> {
        match self.tamper {
            None => {
                let output = layouter.assign_region(
                    || "assign image and kernel",
                    |region| {
                        let mut rows = LayoutRegion { inner: region };
                        config
                            .assign(&mut rows, self.image.clone(), self.kernels.clone())
                            .map_err(to_backend)
                    },
                )?;
                self.seen.borrow_mut().push(output.iter().map(read_grid).collect());
            }
            Some((row, column)) => {
                layouter.assign_region(
                    || "tampered",
                    |region| {
                        let mut rows = LayoutRegion { inner: region };
                        let cells =
                            config.place_filter(&mut rows, 0, &self.image, &self.kernels[0])?;
                        let wrong = match read_grid(&cells)[row][column] {
                            Some(honest) => Value::known(Assigned::from(honest + Fp::from(1u64))),
                            None => Value::unknown(),
                        };
                        let target = config.output.columns[row][column].inner;
                        rows.inner.assign_advice(|| "wrong", target, IN_CHANNELS, || wrong)?;
                        Ok(())
                    },
                )?;
            }
        }
        Ok(())
    }
}

fn random_circuit() -> MyCircuit {
    let image = (0..IN_CHANNELS)
        .map(|_| matrix(IMAGE_HEIGHT, IMAGE_WIDTH, || Some(Fp::random(OsRng))))
        .collect::<Vec<_>>();
    let kernels = (0..OUT_CHANNELS)
        .map(|_| {
            (0..IN_CHANNELS)
                .map(|_| matrix(KERNEL_HEIGHT, KERNEL_WIDTH, || Some(Fp::random(OsRng))))
                .collect::<Vec<_>>()
        })
        .collect::<Vec<_>>();
    MyCircuit { image, kernels, tamper: None, seen: Rc::new(RefCell::new(Vec::new())) }
}

fn integer_images() -> Vec<Vec<Vec<i32>>> {
    (0..IN_CHANNELS)
        .map(|ch| {
            (0..IMAGE_HEIGHT)
                .map(|r| {
                    (0..IMAGE_WIDTH).map(|c| (ch * 100 + r * 7 + c) as i32 * 5 - 123).collect()
                })
                .collect()
        })
        .collect()
}

fn integer_kernels() -> Vec<Vec<Vec<Vec<i32>>>> {
    (0..OUT_CHANNELS)
        .map(|f| {
            (0..IN_CHANNELS)
                .map(|ch| {
                    (0..KERNEL_HEIGHT)
                        .map(|i| {
                            (0..KERNEL_WIDTH)
                                .map(|j| (f * 31 + ch * 17 + i * 3 + j) as i32 - 20)
                                .collect()
                        })
                        .collect()
                })
                .collect()
        })
        .collect()
}

fn integer_circuit() -> MyCircuit {
    MyCircuit {
        image: integer_images().iter().map(|m| known_grid(m)).collect(),
        kernels: integer_kernels()
            .iter()
            .map(|filter| filter.iter().map(|m| known_grid(m)).collect())
            .collect(),
        tamper: None,
        seen: Rc::new(RefCell::new(Vec::new())),
    }
}

#[test]
fn test_cnvrl() {
    let circuit = random_circuit();

    let k = 4;
    let prover = MockProver::run(k, &circuit, vec![]).unwrap();
    prover.assert_satisfied();
}

#[test]
fn assigned_output_is_the_sum_of_the_channel_correlations() {
    let circuit = random_circuit();
    let prover = MockProver::run(4, &circuit, vec![]).unwrap();
    assert_eq!(prover.verify(), Ok(()));
    let seen = circuit.seen.borrow();
    let output = seen.last().unwrap();
    assert_eq!(output.len(), OUT_CHANNELS);
    let g = Layer::geometry();
    for f in 0..OUT_CHANNELS {
        let first = convolution(&g, &circuit.kernels[f][0], &circuit.image[0]).unwrap();
        let second = convolution(&g, &circuit.kernels[f][1], &circuit.image[1]).unwrap();
        assert_eq!(output[f], add_grids(&first, &second));
    }
}

#[test]
fn assigned_output_is_the_integer_correlation() {
    let circuit = integer_circuit();
    let prover = MockProver::run(4, &circuit, vec![]).unwrap();
    assert_eq!(prover.verify(), Ok(()));
    let images = integer_images();
    let kernels = integer_kernels();
    let seen = circuit.seen.borrow();
    let output = seen.last().unwrap();
    for f in 0..OUT_CHANNELS {
        let first = correlate(&kernels[f][0], &images[0]);
        let second = correlate(&kernels[f][1], &images[1]);
        let want: Vec<Vec<i32>> = first
            .iter()
            .zip(&second)
            .map(|(a, b)| a.iter().zip(b).map(|(x, y)| x + y).collect())
            .collect();
        assert_eq!(want.len(), 5);
        assert_eq!(want[0].len(), 5);
        assert_eq!(decoded_grid(&output[f]), want);
    }
}

#[test]
fn a_changed_output_cell_of_the_convolution_is_rejected() {
    for position in [(0, 0), (2, 3), (4, 4)] {
        let mut circuit = integer_circuit();
        circuit.tamper = Some(position);
        let prover = MockProver::run(4, &circuit, vec![]).unwrap();
        assert!(prover.verify().is_err());
    }
}

#[test]
fn geometry_of_the_layer_names_its_dimensions() {
    let g = Layer::geometry();
    assert_eq!(
        g,
        Geometry {
            kernel_height: 3,
            kernel_width: 3,
            image_height: 7,
            image_width: 7,
            stride: 2,
            padding: 2
        }
    );
    assert_eq!((g.output_height(), g.output_width()), (5, 5));
}

fn columns(sys: &mut System, n: usize) -> Vec<AdviceColumn> {
    (0..n).map(|_| AdviceColumn { inner: sys.inner.advice_column() }).collect()
}

#[test]
fn configure_lays_image_and_output_over_the_given_columns() {
    let mut sys = System { inner: ConstraintSystem::<Fp>::default() };
    let advices = columns(&mut sys, 49);
    let config = Layer::configure(&mut sys, advices.clone()).unwrap();
    assert!(config.is_well_formed());
    for r in 0..7 {
        for c in 0..7 {
            assert_eq!(config.image.columns[r][c].inner, advices[r * 7 + c].inner);
        }
    }
    for r in 0..5 {
        for c in 0..5 {
            assert_eq!(config.output.columns[r][c].inner, advices[r * 5 + c].inner);
        }
    }
    let shown = format!("{:?}", sys.inner.pinned());
    assert!(shown.contains(&format!("num_advice_columns: {}", 49 + 9)));
    assert!(shown.contains("num_selectors: 1"));
    for row in &config.kernel.columns {
        for k in row {
            assert!(advices.iter().all(|a| a.inner != k.inner));
        }
    }
}

#[test]
fn configure_refuses_too_few_columns() {
    let mut sys = System { inner: ConstraintSystem::<Fp>::default() };
    let advices = columns(&mut sys, 48);
    assert!(matches!(Layer::configure(&mut sys, advices), Err(LayerError::Shape)));
    let shown = format!("{:?}", sys.inner.pinned());
    assert!(shown.contains("num_advice_columns: 48"));
    assert!(shown.contains("num_selectors: 0"));
}

#[test]
fn configure_refuses_dimensions_without_output() {
    let mut sys = System { inner: ConstraintSystem::<Fp>::default() };
    let advices = columns(&mut sys, 100);
    assert!(matches!(
        Config::<3, 3, 2, 0, 7, 7, 2, 2>::configure(&mut sys, advices.clone()),
        Err(LayerError::Shape)
    ));
    assert!(matches!(
        Config::<8, 3, 2, 1, 7, 7, 2, 0>::configure(&mut sys, advices.clone()),
        Err(LayerError::Shape)
    ));
    assert!(matches!(
        Config::<3, 3, 2, 2, 7, 7, 0, 2>::configure(&mut sys, advices.clone()),
        Err(LayerError::Shape)
    ));
    assert!(Config::<3, 3, 2, 2, 7, 7, 1, 2>::configure(&mut sys, advices).is_ok());
}

#[derive(Clone)]
struct Mismatched {
    image: Vec<Grid>,
    kernels: Vec<Vec<Grid>>,
    outcome: Rc<RefCell<Vec<bool>>>,
}

impl Circuit<Fp> for Mismatched {
    type Config = Layer;
    type FloorPlanner = SimpleFloorPlanner;

    fn without_witnesses(&self) -> Self {
        self.clone()
    }

    fn configure(meta: &mut ConstraintSystem<Fp>) -> Layer {
        MyCircuit::configure(meta)
    }

    fn synthesize(&self, config: Layer, mut layouter: impl Layouter<Fp>) -> Result<(), Error> {
        layouter.assign_region(
            || "assign image and kernel",
            |region| {
                let mut rows = LayoutRegion { inner: region };
                let r = config.assign(&mut rows, self.image.clone(), self.kernels.clone());
                self.outcome.borrow_mut().push(matches!(r, Err(LayerError::Shape)));
                Ok(())
            },
        )
    }
}

fn refused(image: Vec<Grid>, kernels: Vec<Vec<Grid>>) -> bool {
    let circuit = Mismatched { image, kernels, outcome: Rc::new(RefCell::new(Vec::new())) };
    MockProver::run(4, &circuit, vec![]).unwrap();
    let seen = circuit.outcome.borrow();
    !seen.is_empty() && seen.iter().all(|x| *x)
}

#[test]
fn assign_refuses_mismatched_channel_counts_and_shapes() {
    let good = integer_circuit();
    assert!(!refused(good.image.clone(), good.kernels.clone()));
    assert!(refused(good.image[..1].to_vec(), good.kernels.clone()));
    assert!(refused(good.image.clone(), good.kernels[..1].to_vec()));
    let mut short = good.kernels.clone();
    short[1].pop();
    assert!(refused(good.image.clone(), short));
    let mut narrow = good.image.clone();
    narrow[0][3].pop();
    assert!(refused(narrow, good.kernels.clone()));
    let mut tall = good.kernels.clone();
    tall[0][0].push(vec![None; 3]);
    assert!(refused(good.image.clone(), tall));
}
