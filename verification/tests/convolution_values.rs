use pasta_curves::Fp;
use zk_layers::conv::{add_grids, convolution, convolution_grid, Geometry};
use zk_layers::encoder::{decode, encode};
use zk_layers::error::LayerError;
use zk_layers::tensor::{check_stack, flatten};

fn known_grid(m: &[Vec<i32>]) -> Vec<Vec<Option<Fp>>> {
    m.iter().map(|row| row.iter().map(|x| Some(encode(*x).unwrap())).collect()).collect()
}

fn decoded_grid(m: &[Vec<Option<Fp>>]) -> Vec<Vec<i32>> {
    m.iter().map(|row| row.iter().map(|x| decode(x.unwrap()).unwrap()).collect()).collect()
}

fn correlate(kernel: &[Vec<i32>], image: &[Vec<i32>], stride: usize, padding: usize) -> Vec<Vec<i32>> {
    let (kh, kw) = (kernel.len(), kernel[0].len());
    let (ih, iw) = (image.len(), image[0].len());
    let mut padded = vec![vec![0i32; iw + 2 * padding]; ih + 2 * padding];
    for r in 0..ih {
        for c in 0..iw {
            padded[r + padding][c + padding] = image[r][c];
        }
    }
    let oh = (ih + 2 * padding - kh) / stride + 1;
    let ow = (iw + 2 * padding - kw) / stride + 1;
    let mut out = vec![vec![0i32; ow]; oh];
    for a in 0..oh {
        for b in 0..ow {
            for i in 0..kh {
                for j in 0..kw {
                    out[a][b] += kernel[i][j] * padded[a * stride + i][b * stride + j];
                }
            }
        }
    }
    out
}

fn geometry(kh: usize, kw: usize, ih: usize, iw: usize, stride: usize, padding: usize) -> Geometry {
    Geometry {
        kernel_height: kh,
        kernel_width: kw,
        image_height: ih,
        image_width: iw,
        stride,
        padding,
    }
}

#[test]
fn output_size_follows_the_formula() {
    let g = geometry(3, 3, 7, 7, 2, 2);
    assert!(g.is_valid());
    assert_eq!(g.output_height(), 5);
    assert_eq!(g.output_width(), 5);
    let g = geometry(2, 3, 5, 8, 1, 0);
    assert_eq!((g.output_height(), g.output_width()), (4, 6));
    let g = geometry(3, 3, 8, 8, 3, 1);
    assert_eq!((g.output_height(), g.output_width()), (3, 3));
    let g = geometry(4, 4, 4, 4, 5, 0);
    assert_eq!((g.output_height(), g.output_width()), (1, 1));
}

#[test]
fn a_geometry_without_output_is_not_valid() {
    assert!(!geometry(3, 3, 7, 7, 0, 2).is_valid());
    assert!(!geometry(8, 3, 7, 7, 1, 0).is_valid());
    assert!(!geometry(3, 8, 7, 7, 1, 0).is_valid());
    assert!(geometry(8, 8, 7, 7, 1, 1).is_valid());
    assert!(!geometry(3, 3, usize::MAX, 7, 1, 1).is_valid());
    assert!(!geometry(3, 3, 7, 7, 1, usize::MAX).is_valid());
    assert!(!geometry(0, 3, usize::MAX, 7, 1, 0).is_valid());
    assert!(geometry(1, 3, usize::MAX, 7, 1, 0).is_valid());
}

#[test]
fn taps_in_the_padding_meet_no_entry() {
    let g = geometry(3, 3, 7, 7, 2, 2);
    assert_eq!(g.tap_index(0, 0, 7), None);
    assert_eq!(g.tap_index(0, 1, 7), None);
    assert_eq!(g.tap_index(0, 2, 7), Some(0));
    assert_eq!(g.tap_index(1, 0, 7), Some(0));
    assert_eq!(g.tap_index(4, 0, 7), Some(6));
    assert_eq!(g.tap_index(4, 1, 7), None);
    assert_eq!(g.tap_index(usize::MAX, 2, 7), None);
    assert_eq!(g.tap_index(3, usize::MAX, 7), None);
}

#[test]
fn correlation_without_padding_or_stride() {
    let kernel = vec![vec![1, 2], vec![3, 4]];
    let image = vec![vec![1, 2, 3], vec![4, 5, 6], vec![7, 8, 9]];
    let g = geometry(2, 2, 3, 3, 1, 0);
    let out = convolution(&g, &known_grid(&kernel), &known_grid(&image)).unwrap();
    assert_eq!(decoded_grid(&out), vec![vec![37, 47], vec![67, 77]]);
}

#[test]
fn correlation_does_not_flip_the_kernel() {
    let kernel = vec![vec![1, 0], vec![0, 0]];
    let image = vec![vec![5, 6], vec![7, 8]];
    let g = geometry(2, 2, 2, 2, 1, 0);
    let out = convolution(&g, &known_grid(&kernel), &known_grid(&image)).unwrap();
    assert_eq!(decoded_grid(&out), vec![vec![5]]);
}

#[test]
fn correlation_with_padding_counts_outside_taps_as_zero() {
    let kernel = vec![vec![1, 1], vec![1, 1]];
    let image = vec![vec![1, 2], vec![3, 4]];
    let g = geometry(2, 2, 2, 2, 1, 1);
    let out = convolution(&g, &known_grid(&kernel), &known_grid(&image)).unwrap();
    assert_eq!(decoded_grid(&out), vec![vec![1, 3, 2], vec![4, 10, 6], vec![3, 7, 4]]);
}

#[test]
fn correlation_with_stride_visits_every_other_position() {
    let kernel = vec![vec![1, -1]];
    let image = vec![vec![1, 2, 4, 8, 16]];
    let g = geometry(1, 2, 1, 5, 2, 0);
    let out = convolution(&g, &known_grid(&kernel), &known_grid(&image)).unwrap();
    assert_eq!(decoded_grid(&out), vec![vec![-1, -4]]);
}

#[test]
fn correlation_matches_an_independent_integer_computation() {
    let kernel = vec![vec![1, -2, 3], vec![-4, 5, -6], vec![7, -8, 9]];
    let image: Vec<Vec<i32>> =
        (0..7).map(|r| (0..7).map(|c| (r * 7 + c) as i32 * 3 - 40).collect()).collect();
    for (stride, padding) in [(2, 2), (1, 0), (1, 1), (3, 2), (2, 0), (7, 3)] {
        let g = geometry(3, 3, 7, 7, stride, padding);
        let out = convolution(&g, &known_grid(&kernel), &known_grid(&image)).unwrap();
        assert_eq!(decoded_grid(&out), correlate(&kernel, &image, stride, padding));
    }
}

#[test]
fn correlation_ignores_unknown_entries_in_the_padding_only() {
    let kernel = known_grid(&[vec![1, 1]]);
    let mut image = known_grid(&[vec![1, 2, 3]]);
    image[0][2] = None;
    let g = geometry(1, 2, 1, 3, 1, 1);
    let out = convolution(&g, &kernel, &image).unwrap();
    assert_eq!(out.len(), 3);
    assert_eq!(out[0], vec![Some(encode(0).unwrap()); 4]);
    assert_eq!(out[1][0], Some(encode(1).unwrap()));
    assert_eq!(out[1][1], Some(encode(3).unwrap()));
    assert_eq!(out[1][2], None);
    assert_eq!(out[1][3], None);
    assert_eq!(out[2], vec![Some(encode(0).unwrap()); 4]);
}

#[test]
fn correlation_refuses_grids_of_the_wrong_shape() {
    let g = geometry(2, 2, 3, 3, 1, 0);
    let kernel = known_grid(&[vec![1, 2], vec![3, 4]]);
    let image = known_grid(&[vec![1, 2, 3], vec![4, 5, 6], vec![7, 8, 9]]);
    assert!(matches!(convolution(&g, &image, &image), Err(LayerError::Shape)));
    assert!(matches!(convolution(&g, &kernel, &kernel), Err(LayerError::Shape)));
    let ragged = vec![image[0].clone(), image[1].clone(), vec![None]];
    assert!(matches!(convolution(&g, &kernel, &ragged), Err(LayerError::Shape)));
    let no_stride = geometry(2, 2, 3, 3, 0, 0);
    assert!(matches!(convolution(&no_stride, &kernel, &image), Err(LayerError::Shape)));
    assert_eq!(convolution_grid(&g, &kernel, &image), convolution(&g, &kernel, &image).unwrap());
}

#[test]
fn grids_add_entry_by_entry() {
    let a = known_grid(&[vec![1, 2], vec![3, 4]]);
    let b = known_grid(&[vec![10, -20], vec![30, -40]]);
    assert_eq!(decoded_grid(&add_grids(&a, &b)), vec![vec![11, -18], vec![33, -36]]);
    let mut c = b.clone();
    c[1][0] = None;
    let sum = add_grids(&a, &c);
    assert_eq!(sum[1][0], None);
    assert_eq!(sum[1][1], Some(encode(-36).unwrap()));
    assert_eq!(flatten(&sum).len(), 4);
}

#[test]
fn stacks_are_checked_grid_by_grid() {
    let grid = known_grid(&[vec![1, 2], vec![3, 4]]);
    assert!(check_stack(&vec![grid.clone(), grid.clone()], 2, 2, 2));
    assert!(!check_stack(&vec![grid.clone()], 2, 2, 2));
    assert!(!check_stack(&vec![grid.clone(), known_grid(&[vec![1, 2]])], 2, 2, 2));
    assert!(check_stack(&Vec::<Vec<Vec<u8>>>::new(), 0, 2, 2));
}
