use halo2_proofs::arithmetic::Field;
use pasta_curves::Fp;
use zk_layers::encoder::{decode, encode, encode_all, encode_grid, ENCODE_MAX};
use zk_layers::error::LayerError;

#[test]
fn encode_of_a_non_negative_integer_is_the_integer() {
    assert_eq!(encode(0).unwrap(), Fp::from(0u64));
    assert_eq!(encode(1).unwrap(), Fp::from(1u64));
    assert_eq!(encode(37).unwrap(), Fp::from(37u64));
    assert_eq!(encode(i32::MAX).unwrap(), Fp::from(2147483647u64));
}

#[test]
fn encode_of_a_negative_integer_is_the_negated_magnitude() {
    assert_eq!(encode(-1).unwrap(), -Fp::from(1u64));
    assert_eq!(encode(-5).unwrap(), -Fp::from(5u64));
    assert_eq!(encode(-i32::MAX).unwrap(), -Fp::from(2147483647u64));
    assert_eq!(encode(-3).unwrap() + Fp::from(3u64), Fp::from(0u64));
}

#[test]
fn encode_refuses_the_least_integer() {
    assert!(matches!(encode(i32::MIN), Err(LayerError::OutOfRange)));
    assert_eq!(ENCODE_MAX, i32::MAX);
}

#[test]
fn decode_gives_back_what_was_encoded() {
    for x in [0, 1, -1, 2, -2, 255, -256, 65536, -65537, 1 << 30, -(1 << 30), i32::MAX, -i32::MAX] {
        assert_eq!(decode(encode(x).unwrap()).unwrap(), x);
    }
}

#[test]
fn decode_refuses_what_encodes_no_integer_in_range() {
    let too_large = Fp::from(2147483648u64);
    assert!(matches!(decode(too_large), Err(LayerError::OutOfRange)));
    assert!(matches!(decode(-too_large), Err(LayerError::OutOfRange)));
    let huge = Fp::from(u64::MAX) * Fp::from(u64::MAX);
    assert!(matches!(decode(huge), Err(LayerError::OutOfRange)));
    let half = Fp::from(2u64).invert().unwrap();
    assert!(matches!(decode(half), Err(LayerError::OutOfRange)));
}

#[test]
fn decode_reads_small_residues_on_both_sides_of_zero() {
    assert_eq!(decode(Fp::from(7u64)).unwrap(), 7);
    assert_eq!(decode(-Fp::from(7u64)).unwrap(), -7);
    assert_eq!(decode(Fp::from(3u64) - Fp::from(10u64)).unwrap(), -7);
    assert_eq!(decode(Fp::from(6u64) * -Fp::from(7u64)).unwrap(), -42);
}

#[test]
fn encode_all_encodes_each_entry() {
    let v = encode_all(&vec![3, -4, 0]).unwrap();
    assert_eq!(v, vec![Some(Fp::from(3u64)), Some(-Fp::from(4u64)), Some(Fp::from(0u64))]);
    assert!(matches!(encode_all(&vec![3, i32::MIN, 0]), Err(LayerError::OutOfRange)));
    assert_eq!(encode_all(&vec![]).unwrap(), vec![]);
}

#[test]
fn encode_grid_encodes_each_row() {
    let g = encode_grid(&vec![vec![1, -1], vec![2, -2]]).unwrap();
    assert_eq!(g[0], vec![Some(Fp::from(1u64)), Some(-Fp::from(1u64))]);
    assert_eq!(g[1], vec![Some(Fp::from(2u64)), Some(-Fp::from(2u64))]);
    assert!(matches!(encode_grid(&vec![vec![1], vec![i32::MIN]]), Err(LayerError::OutOfRange)));
}

#[test]
fn error_messages_tell_the_kinds_apart() {
    let shape = LayerError::Shape.message();
    let range = LayerError::OutOfRange.message();
    let backend = LayerError::Backend(halo2_proofs::plonk::Error::Synthesis).message();
    assert_eq!(shape, "tensor shape does not match the layer");
    assert_eq!(range, "integer outside the encodable range");
    assert_eq!(backend, "the proving backend reported an error");
    assert_ne!(shape, range);
    assert_ne!(shape, backend);
    assert_ne!(range, backend);
}
