use luna::linalg::vector::util::{filled, non_zeroed_vec};
use luna::linalg::vector::vector_add::{
    gen_vector_add, gen_vector_iadd, u_gen_vector_add, u_gen_vector_iadd,
};
use luna::linalg::vector::vector_dot::{
    gen_vector_dot, gen_vector_sdot, u_gen_vector_dot, u_gen_vector_sdot,
};
use luna::linalg::vector::vector_neg::{
    gen_vector_ineg, gen_vector_neg, u_gen_vector_ineg, u_gen_vector_neg,
};
use luna::linalg::vector::vector_scaler_mult::{
    gen_vector_scaler_imult, gen_vector_scaler_mult, u_gen_vector_scaler_imult,
    u_gen_vector_scaler_mult,
};
use luna::linalg::vector::vector_sub::{
    gen_vector_isub, gen_vector_sub, u_gen_vector_isub, u_gen_vector_sub,
};
use luna::scalar::rational::Rational;

fn whole(n: i64) -> Rational {
    Rational { pos: n >= 0, num: n.unsigned_abs(), den: 1 }
}

fn wholes(values: &[i64]) -> Vec<Rational> {
    values.iter().map(|n| whole(*n)).collect()
}

#[test]
fn sum_of_vectors() {
    let a = wholes(&[1, 2, 3]);
    let b = wholes(&[10, 20, 30]);
    assert_eq!(gen_vector_add(&a, &b), wholes(&[11, 22, 33]));
    assert_eq!(u_gen_vector_add(&a, &b, 2), wholes(&[11, 22]));
    let mut des = wholes(&[0, 0, 0]);
    gen_vector_iadd(&a, &b, &mut des);
    assert_eq!(des, wholes(&[11, 22, 33]));
    let mut part = wholes(&[7, 7, 7]);
    u_gen_vector_iadd(&a, &b, &mut part, 2);
    assert_eq!(part, wholes(&[11, 22, 7]));
}

#[test]
fn difference_of_vectors() {
    let a = wholes(&[1, 2, 3]);
    let b = wholes(&[10, 20, 30]);
    assert_eq!(gen_vector_sub(&a, &b), wholes(&[-9, -18, -27]));
    assert_eq!(u_gen_vector_sub(&b, &a, 1), wholes(&[9]));
    let mut des = wholes(&[0, 0, 0]);
    gen_vector_isub(&b, &a, &mut des);
    assert_eq!(des, wholes(&[9, 18, 27]));
    let mut part = wholes(&[7, 7, 7]);
    u_gen_vector_isub(&b, &a, &mut part, 2);
    assert_eq!(part, wholes(&[9, 18, 7]));
}

#[test]
fn negation_of_vectors() {
    let a = wholes(&[1, -2, 3]);
    assert_eq!(gen_vector_neg(&a), wholes(&[-1, 2, -3]));
    assert_eq!(u_gen_vector_neg(&a, 2), wholes(&[-1, 2]));
    let mut des = wholes(&[0, 0, 0]);
    gen_vector_ineg(&a, &mut des);
    assert_eq!(des, wholes(&[-1, 2, -3]));
    let mut part = wholes(&[7, 7, 7]);
    u_gen_vector_ineg(&a, &mut part, 1);
    assert_eq!(part, wholes(&[-1, 7, 7]));
}

#[test]
fn multiples_of_vectors() {
    let v = wholes(&[1, -2, 3]);
    assert_eq!(gen_vector_scaler_mult(whole(3), &v), wholes(&[3, -6, 9]));
    assert_eq!(u_gen_vector_scaler_mult(whole(3), &v, 2), wholes(&[3, -6]));
    let mut des = wholes(&[0, 0, 0]);
    gen_vector_scaler_imult(whole(-1), &v, &mut des);
    assert_eq!(des, wholes(&[-1, 2, -3]));
    let mut part = wholes(&[7, 7, 7]);
    u_gen_vector_scaler_imult(whole(2), &v, &mut part, 2);
    assert_eq!(part, wholes(&[2, -4, 7]));
}

#[test]
fn dot_product() {
    let a = wholes(&[1, 2, 3]);
    let b = wholes(&[4, 5, 6]);
    assert_eq!(gen_vector_dot(&a, &b), whole(32));
    assert_eq!(u_gen_vector_dot(&a, &b, 2), whole(14));
    assert_eq!(u_gen_vector_dot(&a, &b, 0), whole(0));
    let none: Vec<Rational> = Vec::new();
    assert_eq!(gen_vector_dot(&none, &none), whole(0));
}

#[test]
fn strided_dot_product() {
    let a = wholes(&[1, 2, 3, 4]);
    let b = wholes(&[1, 0, 0, 0, 1, 0, 0, 0, 1, 0, 0, 0]);
    // 1 * 1 + 3 * 0 = 1 with every second entry of `a` and every sixth of `b`
    assert_eq!(gen_vector_sdot(&a, &b, 2, 6), whole(1));
    // 1 * 1 + 2 * 1 + 3 * 1 with `b` taken every fourth entry
    assert_eq!(u_gen_vector_sdot(&a, &b, 1, 4, 3), whole(6));
    assert_eq!(u_gen_vector_sdot(&a, &b, 1, 4, 0), whole(0));
}

#[test]
fn filled_and_allocated_vectors() {
    assert_eq!(filled(whole(4), 3), wholes(&[4, 4, 4]));
    assert_eq!(filled(true, 2), vec![true, true]);
    assert!(filled(0u8, 0).is_empty());
    let v: Vec<Rational> = non_zeroed_vec(5);
    assert_eq!(v.len(), 5);
    assert_eq!(v, wholes(&[0, 0, 0, 0, 0]));
}
