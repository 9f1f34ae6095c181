use fractions::fraction::Fraction;

#[test]
fn new_divides_both_parts_by_their_gcf() {
    let g: u32 = Fraction::gcf(12, 30);
    let f: Fraction = Fraction::new(12, 30);
    assert_eq!(f.numerator, 12 / g);
    assert_eq!(f.denominator, 30 / g);
    assert_eq!(Fraction::gcf(f.numerator, f.denominator), 1);
}

#[test]
fn fraction_8_18_reduces_to_4_9() {
    let f: Fraction = Fraction::new(8, 18);
    assert_eq!(f.numerator, 4);
    assert_eq!(f.denominator, 9);
}

#[test]
fn fraction_1_2_stays_1_2() {
    let f: Fraction = Fraction::new(1, 2);
    assert_eq!(f.numerator, 1);
    assert_eq!(f.denominator, 2);
}

#[test]
fn sum_of_8_18_and_1_2_is_17_18() {
    let a: Fraction = Fraction::new(8, 18);
    let b: Fraction = Fraction::new(1, 2);
    let c: Fraction = a.add(b);
    assert_eq!(c.numerator, 17);
    assert_eq!(c.denominator, 18);
    assert_eq!(format!("{}/{}", c.numerator, c.denominator), "17/18");
}

#[test]
fn addition_is_commutative() {
    let a: Fraction = Fraction::new(8, 18);
    let b: Fraction = Fraction::new(1, 2);
    assert_eq!(a.add(b), b.add(a));

    let c: Fraction = Fraction::new(3, 4);
    let d: Fraction = Fraction::new(5, 6);
    assert_eq!(c.add(d), d.add(c));

    let e: Fraction = Fraction::new(7, 10);
    let f: Fraction = Fraction::new(7, 10);
    assert_eq!(e.add(f), f.add(e));
}

#[test]
fn sum_of_two_halves_is_one_over_one() {
    let a: Fraction = Fraction::new(1, 2);
    let b: Fraction = Fraction::new(1, 2);
    let c: Fraction = a.add(b);
    assert_eq!(c.numerator, 1);
    assert_eq!(c.denominator, 1);
}

#[test]
fn sum_of_thirds_and_quarters() {
    let a: Fraction = Fraction::new(1, 3);
    let b: Fraction = Fraction::new(1, 4);
    let c: Fraction = a.add(b);
    assert_eq!(c.numerator, 7);
    assert_eq!(c.denominator, 12);
}

#[test]
fn new_of_equal_parts_is_one_over_one() {
    let f: Fraction = Fraction::new(100, 100);
    assert_eq!(f.numerator, 1);
    assert_eq!(f.denominator, 1);

    let g: Fraction = Fraction::new(u32::MAX, u32::MAX);
    assert_eq!(g.numerator, 1);
    assert_eq!(g.denominator, 1);
}

#[test]
fn new_keeps_an_already_reduced_pair() {
    let f: Fraction = Fraction::new(17, 18);
    assert_eq!(f.numerator, 17);
    assert_eq!(f.denominator, 18);
}

#[test]
fn sum_with_a_shared_denominator() {
    let a: Fraction = Fraction::new(2, 9);
    let b: Fraction = Fraction::new(5, 9);
    let c: Fraction = a.add(b);
    assert_eq!(c.numerator, 7);
    assert_eq!(c.denominator, 9);
}
