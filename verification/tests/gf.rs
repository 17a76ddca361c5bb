use gfield::gf::{GFElem, GFp};

#[test]
fn test_gf() {
    let a: GFp = GFp::from_value(423343);
    let b = GFp::from_value(74324);
    let c = GFp::from_value(13231);
    let d = GFp::from_value(8432455);
    assert_eq!(a.mul(b).add(c).div(d), GFp::from_value(79639022));
    assert_eq!(b.sub(a), GFp::from_value(999650988));
}

#[test]
fn test_from_value_reduces() {
    let m: i64 = 1000000007;
    assert_eq!(GFp::from_value(m).into_value(), 0);
    assert_eq!(GFp::from_value(m + 3).into_value(), 3);
    assert_eq!(GFp::from_value(-1).into_value(), m - 1);
    assert_eq!(GFp::from_value(-m).into_value(), 0);
    assert_eq!(GFp::from_value(i64::MIN).into_value(), 708828003);
}

#[test]
fn test_canonicality() {
    let m: i64 = 1000000007;
    let big = GFp::from_value(m - 1);
    let ops = [
        big.add(big),
        big.sub(GFp::from_value(1)),
        big.mul(big),
        GFp::from_value(0).sub(big),
    ];
    for r in ops {
        let v = r.into_value();
        assert!(0 <= v && v < m);
    }
}

#[test]
fn test_additive_inverse() {
    let m: i64 = 1000000007;
    let a = GFp::from_value(123456);
    let neg = GFp::from_value(m - 123456);
    assert_eq!(a.add(neg).into_value(), 0);
    assert_eq!(a.sub(a).into_value(), 0);
    let zero = GFp::from_value(0);
    assert_eq!(zero.add(zero).into_value(), 0);
    assert_eq!(zero.sub(zero).into_value(), 0);
}

#[test]
fn test_inverse_law() {
    let two = GFp::from_value(2);
    assert_eq!(two.inv().into_value(), 500000004);
    assert_eq!(two.mul(two.inv()).into_value(), 1);
    let a = GFp::from_value(8432455);
    assert_eq!(a.mul(a.inv()).into_value(), 1);
    let last = GFp::from_value(1000000006);
    assert_eq!(last.mul(last.inv()).into_value(), 1);
}

#[test]
fn test_division_consistency() {
    let a = GFp::from_value(423343);
    let b = GFp::from_value(74324);
    assert_eq!(a.div(b).mul(b), a);
    let one = GFp::from_value(1);
    assert_eq!(a.div(a), one);
}

#[test]
fn test_assign_variants() {
    let mut x = GFp::from_value(10);
    x.add_assign(GFp::from_value(5));
    assert_eq!(x.into_value(), 15);
    x.sub_assign(GFp::from_value(20));
    assert_eq!(x.into_value(), 1000000002);
    x.mul_assign(GFp::from_value(2));
    assert_eq!(x.into_value(), 999999997);
    let mut y = GFp::from_value(6);
    y.div_assign(GFp::from_value(3));
    assert_eq!(y.into_value(), 2);
}

#[test]
fn test_default_and_modulo() {
    assert_eq!(GFp::default().into_value(), 0);
    assert_eq!(GFp::modulo(), 1000000007);
}

#[test]
fn test_to_string() {
    assert_eq!(GFp::from_value(423343).to_string(), "423343");
    assert_eq!(GFp::from_value(0).to_string(), "0");
    assert_eq!(GFp::from_value(-1).to_string(), "1000000006");
    assert_eq!(GFp::from_value(1000000007).to_string(), "0");
}

#[test]
fn test_small_modulus() {
    type GF7 = GFElem<7>;
    assert_eq!(GF7::from_value(10).into_value(), 3);
    assert_eq!(GF7::from_value(-1).into_value(), 6);
    assert_eq!(GF7::from_value(3).mul(GF7::from_value(5)).into_value(), 1);
    assert_eq!(GF7::from_value(3).inv().into_value(), 5);
    assert_eq!(GF7::from_value(2).sub(GF7::from_value(5)).into_value(), 4);
    assert_eq!(GF7::from_value(4).div(GF7::from_value(2)).into_value(), 2);
}
