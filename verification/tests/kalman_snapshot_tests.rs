use sensor_fusion::estimators::kalman::{
    create_matrix_A, create_matrix_B, create_matrix_H, create_matrix_Q, create_matrix_R,
    nominal_period, KalmanData,
};
use sensor_fusion::frac::Rational;

#[test]
fn kalman_test_create_matrix_A() {
    let dt = Rational::new(1, 10);
    let a = create_matrix_A(&dt);
    assert_eq!(a.get(0, 0), Rational::from_int(1));
    assert_eq!(a.get(0, 3), dt);
}

#[test]
fn kalman_test_create_matrix_B() {
    let dt = Rational::new(1, 10);
    let b = create_matrix_B(&dt).unwrap();
    assert_eq!(b.get(0, 0), Rational::new(1, 200));
    assert_eq!(b.get(0, 1), Rational::from_int(0));
}

#[test]
fn kalman_test_create_matrix_H() {
    let h = create_matrix_H();
    assert_eq!(h.get(0, 0), Rational::from_int(1));
    assert_eq!(h.get(0, 1), Rational::from_int(0));
}

#[test]
fn kalman_test_create_matrix_Q() {
    let dt = Rational::new(1, 10);
    let sigma = Rational::from_int(1);
    let q = create_matrix_Q(&dt, &sigma).unwrap();
    assert_eq!(q.get(0, 0), Rational::new(1, 40000));
    assert_eq!(q.get(0, 1), Rational::from_int(0));
}

#[test]
fn kalman_test_create_matrix_R() {
    let sigma = Rational::new(1, 100);
    let r = create_matrix_R(&sigma);
    assert_eq!(r.get(0, 0), Rational::new(1, 100));
    assert_eq!(r.get(0, 1), Rational::from_int(0));
}

#[test]
fn kalman_test_KalmanData_init() {
    let dt = nominal_period(20);
    let kd = KalmanData::new(&dt, &Rational::from_int(1)).unwrap();
    assert_eq!(kd.p.get(5, 1), Rational::from_int(0));
    assert_eq!(kd.x.get(5, 0), Rational::from_int(0));
}
