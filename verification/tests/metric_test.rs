use af_coding_challenge::metric::{metric_for, Metric, MetricError};
use af_coding_challenge::records::read_shop_rows;

#[test]
fn missing_p_is_euclidean() {
    assert_eq!(metric_for(None), Ok(Metric::Euclidean));
    assert_eq!(metric_for(None), metric_for(Some(2)));
}

#[test]
fn p_one_is_manhattan() {
    assert_eq!(metric_for(Some(1)), Ok(Metric::Manhattan));
}

#[test]
fn larger_p_is_minkowski() {
    assert_eq!(metric_for(Some(3)), Ok(Metric::Minkowski { p: 3 }));
    assert_eq!(metric_for(Some(i32::MAX)), Ok(Metric::Minkowski { p: i32::MAX }));
}

#[test]
fn test_negative_p_value() {
    let rows = read_shop_rows(b"Shop A,0.0,0.0\n").unwrap();
    assert_eq!(rows.len(), 1);
    let err = metric_for(Some(-1)).unwrap_err();
    assert_eq!(err, MetricError::NonPositiveP { p: -1 });
    assert_eq!(err.p(), -1);
    assert!(err.message().contains("must be a positive integer"));
}

#[test]
fn test_zero_p_value() {
    let rows = read_shop_rows(b"Shop A,0.0,0.0\n").unwrap();
    assert_eq!(rows.len(), 1);
    let err = metric_for(Some(0)).unwrap_err();
    assert_eq!(err, MetricError::NonPositiveP { p: 0 });
    assert!(err.message().contains("must be a positive integer"));
    assert!(metric_for(Some(i32::MIN)).is_err());
}
