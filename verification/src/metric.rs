//! The Minkowski parameter `p` and the distance metric it selects.

use vstd::prelude::*;

verus! {

/// The distance metric used between the user and a shop.
#[derive(Debug, Clone, Copy, PartialEq, Eq, Structural)]
pub enum Metric {
    /// `p = 1`: the sum of the absolute coordinate differences.
    Manhattan,
    /// `p = 2` (the default): the square root of the sum of squares.
    Euclidean,
    /// Any other positive `p`: `(|dx|^p + |dy|^p)^(1/p)`.
    Minkowski { p: i32 },
}

/// Why a Minkowski parameter was refused.
#[derive(Debug, Clone, Copy, PartialEq, Eq, Structural)]
pub enum MetricError {
    /// `p` was zero or negative.
    NonPositiveP { p: i32 },
}

/// The value of `p` used when none is given.
pub const DEFAULT_P: i32 = 2;

/// The metric selected by an explicit parameter `p`.
pub open spec fn metric_of_p(p: i32) -> Result<Metric, MetricError> {
    if p <= 0 {
        Err(MetricError::NonPositiveP { p })
    } else if p == 1 {
        Ok(Metric::Manhattan)
    } else if p == 2 {
        Ok(Metric::Euclidean)
    } else {
        Ok(Metric::Minkowski { p })
    }
}

/// The metric selected by an optional parameter: a missing `p` means `p = 2`.
pub open spec fn spec_metric_for(p: Option<i32>) -> Result<Metric, MetricError> {
    match p {
        Some(p) => metric_of_p(p),
        None => metric_of_p(DEFAULT_P),
    }
}

/// Chooses the distance metric for the Minkowski parameter `p`.
///
/// `None` and `Some(2)` give the Euclidean distance, `Some(1)` the Manhattan
/// distance, any larger `p` the general Minkowski distance; a `p` of zero or
/// below is refused.
pub fn metric_for(p: Option<i32>) -> (res: Result<Metric, MetricError>)
    ensures
        res == spec_metric_for(p),
        res is Err <==> (p matches Some(q) && q <= 0),
        p is None ==> res == Ok::<Metric, MetricError>(Metric::Euclidean),
        forall|q: i32| p == Some(q) && q > 2 ==> res == Ok::<Metric, MetricError>(
            (Metric::Minkowski { p: q }),
        ),
        res == Ok::<Metric, MetricError>(Metric::Euclidean) <==> (p is None || p == Some(2i32)),
        res == Ok::<Metric, MetricError>(Metric::Manhattan) <==> p == Some(1i32),
{
    let p = match p {
        Some(q) => q,
        None => DEFAULT_P,
    };
    if p <= 0 {
        Err(MetricError::NonPositiveP { p })
    } else if p == 1 {
        Ok(Metric::Manhattan)
    } else if p == 2 {
        Ok(Metric::Euclidean)
    } else {
        Ok(Metric::Minkowski { p })
    }
}

impl MetricError {
    /// The human-readable explanation of the error.
    pub fn message(&self) -> (msg: String)
        ensures
            msg@ == "Invalid Minkowski parameter: p must be a positive integer"@,
    {
        match self {
            MetricError::NonPositiveP { .. } => {
                "Invalid Minkowski parameter: p must be a positive integer".to_owned()
            },
        }
    }

    /// The parameter that was refused.
    pub fn p(&self) -> (p: i32)
        ensures
            self matches MetricError::NonPositiveP { p: q } && p == q,
    {
        match self {
            MetricError::NonPositiveP { p } => *p,
        }
    }
}

/// Law: leaving `p` out selects the same metric as asking for `p = 2`.
pub proof fn default_p_is_two()
    ensures
        spec_metric_for(None) == spec_metric_for(Some(2i32)),
{
}

/// Law: every positive `p` is accepted, and only those.
pub proof fn positive_p_accepted(p: i32)
    ensures
        spec_metric_for(Some(p)) is Ok <==> p > 0,
{
}

/// Law: every `p` above 2 selects the general Minkowski distance with that
/// very `p`; only a missing `p` or `p = 2` select the Euclidean distance, and
/// only `p = 1` the Manhattan distance.
pub proof fn each_p_selects_its_own_metric(p: Option<i32>)
    ensures
        forall|q: i32| p == Some(q) && q > 2 ==> spec_metric_for(p) == Ok::<Metric, MetricError>(
            (Metric::Minkowski { p: q }),
        ),
        spec_metric_for(p) == Ok::<Metric, MetricError>(Metric::Euclidean) <==> (p is None || p
            == Some(2i32)),
        spec_metric_for(p) == Ok::<Metric, MetricError>(Metric::Manhattan) <==> p == Some(1i32),
        spec_metric_for(p) matches Ok(Metric::Minkowski { p: q }) ==> p == Some(q) && q > 2,
        spec_metric_for(p) matches Err(MetricError::NonPositiveP { p: q }) ==> p == Some(q) && q <= 0,
{
}

/// Law: two parameters that select the same metric are the same parameter,
/// a missing one counting as 2; no two distinct values of `p` are merged.
pub proof fn distinct_p_distinct_metrics(p1: i32, p2: i32)
    requires
        p1 > 0,
        p2 > 0,
        spec_metric_for(Some(p1)) == spec_metric_for(Some(p2)),
    ensures
        p1 == p2,
{
}

} // verus!
