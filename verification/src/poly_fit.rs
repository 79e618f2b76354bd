//! The shape of a least-squares fit of a polynomial to samples.
//!
//! The fit itself orthogonalises the powers of the sample times and needs
//! square roots; it is made where floating point is at hand, and its
//! outcome is handed to the tracker. What is settled here is whether a fit
//! can be attempted at all and with how many coefficients.

use vstd::prelude::*;

verus! {

/// The degree of the polynomial that a tracker fits.
pub const DEGREE: usize = 2;

/// Why no polynomial can be fitted.
#[derive(Clone, Copy, Debug, PartialEq, Eq)]
pub enum FitError {
    /// The degree asked for is 0: a fit must at least find a slope.
    DegreeNotPositive,
    /// There is no sample to fit to.
    NoSamples,
}

/// The dimensions of a fit.
#[derive(Clone, Copy, Debug, PartialEq, Eq)]
pub struct FitShape {
    /// The number of samples fitted to.
    pub samples: usize,
    /// The number of coefficients found: one more than the degree fitted.
    pub coefficients: usize,
}

/// The degree that is fitted to `sample_count` samples where `degree` is
/// asked for: with too few samples for it, one less than there are samples.
pub open spec fn truncated_degree(sample_count: int, degree: int) -> int {
    if degree >= sample_count {
        sample_count - 1
    } else {
        degree
    }
}

/// The dimensions of the fit of a polynomial of `degree` to `sample_count`
/// samples.
pub fn fit_shape(sample_count: usize, degree: usize) -> (shape: Result<FitShape, FitError>)
    ensures
        degree < 1 <==> shape == Err::<FitShape, FitError>(FitError::DegreeNotPositive),
        degree >= 1 && sample_count == 0 <==> shape == Err::<FitShape, FitError>(
            FitError::NoSamples,
        ),
        degree >= 1 && sample_count > 0 <==> shape is Ok,
        shape is Ok ==> shape->Ok_0.samples == sample_count && shape->Ok_0.coefficients
            == truncated_degree(sample_count as int, degree as int) + 1,
{
    if degree < 1 {
        return Err(FitError::DegreeNotPositive);
    }
    if sample_count == 0 {
        return Err(FitError::NoSamples);
    }
    let truncated: usize = if degree >= sample_count {
        sample_count - 1
    } else {
        degree
    };
    Ok(FitShape { samples: sample_count, coefficients: truncated + 1 })
}

/// A fit never has more coefficients than samples, nor more than one above
/// the degree asked for, and it always has one.
pub proof fn lemma_fit_is_determined(sample_count: usize, degree: usize)
    requires
        degree >= 1,
        sample_count > 0,
    ensures
        1 <= truncated_degree(sample_count as int, degree as int) + 1 <= sample_count,
        truncated_degree(sample_count as int, degree as int) <= degree,
{
}

} // verus!
