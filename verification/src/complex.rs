//! Complex values over exact decimal coordinates, with arithmetic and the
//! canonical text rendering.

use vstd::prelude::*;

use crate::scalar::Scalar;
use crate::scalar::spec_scalar_add;
use crate::scalar::spec_scalar_mul;
use crate::scalar::spec_scalar_sub;
use crate::scalar::spec_scalar_text;
use crate::scalar::spec_unsigned_text;
use crate::text::string_of;

verus! {

/// A complex number; both coordinates count thousandths.
#[derive(Debug, Clone, Copy, PartialEq, Eq)]
pub struct Complex {
    pub real: Scalar,
    pub imaginary: Scalar,
}

/// Componentwise sum, or `None` when a coordinate does not fit.
pub open spec fn spec_complex_add(a: Complex, b: Complex) -> Option<Complex> {
    match (spec_scalar_add(a.real, b.real), spec_scalar_add(a.imaginary, b.imaginary)) {
        (Some(re), Some(im)) => Some(Complex { real: re, imaginary: im }),
        _ => None,
    }
}

/// Componentwise difference, or `None` when a coordinate does not fit.
pub open spec fn spec_complex_sub(a: Complex, b: Complex) -> Option<Complex> {
    match (spec_scalar_sub(a.real, b.real), spec_scalar_sub(a.imaginary, b.imaginary)) {
        (Some(re), Some(im)) => Some(Complex { real: re, imaginary: im }),
        _ => None,
    }
}

/// The complex product `(ac - bd) + (ad + bc)j` for `a + bj` times `c + dj`,
/// each coordinate product rounded to thousandths before it is combined, or
/// `None` when any step does not fit.
pub open spec fn spec_complex_mul(a: Complex, b: Complex) -> Option<Complex> {
    match (
        spec_scalar_mul(a.real, b.real),
        spec_scalar_mul(a.imaginary, b.imaginary),
        spec_scalar_mul(a.real, b.imaginary),
        spec_scalar_mul(a.imaginary, b.real),
    ) {
        (Some(ac), Some(bd), Some(ad), Some(bc)) => match (
            spec_scalar_sub(ac, bd),
            spec_scalar_add(ad, bc),
        ) {
            (Some(re), Some(im)) => Some(Complex { real: re, imaginary: im }),
            _ => None,
        },
        _ => None,
    }
}

/// The canonical text of a complex value with real part `re` and imaginary
/// part `im`, both in thousandths: a zero imaginary part prints as the real
/// part alone; a zero real part with a nonzero imaginary part prints as the
/// imaginary part followed by `j`; otherwise the real part is followed by an
/// explicit `+` or `-`, the imaginary magnitude, and `j`.
pub open spec fn spec_complex_text(re: int, im: int) -> Seq<char> {
    if im == 0 {
        spec_scalar_text(re)
    } else if re == 0 {
        spec_scalar_text(im) + seq!['j']
    } else if im > 0 {
        spec_scalar_text(re) + seq!['+'] + spec_unsigned_text(im as nat) + seq!['j']
    } else {
        spec_scalar_text(re) + seq!['-'] + spec_unsigned_text((-im) as nat) + seq!['j']
    }
}

impl Complex {
    /// Both coordinates are in canonical form.
    pub open spec fn wf(self) -> bool {
        self.real.wf() && self.imaginary.wf()
    }

    pub fn new(re: Scalar, im: Scalar) -> (r: Complex)
        ensures
            r == (Complex { real: re, imaginary: im }),
    {
        Complex { real: re, imaginary: im }
    }

    pub fn real_part(&self) -> (r: Scalar)
        ensures
            r == self.real,
    {
        self.real
    }

    pub fn imaginary(&self) -> (r: Scalar)
        ensures
            r == self.imaginary,
    {
        self.imaginary
    }

    /// Componentwise sum, or `None` when a coordinate does not fit.
    pub fn add(self, other: Complex) -> (r: Option<Complex>)
        ensures
            r == spec_complex_add(self, other),
    {
        match (self.real.add(other.real), self.imaginary.add(other.imaginary)) {
            (Some(re), Some(im)) => Some(Complex { real: re, imaginary: im }),
            _ => None,
        }
    }

    /// Componentwise difference, or `None` when a coordinate does not fit.
    pub fn sub(self, other: Complex) -> (r: Option<Complex>)
        ensures
            r == spec_complex_sub(self, other),
    {
        match (self.real.sub(other.real), self.imaginary.sub(other.imaginary)) {
            (Some(re), Some(im)) => Some(Complex { real: re, imaginary: im }),
            _ => None,
        }
    }

    /// The complex product `(ac - bd) + (ad + bc)j`, or `None` when a step
    /// does not fit.
    pub fn mul(self, other: Complex) -> (r: Option<Complex>)
        ensures
            r == spec_complex_mul(self, other),
    {
        match (
            self.real.mul(other.real),
            self.imaginary.mul(other.imaginary),
            self.real.mul(other.imaginary),
            self.imaginary.mul(other.real),
        ) {
            (Some(ac), Some(bd), Some(ad), Some(bc)) => match (ac.sub(bd), ad.add(bc)) {
                (Some(re), Some(im)) => Some(Complex { real: re, imaginary: im }),
                _ => None,
            },
            _ => None,
        }
    }

    /// The characters of the canonical rendering of this value.
    pub fn to_chars(&self) -> (r: Vec<char>)
        ensures
            r@ == spec_complex_text(self.real.value(), self.imaginary.value()),
    {
        if self.imaginary.mant == 0 {
            let r = self.real.to_chars();
            proof {
                assert(r@ =~= spec_complex_text(self.real.value(), self.imaginary.value()));
            }
            r
        } else if self.real.mant == 0 {
            let mut r = self.imaginary.to_chars();
            r.push('j');
            proof {
                assert(r@ =~= spec_complex_text(self.real.value(), self.imaginary.value()));
            }
            r
        } else {
            let mut r = self.real.to_chars();
            if self.imaginary.neg {
                r.push('-');
            } else {
                r.push('+');
            }
            let mut mag = Scalar { neg: false, mant: self.imaginary.mant }.to_chars();
            r.append(&mut mag);
            r.push('j');
            proof {
                assert(r@ =~= spec_complex_text(self.real.value(), self.imaginary.value()));
            }
            r
        }
    }

    /// The canonical rendering of this value.
    pub fn to_text(&self) -> (r: String)
        ensures
            r@ == spec_complex_text(self.real.value(), self.imaginary.value()),
    {
        let v = self.to_chars();
        string_of(&v)
    }
}

} // verus!
