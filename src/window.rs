use vstd::prelude::*;

verus! {

/// The shape of the envelope applied to a frame before it is transformed.
///
/// Every shape is a cosine sum: the weight at position `i` of a window of
/// length `L` is `(a0 - a1 * cos(t) + a2 * cos(2 * t)) / 100` with
/// `t = 2 * pi * i / L`, where `(a0, a1, a2)` are the shape's coefficients in
/// hundredths.
#[derive(Clone, Copy, Debug, PartialEq, Eq, Structural)]
pub enum WindowFunction {
    Blackman,
    Hamming,
    Hann,
    Rectangle,
}

impl WindowFunction {
    /// The coefficients `(a0, a1, a2)` of the shape, in hundredths.
    pub open spec fn spec_coefficients(self) -> (int, int, int) {
        match self {
            WindowFunction::Blackman => (42, 50, 8),
            WindowFunction::Hamming => (54, 46, 0),
            WindowFunction::Hann => (50, 50, 0),
            WindowFunction::Rectangle => (100, 0, 0),
        }
    }

    pub fn coefficients(&self) -> (r: (u32, u32, u32))
        ensures
            r.0 as int == self.spec_coefficients().0,
            r.1 as int == self.spec_coefficients().1,
            r.2 as int == self.spec_coefficients().2,
    {
        match self {
            WindowFunction::Blackman => (42, 50, 8),
            WindowFunction::Hamming => (54, 46, 0),
            WindowFunction::Hann => (50, 50, 0),
            WindowFunction::Rectangle => (100, 0, 0),
        }
    }
}

/// The weight of `shape` where `cos(t)` equals `c / s`, multiplied by
/// `100 * s * s` so that it is an integer (`cos(2t) = 2 cos(t)^2 - 1`).
pub open spec fn scaled_weight(shape: WindowFunction, c: int, s: int) -> int {
    let (a0, a1, a2) = shape.spec_coefficients();
    a0 * s * s - a1 * c * s + a2 * (2 * c * c - s * s)
}

/// Every weight of every shape lies in `[0, 1]`, whatever the cosine is, and
/// every weight of the rectangle is exactly `1`.
pub proof fn lemma_weight_in_unit_range(shape: WindowFunction, c: int, s: int)
    requires
        s > 0,
        -s <= c <= s,
    ensures
        0 <= scaled_weight(shape, c, s) <= 100 * s * s,
        shape == WindowFunction::Rectangle ==> scaled_weight(shape, c, s) == 100 * s * s,
{
    let w = scaled_weight(shape, c, s);
    match shape {
        WindowFunction::Blackman => {
            assert(w == 42 * s * s - 50 * c * s + 8 * (2 * c * c - s * s));
            assert(0 <= w <= 100 * s * s) by (nonlinear_arith)
                requires
                    w == 42 * s * s - 50 * c * s + 8 * (2 * c * c - s * s),
                    -s <= c <= s,
                    s > 0,
            {
                assert(w == 2 * (8 * c - 17 * s) * (c - s));
                assert((8 * c - 17 * s) * (c - s) >= 0);
                assert(100 * s * s - w == -2 * (8 * c - 33 * s) * (c + s));
                assert((8 * c - 33 * s) * (c + s) <= 0);
            }
        },
        WindowFunction::Hamming => {
            assert(w == 54 * s * s - 46 * c * s + 0 * (2 * c * c - s * s));
            assert(0 <= w <= 100 * s * s) by (nonlinear_arith)
                requires
                    w == 54 * s * s - 46 * c * s + 0 * (2 * c * c - s * s),
                    -s <= c <= s,
                    s > 0,
            {
                assert(c * s <= s * s && -(s * s) <= c * s);
            }
        },
        WindowFunction::Hann => {
            assert(w == 50 * s * s - 50 * c * s + 0 * (2 * c * c - s * s));
            assert(0 <= w <= 100 * s * s) by (nonlinear_arith)
                requires
                    w == 50 * s * s - 50 * c * s + 0 * (2 * c * c - s * s),
                    -s <= c <= s,
                    s > 0,
            {
                assert(c * s <= s * s && -(s * s) <= c * s);
            }
        },
        WindowFunction::Rectangle => {
            assert(w == 100 * s * s - 0 * c * s + 0 * (2 * c * c - s * s));
            assert(w == 100 * s * s) by (nonlinear_arith)
                requires
                    w == 100 * s * s - 0 * c * s + 0 * (2 * c * c - s * s),
            ;
        },
    }
}

} // verus!
