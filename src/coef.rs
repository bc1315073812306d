use vstd::prelude::*;

verus! {

/// Identifies one coefficient: a band of the filter bank and a point in time.
#[derive(Clone, Copy, Debug, PartialEq, Eq, Structural, Hash)]
pub struct CoefMeta {
    /// The band number; either a bandpass band or the lowpass band.
    pub band: i32,
    /// The point in time, in samples from the stream origin.
    pub sample_time: i64,
}

/// One complex coefficient. Its parts are held as IEEE-754 binary32 bit
/// patterns, so that the store moves them about exactly.
#[derive(Clone, Copy, Debug, PartialEq, Eq, Structural, Hash)]
pub struct Coef {
    /// Bit pattern of the real part.
    pub re_bits: u32,
    /// Bit pattern of the imaginary part.
    pub im_bits: u32,
}

/// The zero coefficient, which is what an absent entry reads as.
pub open spec fn zero_coef() -> Coef {
    Coef { re_bits: 0, im_bits: 0 }
}

impl CoefMeta {
    /// The key of band `band` at time `sample_time`.
    pub fn new(band: i32, sample_time: i64) -> (r: CoefMeta)
        ensures
            r.band == band,
            r.sample_time == sample_time,
    {
        CoefMeta { band, sample_time }
    }
}

impl Coef {
    /// The coefficient with the given bit patterns of its parts.
    pub fn from_bits(re_bits: u32, im_bits: u32) -> (r: Coef)
        ensures
            r.re_bits == re_bits,
            r.im_bits == im_bits,
    {
        Coef { re_bits, im_bits }
    }

    /// The zero coefficient (both parts positive zero).
    pub fn zero() -> (r: Coef)
        ensures
            r == zero_coef(),
    {
        Coef { re_bits: 0, im_bits: 0 }
    }
}

} // verus!
