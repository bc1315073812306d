use vstd::prelude::*;

verus! {

/// Smallest supported number of bands per octave.
pub const MIN_BANDS_PER_OCTAVE: u32 = 6;

/// Largest supported number of bands per octave.
pub const MAX_BANDS_PER_OCTAVE: u32 = 384;

/// The derived shape of a filter bank, as the filter design reports it: the
/// resolution, the time supports of its filters and its band numbering.
#[derive(Clone, Copy, Debug, PartialEq, Eq, Structural)]
pub struct BankLayout {
    /// The number of frequency bands per octave.
    pub bands_per_octave: u32,
    /// One-sided worst-case time support of the analysis filters, in samples.
    pub analysis_support_len: usize,
    /// One-sided worst-case time support of the reconstruction filters, in samples.
    pub synthesis_support_len: usize,
    /// The smallest bandpass band number (the highest-frequency bandpass filter).
    pub bandpass_bands_begin: i32,
    /// One past the largest bandpass band number (the lowest-frequency one).
    pub bandpass_bands_end: i32,
    /// The band number of the lowpass band.
    pub band_lowpass: i32,
    /// The band number whose center frequency is the reference frequency; it
    /// need not be a bandpass band.
    pub band_ref: i32,
}

/// Why a layout does not describe a filter bank.
#[derive(Clone, Copy, Debug, PartialEq, Eq, Structural)]
pub enum LayoutError {
    /// `bands_per_octave` lies outside the supported range.
    BandsPerOctave,
    /// A bandpass or lowpass band number is negative.
    NegativeBand,
    /// The bandpass range holds no band.
    EmptyBandpass,
    /// The lowpass band number lies inside the bandpass range.
    LowpassInBandpass,
}

/// The first rule, in the order they are checked, that `l` breaks.
pub open spec fn layout_error(l: BankLayout) -> Option<LayoutError> {
    if l.bands_per_octave < MIN_BANDS_PER_OCTAVE || l.bands_per_octave > MAX_BANDS_PER_OCTAVE {
        Some(LayoutError::BandsPerOctave)
    } else if l.bandpass_bands_begin < 0 || l.band_lowpass < 0 {
        Some(LayoutError::NegativeBand)
    } else if l.bandpass_bands_begin >= l.bandpass_bands_end {
        Some(LayoutError::EmptyBandpass)
    } else if l.bandpass_bands_begin <= l.band_lowpass < l.bandpass_bands_end {
        Some(LayoutError::LowpassInBandpass)
    } else {
        None
    }
}

/// An analyzer: the immutable description of a logarithmically spaced
/// bandpass filter bank with one lowpass band for the residual.
///
/// Bandpass bands are numbered by contiguous nonnegative integers that grow
/// towards lower frequencies; the lowpass band has a number of its own.
#[derive(Clone, Copy, Debug)]
pub struct Gaborator {
    layout: BankLayout,
}

impl Gaborator {
    /// The layout this analyzer was built from.
    pub closed spec fn spec_layout(&self) -> BankLayout {
        self.layout
    }

    /// The analyzer describes a filter bank: its layout breaks no rule.
    pub open spec fn wf(&self) -> bool {
        layout_error(self.spec_layout()) is None
    }

    /// `band` is a band of this analyzer: a bandpass band or the lowpass band.
    pub open spec fn spec_is_band(&self, band: int) -> bool {
        let l = self.spec_layout();
        (l.bandpass_bands_begin <= band < l.bandpass_bands_end) || band == l.band_lowpass
    }

    /// Builds an analyzer from the layout of its filter bank.
    ///
    /// Fails when `bands_per_octave` lies outside 6 to 384, when a band number
    /// is negative, when the bandpass range is empty, or when the lowpass band
    /// lies inside the bandpass range, checked in that order.
    pub fn new(layout: &BankLayout) -> (r: Result<Gaborator, LayoutError>)
        ensures
            layout_error(*layout) is None <==> r is Ok,
            r matches Ok(g) ==> g.spec_layout() == *layout && g.wf(),
            r matches Err(e) ==> layout_error(*layout) == Some(e),
    {
        if layout.bands_per_octave < MIN_BANDS_PER_OCTAVE
            || layout.bands_per_octave > MAX_BANDS_PER_OCTAVE {
            Err(LayoutError::BandsPerOctave)
        } else if layout.bandpass_bands_begin < 0 || layout.band_lowpass < 0 {
            Err(LayoutError::NegativeBand)
        } else if layout.bandpass_bands_begin >= layout.bandpass_bands_end {
            Err(LayoutError::EmptyBandpass)
        } else if layout.bandpass_bands_begin <= layout.band_lowpass
            && layout.band_lowpass < layout.bandpass_bands_end {
            Err(LayoutError::LowpassInBandpass)
        } else {
            Ok(Gaborator { layout: *layout })
        }
    }

    /// The layout this analyzer was built from.
    pub fn layout(&self) -> (r: BankLayout)
        ensures
            r == self.spec_layout(),
    {
        self.layout
    }

    /// The number of frequency bands per octave.
    pub fn bands_per_octave(&self) -> (r: u32)
        requires
            self.wf(),
        ensures
            r == self.spec_layout().bands_per_octave,
            MIN_BANDS_PER_OCTAVE <= r <= MAX_BANDS_PER_OCTAVE,
    {
        self.layout.bands_per_octave
    }

    /// One-sided worst-case time support of the analysis filters: analyzing a
    /// sample at time t changes significantly only coefficients within t ± support.
    pub fn analysis_support_len(&self) -> (r: usize)
        ensures
            r == self.spec_layout().analysis_support_len,
    {
        self.layout.analysis_support_len
    }

    /// One-sided worst-case time support of the reconstruction filters: a sample
    /// synthesized at time t depends significantly only on coefficients within
    /// t ± support.
    pub fn synthesis_support_len(&self) -> (r: usize)
        ensures
            r == self.spec_layout().synthesis_support_len,
    {
        self.layout.synthesis_support_len
    }

    /// The smallest bandpass band number, that of the highest-frequency
    /// bandpass filter.
    pub fn bandpass_bands_begin(&self) -> (r: i32)
        requires
            self.wf(),
        ensures
            r == self.spec_layout().bandpass_bands_begin,
            0 <= r < self.spec_layout().bandpass_bands_end,
    {
        self.layout.bandpass_bands_begin
    }

    /// One past the largest bandpass band number, that of the lowest-frequency
    /// bandpass filter.
    pub fn bandpass_bands_end(&self) -> (r: i32)
        requires
            self.wf(),
        ensures
            r == self.spec_layout().bandpass_bands_end,
            self.spec_layout().bandpass_bands_begin < r,
    {
        self.layout.bandpass_bands_end
    }

    /// The band number of the lowpass band, which lies outside the bandpass range.
    pub fn band_lowpass(&self) -> (r: i32)
        requires
            self.wf(),
        ensures
            r == self.spec_layout().band_lowpass,
            0 <= r,
            !(self.spec_layout().bandpass_bands_begin <= r < self.spec_layout().bandpass_bands_end),
    {
        self.layout.band_lowpass
    }

    /// The band number of the reference frequency. It is a bandpass band only
    /// where the reference frequency lies inside the bandpass range.
    pub fn band_ref(&self) -> (r: i32)
        ensures
            r == self.spec_layout().band_ref,
    {
        self.layout.band_ref
    }

    /// Whether `band` is a band of this analyzer, bandpass or lowpass.
    pub fn is_band(&self, band: i32) -> (r: bool)
        ensures
            r == self.spec_is_band(band as int),
    {
        (self.layout.bandpass_bands_begin <= band && band < self.layout.bandpass_bands_end)
            || band == self.layout.band_lowpass
    }
}

} // verus!
