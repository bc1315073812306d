use gaborator::{BankLayout, Gaborator, LayoutError};

fn layout() -> BankLayout {
    BankLayout {
        bands_per_octave: 48,
        analysis_support_len: 2048,
        synthesis_support_len: 4096,
        bandpass_bands_begin: 0,
        bandpass_bands_end: 300,
        band_lowpass: 300,
        band_ref: 120,
    }
}

#[test]
fn new_keeps_layout() {
    let g = Gaborator::new(&layout()).unwrap();
    assert_eq!(g.layout(), layout());
    assert_eq!(g.bands_per_octave(), 48);
    assert_eq!(g.analysis_support_len(), 2048);
    assert_eq!(g.synthesis_support_len(), 4096);
    assert_eq!(g.bandpass_bands_begin(), 0);
    assert_eq!(g.bandpass_bands_end(), 300);
    assert_eq!(g.band_lowpass(), 300);
    assert_eq!(g.band_ref(), 120);
}

#[test]
fn band_ordering_holds() {
    let g = Gaborator::new(&layout()).unwrap();
    assert!(g.bandpass_bands_begin() < g.bandpass_bands_end());
    let low = g.band_lowpass();
    assert!(!(g.bandpass_bands_begin() <= low && low < g.bandpass_bands_end()));
}

#[test]
fn bands_per_octave_range_edges() {
    let mut l = layout();
    l.bands_per_octave = 6;
    assert!(Gaborator::new(&l).is_ok());
    l.bands_per_octave = 384;
    assert!(Gaborator::new(&l).is_ok());
    l.bands_per_octave = 5;
    assert_eq!(Gaborator::new(&l).unwrap_err(), LayoutError::BandsPerOctave);
    l.bands_per_octave = 385;
    assert_eq!(Gaborator::new(&l).unwrap_err(), LayoutError::BandsPerOctave);
}

#[test]
fn negative_band_is_refused() {
    let mut l = layout();
    l.bandpass_bands_begin = -1;
    assert_eq!(Gaborator::new(&l).unwrap_err(), LayoutError::NegativeBand);
    let mut l = layout();
    l.band_lowpass = -1;
    assert_eq!(Gaborator::new(&l).unwrap_err(), LayoutError::NegativeBand);
}

#[test]
fn empty_bandpass_is_refused() {
    let mut l = layout();
    l.bandpass_bands_end = 0;
    assert_eq!(Gaborator::new(&l).unwrap_err(), LayoutError::EmptyBandpass);
}

#[test]
fn lowpass_inside_bandpass_is_refused() {
    let mut l = layout();
    l.band_lowpass = 299;
    assert_eq!(Gaborator::new(&l).unwrap_err(), LayoutError::LowpassInBandpass);
    l.band_lowpass = 0;
    assert_eq!(Gaborator::new(&l).unwrap_err(), LayoutError::LowpassInBandpass);
}

#[test]
fn errors_come_in_rule_order() {
    let mut l = layout();
    l.bands_per_octave = 1;
    l.bandpass_bands_begin = -5;
    assert_eq!(Gaborator::new(&l).unwrap_err(), LayoutError::BandsPerOctave);
    l.bands_per_octave = 12;
    l.bandpass_bands_end = -10;
    assert_eq!(Gaborator::new(&l).unwrap_err(), LayoutError::NegativeBand);
}

#[test]
fn reference_band_may_lie_outside() {
    let mut l = layout();
    l.band_ref = -3;
    let g = Gaborator::new(&l).unwrap();
    assert_eq!(g.band_ref(), -3);
    assert!(!g.is_band(g.band_ref()));
}

#[test]
fn is_band_covers_bandpass_and_lowpass() {
    let mut l = layout();
    l.band_lowpass = 1000;
    let g = Gaborator::new(&l).unwrap();
    assert!(g.is_band(0));
    assert!(g.is_band(299));
    assert!(!g.is_band(300));
    assert!(g.is_band(1000));
    assert!(!g.is_band(-1));
}
