use gaborator::{BankLayout, Coef, CoefMeta, Coefs, Gaborator};

fn bank() -> Gaborator {
    Gaborator::new(&BankLayout {
        bands_per_octave: 12,
        analysis_support_len: 16,
        synthesis_support_len: 32,
        bandpass_bands_begin: 0,
        bandpass_bands_end: 4,
        band_lowpass: 4,
        band_ref: 1,
    })
    .unwrap()
}

fn key(band: i32, t: i64) -> CoefMeta {
    CoefMeta::new(band, t)
}

fn coef(re: f32, im: f32) -> Coef {
    Coef::from_bits(re.to_bits(), im.to_bits())
}

fn sorted(mut v: Vec<(CoefMeta, Coef)>) -> Vec<(CoefMeta, Coef)> {
    v.sort_by_key(|e| (e.0.band, e.0.sample_time));
    v
}

fn everything(c: &Coefs) -> Vec<(CoefMeta, Coef)> {
    sorted(c.export(i32::MIN, i32::MAX, i64::MIN, i64::MAX))
}

#[test]
fn fresh_store_reads_zero() {
    let g = bank();
    let c = Coefs::new(&g);
    assert_eq!(c.len(), 0);
    assert_eq!(c.get(key(0, 0)), Coef::zero());
    assert_eq!(c.get(key(3, -77)), Coef::zero());
    assert_eq!(c.get(key(4, i64::MAX)), Coef::zero());
    assert_eq!(Coef::zero(), Coef::from_bits(0, 0));
}

#[test]
fn fill_creates_every_key_of_the_window() {
    let g = bank();
    let mut c = Coefs::new(&g);
    c.fill(1, 3, 10, 13, |_m, _c| coef(1.0, 0.0));
    assert_eq!(c.len(), 6);
    for b in 1..3 {
        for t in 10..13 {
            assert_eq!(c.get(key(b, t)), coef(1.0, 0.0));
        }
    }
    assert_eq!(c.get(key(0, 10)), Coef::zero());
    assert_eq!(c.get(key(1, 13)), Coef::zero());
}

#[test]
fn fill_with_unbounded_bands_uses_the_analyzer_bands() {
    let g = bank();
    let mut c = Coefs::new(&g);
    c.fill(i32::MIN, i32::MAX, 0, 2, |m, _c| Coef::from_bits(m.band as u32, m.sample_time as u32));
    assert_eq!(c.len(), 10);
    assert_eq!(c.get(key(4, 1)), Coef::from_bits(4, 1));
    assert_eq!(c.get(key(5, 1)), Coef::zero());
    assert_eq!(c.len(), 10);
}

#[test]
fn fill_sees_current_value() {
    let g = bank();
    let mut c = Coefs::new(&g);
    c.fill(0, 1, 0, 1, |_m, _c| Coef::from_bits(7, 8));
    c.fill(0, 1, 0, 2, |_m, v| Coef::from_bits(v.re_bits + 1, v.im_bits));
    assert_eq!(c.get(key(0, 0)), Coef::from_bits(8, 8));
    assert_eq!(c.get(key(0, 1)), Coef::from_bits(1, 0));
}

#[test]
fn process_edits_only_present_keys() {
    let g = bank();
    let mut c = Coefs::new(&g);
    c.fill(0, 2, 0, 2, |_m, _c| Coef::from_bits(1, 1));
    c.process(i32::MIN, i32::MAX, i64::MIN, i64::MAX, |_m, v| Coef::from_bits(v.im_bits, 9));
    assert_eq!(c.len(), 4);
    assert_eq!(c.get(key(1, 1)), Coef::from_bits(1, 9));
    c.process(1, 2, 1, 100, |_m, _v| Coef::from_bits(5, 5));
    assert_eq!(c.len(), 4);
    assert_eq!(c.get(key(1, 1)), Coef::from_bits(5, 5));
    assert_eq!(c.get(key(1, 0)), Coef::from_bits(1, 9));
    assert_eq!(c.get(key(0, 1)), Coef::from_bits(1, 9));
}

#[test]
fn export_gives_the_window() {
    let g = bank();
    let mut c = Coefs::new(&g);
    c.fill(0, 3, 0, 3, |m, _c| Coef::from_bits(m.band as u32, m.sample_time as u32));
    let out = sorted(c.export(1, 2, 1, 3));
    assert_eq!(out, vec![(key(1, 1), Coef::from_bits(1, 1)), (key(1, 2), Coef::from_bits(1, 2))]);
    assert_eq!(c.export(0, 3, 5, 9), vec![]);
    assert_eq!(everything(&c).len(), 9);
}

#[test]
fn overwrite_import_into_empty_window_creates_nothing() {
    let g = bank();
    let mut c = Coefs::new(&g);
    c.fill(0, 2, 0, 2, |_m, _c| Coef::from_bits(3, 3));
    let before = everything(&c);
    let data = vec![(key(0, 50), Coef::from_bits(1, 1)), (key(1, 51), Coef::from_bits(2, 2))];
    c.import_overwrite(0, 4, 50, 60, &data);
    assert_eq!(everything(&c), before);
    assert_eq!(c.get(key(0, 50)), Coef::zero());
}

#[test]
fn overwrite_import_writes_present_keys() {
    let g = bank();
    let mut c = Coefs::new(&g);
    c.fill(0, 1, 0, 3, |_m, _c| Coef::from_bits(3, 3));
    let data = vec![
        (key(0, 1), Coef::from_bits(1, 1)),
        (key(0, 7), Coef::from_bits(2, 2)),
        (key(0, 1), Coef::from_bits(4, 4)),
        (key(0, 2), Coef::from_bits(6, 6)),
    ];
    c.import_overwrite(0, 1, 0, 2, &data);
    assert_eq!(c.len(), 3);
    assert_eq!(c.get(key(0, 0)), Coef::from_bits(3, 3));
    assert_eq!(c.get(key(0, 1)), Coef::from_bits(4, 4));
    assert_eq!(c.get(key(0, 2)), Coef::from_bits(3, 3));
    assert_eq!(c.get(key(0, 7)), Coef::zero());
}

#[test]
fn fill_import_zeroes_uncovered_keys() {
    let g = bank();
    let mut c = Coefs::new(&g);
    c.fill(0, 1, 0, 4, |_m, _c| Coef::from_bits(3, 3));
    let data = vec![(key(0, 1), Coef::from_bits(1, 2)), (key(0, 9), Coef::from_bits(5, 5))];
    c.import_fill(0, 1, 0, 3, &data);
    assert_eq!(c.get(key(0, 0)), Coef::zero());
    assert_eq!(c.get(key(0, 1)), Coef::from_bits(1, 2));
    assert_eq!(c.get(key(0, 2)), Coef::zero());
    assert_eq!(c.get(key(0, 3)), Coef::from_bits(3, 3));
    assert_eq!(c.get(key(0, 9)), Coef::zero());
    assert_eq!(c.len(), 4);
}

#[test]
fn fill_import_twice_equals_once() {
    let g = bank();
    let data = vec![
        (key(1, 0), Coef::from_bits(1, 2)),
        (key(4, 2), Coef::from_bits(3, 4)),
        (key(1, 0), Coef::from_bits(5, 6)),
    ];
    let mut once = Coefs::new(&g);
    once.fill(0, 2, 0, 5, |_m, _c| Coef::from_bits(9, 9));
    let mut twice = Coefs::new(&g);
    twice.fill(0, 2, 0, 5, |_m, _c| Coef::from_bits(9, 9));
    once.import_fill(1, 5, 0, 3, &data);
    twice.import_fill(1, 5, 0, 3, &data);
    twice.import_fill(1, 5, 0, 3, &data);
    assert_eq!(everything(&once), everything(&twice));
    assert_eq!(once.get(key(1, 0)), Coef::from_bits(5, 6));
}

#[test]
fn forget_before_drops_earlier_times() {
    let g = bank();
    let mut c = Coefs::new(&g);
    c.fill(0, 2, -3, 3, |m, _c| Coef::from_bits(1, m.sample_time as u32));
    c.forget_before(&g, 0, false);
    assert_eq!(c.len(), 6);
    assert_eq!(c.get(key(0, -1)), Coef::zero());
    assert_eq!(c.get(key(1, 0)), Coef::from_bits(1, 0));
    assert_eq!(c.get(key(1, 2)), Coef::from_bits(1, 2));
    c.forget_before(&g, 2, true);
    assert_eq!(c.len(), 2);
    c.forget_before(&g, i64::MIN, true);
    assert_eq!(c.len(), 2);
}

#[test]
fn forgotten_key_can_be_written_again() {
    let g = bank();
    let mut c = Coefs::new(&g);
    c.fill(0, 1, 0, 2, |_m, _c| Coef::from_bits(1, 1));
    c.forget_before(&g, 2, true);
    assert_eq!(c.len(), 0);
    c.import_fill(0, 1, 0, 1, &vec![(key(0, 0), Coef::from_bits(2, 2))]);
    assert_eq!(c.get(key(0, 0)), Coef::from_bits(2, 2));
}

fn to_csv(entries: &[(CoefMeta, Coef)]) -> String {
    let mut s = String::new();
    for (m, c) in entries {
        let re = f32::from_bits(c.re_bits);
        let im = f32::from_bits(c.im_bits);
        let magnitude = (re * re + im * im).sqrt();
        let phase = im.atan2(re);
        s.push_str(&format!("{},{},{},{}\n", m.sample_time, m.band, magnitude, phase));
    }
    s
}

fn from_csv(text: &str) -> Vec<(CoefMeta, Coef)> {
    let mut out = Vec::new();
    for line in text.lines() {
        let f: Vec<&str> = line.split(',').collect();
        let t: i64 = f[0].parse().unwrap();
        let b: i32 = f[1].parse().unwrap();
        let magnitude: f32 = f[2].parse().unwrap();
        let phase: f32 = f[3].parse().unwrap();
        out.push((key(b, t), coef(magnitude * phase.cos(), magnitude * phase.sin())));
    }
    out
}

#[test]
fn csv_round_trip_through_fill_import() {
    let g = bank();
    let mut c = Coefs::new(&g);
    c.fill(0, 5, 100, 110, |m, _c| {
        coef(0.25 * m.band as f32 - 0.5, 0.01 * (m.sample_time - 105) as f32)
    });
    let original = everything(&c);
    let text = to_csv(&c.export(i32::MIN, i32::MAX, 100, 110));
    assert_eq!(text.lines().count(), 50);
    let mut back = Coefs::new(&g);
    back.import_fill(0, 5, 90, 120, &from_csv(&text));
    assert_eq!(back.len(), 5 * 30);
    for (m, v) in original {
        let w = back.get(m);
        let dr = f32::from_bits(v.re_bits) - f32::from_bits(w.re_bits);
        let di = f32::from_bits(v.im_bits) - f32::from_bits(w.im_bits);
        assert!(dr.abs() < 1e-5 && di.abs() < 1e-5);
    }
    assert_eq!(back.get(key(2, 95)), Coef::zero());
}

#[test]
fn export_then_fill_import_is_exact() {
    let g = bank();
    let mut c = Coefs::new(&g);
    c.fill(0, 5, 0, 4, |m, _c| Coef::from_bits(m.band as u32 * 10, m.sample_time as u32));
    let mut back = Coefs::new(&g);
    back.import_fill(i32::MIN, i32::MAX, 0, 4, &c.export(i32::MIN, i32::MAX, 0, 4));
    assert_eq!(everything(&back), everything(&c));
}
