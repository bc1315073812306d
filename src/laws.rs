//! Properties that relate the operations of the store and the analyzer.
use vstd::prelude::*;

use crate::analyzer::Gaborator;
use crate::coef::{zero_coef, Coef, CoefMeta};
use crate::store::{
    fill_key, filled, forgotten, in_window, overwritten, read, windowed, Coefs,
};

verus! {

/// A store that nothing was written to reads zero at every key.
pub proof fn law_fresh_store_reads_zero(k: CoefMeta)
    ensures
        read(Map::<CoefMeta, Coef>::empty(), k) == zero_coef(),
{
}

/// After the coefficients before `limit` are forgotten, a key at or after
/// `limit` reads as it did before, and a key before `limit` reads as zero or
/// as it did before; never as anything else.
pub proof fn law_forget_reads(m: Map<CoefMeta, Coef>, limit: i64, k: CoefMeta)
    ensures
        k.sample_time >= limit ==> read(forgotten(m, limit), k) == read(m, k),
        read(forgotten(m, limit), k) == zero_coef() || read(forgotten(m, limit), k) == read(m, k),
{
}

/// Importing the same data in fill mode over the same window twice leaves the
/// store as importing it once does.
pub proof fn law_fill_import_idempotent(
    m: Map<CoefMeta, Coef>,
    g: Gaborator,
    from_band: i32,
    to_band: i32,
    from_sample_time: i64,
    to_sample_time: i64,
    d: Map<CoefMeta, Coef>,
)
    ensures
        filled(
            filled(m, g, from_band, to_band, from_sample_time, to_sample_time, d),
            g,
            from_band,
            to_band,
            from_sample_time,
            to_sample_time,
            d,
        ) == filled(m, g, from_band, to_band, from_sample_time, to_sample_time, d),
{
    assert(filled(
        filled(m, g, from_band, to_band, from_sample_time, to_sample_time, d),
        g,
        from_band,
        to_band,
        from_sample_time,
        to_sample_time,
        d,
    ) =~= filled(m, g, from_band, to_band, from_sample_time, to_sample_time, d));
}

/// Importing in overwrite-only mode over a window in which the store holds no
/// coefficient leaves the store unchanged: nothing is created.
pub proof fn law_overwrite_import_creates_nothing(
    m: Map<CoefMeta, Coef>,
    from_band: i32,
    to_band: i32,
    from_sample_time: i64,
    to_sample_time: i64,
    d: Map<CoefMeta, Coef>,
)
    requires
        forall|k: CoefMeta|
            #[trigger] m.contains_key(k) ==> !in_window(
                k,
                from_band,
                to_band,
                from_sample_time,
                to_sample_time,
            ),
    ensures
        overwritten(m, from_band, to_band, from_sample_time, to_sample_time, d) == m,
{
    assert(overwritten(m, from_band, to_band, from_sample_time, to_sample_time, d) =~= m);
}

/// What is exported from a window of a store and imported in fill mode into a
/// store of the same analyzer, over that window or a larger one, holds every
/// coefficient of the window as the first store held it.
pub proof fn law_export_fill_import_round_trip(
    source: Coefs,
    target: Map<CoefMeta, Coef>,
    from_band: i32,
    to_band: i32,
    from_sample_time: i64,
    to_sample_time: i64,
    import_from_band: i32,
    import_to_band: i32,
    import_from_sample_time: i64,
    import_to_sample_time: i64,
    k: CoefMeta,
)
    requires
        source.wf(),
        import_from_band <= from_band,
        to_band <= import_to_band,
        import_from_sample_time <= from_sample_time,
        to_sample_time <= import_to_sample_time,
        source@.contains_key(k),
        in_window(k, from_band, to_band, from_sample_time, to_sample_time),
    ensures
        ({
            let imported = filled(
                target,
                source.bank(),
                import_from_band,
                import_to_band,
                import_from_sample_time,
                import_to_sample_time,
                windowed(source@, from_band, to_band, from_sample_time, to_sample_time),
            );
            imported.contains_key(k) && imported[k] == source@[k]
        }),
{
    source.lemma_keys_have_bands(k);
    assert(fill_key(
        source.bank(),
        k,
        import_from_band,
        import_to_band,
        import_from_sample_time,
        import_to_sample_time,
    ));
}

/// The bandpass range of an analyzer is not empty, and its lowpass band lies
/// outside it.
pub proof fn law_band_ordering(g: Gaborator)
    requires
        g.wf(),
    ensures
        g.spec_layout().bandpass_bands_begin < g.spec_layout().bandpass_bands_end,
        !(g.spec_layout().bandpass_bands_begin <= g.spec_layout().band_lowpass
            < g.spec_layout().bandpass_bands_end),
{
}

} // verus!
