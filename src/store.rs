use vstd::prelude::*;

use crate::analyzer::Gaborator;
use crate::coef::{zero_coef, Coef, CoefMeta};

verus! {

/// The mapping that a sequence of (key, coefficient) pairs describes: each key
/// maps to the coefficient given last for it.
pub open spec fn map_of(s: Seq<(CoefMeta, Coef)>) -> Map<CoefMeta, Coef>
    decreases s.len(),
{
    if s.len() == 0 {
        Map::empty()
    } else {
        map_of(s.drop_last()).insert(s.last().0, s.last().1)
    }
}

/// No key occurs twice in `s`.
pub open spec fn unique_keys(s: Seq<(CoefMeta, Coef)>) -> bool {
    forall|i: int, j: int| 0 <= i < j < s.len() ==> s[i].0 != s[j].0
}

/// What reading `k` from `m` gives: its coefficient, or zero where it is absent.
pub open spec fn read(m: Map<CoefMeta, Coef>, k: CoefMeta) -> Coef {
    if m.contains_key(k) {
        m[k]
    } else {
        zero_coef()
    }
}

/// The coefficient of `k` in `m`, if there is one.
pub open spec fn lookup(m: Map<CoefMeta, Coef>, k: CoefMeta) -> Option<Coef> {
    if m.contains_key(k) {
        Some(m[k])
    } else {
        None
    }
}

/// Whether `k` lies in the window of bands `[from_band, to_band)` and times
/// `[from_sample_time, to_sample_time)`.
pub open spec fn in_window(
    k: CoefMeta,
    from_band: i32,
    to_band: i32,
    from_sample_time: i64,
    to_sample_time: i64,
) -> bool {
    from_band <= k.band < to_band && from_sample_time <= k.sample_time < to_sample_time
}

/// Whether `k` is one of the keys that a fill over the window visits: a key
/// inside the window for a band of the analyzer `g`.
pub open spec fn fill_key(
    g: Gaborator,
    k: CoefMeta,
    from_band: i32,
    to_band: i32,
    from_sample_time: i64,
    to_sample_time: i64,
) -> bool {
    g.spec_is_band(k.band as int) && in_window(
        k,
        from_band,
        to_band,
        from_sample_time,
        to_sample_time,
    )
}

/// The part of `m` inside the window.
pub open spec fn windowed(
    m: Map<CoefMeta, Coef>,
    from_band: i32,
    to_band: i32,
    from_sample_time: i64,
    to_sample_time: i64,
) -> Map<CoefMeta, Coef> {
    Map::new(
        |k: CoefMeta|
            m.contains_key(k) && in_window(k, from_band, to_band, from_sample_time, to_sample_time),
        |k: CoefMeta| m[k],
    )
}

/// What is left of `m` when the coefficients before time `limit` are forgotten.
pub open spec fn forgotten(m: Map<CoefMeta, Coef>, limit: i64) -> Map<CoefMeta, Coef> {
    Map::new(|k: CoefMeta| m.contains_key(k) && k.sample_time >= limit, |k: CoefMeta| m[k])
}

/// `m` after the coefficients of `d` are written over the keys of `m` inside
/// the window; values of `d` for keys that `m` lacks are dropped.
pub open spec fn overwritten(
    m: Map<CoefMeta, Coef>,
    from_band: i32,
    to_band: i32,
    from_sample_time: i64,
    to_sample_time: i64,
    d: Map<CoefMeta, Coef>,
) -> Map<CoefMeta, Coef> {
    Map::new(
        |k: CoefMeta| m.contains_key(k),
        |k: CoefMeta|
            if in_window(k, from_band, to_band, from_sample_time, to_sample_time) && d.contains_key(
                k,
            ) {
                d[k]
            } else {
                m[k]
            },
    )
}

/// `m` after every key that a fill over the window visits is set to its
/// coefficient in `d`, or to zero where `d` has none.
pub open spec fn filled(
    m: Map<CoefMeta, Coef>,
    g: Gaborator,
    from_band: i32,
    to_band: i32,
    from_sample_time: i64,
    to_sample_time: i64,
    d: Map<CoefMeta, Coef>,
) -> Map<CoefMeta, Coef> {
    Map::new(
        |k: CoefMeta|
            m.contains_key(k) || fill_key(
                g,
                k,
                from_band,
                to_band,
                from_sample_time,
                to_sample_time,
            ),
        |k: CoefMeta|
            if fill_key(g, k, from_band, to_band, from_sample_time, to_sample_time) {
                read(d, k)
            } else {
                m[k]
            },
    )
}

proof fn lemma_map_of_contains(s: Seq<(CoefMeta, Coef)>, k: CoefMeta)
    ensures
        map_of(s).contains_key(k) <==> exists|i: int| 0 <= i < s.len() && s[i].0 == k,
    decreases s.len(),
{
    if s.len() > 0 {
        lemma_map_of_contains(s.drop_last(), k);
        if map_of(s.drop_last()).contains_key(k) {
            let i = choose|i: int| 0 <= i < s.drop_last().len() && s.drop_last()[i].0 == k;
            assert(s[i].0 == k);
        }
        if exists|i: int| 0 <= i < s.len() && s[i].0 == k {
            let i = choose|i: int| 0 <= i < s.len() && s[i].0 == k;
            if i < s.len() - 1 {
                assert(s.drop_last()[i].0 == k);
            }
        }
    }
}

proof fn lemma_map_of_index(s: Seq<(CoefMeta, Coef)>, i: int)
    requires
        unique_keys(s),
        0 <= i < s.len(),
    ensures
        map_of(s).contains_key(s[i].0),
        map_of(s)[s[i].0] == s[i].1,
    decreases s.len(),
{
    if i < s.len() - 1 {
        assert(s.drop_last()[i] == s[i]);
        lemma_map_of_index(s.drop_last(), i);
    }
}

proof fn lemma_map_of_update(s: Seq<(CoefMeta, Coef)>, i: int, v: Coef)
    requires
        unique_keys(s),
        0 <= i < s.len(),
    ensures
        unique_keys(s.update(i, (s[i].0, v))),
        map_of(s.update(i, (s[i].0, v))) == map_of(s).insert(s[i].0, v),
{
    let t = s.update(i, (s[i].0, v));
    assert forall|k: CoefMeta| #[trigger] map_of(t).contains_key(k) <==> map_of(s).insert(
        s[i].0,
        v,
    ).contains_key(k) by {
        lemma_map_of_contains(s, k);
        lemma_map_of_contains(t, k);
        if exists|j: int| 0 <= j < s.len() && s[j].0 == k {
            let j = choose|j: int| 0 <= j < s.len() && s[j].0 == k;
            assert(t[j].0 == k);
        }
        if exists|j: int| 0 <= j < t.len() && t[j].0 == k {
            let j = choose|j: int| 0 <= j < t.len() && t[j].0 == k;
            assert(s[j].0 == k);
        }
    }
    assert forall|k: CoefMeta| #[trigger] map_of(t).contains_key(k) implies map_of(t)[k]
        == map_of(s).insert(s[i].0, v)[k] by {
        lemma_map_of_contains(t, k);
        let j = choose|j: int| 0 <= j < t.len() && t[j].0 == k;
        lemma_map_of_index(t, j);
        if j != i {
            lemma_map_of_index(s, j);
        }
    }
    assert(map_of(t) =~= map_of(s).insert(s[i].0, v));
}

proof fn lemma_push_fresh(s: Seq<(CoefMeta, Coef)>, e: (CoefMeta, Coef))
    requires
        unique_keys(s),
        !map_of(s).contains_key(e.0),
    ensures
        unique_keys(s.push(e)),
        map_of(s.push(e)) == map_of(s).insert(e.0, e.1),
{
    lemma_map_of_contains(s, e.0);
    assert(s.push(e).drop_last() == s);
    assert forall|i: int, j: int| 0 <= i < j < s.push(e).len() implies s.push(e)[i].0 != s.push(
        e,
    )[j].0 by {
        if j == s.len() {
            assert(s[i].0 != e.0);
        }
    }
}

proof fn lemma_take_step(s: Seq<(CoefMeta, Coef)>, i: int)
    requires
        unique_keys(s),
        0 <= i < s.len(),
    ensures
        map_of(s.take(i + 1)) == map_of(s.take(i)).insert(s[i].0, s[i].1),
        !map_of(s.take(i)).contains_key(s[i].0),
        unique_keys(s.take(i)),
{
    assert(s.take(i + 1).drop_last() == s.take(i));
    lemma_map_of_contains(s.take(i), s[i].0);
}

proof fn lemma_same_keys(s: Seq<(CoefMeta, Coef)>, t: Seq<(CoefMeta, Coef)>)
    requires
        s.len() == t.len(),
        forall|j: int| 0 <= j < s.len() ==> #[trigger] s[j].0 == t[j].0,
    ensures
        map_of(s).dom() == map_of(t).dom(),
        unique_keys(s) ==> unique_keys(t),
{
    assert forall|k: CoefMeta| map_of(s).contains_key(k) <==> map_of(t).contains_key(k) by {
        lemma_map_of_contains(s, k);
        lemma_map_of_contains(t, k);
        if exists|j: int| 0 <= j < s.len() && s[j].0 == k {
            let j = choose|j: int| 0 <= j < s.len() && s[j].0 == k;
            assert(t[j].0 == k);
        }
        if exists|j: int| 0 <= j < t.len() && t[j].0 == k {
            let j = choose|j: int| 0 <= j < t.len() && t[j].0 == k;
            assert(s[j].0 == k);
        }
    }
    assert(map_of(s).dom() =~= map_of(t).dom());
    if unique_keys(s) {
        assert forall|i: int, j: int| 0 <= i < j < t.len() implies t[i].0 != t[j].0 by {
            assert(s[i].0 == t[i].0);
            assert(s[j].0 == t[j].0);
        }
    }
}

proof fn lemma_map_of_len(s: Seq<(CoefMeta, Coef)>)
    requires
        unique_keys(s),
    ensures
        map_of(s).dom().finite(),
        map_of(s).dom().len() == s.len(),
    decreases s.len(),
{
    if s.len() > 0 {
        let t = s.drop_last();
        assert(unique_keys(t));
        lemma_map_of_len(t);
        lemma_map_of_contains(t, s.last().0);
        assert(!map_of(t).contains_key(s.last().0));
    }
}

/// The coefficient that `s` gives for `k`, found by a scan from its end.
fn find(s: &Vec<(CoefMeta, Coef)>, k: CoefMeta) -> (r: Option<Coef>)
    ensures
        r == lookup(map_of(s@), k),
{
    let mut i: usize = s.len();
    assert(s@.take(i as int) == s@);
    while i > 0
        invariant
            i <= s@.len(),
            lookup(map_of(s@), k) == lookup(map_of(s@.take(i as int)), k),
        decreases i,
    {
        let e = s[i - 1];
        assert(s@.take(i as int).drop_last() == s@.take(i - 1));
        if e.0 == k {
            return Some(e.1);
        }
        i = i - 1;
    }
    assert(map_of(s@.take(0)) == Map::<CoefMeta, Coef>::empty());
    None
}

/// A sparse store of the coefficients of one stream, keyed by band and time,
/// for the analyzer it was made with. An absent coefficient reads as zero.
pub struct Coefs {
    bank: Gaborator,
    entries: Vec<(CoefMeta, Coef)>,
}

impl View for Coefs {
    type V = Map<CoefMeta, Coef>;

    closed spec fn view(&self) -> Map<CoefMeta, Coef> {
        map_of(self.entries@)
    }
}

impl Coefs {
    /// The analyzer this store belongs to.
    pub closed spec fn bank(&self) -> Gaborator {
        self.bank
    }

    /// Every key is stored once, and only for a band of the analyzer.
    pub closed spec fn wf(&self) -> bool {
        &&& self.bank.wf()
        &&& unique_keys(self.entries@)
        &&& forall|i: int|
            0 <= i < self.entries@.len() ==> self.bank.spec_is_band(
                #[trigger] self.entries@[i].0.band as int,
            )
    }

    /// Every key present in the store is for a band of its analyzer.
    pub proof fn lemma_keys_have_bands(&self, k: CoefMeta)
        requires
            self.wf(),
            self@.contains_key(k),
        ensures
            self.bank().spec_is_band(k.band as int),
    {
        lemma_map_of_contains(self.entries@, k);
        let i = choose|i: int| 0 <= i < self.entries@.len() && self.entries@[i].0 == k;
        assert(self.bank.spec_is_band(self.entries@[i].0.band as int));
    }

    /// Creates an empty store for the coefficients of `gab`.
    pub fn new(gab: &Gaborator) -> (r: Coefs)
        requires
            gab.wf(),
        ensures
            r.wf(),
            r.bank() == *gab,
            r@ == Map::<CoefMeta, Coef>::empty(),
    {
        Coefs { bank: *gab, entries: Vec::new() }
    }

    /// The coefficient at `meta`; zero where the store holds none.
    pub fn get(&self, meta: CoefMeta) -> (r: Coef)
        ensures
            r == read(self@, meta),
    {
        match find(&self.entries, meta) {
            Some(c) => c,
            None => Coef::zero(),
        }
    }

    /// Sets the coefficient at `meta`, a key for a band of the analyzer.
    fn put(&mut self, meta: CoefMeta, c: Coef)
        requires
            old(self).wf(),
            old(self).bank().spec_is_band(meta.band as int),
        ensures
            final(self).wf(),
            final(self).bank() == old(self).bank(),
            final(self)@ == old(self)@.insert(meta, c),
    {
        let mut i: usize = 0;
        while i < self.entries.len()
            invariant
                self.entries@ == old(self).entries@,
                self.bank == old(self).bank,
                self.wf(),
                i <= self.entries@.len(),
                forall|j: int| 0 <= j < i ==> self.entries@[j].0 != meta,
            decreases self.entries@.len() - i,
        {
            if self.entries[i].0 == meta {
                proof {
                    lemma_map_of_update(self.entries@, i as int, c);
                }
                self.entries.set(i, (meta, c));
                return;
            }
            i = i + 1;
        }
        proof {
            lemma_map_of_contains(self.entries@, meta);
        }
        self.entries.push((meta, c));
        assert(self.entries@.drop_last() == old(self).entries@);
        assert(self.entries@.last() == (meta, c));
    }
    /// Lets the coefficients for times before `limit` be forgotten, to bound
    /// the memory of a long stream. Coefficients at `limit` or later are kept
    /// as they are; forgotten ones read as zero.
    ///
    /// `g` is the analyzer the store was made with. This store can always cut
    /// exactly at `limit` at no extra cost, so it forgets every coefficient
    /// before `limit` whether or not `clean_cut` asks for an exact cut.
    pub fn forget_before(&mut self, g: &Gaborator, limit: i64, clean_cut: bool)
        requires
            old(self).wf(),
        ensures
            final(self).wf(),
            final(self).bank() == old(self).bank(),
            final(self)@ == forgotten(old(self)@, limit),
    {
        let _ = (g, clean_cut);
        let mut kept: Vec<(CoefMeta, Coef)> = Vec::new();
        let mut i: usize = 0;
        while i < self.entries.len()
            invariant
                self.wf(),
                *self == *old(self),
                i <= self.entries@.len(),
                unique_keys(kept@),
                forall|j: int|
                    0 <= j < kept@.len() ==> self.bank.spec_is_band(#[trigger] kept@[j].0.band as int),
                map_of(kept@) == forgotten(map_of(self.entries@.take(i as int)), limit),
            decreases self.entries@.len() - i,
        {
            let e = self.entries[i];
            proof {
                lemma_take_step(self.entries@, i as int);
            }
            let ghost before = map_of(self.entries@.take(i as int));
            if e.0.sample_time >= limit {
                proof {
                    lemma_push_fresh(kept@, e);
                }
                kept.push(e);
                assert(forgotten(before.insert(e.0, e.1), limit) =~= forgotten(before, limit).insert(
                    e.0,
                    e.1,
                ));
            } else {
                assert(forgotten(before.insert(e.0, e.1), limit) =~= forgotten(before, limit));
            }
            i = i + 1;
        }
        assert(self.entries@.take(i as int) == self.entries@);
        self.entries = kept;
    }

    /// The coefficients inside the window, one pair per key, in no particular
    /// order.
    pub fn export(
        &self,
        from_band: i32,
        to_band: i32,
        from_sample_time: i64,
        to_sample_time: i64,
    ) -> (r: Vec<(CoefMeta, Coef)>)
        requires
            self.wf(),
        ensures
            unique_keys(r@),
            map_of(r@) == windowed(self@, from_band, to_band, from_sample_time, to_sample_time),
    {
        let mut out: Vec<(CoefMeta, Coef)> = Vec::new();
        let mut i: usize = 0;
        while i < self.entries.len()
            invariant
                self.wf(),
                i <= self.entries@.len(),
                unique_keys(out@),
                map_of(out@) == windowed(
                    map_of(self.entries@.take(i as int)),
                    from_band,
                    to_band,
                    from_sample_time,
                    to_sample_time,
                ),
            decreases self.entries@.len() - i,
        {
            let e = self.entries[i];
            proof {
                lemma_take_step(self.entries@, i as int);
            }
            let ghost before = map_of(self.entries@.take(i as int));
            if from_band <= e.0.band && e.0.band < to_band && from_sample_time <= e.0.sample_time
                && e.0.sample_time < to_sample_time {
                proof {
                    lemma_push_fresh(out@, e);
                }
                out.push(e);
                assert(windowed(
                    before.insert(e.0, e.1),
                    from_band,
                    to_band,
                    from_sample_time,
                    to_sample_time,
                ) =~= windowed(before, from_band, to_band, from_sample_time, to_sample_time).insert(
                    e.0,
                    e.1,
                ));
            } else {
                assert(windowed(
                    before.insert(e.0, e.1),
                    from_band,
                    to_band,
                    from_sample_time,
                    to_sample_time,
                ) =~= windowed(before, from_band, to_band, from_sample_time, to_sample_time));
            }
            i = i + 1;
        }
        assert(self.entries@.take(i as int) == self.entries@);
        out
    }
    /// Visits the coefficients present inside the window and replaces each by
    /// what `edit` returns for its key and value. Absent keys are skipped,
    /// never created; the order of the visits is unspecified.
    pub fn process<F: Fn(CoefMeta, Coef) -> Coef>(
        &mut self,
        from_band: i32,
        to_band: i32,
        from_sample_time: i64,
        to_sample_time: i64,
        edit: F,
    )
        requires
            old(self).wf(),
            forall|k: CoefMeta, c: Coef| edit.requires((k, c)),
        ensures
            final(self).wf(),
            final(self).bank() == old(self).bank(),
            final(self)@.dom() == old(self)@.dom(),
            forall|k: CoefMeta|
                #[trigger] final(self)@.contains_key(k) ==> if in_window(
                    k,
                    from_band,
                    to_band,
                    from_sample_time,
                    to_sample_time,
                ) {
                    edit.ensures((k, old(self)@[k]), final(self)@[k])
                } else {
                    final(self)@[k] == old(self)@[k]
                },
    {
        let ghost s0 = self.entries@;
        let mut i: usize = 0;
        while i < self.entries.len()
            invariant
                self.bank == old(self).bank,
                old(self).wf(),
                s0 == old(self).entries@,
                self.entries@.len() == s0.len(),
                i <= s0.len(),
                forall|k: CoefMeta, c: Coef| edit.requires((k, c)),
                forall|j: int| 0 <= j < s0.len() ==> #[trigger] self.entries@[j].0 == s0[j].0,
                forall|j: int|
                    0 <= j < i ==> if in_window(
                        s0[j].0,
                        from_band,
                        to_band,
                        from_sample_time,
                        to_sample_time,
                    ) {
                        edit.ensures((s0[j].0, s0[j].1), (#[trigger] self.entries@[j]).1)
                    } else {
                        self.entries@[j].1 == s0[j].1
                    },
                forall|j: int| i <= j < s0.len() ==> #[trigger] self.entries@[j] == s0[j],
            decreases s0.len() - i,
        {
            let e = self.entries[i];
            if from_band <= e.0.band && e.0.band < to_band && from_sample_time <= e.0.sample_time
                && e.0.sample_time < to_sample_time {
                let v = edit(e.0, e.1);
                self.entries.set(i, (e.0, v));
            }
            i = i + 1;
        }
        proof {
            lemma_same_keys(s0, self.entries@);
            assert forall|j: int| 0 <= j < self.entries@.len() implies self.bank.spec_is_band(
                #[trigger] self.entries@[j].0.band as int,
            ) by {
                assert(self.entries@[j].0 == s0[j].0);
            }
            assert forall|k: CoefMeta| #[trigger] self@.contains_key(k) implies if in_window(
                k,
                from_band,
                to_band,
                from_sample_time,
                to_sample_time,
            ) {
                edit.ensures((k, old(self)@[k]), self@[k])
            } else {
                self@[k] == old(self)@[k]
            } by {
                lemma_map_of_contains(s0, k);
                let j = choose|j: int| 0 <= j < s0.len() && s0[j].0 == k;
                lemma_map_of_index(s0, j);
                lemma_map_of_index(self.entries@, j);
            }
        }
    }
    /// Sets every key of band `band` at times `[from_sample_time, to_sample_time)`
    /// to what `f` returns for its key and current value.
    fn fill_band<F: Fn(CoefMeta, Coef) -> Coef>(
        &mut self,
        band: i32,
        from_sample_time: i64,
        to_sample_time: i64,
        f: &F,
    )
        requires
            old(self).wf(),
            old(self).bank().spec_is_band(band as int),
            forall|k: CoefMeta, c: Coef| f.requires((k, c)),
        ensures
            final(self).wf(),
            final(self).bank() == old(self).bank(),
            forall|k: CoefMeta|
                #[trigger] final(self)@.contains_key(k) <==> old(self)@.contains_key(k) || (k.band
                    == band && from_sample_time <= k.sample_time < to_sample_time),
            forall|k: CoefMeta|
                k.band == band && from_sample_time <= k.sample_time < to_sample_time ==> f.ensures(
                    (k, read(old(self)@, k)),
                    #[trigger] final(self)@[k],
                ),
            forall|k: CoefMeta|
                old(self)@.contains_key(k) && !(k.band == band && from_sample_time <= k.sample_time
                    < to_sample_time) ==> #[trigger] final(self)@[k] == old(self)@[k],
    {
        let ghost m0 = self@;
        let mut t: i64 = from_sample_time;
        while t < to_sample_time
            invariant
                self.wf(),
                self.bank == old(self).bank,
                m0 == old(self)@,
                old(self).bank().spec_is_band(band as int),
                forall|k: CoefMeta, c: Coef| f.requires((k, c)),
                from_sample_time <= t,
                t <= to_sample_time || t == from_sample_time,
                forall|k: CoefMeta|
                    #[trigger] self@.contains_key(k) <==> m0.contains_key(k) || (k.band == band
                        && from_sample_time <= k.sample_time < t),
                forall|k: CoefMeta|
                    k.band == band && from_sample_time <= k.sample_time < t ==> f.ensures(
                        (k, read(m0, k)),
                        #[trigger] self@[k],
                    ),
                forall|k: CoefMeta|
                    m0.contains_key(k) && !(k.band == band && from_sample_time <= k.sample_time < t)
                        ==> #[trigger] self@[k] == m0[k],
            decreases to_sample_time - t,
        {
            let k = CoefMeta { band, sample_time: t };
            let c = self.get(k);
            assert(c == read(m0, k));
            let v = f(k, c);
            let ghost m1 = self@;
            self.put(k, v);
            proof {
                assert forall|j: CoefMeta|
                    #[trigger] self@.contains_key(j) <==> m0.contains_key(j) || (j.band == band
                        && from_sample_time <= j.sample_time < t + 1) by {
                    if j.band == band && j.sample_time == t {
                        assert(j == k);
                    }
                }
                assert forall|j: CoefMeta|
                    j.band == band && from_sample_time <= j.sample_time < t + 1 implies f.ensures(
                    (j, read(m0, j)),
                    #[trigger] self@[j],
                ) by {
                    if j.sample_time == t {
                        assert(j == k);
                    }
                }
                assert forall|j: CoefMeta|
                    m0.contains_key(j) && !(j.band == band && from_sample_time <= j.sample_time < t
                        + 1) implies #[trigger] self@[j] == m0[j] by {
                    assert(j != k);
                    assert(m1[j] == m0[j]);
                }
            }
            t = t + 1;
        }
    }

    /// Visits every key inside the window for a band of the analyzer, present
    /// or not, and sets it to what `f` returns for the key and its current
    /// value (zero for an absent key); absent keys are created. The order of
    /// the visits is unspecified. The cost grows with the size of the window.
    pub fn fill<F: Fn(CoefMeta, Coef) -> Coef>(
        &mut self,
        from_band: i32,
        to_band: i32,
        from_sample_time: i64,
        to_sample_time: i64,
        f: F,
    )
        requires
            old(self).wf(),
            forall|k: CoefMeta, c: Coef| f.requires((k, c)),
        ensures
            final(self).wf(),
            final(self).bank() == old(self).bank(),
            forall|k: CoefMeta|
                #[trigger] final(self)@.contains_key(k) <==> old(self)@.contains_key(k) || fill_key(
                    old(self).bank(),
                    k,
                    from_band,
                    to_band,
                    from_sample_time,
                    to_sample_time,
                ),
            forall|k: CoefMeta|
                fill_key(
                    old(self).bank(),
                    k,
                    from_band,
                    to_band,
                    from_sample_time,
                    to_sample_time,
                ) ==> f.ensures((k, read(old(self)@, k)), #[trigger] final(self)@[k]),
            forall|k: CoefMeta|
                old(self)@.contains_key(k) && !fill_key(
                    old(self).bank(),
                    k,
                    from_band,
                    to_band,
                    from_sample_time,
                    to_sample_time,
                ) ==> #[trigger] final(self)@[k] == old(self)@[k],
    {
        let ghost m0 = self@;
        let ghost g = self.bank;
        let begin = self.bank.layout().bandpass_bands_begin;
        let end = self.bank.layout().bandpass_bands_end;
        let lowpass = self.bank.layout().band_lowpass;
        let lo = if from_band > begin { from_band } else { begin };
        let hi = if to_band < end { to_band } else { end };
        let mut b: i32 = lo;
        while b < hi
            invariant
                self.wf(),
                self.bank == g,
                g == old(self).bank,
                m0 == old(self)@,
                begin == g.spec_layout().bandpass_bands_begin,
                end == g.spec_layout().bandpass_bands_end,
                begin <= lo,
                hi <= end,
                lo <= b,
                b <= hi || b == lo,
                forall|k: CoefMeta, c: Coef| f.requires((k, c)),
                forall|k: CoefMeta|
                    #[trigger] self@.contains_key(k) <==> m0.contains_key(k) || (lo <= k.band < b
                        && from_sample_time <= k.sample_time < to_sample_time),
                forall|k: CoefMeta|
                    lo <= k.band < b && from_sample_time <= k.sample_time < to_sample_time
                        ==> f.ensures((k, read(m0, k)), #[trigger] self@[k]),
                forall|k: CoefMeta|
                    m0.contains_key(k) && !(lo <= k.band < b && from_sample_time <= k.sample_time
                        < to_sample_time) ==> #[trigger] self@[k] == m0[k],
            decreases hi - b,
        {
            let ghost m1 = self@;
            self.fill_band(b, from_sample_time, to_sample_time, &f);
            assert forall|k: CoefMeta|
                k.band == b && from_sample_time <= k.sample_time < to_sample_time implies read(m1, k)
                == read(m0, k) by {}
            b = b + 1;
        }
        let ghost m2 = self@;
        let low_in = from_band <= lowpass && lowpass < to_band;
        if low_in {
            self.fill_band(lowpass, from_sample_time, to_sample_time, &f);
            assert forall|k: CoefMeta|
                k.band == lowpass && from_sample_time <= k.sample_time < to_sample_time implies read(
                m2,
                k,
            ) == read(m0, k) by {}
        }
        assert forall|k: CoefMeta|
            fill_key(
                g,
                k,
                from_band,
                to_band,
                from_sample_time,
                to_sample_time,
            ) <==> (lo <= k.band < hi && from_sample_time <= k.sample_time < to_sample_time) || (
            low_in && k.band == lowpass && from_sample_time <= k.sample_time < to_sample_time) by {}
    }
    /// Writes the coefficients of `data` over the keys inside the window that
    /// the store already holds. Values for keys it lacks are dropped, and no
    /// key is created. Where `data` gives a key twice, the later value counts.
    pub fn import_overwrite(
        &mut self,
        from_band: i32,
        to_band: i32,
        from_sample_time: i64,
        to_sample_time: i64,
        data: &Vec<(CoefMeta, Coef)>,
    )
        requires
            old(self).wf(),
        ensures
            final(self).wf(),
            final(self).bank() == old(self).bank(),
            final(self)@ == overwritten(
                old(self)@,
                from_band,
                to_band,
                from_sample_time,
                to_sample_time,
                map_of(data@),
            ),
    {
        let replace = |k: CoefMeta, c: Coef| -> (r: Coef)
            ensures
                r == (match lookup(map_of(data@), k) {
                    Some(v) => v,
                    None => c,
                }),
            {
                match find(data, k) {
                    Some(v) => v,
                    None => c,
                }
            };
        self.process(from_band, to_band, from_sample_time, to_sample_time, replace);
        assert(self@ =~= overwritten(
            old(self)@,
            from_band,
            to_band,
            from_sample_time,
            to_sample_time,
            map_of(data@),
        ));
    }

    /// Writes the coefficients of `data` into every key inside the window for
    /// a band of the analyzer, creating keys as needed; a key of the window
    /// that `data` does not give is set to zero. Where `data` gives a key twice,
    /// the later value counts. The cost grows with the size of the window.
    pub fn import_fill(
        &mut self,
        from_band: i32,
        to_band: i32,
        from_sample_time: i64,
        to_sample_time: i64,
        data: &Vec<(CoefMeta, Coef)>,
    )
        requires
            old(self).wf(),
        ensures
            final(self).wf(),
            final(self).bank() == old(self).bank(),
            final(self)@ == filled(
                old(self)@,
                old(self).bank(),
                from_band,
                to_band,
                from_sample_time,
                to_sample_time,
                map_of(data@),
            ),
    {
        let supplied = |k: CoefMeta, _c: Coef| -> (r: Coef)
            ensures
                r == read(map_of(data@), k),
            {
                match find(data, k) {
                    Some(v) => v,
                    None => Coef::zero(),
                }
            };
        self.fill(from_band, to_band, from_sample_time, to_sample_time, supplied);
        assert(self@ =~= filled(
            old(self)@,
            old(self).bank(),
            from_band,
            to_band,
            from_sample_time,
            to_sample_time,
            map_of(data@),
        ));
    }
    /// The number of coefficients the store holds.
    pub fn len(&self) -> (r: usize)
        requires
            self.wf(),
        ensures
            self@.dom().finite(),
            r == self@.dom().len(),
    {
        proof {
            lemma_map_of_len(self.entries@);
        }
        self.entries.len()
    }
}

} // verus!
