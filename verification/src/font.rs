//! Glyph geometry caching on top of a rasterizing font.
//!
//! A `GlyphCache` owns one font and memoizes the vectorized mesh of each
//! (character, resolution) pair; `Fonts` maps application font identifiers to
//! caches.  Vectorization runs at most once per key for the lifetime of a
//! cache, and entries are never evicted, so the cache grows monotonically
//! with the number of distinct keys — a deliberate policy of this design.

use std::collections::HashMap;

use vstd::prelude::*;

use crate::mesh::{some_pipeline_mesh, vectorize_bitmap, GlyphGeometry};

verus! {

broadcast use {
    vstd::map::group_map_axioms,
    vstd::set::group_set_axioms,
    vstd::std_specs::hash::group_hash_axioms,
};

/// Declares fontdue's `Font` so it can stand in fields and signatures; its
/// contents stay opaque to verification.
#[verifier::external_type_specification]
#[verifier::external_body]
pub struct ExFont(fontdue::Font);

/// Declares fontdue's `Metrics` (sizing and positioning of one rasterized
/// glyph); carried through opaquely for the rendering layer.
#[verifier::external_type_specification]
#[verifier::external_body]
pub struct ExMetrics(fontdue::Metrics);

/// An error of this library.
#[derive(Clone, Copy, Debug, PartialEq, Eq, Structural)]
pub enum Error {
    /// The font bytes handed to `Fonts::load` were malformed or unsupported.
    FontLoad,
}

/// Whether fontdue parses the given bytes as a usable font (under the
/// default settings, a fixed argument here).  A deterministic function of the
/// bytes alone.
pub uninterp spec fn font_parses(data: Seq<u8>) -> bool;

/// Relies on fontdue's `Font::from_bytes`: parsing the bytes of a font file
/// either yields a usable font or an error for malformed or unsupported data,
/// and with the fixed default settings the outcome depends on the bytes
/// alone.  `font_parses` names exactly that outcome.
#[verifier::external_body]
fn font_from_bytes(data: &[u8]) -> (r: Option<fontdue::Font>)
    ensures
        r is Some <==> font_parses(data@),
{
    fontdue::Font::from_bytes(data, fontdue::FontSettings::default()).ok()
}

/// Relies on fontdue's `Font::rasterize`: the returned coverage bitmap holds
/// exactly `Metrics::width * Metrics::height` bytes, top-left corner first in
/// row-major order, each byte the coverage of one pixel.  The wrapper hands
/// the two dimensions out beside the opaque metrics.
#[verifier::external_body]
fn rasterize_glyph(font: &fontdue::Font, ch: char, px: u32) -> (r: (
    fontdue::Metrics,
    usize,
    usize,
    Vec<u8>,
))
    ensures
        r.3@.len() == r.1 * r.2,
{
    let (metrics, bytes) = font.rasterize(ch, px as _);
    (metrics, metrics.width, metrics.height, bytes)
}

/// The cache key of a (character, resolution) pair: the character's code
/// point in the upper 32 bits, the resolution in the lower 32.
pub open spec fn char_res_key(ch: char, res: u32) -> u64 {
    ((ch as int) * 0x1_0000_0000 + res as int) as u64
}

/// Compute the cache key of a (character, resolution) pair.
pub fn glyph_key(ch: char, res: u32) -> (k: u64)
    ensures
        k == char_res_key(ch, res),
{
    proof {
        assert((ch as int) * 0x1_0000_0000 + (res as int) < 0x1_0000_0000_0000_0000) by {
            assert((ch as int) * 0x1_0000_0000 <= 0x10FFFF * 0x1_0000_0000) by (nonlinear_arith)
                requires
                    0 <= ch as int <= 0x10FFFF,
            ;
        }
    }
    (ch as u64) * 0x1_0000_0000 + (res as u64)
}

/// Distinct (character, resolution) pairs never collide in the cache: the key
/// encoding is injective.
pub proof fn lemma_glyph_key_injective(c1: char, r1: u32, c2: char, r2: u32)
    requires
        char_res_key(c1, r1) == char_res_key(c2, r2),
    ensures
        c1 == c2,
        r1 == r2,
{
    let a1 = c1 as int;
    let a2 = c2 as int;
    let b1 = r1 as int;
    let b2 = r2 as int;
    assert(a1 * 0x1_0000_0000 <= 0x10FFFF * 0x1_0000_0000) by (nonlinear_arith)
        requires
            0 <= a1 <= 0x10FFFF,
    ;
    assert(a2 * 0x1_0000_0000 <= 0x10FFFF * 0x1_0000_0000) by (nonlinear_arith)
        requires
            0 <= a2 <= 0x10FFFF,
    ;
    assert(a1 * 0x1_0000_0000 >= 0) by (nonlinear_arith)
        requires
            0 <= a1,
    ;
    assert(a2 * 0x1_0000_0000 >= 0) by (nonlinear_arith)
        requires
            0 <= a2,
    ;
    assert(a1 * 0x1_0000_0000 + b1 == a2 * 0x1_0000_0000 + b2);
    assert(a1 == a2 && b1 == b2) by (nonlinear_arith)
        requires
            a1 * 0x1_0000_0000 + b1 == a2 * 0x1_0000_0000 + b2,
            0 <= b1 < 0x1_0000_0000,
            0 <= b2 < 0x1_0000_0000,
    ;
}

/// The memoization store of one glyph cache: a mapping from encoded
/// (character, resolution) keys to rasterization metrics and tessellated
/// geometry.  Entries are only ever added, never changed or evicted.
pub struct GlyphStore {
    /// The backing table.
    pub map: HashMap<u64, (fontdue::Metrics, GlyphGeometry)>,
}

impl View for GlyphStore {
    type V = Map<u64, (fontdue::Metrics, GlyphGeometry)>;

    open spec fn view(&self) -> Map<u64, (fontdue::Metrics, GlyphGeometry)> {
        self.map@
    }
}

impl GlyphStore {
    /// Every stored mesh is well formed.
    pub open spec fn wf(&self) -> bool {
        forall|k: u64| self@.contains_key(k) ==> (#[trigger] self@[k]).1.wf()
    }

    /// An empty store.
    pub fn new() -> (s: GlyphStore)
        ensures
            s@ == Map::<u64, (fontdue::Metrics, GlyphGeometry)>::empty(),
            s.wf(),
    {
        GlyphStore { map: HashMap::new() }
    }

    /// How many keys are stored.
    pub fn len(&self) -> (n: usize)
        ensures
            n == self@.len(),
    {
        self.map.len()
    }

    /// Whether a key is present.
    pub fn contains_key(&self, key: u64) -> (r: bool)
        ensures
            r == self@.contains_key(key),
    {
        self.map.contains_key(&key)
    }

    /// The entry stored under a key, if any.
    pub fn get(&self, key: u64) -> (r: Option<&(fontdue::Metrics, GlyphGeometry)>)
        ensures
            match r {
                Some(e) => self@.contains_key(key) && *e == self@[key],
                None => !self@.contains_key(key),
            },
    {
        self.map.get(&key)
    }

    /// Store an entry under a key, replacing any previous entry there.
    pub fn insert(&mut self, key: u64, metrics: fontdue::Metrics, geometry: GlyphGeometry)
        requires
            old(self).wf(),
            geometry.wf(),
        ensures
            final(self).wf(),
            final(self)@ == old(self)@.insert(key, (metrics, geometry)),
            !old(self)@.contains_key(key) ==> final(self)@.len() == old(self)@.len() + 1,
    {
        let ghost oldmap = self@;
        self.map.insert(key, (metrics, geometry));
        proof {
            assert(self@.dom() =~= oldmap.dom().insert(key));
            if !oldmap.contains_key(key) {
                assert(self@.dom().len() == oldmap.dom().len() + 1);
            }
        }
    }
}

/// The cache contents after one lookup of `key`: unchanged on a hit, extended
/// by the freshly vectorized entry on a miss.
pub open spec fn glyph_step(
    m: Map<u64, (fontdue::Metrics, GlyphGeometry)>,
    key: u64,
    fresh: (fontdue::Metrics, GlyphGeometry),
) -> Map<u64, (fontdue::Metrics, GlyphGeometry)> {
    if m.contains_key(key) {
        m
    } else {
        m.insert(key, fresh)
    }
}

/// The entry one lookup of `key` returns: the stored entry on a hit, the
/// freshly vectorized one on a miss.
pub open spec fn glyph_result(
    m: Map<u64, (fontdue::Metrics, GlyphGeometry)>,
    key: u64,
    fresh: (fontdue::Metrics, GlyphGeometry),
) -> (fontdue::Metrics, GlyphGeometry) {
    if m.contains_key(key) {
        m[key]
    } else {
        fresh
    }
}

/// Looking the same key up twice is idempotent: the second lookup returns the
/// identical entry and leaves the cache exactly as the first left it, so
/// vectorization runs at most once per key.
pub proof fn lemma_glyph_lookup_idempotent(
    m: Map<u64, (fontdue::Metrics, GlyphGeometry)>,
    key: u64,
    fresh1: (fontdue::Metrics, GlyphGeometry),
    fresh2: (fontdue::Metrics, GlyphGeometry),
)
    ensures
        glyph_step(glyph_step(m, key, fresh1), key, fresh2) == glyph_step(m, key, fresh1),
        glyph_result(glyph_step(m, key, fresh1), key, fresh2) == glyph_result(m, key, fresh1),
{
}

/// The cache contents after looking up each of `keys` once, in order, with
/// `vals` the entries vectorized for the misses among them.
pub open spec fn glyph_step_all(
    m: Map<u64, (fontdue::Metrics, GlyphGeometry)>,
    keys: Seq<u64>,
    vals: Seq<(fontdue::Metrics, GlyphGeometry)>,
) -> Map<u64, (fontdue::Metrics, GlyphGeometry)>
    decreases keys.len(),
{
    if keys.len() == 0 {
        m
    } else {
        glyph_step(
            glyph_step_all(m, keys.drop_last(), vals.drop_last()),
            keys.last(),
            vals.last(),
        )
    }
}

/// Looking up N distinct, previously absent keys grows the cache by exactly N
/// entries: nothing is evicted and nothing is overwritten.
pub proof fn lemma_cache_growth(
    m: Map<u64, (fontdue::Metrics, GlyphGeometry)>,
    keys: Seq<u64>,
    vals: Seq<(fontdue::Metrics, GlyphGeometry)>,
)
    requires
        m.dom().finite(),
        keys.len() == vals.len(),
        keys.no_duplicates(),
        forall|i: int| 0 <= i < keys.len() ==> !m.contains_key(#[trigger] keys[i]),
    ensures
        glyph_step_all(m, keys, vals).dom() == m.dom().union(keys.to_set()),
        glyph_step_all(m, keys, vals).len() == m.len() + keys.len(),
    decreases keys.len(),
{
    broadcast use vstd::seq_lib::seq_to_set_is_finite;

    if keys.len() == 0 {
        assert(m.dom().union(keys.to_set()) =~= m.dom());
    } else {
        let init = keys.drop_last();
        let vinit = vals.drop_last();
        let last = keys.last();
        assert(init.no_duplicates());
        lemma_cache_growth(m, init, vinit);
        let inter = glyph_step_all(m, init, vinit);
        assert(!init.contains(last)) by {
            if init.contains(last) {
                let i = choose|i: int| 0 <= i < init.len() && init[i] == last;
                assert(keys[i] == keys[keys.len() - 1]);
            }
        }
        assert(!inter.contains_key(last));
        assert(inter.insert(last, vals.last()).dom() == inter.dom().insert(last));
        assert forall|k: u64| keys.to_set().contains(k) == init.to_set().insert(last).contains(
            k,
        ) by {
            crate::trace::lemma_contains_push(init, last, k);
            assert(keys =~= init.push(last));
        }
        assert(glyph_step_all(m, keys, vals).dom() =~= m.dom().union(keys.to_set()));
        assert(inter.dom().len() == m.len() + init.len());
        assert(inter.dom().insert(last).len() == inter.dom().len() + 1);
    }
}

/// A per-font glyph geometry cache: the font itself plus the memoized mesh of
/// every (character, resolution) pair looked up so far.
pub struct GlyphCache {
    /// The font that rasterizes the glyphs.
    pub font: fontdue::Font,
    /// The memoized metrics and geometry per encoded key.
    pub store: GlyphStore,
}

impl GlyphCache {
    /// Every cached mesh is well formed.
    pub open spec fn wf(&self) -> bool {
        self.store.wf()
    }

    /// A fresh, empty cache around a loaded font.
    pub fn new(font: fontdue::Font) -> (c: GlyphCache)
        ensures
            c.font == font,
            c.store@ == Map::<u64, (fontdue::Metrics, GlyphGeometry)>::empty(),
            c.wf(),
    {
        GlyphCache { font, store: GlyphStore::new() }
    }

    /// The font this cache rasterizes with.
    pub fn font(&self) -> (f: &fontdue::Font)
        ensures
            *f == self.font,
    {
        &self.font
    }

    /// Rasterize one glyph at the given pixel resolution and run the
    /// vectorization pipeline on the bitmap.  Which bitmap comes back depends
    /// on the opaque font, so the mesh is pinned as the pipeline's result for
    /// that bitmap, whichever it was.
    fn vectorize(&self, ch: char, res: u32) -> (r: (fontdue::Metrics, GlyphGeometry))
        ensures
            r.1.wf(),
            some_pipeline_mesh(r.1),
    {
        let (metrics, width, height, bytes) = rasterize_glyph(&self.font, ch, res);
        let geometry = vectorize_bitmap(width, height, &bytes);
        (metrics, geometry)
    }

    /// Make sure the entry for (ch, res) is cached, vectorizing it on a miss.
    fn ensure(&mut self, ch: char, res: u32)
        requires
            old(self).wf(),
        ensures
            final(self).wf(),
            final(self).font == old(self).font,
            exists|fresh: (fontdue::Metrics, GlyphGeometry)|
                #[trigger] glyph_step(old(self).store@, char_res_key(ch, res), fresh)
                    == final(self).store@ && fresh.1.wf(),
            final(self).store@.contains_key(char_res_key(ch, res)),
            old(self).store@.contains_key(char_res_key(ch, res)) ==> final(self).store@
                == old(self).store@,
            !old(self).store@.contains_key(char_res_key(ch, res)) ==> final(self).store@
                == old(self).store@.insert(char_res_key(ch, res), final(self).store@[char_res_key(ch, res)])
                && final(self).store@.len() == old(self).store@.len() + 1
                && some_pipeline_mesh(final(self).store@[char_res_key(ch, res)].1),
    {
        let key = glyph_key(ch, res);
        if !self.store.contains_key(key) {
            let (metrics, geometry) = self.vectorize(ch, res);
            self.store.insert(key, metrics, geometry);
            proof {
                assert(glyph_step(old(self).store@, key, (metrics, geometry)) == self.store@);
            }
        } else {
            proof {
                let entry = old(self).store@[char_res_key(ch, res)];
                assert(glyph_step(old(self).store@, key, entry) == self.store@);
            }
        }
    }

    /// Look up the metrics and mesh of one glyph at one sampling resolution.
    ///
    /// On a hit the stored entry is returned with the cache untouched; on a
    /// miss the glyph is rasterized, vectorized once, stored, and returned.
    /// All later lookups of the same key observe this same entry.
    pub fn glyph(&mut self, ch: char, res: u32) -> (r: &(fontdue::Metrics, GlyphGeometry))
        requires
            old(self).wf(),
        ensures
            final(self).wf(),
            final(self).font == old(self).font,
            final(self).store@.contains_key(char_res_key(ch, res)),
            *r == final(self).store@[char_res_key(ch, res)],
            r.1.wf(),
            exists|fresh: (fontdue::Metrics, GlyphGeometry)|
                #[trigger] glyph_step(old(self).store@, char_res_key(ch, res), fresh)
                    == final(self).store@ && *r == glyph_result(
                    old(self).store@,
                    char_res_key(ch, res),
                    fresh,
                ) && fresh.1.wf(),
            old(self).store@.contains_key(char_res_key(ch, res)) ==> final(self).store@
                == old(self).store@,
            !old(self).store@.contains_key(char_res_key(ch, res)) ==> final(self).store@
                == old(self).store@.insert(char_res_key(ch, res), *r)
                && final(self).store@.len() == old(self).store@.len() + 1
                && some_pipeline_mesh(r.1),
    {
        self.ensure(ch, res);
        let key = glyph_key(ch, res);
        let r = self.store.get(key).unwrap();
        proof {
            let fresh = choose|fresh: (fontdue::Metrics, GlyphGeometry)|
                #[trigger] glyph_step(old(self).store@, char_res_key(ch, res), fresh)
                    == self.store@ && fresh.1.wf();
            assert(glyph_step(old(self).store@, char_res_key(ch, res), fresh) == self.store@
                && *r == glyph_result(old(self).store@, char_res_key(ch, res), fresh)
                && fresh.1.wf());
        }
        r
    }

    /// Look up only the rasterization metrics of one glyph, caching its whole
    /// entry on the way.
    pub fn metrics(&mut self, ch: char, res: u32) -> (m: &fontdue::Metrics)
        requires
            old(self).wf(),
        ensures
            final(self).wf(),
            final(self).font == old(self).font,
            final(self).store@.contains_key(char_res_key(ch, res)),
            *m == final(self).store@[char_res_key(ch, res)].0,
            old(self).store@.contains_key(char_res_key(ch, res)) ==> final(self).store@
                == old(self).store@,
            !old(self).store@.contains_key(char_res_key(ch, res)) ==> final(self).store@
                == old(self).store@.insert(char_res_key(ch, res), final(self).store@[char_res_key(ch, res)])
                && final(self).store@.len() == old(self).store@.len() + 1
                && some_pipeline_mesh(final(self).store@[char_res_key(ch, res)].1),
    {
        &self.glyph(ch, res).0
    }
}

/// The font registry: maps an application-defined font identifier to the
/// glyph cache of the font loaded under it.
pub struct Fonts {
    /// One cache per loaded identifier.
    pub fonts: HashMap<u64, GlyphCache>,
}

impl View for Fonts {
    type V = Map<u64, GlyphCache>;

    open spec fn view(&self) -> Map<u64, GlyphCache> {
        self.fonts@
    }
}

impl Fonts {
    /// Every registered cache is well formed.
    pub open spec fn wf(&self) -> bool {
        forall|id: u64| self@.contains_key(id) ==> (#[trigger] self@[id]).wf()
    }

    /// An empty registry.
    pub fn new() -> (f: Fonts)
        ensures
            f@ == Map::<u64, GlyphCache>::empty(),
            f.wf(),
    {
        Fonts { fonts: HashMap::new() }
    }
}

impl Default for Fonts {
    /// An empty registry.
    fn default() -> (f: Fonts)
        ensures
            f@ == Map::<u64, GlyphCache>::empty(),
            f.wf(),
    {
        Fonts::new()
    }
}

impl Fonts {

    /// Parse font bytes and register a fresh cache for them under `id`,
    /// replacing whatever was stored there.  Loading succeeds exactly when
    /// the bytes parse as a font; malformed or unsupported bytes are reported
    /// as `Error::FontLoad` and leave the registry unchanged.
    pub fn load(&mut self, id: u64, data: &[u8]) -> (r: Result<(), Error>)
        requires
            old(self).wf(),
        ensures
            final(self).wf(),
            r is Ok <==> font_parses(data@),
            match r {
                Ok(()) => final(self)@.contains_key(id) && final(self)@[id].store@ == Map::<
                    u64,
                    (fontdue::Metrics, GlyphGeometry),
                >::empty() && final(self)@ == old(self)@.insert(id, final(self)@[id]),
                Err(e) => e == Error::FontLoad && final(self)@ == old(self)@,
            },
    {
        match font_from_bytes(data) {
            Some(font) => {
                let ghost oldfonts = self@;
                self.fonts.insert(id, GlyphCache::new(font));
                proof {
                    assert forall|id2: u64| self@.contains_key(id2) implies (
                    #[trigger] self@[id2]).wf() by {
                        if id2 != id {
                            assert(self@[id2] == oldfonts[id2]);
                        }
                    }
                }
                Ok(())
            },
            None => Err(Error::FontLoad),
        }
    }

    /// The cache registered under an identifier, if any.
    pub fn get(&self, id: u64) -> (r: Option<&GlyphCache>)
        ensures
            match r {
                Some(c) => self@.contains_key(id) && *c == self@[id],
                None => !self@.contains_key(id),
            },
    {
        self.fonts.get(&id)
    }

    /// Look up a glyph in the font registered under `id`.
    ///
    /// An identifier never loaded yields `None` and changes nothing; rendering
    /// then degrades to drawing nothing rather than failing.  Otherwise the
    /// identified cache answers as `GlyphCache::glyph` would.
    pub fn glyph(&mut self, id: u64, ch: char, res: u32) -> (r: Option<
        &(fontdue::Metrics, GlyphGeometry),
    >)
        requires
            old(self).wf(),
        ensures
            final(self).wf(),
            !old(self)@.contains_key(id) ==> r is None && final(self)@ == old(self)@,
            old(self)@.contains_key(id) ==> match r {
                Some(e) => {
                    let key = char_res_key(ch, res);
                    let oldc = old(self)@[id];
                    let newc = final(self)@[id];
                    &&& final(self)@.contains_key(id)
                    &&& final(self)@ == old(self)@.insert(id, newc)
                    &&& newc.font == oldc.font
                    &&& newc.store@.contains_key(key)
                    &&& *e == newc.store@[key]
                    &&& (oldc.store@.contains_key(key) ==> newc.store@ == oldc.store@)
                    &&& (!oldc.store@.contains_key(key) ==> newc.store@ == oldc.store@.insert(
                        key,
                        *e,
                    ) && newc.store@.len() == oldc.store@.len() + 1 && some_pipeline_mesh(e.1))
                },
                None => false,
            },
    {
        if !self.fonts.contains_key(&id) {
            return None;
        }
        let ghost oldfonts = self@;
        let mut cache = self.fonts.remove(&id).unwrap();
        cache.ensure(ch, res);
        self.fonts.insert(id, cache);
        proof {
            assert(self@ =~= oldfonts.insert(id, self@[id]));
        }
        let c = self.fonts.get(&id).unwrap();
        let key = glyph_key(ch, res);
        Some(c.store.get(key).unwrap())
    }
}

} // verus!
