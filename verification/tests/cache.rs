use glyphvec::{glyph_key, Error, Fonts, GlyphGeometry, GlyphStore};

fn entry(tag: u16) -> (fontdue::Metrics, GlyphGeometry) {
    (
        fontdue::Metrics::default(),
        GlyphGeometry { vertices: vec![(tag as u32, 0), (0, 1), (1, 0)], indices: vec![0, 1, 2] },
    )
}

#[test]
fn key_encoding_has_exact_values() {
    assert_eq!(glyph_key('A', 100), 0x41_0000_0064);
    assert_eq!(glyph_key('\0', 0), 0);
    assert_eq!(glyph_key('\0', u32::MAX), 0xFFFF_FFFF);
}

#[test]
fn keys_of_distinct_pairs_never_collide() {
    let keys = [
        glyph_key('A', 100),
        glyph_key('A', 200),
        glyph_key('B', 100),
        glyph_key('B', 200),
        glyph_key('\u{10FFFF}', 0),
        glyph_key('\0', u32::MAX),
    ];
    for (i, a) in keys.iter().enumerate() {
        for (j, b) in keys.iter().enumerate() {
            assert_eq!(a == b, i == j);
        }
    }
}

#[test]
fn store_returns_the_entry_stored_under_a_key() {
    let mut store = GlyphStore::new();
    let (m, g) = entry(7);
    store.insert(glyph_key('A', 100), m, g.clone());
    let found = store.get(glyph_key('A', 100)).expect("entry must be present");
    assert_eq!(found.1, g);
}

#[test]
fn store_isolates_keys() {
    let mut store = GlyphStore::new();
    let (m1, g1) = entry(1);
    let (m2, g2) = entry(2);
    store.insert(glyph_key('A', 100), m1, g1.clone());
    store.insert(glyph_key('A', 200), m2, g2.clone());
    assert_eq!(store.get(glyph_key('A', 100)).unwrap().1, g1);
    assert_eq!(store.get(glyph_key('A', 200)).unwrap().1, g2);
    assert!(store.get(glyph_key('B', 100)).is_none());
}

#[test]
fn repeated_lookups_observe_the_same_entry() {
    let mut store = GlyphStore::new();
    let key = glyph_key('Q', 100);
    let (m, g) = entry(3);
    // The miss path runs once; later lookups hit without touching the store.
    if !store.contains_key(key) {
        store.insert(key, m, g);
    }
    let first = store.get(key).unwrap().1.clone();
    let second = store.get(key).unwrap().1.clone();
    assert_eq!(first, second);
    assert_eq!(store.len(), 1);
}

#[test]
fn n_distinct_keys_make_exactly_n_entries() {
    let mut store = GlyphStore::new();
    let chars = ['a', 'b', 'c', 'd', 'e'];
    let sizes = [50u32, 100, 200];
    let mut n = 0;
    for &ch in &chars {
        for &res in &sizes {
            let (m, g) = entry(n as u16);
            store.insert(glyph_key(ch, res), m, g);
            n += 1;
            assert_eq!(store.len(), n);
        }
    }
    assert_eq!(store.len(), chars.len() * sizes.len());
}

#[test]
fn loading_malformed_font_bytes_fails() {
    let mut fonts = Fonts::new();
    let r = fonts.load(1, &[0u8, 1, 2, 3, 4, 5]);
    assert_eq!(r, Err(Error::FontLoad));
    assert!(fonts.get(1).is_none());
}

#[test]
fn unknown_font_identifier_is_absent() {
    let mut fonts = Fonts::new();
    assert!(fonts.get(42).is_none());
    assert!(fonts.glyph(42, 'A', 100).is_none());
}

#[test]
fn default_registry_is_empty() {
    let fonts = Fonts::default();
    assert!(fonts.get(0).is_none());
}
