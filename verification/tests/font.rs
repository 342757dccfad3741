use glyphvec::{detect_boundary, trace_contours, vectorize_bitmap, Fonts, GlyphCache};

fn push_u16(v: &mut Vec<u8>, x: u16) {
    v.extend_from_slice(&x.to_be_bytes());
}

fn push_i16(v: &mut Vec<u8>, x: i16) {
    v.extend_from_slice(&x.to_be_bytes());
}

fn push_u32(v: &mut Vec<u8>, x: u32) {
    v.extend_from_slice(&x.to_be_bytes());
}

/// Assemble an sfnt font file from tables already sorted by tag.
fn assemble(tables: &[([u8; 4], Vec<u8>)]) -> Vec<u8> {
    let mut f = Vec::new();
    push_u32(&mut f, 0x0001_0000); // sfnt version
    push_u16(&mut f, tables.len() as u16); // numTables
    push_u16(&mut f, 0); // searchRange
    push_u16(&mut f, 0); // entrySelector
    push_u16(&mut f, 0); // rangeShift
    let mut offset = 12 + 16 * tables.len() as u32;
    for (tag, data) in tables {
        f.extend_from_slice(tag);
        push_u32(&mut f, 0); // checksum, not validated
        push_u32(&mut f, offset);
        push_u32(&mut f, data.len() as u32);
        offset += data.len() as u32;
    }
    for (_, data) in tables {
        f.extend_from_slice(data);
    }
    f
}

fn head_table() -> Vec<u8> {
    let mut t = Vec::new();
    push_u32(&mut t, 0x0001_0000); // version
    push_u32(&mut t, 0); // font revision
    push_u32(&mut t, 0); // checksum adjustment
    push_u32(&mut t, 0x5F0F_3CF5); // magic
    push_u16(&mut t, 0); // flags
    push_u16(&mut t, 1000); // units per em
    push_u32(&mut t, 0);
    push_u32(&mut t, 0); // created
    push_u32(&mut t, 0);
    push_u32(&mut t, 0); // modified
    push_i16(&mut t, 0); // xMin
    push_i16(&mut t, 0); // yMin
    push_i16(&mut t, 1000); // xMax
    push_i16(&mut t, 1000); // yMax
    push_u16(&mut t, 0); // macStyle
    push_u16(&mut t, 8); // lowest recommended PPEM
    push_i16(&mut t, 0); // font direction hint
    push_i16(&mut t, 0); // indexToLocFormat: short
    push_i16(&mut t, 0); // glyphDataFormat
    t
}

fn hhea_table(number_of_metrics: u16) -> Vec<u8> {
    let mut t = Vec::new();
    push_u32(&mut t, 0x0001_0000); // version
    push_i16(&mut t, 800); // ascender
    push_i16(&mut t, -200); // descender
    push_i16(&mut t, 0); // line gap
    for _ in 0..12 {
        push_u16(&mut t, 0); // advanceWidthMax through reserved fields
    }
    push_u16(&mut t, number_of_metrics);
    t
}

fn maxp_table(num_glyphs: u16) -> Vec<u8> {
    let mut t = Vec::new();
    push_u32(&mut t, 0x0000_5000); // version 0.5
    push_u16(&mut t, num_glyphs);
    t
}

/// A minimal valid font: only the three mandatory tables, one glyph and no
/// outlines, so every character rasterizes to an empty bitmap, like a space.
fn minimal_font_bytes() -> Vec<u8> {
    assemble(&[(*b"head", head_table()), (*b"hhea", hhea_table(0)), (*b"maxp", maxp_table(1))])
}

/// One simple glyf entry: closed contours of straight lines between on-curve
/// points, each contour given as absolute coordinates.
fn glyf_entry(bbox: [i16; 4], contours: &[&[(i16, i16)]]) -> Vec<u8> {
    let mut t = Vec::new();
    push_i16(&mut t, contours.len() as i16);
    for &b in &bbox {
        push_i16(&mut t, b);
    }
    let mut end = 0u16;
    for c in contours {
        end += c.len() as u16;
        push_u16(&mut t, end - 1);
    }
    push_u16(&mut t, 0); // no instructions
    let n: usize = contours.iter().map(|c| c.len()).sum();
    for _ in 0..n {
        t.push(0x01); // on curve, 16-bit x and y deltas
    }
    let mut prev = 0i16;
    for c in contours {
        for &(x, _) in *c {
            push_i16(&mut t, x - prev);
            prev = x;
        }
    }
    prev = 0;
    for c in contours {
        for &(_, y) in *c {
            push_i16(&mut t, y - prev);
            prev = y;
        }
    }
    t
}

/// cmap format 4: each entry maps one character to one glyph index.
fn cmap_table(mappings: &[(u16, u16)]) -> Vec<u8> {
    let seg_count = mappings.len() as u16 + 1;
    let mut sub = Vec::new();
    push_u16(&mut sub, 4); // format
    push_u16(&mut sub, 16 + 8 * seg_count); // length
    push_u16(&mut sub, 0); // language
    push_u16(&mut sub, seg_count * 2);
    push_u16(&mut sub, 2); // searchRange
    push_u16(&mut sub, 0); // entrySelector
    push_u16(&mut sub, 0); // rangeShift
    for &(ch, _) in mappings {
        push_u16(&mut sub, ch); // endCode
    }
    push_u16(&mut sub, 0xFFFF);
    push_u16(&mut sub, 0); // reserved pad
    for &(ch, _) in mappings {
        push_u16(&mut sub, ch); // startCode
    }
    push_u16(&mut sub, 0xFFFF);
    for &(ch, glyph) in mappings {
        push_u16(&mut sub, glyph.wrapping_sub(ch)); // idDelta
    }
    push_u16(&mut sub, 1);
    for _ in 0..seg_count {
        push_u16(&mut sub, 0); // idRangeOffset
    }
    let mut t = Vec::new();
    push_u16(&mut t, 0); // version
    push_u16(&mut t, 1); // one encoding record
    push_u16(&mut t, 3); // platform: Windows
    push_u16(&mut t, 1); // encoding: Unicode BMP
    push_u32(&mut t, 12); // subtable offset
    t.extend_from_slice(&sub);
    t
}

/// A font with real outlines: 'O' is a square ring with a hole, 'I' a plain
/// vertical bar, both drawn in a 1000-unit em.
fn outline_font_bytes() -> Vec<u8> {
    // Glyph 1, 'O': outer loop counterclockwise, inner loop clockwise.
    let ring = glyf_entry(
        [100, 100, 900, 900],
        &[
            &[(100, 100), (900, 100), (900, 900), (100, 900)],
            &[(300, 300), (300, 700), (700, 700), (700, 300)],
        ],
    );
    // Glyph 2, 'I': one bar.
    let bar = glyf_entry([400, 100, 600, 900], &[&[(400, 100), (600, 100), (600, 900), (400, 900)]]);
    let mut glyf = Vec::new();
    glyf.extend_from_slice(&ring);
    glyf.extend_from_slice(&bar);
    let mut loca = Vec::new();
    push_u16(&mut loca, 0); // glyph 0: empty
    push_u16(&mut loca, 0);
    push_u16(&mut loca, (ring.len() / 2) as u16);
    push_u16(&mut loca, ((ring.len() + bar.len()) / 2) as u16);
    let mut hmtx = Vec::new();
    for (advance, lsb) in [(500u16, 0i16), (1000, 100), (1000, 400)] {
        push_u16(&mut hmtx, advance);
        push_i16(&mut hmtx, lsb);
    }
    assemble(&[
        (*b"cmap", cmap_table(&[('I' as u16, 2), ('O' as u16, 1)])),
        (*b"glyf", glyf),
        (*b"head", head_table()),
        (*b"hhea", hhea_table(3)),
        (*b"hmtx", hmtx),
        (*b"loca", loca),
        (*b"maxp", maxp_table(3)),
    ])
}

fn minimal_font() -> fontdue::Font {
    fontdue::Font::from_bytes(minimal_font_bytes(), fontdue::FontSettings::default())
        .expect("the minimal font must parse")
}

fn outline_font() -> fontdue::Font {
    fontdue::Font::from_bytes(outline_font_bytes(), fontdue::FontSettings::default())
        .expect("the outline font must parse")
}

#[test]
fn loading_valid_font_bytes_succeeds() {
    let mut fonts = Fonts::new();
    assert_eq!(fonts.load(1, &minimal_font_bytes()), Ok(()));
    let cache = fonts.get(1).expect("the font must be registered");
    assert_eq!(cache.store.len(), 0, "a fresh cache holds no geometry");
}

#[test]
fn glyph_lookup_vectorizes_only_once() {
    let mut fonts = Fonts::new();
    fonts.load(1, &minimal_font_bytes()).unwrap();
    let first = fonts.glyph(1, 'A', 100).expect("loaded font answers").1.clone();
    assert_eq!(fonts.get(1).unwrap().store.len(), 1);
    let second = fonts.glyph(1, 'A', 100).expect("loaded font answers").1.clone();
    assert_eq!(first, second, "both lookups observe the identical geometry");
    assert_eq!(fonts.get(1).unwrap().store.len(), 1, "the second lookup adds nothing");
}

#[test]
fn distinct_pairs_fill_distinct_cache_entries() {
    let mut fonts = Fonts::new();
    fonts.load(7, &minimal_font_bytes()).unwrap();
    fonts.glyph(7, 'A', 100).unwrap();
    fonts.glyph(7, 'A', 200).unwrap();
    fonts.glyph(7, 'B', 100).unwrap();
    assert_eq!(fonts.get(7).unwrap().store.len(), 3);
    fonts.glyph(7, 'A', 100).unwrap();
    assert_eq!(fonts.get(7).unwrap().store.len(), 3);
}

#[test]
fn cache_answers_directly_and_metrics_match_the_entry() {
    let mut cache = GlyphCache::new(minimal_font());
    let (metrics, geometry) = {
        let entry = cache.glyph('x', 50);
        (entry.0, entry.1.clone())
    };
    // A font without outlines rasterizes every character like a space:
    // no coverage, and therefore empty geometry.
    assert_eq!(metrics.width, 0);
    assert_eq!(metrics.height, 0);
    assert!(geometry.vertices.is_empty());
    assert!(geometry.indices.is_empty());
    assert_eq!(*cache.metrics('x', 50), metrics);
}

#[test]
fn cache_keeps_the_font_it_was_built_around() {
    let cache = GlyphCache::new(minimal_font());
    assert_eq!(cache.font().units_per_em(), 1000.0);
}

#[test]
fn rasterized_round_glyph_has_at_least_two_contours() {
    let font = outline_font();
    let (metrics, bitmap) = font.rasterize('O', 50.0);
    assert!(metrics.width > 0 && metrics.height > 0);
    let mut b = detect_boundary(metrics.width, metrics.height, &bitmap);
    let contours = trace_contours(&mut b);
    assert!(contours.len() >= 2, "got {} contours", contours.len());
}

#[test]
fn rasterized_bar_glyph_is_one_contour_and_a_simple_quad() {
    let font = outline_font();
    let (metrics, bitmap) = font.rasterize('I', 50.0);
    assert!(metrics.width > 0 && metrics.height > 0);
    let mut b = detect_boundary(metrics.width, metrics.height, &bitmap);
    let contours = trace_contours(&mut b);
    assert_eq!(contours.len(), 1);
    let g = vectorize_bitmap(metrics.width, metrics.height, &bitmap);
    assert!(g.indices.len() >= 6, "a quad needs at least two triangles");
    assert!(g.indices.len() % 3 == 0);
}

#[test]
fn cached_round_glyph_carries_real_triangles() {
    let mut fonts = Fonts::new();
    fonts.load(3, &outline_font_bytes()).unwrap();
    let entry = fonts.glyph(3, 'O', 50).expect("loaded font answers");
    assert!(!entry.1.vertices.is_empty());
    assert!(entry.1.indices.len() % 3 == 0);
    assert!(!entry.1.indices.is_empty());
}
