use fontgen::bitmap::pack;
use fontgen::font::reconcile_sizes;
use fontgen::table::{ConstFontMap, GlyphMap, SizeMap};
use fontgen::{Font, FontSize, FontWeight};

fn leak<T>(items: Vec<T>) -> &'static [T] {
    Box::leak(items.into_boxed_slice())
}

fn build_map<K: phf_shared::PhfHash, V>(entries: Vec<(K, V)>) -> phf::Map<K, V> {
    let state = {
        let keys: Vec<&K> = entries.iter().map(|e| &e.0).collect();
        phf_generator::generate_hash(&keys)
    };
    let mut slots: Vec<Option<(K, V)>> = entries.into_iter().map(Some).collect();
    let ordered: Vec<(K, V)> = state.map.iter().map(|&i| slots[i].take().unwrap()).collect();
    phf::Map { key: state.key, disps: leak(state.disps), entries: leak(ordered) }
}

fn glyph_map(glyphs: Vec<(char, Vec<u8>)>) -> GlyphMap {
    build_map(glyphs.into_iter().map(|(c, b)| (c, leak(b))).collect())
}

fn size_map(sizes: Vec<((u32, u32), GlyphMap)>) -> SizeMap {
    build_map(sizes.into_iter().map(|((w, h), g)| ([w, h], g)).collect())
}

fn font_of(weights: Vec<(&'static str, SizeMap)>) -> Font {
    let table: ConstFontMap = build_map(weights);
    Font::from(&*Box::leak(Box::new(table)))
}

fn size(width: u32, height: u32) -> FontSize {
    FontSize { width, height }
}

fn chequered(width: u32, height: u32) -> Vec<bool> {
    (0..width * height).map(|i| (i / width + i % width) % 2 == 0 || i % 5 == 0).collect()
}

fn one_glyph_font(width: u32, height: u32, pixels: &[bool]) -> Font {
    let bytes = pack(size(width, height), pixels);
    font_of(vec![("Medium", size_map(vec![((width, height), glyph_map(vec![('a', bytes)]))]))])
}

#[test]
fn weights_lists_the_one_weight() {
    let font = one_glyph_font(16, 32, &chequered(16, 32));
    assert_eq!(font.weights(), vec![FontWeight::from("Medium")]);
}

#[test]
fn weights_lists_every_weight_once() {
    let font = font_of(vec![
        ("Regular", size_map(vec![((8, 16), glyph_map(vec![('a', vec![0; 16])]))])),
        ("Bold", size_map(vec![((8, 16), glyph_map(vec![('a', vec![1; 16])]))])),
        ("Light", size_map(vec![])),
    ]);
    let mut labels: Vec<&str> = font.weights().iter().map(|w| w.inner).collect();
    labels.sort();
    assert_eq!(labels, vec!["Bold", "Light", "Regular"]);
}

#[test]
fn weights_of_an_empty_table_is_empty() {
    let font = font_of(vec![]);
    assert_eq!(font.weights(), Vec::<FontWeight>::new());
    assert_eq!(font.sizes(), Vec::<(FontSize, bool)>::new());
}

#[test]
fn sizes_of_one_weight_and_one_size() {
    let font = one_glyph_font(16, 32, &chequered(16, 32));
    assert_eq!(font.sizes(), vec![(size(16, 32), true)]);
}

#[test]
fn sizes_of_one_weight_reports_every_size_as_everywhere() {
    let font = font_of(vec![(
        "Regular",
        size_map(vec![
            ((16, 32), glyph_map(vec![('a', vec![0; 64])])),
            ((8, 16), glyph_map(vec![('a', vec![0; 16])])),
        ]),
    )]);
    assert_eq!(font.sizes(), vec![(size(8, 16), true), (size(16, 32), true)]);
}

#[test]
fn sizes_marks_a_size_that_one_weight_lacks() {
    let font = font_of(vec![
        (
            "Regular",
            size_map(vec![
                ((8, 16), glyph_map(vec![('a', vec![0; 16])])),
                ((16, 32), glyph_map(vec![('a', vec![0; 64])])),
            ]),
        ),
        ("Bold", size_map(vec![((16, 32), glyph_map(vec![('a', vec![0; 64])]))])),
    ]);
    assert_eq!(font.sizes(), vec![(size(8, 16), false), (size(16, 32), true)]);
}

#[test]
fn sizes_reports_a_shared_size_once() {
    let font = font_of(vec![
        ("Regular", size_map(vec![((6, 12), glyph_map(vec![('a', vec![0; 9])]))])),
        ("Bold", size_map(vec![((6, 12), glyph_map(vec![('b', vec![0; 9])]))])),
        ("Light", size_map(vec![((6, 12), glyph_map(vec![('c', vec![0; 9])]))])),
    ]);
    assert_eq!(font.sizes(), vec![(size(6, 12), true)]);
}

#[test]
fn sizes_with_a_weight_without_sizes_are_nowhere_everywhere() {
    let font = font_of(vec![
        ("Regular", size_map(vec![((6, 12), glyph_map(vec![('a', vec![0; 9])]))])),
        ("Bold", size_map(vec![])),
    ]);
    assert_eq!(font.sizes(), vec![(size(6, 12), false)]);
}

#[test]
fn reconcile_of_no_weight_is_empty() {
    assert_eq!(reconcile_sizes(&vec![]), vec![]);
    assert_eq!(reconcile_sizes(&vec![vec![], vec![]]), vec![]);
}

#[test]
fn reconcile_sorts_by_width_then_height() {
    let lists = vec![vec![size(16, 32), size(8, 16), size(8, 8), size(12, 1)]];
    assert_eq!(
        reconcile_sizes(&lists),
        vec![(size(8, 8), true), (size(8, 16), true), (size(12, 1), true), (size(16, 32), true)]
    );
}

#[test]
fn reconcile_reports_each_size_once_with_one_flag() {
    let lists = vec![
        vec![size(8, 16), size(16, 32)],
        vec![size(16, 32), size(10, 20)],
        vec![size(16, 32), size(8, 16), size(16, 32)],
    ];
    assert_eq!(
        reconcile_sizes(&lists),
        vec![(size(8, 16), false), (size(10, 20), false), (size(16, 32), true)]
    );
}

#[test]
fn reconcile_does_not_depend_on_the_order_of_the_weights() {
    let a = vec![size(8, 16), size(16, 32)];
    let b = vec![size(16, 32)];
    assert_eq!(reconcile_sizes(&vec![a.clone(), b.clone()]), reconcile_sizes(&vec![b, a]));
}

#[test]
fn get_finds_the_glyph() {
    let pixels = chequered(16, 32);
    let font = one_glyph_font(16, 32, &pixels);
    let glyph = font.get("Medium".into(), (16, 32).into(), 'a').expect("the glyph is there");
    assert_eq!(glyph.size(), size(16, 32));
    assert_eq!(glyph.raw().len(), 64);
    assert_eq!(glyph.raw(), &pack(size(16, 32), &pixels)[..]);
    assert!(glyph.is_complete());
}

#[test]
fn get_misses_an_unknown_weight() {
    let font = one_glyph_font(16, 32, &chequered(16, 32));
    assert!(font.get("Bold".into(), (16, 32).into(), 'a').is_none());
    assert!(font.get("medium".into(), (16, 32).into(), 'a').is_none());
    assert!(font.get("".into(), (16, 32).into(), 'a').is_none());
}

#[test]
fn get_misses_an_unknown_size() {
    let font = one_glyph_font(16, 32, &chequered(16, 32));
    assert!(font.get("Medium".into(), (32, 16).into(), 'a').is_none());
    assert!(font.get("Medium".into(), (16, 31).into(), 'a').is_none());
}

#[test]
fn get_misses_an_unknown_character() {
    let font = one_glyph_font(16, 32, &chequered(16, 32));
    assert!(font.get("Medium".into(), (16, 32).into(), 'b').is_none());
    assert!(font.get("Medium".into(), (16, 32).into(), 'A').is_none());
}

#[test]
fn get_on_empty_maps_misses() {
    let empty = font_of(vec![]);
    assert!(empty.get("Medium".into(), (16, 32).into(), 'a').is_none());
    let no_sizes = font_of(vec![("Medium", size_map(vec![]))]);
    assert!(no_sizes.get("Medium".into(), (16, 32).into(), 'a').is_none());
    let no_glyphs = font_of(vec![("Medium", size_map(vec![((16, 32), glyph_map(vec![]))]))]);
    assert!(no_glyphs.get("Medium".into(), (16, 32).into(), 'a').is_none());
    let made_empty = Font::from(&*Box::leak(Box::new(ConstFontMap::new())));
    assert!(made_empty.get("Medium".into(), (16, 32).into(), 'a').is_none());
    assert_eq!(made_empty.weights(), Vec::<FontWeight>::new());
}

#[test]
fn get_tells_weights_sizes_and_characters_apart() {
    let font = font_of(vec![
        (
            "Regular",
            size_map(vec![
                ((8, 8), glyph_map(vec![('a', vec![1; 8]), ('b', vec![2; 8])])),
                ((4, 4), glyph_map(vec![('a', vec![3; 2])])),
            ]),
        ),
        ("Bold", size_map(vec![((8, 8), glyph_map(vec![('a', vec![4; 8])]))])),
    ]);
    assert_eq!(font.get("Regular".into(), (8, 8).into(), 'a').unwrap().raw(), &[1; 8][..]);
    assert_eq!(font.get("Regular".into(), (8, 8).into(), 'b').unwrap().raw(), &[2; 8][..]);
    assert_eq!(font.get("Regular".into(), (4, 4).into(), 'a').unwrap().raw(), &[3; 2][..]);
    assert_eq!(font.get("Bold".into(), (8, 8).into(), 'a').unwrap().raw(), &[4; 8][..]);
    assert!(font.get("Bold".into(), (4, 4).into(), 'a').is_none());
    assert!(font.get("Bold".into(), (8, 8).into(), 'b').is_none());
}

#[test]
fn convert_with_the_identity_gives_the_pixels_back() {
    for (width, height) in [(16u32, 32u32), (5, 5), (1, 1), (7, 3), (8, 8), (13, 2)] {
        let pixels = chequered(width, height);
        let font = one_glyph_font(width, height, &pixels);
        let glyph = font.get("Medium".into(), (width, height).into(), 'a').unwrap();
        let mut buffer = vec![false; pixels.len()];
        glyph.convert(|b| b, &mut buffer);
        assert_eq!(buffer, pixels);
    }
}

#[test]
fn convert_applies_the_mapping_to_each_pixel() {
    let pixels = vec![true, false, false, true, true, false];
    let font = one_glyph_font(3, 2, &pixels);
    let glyph = font.get("Medium".into(), (3, 2).into(), 'a').unwrap();
    let mut buffer = vec![7u8; 6];
    glyph.convert(|b| if b { 255 } else { 0 }, &mut buffer);
    assert_eq!(buffer, vec![255, 0, 0, 255, 255, 0]);
}

#[test]
fn convert_leaves_the_rest_of_the_buffer() {
    let pixels = vec![true, false, true, false];
    let font = one_glyph_font(2, 2, &pixels);
    let glyph = font.get("Medium".into(), (2, 2).into(), 'a').unwrap();
    let mut buffer = vec![9u8; 7];
    glyph.convert(|b| b as u8, &mut buffer);
    assert_eq!(buffer, vec![1, 0, 1, 0, 9, 9, 9]);
}

#[test]
fn convert_of_an_empty_glyph_writes_nothing() {
    let font = one_glyph_font(0, 5, &[]);
    let glyph = font.get("Medium".into(), (0, 5).into(), 'a').unwrap();
    let mut buffer = vec![3u8; 2];
    glyph.convert(|b| b as u8, &mut buffer);
    assert_eq!(buffer, vec![3, 3]);
    assert_eq!(glyph.raw().len(), 0);
}

#[test]
fn draw_scan_gives_the_row_of_the_whole_glyph() {
    for (width, height) in [(16u32, 32u32), (5, 5), (3, 7), (9, 2), (1, 4)] {
        let pixels = chequered(width, height);
        let font = one_glyph_font(width, height, &pixels);
        let glyph = font.get("Medium".into(), (width, height).into(), 'a').unwrap();
        let mut whole = vec![0u8; pixels.len()];
        glyph.convert(|b| b as u8 + 1, &mut whole);
        for row in 0..height {
            let mut line = vec![0u8; width as usize];
            glyph.draw_scan(row, |b| b as u8 + 1, &mut line);
            let from = (row * width) as usize;
            assert_eq!(&line[..], &whole[from..from + width as usize]);
        }
    }
}

#[test]
fn draw_scan_reads_the_second_row() {
    let pixels = vec![true, true, true, false, false, true, true, false, false];
    let font = one_glyph_font(3, 3, &pixels);
    let glyph = font.get("Medium".into(), (3, 3).into(), 'a').unwrap();
    let mut line = vec![false; 3];
    glyph.draw_scan(1, |b| b, &mut line);
    assert_eq!(line, vec![false, false, true]);
}

#[test]
fn draw_scan_leaves_the_rest_of_the_buffer() {
    let pixels = vec![true, false, false, true];
    let font = one_glyph_font(2, 2, &pixels);
    let glyph = font.get("Medium".into(), (2, 2).into(), 'a').unwrap();
    let mut line = vec![5u8; 4];
    glyph.draw_scan(1, |b| b as u8, &mut line);
    assert_eq!(line, vec![0, 1, 5, 5]);
}

#[test]
fn is_complete_tells_whether_the_bytes_suffice() {
    let font = font_of(vec![(
        "Medium",
        size_map(vec![(
            (5, 5),
            glyph_map(vec![('a', vec![0; 4]), ('b', vec![0; 3]), ('c', vec![0; 9])]),
        )]),
    )]);
    assert!(font.get("Medium".into(), (5, 5).into(), 'a').unwrap().is_complete());
    assert!(!font.get("Medium".into(), (5, 5).into(), 'b').unwrap().is_complete());
    assert!(font.get("Medium".into(), (5, 5).into(), 'c').unwrap().is_complete());
}

#[test]
fn what_get_finds_is_listed() {
    let font = font_of(vec![
        (
            "Regular",
            size_map(vec![
                ((8, 8), glyph_map(vec![('a', vec![1; 8]), ('b', vec![2; 8])])),
                ((4, 4), glyph_map(vec![('a', vec![3; 2])])),
            ]),
        ),
        ("Bold", size_map(vec![((8, 8), glyph_map(vec![('a', vec![4; 8])]))])),
    ]);
    let weights = font.weights();
    let sizes: Vec<FontSize> = font.sizes().iter().map(|e| e.0).collect();
    for weight in ["Regular", "Bold", "Light"] {
        for dims in [(8, 8), (4, 4), (2, 2)] {
            for ch in ['a', 'b', 'c'] {
                if font.get(weight.into(), dims.into(), ch).is_some() {
                    assert!(weights.contains(&weight.into()));
                    assert!(sizes.contains(&dims.into()));
                }
            }
        }
    }
    assert_eq!(font.sizes(), vec![(size(4, 4), false), (size(8, 8), true)]);
}

#[test]
fn draw_scan_past_the_last_row_reads_the_bits_that_follow() {
    let pixels = vec![true; 25];
    let font = one_glyph_font(5, 5, &pixels);
    let glyph = font.get("Medium".into(), (5, 5).into(), 'a').unwrap();
    let mut line = vec![true; 5];
    glyph.draw_scan(5, |b| b, &mut line);
    assert_eq!(line, vec![false; 5]);
    glyph.draw_scan(4, |b| b, &mut line);
    assert_eq!(line, vec![true; 5]);
}
