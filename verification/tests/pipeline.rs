//! Tests for the plain-data pipeline: mapper, metrics, widths, blocks and
//! the ToUnicode stream.

use pdf_talk::glyph_map::build_glyph_unicode_map;
use pdf_talk::metrics::aggregate_metrics;
use pdf_talk::widths::build_width_runs;
use pdf_talk::cmap::create_cmap_blocks;
use pdf_talk::to_unicode::create_cid_unicode_map;
use pdf_talk::text::lookup_glyph;
use pdf_talk::text::encode_text_bytes;

fn subtable(pairs: &[(u32, Option<u16>)]) -> Vec<(u32, Option<u16>)> {
    pairs.to_vec()
}

#[test]
fn glyph_map_always_holds_notdef() {
    let map = build_glyph_unicode_map(&vec![]);
    assert_eq!(map.entries, vec![(0u16, 0u32)]);

    let map = build_glyph_unicode_map(&vec![subtable(&[(0x41, Some(7))])]);
    assert_eq!(map.entries[0], (0u16, 0u32));
}

#[test]
fn glyph_map_sorts_and_merges() {
    let subs = vec![
        subtable(&[(0x5A, Some(9)), (0x41, Some(3))]),
        subtable(&[(0x61, Some(3))]),
    ];
    let map = build_glyph_unicode_map(&subs);
    // later subtables win per glyph id; entries sorted by glyph id
    assert_eq!(map.entries, vec![(0, 0), (3, 0x61), (9, 0x5A)]);
}

#[test]
fn glyph_map_drops_notdef_and_invalid_scalars() {
    let subs = vec![subtable(&[
        (0x41, Some(0)),        // maps to glyph 0: dropped
        (0xD800, Some(5)),      // surrogate codepoint: dropped
        (0x110000, Some(6)),    // beyond Unicode: dropped
        (0x42, None),           // no glyph: dropped
        (0x10FFFF, Some(8)),    // highest scalar: kept
    ])];
    let map = build_glyph_unicode_map(&subs);
    assert_eq!(map.entries, vec![(0, 0), (8, 0x10FFFF)]);
}

#[test]
fn metrics_sum_and_max() {
    let subs = vec![subtable(&[(0x41, Some(1)), (0x42, Some(2)), (0x43, Some(3))])];
    let map = build_glyph_unicode_map(&subs);
    let advances = vec![Some(500u16), Some(600), Some(700), None];
    let bboxes = vec![None, Some((-10i16, 700i16)), None, Some((0, 900))];
    // glyph 1: height 700 - (-10) - (-200) = 910; glyph 2: no box -> 1000
    // glyph 3: no advance -> skipped entirely; glyph 0: metrics absent
    let m = aggregate_metrics(&map, &advances, &bboxes, -200);
    assert_eq!(m.total_width, 600 + 700);
    assert_eq!(m.max_height, 1000);
}

#[test]
fn metrics_height_formula() {
    let subs = vec![subtable(&[(0x41, Some(1))])];
    let map = build_glyph_unicode_map(&subs);
    let advances = vec![None, Some(100u16)];
    let bboxes = vec![None, Some((-50i16, 800i16))];
    let m = aggregate_metrics(&map, &advances, &bboxes, -250);
    // 800 - (-50) - (-250) = 1100
    assert_eq!(m.max_height, 1100);
    assert_eq!(m.total_width, 100);
}

#[test]
fn width_runs_split_on_gaps() {
    let advances = vec![
        Some(10u16),
        Some(20),
        None,
        Some(30),
        Some(40),
        None,
        None,
        Some(50),
    ];
    let runs = build_width_runs(&advances, 1000);
    let shapes: Vec<(u16, Vec<u32>)> = runs.iter().map(|r| (r.start, r.widths.clone())).collect();
    assert_eq!(
        shapes,
        vec![(0, vec![10, 20]), (3, vec![30, 40]), (7, vec![50])]
    );
}

#[test]
fn width_runs_scale_and_truncate() {
    // 1229 * 1000 / 2048 = 600.09..., truncated toward zero
    let advances = vec![Some(1229u16)];
    let runs = build_width_runs(&advances, 2048);
    assert_eq!(runs.len(), 1);
    assert_eq!(runs[0].start, 0);
    assert_eq!(runs[0].widths, vec![600]);
}

#[test]
fn width_runs_empty_without_advances() {
    let advances = vec![None, None, None];
    let runs = build_width_runs(&advances, 1000);
    assert_eq!(runs.len(), 0);
}

#[test]
fn single_glyph_scenario() {
    // glyph 0 = notdef, glyph 40 mapped to 'A' with advance 600 at 1000
    // units per em, and nothing else.
    let subs = vec![subtable(&[(0x41, Some(40))])];
    let map = build_glyph_unicode_map(&subs);
    assert_eq!(map.entries, vec![(0, 0), (40, 0x41)]);

    let mut advances = vec![None; 41];
    advances[40] = Some(600u16);
    let runs = build_width_runs(&advances, 1000);
    assert_eq!(runs.len(), 1);
    assert_eq!(runs[0].start, 40);
    assert_eq!(runs[0].widths, vec![600]);

    let blocks = create_cmap_blocks(&map);
    assert_eq!(blocks, vec![vec![(0, 0), (40, 0x41)]]);

    // encoding "A" yields glyph id 40 as two big-endian bytes: hex 0028
    assert_eq!(lookup_glyph(&subs, 0x41), Some(40));
    assert_eq!(encode_text_bytes(&subs, "A"), vec![0x00, 0x28]);
    // encoding an unmapped character yields an empty show operand
    assert_eq!(encode_text_bytes(&subs, "B"), Vec::<u8>::new());
}

#[test]
fn blocks_split_at_cap() {
    // 250 mapped glyphs, ids 0..=249, all with high byte 0: the cap alone
    // forces three blocks of 100, 100 and 50, in ascending glyph order.
    let mut pairs: Vec<(u32, Option<u16>)> = Vec::new();
    for gid in 1u16..250 {
        pairs.push((0x4E00 + gid as u32, Some(gid)));
    }
    let map = build_glyph_unicode_map(&vec![pairs]);
    assert_eq!(map.entries.len(), 250);
    let blocks = create_cmap_blocks(&map);
    assert_eq!(blocks.len(), 3);
    assert_eq!(blocks[0].len(), 100);
    assert_eq!(blocks[1].len(), 100);
    assert_eq!(blocks[2].len(), 50);
    assert_eq!(blocks[0][0], (0, 0));
    assert_eq!(blocks[2][49], (249, 0x4E00 + 249));
    let rejoined: Vec<(u16, u32)> = blocks.concat();
    assert_eq!(rejoined, map.entries);
}

#[test]
fn blocks_split_at_high_byte_boundary() {
    let pairs: Vec<(u32, Option<u16>)> =
        vec![(0x41, Some(0x00FF)), (0x42, Some(0x0100)), (0x43, Some(0x0101))];
    let map = build_glyph_unicode_map(&vec![pairs]);
    let blocks = create_cmap_blocks(&map);
    assert_eq!(
        blocks,
        vec![
            vec![(0, 0), (0x00FF, 0x41)],
            vec![(0x0100, 0x42), (0x0101, 0x43)],
        ]
    );
}

#[test]
fn stream_text_exact() {
    let blocks = vec![vec![(40u16, 0x41u32)]];
    let text = create_cid_unicode_map(String::from("F0"), blocks);
    let expected = String::new()
        + "/CIDInit /ProcSet findresource begin\n"
        + "12 dict begin\n"
        + "begincmap\n"
        + "/CIDSystemInfo <<\n"
        + "/Registry (Adobe)\n"
        + "/Ordering (UCS)\n"
        + "/Supplement 0\n"
        + ">> def\n"
        + "/CMapName /F0 def\n"
        + "/CMapType 2 def\n"
        + "1 begincodespacerange\n"
        + "<0000> <ffff>\n"
        + "endcodespacerange\n"
        + "1 beginbfchar\r\n"
        + "<0028> <0041>\n"
        + "endbfchar\r\n"
        + "endcmap\n"
        + "CMapName currentdict /CMap defineresource pop\n"
        + "end\n"
        + "end\n";
    assert_eq!(text, expected);
}

#[test]
fn stream_pads_and_extends_hex() {
    // a codepoint above 0xffff takes more than four digits, as {:04x} would
    let blocks = vec![vec![(1u16, 0x1F600u32)]];
    let text = create_cid_unicode_map(String::from("F0"), blocks);
    assert!(text.contains("<0001> <1f600>\n"));
}

/// Reads the `(glyph id, codepoint)` pairs back out of a rendered stream.
fn decode_stream(text: &str) -> Vec<(u16, u32)> {
    let mut pairs = Vec::new();
    let mut rest = text;
    while let Some(at) = rest.find(" beginbfchar\r\n") {
        let count: usize = rest[..at]
            .rsplit('\n')
            .next()
            .unwrap()
            .trim()
            .parse()
            .unwrap();
        rest = &rest[at + " beginbfchar\r\n".len()..];
        for _ in 0..count {
            let line_end = rest.find('\n').unwrap();
            let line = &rest[..line_end];
            let mut fields = line.split(' ');
            let g = fields.next().unwrap();
            let c = fields.next().unwrap();
            let g = u16::from_str_radix(&g[1..g.len() - 1], 16).unwrap();
            let c = u32::from_str_radix(&c[1..c.len() - 1], 16).unwrap();
            pairs.push((g, c));
            rest = &rest[line_end + 1..];
        }
        assert!(rest.starts_with("endbfchar\r\n"));
        rest = &rest["endbfchar\r\n".len()..];
    }
    assert!(rest.starts_with("endcmap\n"));
    pairs
}

#[test]
fn stream_round_trips_to_full_table() {
    // the stream must reproduce the full table, glyph 0 included,
    // independent of width availability
    let mut pairs: Vec<(u32, Option<u16>)> = Vec::new();
    for gid in 1u16..400 {
        pairs.push((0x2000 + gid as u32, Some(gid)));
    }
    let map = build_glyph_unicode_map(&vec![pairs]);
    let blocks = create_cmap_blocks(&map);
    let text = create_cid_unicode_map(String::from("F0"), blocks);
    assert_eq!(decode_stream(&text), map.entries);
}

#[test]
fn pipeline_is_deterministic() {
    // byte-identical reader data in, byte-identical artifacts out
    let subs = vec![subtable(&[(0x41, Some(1)), (0x42, Some(2))])];
    let advances = vec![Some(250u16), Some(300), Some(350)];
    let bboxes = vec![None, Some((-5i16, 640i16)), None];

    let map1 = build_glyph_unicode_map(&subs);
    let map2 = build_glyph_unicode_map(&subs);
    assert_eq!(map1.entries, map2.entries);

    let m1 = aggregate_metrics(&map1, &advances, &bboxes, -210);
    let m2 = aggregate_metrics(&map2, &advances, &bboxes, -210);
    assert_eq!((m1.max_height, m1.total_width), (m2.max_height, m2.total_width));

    let r1 = build_width_runs(&advances, 2048);
    let r2 = build_width_runs(&advances, 2048);
    let s1: Vec<(u16, Vec<u32>)> = r1.iter().map(|r| (r.start, r.widths.clone())).collect();
    let s2: Vec<(u16, Vec<u32>)> = r2.iter().map(|r| (r.start, r.widths.clone())).collect();
    assert_eq!(s1, s2);

    let b1 = create_cmap_blocks(&map1);
    let b2 = create_cmap_blocks(&map2);
    assert_eq!(b1, b2);

    let t1 = create_cid_unicode_map(String::from("F0"), b1);
    let t2 = create_cid_unicode_map(String::from("F0"), b2);
    assert_eq!(t1.into_bytes(), t2.into_bytes());
}

#[test]
fn encoder_uses_first_resolving_subtable() {
    // the reverse lookup is by codepoint over the font's own subtables,
    // first resolving subtable wins
    let subs = vec![
        subtable(&[(0x41, None), (0x42, Some(5))]),
        subtable(&[(0x41, Some(9)), (0x42, Some(6))]),
    ];
    assert_eq!(lookup_glyph(&subs, 0x41), Some(9));
    assert_eq!(lookup_glyph(&subs, 0x42), Some(5));
    assert_eq!(lookup_glyph(&subs, 0x43), None);
    assert_eq!(encode_text_bytes(&subs, "ABC"), vec![0x00, 0x09, 0x00, 0x05]);
}

#[test]
fn highest_glyph_id_and_block_boundary() {
    let pairs: Vec<(u32, Option<u16>)> = vec![(0x31, Some(0xFEFF)), (0x32, Some(0xFFFF))];
    let map = build_glyph_unicode_map(&vec![pairs]);
    assert_eq!(map.entries, vec![(0, 0), (0xFEFF, 0x31), (0xFFFF, 0x32)]);
    let blocks = create_cmap_blocks(&map);
    // three distinct high bytes: 0x00, 0xFE and 0xFF
    assert_eq!(
        blocks,
        vec![
            vec![(0, 0)],
            vec![(0xFEFF, 0x31)],
            vec![(0xFFFF, 0x32)],
        ]
    );
    let text = create_cid_unicode_map(String::from("F0"), blocks);
    assert!(text.contains("<ffff> <0032>\n"));
}
