//! End-to-end tests: a synthetic font binary run through the builders, with
//! the produced document objects inspected through lopdf.

use lopdf::Document;
use lopdf::Object;

use pdf_talk::fonts::FontError;
use pdf_talk::fonts::FontMap;
use pdf_talk::fonts::FontReference;
use pdf_talk::fonts::is_key_valid;
use pdf_talk::fonts::InternalFontReference;
use pdf_talk::fonts::true_type;
use pdf_talk::fonts::type0;
use pdf_talk::fonts::type1;
use pdf_talk::text::TextOperand;

/// Assembles a font binary from raw tables; tags must be given sorted.
fn font_with_tables(tables: &[([u8; 4], Vec<u8>)]) -> Vec<u8> {
    let mut out: Vec<u8> = Vec::new();
    out.extend(0x00010000u32.to_be_bytes());
    out.extend((tables.len() as u16).to_be_bytes());
    out.extend([0u8; 6]);
    let mut offset = 12 + 16 * tables.len();
    let mut body: Vec<u8> = Vec::new();
    for (tag, data) in tables {
        out.extend(tag);
        out.extend(0u32.to_be_bytes());
        out.extend((offset as u32).to_be_bytes());
        out.extend((data.len() as u32).to_be_bytes());
        offset += data.len();
        body.extend(data);
    }
    out.extend(body);
    out
}

fn head_table(units_per_em: u16) -> Vec<u8> {
    let mut t: Vec<u8> = Vec::new();
    t.extend(0x00010000u32.to_be_bytes()); // version
    t.extend(0u32.to_be_bytes()); // font revision
    t.extend(0u32.to_be_bytes()); // checksum adjustment
    t.extend(0x5F0F3CF5u32.to_be_bytes()); // magic
    t.extend(0u16.to_be_bytes()); // flags
    t.extend(units_per_em.to_be_bytes());
    t.extend([0u8; 16]); // created + modified
    t.extend([0u8; 8]); // xMin yMin xMax yMax
    t.extend([0u8; 6]); // macStyle, lowestRecPPEM, fontDirectionHint
    t.extend(0u16.to_be_bytes()); // indexToLocFormat
    t.extend(0u16.to_be_bytes()); // glyphDataFormat
    t
}

fn hhea_table(ascender: i16, descender: i16, number_of_metrics: u16) -> Vec<u8> {
    let mut t: Vec<u8> = Vec::new();
    t.extend(0x00010000u32.to_be_bytes());
    t.extend(ascender.to_be_bytes());
    t.extend(descender.to_be_bytes());
    t.extend(0i16.to_be_bytes()); // line gap
    t.extend([0u8; 24]);
    t.extend(number_of_metrics.to_be_bytes());
    t
}

fn maxp_table(number_of_glyphs: u16) -> Vec<u8> {
    let mut t: Vec<u8> = Vec::new();
    t.extend(0x00005000u32.to_be_bytes());
    t.extend(number_of_glyphs.to_be_bytes());
    t
}

fn hmtx_table(advances: &[u16]) -> Vec<u8> {
    let mut t: Vec<u8> = Vec::new();
    for a in advances {
        t.extend(a.to_be_bytes());
        t.extend(0i16.to_be_bytes()); // left side bearing
    }
    t
}

/// A cmap with one Unicode (platform 0) format 6 subtable mapping
/// consecutive codepoints from `first_code` onto the given glyph ids.
fn cmap_table(first_code: u16, glyphs: &[u16]) -> Vec<u8> {
    let mut t: Vec<u8> = Vec::new();
    t.extend(0u16.to_be_bytes()); // version
    t.extend(1u16.to_be_bytes()); // one encoding record
    t.extend(0u16.to_be_bytes()); // platform: Unicode
    t.extend(3u16.to_be_bytes()); // encoding
    t.extend(12u32.to_be_bytes()); // subtable offset
    t.extend(6u16.to_be_bytes()); // format 6
    t.extend(((12 + 2 * glyphs.len()) as u16).to_be_bytes()); // length
    t.extend(0u16.to_be_bytes()); // language
    t.extend(first_code.to_be_bytes());
    t.extend((glyphs.len() as u16).to_be_bytes());
    for g in glyphs {
        t.extend(g.to_be_bytes());
    }
    t
}

/// Two glyphs, 'A' mapped onto glyph 1, advances 500 and 600, em of 1000.
fn sample_font() -> Vec<u8> {
    font_with_tables(&[
        (*b"cmap", cmap_table(0x41, &[1])),
        (*b"head", head_table(1000)),
        (*b"hhea", hhea_table(800, -200, 2)),
        (*b"hmtx", hmtx_table(&[500, 600])),
        (*b"maxp", maxp_table(2)),
    ])
}

fn sample_font_without_cmap() -> Vec<u8> {
    font_with_tables(&[
        (*b"head", head_table(1000)),
        (*b"hhea", hhea_table(800, -200, 2)),
        (*b"hmtx", hmtx_table(&[500, 600])),
        (*b"maxp", maxp_table(2)),
    ])
}

#[test]
fn type0_embedding_end_to_end() {
    let font = sample_font();
    let mut doc = Document::with_version("1.7");
    let fr = type0(&font).add_to_doc(&mut doc, "F0").unwrap();
    assert_eq!(fr.object_id, (5, 0));
    assert_eq!(doc.objects.len(), 5);

    // the embedded font program
    match doc.objects.get(&(1, 0)).unwrap() {
        Object::Stream(s) => {
            assert_eq!(s.content, font);
            assert_eq!(s.dict.get(b"Length1").unwrap().as_i64().unwrap(), font.len() as i64);
        }
        other => panic!("expected a stream, got {:?}", other),
    }

    // the descriptor: coarse FontBBox from the aggregate metrics
    let descriptor = doc.objects.get(&(2, 0)).unwrap().as_dict().unwrap();
    assert_eq!(descriptor.get(b"Type").unwrap().as_name().unwrap(), b"FontDescriptor");
    assert_eq!(descriptor.get(b"FontName").unwrap().as_name().unwrap(), b"F0");
    assert_eq!(descriptor.get(b"Flags").unwrap().as_i64().unwrap(), 32);
    let bbox: Vec<i64> = descriptor
        .get(b"FontBBox")
        .unwrap()
        .as_array()
        .unwrap()
        .iter()
        .map(|o| o.as_i64().unwrap())
        .collect();
    // glyph 1: no bounding box, so height falls back to 1000; width 600
    assert_eq!(bbox, vec![0, 1000, 600, 1000]);
    assert_eq!(descriptor.get(b"Ascent").unwrap().as_i64().unwrap(), 800);
    assert_eq!(descriptor.get(b"Descent").unwrap().as_i64().unwrap(), -200);
    assert_eq!(descriptor.get(b"CapHeight").unwrap().as_i64().unwrap(), 800);
    assert_eq!(descriptor.get(b"StemV").unwrap().as_i64().unwrap(), 80);
    assert_eq!(descriptor.get(b"FontFile2").unwrap().as_reference().unwrap(), (1, 0));

    // the CID font: run-length width array over both glyphs
    let cid = doc.objects.get(&(3, 0)).unwrap().as_dict().unwrap();
    assert_eq!(cid.get(b"Subtype").unwrap().as_name().unwrap(), b"CIDFontType2");
    assert_eq!(cid.get(b"DW").unwrap().as_i64().unwrap(), 1000);
    assert_eq!(cid.get(b"FontDescriptor").unwrap().as_reference().unwrap(), (2, 0));
    let info = cid.get(b"CIDSystemInfo").unwrap().as_dict().unwrap();
    assert_eq!(info.get(b"Registry").unwrap().as_str().unwrap(), b"Adobe");
    assert_eq!(info.get(b"Ordering").unwrap().as_str().unwrap(), b"Identity");
    assert_eq!(info.get(b"Supplement").unwrap().as_i64().unwrap(), 0);
    let w = cid.get(b"W").unwrap().as_array().unwrap();
    assert_eq!(w.len(), 2);
    assert_eq!(w[0].as_i64().unwrap(), 0);
    let run: Vec<i64> = w[1].as_array().unwrap().iter().map(|o| o.as_i64().unwrap()).collect();
    assert_eq!(run, vec![500, 600]);

    // the ToUnicode stream carries the full table, glyph 0 included
    match doc.objects.get(&(4, 0)).unwrap() {
        Object::Stream(s) => {
            let text = String::from_utf8(s.content.clone()).unwrap();
            assert!(text.contains("2 beginbfchar\r\n<0000> <0000>\n<0001> <0041>\n"));
            assert!(text.contains("/CMapName /F0 def\n"));
        }
        other => panic!("expected a stream, got {:?}", other),
    }

    // the composite font ties everything together
    let type0_font = doc.objects.get(&(5, 0)).unwrap().as_dict().unwrap();
    assert_eq!(type0_font.get(b"Subtype").unwrap().as_name().unwrap(), b"Type0");
    assert_eq!(type0_font.get(b"BaseFont").unwrap().as_name().unwrap(), b"F0");
    assert_eq!(type0_font.get(b"Encoding").unwrap().as_name().unwrap(), b"Identity-H");
    let descendants = type0_font.get(b"DescendantFonts").unwrap().as_array().unwrap();
    assert_eq!(descendants.len(), 1);
    assert_eq!(descendants[0].as_reference().unwrap(), (3, 0));
    assert_eq!(type0_font.get(b"ToUnicode").unwrap().as_reference().unwrap(), (4, 0));

    // the reference encodes text through the font's own character map
    match fr.render_text("A") {
        TextOperand::Hexadecimal(b) => assert_eq!(b, vec![0x00, 0x01]),
        other => panic!("expected hex operand, got literal {:?}", matches!(other, TextOperand::Literal(_))),
    }
    match fr.render_text("B") {
        TextOperand::Hexadecimal(b) => assert_eq!(b, Vec::<u8>::new()),
        _ => panic!("expected hex operand"),
    }
}

#[test]
fn malformed_font_is_fatal() {
    let mut doc = Document::with_version("1.7");
    let r = type0(b"this is not a font").add_to_doc(&mut doc, "F0");
    assert_eq!(r.err(), Some(FontError::MalformedFontData));
    assert_eq!(doc.objects.len(), 0);
}

#[test]
fn missing_character_map_is_fatal() {
    let font = sample_font_without_cmap();
    let mut doc = Document::with_version("1.7");
    let r = type0(&font).add_to_doc(&mut doc, "F0");
    assert_eq!(r.err(), Some(FontError::MissingCharacterMap));
    assert_eq!(doc.objects.len(), 0);
}

#[test]
fn embedding_twice_yields_identical_objects() {
    let font = sample_font();
    let mut doc1 = Document::with_version("1.7");
    let mut doc2 = Document::with_version("1.7");
    type0(&font).add_to_doc(&mut doc1, "F0").unwrap();
    type0(&font).add_to_doc(&mut doc2, "F0").unwrap();
    assert_eq!(doc1.objects, doc2.objects);
}

#[test]
fn type1_reference() {
    let mut doc = Document::with_version("1.7");
    let r = type1("Helvetica").add_to_doc(&mut doc);
    assert_eq!(r.object_id, (1, 0));
    let dict = doc.objects.get(&(1, 0)).unwrap().as_dict().unwrap();
    assert_eq!(dict.get(b"Type").unwrap().as_name().unwrap(), b"Font");
    assert_eq!(dict.get(b"Subtype").unwrap().as_name().unwrap(), b"Type1");
    assert_eq!(dict.get(b"BaseFont").unwrap().as_name().unwrap(), b"Helvetica");
    match r.render_text("Some text") {
        TextOperand::Literal(s) => assert_eq!(s, "Some text"),
        _ => panic!("expected a literal operand"),
    }
}

#[test]
fn true_type_embedding() {
    let font = sample_font();
    let mut doc = Document::with_version("1.7");
    let r = true_type(&font).add_to_doc(&mut doc, "FontName").unwrap();
    assert_eq!(r.object_id, (3, 0));
    assert_eq!(doc.objects.len(), 3);
    let descriptor = doc.objects.get(&(2, 0)).unwrap().as_dict().unwrap();
    assert_eq!(descriptor.get(b"MissingWidth").unwrap().as_i64().unwrap(), 1000);
    assert_eq!(descriptor.get(b"FontName").unwrap().as_name().unwrap(), b"FontName");
    let font_dict = doc.objects.get(&(3, 0)).unwrap().as_dict().unwrap();
    assert_eq!(font_dict.get(b"Subtype").unwrap().as_name().unwrap(), b"TrueType");
    assert_eq!(font_dict.get(b"FirstChar").unwrap().as_i64().unwrap(), 0);
    assert_eq!(font_dict.get(b"LastChar").unwrap().as_i64().unwrap(), 0);
    assert_eq!(font_dict.get(b"Widths").unwrap().as_array().unwrap().len(), 0);
    assert_eq!(font_dict.get(b"FontDescriptor").unwrap().as_reference().unwrap(), (2, 0));
}

#[test]
fn font_map_lookup_and_dictionary() {
    let mut map = FontMap::new();
    map.insert("F1", FontReference::Internal(InternalFontReference { object_id: (7, 0) }));
    map.insert("F2", FontReference::Internal(InternalFontReference { object_id: (9, 0) }));
    assert!(map.contains_key("F1"));
    assert!(!map.contains_key("F3"));
    let f1 = map.get("F1").unwrap();
    assert_eq!(f1.object_id(), (7, 0));

    // replacing under the same key keeps one entry
    map.insert("F1", FontReference::Internal(InternalFontReference { object_id: (8, 0) }));
    assert_eq!(map.get("F1").unwrap().object_id(), (8, 0));
    assert_eq!(map.entries.len(), 2);

    let dict = map.as_dictionary();
    assert_eq!(dict.len(), 2);
    assert_eq!(dict.get(b"F1").unwrap().as_reference().unwrap(), (8, 0));
    assert_eq!(dict.get(b"F2").unwrap().as_reference().unwrap(), (9, 0));
}

#[test]
fn font_map_with_one() {
    let map = FontMap::with_one(
        "F9",
        FontReference::Internal(InternalFontReference { object_id: (3, 0) }),
    );
    assert_eq!(map.get("F9").unwrap().object_id(), (3, 0));
}

#[test]
fn dispatching_reference_encodes_per_variant() {
    let font = sample_font();
    let mut doc = Document::with_version("1.7");
    let ext = type0(&font).add_to_doc(&mut doc, "F0").unwrap();
    let composite = FontReference::External(ext);
    match composite.render_text("AA") {
        TextOperand::Hexadecimal(b) => assert_eq!(b, vec![0x00, 0x01, 0x00, 0x01]),
        _ => panic!("expected hex operand"),
    }
    let simple = FontReference::Internal(InternalFontReference { object_id: (1, 0) });
    match simple.render_text("AA") {
        TextOperand::Literal(s) => assert_eq!(s, "AA"),
        _ => panic!("expected a literal operand"),
    }
}

#[test]
fn resource_keys_are_checked() {
    assert!(is_key_valid("F1"));
    assert!(is_key_valid("Im3"));
    assert!(!is_key_valid("this is invalid"));
    assert!(!is_key_valid("F-1"));
}
