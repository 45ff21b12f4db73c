//! The font object assembler and the font reference capability.
//!
//! Embedding a font adds five interlinked objects to the document — the
//! embedded font program, the FontDescriptor, the CID (descendant) font, the
//! ToUnicode stream and the Type0 font — and hands back a reference that
//! encodes text for content streams. The exact shape of every object is
//! stated against the document model of [`crate::pdf`].

use vstd::prelude::*;
use vstd::slice::slice_to_vec;
use vstd::string::*;

use lopdf::Document;
use lopdf::Object;

use crate::cmap::blocks_of;
use crate::cmap::block_views;
use crate::cmap::create_cmap_blocks;
use crate::glyph_map::build_glyph_unicode_map;
use crate::glyph_map::entries_of;
use crate::glyph_map::glyph_map_of;
use crate::glyph_map::subtable_views;
use crate::metrics::FontMetricsSummary;
use crate::metrics::aggregate_metrics;
use crate::metrics::max_height_of;
use crate::metrics::width_sum_of;
use crate::pdf::ObjectId;
use crate::pdf::PdfObj;
use crate::pdf::dict_new;
use crate::pdf::dict_rep;
use crate::pdf::dict_set;
use crate::pdf::doc_add_object;
use crate::pdf::doc_max_id;
use crate::pdf::doc_objects;
use crate::pdf::obj_array;
use crate::pdf::obj_dictionary;
use crate::pdf::obj_integer;
use crate::pdf::obj_name;
use crate::pdf::obj_rep;
use crate::pdf::obj_reps;
use crate::pdf::obj_reference;
use crate::pdf::obj_stream;
use crate::pdf::obj_string_literal;
use crate::pdf::stream_new;
use crate::pdf::stream_rep;
use crate::pdf::stream_with_compression;
use crate::text::TextOperand;
use crate::text::encode_text;
use crate::text::encode_text_bytes;
use crate::to_unicode::create_cid_unicode_map;
use crate::to_unicode::to_unicode_chars;
use crate::ttf::FontData;
use crate::ttf::font_advances_of;
use crate::ttf::font_ascender;
use crate::ttf::font_bboxes_of;
use crate::ttf::font_descender;
use crate::ttf::font_has_cmap;
use crate::ttf::font_parses;
use crate::ttf::font_units_per_em;
use crate::ttf::unicode_subtables_of;
use crate::widths::WidthRun;
use crate::widths::build_width_runs;
use crate::widths::run_views;
use crate::widths::runs_of;

verus! {

/// Why an embedding operation aborted. Both conditions are fatal: there is
/// no partial result.
#[derive(Debug, PartialEq, Eq)]
pub enum FontError {
    /// The font binary could not be parsed.
    MalformedFontData,
    /// The font exposes no character-map table at all.
    MissingCharacterMap,
}

/// The embedded font program: the raw font bytes behind a `Length1` entry.
pub open spec fn font_program_stream_obj(data: Seq<u8>) -> PdfObj {
    PdfObj::Stream(
        seq![
            ("Length1"@, PdfObj::Int(data.len() as i64)),
            ("Length"@, PdfObj::Int(data.len() as i64)),
        ],
        data,
        true,
    )
}

/// The FontDescriptor: fixed structural flags, the aggregate metrics as two
/// FontBBox corners, and a reference to the font program.
pub open spec fn descriptor_obj(
    name: Seq<char>,
    max_height: u32,
    total_width: u32,
    ascender: i16,
    descender: i16,
    file_ref: ObjectId,
) -> PdfObj {
    PdfObj::Dict(
        seq![
            ("Type"@, PdfObj::Name("FontDescriptor"@)),
            ("FontName"@, PdfObj::Name(name)),
            ("Flags"@, PdfObj::Int(32)),
            (
                "FontBBox"@,
                PdfObj::Array(
                    seq![
                        PdfObj::Int(0),
                        PdfObj::Int(max_height as i64),
                        PdfObj::Int(total_width as i64),
                        PdfObj::Int(max_height as i64),
                    ],
                ),
            ),
            ("ItalicAngle"@, PdfObj::Int(0)),
            ("Ascent"@, PdfObj::Int(ascender as i64)),
            ("Descent"@, PdfObj::Int(descender as i64)),
            ("CapHeight"@, PdfObj::Int(ascender as i64)),
            ("StemV"@, PdfObj::Int(80)),
            ("FontFile2"@, PdfObj::Ref(file_ref)),
        ],
    )
}

/// Scaled widths as integer objects, in order.
pub open spec fn int_objs(ws: Seq<u32>) -> Seq<PdfObj> {
    ws.map_values(|w: u32| PdfObj::Int(w as i64))
}

/// The CID font's "W" array: for each run, the start glyph id and the array
/// of its scaled widths.
pub open spec fn width_array_items(runs: Seq<(u16, Seq<u32>)>) -> Seq<PdfObj>
    decreases runs.len(),
{
    if runs.len() == 0 {
        Seq::empty()
    } else {
        width_array_items(runs.drop_last())
            + seq![
            PdfObj::Int(runs.last().0 as i64),
            PdfObj::Array(int_objs(runs.last().1)),
        ]
    }
}

/// The CIDFont (descendant font): Identity-ordered CIDSystemInfo, the width
/// array, default width 1000, and a reference to the descriptor.
pub open spec fn cid_font_obj(name: Seq<char>, runs: Seq<(u16, Seq<u32>)>, desc_ref: ObjectId) -> PdfObj {
    PdfObj::Dict(
        seq![
            ("Type"@, PdfObj::Name("Font"@)),
            ("Subtype"@, PdfObj::Name("CIDFontType2"@)),
            ("BaseFont"@, PdfObj::Name(name)),
            (
                "CIDSystemInfo"@,
                PdfObj::Dict(
                    seq![
                        ("Registry"@, PdfObj::LitStr("Adobe"@)),
                        ("Ordering"@, PdfObj::LitStr("Identity"@)),
                        ("Supplement"@, PdfObj::Int(0)),
                    ],
                ),
            ),
            ("FontDescriptor"@, PdfObj::Ref(desc_ref)),
            ("W"@, PdfObj::Array(width_array_items(runs))),
            ("DW"@, PdfObj::Int(1000)),
        ],
    )
}

/// The ToUnicode stream: the rendered CMap text as stream content.
pub open spec fn to_unicode_stream_obj(name: Seq<char>, blocks: Seq<Seq<(u16, u32)>>) -> PdfObj {
    PdfObj::Stream(
        seq![
            (
                "Length"@,
                PdfObj::Int(vstd::utf8::encode_utf8(to_unicode_chars(name, blocks)).len() as i64),
            ),
        ],
        vstd::utf8::encode_utf8(to_unicode_chars(name, blocks)),
        true,
    )
}

/// The Type0 (composite) font: Identity-H encoding, the descendant font and
/// the ToUnicode stream.
pub open spec fn type0_obj(name: Seq<char>, descendant: ObjectId, to_unicode: ObjectId) -> PdfObj {
    PdfObj::Dict(
        seq![
            ("Type"@, PdfObj::Name("Font"@)),
            ("Subtype"@, PdfObj::Name("Type0"@)),
            ("BaseFont"@, PdfObj::Name(name)),
            ("Encoding"@, PdfObj::Name("Identity-H"@)),
            ("DescendantFonts"@, PdfObj::Array(seq![PdfObj::Ref(descendant)])),
            ("ToUnicode"@, PdfObj::Ref(to_unicode)),
        ],
    )
}

/// Adds the embedded font program stream.
fn add_font_program_stream(doc: &mut Document, font_data: &Vec<u8>) -> (id: ObjectId)
    requires
        font_data@.len() <= u32::MAX,
        doc_max_id(*old(doc)) < u32::MAX,
    ensures
        id == (((doc_max_id(*old(doc)) + 1) as u32), 0u16),
        doc_max_id(*final(doc)) == id.0,
        doc_objects(*final(doc)) == doc_objects(*old(doc)).insert(
            id,
            font_program_stream_obj(font_data@),
        ),
{
    proof {
        reveal_strlit("Length1");
        reveal_strlit("Length");
        assert("Length1"@.len() == 7);
        assert("Length"@.len() == 6);
        assert("Length1"@ != "Length"@);
    }
    let mut dict = dict_new();
    dict_set(&mut dict, "Length1", obj_integer(font_data.len() as i64));
    assert(dict_rep(dict) =~= seq![("Length1"@, PdfObj::Int(font_data@.len() as i64))]);
    let content = font_data.clone();
    assert(content@ =~= font_data@);
    let stream = stream_new(dict, content);
    let stream = stream_with_compression(stream, true);
    let obj = obj_stream(stream);
    assert(obj_rep(obj) == font_program_stream_obj(font_data@)) by {
        assert(stream_rep(stream).0 =~= seq![
            ("Length1"@, PdfObj::Int(font_data@.len() as i64)),
            ("Length"@, PdfObj::Int(font_data@.len() as i64)),
        ]);
    }
    doc_add_object(doc, obj)
}

/// Adds the FontDescriptor object.
fn add_descriptor(
    doc: &mut Document,
    font_name: &str,
    metrics: &FontMetricsSummary,
    ascender: i16,
    descender: i16,
    file_ref: ObjectId,
) -> (id: ObjectId)
    requires
        doc_max_id(*old(doc)) < u32::MAX,
    ensures
        id == (((doc_max_id(*old(doc)) + 1) as u32), 0u16),
        doc_max_id(*final(doc)) == id.0,
        doc_objects(*final(doc)) == doc_objects(*old(doc)).insert(
            id,
            descriptor_obj(
                font_name@,
                metrics.max_height,
                metrics.total_width,
                ascender,
                descender,
                file_ref,
            ),
        ),
{
    proof {
        reveal_strlit("Type");
        reveal_strlit("FontName");
        reveal_strlit("Flags");
        reveal_strlit("FontBBox");
        reveal_strlit("ItalicAngle");
        reveal_strlit("Ascent");
        reveal_strlit("Descent");
        reveal_strlit("CapHeight");
        reveal_strlit("StemV");
        reveal_strlit("FontFile2");
        assert("Type"@.len() == 4);
        assert("FontName"@.len() == 8);
        assert("Flags"@.len() == 5);
        assert("FontBBox"@.len() == 8);
        assert("ItalicAngle"@.len() == 11);
        assert("Ascent"@.len() == 6);
        assert("Descent"@.len() == 7);
        assert("CapHeight"@.len() == 9);
        assert("StemV"@.len() == 5);
        assert("FontFile2"@.len() == 9);
        assert("FontName"@[4] != "FontBBox"@[4]);
        assert("FontName"@ != "FontBBox"@);
        assert("Flags"@[0] != "StemV"@[0]);
        assert("Flags"@ != "StemV"@);
        assert("CapHeight"@[0] != "FontFile2"@[0]);
        assert("CapHeight"@ != "FontFile2"@);
    }
    let mut bbox: Vec<Object> = Vec::new();
    bbox.push(obj_integer(0));
    bbox.push(obj_integer(metrics.max_height as i64));
    bbox.push(obj_integer(metrics.total_width as i64));
    bbox.push(obj_integer(metrics.max_height as i64));
    let bbox_obj = obj_array(bbox);
    assert(obj_rep(bbox_obj) == PdfObj::Array(
        seq![
            PdfObj::Int(0),
            PdfObj::Int(metrics.max_height as i64),
            PdfObj::Int(metrics.total_width as i64),
            PdfObj::Int(metrics.max_height as i64),
        ],
    )) by {
        assert(obj_rep(bbox_obj)->Array_0 =~= seq![
            PdfObj::Int(0),
            PdfObj::Int(metrics.max_height as i64),
            PdfObj::Int(metrics.total_width as i64),
            PdfObj::Int(metrics.max_height as i64),
        ]);
    }
    let mut dict = dict_new();
    dict_set(&mut dict, "Type", obj_name("FontDescriptor"));
    dict_set(&mut dict, "FontName", obj_name(font_name));
    dict_set(&mut dict, "Flags", obj_integer(32));
    dict_set(&mut dict, "FontBBox", bbox_obj);
    dict_set(&mut dict, "ItalicAngle", obj_integer(0));
    dict_set(&mut dict, "Ascent", obj_integer(ascender as i64));
    dict_set(&mut dict, "Descent", obj_integer(descender as i64));
    dict_set(&mut dict, "CapHeight", obj_integer(ascender as i64));
    dict_set(&mut dict, "StemV", obj_integer(80));
    dict_set(&mut dict, "FontFile2", obj_reference(file_ref));
    let obj = obj_dictionary(dict);
    assert(obj_rep(obj) == descriptor_obj(
        font_name@,
        metrics.max_height,
        metrics.total_width,
        ascender,
        descender,
        file_ref,
    )) by {
        assert(obj_rep(obj)->Dict_0 =~= descriptor_obj(
            font_name@,
            metrics.max_height,
            metrics.total_width,
            ascender,
            descender,
            file_ref,
        )->Dict_0);
    }
    doc_add_object(doc, obj)
}

} // verus!

verus! {

/// Builds the CID font's "W" array object from the width runs.
fn width_array_object(runs: &Vec<WidthRun>) -> (o: Object)
    ensures
        obj_rep(o) == PdfObj::Array(width_array_items(run_views(runs@))),
{
    let ghost views = run_views(runs@);
    let mut items: Vec<Object> = Vec::new();
    let mut i: usize = 0;
    while i < runs.len()
        invariant
            i <= runs@.len(),
            views == run_views(runs@),
            obj_reps(items@) == width_array_items(views.take(i as int)),
        decreases runs@.len() - i,
    {
        let ghost items0 = items@;
        let run = &runs[i];
        items.push(obj_integer(run.start as i64));
        let mut ws: Vec<Object> = Vec::new();
        let mut j: usize = 0;
        while j < run.widths.len()
            invariant
                j <= run.widths@.len(),
                i < runs@.len(),
                *run == runs@[i as int],
                obj_reps(ws@) == int_objs(run.widths@.take(j as int)),
            decreases run.widths@.len() - j,
        {
            let ghost ws0 = ws@;
            proof {
                assert(obj_reps(ws0).len() == ws0.len());
                assert(int_objs(run.widths@.take(j as int)).len() == j);
                assert(ws0.len() == j);
            }
            let wobj = obj_integer(run.widths[j] as i64);
            let ghost wrep = obj_rep(wobj);
            ws.push(wobj);
            proof {
                assert(run.widths@.take(j + 1) =~= run.widths@.take(j as int).push(
                    run.widths@[j as int],
                ));
                assert forall|k: int| 0 <= k < ws@.len() implies obj_reps(ws@)[k] == int_objs(
                    run.widths@.take(j + 1),
                )[k] by {
                    if k < ws0.len() {
                        assert(obj_reps(ws0)[k] == int_objs(run.widths@.take(j as int))[k]);
                        assert(ws@[k] == ws0[k]);
                        assert(obj_reps(ws@)[k] == obj_rep(ws@[k]));
                    } else {
                        assert(ws@[k] == wobj);
                        assert(obj_reps(ws@)[k] == wrep);
                        assert(int_objs(run.widths@.take(j + 1))[k] == PdfObj::Int(
                            run.widths@[j as int] as i64,
                        ));
                    }
                }
                assert(obj_reps(ws@) =~= int_objs(run.widths@.take(j + 1)));
            }
            j = j + 1;
        }
        proof {
            assert(run.widths@.take(run.widths@.len() as int) =~= run.widths@);
        }
        items.push(obj_array(ws));
        proof {
            assert(views.take(i + 1).drop_last() =~= views.take(i as int));
            assert(views.take(i + 1).last() == run_views(runs@)[i as int]);
            assert(run_views(runs@)[i as int] == (run.start, run.widths@));
            assert(obj_reps(items@) =~= width_array_items(views.take(i + 1)));
        }
        i = i + 1;
    }
    proof {
        assert(views.take(runs@.len() as int) =~= views);
    }
    obj_array(items)
}

/// Adds the CIDFont (descendant font) object.
fn add_cid_font(doc: &mut Document, font_name: &str, runs: &Vec<WidthRun>, desc_ref: ObjectId) -> (id:
    ObjectId)
    requires
        doc_max_id(*old(doc)) < u32::MAX,
    ensures
        id == (((doc_max_id(*old(doc)) + 1) as u32), 0u16),
        doc_max_id(*final(doc)) == id.0,
        doc_objects(*final(doc)) == doc_objects(*old(doc)).insert(
            id,
            cid_font_obj(font_name@, run_views(runs@), desc_ref),
        ),
{
    proof {
        reveal_strlit("Type");
        reveal_strlit("Subtype");
        reveal_strlit("BaseFont");
        reveal_strlit("CIDSystemInfo");
        reveal_strlit("FontDescriptor");
        reveal_strlit("W");
        reveal_strlit("DW");
        reveal_strlit("Registry");
        reveal_strlit("Ordering");
        reveal_strlit("Supplement");
        assert("Type"@.len() == 4);
        assert("Subtype"@.len() == 7);
        assert("BaseFont"@.len() == 8);
        assert("CIDSystemInfo"@.len() == 13);
        assert("FontDescriptor"@.len() == 14);
        assert("W"@.len() == 1);
        assert("DW"@.len() == 2);
        assert("Registry"@.len() == 8);
        assert("Ordering"@.len() == 8);
        assert("Supplement"@.len() == 10);
        assert("Registry"@[0] != "Ordering"@[0]);
        assert("Registry"@ != "Ordering"@);
    }
    let mut info = dict_new();
    dict_set(&mut info, "Registry", obj_string_literal("Adobe"));
    dict_set(&mut info, "Ordering", obj_string_literal("Identity"));
    dict_set(&mut info, "Supplement", obj_integer(0));
    let w_obj = width_array_object(runs);
    let mut dict = dict_new();
    dict_set(&mut dict, "Type", obj_name("Font"));
    dict_set(&mut dict, "Subtype", obj_name("CIDFontType2"));
    dict_set(&mut dict, "BaseFont", obj_name(font_name));
    dict_set(&mut dict, "CIDSystemInfo", obj_dictionary(info));
    dict_set(&mut dict, "FontDescriptor", obj_reference(desc_ref));
    dict_set(&mut dict, "W", w_obj);
    dict_set(&mut dict, "DW", obj_integer(1000));
    let obj = obj_dictionary(dict);
    assert(obj_rep(obj) == cid_font_obj(font_name@, run_views(runs@), desc_ref)) by {
        assert(dict_rep(info) =~= cid_font_obj(font_name@, run_views(runs@), desc_ref)->Dict_0[3].1->Dict_0);
        assert(obj_rep(obj)->Dict_0 =~= cid_font_obj(font_name@, run_views(runs@), desc_ref)->Dict_0);
    }
    doc_add_object(doc, obj)
}

/// Adds the ToUnicode stream object.
fn add_to_unicode_stream(doc: &mut Document, font_name: &str, blocks: Vec<crate::cmap::CmapBlock>) -> (id:
    ObjectId)
    requires
        doc_max_id(*old(doc)) < u32::MAX,
    ensures
        id == (((doc_max_id(*old(doc)) + 1) as u32), 0u16),
        doc_max_id(*final(doc)) == id.0,
        doc_objects(*final(doc)) == doc_objects(*old(doc)).insert(
            id,
            to_unicode_stream_obj(font_name@, block_views(blocks@)),
        ),
{
    let ghost views = block_views(blocks@);
    let text = create_cid_unicode_map(font_name.to_owned(), blocks);
    let bytes = text.as_str().as_bytes_vec();
    let dict = dict_new();
    let stream = stream_new(dict, bytes);
    let obj = obj_stream(stream);
    assert(obj_rep(obj) == to_unicode_stream_obj(font_name@, views)) by {
        assert(stream_rep(stream).0 =~= seq![
            (
                "Length"@,
                PdfObj::Int(
                    vstd::utf8::encode_utf8(to_unicode_chars(font_name@, views)).len() as i64,
                ),
            ),
        ]);
    }
    doc_add_object(doc, obj)
}

/// Adds the Type0 (composite) font object.
fn add_type0_font(doc: &mut Document, font_name: &str, descendant: ObjectId, to_unicode: ObjectId) -> (id:
    ObjectId)
    requires
        doc_max_id(*old(doc)) < u32::MAX,
    ensures
        id == (((doc_max_id(*old(doc)) + 1) as u32), 0u16),
        doc_max_id(*final(doc)) == id.0,
        doc_objects(*final(doc)) == doc_objects(*old(doc)).insert(
            id,
            type0_obj(font_name@, descendant, to_unicode),
        ),
{
    proof {
        reveal_strlit("Type");
        reveal_strlit("Subtype");
        reveal_strlit("BaseFont");
        reveal_strlit("Encoding");
        reveal_strlit("DescendantFonts");
        reveal_strlit("ToUnicode");
        assert("Type"@.len() == 4);
        assert("Subtype"@.len() == 7);
        assert("BaseFont"@.len() == 8);
        assert("Encoding"@.len() == 8);
        assert("DescendantFonts"@.len() == 15);
        assert("ToUnicode"@.len() == 9);
        assert("BaseFont"@[0] != "Encoding"@[0]);
        assert("BaseFont"@ != "Encoding"@);
    }
    let mut descendants: Vec<Object> = Vec::new();
    descendants.push(obj_reference(descendant));
    let desc_arr = obj_array(descendants);
    let mut dict = dict_new();
    dict_set(&mut dict, "Type", obj_name("Font"));
    dict_set(&mut dict, "Subtype", obj_name("Type0"));
    dict_set(&mut dict, "BaseFont", obj_name(font_name));
    dict_set(&mut dict, "Encoding", obj_name("Identity-H"));
    dict_set(&mut dict, "DescendantFonts", desc_arr);
    dict_set(&mut dict, "ToUnicode", obj_reference(to_unicode));
    let obj = obj_dictionary(dict);
    assert(obj_rep(obj) == type0_obj(font_name@, descendant, to_unicode)) by {
        assert(obj_rep(desc_arr)->Array_0 =~= seq![PdfObj::Ref(descendant)]);
        assert(obj_rep(obj)->Dict_0 =~= type0_obj(font_name@, descendant, to_unicode)->Dict_0);
    }
    doc_add_object(doc, obj)
}

/// Assembles the five interlinked font objects for one embedded font.
///
/// The document gains, at the next five object numbers in order: the font
/// program stream, the descriptor, the CID font, the ToUnicode stream and
/// the Type0 font, each of exactly the shape the pipeline's spec functions
/// give for the reader data. Returns the Type0 font's identity.
pub fn assemble_type0_font(
    doc: &mut Document,
    font_data: &Vec<u8>,
    data: &FontData,
    font_name: &str,
) -> (r: ObjectId)
    requires
        data.wf(),
        font_data@.len() <= u32::MAX,
        doc_max_id(*old(doc)) <= u32::MAX - 5,
    ensures
        ({
            let m = doc_max_id(*old(doc)) as int;
            &&& r == (((m + 5) as u32), 0u16)
            &&& doc_max_id(*final(doc)) == m + 5
            &&& doc_objects(*final(doc)) == type0_embedding(
                doc_objects(*old(doc)),
                m,
                font_name@,
                font_data@,
                *data,
            )
        }),
{
    let map = build_glyph_unicode_map(&data.subtables);
    let metrics = aggregate_metrics(&map, &data.advances, &data.bboxes, data.descender);
    let runs = build_width_runs(&data.advances, data.units_per_em);
    let blocks = create_cmap_blocks(&map);

    let stream_id = add_font_program_stream(doc, font_data);
    let descriptor_id = add_descriptor(
        doc,
        font_name,
        &metrics,
        data.ascender,
        data.descender,
        stream_id,
    );
    let descendant_id = add_cid_font(doc, font_name, &runs, descriptor_id);
    let to_unicode_id = add_to_unicode_stream(doc, font_name, blocks);
    add_type0_font(doc, font_name, descendant_id, to_unicode_id)
}

} // verus!

verus! {

/// The objects embedding one Type0 font adds to a document whose highest
/// object number was `m`, given the reader data the font yielded.
pub open spec fn type0_embedding(
    objs_before: Map<ObjectId, PdfObj>,
    m: int,
    name: Seq<char>,
    font_bytes: Seq<u8>,
    data: FontData,
) -> Map<ObjectId, PdfObj> {
    let entries = entries_of(glyph_map_of(subtable_views(data.subtables@)));
    objs_before.insert((((m + 1) as u32), 0u16), font_program_stream_obj(font_bytes)).insert(
        (((m + 2) as u32), 0u16),
        descriptor_obj(
            name,
            max_height_of(entries, data.advances@, data.bboxes@, data.descender),
            (width_sum_of(entries, data.advances@) as u32),
            data.ascender,
            data.descender,
            (((m + 1) as u32), 0u16),
        ),
    ).insert(
        (((m + 3) as u32), 0u16),
        cid_font_obj(name, runs_of(data.advances@, data.units_per_em), (((m + 2) as u32), 0u16)),
    ).insert(
        (((m + 4) as u32), 0u16),
        to_unicode_stream_obj(name, blocks_of(entries)),
    ).insert(
        (((m + 5) as u32), 0u16),
        type0_obj(name, (((m + 3) as u32), 0u16), (((m + 4) as u32), 0u16)),
    )
}

/// Whether font bytes can be embedded at all: they parse as a font that
/// exposes a character-map table.
pub open spec fn font_embeddable(bytes: Seq<u8>) -> bool {
    font_parses(bytes) && font_has_cmap(bytes)
}

/// The objects embedding one Type0 font adds for the given font bytes, in a
/// document whose highest object number was `m`: the named reader queries of
/// the bytes, run through the pipeline.
pub open spec fn type0_embedding_of(
    objs_before: Map<ObjectId, PdfObj>,
    m: int,
    name: Seq<char>,
    bytes: Seq<u8>,
) -> Map<ObjectId, PdfObj> {
    let entries = entries_of(glyph_map_of(unicode_subtables_of(bytes)));
    let advances = font_advances_of(bytes);
    objs_before.insert((((m + 1) as u32), 0u16), font_program_stream_obj(bytes)).insert(
        (((m + 2) as u32), 0u16),
        descriptor_obj(
            name,
            max_height_of(entries, advances, font_bboxes_of(bytes), font_descender(bytes)),
            (width_sum_of(entries, advances) as u32),
            font_ascender(bytes),
            font_descender(bytes),
            (((m + 1) as u32), 0u16),
        ),
    ).insert(
        (((m + 3) as u32), 0u16),
        cid_font_obj(name, runs_of(advances, font_units_per_em(bytes)), (((m + 2) as u32), 0u16)),
    ).insert(
        (((m + 4) as u32), 0u16),
        to_unicode_stream_obj(name, blocks_of(entries)),
    ).insert(
        (((m + 5) as u32), 0u16),
        type0_obj(name, (((m + 3) as u32), 0u16), (((m + 4) as u32), 0u16)),
    )
}

/// A reference to a font object the document does not embed: a built-in
/// simple font shown with literal single-byte text.
#[derive(Default, Clone, Copy)]
pub struct InternalFontReference {
    pub object_id: ObjectId,
}

impl InternalFontReference {
    /// The identity of the font object a content stream names.
    pub fn object_id(&self) -> (r: ObjectId)
        ensures
            r == self.object_id,
    {
        self.object_id
    }

    /// Shows the text verbatim as a literal string.
    pub fn render_text(&self, text: &str) -> (r: TextOperand)
        ensures
            r matches TextOperand::Literal(s) && s@ == text@,
    {
        TextOperand::Literal(text.to_owned())
    }
}

/// A reference to an embedded composite font, carrying the character-map
/// data its encoder looks glyphs up in.
pub struct ExternalFontReference {
    pub object_id: ObjectId,
    pub subtables: Vec<Vec<(u32, Option<u16>)>>,
}

impl ExternalFontReference {
    /// Binds a reference to a font object identity and its character map.
    pub fn new(object_id: ObjectId, subtables: Vec<Vec<(u32, Option<u16>)>>) -> (r: Self)
        ensures
            r.object_id == object_id,
            r.subtables == subtables,
    {
        ExternalFontReference { object_id, subtables }
    }

    /// The identity of the Type0 font object a content stream names.
    pub fn object_id(&self) -> (r: ObjectId)
        ensures
            r == self.object_id,
    {
        self.object_id
    }

    /// Encodes the text as the hexadecimal string of its glyph ids, dropping
    /// every character the character map does not resolve.
    pub fn render_text(&self, text: &str) -> (r: TextOperand)
        ensures
            r matches TextOperand::Hexadecimal(b) && b@ == encode_text(
                subtable_views(self.subtables@),
                text@,
            ),
    {
        TextOperand::Hexadecimal(encode_text_bytes(&self.subtables, text))
    }
}

/// A font reference: the tagged pair of encoding strategies a content
/// builder dispatches over.
pub enum FontReference {
    Internal(InternalFontReference),
    External(ExternalFontReference),
}

impl FontReference {
    /// The identity of the referenced font object.
    pub open spec fn spec_object_id(self) -> ObjectId {
        match self {
            FontReference::Internal(i) => i.object_id,
            FontReference::External(e) => e.object_id,
        }
    }

    /// The identity of the referenced font object.
    pub fn object_id(&self) -> (r: ObjectId)
        ensures
            r == self.spec_object_id(),
    {
        match self {
            FontReference::Internal(i) => i.object_id(),
            FontReference::External(e) => e.object_id(),
        }
    }

    /// Encodes text the way the referenced font demands: hex glyph ids for
    /// an embedded composite font, literal bytes for a built-in one.
    pub fn render_text(&self, text: &str) -> (r: TextOperand)
        ensures
            match *self {
                FontReference::Internal(_) => r matches TextOperand::Literal(s) && s@ == text@,
                FontReference::External(e) => r matches TextOperand::Hexadecimal(b) && b@
                    == encode_text(subtable_views(e.subtables@), text@),
            },
    {
        match self {
            FontReference::Internal(i) => i.render_text(text),
            FontReference::External(e) => e.render_text(text),
        }
    }
}

/// Starts embedding a Type0 font from a raw font binary.
pub fn type0(font: &[u8]) -> (r: FontType0Builder)
    ensures
        r.font_data@ == font@,
{
    FontType0Builder::new(font)
}

/// Builder for an embedded composite (Type0) font.
pub struct FontType0Builder {
    pub font_data: Vec<u8>,
}

impl FontType0Builder {
    /// Keeps a copy of the raw font binary to embed.
    pub fn new(font: &[u8]) -> (r: Self)
        ensures
            r.font_data@ == font@,
    {
        FontType0Builder { font_data: slice_to_vec(font) }
    }

    /// Embeds the font: parses the binary, reads the character map and
    /// metrics, and adds the five assembled objects to the document. Fatal
    /// on malformed font data or a missing character map, in which case the
    /// document is untouched.
    pub fn add_to_doc(self, doc: &mut Document, font_name: &str) -> (r: Result<
        ExternalFontReference,
        FontError,
    >)
        requires
            doc_max_id(*old(doc)) <= u32::MAX - 5,
            self.font_data@.len() <= u32::MAX,
        ensures
            ({
                let bytes = self.font_data@;
                let m = doc_max_id(*old(doc)) as int;
                match r {
                    Ok(fr) => {
                        &&& font_embeddable(bytes)
                        &&& doc_max_id(*final(doc)) == m + 5
                        &&& fr.object_id == (((m + 5) as u32), 0u16)
                        &&& subtable_views(fr.subtables@) == unicode_subtables_of(bytes)
                        &&& doc_objects(*final(doc)) == type0_embedding_of(
                            doc_objects(*old(doc)),
                            m,
                            font_name@,
                            bytes,
                        )
                    },
                    Err(e) => {
                        &&& *final(doc) == *old(doc)
                        &&& (e == FontError::MalformedFontData <==> !font_parses(bytes))
                        &&& (e == FontError::MissingCharacterMap <==> font_parses(bytes)
                            && !font_has_cmap(bytes))
                    },
                }
            }),
    {
        let font_bytes = self.font_data;
        let data_copy = font_bytes.clone();
        assert(data_copy@ =~= font_bytes@);
        let face = match crate::ttf::parse_font(data_copy) {
            Some(f) => f,
            None => {
                return Err(FontError::MalformedFontData);
            },
        };
        let data = match crate::ttf::read_font_data(&face) {
            Some(d) => d,
            None => {
                return Err(FontError::MissingCharacterMap);
            },
        };
        let font_id = assemble_type0_font(doc, &font_bytes, &data, font_name);
        let ghost gdata = data;
        let fr = ExternalFontReference { object_id: font_id, subtables: data.subtables };
        proof {
            let m = doc_max_id(*old(doc)) as int;
            assert(gdata.matches(font_bytes@));
            assert(doc_objects(*final(doc)) == type0_embedding(
                doc_objects(*old(doc)),
                m,
                font_name@,
                font_bytes@,
                gdata,
            ));
            assert(doc_objects(*final(doc)) == type0_embedding_of(
                doc_objects(*old(doc)),
                m,
                font_name@,
                font_bytes@,
            ));
        }
        Ok(fr)
    }
}

} // verus!

verus! {

/// The font object a Type1 base-font reference adds: a bare named font.
pub open spec fn type1_font_obj(base: Seq<char>) -> PdfObj {
    PdfObj::Dict(
        seq![
            ("Type"@, PdfObj::Name("Font"@)),
            ("Subtype"@, PdfObj::Name("Type1"@)),
            ("BaseFont"@, PdfObj::Name(base)),
        ],
    )
}

/// References a built-in Type1 base font by name, with nothing embedded.
pub fn type1(base_font: &str) -> (r: FontType1Builder)
    ensures
        r.base_font@ == base_font@,
{
    FontType1Builder { base_font: base_font.to_owned() }
}

/// Builder for a non-embedded Type1 base-font reference.
pub struct FontType1Builder {
    pub base_font: String,
}

impl FontType1Builder {
    /// Adds the bare font object and returns its reference.
    pub fn add_to_doc(self, doc: &mut Document) -> (r: InternalFontReference)
        requires
            doc_max_id(*old(doc)) < u32::MAX,
        ensures
            r.object_id == (((doc_max_id(*old(doc)) + 1) as u32), 0u16),
            doc_max_id(*final(doc)) == r.object_id.0,
            doc_objects(*final(doc)) == doc_objects(*old(doc)).insert(
                r.object_id,
                type1_font_obj(self.base_font@),
            ),
    {
        proof {
            reveal_strlit("Type");
            reveal_strlit("Subtype");
            reveal_strlit("BaseFont");
            assert("Type"@.len() == 4);
            assert("Subtype"@.len() == 7);
            assert("BaseFont"@.len() == 8);
        }
        let mut dict = dict_new();
        dict_set(&mut dict, "Type", obj_name("Font"));
        dict_set(&mut dict, "Subtype", obj_name("Type1"));
        dict_set(&mut dict, "BaseFont", obj_name(self.base_font.as_str()));
        let obj = obj_dictionary(dict);
        assert(obj_rep(obj) == type1_font_obj(self.base_font@)) by {
            assert(obj_rep(obj)->Dict_0 =~= type1_font_obj(self.base_font@)->Dict_0);
        }
        let object_id = doc_add_object(doc, obj);
        InternalFontReference { object_id }
    }
}

/// The TrueType descriptor: the composite descriptor's entries plus a
/// MissingWidth default.
pub open spec fn truetype_descriptor_obj(
    name: Seq<char>,
    max_height: u32,
    total_width: u32,
    ascender: i16,
    descender: i16,
    file_ref: ObjectId,
) -> PdfObj {
    PdfObj::Dict(
        seq![
            ("Type"@, PdfObj::Name("FontDescriptor"@)),
            ("FontName"@, PdfObj::Name(name)),
            ("Flags"@, PdfObj::Int(32)),
            (
                "FontBBox"@,
                PdfObj::Array(
                    seq![
                        PdfObj::Int(0),
                        PdfObj::Int(max_height as i64),
                        PdfObj::Int(total_width as i64),
                        PdfObj::Int(max_height as i64),
                    ],
                ),
            ),
            ("ItalicAngle"@, PdfObj::Int(0)),
            ("Ascent"@, PdfObj::Int(ascender as i64)),
            ("Descent"@, PdfObj::Int(descender as i64)),
            ("CapHeight"@, PdfObj::Int(ascender as i64)),
            ("StemV"@, PdfObj::Int(80)),
            ("MissingWidth"@, PdfObj::Int(1000)),
            ("FontFile2"@, PdfObj::Ref(file_ref)),
        ],
    )
}

/// The simple TrueType font object: empty widths over an empty code range,
/// referencing the descriptor.
pub open spec fn truetype_font_obj(name: Seq<char>, desc_ref: ObjectId) -> PdfObj {
    PdfObj::Dict(
        seq![
            ("Type"@, PdfObj::Name("Font"@)),
            ("Subtype"@, PdfObj::Name("TrueType"@)),
            ("BaseFont"@, PdfObj::Name(name)),
            ("FirstChar"@, PdfObj::Int(0)),
            ("LastChar"@, PdfObj::Int(0)),
            ("Widths"@, PdfObj::Array(Seq::empty())),
            ("FontDescriptor"@, PdfObj::Ref(desc_ref)),
        ],
    )
}

/// Starts embedding a simple TrueType font from a raw font binary.
pub fn true_type(font: &[u8]) -> (r: FontTrueTypeBuilder)
    ensures
        r.font_data@ == font@,
{
    FontTrueTypeBuilder { font_data: slice_to_vec(font) }
}

/// Builder for an embedded simple TrueType font.
pub struct FontTrueTypeBuilder {
    pub font_data: Vec<u8>,
}

/// The objects embedding one simple TrueType font adds to a document whose
/// highest object number was `m`.
pub open spec fn truetype_embedding(
    objs_before: Map<ObjectId, PdfObj>,
    m: int,
    name: Seq<char>,
    font_bytes: Seq<u8>,
    data: FontData,
) -> Map<ObjectId, PdfObj> {
    let entries = entries_of(glyph_map_of(subtable_views(data.subtables@)));
    objs_before.insert((((m + 1) as u32), 0u16), font_program_stream_obj(font_bytes)).insert(
        (((m + 2) as u32), 0u16),
        truetype_descriptor_obj(
            name,
            max_height_of(entries, data.advances@, data.bboxes@, data.descender),
            (width_sum_of(entries, data.advances@) as u32),
            data.ascender,
            data.descender,
            (((m + 1) as u32), 0u16),
        ),
    ).insert((((m + 3) as u32), 0u16), truetype_font_obj(name, (((m + 2) as u32), 0u16)))
}

/// Adds the TrueType descriptor object.
fn add_truetype_descriptor(
    doc: &mut Document,
    font_name: &str,
    metrics: &FontMetricsSummary,
    ascender: i16,
    descender: i16,
    file_ref: ObjectId,
) -> (id: ObjectId)
    requires
        doc_max_id(*old(doc)) < u32::MAX,
    ensures
        id == (((doc_max_id(*old(doc)) + 1) as u32), 0u16),
        doc_max_id(*final(doc)) == id.0,
        doc_objects(*final(doc)) == doc_objects(*old(doc)).insert(
            id,
            truetype_descriptor_obj(
                font_name@,
                metrics.max_height,
                metrics.total_width,
                ascender,
                descender,
                file_ref,
            ),
        ),
{
    proof {
        reveal_strlit("Type");
        reveal_strlit("FontName");
        reveal_strlit("Flags");
        reveal_strlit("FontBBox");
        reveal_strlit("ItalicAngle");
        reveal_strlit("Ascent");
        reveal_strlit("Descent");
        reveal_strlit("CapHeight");
        reveal_strlit("StemV");
        reveal_strlit("MissingWidth");
        reveal_strlit("FontFile2");
        assert("Type"@.len() == 4);
        assert("FontName"@.len() == 8);
        assert("Flags"@.len() == 5);
        assert("FontBBox"@.len() == 8);
        assert("ItalicAngle"@.len() == 11);
        assert("Ascent"@.len() == 6);
        assert("Descent"@.len() == 7);
        assert("CapHeight"@.len() == 9);
        assert("StemV"@.len() == 5);
        assert("MissingWidth"@.len() == 12);
        assert("FontFile2"@.len() == 9);
        assert("FontName"@[4] != "FontBBox"@[4]);
        assert("FontName"@ != "FontBBox"@);
        assert("Flags"@[0] != "StemV"@[0]);
        assert("Flags"@ != "StemV"@);
        assert("CapHeight"@[0] != "FontFile2"@[0]);
        assert("CapHeight"@ != "FontFile2"@);
    }
    let mut bbox: Vec<Object> = Vec::new();
    bbox.push(obj_integer(0));
    bbox.push(obj_integer(metrics.max_height as i64));
    bbox.push(obj_integer(metrics.total_width as i64));
    bbox.push(obj_integer(metrics.max_height as i64));
    let bbox_obj = obj_array(bbox);
    let mut dict = dict_new();
    dict_set(&mut dict, "Type", obj_name("FontDescriptor"));
    dict_set(&mut dict, "FontName", obj_name(font_name));
    dict_set(&mut dict, "Flags", obj_integer(32));
    dict_set(&mut dict, "FontBBox", bbox_obj);
    dict_set(&mut dict, "ItalicAngle", obj_integer(0));
    dict_set(&mut dict, "Ascent", obj_integer(ascender as i64));
    dict_set(&mut dict, "Descent", obj_integer(descender as i64));
    dict_set(&mut dict, "CapHeight", obj_integer(ascender as i64));
    dict_set(&mut dict, "StemV", obj_integer(80));
    dict_set(&mut dict, "MissingWidth", obj_integer(1000));
    dict_set(&mut dict, "FontFile2", obj_reference(file_ref));
    let obj = obj_dictionary(dict);
    assert(obj_rep(obj) == truetype_descriptor_obj(
        font_name@,
        metrics.max_height,
        metrics.total_width,
        ascender,
        descender,
        file_ref,
    )) by {
        assert(obj_rep(bbox_obj)->Array_0 =~= seq![
            PdfObj::Int(0),
            PdfObj::Int(metrics.max_height as i64),
            PdfObj::Int(metrics.total_width as i64),
            PdfObj::Int(metrics.max_height as i64),
        ]);
        assert(obj_rep(obj)->Dict_0 =~= truetype_descriptor_obj(
            font_name@,
            metrics.max_height,
            metrics.total_width,
            ascender,
            descender,
            file_ref,
        )->Dict_0);
    }
    doc_add_object(doc, obj)
}

/// Adds the simple TrueType font object.
fn add_truetype_font(doc: &mut Document, font_name: &str, desc_ref: ObjectId) -> (id: ObjectId)
    requires
        doc_max_id(*old(doc)) < u32::MAX,
    ensures
        id == (((doc_max_id(*old(doc)) + 1) as u32), 0u16),
        doc_max_id(*final(doc)) == id.0,
        doc_objects(*final(doc)) == doc_objects(*old(doc)).insert(
            id,
            truetype_font_obj(font_name@, desc_ref),
        ),
{
    proof {
        reveal_strlit("Type");
        reveal_strlit("Subtype");
        reveal_strlit("BaseFont");
        reveal_strlit("FirstChar");
        reveal_strlit("LastChar");
        reveal_strlit("Widths");
        reveal_strlit("FontDescriptor");
        assert("Type"@.len() == 4);
        assert("Subtype"@.len() == 7);
        assert("BaseFont"@.len() == 8);
        assert("FirstChar"@.len() == 9);
        assert("LastChar"@.len() == 8);
        assert("Widths"@.len() == 6);
        assert("FontDescriptor"@.len() == 14);
        assert("BaseFont"@[0] != "LastChar"@[0]);
        assert("BaseFont"@ != "LastChar"@);
    }
    let widths: Vec<Object> = Vec::new();
    let widths_obj = obj_array(widths);
    let mut dict = dict_new();
    dict_set(&mut dict, "Type", obj_name("Font"));
    dict_set(&mut dict, "Subtype", obj_name("TrueType"));
    dict_set(&mut dict, "BaseFont", obj_name(font_name));
    dict_set(&mut dict, "FirstChar", obj_integer(0));
    dict_set(&mut dict, "LastChar", obj_integer(0));
    dict_set(&mut dict, "Widths", widths_obj);
    dict_set(&mut dict, "FontDescriptor", obj_reference(desc_ref));
    let obj = obj_dictionary(dict);
    assert(obj_rep(obj) == truetype_font_obj(font_name@, desc_ref)) by {
        assert(obj_rep(widths_obj)->Array_0 =~= Seq::<PdfObj>::empty());
        assert(obj_rep(obj)->Dict_0 =~= truetype_font_obj(font_name@, desc_ref)->Dict_0);
    }
    doc_add_object(doc, obj)
}

/// The objects embedding one simple TrueType font adds for the given font
/// bytes, in a document whose highest object number was `m`.
pub open spec fn truetype_embedding_of(
    objs_before: Map<ObjectId, PdfObj>,
    m: int,
    name: Seq<char>,
    bytes: Seq<u8>,
) -> Map<ObjectId, PdfObj> {
    let entries = entries_of(glyph_map_of(unicode_subtables_of(bytes)));
    let advances = font_advances_of(bytes);
    objs_before.insert((((m + 1) as u32), 0u16), font_program_stream_obj(bytes)).insert(
        (((m + 2) as u32), 0u16),
        truetype_descriptor_obj(
            name,
            max_height_of(entries, advances, font_bboxes_of(bytes), font_descender(bytes)),
            (width_sum_of(entries, advances) as u32),
            font_ascender(bytes),
            font_descender(bytes),
            (((m + 1) as u32), 0u16),
        ),
    ).insert((((m + 3) as u32), 0u16), truetype_font_obj(name, (((m + 2) as u32), 0u16)))
}

impl FontTrueTypeBuilder {
    /// Embeds the font program and adds the descriptor and simple TrueType
    /// font objects. Fatal on malformed font data or a missing character
    /// map, in which case the document is untouched.
    pub fn add_to_doc(self, doc: &mut Document, font_name: &str) -> (r: Result<
        InternalFontReference,
        FontError,
    >)
        requires
            doc_max_id(*old(doc)) <= u32::MAX - 3,
            self.font_data@.len() <= u32::MAX,
        ensures
            ({
                let bytes = self.font_data@;
                let m = doc_max_id(*old(doc)) as int;
                match r {
                    Ok(fr) => {
                        &&& font_embeddable(bytes)
                        &&& doc_max_id(*final(doc)) == m + 3
                        &&& fr.object_id == (((m + 3) as u32), 0u16)
                        &&& doc_objects(*final(doc)) == truetype_embedding_of(
                            doc_objects(*old(doc)),
                            m,
                            font_name@,
                            bytes,
                        )
                    },
                    Err(e) => {
                        &&& *final(doc) == *old(doc)
                        &&& (e == FontError::MalformedFontData <==> !font_parses(bytes))
                        &&& (e == FontError::MissingCharacterMap <==> font_parses(bytes)
                            && !font_has_cmap(bytes))
                    },
                }
            }),
    {
        let font_bytes = self.font_data;
        let data_copy = font_bytes.clone();
        assert(data_copy@ =~= font_bytes@);
        let face = match crate::ttf::parse_font(data_copy) {
            Some(f) => f,
            None => {
                return Err(FontError::MalformedFontData);
            },
        };
        let data = match crate::ttf::read_font_data(&face) {
            Some(d) => d,
            None => {
                return Err(FontError::MissingCharacterMap);
            },
        };
        let map = build_glyph_unicode_map(&data.subtables);
        let metrics = aggregate_metrics(&map, &data.advances, &data.bboxes, data.descender);
        let stream_id = add_font_program_stream(doc, &font_bytes);
        let descriptor_id = add_truetype_descriptor(
            doc,
            font_name,
            &metrics,
            data.ascender,
            data.descender,
            stream_id,
        );
        let font_id = add_truetype_font(doc, font_name, descriptor_id);
        proof {
            let m = doc_max_id(*old(doc)) as int;
            assert(data.matches(font_bytes@));
            assert(doc_objects(*final(doc)) == truetype_embedding(
                doc_objects(*old(doc)),
                m,
                font_name@,
                font_bytes@,
                data,
            ));
            assert(doc_objects(*final(doc)) == truetype_embedding_of(
                doc_objects(*old(doc)),
                m,
                font_name@,
                font_bytes@,
            ));
        }
        Ok(InternalFontReference { object_id: font_id })
    }
}

} // verus!

verus! {

/// A key under which a content stream names a font resource: ASCII letters
/// and digits only.
pub open spec fn key_valid(key: Seq<char>) -> bool {
    forall|i: int|
        0 <= i < key.len() ==> (('a' <= #[trigger] key[i] <= 'z') || ('A' <= key[i] <= 'Z') || (
        '0' <= key[i] <= '9'))
}

/// Checks a resource key.
pub fn is_key_valid(key: &str) -> (r: bool)
    ensures
        r == key_valid(key@),
{
    let n = key.unicode_len();
    let mut i: usize = 0;
    while i < n
        invariant
            i <= n,
            n == key@.len(),
            forall|k: int|
                0 <= k < i ==> (('a' <= #[trigger] key@[k] <= 'z') || ('A' <= key@[k] <= 'Z') || (
                '0' <= key@[k] <= '9')),
        decreases n - i,
    {
        let c = key.get_char(i);
        if !(('a' <= c && c <= 'z') || ('A' <= c && c <= 'Z') || ('0' <= c && c <= '9')) {
            return false;
        }
        i = i + 1;
    }
    true
}

/// The reference an entry list holds under a key, if any.
pub open spec fn value_of(entries: Seq<(String, FontReference)>, key: Seq<char>) -> Option<
    FontReference,
>
    decreases entries.len(),
{
    if entries.len() == 0 {
        None
    } else if entries.first().0@ == key {
        Some(entries.first().1)
    } else {
        value_of(entries.drop_first(), key)
    }
}

/// Entry keys are pairwise distinct.
pub open spec fn keys_unique(entries: Seq<(String, FontReference)>) -> bool {
    forall|i: int, j: int|
        0 <= i < j < entries.len() ==> (#[trigger] entries[i]).0@ != (#[trigger] entries[j]).0@
}

/// The table of font references a document's resources name, keyed by the
/// name a content stream uses. Built once per page's resources; looked up
/// when text is encoded.
pub struct FontMap {
    pub entries: Vec<(String, FontReference)>,
}

impl FontMap {
    /// Keys are distinct and valid resource names.
    pub open spec fn wf(self) -> bool {
        &&& keys_unique(self.entries@)
        &&& forall|i: int| 0 <= i < self.entries@.len() ==> key_valid((#[trigger] self.entries@[i]).0@)
    }

    /// An empty table.
    pub fn new() -> (r: Self)
        ensures
            r.wf(),
            r.entries@.len() == 0,
    {
        FontMap { entries: Vec::new() }
    }

    /// A table holding one reference.
    pub fn with_one(key: &str, font: FontReference) -> (r: Self)
        requires
            key_valid(key@),
        ensures
            r.wf(),
            value_of(r.entries@, key@) == Some(font),
    {
        let mut this = FontMap::new();
        this.insert(key, font);
        this
    }

    /// Binds a reference to a key, replacing what the key held before.
    /// A key outside the valid alphabet is the caller's error.
    pub fn insert(&mut self, key: &str, value: FontReference)
        requires
            old(self).wf(),
            key_valid(key@),
        ensures
            final(self).wf(),
            value_of(final(self).entries@, key@) == Some(value),
            forall|k: Seq<char>|
                k != key@ ==> #[trigger] value_of(final(self).entries@, k) == value_of(
                    old(self).entries@,
                    k,
                ),
    {
        let n = self.entries.len();
        let mut i: usize = 0;
        while i < n
            invariant
                i <= n,
                n == self.entries@.len(),
                old(self).wf(),
                self == old(self),
                forall|k: int| 0 <= k < i ==> (#[trigger] self.entries@[k]).0@ != key@,
            decreases n - i,
        {
            let hit = {
                let pair = &self.entries[i];
                str_eq(pair.0.as_str(), key)
            };
            if hit {
                self.entries.set(i, (key.to_owned(), value));
                proof {
                    lemma_value_of_unique(self.entries@, key@, i as int);
                    assert forall|k: Seq<char>| k != key@ implies #[trigger] value_of(
                        self.entries@,
                        k,
                    ) == value_of(old(self).entries@, k) by {
                        lemma_value_of_update_other(
                            old(self).entries@,
                            i as int,
                            self.entries@[i as int],
                            k,
                        );
                        assert(self.entries@ =~= old(self).entries@.update(
                            i as int,
                            self.entries@[i as int],
                        ));
                    }
                    assert forall|a: int, b: int|
                        0 <= a < b < self.entries@.len() implies (#[trigger] self.entries@[a]).0@
                        != (#[trigger] self.entries@[b]).0@ by {
                        assert(old(self).entries@[a].0@ != old(self).entries@[b].0@);
                    }
                }
                return ;
            }
            i = i + 1;
        }
        self.entries.push((key.to_owned(), value));
        proof {
            lemma_value_of_unique(self.entries@, key@, n as int);
            assert forall|k: Seq<char>| k != key@ implies #[trigger] value_of(
                self.entries@,
                k,
            ) == value_of(old(self).entries@, k) by {
                lemma_value_of_push_other(old(self).entries@, self.entries@[n as int], k);
                assert(self.entries@ =~= old(self).entries@.push(self.entries@[n as int]));
            }
            assert forall|a: int, b: int|
                0 <= a < b < self.entries@.len() implies (#[trigger] self.entries@[a]).0@ != (
                #[trigger] self.entries@[b]).0@ by {
                if b < n {
                    assert(old(self).entries@[a].0@ != old(self).entries@[b].0@);
                } else {
                    assert(self.entries@[a].0@ != key@);
                }
            }
        }
    }

    /// Whether the table holds a reference under the key.
    pub fn contains_key(&self, key: &str) -> (r: bool)
        ensures
            r == (value_of(self.entries@, key@) is Some),
    {
        self.get(key).is_some()
    }

    /// The reference the table holds under the key.
    pub fn get(&self, key: &str) -> (r: Option<&FontReference>)
        ensures
            match r {
                Some(f) => value_of(self.entries@, key@) == Some(*f),
                None => value_of(self.entries@, key@) is None,
            },
    {
        let n = self.entries.len();
        proof {
            assert(self.entries@.skip(0) =~= self.entries@);
        }
        let mut i: usize = 0;
        while i < n
            invariant
                i <= n,
                n == self.entries@.len(),
                value_of(self.entries@, key@) == value_of(self.entries@.skip(i as int), key@),
            decreases n - i,
        {
            proof {
                assert(self.entries@.skip(i as int).first() == self.entries@[i as int]);
                assert(self.entries@.skip(i as int).drop_first() =~= self.entries@.skip(i + 1));
            }
            let pair = &self.entries[i];
            if str_eq(pair.0.as_str(), key) {
                return Some(&pair.1);
            }
            i = i + 1;
        }
        proof {
            assert(self.entries@.skip(n as int) =~= Seq::<(String, FontReference)>::empty());
        }
        None
    }

    /// The resource dictionary naming each font object under its key.
    pub fn as_dictionary(&self) -> (d: lopdf::Dictionary)
        requires
            self.wf(),
        ensures
            dict_rep(d) == font_dict_entries(self.entries@),
    {
        let mut dict = dict_new();
        let n = self.entries.len();
        let mut i: usize = 0;
        while i < n
            invariant
                i <= n,
                n == self.entries@.len(),
                self.wf(),
                dict_rep(dict) == font_dict_entries(self.entries@.take(i as int)),
            decreases n - i,
        {
            let pair = &self.entries[i];
            proof {
                lemma_font_dict_keys(self.entries@.take(i as int));
                assert forall|k: int| 0 <= k < dict_rep(dict).len() implies (#[trigger] dict_rep(
                    dict,
                )[k]).0 != pair.0@ by {
                    let prefix = self.entries@.take(i as int);
                    assert(dict_rep(dict)[k].0 == prefix[k].0@);
                    assert(prefix[k] == self.entries@[k]);
                    assert(self.entries@[k].0@ != self.entries@[i as int].0@);
                }
            }
            let id = pair.1.object_id();
            dict_set(&mut dict, pair.0.as_str(), obj_reference(id));
            proof {
                assert(self.entries@.take(i + 1).drop_last() =~= self.entries@.take(i as int));
                assert(self.entries@.take(i + 1).last() == self.entries@[i as int]);
                assert(dict_rep(dict) =~= font_dict_entries(self.entries@.take(i + 1)));
            }
            i = i + 1;
        }
        proof {
            assert(self.entries@.take(n as int) =~= self.entries@);
        }
        dict
    }
}

/// The resource dictionary entries of a font table: each key bound to a
/// reference to its font object.
pub open spec fn font_dict_entries(entries: Seq<(String, FontReference)>) -> Seq<
    (Seq<char>, PdfObj),
>
    decreases entries.len(),
{
    if entries.len() == 0 {
        Seq::empty()
    } else {
        font_dict_entries(entries.drop_last()).push(
            (entries.last().0@, PdfObj::Ref(entries.last().1.spec_object_id())),
        )
    }
}

proof fn lemma_font_dict_keys(entries: Seq<(String, FontReference)>)
    ensures
        font_dict_entries(entries).len() == entries.len(),
        forall|k: int|
            0 <= k < entries.len() ==> (#[trigger] font_dict_entries(entries)[k]).0
                == entries[k].0@,
    decreases entries.len(),
{
    if entries.len() > 0 {
        lemma_font_dict_keys(entries.drop_last());
    }
}

/// Replacing the entry under one key leaves every other key's value alone.
proof fn lemma_value_of_update_other(
    entries: Seq<(String, FontReference)>,
    i: int,
    pair: (String, FontReference),
    k: Seq<char>,
)
    requires
        0 <= i < entries.len(),
        pair.0@ == entries[i].0@,
        k != pair.0@,
    ensures
        value_of(entries.update(i, pair), k) == value_of(entries, k),
    decreases i,
{
    let u = entries.update(i, pair);
    if i == 0 {
        assert(u.first() == pair);
        assert(u.drop_first() =~= entries.drop_first());
    } else {
        assert(u.first() == entries.first());
        assert(u.drop_first() =~= entries.drop_first().update(i - 1, pair));
        lemma_value_of_update_other(entries.drop_first(), i - 1, pair, k);
    }
}

/// Appending an entry under a new key leaves every other key's value alone.
proof fn lemma_value_of_push_other(
    entries: Seq<(String, FontReference)>,
    pair: (String, FontReference),
    k: Seq<char>,
)
    requires
        k != pair.0@,
    ensures
        value_of(entries.push(pair), k) == value_of(entries, k),
    decreases entries.len(),
{
    let u = entries.push(pair);
    if entries.len() == 0 {
        assert(u.first() == pair);
        assert(u.drop_first() =~= Seq::<(String, FontReference)>::empty());
        assert(value_of(Seq::<(String, FontReference)>::empty(), k) is None);
    } else {
        assert(u.first() == entries.first());
        assert(u.drop_first() =~= entries.drop_first().push(pair));
        lemma_value_of_push_other(entries.drop_first(), pair, k);
    }
}

/// After replacing or appending the entry at `i`, the key resolves to that
/// entry's value.
proof fn lemma_value_of_unique(entries: Seq<(String, FontReference)>, key: Seq<char>, i: int)
    requires
        0 <= i < entries.len(),
        entries[i].0@ == key,
        forall|k: int| 0 <= k < i ==> (#[trigger] entries[k]).0@ != key,
    ensures
        value_of(entries, key) == Some(entries[i].1),
    decreases i,
{
    if i > 0 {
        lemma_value_of_unique(entries.drop_first(), key, i - 1);
    }
}

/// Compares two texts character by character.
fn str_eq(a: &str, b: &str) -> (r: bool)
    ensures
        r == (a@ == b@),
{
    let n = a.unicode_len();
    if n != b.unicode_len() {
        return false;
    }
    let mut i: usize = 0;
    while i < n
        invariant
            i <= n,
            n == a@.len(),
            n == b@.len(),
            forall|k: int| 0 <= k < i ==> a@[k] == b@[k],
        decreases n - i,
    {
        if a.get_char(i) != b.get_char(i) {
            return false;
        }
        i = i + 1;
    }
    proof {
        assert(a@ =~= b@);
    }
    true
}

} // verus!

verus! {

/// Law: the embedding is a function of the reader's answers. Two runs over
/// fonts whose reader data agree, under the same font name, add objects of
/// identical shape — descriptor, CID font and ToUnicode stream included —
/// whatever the document already held and wherever the object numbers start.
/// For byte-identical font input the same follows directly from the
/// builders' contracts, which pin every artifact to the named reader
/// queries of the font bytes.
pub proof fn lemma_embedding_idempotent(
    objs: Map<ObjectId, PdfObj>,
    m: int,
    name: Seq<char>,
    bytes: Seq<u8>,
    d1: FontData,
    d2: FontData,
)
    requires
        subtable_views(d1.subtables@) == subtable_views(d2.subtables@),
        d1.advances@ == d2.advances@,
        d1.bboxes@ == d2.bboxes@,
        d1.ascender == d2.ascender,
        d1.descender == d2.descender,
        d1.units_per_em == d2.units_per_em,
    ensures
        type0_embedding(objs, m, name, bytes, d1) == type0_embedding(objs, m, name, bytes, d2),
        truetype_embedding(objs, m, name, bytes, d1) == truetype_embedding(objs, m, name, bytes, d2),
{
}

} // verus!
