//! The font table reader's query surface.
//!
//! The raw binary font is parsed by `owned_ttf_parser`; this module wraps the
//! reader's queries — global metrics, per-glyph metrics and the character-map
//! subtables — and gathers their answers once into [`FontData`], the plain
//! values the rest of the pipeline is verified over. The crate never parses
//! sfnt tables itself.
//!
//! Every query is a pure function of the font bytes: parsing neither draws on
//! the clock nor the machine. Each query's result therefore carries a name
//! over the byte sequence (`font_units_per_em(bytes)` and so on), so that the
//! builders' contracts can say exactly which font the embedded objects
//! describe and when an embedding is owed success.

use vstd::prelude::*;

use owned_ttf_parser::AsFaceRef;
use owned_ttf_parser::OwnedFace;

verus! {

#[verifier::external_type_specification]
#[verifier::external_body]
pub struct ExOwnedFace(OwnedFace);

/// The font bytes a parsed face holds.
pub uninterp spec fn face_bytes(face: OwnedFace) -> Seq<u8>;

/// Whether the bytes parse as a font (face index 0).
pub uninterp spec fn font_parses(data: Seq<u8>) -> bool;

/// The font's units per em.
pub uninterp spec fn font_units_per_em(data: Seq<u8>) -> u16;

/// The font's ascender in font units.
pub uninterp spec fn font_ascender(data: Seq<u8>) -> i16;

/// The font's descender in font units.
pub uninterp spec fn font_descender(data: Seq<u8>) -> i16;

/// The font's total number of glyphs.
pub uninterp spec fn font_glyph_count(data: Seq<u8>) -> u16;

/// The advance width the font records for a glyph id, if any.
pub uninterp spec fn font_glyph_advance(data: Seq<u8>, gid: u16) -> Option<u16>;

/// The `(yMin, yMax)` of the bounding box the font records for a glyph id,
/// if any.
pub uninterp spec fn font_glyph_bbox(data: Seq<u8>, gid: u16) -> Option<(i16, i16)>;

/// How many character-map subtables the font exposes; nothing when it has no
/// character-map table at all.
pub uninterp spec fn font_subtable_count(data: Seq<u8>) -> Option<u16>;

/// Whether the subtable's platform and encoding ids mark it Unicode-encoded.
pub uninterp spec fn font_subtable_is_unicode(data: Seq<u8>, i: u16) -> bool;

/// The codepoints the subtable defines, in its own enumeration order.
pub uninterp spec fn font_subtable_codepoints(data: Seq<u8>, i: u16) -> Seq<u32>;

/// The glyph id the subtable maps a codepoint to, absent when unmapped or
/// mapped to glyph 0.
pub uninterp spec fn font_subtable_glyph_index(data: Seq<u8>, i: u16, cp: u32) -> Option<u16>;

/// Whether the font exposes a character-map table.
pub open spec fn font_has_cmap(data: Seq<u8>) -> bool {
    font_subtable_count(data) is Some
}

/// The advance widths the font records, indexed by glyph id.
pub open spec fn font_advances_of(data: Seq<u8>) -> Seq<Option<u16>> {
    Seq::new(font_glyph_count(data) as nat, |g: int| font_glyph_advance(data, g as u16))
}

/// The bounding boxes the font records, indexed by glyph id.
pub open spec fn font_bboxes_of(data: Seq<u8>) -> Seq<Option<(i16, i16)>> {
    Seq::new(font_glyph_count(data) as nat, |g: int| font_glyph_bbox(data, g as u16))
}

/// One subtable's `(codepoint, glyph lookup)` pairs, in enumeration order.
pub open spec fn subtable_pairs_of(data: Seq<u8>, i: u16) -> Seq<(u32, Option<u16>)> {
    font_subtable_codepoints(data, i).map_values(
        |cp: u32| (cp, font_subtable_glyph_index(data, i, cp)),
    )
}

/// The pair lists of the Unicode-encoded subtables among the first `n`, in
/// subtable order.
pub open spec fn unicode_subtables_upto(data: Seq<u8>, n: int) -> Seq<Seq<(u32, Option<u16>)>>
    decreases n,
{
    if n <= 0 {
        Seq::empty()
    } else {
        let rest = unicode_subtables_upto(data, n - 1);
        if font_subtable_is_unicode(data, (n - 1) as u16) {
            rest.push(subtable_pairs_of(data, (n - 1) as u16))
        } else {
            rest
        }
    }
}

/// The pair lists of all the font's Unicode-encoded subtables, in subtable
/// order: the character map the mapper and the encoder consume.
pub open spec fn unicode_subtables_of(data: Seq<u8>) -> Seq<Seq<(u32, Option<u16>)>> {
    unicode_subtables_upto(data, font_subtable_count(data)->0 as int)
}

/// Relies on owned_ttf_parser's OwnedFace::from_vec: parses the font binary
/// — a pure function of the bytes — failing exactly on malformed input, and
/// the face holds the bytes it was parsed from.
#[verifier::external_body]
pub fn parse_font(data: Vec<u8>) -> (r: Option<OwnedFace>)
    ensures
        r is Some <==> font_parses(data@),
        r is Some ==> face_bytes(r->0) == data@,
{
    OwnedFace::from_vec(data, 0).ok()
}

/// Relies on ttf_parser's Face::units_per_em, documented to lie in 16..=16384.
#[verifier::external_body]
pub fn face_units_per_em(face: &OwnedFace) -> (r: u16)
    ensures
        16 <= r <= 16384,
        r == font_units_per_em(face_bytes(*face)),
{
    face.as_face_ref().units_per_em()
}

/// Relies on ttf_parser's Face::ascender.
#[verifier::external_body]
pub fn face_ascender(face: &OwnedFace) -> (r: i16)
    ensures
        r == font_ascender(face_bytes(*face)),
{
    face.as_face_ref().ascender()
}

/// Relies on ttf_parser's Face::descender.
#[verifier::external_body]
pub fn face_descender(face: &OwnedFace) -> (r: i16)
    ensures
        r == font_descender(face_bytes(*face)),
{
    face.as_face_ref().descender()
}

/// Relies on ttf_parser's Face::number_of_glyphs, documented never zero.
#[verifier::external_body]
pub fn face_glyph_count(face: &OwnedFace) -> (r: u16)
    ensures
        r >= 1,
        r == font_glyph_count(face_bytes(*face)),
{
    face.as_face_ref().number_of_glyphs()
}

/// Relies on ttf_parser's Face::glyph_hor_advance: the glyph's horizontal
/// advance in font units, absent when the font records none.
#[verifier::external_body]
pub fn face_glyph_advance(face: &OwnedFace, gid: u16) -> (r: Option<u16>)
    ensures
        r == font_glyph_advance(face_bytes(*face), gid),
{
    face.as_face_ref().glyph_hor_advance(owned_ttf_parser::GlyphId(gid))
}

/// Relies on ttf_parser's Face::glyph_bounding_box: the glyph's `(yMin, yMax)`
/// in font units, absent when the font records no box.
#[verifier::external_body]
pub fn face_glyph_bbox(face: &OwnedFace, gid: u16) -> (r: Option<(i16, i16)>)
    ensures
        r == font_glyph_bbox(face_bytes(*face), gid),
{
    face.as_face_ref()
        .glyph_bounding_box(owned_ttf_parser::GlyphId(gid))
        .map(|b| (b.y_min, b.y_max))
}

/// Relies on ttf_parser's cmap table: how many character-map subtables the
/// font exposes, or nothing when it has no character map at all.
#[verifier::external_body]
pub fn face_subtable_count(face: &OwnedFace) -> (r: Option<u16>)
    ensures
        r == font_subtable_count(face_bytes(*face)),
{
    face.as_face_ref().tables().cmap.map(|c| c.subtables.len())
}

/// Relies on ttf_parser's cmap::Subtable::is_unicode: whether the subtable's
/// platform and encoding ids mark it Unicode-encoded; false out of range.
#[verifier::external_body]
pub fn face_subtable_is_unicode(face: &OwnedFace, i: u16) -> (r: bool)
    ensures
        r == font_subtable_is_unicode(face_bytes(*face), i),
{
    match face.as_face_ref().tables().cmap.and_then(|c| c.subtables.get(i)) {
        Some(st) => st.is_unicode(),
        None => false,
    }
}

/// Relies on ttf_parser's cmap::Subtable::codepoints: every codepoint the
/// subtable defines, in the subtable's own enumeration order.
#[verifier::external_body]
pub fn face_subtable_codepoints(face: &OwnedFace, i: u16) -> (r: Vec<u32>)
    ensures
        r@ == font_subtable_codepoints(face_bytes(*face), i),
{
    let mut cps: Vec<u32> = Vec::new();
    if let Some(st) = face.as_face_ref().tables().cmap.and_then(|c| c.subtables.get(i)) {
        st.codepoints(|c| cps.push(c));
    }
    cps
}

/// Relies on ttf_parser's cmap::Subtable::glyph_index: the glyph id the
/// subtable maps a codepoint to, absent when unmapped or mapped to glyph 0.
#[verifier::external_body]
pub fn face_subtable_glyph_index(face: &OwnedFace, i: u16, cp: u32) -> (r: Option<u16>)
    ensures
        r == font_subtable_glyph_index(face_bytes(*face), i, cp),
{
    face.as_face_ref()
        .tables()
        .cmap
        .and_then(|c| c.subtables.get(i))
        .and_then(|st| st.glyph_index(cp))
        .map(|g| g.0)
}

/// Everything the pipeline reads from the font, gathered once as plain
/// values: global metrics, per-glyph advance and bounding-box data indexed by
/// glyph id, and the `(codepoint, glyph lookup)` pairs of each Unicode
/// subtable in subtable order.
pub struct FontData {
    pub units_per_em: u16,
    pub ascender: i16,
    pub descender: i16,
    pub glyph_count: u16,
    pub advances: Vec<Option<u16>>,
    pub bboxes: Vec<Option<(i16, i16)>>,
    pub subtables: Vec<Vec<(u32, Option<u16>)>>,
}

impl FontData {
    /// The reader's documented guarantees, and one table entry per glyph id.
    pub open spec fn wf(self) -> bool {
        &&& 16 <= self.units_per_em <= 16384
        &&& self.advances@.len() == self.glyph_count as int
        &&& self.bboxes@.len() == self.glyph_count as int
    }

    /// The data is exactly what the named reader queries answer for the
    /// given font bytes.
    pub open spec fn matches(self, data: Seq<u8>) -> bool {
        &&& self.units_per_em == font_units_per_em(data)
        &&& self.ascender == font_ascender(data)
        &&& self.descender == font_descender(data)
        &&& self.glyph_count == font_glyph_count(data)
        &&& self.advances@ == font_advances_of(data)
        &&& self.bboxes@ == font_bboxes_of(data)
        &&& crate::glyph_map::subtable_views(self.subtables@) == unicode_subtables_of(data)
    }
}

/// Queries the reader once for everything the pipeline needs. Answers
/// exactly when the font exposes a character-map table, and then every field
/// is the named query's answer for the face's bytes.
pub fn read_font_data(face: &OwnedFace) -> (r: Option<FontData>)
    ensures
        r is Some <==> font_has_cmap(face_bytes(*face)),
        r matches Some(d) ==> d.wf() && d.matches(face_bytes(*face)),
{
    let ghost bytes = face_bytes(*face);
    let count = match face_subtable_count(face) {
        None => {
            return None;
        },
        Some(c) => c,
    };
    let units_per_em = face_units_per_em(face);
    let ascender = face_ascender(face);
    let descender = face_descender(face);
    let glyph_count = face_glyph_count(face);

    let mut advances: Vec<Option<u16>> = Vec::new();
    let mut bboxes: Vec<Option<(i16, i16)>> = Vec::new();
    let mut gid: u16 = 0;
    while gid < glyph_count
        invariant
            gid <= glyph_count,
            glyph_count == font_glyph_count(bytes),
            bytes == face_bytes(*face),
            advances@.len() == gid as int,
            bboxes@.len() == gid as int,
            forall|g: int| 0 <= g < gid ==> advances@[g] == font_glyph_advance(bytes, g as u16),
            forall|g: int| 0 <= g < gid ==> bboxes@[g] == font_glyph_bbox(bytes, g as u16),
        decreases glyph_count - gid,
    {
        advances.push(face_glyph_advance(face, gid));
        bboxes.push(face_glyph_bbox(face, gid));
        gid = gid + 1;
    }
    proof {
        assert(advances@ =~= font_advances_of(bytes));
        assert(bboxes@ =~= font_bboxes_of(bytes));
    }

    let mut subtables: Vec<Vec<(u32, Option<u16>)>> = Vec::new();
    let mut i: u16 = 0;
    while i < count
        invariant
            i <= count,
            count == font_subtable_count(bytes)->0,
            font_subtable_count(bytes) is Some,
            bytes == face_bytes(*face),
            crate::glyph_map::subtable_views(subtables@) == unicode_subtables_upto(
                bytes,
                i as int,
            ),
        decreases count - i,
    {
        let ghost subs0 = subtables@;
        if face_subtable_is_unicode(face, i) {
            let cps = face_subtable_codepoints(face, i);
            let mut pairs: Vec<(u32, Option<u16>)> = Vec::new();
            let mut j: usize = 0;
            while j < cps.len()
                invariant
                    j <= cps@.len(),
                    bytes == face_bytes(*face),
                    cps@ == font_subtable_codepoints(bytes, i),
                    pairs@.len() == j,
                    forall|k: int|
                        0 <= k < j ==> pairs@[k] == (
                            cps@[k],
                            font_subtable_glyph_index(bytes, i, cps@[k]),
                        ),
                decreases cps@.len() - j,
            {
                let cp = cps[j];
                pairs.push((cp, face_subtable_glyph_index(face, i, cp)));
                j = j + 1;
            }
            proof {
                assert(pairs@ =~= subtable_pairs_of(bytes, i));
            }
            subtables.push(pairs);
            proof {
                assert(crate::glyph_map::subtable_views(subtables@)
                    =~= crate::glyph_map::subtable_views(subs0).push(pairs@));
                assert(crate::glyph_map::subtable_views(subtables@) =~= unicode_subtables_upto(
                    bytes,
                    i + 1,
                ));
            }
        }
        i = i + 1;
    }

    Some(
        FontData {
            units_per_em,
            ascender,
            descender,
            glyph_count,
            advances,
            bboxes,
            subtables,
        },
    )
}

} // verus!
