//! The text encoder: turns text into the operand of a content stream's show
//! operation.
//!
//! For a composite font each character is looked up by codepoint in the
//! font's own character-map subtables — the first Unicode subtable that
//! resolves it wins — and the glyph id is emitted as two big-endian bytes of
//! a hexadecimal string. A character no subtable resolves contributes no
//! bytes at all: it is silently dropped, not an error. A built-in simple font
//! shows the text verbatim as a literal string instead.

use vstd::prelude::*;
use vstd::string::*;

use crate::glyph_map::subtable_views;

verus! {

/// What a show operation takes: a hexadecimal string of glyph ids for a
/// composite font, or the literal text for a built-in simple font.
pub enum TextOperand {
    Hexadecimal(Vec<u8>),
    Literal(String),
}

/// The glyph id one subtable's pairs give a codepoint: the first pair for the
/// codepoint whose lookup succeeded.
pub open spec fn lookup_pairs(pairs: Seq<(u32, Option<u16>)>, cp: u32) -> Option<u16>
    decreases pairs.len(),
{
    if pairs.len() == 0 {
        None
    } else if pairs.first().0 == cp && pairs.first().1 is Some {
        pairs.first().1
    } else {
        lookup_pairs(pairs.drop_first(), cp)
    }
}

/// The glyph id the font's character map gives a codepoint: the first
/// Unicode subtable that resolves it wins.
pub open spec fn lookup_subtables(subs: Seq<Seq<(u32, Option<u16>)>>, cp: u32) -> Option<u16>
    decreases subs.len(),
{
    if subs.len() == 0 {
        None
    } else {
        match lookup_pairs(subs.first(), cp) {
            Some(g) => Some(g),
            None => lookup_subtables(subs.drop_first(), cp),
        }
    }
}

/// A glyph id as two big-endian bytes.
pub open spec fn glyph_bytes(g: u16) -> Seq<u8> {
    seq![(g >> 8) as u8, (g & 0xff) as u8]
}

/// The encoded bytes of a text: two bytes per resolved character, nothing
/// for a character without a glyph.
pub open spec fn encode_text(subs: Seq<Seq<(u32, Option<u16>)>>, text: Seq<char>) -> Seq<u8>
    decreases text.len(),
{
    if text.len() == 0 {
        Seq::empty()
    } else {
        encode_text(subs, text.drop_last()) + match lookup_subtables(subs, text.last() as u32) {
            Some(g) => glyph_bytes(g),
            None => Seq::empty(),
        }
    }
}

/// Looks a codepoint up across the subtables.
pub fn lookup_glyph(subtables: &Vec<Vec<(u32, Option<u16>)>>, cp: u32) -> (r: Option<u16>)
    ensures
        r == lookup_subtables(subtable_views(subtables@), cp),
{
    let ghost views = subtable_views(subtables@);
    proof {
        assert(views.len() == subtables@.len());
        assert(views.skip(0) =~= views);
    }
    let mut si: usize = 0;
    while si < subtables.len()
        invariant
            si <= subtables@.len(),
            views == subtable_views(subtables@),
            lookup_subtables(views, cp) == lookup_subtables(views.skip(si as int), cp),
        decreases subtables@.len() - si,
    {
        let sub = &subtables[si];
        proof {
            assert(sub@.skip(0) =~= sub@);
            assert(views.skip(si as int).first() == views[si as int]);
            assert(views[si as int] == sub@);
        }
        let mut pi: usize = 0;
        while pi < sub.len()
            invariant
                pi <= sub@.len(),
                si < subtables@.len(),
                views == subtable_views(subtables@),
                sub == &subtables[si as int],
                views[si as int] == sub@,
                lookup_subtables(views, cp) == lookup_subtables(views.skip(si as int), cp),
                views.skip(si as int).first() == sub@,
                lookup_pairs(sub@, cp) == lookup_pairs(sub@.skip(pi as int), cp),
            decreases sub@.len() - pi,
        {
            let (c, og) = sub[pi];
            proof {
                assert(sub@.skip(pi as int).first() == sub@[pi as int]);
                assert(sub@.skip(pi as int).drop_first() =~= sub@.skip(pi + 1));
            }
            if c == cp {
                if let Some(g) = og {
                    assert(lookup_pairs(sub@, cp) == Some(g));
                    assert(lookup_subtables(views.skip(si as int), cp) == Some(g));
                    return Some(g);
                }
            }
            pi = pi + 1;
        }
        proof {
            assert(sub@.skip(sub@.len() as int) =~= Seq::<(u32, Option<u16>)>::empty());
            assert(lookup_pairs(sub@, cp) is None);
            assert(views.skip(si as int).drop_first() =~= views.skip(si + 1));
        }
        si = si + 1;
    }
    proof {
        assert(views.skip(subtables@.len() as int) =~= Seq::<Seq<(u32, Option<u16>)>>::empty());
    }
    None
}

/// Encodes a text for a composite font: the concatenated big-endian glyph
/// ids of the characters the character map resolves, in text order.
pub fn encode_text_bytes(subtables: &Vec<Vec<(u32, Option<u16>)>>, text: &str) -> (r: Vec<u8>)
    ensures
        r@ == encode_text(subtable_views(subtables@), text@),
{
    let ghost views = subtable_views(subtables@);
    let n = text.unicode_len();
    let mut out: Vec<u8> = Vec::new();
    let mut i: usize = 0;
    while i < n
        invariant
            i <= n,
            n == text@.len(),
            views == subtable_views(subtables@),
            out@ == encode_text(views, text@.take(i as int)),
        decreases n - i,
    {
        let ghost before = out@;
        let c = text.get_char(i);
        if let Some(g) = lookup_glyph(subtables, c as u32) {
            proof {
                assert(g >> 8 <= 0xff && g & 0xff <= 0xff) by (bit_vector);
            }
            out.push((g >> 8) as u8);
            out.push((g & 0xff) as u8);
            assert(out@ =~= before + glyph_bytes(g));
        }
        proof {
            assert(text@.take(i + 1).drop_last() =~= text@.take(i as int));
            assert(text@.take(i + 1).last() == text@[i as int]);
            assert(out@ =~= encode_text(views, text@.take(i + 1)));
        }
        i = i + 1;
    }
    proof {
        assert(text@.take(text@.len() as int) =~= text@);
    }
    out
}

} // verus!
