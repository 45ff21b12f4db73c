//! The metrics aggregator: walks the glyph/unicode table and accumulates the
//! coarse figures the font descriptor carries.
//!
//! For every mapped glyph id above 0 whose advance width is available, the
//! advance enters a running sum and the glyph's height enters a running
//! maximum. The sum is deliberately a raw sum, not a geometric bound: it is
//! used verbatim as one corner of the descriptor's FontBBox. A glyph without
//! advance data is skipped entirely; glyph 0's metrics are treated as absent.
//! Height is `yMax - yMin - descender`, with 1000 font units standing in when
//! the glyph has no bounding box.

use vstd::prelude::*;

use crate::glyph_map::GlyphUnicodeMap;
use crate::glyph_map::sorted_strict;

verus! {

/// The two aggregate figures the descriptor needs.
pub struct FontMetricsSummary {
    pub max_height: u32,
    pub total_width: u32,
}

/// The advance width recorded for a glyph id, absent outside the table.
pub open spec fn adv_at(advances: Seq<Option<u16>>, g: u16) -> Option<u16> {
    if g < advances.len() {
        advances[g as int]
    } else {
        None
    }
}

/// The bounding box recorded for a glyph id, absent outside the table.
pub open spec fn bbox_at(bboxes: Seq<Option<(i16, i16)>>, g: u16) -> Option<(i16, i16)> {
    if g < bboxes.len() {
        bboxes[g as int]
    } else {
        None
    }
}

/// A glyph's height in font units: `yMax - yMin - descender`, reduced modulo
/// 2^32 into an unsigned value, or the fallback 1000 without a bounding box.
pub open spec fn glyph_height(bbox: Option<(i16, i16)>, descender: i16) -> u32 {
    match bbox {
        Some(b) => {
            let h = b.1 - b.0 - descender;
            if h < 0 {
                (h + 0x1_0000_0000) as u32
            } else {
                h as u32
            }
        },
        None => 1000,
    }
}

/// Computes one glyph's height.
pub fn glyph_height_value(bbox: Option<(i16, i16)>, descender: i16) -> (r: u32)
    ensures
        r == glyph_height(bbox, descender),
{
    match bbox {
        Some((y_min, y_max)) => {
            let h: i64 = y_max as i64 - y_min as i64 - descender as i64;
            if h < 0 {
                (h + 0x1_0000_0000) as u32
            } else {
                h as u32
            }
        },
        None => 1000,
    }
}

/// What one entry contributes to the width sum.
pub open spec fn entry_width(e: (u16, u32), advances: Seq<Option<u16>>) -> int {
    if e.0 > 0 && adv_at(advances, e.0) is Some {
        adv_at(advances, e.0)->0 as int
    } else {
        0
    }
}

/// The sum of the advance widths over the table's entries.
pub open spec fn width_sum_of(entries: Seq<(u16, u32)>, advances: Seq<Option<u16>>) -> int
    decreases entries.len(),
{
    if entries.len() == 0 {
        0
    } else {
        width_sum_of(entries.drop_last(), advances) + entry_width(entries.last(), advances)
    }
}

/// The largest glyph height over the table's entries with advance data.
pub open spec fn max_height_of(
    entries: Seq<(u16, u32)>,
    advances: Seq<Option<u16>>,
    bboxes: Seq<Option<(i16, i16)>>,
    descender: i16,
) -> u32
    decreases entries.len(),
{
    if entries.len() == 0 {
        0
    } else {
        let rest = max_height_of(entries.drop_last(), advances, bboxes, descender);
        let e = entries.last();
        if e.0 > 0 && adv_at(advances, e.0) is Some {
            let h = glyph_height(bbox_at(bboxes, e.0), descender);
            if h > rest {
                h
            } else {
                rest
            }
        } else {
            rest
        }
    }
}

/// Each entry contributes at most one 16-bit advance to the sum.
pub proof fn lemma_width_sum_bound(entries: Seq<(u16, u32)>, advances: Seq<Option<u16>>)
    ensures
        0 <= width_sum_of(entries, advances) <= entries.len() * 65535,
    decreases entries.len(),
{
    if entries.len() > 0 {
        lemma_width_sum_bound(entries.drop_last(), advances);
    }
}

/// In a strictly sorted entry list each glyph id is at least its index.
pub proof fn lemma_sorted_key_lower(s: Seq<(u16, u32)>, i: int)
    requires
        sorted_strict(s),
        0 <= i < s.len(),
    ensures
        s[i].0 >= i,
    decreases i,
{
    if i > 0 {
        lemma_sorted_key_lower(s, i - 1);
        assert(s[i - 1].0 < s[i].0);
    }
}

/// A strictly sorted entry list cannot outgrow the 16-bit glyph space.
pub proof fn lemma_sorted_len(s: Seq<(u16, u32)>)
    requires
        sorted_strict(s),
    ensures
        s.len() <= 0x10000,
{
    if s.len() > 0x10000 {
        lemma_sorted_key_lower(s, 0x10000);
    }
}

/// Aggregates the descriptor metrics over the glyph/unicode table.
pub fn aggregate_metrics(
    map: &GlyphUnicodeMap,
    advances: &Vec<Option<u16>>,
    bboxes: &Vec<Option<(i16, i16)>>,
    descender: i16,
) -> (r: FontMetricsSummary)
    requires
        map.wf(),
    ensures
        r.total_width == width_sum_of(map.entries@, advances@),
        r.max_height == max_height_of(map.entries@, advances@, bboxes@, descender),
{
    proof {
        lemma_sorted_len(map.entries@);
    }
    let entries = &map.entries;
    let mut total: u32 = 0;
    let mut maxh: u32 = 0;
    let mut i: usize = 0;
    while i < entries.len()
        invariant
            i <= entries@.len(),
            entries@.len() <= 0x10000,
            total == width_sum_of(entries@.take(i as int), advances@),
            maxh == max_height_of(entries@.take(i as int), advances@, bboxes@, descender),
        decreases entries@.len() - i,
    {
        let ghost prefix = entries@.take(i as int);
        let (gid, _cp) = entries[i];
        let w_opt: Option<u16> = if (gid as usize) < advances.len() {
            advances[gid as usize]
        } else {
            None
        };
        assert(w_opt == adv_at(advances@, gid));
        if gid > 0 {
            if let Some(w) = w_opt {
                proof {
                    lemma_width_sum_bound(prefix, advances@);
                }
                total = total + w as u32;
                let bb: Option<(i16, i16)> = if (gid as usize) < bboxes.len() {
                    bboxes[gid as usize]
                } else {
                    None
                };
                assert(bb == bbox_at(bboxes@, gid));
                let h = glyph_height_value(bb, descender);
                if h > maxh {
                    maxh = h;
                }
            }
        }
        proof {
            assert(entries@.take(i + 1).drop_last() =~= prefix);
            assert(entries@.take(i + 1).last() == entries@[i as int]);
        }
        i = i + 1;
    }
    proof {
        assert(entries@.take(entries@.len() as int) =~= entries@);
    }
    FontMetricsSummary { max_height: maxh, total_width: total }
}

} // verus!
