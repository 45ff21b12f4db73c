//! The glyph/unicode mapper: builds the canonical glyph-id to codepoint table
//! from the font reader's Unicode character-map subtables.
//!
//! Each subtable is consumed as an ordered list of `(codepoint, glyph lookup)`
//! pairs. Pairs whose lookup failed, whose glyph id is 0 (notdef), or whose
//! codepoint is not a Unicode scalar value are dropped; on a glyph id mapped by
//! several subtables the last write wins. The entry `(0, 0)` is always present.

use vstd::prelude::*;

verus! {

/// A codepoint is kept only when it is a Unicode scalar value.
pub open spec fn valid_scalar(cp: u32) -> bool {
    cp < 0xD800 || (0xE000 <= cp < 0x110000)
}

/// Executable twin of [`valid_scalar`].
pub fn is_valid_scalar(cp: u32) -> (r: bool)
    ensures
        r == valid_scalar(cp),
{
    cp < 0xD800 || (0xE000 <= cp && cp < 0x110000)
}

/// One merge step: a pair enters the map only with a successful lookup,
/// a glyph id above 0 and a scalar codepoint; later writes replace earlier ones.
pub open spec fn apply_pair(m: Map<u16, u32>, p: (u32, Option<u16>)) -> Map<u16, u32> {
    match p.1 {
        Some(g) => if g > 0 && valid_scalar(p.0) {
            m.insert(g, p.0)
        } else {
            m
        },
        None => m,
    }
}

/// Folds one subtable's pairs into the map, in order.
pub open spec fn merge_pairs(m: Map<u16, u32>, pairs: Seq<(u32, Option<u16>)>) -> Map<u16, u32>
    decreases pairs.len(),
{
    if pairs.len() == 0 {
        m
    } else {
        apply_pair(merge_pairs(m, pairs.drop_last()), pairs.last())
    }
}

/// Folds every subtable into the map, in subtable order.
pub open spec fn merge_subtables(
    m: Map<u16, u32>,
    subs: Seq<Seq<(u32, Option<u16>)>>,
) -> Map<u16, u32>
    decreases subs.len(),
{
    if subs.len() == 0 {
        m
    } else {
        merge_pairs(merge_subtables(m, subs.drop_last()), subs.last())
    }
}

/// The map always starts from the notdef entry.
pub open spec fn notdef_map() -> Map<u16, u32> {
    Map::empty().insert(0u16, 0u32)
}

/// The glyph-id to codepoint map a list of Unicode subtables induces.
pub open spec fn glyph_map_of(subs: Seq<Seq<(u32, Option<u16>)>>) -> Map<u16, u32> {
    merge_subtables(notdef_map(), subs)
}

/// The views of a vector of subtable pair lists.
pub open spec fn subtable_views(subs: Seq<Vec<(u32, Option<u16>)>>) -> Seq<
    Seq<(u32, Option<u16>)>,
> {
    subs.map_values(|v: Vec<(u32, Option<u16>)>| v@)
}

/// The entries of `m` with glyph id below `n`, listed in ascending glyph order.
pub open spec fn entries_upto(m: Map<u16, u32>, n: int) -> Seq<(u16, u32)>
    decreases n,
{
    if n <= 0 {
        Seq::empty()
    } else {
        let rest = entries_upto(m, n - 1);
        let g = (n - 1) as u16;
        if m.dom().contains(g) {
            rest.push((g, m[g]))
        } else {
            rest
        }
    }
}

/// All entries of `m`, listed in ascending glyph order.
pub open spec fn entries_of(m: Map<u16, u32>) -> Seq<(u16, u32)> {
    entries_upto(m, 0x10000)
}

/// Entry lists are strictly ascending in the glyph id.
pub open spec fn sorted_strict(s: Seq<(u16, u32)>) -> bool {
    forall|i: int, j: int| 0 <= i < j < s.len() ==> (#[trigger] s[i]).0 < (#[trigger] s[j]).0
}

/// Every value of the map is a scalar codepoint.
pub open spec fn map_values_valid(m: Map<u16, u32>) -> bool {
    forall|g: u16| #[trigger] m.dom().contains(g) ==> valid_scalar(m[g])
}

proof fn lemma_entries_upto_props(m: Map<u16, u32>, n: int)
    requires
        0 <= n <= 0x10000,
    ensures
        forall|i: int|
            0 <= i < entries_upto(m, n).len() ==> {
                let e = #[trigger] entries_upto(m, n)[i];
                e.0 < n && m.dom().contains(e.0) && e.1 == m[e.0]
            },
        sorted_strict(entries_upto(m, n)),
    decreases n,
{
    if n > 0 {
        lemma_entries_upto_props(m, n - 1);
    }
}

proof fn lemma_entries_upto_contains(m: Map<u16, u32>, n: int, g: u16)
    requires
        g < n <= 0x10000,
        m.dom().contains(g),
    ensures
        exists|i: int|
            0 <= i < entries_upto(m, n).len() && #[trigger] entries_upto(m, n)[i] == (g, m[g]),
    decreases n,
{
    let s = entries_upto(m, n);
    if g == n - 1 {
        assert(s[s.len() - 1] == (g, m[g]));
    } else {
        lemma_entries_upto_contains(m, n - 1, g);
        let i = choose|i: int|
            0 <= i < entries_upto(m, n - 1).len() && #[trigger] entries_upto(m, n - 1)[i] == (
                g,
                m[g],
            );
        assert(s[i] == (g, m[g]));
    }
}

proof fn lemma_merge_pairs_notdef(m: Map<u16, u32>, pairs: Seq<(u32, Option<u16>)>)
    requires
        m.dom().contains(0u16),
        m[0u16] == 0u32,
        map_values_valid(m),
    ensures
        merge_pairs(m, pairs).dom().contains(0u16),
        merge_pairs(m, pairs)[0u16] == 0u32,
        map_values_valid(merge_pairs(m, pairs)),
    decreases pairs.len(),
{
    if pairs.len() > 0 {
        lemma_merge_pairs_notdef(m, pairs.drop_last());
    }
}

proof fn lemma_merge_subtables_notdef(m: Map<u16, u32>, subs: Seq<Seq<(u32, Option<u16>)>>)
    requires
        m.dom().contains(0u16),
        m[0u16] == 0u32,
        map_values_valid(m),
    ensures
        merge_subtables(m, subs).dom().contains(0u16),
        merge_subtables(m, subs)[0u16] == 0u32,
        map_values_valid(merge_subtables(m, subs)),
    decreases subs.len(),
{
    if subs.len() > 0 {
        lemma_merge_subtables_notdef(m, subs.drop_last());
        lemma_merge_pairs_notdef(merge_subtables(m, subs.drop_last()), subs.last());
    }
}

/// Law: the entry list of a map holds exactly the map's pairs — nothing
/// dropped, nothing invented — in strictly ascending glyph order.
pub proof fn lemma_entries_of_exact(m: Map<u16, u32>)
    ensures
        sorted_strict(entries_of(m)),
        forall|i: int|
            0 <= i < entries_of(m).len() ==> {
                let e = #[trigger] entries_of(m)[i];
                m.dom().contains(e.0) && e.1 == m[e.0]
            },
        forall|g: u16|
            #[trigger] m.dom().contains(g) ==> exists|i: int|
                0 <= i < entries_of(m).len() && #[trigger] entries_of(m)[i] == (g, m[g]),
{
    lemma_entries_upto_props(m, 0x10000);
    assert forall|g: u16| #[trigger] m.dom().contains(g) implies exists|i: int|
        0 <= i < entries_of(m).len() && #[trigger] entries_of(m)[i] == (g, m[g]) by {
        lemma_entries_upto_contains(m, 0x10000, g);
        let i = choose|i: int|
            0 <= i < entries_upto(m, 0x10000).len() && #[trigger] entries_upto(m, 0x10000)[i] == (
                g,
                m[g],
            );
        assert(entries_of(m)[i] == (g, m[g]));
    }
}

/// Law: whatever the subtables hold, the glyph/unicode table carries the
/// notdef entry — glyph id 0 mapped to codepoint 0 — and it stands first.
pub proof fn lemma_glyph_map_has_notdef(subs: Seq<Seq<(u32, Option<u16>)>>)
    ensures
        entries_of(glyph_map_of(subs)).len() > 0,
        entries_of(glyph_map_of(subs))[0] == (0u16, 0u32),
{
    let m = glyph_map_of(subs);
    let s = entries_of(m);
    lemma_merge_subtables_notdef(notdef_map(), subs);
    lemma_entries_upto_contains(m, 0x10000, 0u16);
    lemma_entries_upto_props(m, 0x10000);
    let i = choose|i: int| 0 <= i < s.len() && #[trigger] s[i] == (0u16, m[0u16]);
    if i > 0 {
        assert(s[0].0 < s[i].0);
    }
    assert(s[0] == (0u16, 0u32));
}

/// The ordered glyph-id to codepoint table of one font, produced once by the
/// mapper and immutable thereafter.
pub struct GlyphUnicodeMap {
    pub entries: Vec<(u16, u32)>,
}

impl GlyphUnicodeMap {
    /// Entries are strictly sorted by glyph id, hold only scalar codepoints,
    /// and open with the notdef entry.
    pub open spec fn wf(self) -> bool {
        &&& sorted_strict(self.entries@)
        &&& self.entries@.len() > 0
        &&& self.entries@[0] == (0u16, 0u32)
        &&& forall|i: int|
            0 <= i < self.entries@.len() ==> valid_scalar((#[trigger] self.entries@[i]).1)
    }
}

/// The dense lookup table mirrors the map exactly.
spec fn table_models(t: Seq<Option<u32>>, m: Map<u16, u32>) -> bool {
    &&& t.len() == 0x10000
    &&& forall|g: u16|
        #![trigger t[g as int]]
        t[g as int] == if m.dom().contains(g) {
            Some(m[g])
        } else {
            None::<u32>
        }
}

/// Builds the glyph/unicode table from the reader's Unicode subtables,
/// merging them in order with the last write winning per glyph id.
pub fn build_glyph_unicode_map(subtables: &Vec<Vec<(u32, Option<u16>)>>) -> (r: GlyphUnicodeMap)
    ensures
        r.entries@ == entries_of(glyph_map_of(subtable_views(subtables@))),
        r.wf(),
{
    let ghost views = subtable_views(subtables@);
    let ghost target = glyph_map_of(views);

    let mut table: Vec<Option<u32>> = Vec::new();
    let mut k: usize = 0;
    while k < 0x10000
        invariant
            table@.len() == k,
            k <= 0x10000,
            forall|i: int| 0 <= i < k ==> table@[i] == None::<u32>,
        decreases 0x10000 - k,
    {
        table.push(None);
        k = k + 1;
    }
    table.set(0, Some(0u32));
    assert(table_models(table@, notdef_map()));

    let mut si: usize = 0;
    while si < subtables.len()
        invariant
            si <= subtables.len(),
            views == subtable_views(subtables@),
            table_models(table@, merge_subtables(notdef_map(), views.take(si as int))),
        decreases subtables.len() - si,
    {
        let ghost m_before = merge_subtables(notdef_map(), views.take(si as int));
        let sub = &subtables[si];
        let mut pi: usize = 0;
        while pi < sub.len()
            invariant
                pi <= sub.len(),
                table_models(table@, merge_pairs(m_before, sub@.take(pi as int))),
            decreases sub.len() - pi,
        {
            let ghost m_mid = merge_pairs(m_before, sub@.take(pi as int));
            let (cp, og) = sub[pi];
            if let Some(g) = og {
                if g > 0 && is_valid_scalar(cp) {
                    table.set(g as usize, Some(cp));
                }
            }
            proof {
                assert(sub@.take(pi + 1).drop_last() =~= sub@.take(pi as int));
                assert(sub@.take(pi + 1).last() == sub@[pi as int]);
                assert(merge_pairs(m_before, sub@.take(pi + 1)) == apply_pair(m_mid, sub@[pi as int]));
                assert(table_models(table@, apply_pair(m_mid, sub@[pi as int])));
            }
            pi = pi + 1;
        }
        proof {
            assert(sub@.take(sub@.len() as int) =~= sub@);
            assert(views.take(si + 1).drop_last() =~= views.take(si as int));
            assert(views.take(si + 1).last() == sub@);
            assert(merge_subtables(notdef_map(), views.take(si + 1)) == merge_pairs(
                m_before,
                sub@,
            ));
        }
        si = si + 1;
    }
    proof {
        assert(views.take(subtables@.len() as int) =~= views);
    }

    let mut entries: Vec<(u16, u32)> = Vec::new();
    let mut g: usize = 0;
    while g < 0x10000
        invariant
            g <= 0x10000,
            table_models(table@, target),
            entries@ == entries_upto(target, g as int),
        decreases 0x10000 - g,
    {
        let ghost before = entries@;
        if let Some(cp) = table[g] {
            entries.push((g as u16, cp));
        }
        assert(entries@ == entries_upto(target, g + 1));
        g = g + 1;
    }

    proof {
        lemma_glyph_map_has_notdef(views);
        lemma_entries_upto_props(target, 0x10000);
        lemma_merge_subtables_notdef(notdef_map(), views);
    }
    GlyphUnicodeMap { entries }
}

} // verus!
