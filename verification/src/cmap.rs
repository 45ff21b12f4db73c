//! The CMap block splitter: partitions the glyph/unicode table into the
//! bounded chunks a ToUnicode stream is written in.
//!
//! Walking the entries in ascending glyph order, a new block starts whenever
//! the glyph id's high byte changes or the current block already holds 100
//! entries. The blocks are a true partition of the input: concatenated in
//! order they reproduce it exactly.

use vstd::prelude::*;

use crate::glyph_map::GlyphUnicodeMap;

verus! {

/// One bounded chunk of the glyph/unicode table.
pub type CmapBlock = Vec<(u16, u32)>;

/// The largest number of entries one block may hold.
pub const BLOCK_CAP: usize = 100;

/// The blocks the splitter produces for an entry list.
pub open spec fn blocks_of(entries: Seq<(u16, u32)>) -> Seq<Seq<(u16, u32)>>
    decreases entries.len(),
{
    if entries.len() == 0 {
        Seq::empty()
    } else {
        let rest = blocks_of(entries.drop_last());
        let e = entries.last();
        if rest.len() == 0 {
            seq![seq![e]]
        } else {
            let lb = rest.last();
            if lb[0].0 >> 8 == e.0 >> 8 && lb.len() < 100 {
                rest.update(rest.len() - 1, lb.push(e))
            } else {
                rest.push(seq![e])
            }
        }
    }
}

/// The blocks, concatenated back in emission order.
pub open spec fn concat_blocks(bs: Seq<Seq<(u16, u32)>>) -> Seq<(u16, u32)>
    decreases bs.len(),
{
    if bs.len() == 0 {
        Seq::empty()
    } else {
        concat_blocks(bs.drop_last()) + bs.last()
    }
}

/// The views of a vector of blocks.
pub open spec fn block_views(bs: Seq<Vec<(u16, u32)>>) -> Seq<Seq<(u16, u32)>> {
    bs.map_values(|v: Vec<(u16, u32)>| v@)
}

/// Law: the splitter's output is a true partition of its input. Concatenating
/// the blocks in order reproduces the entry list exactly — nothing reordered,
/// duplicated or dropped — every block holds between 1 and 100 entries, and
/// within a block the glyph id's high byte is constant.
pub proof fn lemma_blocks_partition(entries: Seq<(u16, u32)>)
    ensures
        concat_blocks(blocks_of(entries)) == entries,
        forall|b: int|
            0 <= b < blocks_of(entries).len() ==> 1 <= (#[trigger] blocks_of(entries)[b]).len()
                <= 100,
        forall|b: int, i: int|
            0 <= b < blocks_of(entries).len() && 0 <= i < blocks_of(entries)[b].len() ==> (
            #[trigger] blocks_of(entries)[b][i]).0 >> 8 == blocks_of(entries)[b][0].0 >> 8,
    decreases entries.len(),
{
    if entries.len() > 0 {
        lemma_blocks_partition(entries.drop_last());
        let rest = blocks_of(entries.drop_last());
        let e = entries.last();
        let bs = blocks_of(entries);
        if rest.len() == 0 {
            assert(bs.drop_last() =~= Seq::<Seq<(u16, u32)>>::empty());
            assert(entries.drop_last() =~= Seq::<(u16, u32)>::empty());
            assert(concat_blocks(bs) =~= entries);
        } else {
            let lb = rest.last();
            if lb[0].0 >> 8 == e.0 >> 8 && lb.len() < 100 {
                assert(bs.drop_last() =~= rest.drop_last());
                assert(bs.last() =~= lb.push(e));
                assert(concat_blocks(bs) =~= concat_blocks(rest) + seq![e]);
                assert(concat_blocks(bs) =~= entries);
                assert forall|b: int, i: int|
                    0 <= b < bs.len() && 0 <= i < bs[b].len() implies (#[trigger] bs[b][i]).0 >> 8
                    == bs[b][0].0 >> 8 by {
                    if b < bs.len() - 1 {
                        assert(bs[b] == rest[b]);
                    } else {
                        assert(bs[b] == lb.push(e));
                        if i < lb.len() {
                            assert(bs[b][i] == lb[i]);
                        }
                    }
                }
            } else {
                assert(bs.drop_last() =~= rest);
                assert(concat_blocks(bs) =~= entries);
                assert forall|b: int, i: int|
                    0 <= b < bs.len() && 0 <= i < bs[b].len() implies (#[trigger] bs[b][i]).0 >> 8
                    == bs[b][0].0 >> 8 by {
                    if b < bs.len() - 1 {
                        assert(bs[b] == rest[b]);
                    }
                }
            }
        }
    }
}

/// Splits the glyph/unicode table into ToUnicode blocks.
pub fn create_cmap_blocks(map: &GlyphUnicodeMap) -> (r: Vec<CmapBlock>)
    ensures
        block_views(r@) == blocks_of(map.entries@),
{
    let entries = &map.entries;
    let mut out: Vec<CmapBlock> = Vec::new();
    let mut cur: CmapBlock = Vec::new();
    let mut i: usize = 0;
    while i < entries.len()
        invariant
            i <= entries@.len(),
            cur@.len() <= 100,
            cur@.len() == 0 ==> out@.len() == 0 && i == 0,
            cur@.len() > 0 ==> block_views(out@).push(cur@) == blocks_of(entries@.take(i as int)),
            cur@.len() == 0 ==> block_views(out@) == blocks_of(entries@.take(i as int)),
        decreases entries@.len() - i,
    {
        let ghost prefix = entries@.take(i as int);
        let ghost out0 = out@;
        let ghost cur0 = cur@;
        let e = entries[i];
        if cur.len() > 0 && (cur[0].0 >> 8 != e.0 >> 8 || cur.len() >= BLOCK_CAP) {
            out.push(cur);
            cur = Vec::new();
        }
        cur.push(e);
        proof {
            assert(entries@.take(i + 1).drop_last() =~= prefix);
            assert(entries@.take(i + 1).last() == entries@[i as int]);
            if cur0.len() == 0 {
                assert(prefix =~= Seq::<(u16, u32)>::empty());
                assert(cur@ =~= seq![e]);
                assert(block_views(out@).push(cur@) =~= seq![seq![e]]);
            } else {
                assert(block_views(out0).push(cur0) == blocks_of(prefix));
                let lb = blocks_of(prefix).last();
                assert(lb == cur0);
                if lb[0].0 >> 8 == e.0 >> 8 && lb.len() < 100 {
                    assert(out@ == out0 && cur@ == cur0.push(e));
                    assert(block_views(out@).push(cur@) =~= blocks_of(prefix).update(
                        blocks_of(prefix).len() - 1,
                        lb.push(e),
                    ));
                } else {
                    assert(block_views(out@) =~= block_views(out0).push(cur0));
                    assert(cur@ =~= seq![e]);
                    assert(block_views(out@).push(cur@) =~= blocks_of(prefix).push(seq![e]));
                }
            }
        }
        i = i + 1;
    }
    proof {
        assert(entries@.take(entries@.len() as int) =~= entries@);
    }
    if cur.len() > 0 {
        out.push(cur);
        proof {
            assert(block_views(out@) =~= block_views(out@.drop_last()).push(out@.last()@));
        }
    }
    assert(block_views(out@) =~= blocks_of(entries@));
    out
}

} // verus!
