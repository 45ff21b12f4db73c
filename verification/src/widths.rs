//! The width table builder: turns per-glyph advance widths into the
//! run-length form of a CID font's "W" array.
//!
//! Glyph ids are scanned in ascending order from 0 to the glyph count. A run
//! holds the scaled widths of a maximal range of consecutive glyph ids that
//! all have advance data; a glyph without advance data ends the current run
//! and appears in none. Widths are scaled from font units to the 1000-unit em,
//! truncating toward zero.

use vstd::prelude::*;

verus! {

/// One run of the width table: the scaled widths of the consecutive glyph ids
/// `start, start + 1, ...`.
pub struct WidthRun {
    pub start: u16,
    pub widths: Vec<u32>,
}

/// The mathematical shape of one run.
pub open spec fn run_view(r: WidthRun) -> (u16, Seq<u32>) {
    (r.start, r.widths@)
}

/// The views of a vector of runs.
pub open spec fn run_views(rs: Seq<WidthRun>) -> Seq<(u16, Seq<u32>)> {
    rs.map_values(|r: WidthRun| run_view(r))
}

/// A width in font units, scaled to the 1000-unit em and truncated toward zero.
pub open spec fn scaled_width(w: u16, upem: u16) -> u32
    recommends
        upem >= 16,
{
    ((w as int * 1000) / upem as int) as u32
}

/// Scales one advance width.
pub fn scale_width(w: u16, upem: u16) -> (r: u32)
    requires
        16 <= upem,
    ensures
        r == scaled_width(w, upem),
{
    let wide: u64 = (w as u64 * 1000) / (upem as u64);
    proof {
        let dividend = w as int * 1000;
        assert(dividend / (upem as int) <= dividend) by (nonlinear_arith)
            requires
                dividend >= 0,
                upem as int >= 1,
        ;
    }
    wide as u32
}

/// The runs the builder produces for a list of per-glyph advance widths,
/// indexed by glyph id.
pub open spec fn runs_of(advances: Seq<Option<u16>>, upem: u16) -> Seq<(u16, Seq<u32>)>
    recommends
        advances.len() <= 0x10000,
        upem >= 16,
    decreases advances.len(),
{
    if advances.len() == 0 {
        Seq::empty()
    } else {
        let rest = runs_of(advances.drop_last(), upem);
        let g = (advances.len() - 1) as u16;
        match advances.last() {
            None => rest,
            Some(w) => {
                let sw = scaled_width(w, upem);
                if rest.len() > 0 && rest.last().0 + rest.last().1.len() == g {
                    rest.update(rest.len() - 1, (rest.last().0, rest.last().1.push(sw)))
                } else {
                    rest.push((g, seq![sw]))
                }
            },
        }
    }
}

/// Runs are non-empty and stay within the glyph range.
pub open spec fn runs_bounded(advances: Seq<Option<u16>>, rs: Seq<(u16, Seq<u32>)>) -> bool {
    forall|a: int|
        0 <= a < rs.len() ==> 1 <= (#[trigger] rs[a]).1.len() && rs[a].0 + rs[a].1.len()
            <= advances.len()
}

/// Runs are disjoint and emitted in ascending start order.
pub open spec fn runs_ordered(rs: Seq<(u16, Seq<u32>)>) -> bool {
    forall|a: int, b: int|
        0 <= a < b < rs.len() ==> (#[trigger] rs[a]).0 + rs[a].1.len() <= (#[trigger] rs[b]).0
}

/// Every width in a run is the scaled advance of the glyph at its offset,
/// so the glyph ids inside one run are the strictly consecutive integers
/// starting at the run's start.
pub open spec fn run_entry_exact(
    advances: Seq<Option<u16>>,
    upem: u16,
    rs: Seq<(u16, Seq<u32>)>,
    a: int,
    j: int,
) -> bool {
    advances[rs[a].0 + j] is Some && rs[a].1[j] == scaled_width(advances[rs[a].0 + j]->0, upem)
}

pub open spec fn runs_exact(advances: Seq<Option<u16>>, upem: u16, rs: Seq<(u16, Seq<u32>)>) -> bool {
    forall|a: int, j: int|
        0 <= a < rs.len() && 0 <= j < rs[a].1.len() ==> #[trigger] run_entry_exact(
            advances,
            upem,
            rs,
            a,
            j,
        )
}

/// Every glyph id with advance data is covered by some run.
pub open spec fn runs_complete(advances: Seq<Option<u16>>, rs: Seq<(u16, Seq<u32>)>) -> bool {
    forall|g: int|
        0 <= g < advances.len() && advances[g] is Some ==> exists|a: int|
            0 <= a < rs.len() && (#[trigger] rs[a]).0 <= g < rs[a].0 + rs[a].1.len()
}

/// Law: every glyph id with advance data appears in exactly one run, at its
/// own offset and with its own scaled width; within a run the glyph ids are
/// strictly consecutive from the run's start; runs are disjoint, non-empty
/// and emitted in ascending start order.
pub proof fn lemma_runs_cover(advances: Seq<Option<u16>>, upem: u16)
    requires
        advances.len() <= 0x10000,
        16 <= upem,
    ensures
        runs_bounded(advances, runs_of(advances, upem)),
        runs_ordered(runs_of(advances, upem)),
        runs_exact(advances, upem, runs_of(advances, upem)),
        runs_complete(advances, runs_of(advances, upem)),
    decreases advances.len(),
{
    let rs = runs_of(advances, upem);
    if advances.len() == 0 {
        assert(runs_bounded(advances, rs));
        assert(runs_ordered(rs));
        assert(runs_exact(advances, upem, rs));
        assert(runs_complete(advances, rs));
    } else {
        lemma_runs_cover(advances.drop_last(), upem);
        let prev = advances.drop_last();
        let rest = runs_of(prev, upem);
        let g = advances.len() - 1;
        assert(runs_bounded(prev, rest) && runs_ordered(rest) && runs_exact(prev, upem, rest)
            && runs_complete(prev, rest));
        match advances.last() {
            None => {
                assert(rs == rest);
                assert forall|a: int, j: int|
                    0 <= a < rs.len() && 0 <= j < rs[a].1.len() implies run_entry_exact(
                    advances,
                    upem,
                    rs,
                    a,
                    j,
                ) by {
                    assert(run_entry_exact(prev, upem, rest, a, j));
                    assert(prev[rest[a].0 + j] == advances[rest[a].0 + j]);
                }
                assert(runs_exact(advances, upem, rs));
                assert forall|gi: int|
                    0 <= gi < advances.len() && advances[gi] is Some implies exists|a: int|
                    0 <= a < rs.len() && (#[trigger] rs[a]).0 <= gi < rs[a].0 + rs[a].1.len() by {
                    assert(prev[gi] == advances[gi]);
                }
                assert(runs_complete(advances, rs));
                assert(runs_bounded(advances, rs));
            },
            Some(w) => {
                let sw = scaled_width(w, upem);
                if rest.len() > 0 && rest.last().0 + rest.last().1.len() == g {
                    let n = rest.len() - 1;
                    assert(rs == rest.update(n, (rest[n].0, rest[n].1.push(sw))));
                    assert forall|a: int, j: int|
                        0 <= a < rs.len() && 0 <= j < rs[a].1.len() implies run_entry_exact(
                        advances,
                        upem,
                        rs,
                        a,
                        j,
                    ) by {
                        if a < n {
                            assert(rs[a] == rest[a]);
                            assert(run_entry_exact(prev, upem, rest, a, j));
                            assert(prev[rest[a].0 + j] == advances[rest[a].0 + j]);
                        } else {
                            assert(rs[a].0 == rest[n].0 && rs[a].1 == rest[n].1.push(sw));
                            if j < rest[n].1.len() {
                                assert(run_entry_exact(prev, upem, rest, n, j));
                                assert(prev[rest[n].0 + j] == advances[rest[n].0 + j]);
                                assert(rs[a].1[j] == rest[n].1[j]);
                            } else {
                                assert(j == rest[n].1.len());
                                assert(rs[a].0 + j == g);
                                assert(advances[g] == Some(w));
                                assert(rs[a].1[j] == sw);
                            }
                        }
                    }
                    assert(runs_exact(advances, upem, rs));
                    assert forall|gi: int|
                        0 <= gi < advances.len() && advances[gi] is Some implies exists|a: int|
                        0 <= a < rs.len() && (#[trigger] rs[a]).0 <= gi < rs[a].0 + rs[a].1.len() by {
                        if gi < g {
                            assert(prev[gi] == advances[gi]);
                            let a = choose|a: int|
                                0 <= a < rest.len() && (#[trigger] rest[a]).0 <= gi < rest[a].0
                                    + rest[a].1.len();
                            assert(0 <= a < rs.len() && rs[a].0 <= gi < rs[a].0 + rs[a].1.len());
                        } else {
                            assert(rs[n].0 <= gi < rs[n].0 + rs[n].1.len());
                        }
                    }
                    assert(runs_complete(advances, rs));
                    assert forall|a: int|
                        0 <= a < rs.len() implies 1 <= (#[trigger] rs[a]).1.len() && rs[a].0
                        + rs[a].1.len() <= advances.len() by {
                        if a < n {
                            assert(rs[a] == rest[a]);
                        }
                    }
                    assert(runs_bounded(advances, rs));
                    assert forall|a: int, b: int|
                        0 <= a < b < rs.len() implies (#[trigger] rs[a]).0 + rs[a].1.len() <= (
                        #[trigger] rs[b]).0 by {
                        if b < n {
                            assert(rs[a] == rest[a] && rs[b] == rest[b]);
                        } else {
                            assert(rs[a] == rest[a]);
                            assert(rs[b].0 == rest[n].0);
                        }
                    }
                    assert(runs_ordered(rs));
                } else {
                    assert(rs == rest.push(((g as u16), seq![sw])));
                    assert forall|a: int, j: int|
                        0 <= a < rs.len() && 0 <= j < rs[a].1.len() implies run_entry_exact(
                        advances,
                        upem,
                        rs,
                        a,
                        j,
                    ) by {
                        if a < rest.len() {
                            assert(rs[a] == rest[a]);
                            assert(run_entry_exact(prev, upem, rest, a, j));
                            assert(prev[rest[a].0 + j] == advances[rest[a].0 + j]);
                        } else {
                            assert(rs[a] == ((g as u16), seq![sw]));
                            assert(j == 0);
                            assert(rs[a].0 + j == g);
                            assert(advances[g] == Some(w));
                            assert(rs[a].1[j] == sw);
                        }
                    }
                    assert(runs_exact(advances, upem, rs));
                    assert forall|gi: int|
                        0 <= gi < advances.len() && advances[gi] is Some implies exists|a: int|
                        0 <= a < rs.len() && (#[trigger] rs[a]).0 <= gi < rs[a].0 + rs[a].1.len() by {
                        if gi < g {
                            assert(prev[gi] == advances[gi]);
                            let a = choose|a: int|
                                0 <= a < rest.len() && (#[trigger] rest[a]).0 <= gi < rest[a].0
                                    + rest[a].1.len();
                            assert(0 <= a < rs.len() && rs[a].0 <= gi < rs[a].0 + rs[a].1.len());
                        } else {
                            let a = rs.len() - 1;
                            assert(rs[a].0 <= gi < rs[a].0 + rs[a].1.len());
                        }
                    }
                    assert(runs_complete(advances, rs));
                    assert forall|a: int|
                        0 <= a < rs.len() implies 1 <= (#[trigger] rs[a]).1.len() && rs[a].0
                        + rs[a].1.len() <= advances.len() by {
                        if a < rest.len() {
                            assert(rs[a] == rest[a]);
                        }
                    }
                    assert(runs_bounded(advances, rs));
                    assert forall|a: int, b: int|
                        0 <= a < b < rs.len() implies (#[trigger] rs[a]).0 + rs[a].1.len() <= (
                        #[trigger] rs[b]).0 by {
                        if b < rest.len() {
                            assert(rs[a] == rest[a] && rs[b] == rest[b]);
                        } else {
                            assert(rs[a] == rest[a]);
                            assert(rs[b] == ((g as u16), seq![sw]));
                        }
                    }
                    assert(runs_ordered(rs));
                }
            },
        }
    }
}

/// Builds the width runs for glyph ids `0 .. advances.len()`.
pub fn build_width_runs(advances: &Vec<Option<u16>>, upem: u16) -> (r: Vec<WidthRun>)
    requires
        16 <= upem,
        advances@.len() <= 0xFFFF,
    ensures
        run_views(r@) == runs_of(advances@, upem),
{
    let mut out: Vec<WidthRun> = Vec::new();
    let mut g: usize = 0;
    while g < advances.len()
        invariant
            g <= advances@.len(),
            advances@.len() <= 0xFFFF,
            16 <= upem,
            run_views(out@) == runs_of(advances@.take(g as int), upem),
        decreases advances@.len() - g,
    {
        let ghost prefix = advances@.take(g as int);
        let ghost out0 = out@;
        if let Some(w) = advances[g] {
            let sw = scale_width(w, upem);
            proof {
                lemma_runs_cover(prefix, upem);
            }
            let mut extend = false;
            if out.len() > 0 {
                let last = &out[out.len() - 1];
                proof {
                    assert(run_views(out@)[out@.len() - 1] == run_view(out@[out@.len() - 1]));
                    assert(runs_of(prefix, upem)[out@.len() - 1].0 + runs_of(prefix, upem)[out@.len()
                        - 1].1.len() <= prefix.len());
                }
                if last.start as usize + last.widths.len() == g {
                    extend = true;
                }
            }
            if extend {
                let mut run = out.pop().unwrap();
                run.widths.push(sw);
                out.push(run);
                proof {
                    assert(run_views(out@) =~= run_views(out0).update(
                        run_views(out0).len() - 1,
                        (run_views(out0).last().0, run_views(out0).last().1.push(sw)),
                    ));
                }
            } else {
                let run = WidthRun { start: g as u16, widths: vec![sw] };
                assert(run.widths@ =~= seq![sw]);
                out.push(run);
                proof {
                    assert(run_views(out@) =~= run_views(out0).push((g as u16, seq![sw])));
                }
            }
        }
        proof {
            assert(advances@.take(g + 1).drop_last() =~= prefix);
            assert(advances@.take(g + 1).last() == advances@[g as int]);
        }
        g = g + 1;
    }
    proof {
        assert(advances@.take(advances@.len() as int) =~= advances@);
    }
    out
}

} // verus!
