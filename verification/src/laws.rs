//! Properties of the segmentation, stated over the model and proved once
//! and for all.

use vstd::prelude::*;
use crate::classifier::spec_is_boundary;
use crate::fmt::NUM_WIDTH;
use crate::fmt::dec_digits;
use crate::fmt::digits_val;
use crate::fmt::lemma_dec_digits_value;
use crate::fmt::padded_dec;
use crate::fmt::spaces;
use crate::model::ConfigV;
use crate::model::Rec;
use crate::model::annotated_line;
use crate::model::emitted_blocks_bytes;
use crate::model::output_bytes;
use crate::model::render_block;
use crate::model::run_model;

verus! {

/// `recs` are exactly the input lines at positions `a .. a + recs.len()`,
/// each paired with its 1-based line number.
pub open spec fn interval_at(recs: Seq<Rec>, lines: Seq<Seq<u8>>, a: int) -> bool {
    &&& 0 <= a
    &&& a + recs.len() <= lines.len()
    &&& forall|j: int|
        0 <= j < recs.len() ==> #[trigger] recs[j] == (Rec {
            line_no: (a + j + 1) as nat,
            line: lines[a + j],
        })
}

/// A block's lines are a contiguous run of the input, in input order.
pub open spec fn is_interval(recs: Seq<Rec>, lines: Seq<Seq<u8>>) -> bool {
    exists|a: int| interval_at(recs, lines, a)
}

/// What holds of every flushed block: its lines are a contiguous run of
/// input lines, at least one of them is a continuation line, and every
/// line after the first is a continuation line.
pub open spec fn emitted_block_ok(pattern: Seq<char>, recs: Seq<Rec>, lines: Seq<Seq<u8>>) -> bool {
    &&& is_interval(recs, lines)
    &&& recs.len() > 0
    &&& exists|j: int| 0 <= j < recs.len() && !spec_is_boundary(pattern, #[trigger] recs[j].line)
    &&& forall|j: int| 1 <= j < recs.len() ==> !spec_is_boundary(pattern, #[trigger] recs[j].line)
}

/// Every line of every block in `blocks` has a line number at most `bound`.
pub open spec fn blocks_at_most(blocks: Seq<Seq<Rec>>, bound: int) -> bool {
    forall|b: int, j: int|
        0 <= b < blocks.len() && 0 <= j < blocks[b].len() ==> (#[trigger] blocks[b][j]).line_no
            <= bound
}

/// Blocks appear in input order: every line of an earlier block precedes
/// every line of a later one.
pub open spec fn blocks_ordered(blocks: Seq<Seq<Rec>>) -> bool {
    forall|b1: int, b2: int, j1: int, j2: int|
        0 <= b1 < b2 < blocks.len() && 0 <= j1 < blocks[b1].len() && 0 <= j2 < blocks[b2].len()
            ==> (#[trigger] blocks[b1][j1]).line_no < (#[trigger] blocks[b2][j2]).line_no
}

/// The structural invariant of a whole run: the open block is the run of
/// input lines since the last boundary, every flushed block is a
/// well-formed entry, and the flushed blocks precede the open block in
/// input order.
pub proof fn lemma_run_invariants(pattern: Seq<char>, lines: Seq<Seq<u8>>)
    ensures
        ({
            let m = run_model(pattern, lines).0;
            let blocks = run_model(pattern, lines).1;
            &&& m.recs.len() <= lines.len()
            &&& (lines.len() > 0 ==> m.recs.len() > 0)
            &&& (m.recs.len() > 0 ==> interval_at(m.recs, lines, lines.len() - m.recs.len()))
            &&& (forall|j: int|
                1 <= j < m.recs.len() ==> !spec_is_boundary(pattern, #[trigger] m.recs[j].line))
            &&& (m.collecting <==> exists|j: int|
                0 <= j < m.recs.len() && !spec_is_boundary(pattern, #[trigger] m.recs[j].line))
            &&& (forall|b: int|
                0 <= b < blocks.len() ==> emitted_block_ok(pattern, #[trigger] blocks[b], lines))
            &&& blocks_at_most(blocks, lines.len() - m.recs.len())
            &&& blocks_ordered(blocks)
        }),
    decreases lines.len(),
{
    if lines.len() > 0 {
        let prefix = lines.drop_last();
        lemma_run_invariants(pattern, prefix);
        let pm = run_model(pattern, prefix).0;
        let pblocks = run_model(pattern, prefix).1;
        let n = lines.len() as int;
        let line = lines.last();
        let m = run_model(pattern, lines).0;
        let blocks = run_model(pattern, lines).1;
        assert(forall|k: int| 0 <= k < n - 1 ==> prefix[k] == lines[k]);
        assert forall|b: int| 0 <= b < pblocks.len() implies emitted_block_ok(
            pattern,
            #[trigger] pblocks[b],
            lines,
        ) by {
            let a = choose|a: int| interval_at(pblocks[b], prefix, a);
            assert(interval_at(pblocks[b], lines, a));
        }
        if spec_is_boundary(pattern, line) {
            assert(m.recs =~= seq![Rec { line_no: n as nat, line }]);
            assert(interval_at(m.recs, lines, n - 1));
            assert(!(exists|j: int|
                0 <= j < m.recs.len() && !spec_is_boundary(pattern, #[trigger] m.recs[j].line)));
            if pm.collecting {
                assert(blocks == pblocks.push(pm.recs));
                assert(pm.recs.len() > 0);
                assert(interval_at(pm.recs, prefix, n - 1 - pm.recs.len()));
                assert(interval_at(pm.recs, lines, n - 1 - pm.recs.len()));
                assert(emitted_block_ok(pattern, pm.recs, lines));
                assert forall|b: int, j: int|
                    0 <= b < blocks.len() && 0 <= j < blocks[b].len() implies (
                #[trigger] blocks[b][j]).line_no <= n - 1 by {
                    if b < pblocks.len() {
                        assert(blocks[b] == pblocks[b]);
                        assert(blocks[b][j].line_no <= n - 1 - pm.recs.len());
                    } else {
                        assert(blocks[b] == pm.recs);
                        assert(blocks[b][j].line_no == n - 1 - pm.recs.len() + j + 1);
                    }
                }
                assert forall|b1: int, b2: int, j1: int, j2: int|
                    0 <= b1 < b2 < blocks.len() && 0 <= j1 < blocks[b1].len() && 0 <= j2
                        < blocks[b2].len() implies (#[trigger] blocks[b1][j1]).line_no < (
                #[trigger] blocks[b2][j2]).line_no by {
                    if b2 < pblocks.len() {
                        assert(blocks[b1] == pblocks[b1]);
                        assert(blocks[b2] == pblocks[b2]);
                    } else {
                        assert(blocks[b1] == pblocks[b1]);
                        assert(blocks[b2] == pm.recs);
                        assert(blocks[b1][j1].line_no <= n - 1 - pm.recs.len());
                        assert(blocks[b2][j2].line_no == n - 1 - pm.recs.len() + j2 + 1);
                    }
                }
            } else {
                assert(blocks == pblocks);
            }
        } else {
            let rec = Rec { line_no: n as nat, line };
            assert(m.recs == pm.recs.push(rec));
            assert(m.recs.len() == pm.recs.len() + 1);
            let s = n - m.recs.len();
            assert forall|j: int| 0 <= j < m.recs.len() implies #[trigger] m.recs[j] == (Rec {
                line_no: (s + j + 1) as nat,
                line: lines[s + j],
            }) by {
                if j < pm.recs.len() {
                    assert(m.recs[j] == pm.recs[j]);
                    assert(pm.recs.len() > 0);
                    assert(interval_at(pm.recs, prefix, n - 1 - pm.recs.len()));
                    assert(prefix[s + j] == lines[s + j]);
                } else {
                    assert(m.recs[j] == rec);
                }
            }
            assert(interval_at(m.recs, lines, s));
            assert(!spec_is_boundary(pattern, m.recs[m.recs.len() - 1].line));
            assert(blocks == pblocks);
        }
    }
}

/// Every flushed block is a contiguous run of input lines in input order,
/// blocks come out in input order, and each output line carries the
/// 1-based number of the very input line it was read from.
pub proof fn lemma_blocks_are_input_runs(pattern: Seq<char>, lines: Seq<Seq<u8>>)
    ensures
        ({
            let blocks = run_model(pattern, lines).1;
            &&& (forall|b: int| 0 <= b < blocks.len() ==> is_interval(#[trigger] blocks[b], lines))
            &&& blocks_ordered(blocks)
            &&& (forall|b: int, j: int|
                0 <= b < blocks.len() && 0 <= j < blocks[b].len() ==> 1 <= (
                #[trigger] blocks[b][j]).line_no <= lines.len() && blocks[b][j].line == lines[blocks[b][j].line_no - 1])
        }),
{
    lemma_run_invariants(pattern, lines);
    let blocks = run_model(pattern, lines).1;
    assert forall|b: int, j: int|
        0 <= b < blocks.len() && 0 <= j < blocks[b].len() implies 1 <= (
    #[trigger] blocks[b][j]).line_no <= lines.len() && blocks[b][j].line == lines[blocks[b][j].line_no
        - 1] by {
        assert(emitted_block_ok(pattern, blocks[b], lines));
        let a = choose|a: int| interval_at(blocks[b], lines, a);
        assert(blocks[b][j] == (Rec { line_no: (a + j + 1) as nat, line: lines[a + j] }));
    }
}

/// A boundary line immediately followed by another boundary line is a
/// single-line entry: no flushed block contains it, so it never reaches
/// the output.  `i` is the 0-based position of the first of the two.
pub proof fn lemma_single_line_entry_dropped(pattern: Seq<char>, lines: Seq<Seq<u8>>, i: int)
    requires
        0 <= i,
        i + 1 < lines.len(),
        spec_is_boundary(pattern, lines[i]),
        spec_is_boundary(pattern, lines[i + 1]),
    ensures
        ({
            let blocks = run_model(pattern, lines).1;
            forall|b: int, j: int|
                0 <= b < blocks.len() && 0 <= j < blocks[b].len() ==> (
                #[trigger] blocks[b][j]).line_no != i + 1
        }),
{
    lemma_run_invariants(pattern, lines);
    let blocks = run_model(pattern, lines).1;
    assert forall|b: int, j: int|
        0 <= b < blocks.len() && 0 <= j < blocks[b].len() implies (
    #[trigger] blocks[b][j]).line_no != i + 1 by {
        assert(emitted_block_ok(pattern, blocks[b], lines));
        if blocks[b][j].line_no == i + 1 {
            let recs = blocks[b];
            let a = choose|a: int| interval_at(recs, lines, a);
            assert(recs[j] == (Rec { line_no: (a + j + 1) as nat, line: lines[a + j] }));
            assert(a + j == i);
            assert(spec_is_boundary(pattern, recs[j].line));
            assert(j == 0);
            let jc = choose|jc: int|
                0 <= jc < recs.len() && !spec_is_boundary(pattern, recs[jc].line);
            assert(jc != 0);
            assert(recs.len() >= 2);
            assert(recs[1] == (Rec { line_no: (i + 2) as nat, line: lines[i + 1] }));
            assert(!spec_is_boundary(pattern, recs[1].line));
        }
    }
}

/// Segmenting the same lines under the same configuration twice yields
/// byte-identical output: the output is a function of the configuration,
/// the file name and the lines alone.
pub proof fn lemma_deterministic(
    cfg: ConfigV,
    fname: Seq<u8>,
    lines: Seq<Seq<u8>>,
    out1: Seq<u8>,
    out2: Seq<u8>,
)
    requires
        out1 == output_bytes(cfg, fname, lines),
        out2 == output_bytes(cfg, fname, lines),
    ensures
        out1 == out2,
{
}

/// No separator precedes the first flushed block of a file; exactly one
/// blank line (a lone newline) precedes every later one.
pub proof fn lemma_separators(cfg: ConfigV, fname: Seq<u8>, lines: Seq<Seq<u8>>)
    ensures
        ({
            let blocks = run_model(cfg.pattern, lines).1;
            let eb = emitted_blocks_bytes(cfg, fname, lines);
            &&& eb.len() == blocks.len()
            &&& (blocks.len() > 0 ==> eb[0] == render_block(cfg, fname, blocks[0]))
            &&& (forall|k: int|
                1 <= k < eb.len() ==> #[trigger] eb[k] == seq![10u8] + render_block(
                    cfg,
                    fname,
                    blocks[k],
                ))
        }),
{
    let blocks = run_model(cfg.pattern, lines).1;
    let eb = emitted_blocks_bytes(cfg, fname, lines);
    if blocks.len() > 0 {
        assert(eb[0] =~= render_block(cfg, fname, blocks[0]));
    }
}

/// With line numbers switched on, every output line begins — after the
/// optional file-name prefix — with the line number rendered as decimal
/// digits, right-justified with spaces to the fixed width, and one space;
/// reading the digits back yields the line number itself.
pub proof fn lemma_number_prefix(
    print_filenames: bool,
    fname: Seq<u8>,
    line_no: nat,
    line: Seq<u8>,
)
    ensures
        annotated_line(print_filenames, true, fname, line_no, line) == (if print_filenames {
            fname + seq![32u8]
        } else {
            Seq::<u8>::empty()
        }) + padded_dec(line_no) + seq![32u8] + line + seq![10u8],
        padded_dec(line_no).len() >= NUM_WIDTH as int,
        padded_dec(line_no) == spaces(
            (padded_dec(line_no).len() - dec_digits(line_no).len()) as nat,
        ) + dec_digits(line_no),
        digits_val(dec_digits(line_no)) == line_no,
{
    lemma_dec_digits_value(line_no);
    assert(annotated_line(print_filenames, true, fname, line_no, line) =~= (if print_filenames {
        fname + seq![32u8]
    } else {
        Seq::<u8>::empty()
    }) + padded_dec(line_no) + seq![32u8] + line + seq![10u8]);
    if dec_digits(line_no).len() >= NUM_WIDTH as int {
        assert(spaces(0) =~= Seq::<u8>::empty());
        assert(padded_dec(line_no) =~= spaces(
            (padded_dec(line_no).len() - dec_digits(line_no).len()) as nat,
        ) + dec_digits(line_no));
    }
}

} // verus!

