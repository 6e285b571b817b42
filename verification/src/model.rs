//! The mathematical model of the segmenter.
//!
//! A file is a sequence of byte lines.  The segmenter walks them in order,
//! cutting a new block at every boundary line; a block is flushed when the
//! next boundary arrives and the block has picked up at least one
//! continuation line, and the block still open when the lines run out is
//! dropped.  The functions here define that state machine and the exact
//! bytes of the rendered output; the executable code is proved against them.

use vstd::prelude::*;
use crate::classifier::spec_is_boundary;
use crate::fmt::padded_dec;

verus! {

/// The configuration under which a file is segmented.
pub ghost struct ConfigV {
    /// Prefix each output line with its 1-based line number.
    pub print_line_numbers: bool,
    /// Prefix each output line with the source file name.
    pub print_filenames: bool,
    /// The boundary pattern, as handed to the regex compiler.
    pub pattern: Seq<char>,
}

/// One line held in the block currently being assembled: its 1-based
/// position in the input and its raw bytes.
pub ghost struct Rec {
    pub line_no: nat,
    pub line: Seq<u8>,
}

/// The segmenter's state between lines.
pub ghost struct SegModel {
    /// The lines of the block currently open, in input order.
    pub recs: Seq<Rec>,
    /// Whether a continuation line has been appended since the block began.
    pub collecting: bool,
    /// Whether any block has been flushed for this file yet.
    pub produced: bool,
}

/// The state before any line has been read.
pub open spec fn init_model() -> SegModel {
    SegModel { recs: Seq::empty(), collecting: false, produced: false }
}

/// One transition of the segmenter: reading line `line_no` with bytes
/// `line`.  Returns the next state and the block flushed by this line,
/// if any.
pub open spec fn step_model(pattern: Seq<char>, m: SegModel, line_no: nat, line: Seq<u8>) -> (SegModel, Option<Seq<Rec>>) {
    if spec_is_boundary(pattern, line) {
        (
            SegModel {
                recs: seq![Rec { line_no, line }],
                collecting: false,
                produced: m.produced || m.collecting,
            },
            if m.collecting {
                Some(m.recs)
            } else {
                None
            },
        )
    } else {
        (
            SegModel { recs: m.recs.push(Rec { line_no, line }), collecting: true, produced: m.produced },
            None,
        )
    }
}

/// The segmenter run over a whole file: the state after the last line and
/// the blocks flushed along the way, in order.  The block still open at the
/// end is not among them.
pub open spec fn run_model(pattern: Seq<char>, lines: Seq<Seq<u8>>) -> (SegModel, Seq<Seq<Rec>>)
    decreases lines.len(),
{
    if lines.len() == 0 {
        (init_model(), Seq::empty())
    } else {
        let prev = run_model(pattern, lines.drop_last());
        let stepped = step_model(pattern, prev.0, lines.len() as nat, lines.last());
        (
            stepped.0,
            match stepped.1 {
                Some(b) => prev.1.push(b),
                None => prev.1,
            },
        )
    }
}

/// The bytes of one annotated output line: the optional file-name prefix,
/// the optional right-justified line number, the raw line bytes, and a
/// newline.
pub open spec fn annotated_line(print_filenames: bool, print_line_numbers: bool, fname: Seq<u8>, line_no: nat, line: Seq<u8>) -> Seq<u8> {
    (if print_filenames {
        fname + seq![32u8]
    } else {
        Seq::<u8>::empty()
    }) + (if print_line_numbers {
        padded_dec(line_no) + seq![32u8]
    } else {
        Seq::<u8>::empty()
    }) + line + seq![10u8]
}

/// The bytes of a block's lines, rendered in order.
pub open spec fn render_block(cfg: ConfigV, fname: Seq<u8>, recs: Seq<Rec>) -> Seq<u8>
    decreases recs.len(),
{
    if recs.len() == 0 {
        Seq::empty()
    } else {
        render_block(cfg, fname, recs.drop_last())
            + annotated_line(cfg.print_filenames, cfg.print_line_numbers, fname, recs.last().line_no, recs.last().line)
    }
}

/// The bytes held by the accumulator in state `m`: a separator newline when
/// some block was already flushed, then the rendered lines of the open
/// block.
pub open spec fn block_bytes(cfg: ConfigV, fname: Seq<u8>, m: SegModel) -> Seq<u8> {
    (if m.produced {
        seq![10u8]
    } else {
        Seq::<u8>::empty()
    }) + render_block(cfg, fname, m.recs)
}

/// The byte blocks a whole file flushes, in order: each block's rendered
/// lines, preceded by a separator newline for every block but the first.
pub open spec fn emitted_blocks_bytes(cfg: ConfigV, fname: Seq<u8>, lines: Seq<Seq<u8>>) -> Seq<Seq<u8>> {
    let blocks = run_model(cfg.pattern, lines).1;
    Seq::new(blocks.len(), |k: int| (if k > 0 {
        seq![10u8]
    } else {
        Seq::<u8>::empty()
    }) + render_block(cfg, fname, blocks[k]))
}

/// The concatenation of a sequence of byte blocks.
pub open spec fn concat_bytes(blocks: Seq<Seq<u8>>) -> Seq<u8>
    decreases blocks.len(),
{
    if blocks.len() == 0 {
        Seq::empty()
    } else {
        concat_bytes(blocks.drop_last()) + blocks.last()
    }
}

/// Everything a file's segmentation writes to the sink, as one byte
/// sequence.
pub open spec fn output_bytes(cfg: ConfigV, fname: Seq<u8>, lines: Seq<Seq<u8>>) -> Seq<u8> {
    concat_bytes(emitted_blocks_bytes(cfg, fname, lines))
}

/// Appending one line to a block appends its rendering to the block's bytes.
pub proof fn lemma_render_block_push(cfg: ConfigV, fname: Seq<u8>, recs: Seq<Rec>, rec: Rec)
    ensures
        render_block(cfg, fname, recs.push(rec))
            == render_block(cfg, fname, recs)
                + annotated_line(cfg.print_filenames, cfg.print_line_numbers, fname, rec.line_no, rec.line),
{
    let p = recs.push(rec);
    assert(p.drop_last() =~= recs);
    assert(p.last() == rec);
}

/// Running the segmenter over one more line steps the run of the prefix.
pub proof fn lemma_run_model_take_step(pattern: Seq<char>, lines: Seq<Seq<u8>>, i: int)
    requires
        0 <= i < lines.len(),
    ensures
        ({
            let prev = run_model(pattern, lines.take(i));
            let stepped = step_model(pattern, prev.0, (i + 1) as nat, lines[i]);
            run_model(pattern, lines.take(i + 1)).0 == stepped.0
            && run_model(pattern, lines.take(i + 1)).1 == (match stepped.1 {
                Some(b) => prev.1.push(b),
                None => prev.1,
            })
        }),
{
    let t = lines.take(i + 1);
    assert(t.len() == i + 1);
    assert(t.drop_last() =~= lines.take(i));
    assert(t.last() == lines[i]);
}

/// After any run, a block has been flushed exactly when the `produced`
/// flag is set.
pub proof fn lemma_produced_iff_emitted(pattern: Seq<char>, lines: Seq<Seq<u8>>)
    ensures
        run_model(pattern, lines).0.produced <==> run_model(pattern, lines).1.len() > 0,
    decreases lines.len(),
{
    if lines.len() > 0 {
        lemma_produced_iff_emitted(pattern, lines.drop_last());
    }
}

} // verus!
