//! The segmenter: the state machine that assembles blocks and decides when
//! to flush, extend, or discard one.
//!
//! `Segmenter::step` takes one input line and hands back the block to be
//! written, if this line completed one; the caller performs the writes and
//! stops at the first sink failure, so no byte of a later block can ever be
//! emitted after one fails.

use vstd::prelude::*;
use crate::buf::MemWriter;
use crate::classifier::Classifier;
use crate::classifier::spec_is_boundary;
use crate::fmt::push_padded_dec;
use crate::model::ConfigV;
use crate::model::Rec;
use crate::model::SegModel;
use crate::model::annotated_line;
use crate::model::block_bytes;
use crate::model::concat_bytes;
use crate::model::emitted_blocks_bytes;
use crate::model::init_model;
use crate::model::render_block;
use crate::model::run_model;
use crate::model::step_model;
use crate::model::output_bytes;
use crate::model::lemma_produced_iff_emitted;
use crate::model::lemma_render_block_push;
use crate::model::lemma_run_model_take_step;

verus! {

/// How a file is segmented: the two annotation switches and the compiled
/// boundary pattern.
pub struct Config {
    /// Prefix each output line with its 1-based line number.
    pub print_line_numbers: bool,
    /// Prefix each output line with the source file name.
    pub print_filenames: bool,
    /// The compiled boundary pattern.
    pub line_regex: Classifier,
}

impl View for Config {
    type V = ConfigV;

    open spec fn view(&self) -> ConfigV {
        ConfigV {
            print_line_numbers: self.print_line_numbers,
            print_filenames: self.print_filenames,
            pattern: self.line_regex.pattern(),
        }
    }
}

/// Append one annotated line to the accumulator: the optional file name and
/// a space, the optional right-justified line number and a space, the raw
/// line bytes, and a newline.
fn append_line(block: &mut MemWriter, print_filenames: bool, print_line_numbers: bool, filename: &[u8], line_no: usize, line: &[u8])
    ensures
        final(block)@ == old(block)@ + annotated_line(print_filenames, print_line_numbers, filename@, line_no as nat, line@),
{
    if print_filenames {
        block.write(filename);
        block.write(&[32u8]);
    }
    if print_line_numbers {
        let mut num: Vec<u8> = Vec::new();
        push_padded_dec(line_no, &mut num);
        block.write(num.as_slice());
        block.write(&[32u8]);
    }
    block.write(line);
    block.write(&[10u8]);
    proof {
        assert(final(block)@ =~= old(block)@ + annotated_line(print_filenames, print_line_numbers, filename@, line_no as nat, line@));
    }
}

/// One file's segmentation in progress.
pub struct Segmenter<'a> {
    cfg: &'a Config,
    filename: &'a [u8],
    block: MemWriter,
    collecting: bool,
    output_produced: bool,
    line_no: usize,
    recs: Ghost<Seq<Rec>>,
}

impl<'a> Segmenter<'a> {
    /// The configuration this segmenter runs under.
    pub closed spec fn cfg_v(&self) -> ConfigV {
        self.cfg@
    }

    /// The name of the file being segmented.
    pub closed spec fn fname(&self) -> Seq<u8> {
        self.filename@
    }

    /// The abstract state: the open block's lines and the two flags.
    pub closed spec fn model(&self) -> SegModel {
        SegModel { recs: self.recs@, collecting: self.collecting, produced: self.output_produced }
    }

    /// How many lines have been read so far.
    pub closed spec fn lines_read(&self) -> nat {
        self.line_no as nat
    }

    /// The accumulator holds exactly the bytes the abstract state calls for.
    pub closed spec fn wf(&self) -> bool {
        self.block@ == block_bytes(self.cfg_v(), self.fname(), self.model())
    }

    /// A fresh segmenter for one file.
    pub fn new(cfg: &'a Config, filename: &'a [u8]) -> (s: Segmenter<'a>)
        ensures
            s.wf(),
            s.model() == init_model(),
            s.lines_read() == 0,
            s.cfg_v() == cfg@,
            s.fname() == filename@,
    {
        let s = Segmenter {
            cfg,
            filename,
            block: MemWriter::with_capacity(1024),
            collecting: false,
            output_produced: false,
            line_no: 0,
            recs: Ghost(Seq::empty()),
        };
        proof {
            assert(s.block@ =~= block_bytes(s.cfg_v(), s.fname(), s.model()));
        }
        s
    }

    /// Feed the next input line (without its terminator).  Returns the
    /// block to write now, if this line completed one; its bytes are the
    /// accumulator's contents before this line, separator included.
    pub fn step(&mut self, line: &[u8]) -> (r: Option<Vec<u8>>)
        requires
            old(self).wf(),
            old(self).lines_read() < usize::MAX,
        ensures
            final(self).wf(),
            final(self).cfg_v() == old(self).cfg_v(),
            final(self).fname() == old(self).fname(),
            final(self).lines_read() == old(self).lines_read() + 1,
            final(self).model() == step_model(old(self).cfg_v().pattern, old(self).model(), old(self).lines_read() + 1, line@).0,
            (match r {
                Some(v) => step_model(old(self).cfg_v().pattern, old(self).model(), old(self).lines_read() + 1, line@).1
                    == Some(old(self).model().recs)
                    && v@ == block_bytes(old(self).cfg_v(), old(self).fname(), old(self).model()),
                None => step_model(old(self).cfg_v().pattern, old(self).model(), old(self).lines_read() + 1, line@).1 is None,
            }),
    {
        self.line_no = self.line_no + 1;
        let mut result: Option<Vec<u8>> = None;
        if self.cfg.line_regex.is_boundary(line) {
            if self.collecting {
                result = Some(self.block.take());
                self.output_produced = true;
                self.collecting = false;
            }
            self.block.clear();
            if self.output_produced {
                self.block.write(&[10u8]);
            }
            self.recs = Ghost(Seq::empty());
        } else {
            self.collecting = true;
        }
        let ghost base = self.recs@;
        let ghost pre = self.block@;
        let ghost rec = Rec { line_no: self.line_no as nat, line: line@ };
        append_line(&mut self.block, self.cfg.print_filenames, self.cfg.print_line_numbers, self.filename, self.line_no, line);
        self.recs = Ghost(self.recs@.push(rec));
        proof {
            let pat = old(self).cfg_v().pattern;
            let m2 = step_model(pat, old(self).model(), old(self).lines_read() + 1, line@).0;
            let ann = annotated_line(self.cfg_v().print_filenames, self.cfg_v().print_line_numbers, self.fname(), rec.line_no, rec.line);
            lemma_render_block_push(self.cfg_v(), self.fname(), base, rec);
            assert(self.block@ == pre + ann);
            assert(self.recs@ =~= m2.recs);
            if spec_is_boundary(pat, line@) {
                assert(base =~= Seq::<Rec>::empty());
                assert(render_block(self.cfg_v(), self.fname(), base) =~= Seq::<u8>::empty());
                assert(pre =~= (if self.output_produced {
                    seq![10u8]
                } else {
                    Seq::<u8>::empty()
                }));
            } else {
                assert(pre == block_bytes(old(self).cfg_v(), old(self).fname(), old(self).model()));
            }
            assert(self.block@ =~= block_bytes(self.cfg_v(), self.fname(), self.model()));
        }
        result
    }
}

/// Segment a whole file's lines at once: the blocks that would be flushed,
/// in order, each with its separator already in place.
pub fn segment_lines(cfg: &Config, filename: &[u8], lines: &Vec<Vec<u8>>) -> (out: Vec<Vec<u8>>)
    requires
        lines@.len() < usize::MAX,
    ensures
        out.deep_view() == emitted_blocks_bytes(cfg@, filename@, lines.deep_view()),
{
    let ghost cfgv = cfg@;
    let ghost fname = filename@;
    let ghost lv = lines.deep_view();
    let mut seg = Segmenter::new(cfg, filename);
    let mut out: Vec<Vec<u8>> = Vec::new();
    let mut i: usize = 0;
    proof {
        assert(lv.take(0) =~= Seq::<Seq<u8>>::empty());
        assert(out.deep_view() =~= emitted_blocks_bytes(cfgv, fname, lv.take(0)));
    }
    while i < lines.len()
        invariant
            i <= lines@.len(),
            lines@.len() < usize::MAX,
            lv == lines.deep_view(),
            seg.wf(),
            seg.cfg_v() == cfgv,
            seg.fname() == fname,
            seg.lines_read() == i,
            seg.model() == run_model(cfgv.pattern, lv.take(i as int)).0,
            out.deep_view() == emitted_blocks_bytes(cfgv, fname, lv.take(i as int)),
        decreases lines@.len() - i,
    {
        let ghost prev = run_model(cfgv.pattern, lv.take(i as int));
        proof {
            lemma_run_model_take_step(cfgv.pattern, lv, i as int);
            lemma_produced_iff_emitted(cfgv.pattern, lv.take(i as int));
            assert(lv[i as int] == lines@[i as int]@);
        }
        let ghost old_out = out.deep_view();
        let r = seg.step(lines[i].as_slice());
        proof {
            let stepped = step_model(cfgv.pattern, prev.0, (i + 1) as nat, lv[i as int]);
            assert(run_model(cfgv.pattern, lv.take(i + 1)).0 == stepped.0);
        }
        match r {
            Some(v) => {
                out.push(v);
                proof {
                    let t = lv.take(i + 1);
                    let eb = emitted_blocks_bytes(cfgv, fname, t);
                    let blocks2 = run_model(cfgv.pattern, t).1;
                    assert(blocks2 == prev.1.push(prev.0.recs));
                    assert(old_out.len() == prev.1.len());
                    assert(out@.len() == old_out.len() + 1);
                    assert(eb.len() == blocks2.len());
                    assert(blocks2.len() == prev.1.len() + 1);
                    assert(out.deep_view().len() == eb.len());
                    assert forall|k: int| 0 <= k < eb.len() implies out.deep_view()[k] == eb[k] by {
                        if k < eb.len() - 1 {
                            assert(out@[k] == out@.drop_last()[k]);
                            assert(out.deep_view()[k] == old_out[k]);
                            assert(blocks2[k] == prev.1[k]);
                            assert(old_out[k] == emitted_blocks_bytes(cfgv, fname, lv.take(i as int))[k]);
                        } else {
                            assert(out@[k] == out@.last());
                            assert(out.deep_view()[k] == v@);
                            assert(blocks2[k] == prev.0.recs);
                            assert(prev.0.produced <==> k > 0);
                        }
                    }
                    assert(out.deep_view() =~= eb);
                }
            },
            None => {
                proof {
                    let t = lv.take(i + 1);
                    let eb = emitted_blocks_bytes(cfgv, fname, t);
                    let blocks2 = run_model(cfgv.pattern, t).1;
                    assert(blocks2 == prev.1);
                    assert(out.deep_view().len() == eb.len());
                    assert forall|k: int| 0 <= k < eb.len() implies out.deep_view()[k] == eb[k] by {
                        assert(blocks2[k] == prev.1[k]);
                        assert(out.deep_view()[k] == emitted_blocks_bytes(cfgv, fname, lv.take(i as int))[k]);
                    }
                    assert(out.deep_view() =~= eb);
                }
            },
        }
        i = i + 1;
    }
    proof {
        assert(lv.take(lines@.len() as int) =~= lv);
    }
    out
}

/// Concatenate a run's blocks into the byte stream the sink receives.
pub fn concat_blocks(blocks: &Vec<Vec<u8>>) -> (out: Vec<u8>)
    ensures
        out@ == concat_bytes(blocks.deep_view()),
{
    let mut out = MemWriter::new();
    let mut i: usize = 0;
    proof {
        assert(blocks.deep_view().take(0) =~= Seq::<Seq<u8>>::empty());
    }
    while i < blocks.len()
        invariant
            i <= blocks@.len(),
            out@ == concat_bytes(blocks.deep_view().take(i as int)),
        decreases blocks@.len() - i,
    {
        out.write(blocks[i].as_slice());
        i = i + 1;
        proof {
            let t = blocks.deep_view().take(i as int);
            assert(t.drop_last() =~= blocks.deep_view().take(i - 1));
            assert(t.last() == blocks.deep_view()[i - 1]);
        }
    }
    proof {
        assert(blocks.deep_view().take(blocks@.len() as int) =~= blocks.deep_view());
    }
    out.unwrap()
}

/// Segment a whole file and hand back the bytes the sink would receive:
/// every flushed block, in order, separators included.
pub fn render_output(cfg: &Config, filename: &[u8], lines: &Vec<Vec<u8>>) -> (out: Vec<u8>)
    requires
        lines@.len() < usize::MAX,
    ensures
        out@ == output_bytes(cfg@, filename@, lines.deep_view()),
{
    let blocks = segment_lines(cfg, filename, lines);
    concat_blocks(&blocks)
}

} // verus!
