//! Recovers discrete object texts from a concatenated-object log.
//!
//! The log is a sequence of JSON object texts written back to back, with no
//! enclosing array and no separator. Object boundaries are recovered line by
//! line from brace adjacency: a line that is exactly `}{` closes one object
//! and opens the next, and a line that is exactly `}` closes the final one.

use vstd::prelude::*;

verus! {

/// Whether a line is exactly `}{`: the closing brace of one object and the
/// opening brace of the next, glued onto one physical line.
pub open spec fn is_boundary_line(line: Seq<u8>) -> bool {
    line == seq![125u8, 123u8]
}

/// Whether a line is exactly `}`: the closing line of the final object.
pub open spec fn is_terminal_line(line: Seq<u8>) -> bool {
    line == seq![125u8]
}

/// What one line does to the decoder: from a buffer and a finished flag, the
/// new buffer, the new flag, and the object text completed by this line, if
/// any. After the terminal line every further line is ignored.
pub open spec fn step_line(buf: Seq<u8>, done: bool, line: Seq<u8>) -> (Seq<u8>, bool, Option<
    Seq<u8>,
>) {
    if done {
        (buf, true, None::<Seq<u8>>)
    } else if is_terminal_line(line) {
        (Seq::<u8>::empty(), true, Some(buf.push(125u8)))
    } else if is_boundary_line(line) {
        (seq![123u8], false, Some(buf.push(125u8)))
    } else {
        (buf + line + seq![10u8], false, None::<Seq<u8>>)
    }
}

/// The decoder run over a whole sequence of lines: the final buffer, the
/// final finished flag, and the object texts completed along the way.
pub open spec fn run_lines(buf: Seq<u8>, done: bool, lines: Seq<Seq<u8>>) -> (Seq<u8>, bool, Seq<
    Seq<u8>,
>)
    decreases lines.len(),
{
    if lines.len() == 0 {
        (buf, done, Seq::<Seq<u8>>::empty())
    } else {
        let step = step_line(buf, done, lines[0]);
        let rest = run_lines(step.0, step.1, lines.drop_first());
        (
            rest.0,
            rest.1,
            match step.2 {
                Some(obj) => seq![obj] + rest.2,
                None => rest.2,
            },
        )
    }
}

/// An incremental decoder over the lines of one log file. Lines go in one at
/// a time; complete object texts come out as they are recognised.
pub struct Decoder {
    buf: Vec<u8>,
    done: bool,
}

impl Decoder {
    /// The text accumulated for the object currently being read.
    pub closed spec fn buffer(self) -> Seq<u8> {
        self.buf@
    }

    /// Whether the terminal `}` line has been seen.
    pub closed spec fn finished(self) -> bool {
        self.done
    }

    /// A decoder at the start of a log file: empty buffer, not finished.
    pub fn new() -> (d: Decoder)
        ensures
            d.buffer() == Seq::<u8>::empty(),
            !d.finished(),
    {
        Decoder { buf: Vec::new(), done: false }
    }

    /// Consumes one line of the log. Returns the complete object text that
    /// this line closed, if it closed one; the decoder follows `step_line`.
    pub fn feed_line(&mut self, line: &[u8]) -> (r: Option<Vec<u8>>)
        ensures
            ({
                let step = step_line(old(self).buffer(), old(self).finished(), line@);
                &&& final(self).buffer() == step.0
                &&& final(self).finished() == step.1
                &&& (r is Some <==> step.2 is Some)
                &&& (r is Some ==> r->0@ == step.2->0)
            }),
    {
        if self.done {
            return None;
        }
        if line.len() == 1 && line[0] == 125 {
            self.buf.push(125);
            let mut obj: Vec<u8> = Vec::new();
            core::mem::swap(&mut obj, &mut self.buf);
            self.done = true;
            proof {
                assert(line@ =~= seq![125u8]);
            }
            Some(obj)
        } else if line.len() == 2 && line[0] == 125 && line[1] == 123 {
            self.buf.push(125);
            let mut obj: Vec<u8> = Vec::new();
            obj.push(123);
            core::mem::swap(&mut obj, &mut self.buf);
            proof {
                assert(line@ =~= seq![125u8, 123u8]);
                assert(self.buffer() =~= seq![123u8]);
            }
            Some(obj)
        } else {
            let mut i: usize = 0;
            let n = line.len();
            while i < n
                invariant
                    n == line@.len(),
                    0 <= i <= n,
                    self.buf@ == old(self).buf@ + line@.take(i as int),
                    self.done == old(self).done,
                decreases n - i,
            {
                self.buf.push(line[i]);
                proof {
                    assert(old(self).buf@ + line@.take(i + 1 as int) =~= (old(self).buf@
                        + line@.take(i as int)).push(line@[i as int]));
                }
                i = i + 1;
            }
            self.buf.push(10);
            proof {
                assert(!is_terminal_line(line@));
                assert(!is_boundary_line(line@));
                assert(line@.take(n as int) =~= line@);
                assert(self.buffer() =~= old(self).buffer() + line@ + seq![10u8]);
            }
            None
        }
    }

    /// Whether the terminal `}` line has been consumed; no later line moves
    /// the decoder once it has.
    pub fn is_finished(&self) -> (r: bool)
        ensures
            r == self.finished(),
    {
        self.done
    }

    /// Ends the log file. If the terminal `}` line was never seen, the
    /// partial text accumulated so far comes back for a best-effort parse;
    /// after a clean end there is nothing left.
    pub fn finish(self) -> (r: Option<Vec<u8>>)
        ensures
            self.finished() ==> r is None,
            !self.finished() ==> r is Some && r->0@ == self.buffer(),
    {
        if self.done {
            None
        } else {
            Some(self.buf)
        }
    }
}

/// Splits a whole log, given as its lines, into the complete object texts it
/// frames, together with the partial text left over when the log did not end
/// with the terminal `}` line.
pub fn split_log(lines: &Vec<Vec<u8>>) -> (r: (Vec<Vec<u8>>, Option<Vec<u8>>))
    ensures
        ({
            let run = run_lines(Seq::<u8>::empty(), false, lines.deep_view());
            &&& r.0.deep_view() == run.2
            &&& (run.1 ==> r.1 is None)
            &&& (!run.1 ==> r.1 is Some && r.1->0@ == run.0)
        }),
{
    let mut dec = Decoder::new();
    let mut objs: Vec<Vec<u8>> = Vec::new();
    let n = lines.len();
    let mut i: usize = 0;
    while i < n
        invariant
            n == lines@.len(),
            0 <= i <= n,
            ({
                let run = run_lines(Seq::<u8>::empty(), false, lines.deep_view().take(i as int));
                &&& dec.buffer() == run.0
                &&& dec.finished() == run.1
                &&& objs.deep_view() == run.2
            }),
        decreases n - i,
    {
        let ghost prefix = lines.deep_view().take(i as int);
        let ghost cur = lines.deep_view()[i as int];
        let ghost prev_objs = objs.deep_view();
        proof {
            assert(lines[i as int]@ =~= cur);
        }
        let out = dec.feed_line(lines[i].as_slice());
        proof {
            lemma_run_lines_snoc(Seq::<u8>::empty(), false, prefix, cur);
            assert(lines.deep_view().take(i as int + 1) =~= prefix.push(cur));
        }
        match out {
            Some(obj) => {
                proof {
                    assert(obj@ == step_line(
                        run_lines(Seq::<u8>::empty(), false, prefix).0,
                        run_lines(Seq::<u8>::empty(), false, prefix).1,
                        cur,
                    ).2->0);
                }
                proof {
                    assert(obj.deep_view() =~= obj@);
                }
                objs.push(obj);
                proof {
                    assert(objs.deep_view() =~= prev_objs.push(obj@));
                }
            },
            None => {
                proof {
                    assert(objs.deep_view() =~= prev_objs);
                }
            },
        }
        i = i + 1;
    }
    proof {
        assert(lines.deep_view().take(n as int) =~= lines.deep_view());
    }
    let tail = dec.finish();
    (objs, tail)
}

/// Whether a block of lines is interior text of one object: none of its
/// lines is an object boundary or the terminal line.
pub open spec fn interior_ok(block: Seq<Seq<u8>>) -> bool {
    forall|i: int|
        0 <= i < block.len() ==> !is_terminal_line(#[trigger] block[i]) && !is_boundary_line(
            block[i],
        )
}

/// The text a block of interior lines accumulates: each line followed by a
/// newline.
pub open spec fn cat_lines(block: Seq<Seq<u8>>) -> Seq<u8>
    decreases block.len(),
{
    if block.len() == 0 {
        Seq::<u8>::empty()
    } else {
        block[0] + seq![10u8] + cat_lines(block.drop_first())
    }
}

/// The lines of a log holding the given objects back to back: each object's
/// interior lines, a `}{` line between objects, and a final `}` line.
pub open spec fn log_lines(blocks: Seq<Seq<Seq<u8>>>) -> Seq<Seq<u8>>
    recommends
        blocks.len() >= 1,
    decreases blocks.len(),
{
    if blocks.len() <= 1 {
        blocks[0] + seq![seq![125u8]]
    } else {
        blocks[0] + seq![seq![125u8, 123u8]] + log_lines(blocks.drop_first())
    }
}

/// The object texts such a log frames: each object's interior text closed by
/// `}`, every object after the first opened by the seeded `{`.
pub open spec fn framed_objects(blocks: Seq<Seq<Seq<u8>>>, seed: Seq<u8>) -> Seq<Seq<u8>> {
    Seq::new(
        blocks.len(),
        |i: int|
            if i == 0 {
                seed + cat_lines(blocks[0]) + seq![125u8]
            } else {
                seq![123u8] + cat_lines(blocks[i]) + seq![125u8]
            },
    )
}

/// Interior lines only accumulate: the buffer grows by their text, nothing
/// is emitted, and the decoder does not finish.
proof fn lemma_run_interior(buf: Seq<u8>, block: Seq<Seq<u8>>)
    requires
        interior_ok(block),
    ensures
        run_lines(buf, false, block) == (buf + cat_lines(block), false, Seq::<Seq<u8>>::empty()),
    decreases block.len(),
{
    if block.len() == 0 {
        assert(buf + cat_lines(block) =~= buf);
    } else {
        let step = step_line(buf, false, block[0]);
        assert(step == (buf + block[0] + seq![10u8], false, None::<Seq<u8>>));
        lemma_run_interior(buf + block[0] + seq![10u8], block.drop_first());
        assert(buf + block[0] + seq![10u8] + cat_lines(block.drop_first()) =~= buf + cat_lines(
            block,
        ));
    }
}

/// Running the decoder over `s1 + s2` is running it over `s1` and then over
/// `s2` from where `s1` left it.
proof fn lemma_run_append(buf: Seq<u8>, done: bool, s1: Seq<Seq<u8>>, s2: Seq<Seq<u8>>)
    ensures
        ({
            let run1 = run_lines(buf, done, s1);
            let run2 = run_lines(run1.0, run1.1, s2);
            run_lines(buf, done, s1 + s2) == (run2.0, run2.1, run1.2 + run2.2)
        }),
    decreases s1.len(),
{
    let run1 = run_lines(buf, done, s1);
    let run2 = run_lines(run1.0, run1.1, s2);
    if s1.len() == 0 {
        assert(s1 + s2 =~= s2);
        assert(run1.2 + run2.2 =~= run2.2);
    } else {
        assert((s1 + s2)[0] == s1[0]);
        assert((s1 + s2).drop_first() =~= s1.drop_first() + s2);
        let step = step_line(buf, done, s1[0]);
        lemma_run_append(step.0, step.1, s1.drop_first(), s2);
        let rest1 = run_lines(step.0, step.1, s1.drop_first());
        let rest2 = run_lines(rest1.0, rest1.1, s2);
        match step.2 {
            Some(obj) => {
                assert(seq![obj] + (rest1.2 + rest2.2) =~= (seq![obj] + rest1.2) + rest2.2);
            },
            None => {},
        }
    }
}

/// The decoder over a whole log of well-formed objects: it finishes, leaves
/// nothing buffered, and emits exactly the framed object texts.
proof fn lemma_run_log(seed: Seq<u8>, blocks: Seq<Seq<Seq<u8>>>)
    requires
        blocks.len() >= 1,
        forall|i: int| 0 <= i < blocks.len() ==> interior_ok(#[trigger] blocks[i]),
    ensures
        run_lines(seed, false, log_lines(blocks)) == (
            Seq::<u8>::empty(),
            true,
            framed_objects(blocks, seed),
        ),
    decreases blocks.len(),
{
    reveal_with_fuel(run_lines, 3);
    let buf0 = seed + cat_lines(blocks[0]);
    lemma_run_interior(seed, blocks[0]);
    if blocks.len() == 1 {
        lemma_run_append(seed, false, blocks[0], seq![seq![125u8]]);
        let run2 = run_lines(buf0, false, seq![seq![125u8]]);
        assert(seq![seq![125u8]].drop_first() =~= Seq::<Seq<u8>>::empty());
        assert(run2 == (Seq::<u8>::empty(), true, seq![buf0.push(125u8)]));
        assert(Seq::<Seq<u8>>::empty() + seq![buf0.push(125u8)] =~= seq![buf0.push(125u8)]);
        assert(buf0.push(125u8) =~= seed + cat_lines(blocks[0]) + seq![125u8]);
        assert(run_lines(seed, false, log_lines(blocks)).2 =~= framed_objects(blocks, seed));
    } else {
        let bnd = seq![seq![125u8, 123u8]];
        let rest = log_lines(blocks.drop_first());
        assert(log_lines(blocks) =~= blocks[0] + (bnd + rest));
        lemma_run_append(seed, false, blocks[0], bnd + rest);
        lemma_run_append(buf0, false, bnd, rest);
        assert(bnd.drop_first() =~= Seq::<Seq<u8>>::empty());
        let run_b = run_lines(buf0, false, bnd);
        assert(run_b == (seq![123u8], false, seq![buf0.push(125u8)]));
        assert(forall|i: int|
            0 <= i < blocks.drop_first().len() ==> interior_ok(
                #[trigger] blocks.drop_first()[i],
            ));
        lemma_run_log(seq![123u8], blocks.drop_first());
        assert(run_lines(seed, false, log_lines(blocks)).2 == Seq::<Seq<u8>>::empty() + (
        seq![buf0.push(125u8)] + framed_objects(blocks.drop_first(), seq![123u8])));
        assert(buf0.push(125u8) =~= seed + cat_lines(blocks[0]) + seq![125u8]);
        assert(Seq::<Seq<u8>>::empty() + (seq![buf0.push(125u8)] + framed_objects(
            blocks.drop_first(),
            seq![123u8],
        )) =~= framed_objects(blocks, seed));
    }
}

/// Feeding the decoder a log of any number of objects, joined by `}{` lines
/// and terminated by a lone `}` line, yields exactly those objects' texts,
/// in their original order, and finishes the stream.
pub proof fn lemma_framing_recovers_each_object(blocks: Seq<Seq<Seq<u8>>>)
    requires
        blocks.len() >= 1,
        forall|i: int| 0 <= i < blocks.len() ==> interior_ok(#[trigger] blocks[i]),
    ensures
        ({
            let run = run_lines(Seq::<u8>::empty(), false, log_lines(blocks));
            &&& run.1
            &&& run.2.len() == blocks.len()
            &&& run.2[0] == cat_lines(blocks[0]) + seq![125u8]
            &&& forall|i: int|
                1 <= i < blocks.len() ==> run.2[i] == seq![123u8] + cat_lines(#[trigger] blocks[i])
                    + seq![125u8]
        }),
{
    lemma_run_log(Seq::<u8>::empty(), blocks);
    assert(Seq::<u8>::empty() + cat_lines(blocks[0]) + seq![125u8] =~= cat_lines(blocks[0])
        + seq![125u8]);
}

/// Running the decoder over `lines.push(line)` is running it over `lines`
/// and then stepping it once with `line`.
proof fn lemma_run_lines_snoc(buf: Seq<u8>, done: bool, lines: Seq<Seq<u8>>, line: Seq<u8>)
    ensures
        ({
            let run = run_lines(buf, done, lines);
            let step = step_line(run.0, run.1, line);
            run_lines(buf, done, lines.push(line)) == (
                step.0,
                step.1,
                match step.2 {
                    Some(obj) => run.2.push(obj),
                    None => run.2,
                },
            )
        }),
    decreases lines.len(),
{
    reveal_with_fuel(run_lines, 3);
    let run = run_lines(buf, done, lines);
    let step = step_line(run.0, run.1, line);
    if lines.len() == 0 {
        assert(lines.push(line)[0] == line);
        assert(lines.push(line).drop_first() =~= Seq::<Seq<u8>>::empty());
        assert(run_lines(step.0, step.1, lines.push(line).drop_first()) == (
            step.0,
            step.1,
            Seq::<Seq<u8>>::empty(),
        ));
        match step.2 {
            Some(obj) => {
                assert(run_lines(buf, done, lines.push(line)).2 =~= run.2.push(obj));
            },
            None => {},
        }
    } else {
        let first = step_line(buf, done, lines[0]);
        assert(lines.push(line)[0] == lines[0]);
        assert(lines.push(line).drop_first() =~= lines.drop_first().push(line));
        lemma_run_lines_snoc(first.0, first.1, lines.drop_first(), line);
        let runr = run_lines(first.0, first.1, lines.drop_first());
        let stepr = step_line(runr.0, runr.1, line);
        match first.2 {
            Some(obj0) => {
                match stepr.2 {
                    Some(obj) => {
                        assert((seq![obj0] + runr.2.push(obj)) =~= (seq![obj0] + runr.2).push(obj));
                    },
                    None => {},
                }
            },
            None => {},
        }
    }
}

} // verus!
