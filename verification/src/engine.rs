use vstd::prelude::*;

use crate::buffer::{CAPACITY, SourceBuffer, wrap_push};
use crate::filter::{Filter, regex_match, regex_ok};
use crate::source::{Source, TryRead};
use crate::string::{ColoredString, Style, plain_model, styled_model, unstyled_model};

verus! {

/// How many lines the display sink may accumulate before the engine
/// proactively resets it.
pub const DISPLAY_LIMIT: usize = 2048;

/// Render policy, chosen at startup and fixed for the session.
#[derive(Clone, Copy, PartialEq, Eq, Structural, Debug)]
pub enum Mode {
    RetainColors,
    RemoveColors,
    SkipColorCheck,
}

/// A filter-change command submitted from the display side.
#[derive(PartialEq, Eq, Debug)]
pub enum Command {
    SetFilter(String),
    ClearFilter,
}

/// One display operation, to be applied by the display sink in exactly
/// the order issued.
#[derive(PartialEq, Eq, Debug)]
pub enum DisplayOp {
    Append(ColoredString),
    Reset,
}

/// Spec-level image of a display operation.
pub enum OpModel {
    Append(Seq<(Seq<char>, Option<Style>)>),
    Reset,
}

impl View for DisplayOp {
    type V = OpModel;

    open spec fn view(&self) -> OpModel {
        match self {
            DisplayOp::Append(cs) => OpModel::Append(cs@),
            DisplayOp::Reset => OpModel::Reset,
        }
    }
}

pub open spec fn ops_model(ops: Seq<DisplayOp>) -> Seq<OpModel> {
    ops.map_values(|op: DisplayOp| op@)
}

/// Whether a line passes the filter state; no filter passes everything.
pub open spec fn passes(filter: Option<Seq<char>>, line: Seq<char>) -> bool {
    match filter {
        None => true,
        Some(p) => regex_match(p, line),
    }
}

/// The spans a render policy produces for one line.
pub open spec fn render_model(mode: Mode, line: Seq<char>) -> Seq<(Seq<char>, Option<Style>)> {
    match mode {
        Mode::RetainColors => styled_model(line),
        Mode::RemoveColors => plain_model(line),
        Mode::SkipColorCheck => unstyled_model(line),
    }
}

/// The operations a full replay issues: one reset, then every retained
/// line that passes the filter, rendered, in original order.
pub open spec fn replay_ops(
    contents: Seq<Seq<char>>,
    filter: Option<Seq<char>>,
    mode: Mode,
) -> Seq<OpModel> {
    seq![OpModel::Reset] + contents.filter(|l: Seq<char>| passes(filter, l)).map_values(
        |l: Seq<char>| OpModel::Append(render_model(mode, l)),
    )
}

/// The operations one freshly ingested line causes: nothing when the
/// filter rejects it; otherwise its rendered append, preceded by a reset
/// when the display counter has reached the limit.
pub open spec fn ingest_ops(
    counter: int,
    filter: Option<Seq<char>>,
    mode: Mode,
    line: Seq<char>,
) -> Seq<OpModel> {
    if passes(filter, line) {
        if counter >= DISPLAY_LIMIT {
            seq![OpModel::Reset, OpModel::Append(render_model(mode, line))]
        } else {
            seq![OpModel::Append(render_model(mode, line))]
        }
    } else {
        seq![]
    }
}

/// The display counter after one freshly ingested line.
pub open spec fn ingest_counter(counter: int, filter: Option<Seq<char>>, line: Seq<char>) -> int {
    if passes(filter, line) {
        if counter >= DISPLAY_LIMIT {
            1
        } else {
            counter + 1
        }
    } else {
        counter
    }
}

fn render(mode: Mode, line: &str) -> (r: ColoredString)
    ensures
        r@ == render_model(mode, line@),
{
    match mode {
        Mode::RetainColors => ColoredString::styled(line),
        Mode::RemoveColors => ColoredString::plain(line),
        Mode::SkipColorCheck => ColoredString::unstyled(line),
    }
}

proof fn lemma_filter_empty(pred: spec_fn(Seq<char>) -> bool)
    ensures
        Seq::<Seq<char>>::empty().filter(pred) == Seq::<Seq<char>>::empty(),
{
    reveal(Seq::filter);
}

proof fn lemma_filter_push(s: Seq<Seq<char>>, pred: spec_fn(Seq<char>) -> bool, x: Seq<char>)
    ensures
        s.push(x).filter(pred) == if pred(x) {
            s.filter(pred).push(x)
        } else {
            s.filter(pred)
        },
{
    reveal(Seq::filter);
    assert(s.push(x).drop_last() =~= s);
}

/// The filter-and-dispatch engine: it owns the retained history, the
/// filter state and the display counter, and turns ingested lines and
/// filter commands into an ordered stream of display operations.
pub struct Engine<T> {
    buffer: SourceBuffer<T>,
    filter: Option<Filter>,
    counter: usize,
    mode: Mode,
}

impl<T: TryRead<String>> Engine<T> {
    /// The retained lines, oldest first.
    pub closed spec fn contents(&self) -> Seq<Seq<char>> {
        self.buffer.contents()
    }

    /// The pattern of the active filter, if one is set.
    pub closed spec fn filter_state(&self) -> Option<Seq<char>> {
        match self.filter {
            Some(f) => Some(f@),
            None => None,
        }
    }

    /// Lines shown since the display sink was last reset.
    pub closed spec fn counter_val(&self) -> int {
        self.counter as int
    }

    /// The fixed render policy.
    pub closed spec fn policy(&self) -> Mode {
        self.mode
    }

    pub open spec fn wf(&self) -> bool {
        &&& self.contents().len() <= CAPACITY
        &&& self.counter_val() <= DISPLAY_LIMIT
    }

    pub fn new(source: Source<T>, mode: Mode) -> (r: Engine<T>)
        ensures
            r.wf(),
            r.contents() == Seq::<Seq<char>>::empty(),
            r.filter_state() is None,
            r.counter_val() == 0,
            r.policy() == mode,
    {
        Engine { buffer: SourceBuffer::new(source), filter: None, counter: 0, mode }
    }

    /// One steady-state cycle: poll the source through the history
    /// buffer; when a line arrived, retain it and, if it passes the
    /// filter, dispatch its rendering, guarding the display counter. The
    /// line read, if any, is returned beside the issued operations.
    pub fn poll(&mut self) -> (r: (Option<String>, Vec<DisplayOp>))
        requires
            old(self).wf(),
        ensures
            final(self).wf(),
            final(self).filter_state() == old(self).filter_state(),
            final(self).policy() == old(self).policy(),
            match r.0 {
                None => {
                    &&& final(self).contents() == old(self).contents()
                    &&& final(self).counter_val() == old(self).counter_val()
                    &&& r.1@.len() == 0
                },
                Some(line) => {
                    &&& final(self).contents() == wrap_push(old(self).contents(), line@)
                    &&& final(self).counter_val() == ingest_counter(
                        old(self).counter_val(),
                        old(self).filter_state(),
                        line@,
                    )
                    &&& ops_model(r.1@) == ingest_ops(
                        old(self).counter_val(),
                        old(self).filter_state(),
                        old(self).policy(),
                        line@,
                    )
                },
            },
    {
        let line = self.buffer.update();
        match line {
            Some(l) => {
                let mut ops: Vec<DisplayOp> = Vec::new();
                let pass = match &self.filter {
                    Some(f) => f.is_match(l.as_str()),
                    None => true,
                };
                if pass {
                    if self.counter >= DISPLAY_LIMIT {
                        ops.push(DisplayOp::Reset);
                        self.counter = 0;
                    }
                    let mode = self.mode;
                    let rendered = render(mode, l.as_str());
                    ops.push(DisplayOp::Append(rendered));
                    self.counter = self.counter + 1;
                }
                proof {
                    assert(ops_model(ops@) =~= ingest_ops(
                        old(self).counter_val(),
                        old(self).filter_state(),
                        old(self).policy(),
                        l@,
                    ));
                }
                (Some(l), ops)
            },
            None => (None, Vec::new()),
        }
    }

    /// Reset the display and re-dispatch every retained line that passes
    /// the current filter, in original order.
    fn replay(&mut self) -> (ops: Vec<DisplayOp>)
        requires
            old(self).wf(),
        ensures
            final(self).wf(),
            final(self).contents() == old(self).contents(),
            final(self).filter_state() == old(self).filter_state(),
            final(self).policy() == old(self).policy(),
            ops_model(ops@) == replay_ops(
                old(self).contents(),
                old(self).filter_state(),
                old(self).policy(),
            ),
            final(self).counter_val() == old(self).contents().filter(
                |l: Seq<char>| passes(old(self).filter_state(), l),
            ).len(),
    {
        let ghost lines = old(self).contents();
        let ghost fstate = old(self).filter_state();
        let ghost pol = old(self).policy();
        let ghost pred = |l: Seq<char>| passes(fstate, l);
        let ghost appmap = |l: Seq<char>| OpModel::Append(render_model(pol, l));
        let snapshot = self.buffer.iter();
        let mut ops: Vec<DisplayOp> = Vec::new();
        ops.push(DisplayOp::Reset);
        self.counter = 0;
        let n = snapshot.len();
        let mut k: usize = 0;
        proof {
            lemma_filter_empty(pred);
            assert(lines.subrange(0, 0) =~= Seq::<Seq<char>>::empty());
            assert(ops_model(ops@) =~= seq![OpModel::Reset] + lines.subrange(0, 0).filter(
                pred,
            ).map_values(appmap));
        }
        while k < n
            invariant
                k <= n,
                n == snapshot@.len(),
                snapshot@.map_values(|s: String| s@) == lines,
                lines.len() <= CAPACITY,
                self.contents() == lines,
                self.filter_state() == fstate,
                self.policy() == pol,
                pred == (|l: Seq<char>| passes(fstate, l)),
                appmap == (|l: Seq<char>| OpModel::Append(render_model(pol, l))),
                self.counter as int == lines.subrange(0, k as int).filter(pred).len(),
                ops_model(ops@) == seq![OpModel::Reset] + lines.subrange(0, k as int).filter(
                    pred,
                ).map_values(appmap),
            decreases n - k,
        {
            proof {
                assert(snapshot@.map_values(|s: String| s@)[k as int] == snapshot@[k as int]@);
                lines.subrange(0, k as int).lemma_filter_len(pred);
                assert(lines.subrange(0, k + 1) =~= lines.subrange(0, k as int).push(
                    lines[k as int],
                ));
                lemma_filter_push(lines.subrange(0, k as int), pred, lines[k as int]);
            }
            let line = &snapshot[k];
            let pass = match &self.filter {
                Some(f) => f.is_match(line.as_str()),
                None => true,
            };
            if pass {
                let mode = self.mode;
                let rendered = render(mode, line.as_str());
                let ghost pre_ops = ops_model(ops@);
                ops.push(DisplayOp::Append(rendered));
                self.counter = self.counter + 1;
                proof {
                    assert(ops_model(ops@) =~= pre_ops.push(OpModel::Append(render_model(
                        pol,
                        lines[k as int],
                    ))));
                    assert(ops_model(ops@) =~= seq![OpModel::Reset] + lines.subrange(
                        0,
                        k + 1,
                    ).filter(pred).map_values(appmap));
                }
            } else {
                proof {
                    assert(lines.subrange(0, k + 1).filter(pred) == lines.subrange(
                        0,
                        k as int,
                    ).filter(pred));
                }
            }
            k = k + 1;
        }
        proof {
            assert(lines.subrange(0, n as int) =~= lines);
            lines.lemma_filter_len(pred);
        }
        ops
    }

    /// Apply one filter command. A successful compilation (or a clear)
    /// replaces the filter state, resets the display and replays the
    /// whole retained history through the new state; a pattern that does
    /// not compile changes nothing and only reports the error.
    pub fn apply_command(&mut self, cmd: Command) -> (r: (Vec<DisplayOp>, Option<String>))
        requires
            old(self).wf(),
        ensures
            final(self).wf(),
            final(self).contents() == old(self).contents(),
            final(self).policy() == old(self).policy(),
            match cmd {
                Command::ClearFilter => {
                    &&& final(self).filter_state() is None
                    &&& ops_model(r.0@) == replay_ops(
                        old(self).contents(),
                        None,
                        old(self).policy(),
                    )
                    &&& final(self).counter_val() == old(self).contents().filter(
                        |l: Seq<char>| passes(None, l),
                    ).len()
                    &&& r.1 is None
                },
                Command::SetFilter(text) => if regex_ok(text@) {
                    &&& final(self).filter_state() == Some(text@)
                    &&& ops_model(r.0@) == replay_ops(
                        old(self).contents(),
                        Some(text@),
                        old(self).policy(),
                    )
                    &&& final(self).counter_val() == old(self).contents().filter(
                        |l: Seq<char>| passes(Some(text@), l),
                    ).len()
                    &&& r.1 is None
                } else {
                    &&& final(self).filter_state() == old(self).filter_state()
                    &&& final(self).counter_val() == old(self).counter_val()
                    &&& r.0@.len() == 0
                    &&& r.1 is Some
                },
            },
    {
        match cmd {
            Command::ClearFilter => {
                self.filter = None;
                let ops = self.replay();
                (ops, None)
            },
            Command::SetFilter(text) => {
                match Filter::new(text.as_str()) {
                    Ok(f) => {
                        self.filter = Some(f);
                        let ops = self.replay();
                        (ops, None)
                    },
                    Err(msg) => (Vec::new(), Some(msg)),
                }
            },
        }
    }
}

/// Filter replay determinism: the operations a replay issues are a pure
/// function of the retained lines and the filter state: one reset first,
/// then exactly the retained lines the filter passes, in their original
/// order, each rendered by the fixed policy. Reissuing the same filter
/// over the same contents therefore dispatches exactly the same ordered
/// subsequence every time.
pub proof fn lemma_replay_deterministic(
    contents: Seq<Seq<char>>,
    filter: Option<Seq<char>>,
    mode: Mode,
)
    ensures
        replay_ops(contents, filter, mode).len() == 1 + contents.filter(
            |l: Seq<char>| passes(filter, l),
        ).len(),
        replay_ops(contents, filter, mode)[0] == OpModel::Reset,
        forall|i: int|
            0 <= i < contents.filter(|l: Seq<char>| passes(filter, l)).len()
                ==> #[trigger] replay_ops(contents, filter, mode)[i + 1] == OpModel::Append(
                render_model(mode, contents.filter(|l: Seq<char>| passes(filter, l))[i]),
            ),
{
    let matching = contents.filter(|l: Seq<char>| passes(filter, l));
    let appended = matching.map_values(|l: Seq<char>| OpModel::Append(render_model(mode, l)));
    assert forall|i: int| 0 <= i < matching.len() implies #[trigger] replay_ops(
        contents,
        filter,
        mode,
    )[i + 1] == OpModel::Append(render_model(mode, matching[i])) by {
        assert(replay_ops(contents, filter, mode)[i + 1] == appended[i]);
    }
}

/// The operations issued along a run of consecutively ingested lines,
/// with the filter unchanged throughout.
pub open spec fn run_ops(
    counter: int,
    filter: Option<Seq<char>>,
    mode: Mode,
    lines: Seq<Seq<char>>,
) -> Seq<OpModel>
    decreases lines.len(),
{
    if lines.len() == 0 {
        Seq::empty()
    } else {
        ingest_ops(counter, filter, mode, lines[0]) + run_ops(
            ingest_counter(counter, filter, lines[0]),
            filter,
            mode,
            lines.drop_first(),
        )
    }
}

/// Display counter bound: along any run of dispatched lines long enough
/// to carry the counter past the limit, with no filter change, the
/// engine issues a reset before the append that would pass the limit:
/// with the counter starting at `c`, the first `2048 - c` operations are
/// appends, the next is a reset, and an append follows immediately. In
/// particular, over 2049 dispatched lines from a fresh display, at least
/// one reset is issued before the 2049th append.
pub proof fn lemma_display_counter_bound(
    c: int,
    filter: Option<Seq<char>>,
    mode: Mode,
    lines: Seq<Seq<char>>,
)
    requires
        0 <= c <= DISPLAY_LIMIT,
        c + lines.len() > DISPLAY_LIMIT,
        forall|k: int| 0 <= k < lines.len() ==> passes(filter, #[trigger] lines[k]),
    ensures
        run_ops(c, filter, mode, lines).len() >= DISPLAY_LIMIT + 2 - c,
        forall|j: int|
            0 <= j < DISPLAY_LIMIT - c ==> #[trigger] run_ops(c, filter, mode, lines)[j]
                is Append,
        run_ops(c, filter, mode, lines)[DISPLAY_LIMIT - c] is Reset,
        run_ops(c, filter, mode, lines)[DISPLAY_LIMIT + 1 - c] is Append,
    decreases lines.len(),
{
    let ops = run_ops(c, filter, mode, lines);
    let first = ingest_ops(c, filter, mode, lines[0]);
    let next = ingest_counter(c, filter, lines[0]);
    let rest = run_ops(next, filter, mode, lines.drop_first());
    assert(passes(filter, lines[0]));
    assert(ops == first + rest);
    if c == DISPLAY_LIMIT {
        assert(first == seq![
            OpModel::Reset,
            OpModel::Append(render_model(mode, lines[0])),
        ]);
        assert(ops[0] is Reset);
        assert(ops[1] is Append);
    } else {
        assert(first == seq![OpModel::Append(render_model(mode, lines[0]))]);
        assert(next == c + 1);
        assert forall|k: int| 0 <= k < lines.drop_first().len() implies passes(
            filter,
            #[trigger] lines.drop_first()[k],
        ) by {
            assert(lines.drop_first()[k] == lines[k + 1]);
        }
        lemma_display_counter_bound(c + 1, filter, mode, lines.drop_first());
        assert forall|j: int| 0 <= j < DISPLAY_LIMIT - c implies #[trigger] ops[j]
            is Append by {
            if j == 0 {
                assert(ops[0] == first[0]);
            } else {
                assert(ops[j] == rest[j - 1]);
            }
        }
        assert(ops[DISPLAY_LIMIT - c] == rest[DISPLAY_LIMIT - (c + 1)]);
        assert(ops[DISPLAY_LIMIT + 1 - c] == rest[DISPLAY_LIMIT + 1 - (c + 1)]);
    }
}

} // verus!
