//! The record filter: an event-driven state machine that buffers each pair
//! of record elements until its keep-or-drop decision is final, drops the
//! pair when a stimulus name in it contains an exclusion word, and forwards
//! everything else in order.

use vstd::prelude::*;
use crate::escape::{unescape_text, unescaped};
use crate::events::{
    collection_name, events_view, is_sound_or_img_tag, record_name, spec_is_sound_or_img,
    words_view, Event, SpecEvent,
};
use crate::text::str_eq;
use crate::words::{spec_matches_any, text_matches_any};

verus! {

/// Why processing a document failed. Every error is fatal for the document:
/// no partial output is valid.
#[derive(Clone, Copy, PartialEq, Eq, Debug)]
pub enum ProcessError {
    /// A stimulus sub-element start was not followed directly by its text.
    ExpectedTextAfterTag,
    /// The event stream ended while the record collection was still open.
    TruncatedDocument,
    /// A stimulus text held a malformed entity reference.
    InvalidEscape,
}

/// Where the machine stands in the document.
#[derive(Clone, Copy, PartialEq, Eq, Debug)]
pub enum Mode {
    /// Outside the record collection: every event passes through.
    Outside,
    /// Inside the record collection, between sub-elements.
    Inside,
    /// Directly after a stimulus start: the next event must be its text.
    AwaitText,
}

/// The mathematical state of the record filter.
#[verifier::ext_equal]
pub struct FilterModel {
    /// Where the machine stands.
    pub mode: Mode,
    /// The events buffered for the still-undecided record pair.
    pub pending: Seq<SpecEvent>,
    /// Whether the current record pair is to be dropped.
    pub excluding: bool,
    /// How many record starts have been seen in the collection.
    pub starts: nat,
    /// The exclusion words.
    pub words: Seq<Seq<char>>,
}

/// The state of a fresh filter.
pub open spec fn init_model(words: Seq<Seq<char>>) -> FilterModel {
    FilterModel { mode: Mode::Outside, pending: seq![], excluding: false, starts: 0, words }
}

/// One step outside the record collection: pass the event through; a start
/// of the collection element opens a fresh filtering run.
pub open spec fn step_outside(m: FilterModel, ev: SpecEvent) -> (FilterModel, Seq<SpecEvent>) {
    if ev matches SpecEvent::Start { name, .. } && name == collection_name() {
        (
            FilterModel { mode: Mode::Inside, pending: seq![], excluding: false, starts: 0, ..m },
            seq![ev],
        )
    } else {
        (m, seq![ev])
    }
}

/// One step inside the record collection. A record start is counted and
/// buffered; a record end resolves on even parity, flushing or dropping the
/// whole buffer; the collection end passes through and closes the run, the
/// buffer with it; while excluding, everything else is discarded.
pub open spec fn step_inside(m: FilterModel, ev: SpecEvent) -> (FilterModel, Seq<SpecEvent>) {
    if ev matches SpecEvent::Start { name, .. } && name == record_name() {
        (FilterModel { pending: m.pending.push(ev), starts: m.starts + 1, ..m }, seq![])
    } else if ev matches SpecEvent::Start { name, .. } && spec_is_sound_or_img(name)
        && !m.excluding {
        (FilterModel { mode: Mode::AwaitText, pending: m.pending.push(ev), ..m }, seq![])
    } else if ev matches SpecEvent::End { name } && name == record_name() {
        if m.starts % 2 == 1 {
            (FilterModel { pending: m.pending.push(ev), ..m }, seq![])
        } else if m.excluding {
            (FilterModel { pending: seq![], excluding: false, ..m }, seq![])
        } else {
            (FilterModel { pending: seq![], excluding: false, ..m }, m.pending.push(ev))
        }
    } else if ev matches SpecEvent::End { name } && name == collection_name() {
        (FilterModel { mode: Mode::Outside, pending: seq![], ..m }, seq![ev])
    } else if !m.excluding {
        (FilterModel { pending: m.pending.push(ev), ..m }, seq![])
    } else {
        (m, seq![])
    }
}

/// One step directly after a stimulus start. Only text may follow; with a
/// nonempty word list the text is unescaped and matched, and a match turns
/// the machine to excluding and drops the text from the buffer.
pub open spec fn step_await(m: FilterModel, ev: SpecEvent) -> Result<
    (FilterModel, Seq<SpecEvent>),
    ProcessError,
> {
    match ev {
        SpecEvent::Text { content } => if m.words.len() == 0 {
            Ok((FilterModel { mode: Mode::Inside, pending: m.pending.push(ev), ..m }, seq![]))
        } else {
            match unescaped(content) {
                Option::None => Err(ProcessError::InvalidEscape),
                Option::Some(u) => if spec_matches_any(u, m.words) {
                    Ok((FilterModel { mode: Mode::Inside, excluding: true, ..m }, seq![]))
                } else {
                    Ok(
                        (
                            FilterModel { mode: Mode::Inside, pending: m.pending.push(ev), ..m },
                            seq![],
                        ),
                    )
                },
            }
        },
        _ => Err(ProcessError::ExpectedTextAfterTag),
    }
}

/// One step of the filter on one event: the new state and the events that
/// become final for output, or the error that ends the document.
pub open spec fn spec_step(m: FilterModel, ev: SpecEvent) -> Result<
    (FilterModel, Seq<SpecEvent>),
    ProcessError,
> {
    match m.mode {
        Mode::Outside => Ok(step_outside(m, ev)),
        Mode::Inside => Ok(step_inside(m, ev)),
        Mode::AwaitText => step_await(m, ev),
    }
}

/// The filter run over a whole sequence of events: the final state and
/// everything emitted, or the first error.
pub open spec fn run_steps(m: FilterModel, evs: Seq<SpecEvent>) -> Result<
    (FilterModel, Seq<SpecEvent>),
    ProcessError,
>
    decreases evs.len(),
{
    if evs.len() == 0 {
        Ok((m, seq![]))
    } else {
        match spec_step(m, evs[0]) {
            Err(e) => Err(e),
            Ok((m1, out1)) => match run_steps(m1, evs.skip(1)) {
                Err(e) => Err(e),
                Ok((m2, out2)) => Ok((m2, out1 + out2)),
            },
        }
    }
}

/// What processing a whole document yields: the emitted events when the
/// stream ends outside the record collection, the fitting error when it
/// ends inside one.
pub open spec fn spec_process(evs: Seq<SpecEvent>, words: Seq<Seq<char>>) -> Result<
    Seq<SpecEvent>,
    ProcessError,
> {
    match run_steps(init_model(words), evs) {
        Err(e) => Err(e),
        Ok((m, out)) => match m.mode {
            Mode::Outside => Ok(out),
            Mode::Inside => Err(ProcessError::TruncatedDocument),
            Mode::AwaitText => Err(ProcessError::ExpectedTextAfterTag),
        },
    }
}

/// The record filter for one document. It consumes one event at a time and
/// hands back the events whose fate is decided; all per-document state
/// lives in its fields and none survives into the next document.
pub struct RecordFilter {
    exclude_words: Vec<String>,
    pending: Vec<Event>,
    mode: Mode,
    excluding: bool,
    starts: u64,
}

impl View for RecordFilter {
    type V = FilterModel;

    closed spec fn view(&self) -> FilterModel {
        FilterModel {
            mode: self.mode,
            pending: events_view(self.pending@),
            excluding: self.excluding,
            starts: self.starts as nat,
            words: words_view(self.exclude_words@),
        }
    }
}

impl RecordFilter {
    /// A fresh filter for one document, holding its exclusion words.
    pub fn new(exclude_words: Vec<String>) -> (f: RecordFilter)
        ensures
            f@ == init_model(words_view(exclude_words@)),
    {
        let f = RecordFilter {
            exclude_words,
            pending: Vec::new(),
            mode: Mode::Outside,
            excluding: false,
            starts: 0,
        };
        proof {
            assert(f@ =~= init_model(words_view(f.exclude_words@)));
        }
        f
    }

    /// Feed one event to the filter. The returned events are final output;
    /// an error ends the document, and the filter is left as it was.
    pub fn step(&mut self, ev: Event) -> (r: Result<Vec<Event>, ProcessError>)
        requires
            old(self)@.starts < u64::MAX,
        ensures
            spec_step(old(self)@, ev@) matches Ok(so) ==> (r matches Ok(v) && final(self)@ == so.0
                && events_view(v@) == so.1),
            spec_step(old(self)@, ev@) matches Err(e) ==> r == Err::<Vec<Event>, _>(e)
                && final(self)@ == old(self)@,
    {
        let ghost m0 = self@;
        match self.mode {
            Mode::Outside => {
                let opens = match &ev {
                    Event::Start { name, .. } => str_eq(name.as_str(), "tags"),
                    _ => false,
                };
                if opens {
                    self.mode = Mode::Inside;
                    self.pending = Vec::new();
                    self.excluding = false;
                    self.starts = 0;
                }
                let ghost evv = ev@;
                let mut out: Vec<Event> = Vec::new();
                out.push(ev);
                proof {
                    assert(events_view(out@) =~= seq![evv]);
                    assert(self@ =~= step_outside(m0, evv).0);
                }
                Ok(out)
            },
            Mode::Inside => {
                let ghost evv = ev@;
                let flags: (bool, bool, bool, bool) = match &ev {
                    Event::Start { name, .. } => (
                        str_eq(name.as_str(), "tag"),
                        is_sound_or_img_tag(name.as_str()),
                        false,
                        false,
                    ),
                    Event::End { name } => (
                        false,
                        false,
                        str_eq(name.as_str(), "tag"),
                        str_eq(name.as_str(), "tags"),
                    ),
                    _ => (false, false, false, false),
                };
                {
                    if flags.0 {
                        let ghost oldp = events_view(self.pending@);
                        self.starts = self.starts + 1;
                        self.pending.push(ev);
                        proof {
                            assert(events_view(self.pending@) =~= oldp.push(evv));
                            assert(self@ =~= step_inside(m0, evv).0);
                            assert(events_view(Seq::<Event>::empty()) =~= Seq::<
                                SpecEvent,
                            >::empty());
                        }
                        Ok(Vec::new())
                    } else if flags.1 && !self.excluding {
                        let ghost oldp = events_view(self.pending@);
                        self.mode = Mode::AwaitText;
                        self.pending.push(ev);
                        proof {
                            assert(events_view(self.pending@) =~= oldp.push(evv));
                            assert(self@ =~= step_inside(m0, evv).0);
                            assert(events_view(Seq::<Event>::empty()) =~= Seq::<
                                SpecEvent,
                            >::empty());
                        }
                        Ok(Vec::new())
                    } else if flags.2 {
                        if self.starts % 2 == 1 {
                            let ghost oldp = events_view(self.pending@);
                            self.pending.push(ev);
                            proof {
                                assert(events_view(self.pending@) =~= oldp.push(evv));
                                assert(self@ =~= step_inside(m0, evv).0);
                                assert(events_view(Seq::<Event>::empty()) =~= Seq::<
                                    SpecEvent,
                                >::empty());
                            }
                            Ok(Vec::new())
                        } else if self.excluding {
                            self.pending = Vec::new();
                            self.excluding = false;
                            proof {
                                assert(events_view(Seq::<Event>::empty()) =~= Seq::<
                                    SpecEvent,
                                >::empty());
                                assert(self@ =~= step_inside(m0, evv).0);
                            }
                            Ok(Vec::new())
                        } else {
                            let ghost oldp = events_view(self.pending@);
                            let mut out: Vec<Event> = Vec::new();
                            core::mem::swap(&mut out, &mut self.pending);
                            out.push(ev);
                            proof {
                                assert(events_view(out@) =~= oldp.push(evv));
                                assert(events_view(Seq::<Event>::empty()) =~= Seq::<
                                    SpecEvent,
                                >::empty());
                                assert(self@ =~= step_inside(m0, evv).0);
                            }
                            Ok(out)
                        }
                    } else if flags.3 {
                        self.mode = Mode::Outside;
                        self.pending = Vec::new();
                        let mut out: Vec<Event> = Vec::new();
                        out.push(ev);
                        proof {
                            assert(events_view(out@) =~= seq![evv]);
                            assert(events_view(Seq::<Event>::empty()) =~= Seq::<
                                SpecEvent,
                            >::empty());
                            assert(self@ =~= step_inside(m0, evv).0);
                        }
                        Ok(out)
                    } else {
                        if !self.excluding {
                            let ghost oldp = events_view(self.pending@);
                            self.pending.push(ev);
                            proof {
                                assert(events_view(self.pending@) =~= oldp.push(evv));
                                assert(self@ =~= step_inside(m0, evv).0);
                                assert(events_view(Seq::<Event>::empty()) =~= Seq::<
                                    SpecEvent,
                                >::empty());
                            }
                            Ok(Vec::new())
                        } else {
                            proof {
                                assert(self@ =~= step_inside(m0, evv).0);
                                assert(events_view(Seq::<Event>::empty()) =~= Seq::<
                                    SpecEvent,
                                >::empty());
                            }
                            Ok(Vec::new())
                        }
                    }
                }
            },
            Mode::AwaitText => {
                let ghost evv = ev@;
                let is_text = match &ev {
                    Event::Text { .. } => true,
                    _ => false,
                };
                if !is_text {
                    return Err(ProcessError::ExpectedTextAfterTag);
                }
                if self.exclude_words.len() == 0 {
                    let ghost oldp = events_view(self.pending@);
                    self.mode = Mode::Inside;
                    self.pending.push(ev);
                    proof {
                        assert(events_view(self.pending@) =~= oldp.push(evv));
                        assert(self@ =~= step_await(m0, evv)->Ok_0.0);
                        assert(events_view(Seq::<Event>::empty()) =~= Seq::<SpecEvent>::empty());
                    }
                    return Ok(Vec::new());
                }
                let unescape_result = match &ev {
                    Event::Text { content } => unescape_text(content.as_str()),
                    _ => None,
                };
                match unescape_result {
                    None => Err(ProcessError::InvalidEscape),
                    Some(u) => {
                        if text_matches_any(u.as_str(), &self.exclude_words) {
                            self.mode = Mode::Inside;
                            self.excluding = true;
                            proof {
                                assert(self@ =~= step_await(m0, evv)->Ok_0.0);
                                assert(events_view(Seq::<Event>::empty()) =~= Seq::<
                                    SpecEvent,
                                >::empty());
                            }
                            Ok(Vec::new())
                        } else {
                            let ghost oldp = events_view(self.pending@);
                            self.mode = Mode::Inside;
                            self.pending.push(ev);
                            proof {
                                assert(events_view(self.pending@) =~= oldp.push(evv));
                                assert(self@ =~= step_await(m0, evv)->Ok_0.0);
                                assert(events_view(Seq::<Event>::empty()) =~= Seq::<
                                    SpecEvent,
                                >::empty());
                            }
                            Ok(Vec::new())
                        }
                    },
                }
            },
        }
    }

    /// After the last event: `Ok` when the document closed the record
    /// collection, the fitting error when the stream ended inside it.
    pub fn finish(&self) -> (r: Result<(), ProcessError>)
        ensures
            self@.mode is Outside ==> r is Ok,
            self@.mode is Inside ==> r == Err::<(), _>(ProcessError::TruncatedDocument),
            self@.mode is AwaitText ==> r == Err::<(), _>(ProcessError::ExpectedTextAfterTag),
    {
        match self.mode {
            Mode::Outside => Ok(()),
            Mode::Inside => Err(ProcessError::TruncatedDocument),
            Mode::AwaitText => Err(ProcessError::ExpectedTextAfterTag),
        }
    }
}

/// Splitting a run of the filter at any point composes: running on `a + b`
/// is running on `a`, then on `b` from where `a` left off.
pub proof fn lemma_run_steps_app(m: FilterModel, a: Seq<SpecEvent>, b: Seq<SpecEvent>)
    ensures
        run_steps(m, a + b) == (match run_steps(m, a) {
            Err(e) => Err::<(FilterModel, Seq<SpecEvent>), ProcessError>(e),
            Ok((m1, o1)) => match run_steps(m1, b) {
                Err(e) => Err(e),
                Ok((m2, o2)) => Ok((m2, o1 + o2)),
            },
        }),
    decreases a.len(),
{
    if a.len() == 0 {
        assert(a + b =~= b);
        match run_steps(m, b) {
            Ok((m2, o2)) => {
                assert(Seq::<SpecEvent>::empty() + o2 =~= o2);
            },
            Err(_) => {},
        }
    } else {
        assert((a + b)[0] == a[0]);
        match spec_step(m, a[0]) {
            Err(_) => {},
            Ok((m1, o1)) => {
                assert((a + b).skip(1) =~= a.skip(1) + b);
                lemma_run_steps_app(m1, a.skip(1), b);
                match run_steps(m1, a.skip(1)) {
                    Err(_) => {},
                    Ok((ma, oa)) => {
                        match run_steps(ma, b) {
                            Err(_) => {},
                            Ok((mb, ob)) => {
                                assert(o1 + (oa + ob) =~= (o1 + oa) + ob);
                            },
                        }
                    },
                }
            },
        }
    }
}

/// Run the whole document through a fresh filter: the kept events in
/// order, or the error on which processing stopped.
pub fn process_xml(events: &Vec<Event>, exclude_words: Vec<String>) -> (r: Result<
    Vec<Event>,
    ProcessError,
>)
    ensures
        spec_process(events_view(events@), words_view(exclude_words@)) matches Ok(out) ==> (r
            matches Ok(v) && events_view(v@) == out),
        spec_process(events_view(events@), words_view(exclude_words@)) matches Err(e) ==> r == Err::<
            Vec<Event>,
            _,
        >(e),
{
    let ghost words = words_view(exclude_words@);
    let ghost all = events_view(events@);
    let mut filter = RecordFilter::new(exclude_words);
    let mut out: Vec<Event> = Vec::new();
    let mut i: usize = 0;
    proof {
        assert(all.take(0) =~= Seq::<SpecEvent>::empty());
        assert(events_view(out@) =~= Seq::<SpecEvent>::empty());
    }
    while i < events.len()
        invariant
            i <= events@.len(),
            all == events_view(events@),
            words == words_view(exclude_words@),
            filter@.starts <= i,
            run_steps(init_model(words), all.take(i as int)) == Ok::<_, ProcessError>(
                (filter@, events_view(out@)),
            ),
        decreases events@.len() - i,
    {
        let ev = events[i].dup();
        let ghost evv = ev@;
        proof {
            lemma_run_steps_app(init_model(words), all.take(i as int), seq![evv]);
            assert(all.take(i as int) + seq![evv] =~= all.take(i + 1));
            assert(seq![evv].skip(1) =~= Seq::<SpecEvent>::empty());
            assert(seq![evv][0] == evv);
        }
        let ghost m_before = filter@;
        let ghost out_before = events_view(out@);
        match filter.step(ev) {
            Ok(mut emitted) => {
                let ghost emv = events_view(emitted@);
                out.append(&mut emitted);
                proof {
                    match spec_step(m_before, evv) {
                        Ok((m2, o2)) => {
                            assert(filter@ == m2 && emv == o2);
                            assert(m2.starts <= m_before.starts + 1);
                            assert(run_steps(m2, seq![evv].skip(1)) == Ok::<_, ProcessError>(
                                (m2, Seq::<SpecEvent>::empty()),
                            ));
                            assert(run_steps(m_before, seq![evv]) == Ok::<_, ProcessError>(
                                (m2, o2 + Seq::<SpecEvent>::empty()),
                            ));
                            assert(o2 + Seq::<SpecEvent>::empty() =~= o2);
                            assert(events_view(out@) =~= out_before + o2);
                            assert(run_steps(init_model(words), all.take(i + 1)) == Ok::<
                                _,
                                ProcessError,
                            >((filter@, events_view(out@))));
                        },
                        Err(_) => {},
                    }
                }
            },
            Err(e) => {
                proof {
                    assert(run_steps(m_before, seq![evv]) == Err::<
                        (FilterModel, Seq<SpecEvent>),
                        _,
                    >(e));
                    assert(run_steps(init_model(words), all.take(i + 1)) == Err::<
                        (FilterModel, Seq<SpecEvent>),
                        _,
                    >(e));
                    lemma_run_steps_app(init_model(words), all.take(i + 1), all.skip(i + 1));
                    assert(all.take(i + 1) + all.skip(i + 1) =~= all);
                    assert(run_steps(init_model(words), all) == Err::<
                        (FilterModel, Seq<SpecEvent>),
                        _,
                    >(e));
                }
                return Err(e);
            },
        }
        i = i + 1;
    }
    proof {
        assert(all.take(i as int) =~= all);
    }
    match filter.finish() {
        Ok(()) => Ok(out),
        Err(e) => Err(e),
    }
}

} // verus!
