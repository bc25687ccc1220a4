//! The laws of the record filter, stated over its mathematical model and
//! proved once and for all: pass-through of documents without a record
//! collection, keeping untouched pairs whole, and dropping a whole pair when
//! a stimulus in it matches.

use vstd::prelude::*;
use crate::events::{collection_name, record_name, spec_is_sound_or_img, SpecEvent};
use crate::escape::unescaped;
use crate::filter::{
    init_model, run_steps, spec_process, spec_step, FilterModel, Mode, ProcessError,
};
use crate::words::spec_matches_any;

verus! {

/// The event that opens the record collection.
pub open spec fn is_collection_start(ev: SpecEvent) -> bool {
    ev matches SpecEvent::Start { name, .. } && name == collection_name()
}

/// The event that closes the record collection.
pub open spec fn is_collection_end(ev: SpecEvent) -> bool {
    ev matches SpecEvent::End { name } && name == collection_name()
}

/// The event that opens one record.
pub open spec fn is_record_start(ev: SpecEvent) -> bool {
    ev matches SpecEvent::Start { name, .. } && name == record_name()
}

/// The event that closes one record.
pub open spec fn is_record_end(ev: SpecEvent) -> bool {
    ev matches SpecEvent::End { name } && name == record_name()
}

/// The event that opens a stimulus sub-element.
pub open spec fn is_stimulus_start(ev: SpecEvent) -> bool {
    ev matches SpecEvent::Start { name, .. } && spec_is_sound_or_img(name)
}

/// An event that neither opens nor closes a record, and does not close the
/// collection: inside a record it carries content only.
pub open spec fn inert_event(ev: SpecEvent) -> bool {
    !is_record_start(ev) && !is_record_end(ev) && !is_collection_end(ev)
}

/// An inert event that opens no stimulus lookahead either.
pub open spec fn plain_event(ev: SpecEvent) -> bool {
    inert_event(ev) && !is_stimulus_start(ev)
}

/// Every event of the sequence is inert.
pub open spec fn all_inert(evs: Seq<SpecEvent>) -> bool {
    forall|i: int| 0 <= i < evs.len() ==> inert_event(#[trigger] evs[i])
}

/// Every event of the sequence is plain.
pub open spec fn all_plain(evs: Seq<SpecEvent>) -> bool {
    forall|i: int| 0 <= i < evs.len() ==> plain_event(#[trigger] evs[i])
}

/// The start event of one record, with its raw attribute text.
pub open spec fn record_start_event(attrs: Seq<char>) -> SpecEvent {
    SpecEvent::Start { name: record_name(), attrs }
}

/// The end event of one record.
pub open spec fn record_end_event() -> SpecEvent {
    SpecEvent::End { name: record_name() }
}

/// One record as an event sequence: its start (with attribute text), a
/// body, its end.
pub open spec fn record_events(attrs: Seq<char>, body: Seq<SpecEvent>) -> Seq<SpecEvent> {
    seq![record_start_event(attrs)] + body + seq![record_end_event()]
}

/// Running the filter on a single event is one step of it.
proof fn lemma_run_one(m: FilterModel, ev: SpecEvent)
    ensures
        run_steps(m, seq![ev]) == (match spec_step(m, ev) {
            Ok((m1, o1)) => Ok::<(FilterModel, Seq<SpecEvent>), ProcessError>((m1, o1)),
            Err(e) => Err(e),
        }),
{
    assert(seq![ev][0] == ev);
    assert(seq![ev].skip(1) =~= Seq::<SpecEvent>::empty());
    match spec_step(m, ev) {
        Ok((m1, o1)) => {
            assert(run_steps(m1, seq![ev].skip(1)) == Ok::<_, ProcessError>(
                (m1, Seq::<SpecEvent>::empty()),
            ));
            assert(o1 + Seq::<SpecEvent>::empty() =~= o1);
        },
        Err(_) => {},
    }
}

/// Outside the record collection, a run over events that never open it
/// passes every event through unchanged and moves nothing else.
proof fn lemma_outside_run(m: FilterModel, evs: Seq<SpecEvent>)
    requires
        m.mode is Outside,
        forall|i: int| 0 <= i < evs.len() ==> !is_collection_start(#[trigger] evs[i]),
    ensures
        run_steps(m, evs) == Ok::<(FilterModel, Seq<SpecEvent>), ProcessError>((m, evs)),
    decreases evs.len(),
{
    if evs.len() == 0 {
        assert(evs =~= Seq::<SpecEvent>::empty());
    } else {
        assert(!is_collection_start(evs[0]));
        assert(spec_step(m, evs[0]) == Ok::<_, ProcessError>((m, seq![evs[0]])));
        assert(forall|j: int|
            0 <= j < evs.skip(1).len() ==> !is_collection_start(#[trigger] evs.skip(1)[j])) by {
            assert(forall|j: int|
                0 <= j < evs.skip(1).len() ==> evs.skip(1)[j] == #[trigger] evs[j + 1]);
        };
        lemma_outside_run(m, evs.skip(1));
        assert(seq![evs[0]] + evs.skip(1) =~= evs);
    }
}

/// Pass-through: a document that never opens the record collection is
/// returned whole and unchanged, whatever the exclusion words say.
pub proof fn lemma_pass_through(evs: Seq<SpecEvent>, words: Seq<Seq<char>>)
    requires
        forall|i: int| 0 <= i < evs.len() ==> !is_collection_start(#[trigger] evs[i]),
    ensures
        spec_process(evs, words) == Ok::<Seq<SpecEvent>, ProcessError>(evs),
{
    lemma_outside_run(init_model(words), evs);
}

/// While the filter is excluding, inert events vanish without trace.
proof fn lemma_excluding_run(m: FilterModel, evs: Seq<SpecEvent>)
    requires
        m.mode is Inside,
        m.excluding,
        all_inert(evs),
    ensures
        run_steps(m, evs) == Ok::<(FilterModel, Seq<SpecEvent>), ProcessError>(
            (m, Seq::<SpecEvent>::empty()),
        ),
    decreases evs.len(),
{
    if evs.len() > 0 {
        assert(inert_event(evs[0]));
        assert(spec_step(m, evs[0]) == Ok::<_, ProcessError>((m, Seq::<SpecEvent>::empty())));
        assert(forall|j: int| 0 <= j < evs.skip(1).len() ==> evs.skip(1)[j] == #[trigger] evs[j
            + 1]);
        lemma_excluding_run(m, evs.skip(1));
        assert(Seq::<SpecEvent>::empty() + Seq::<SpecEvent>::empty() =~= Seq::<
            SpecEvent,
        >::empty());
    }
}

/// While the filter is not excluding, plain events are buffered in order
/// and change nothing else.
proof fn lemma_buffering_run(m: FilterModel, evs: Seq<SpecEvent>)
    requires
        m.mode is Inside,
        !m.excluding,
        all_plain(evs),
    ensures
        run_steps(m, evs) == Ok::<(FilterModel, Seq<SpecEvent>), ProcessError>(
            (FilterModel { pending: m.pending + evs, ..m }, Seq::<SpecEvent>::empty()),
        ),
    decreases evs.len(),
{
    if evs.len() == 0 {
        assert(m.pending + evs =~= m.pending);
        assert(FilterModel { pending: m.pending + evs, ..m } =~= m);
    } else {
        assert(plain_event(evs[0]));
        let m1 = FilterModel { pending: m.pending.push(evs[0]), ..m };
        assert(spec_step(m, evs[0]) == Ok::<_, ProcessError>((m1, Seq::<SpecEvent>::empty())));
        assert(forall|j: int| 0 <= j < evs.skip(1).len() ==> evs.skip(1)[j] == #[trigger] evs[j
            + 1]);
        lemma_buffering_run(m1, evs.skip(1));
        assert(m1.pending + evs.skip(1) =~= m.pending + evs);
        assert(FilterModel { pending: m1.pending + evs.skip(1), ..m1 } =~= FilterModel {
            pending: m.pending + evs,
            ..m
        });
        assert(Seq::<SpecEvent>::empty() + Seq::<SpecEvent>::empty() =~= Seq::<
            SpecEvent,
        >::empty());
    }
}

/// A record whose body is plain, met at even parity: it is buffered whole
/// after what was pending, and nothing is emitted yet.
proof fn lemma_record_buffered(m: FilterModel, attrs: Seq<char>, body: Seq<SpecEvent>)
    requires
        m.mode is Inside,
        !m.excluding,
        m.starts % 2 == 0,
        all_plain(body),
    ensures
        run_steps(m, record_events(attrs, body)) == Ok::<(FilterModel, Seq<SpecEvent>), ProcessError>(
            (
                FilterModel { pending: m.pending + record_events(attrs, body), starts: m.starts + 1, ..m },
                Seq::<SpecEvent>::empty(),
            ),
        ),
{
    let rs = record_start_event(attrs);
    let re = record_end_event();
    let m1 = FilterModel { pending: m.pending.push(rs), starts: m.starts + 1, ..m };
    lemma_run_one(m, rs);
    assert(spec_step(m, rs) == Ok::<_, ProcessError>((m1, Seq::<SpecEvent>::empty())));
    crate::filter::lemma_run_steps_app(m, seq![rs], body + seq![re]);
    assert(seq![rs] + (body + seq![re]) =~= record_events(attrs, body));
    lemma_buffering_run(m1, body);
    let m2 = FilterModel { pending: m1.pending + body, ..m1 };
    crate::filter::lemma_run_steps_app(m1, body, seq![re]);
    lemma_run_one(m2, re);
    assert((m.starts + 1) % 2 == 1);
    let m3 = FilterModel { pending: m2.pending.push(re), ..m2 };
    assert(spec_step(m2, re) == Ok::<_, ProcessError>((m3, Seq::<SpecEvent>::empty())));
    assert(m3.pending =~= m.pending + record_events(attrs, body));
    assert(m3 =~= FilterModel {
        pending: m.pending + record_events(attrs, body),
        starts: m.starts + 1,
        ..m
    });
    assert(Seq::<SpecEvent>::empty() + Seq::<SpecEvent>::empty() =~= Seq::<SpecEvent>::empty());
}

/// A record whose body is plain, met at odd parity: it resolves the pair,
/// and everything pending is flushed in order, the record itself behind it.
proof fn lemma_record_flushed(m: FilterModel, attrs: Seq<char>, body: Seq<SpecEvent>)
    requires
        m.mode is Inside,
        !m.excluding,
        m.starts % 2 == 1,
        all_plain(body),
    ensures
        run_steps(m, record_events(attrs, body)) == Ok::<(FilterModel, Seq<SpecEvent>), ProcessError>(
            (
                FilterModel { pending: seq![], excluding: false, starts: m.starts + 1, ..m },
                m.pending + record_events(attrs, body),
            ),
        ),
{
    let rs = record_start_event(attrs);
    let re = record_end_event();
    let m1 = FilterModel { pending: m.pending.push(rs), starts: m.starts + 1, ..m };
    lemma_run_one(m, rs);
    assert(spec_step(m, rs) == Ok::<_, ProcessError>((m1, Seq::<SpecEvent>::empty())));
    crate::filter::lemma_run_steps_app(m, seq![rs], body + seq![re]);
    assert(seq![rs] + (body + seq![re]) =~= record_events(attrs, body));
    lemma_buffering_run(m1, body);
    let m2 = FilterModel { pending: m1.pending + body, ..m1 };
    crate::filter::lemma_run_steps_app(m1, body, seq![re]);
    lemma_run_one(m2, re);
    assert((m.starts + 1) % 2 == 0);
    let m3 = FilterModel { pending: seq![], excluding: false, ..m2 };
    assert(spec_step(m2, re) == Ok::<_, ProcessError>((m3, m2.pending.push(re))));
    assert(m2.pending.push(re) =~= m.pending + record_events(attrs, body));
    assert(m3 =~= FilterModel { pending: seq![], excluding: false, starts: m.starts + 1, ..m });
    assert(Seq::<SpecEvent>::empty() + (Seq::<SpecEvent>::empty() + m2.pending.push(re)) =~= m2
        .pending.push(re));
}

/// No match, no change: a pair of records whose bodies are plain content is
/// emitted whole, both records in order, and the filter is back where it
/// stood, two record starts further.
pub proof fn lemma_pair_kept(
    m: FilterModel,
    a1: Seq<char>,
    b1: Seq<SpecEvent>,
    a2: Seq<char>,
    b2: Seq<SpecEvent>,
)
    requires
        m.mode is Inside,
        !m.excluding,
        m.starts % 2 == 0,
        m.pending == Seq::<SpecEvent>::empty(),
        all_plain(b1),
        all_plain(b2),
    ensures
        run_steps(m, record_events(a1, b1) + record_events(a2, b2)) == Ok::<
            (FilterModel, Seq<SpecEvent>),
            ProcessError,
        >(
            (
                FilterModel { starts: m.starts + 2, ..m },
                record_events(a1, b1) + record_events(a2, b2),
            ),
        ),
{
    lemma_record_buffered(m, a1, b1);
    let m1 = FilterModel { pending: m.pending + record_events(a1, b1), starts: m.starts + 1, ..m };
    crate::filter::lemma_run_steps_app(m, record_events(a1, b1), record_events(a2, b2));
    assert((m.starts + 1) % 2 == 1);
    lemma_record_flushed(m1, a2, b2);
    let m2 = FilterModel { pending: seq![], excluding: false, starts: m1.starts + 1, ..m1 };
    assert(m1.pending + record_events(a2, b2) =~= record_events(a1, b1) + record_events(a2, b2));
    assert(m2 =~= FilterModel { starts: m.starts + 2, ..m });
    assert(Seq::<SpecEvent>::empty() + (m1.pending + record_events(a2, b2)) =~= record_events(a1, b1)
        + record_events(a2, b2));
}

/// The body of a record that trips the filter: plain content, then a
/// stimulus sub-element whose text unescapes to something that matches,
/// then anything inert.
pub open spec fn matching_body(
    pre: Seq<SpecEvent>,
    sname: Seq<char>,
    sattrs: Seq<char>,
    t: Seq<char>,
    rest: Seq<SpecEvent>,
) -> Seq<SpecEvent> {
    pre + seq![
        SpecEvent::Start { name: sname, attrs: sattrs },
        SpecEvent::Text { content: t },
    ] + rest
}

/// Paired exclusion: when a stimulus text in the first record of a pair
/// contains an exclusion word, the whole pair — the matching record and the
/// one after it — is dropped without any output.
pub proof fn lemma_pair_dropped(
    m: FilterModel,
    a1: Seq<char>,
    pre: Seq<SpecEvent>,
    sname: Seq<char>,
    sattrs: Seq<char>,
    t: Seq<char>,
    rest: Seq<SpecEvent>,
    a2: Seq<char>,
    b2: Seq<SpecEvent>,
)
    requires
        m.mode is Inside,
        !m.excluding,
        m.starts % 2 == 0,
        m.words.len() > 0,
        spec_is_sound_or_img(sname),
        unescaped(t) matches Some(u) && spec_matches_any(u, m.words),
        all_plain(pre),
        all_inert(rest),
        all_inert(b2),
    ensures
        run_steps(m, record_events(a1, matching_body(pre, sname, sattrs, t, rest)) + record_events(a2, b2))
            == Ok::<(FilterModel, Seq<SpecEvent>), ProcessError>(
            (
                FilterModel {
                    pending: seq![],
                    excluding: false,
                    starts: m.starts + 2,
                    ..m
                },
                Seq::<SpecEvent>::empty(),
            ),
        ),
{
    let rs = record_start_event(a1);
    let re = record_end_event();
    let sev = SpecEvent::Start { name: sname, attrs: sattrs };
    let tev = SpecEvent::Text { content: t };
    let rec1 = record_events(a1, matching_body(pre, sname, sattrs, t, rest));

    // Record start: counted and buffered.
    let m1 = FilterModel { pending: m.pending.push(rs), starts: m.starts + 1, ..m };
    lemma_run_one(m, rs);
    assert(spec_step(m, rs) == Ok::<_, ProcessError>((m1, Seq::<SpecEvent>::empty())));
    crate::filter::lemma_run_steps_app(
        m,
        seq![rs],
        matching_body(pre, sname, sattrs, t, rest) + seq![re],
    );
    assert(seq![rs] + (matching_body(pre, sname, sattrs, t, rest) + seq![re]) =~= rec1);

    // The plain content before the stimulus: buffered.
    lemma_buffering_run(m1, pre);
    let m2 = FilterModel { pending: m1.pending + pre, ..m1 };
    crate::filter::lemma_run_steps_app(m1, pre, seq![sev, tev] + rest + seq![re]);
    assert(pre + (seq![sev, tev] + rest + seq![re]) =~= matching_body(pre, sname, sattrs, t, rest)
        + seq![re]);

    // The stimulus start: buffered, text awaited. Its name is a stimulus
    // name, which is no record name.
    let m3 = FilterModel { mode: Mode::AwaitText, pending: m2.pending.push(sev), ..m2 };
    lemma_run_one(m2, sev);
    reveal_strlit("tag");
    reveal_strlit("nazw_obr");
    reveal_strlit("nazw_dz");
    assert("tag"@.len() == 3 && "nazw_obr"@.len() == 8 && "nazw_dz"@.len() == 7);
    assert(sname != record_name());
    assert(spec_step(m2, sev) == Ok::<_, ProcessError>((m3, Seq::<SpecEvent>::empty())));
    crate::filter::lemma_run_steps_app(m2, seq![sev], seq![tev] + rest + seq![re]);
    assert(seq![sev] + (seq![tev] + rest + seq![re]) =~= seq![sev, tev] + rest + seq![re]);

    // The matching text: the filter turns to excluding, the text is dropped.
    let m4 = FilterModel { mode: Mode::Inside, excluding: true, ..m3 };
    lemma_run_one(m3, tev);
    assert(spec_step(m3, tev) == Ok::<_, ProcessError>((m4, Seq::<SpecEvent>::empty())));
    crate::filter::lemma_run_steps_app(m3, seq![tev], rest + seq![re]);
    assert(seq![tev] + (rest + seq![re]) =~= seq![tev] + rest + seq![re]);

    // The rest of the record: discarded.
    lemma_excluding_run(m4, rest);
    crate::filter::lemma_run_steps_app(m4, rest, seq![re]);

    // The record end at odd parity: still buffered, decision deferred.
    let m5 = FilterModel { pending: m4.pending.push(re), ..m4 };
    lemma_run_one(m4, re);
    assert((m.starts + 1) % 2 == 1);
    assert(spec_step(m4, re) == Ok::<_, ProcessError>((m5, Seq::<SpecEvent>::empty())));

    assert(run_steps(m, rec1) == Ok::<_, ProcessError>((m5, Seq::<SpecEvent>::empty()))) by {
        assert(Seq::<SpecEvent>::empty() + Seq::<SpecEvent>::empty() =~= Seq::<
            SpecEvent,
        >::empty());
    };

    // The second record: start counted, body discarded, end resolves the
    // pair and clears everything.
    crate::filter::lemma_run_steps_app(m, rec1, record_events(a2, b2));
    let rs2 = record_start_event(a2);
    let m6 = FilterModel { pending: m5.pending.push(rs2), starts: m5.starts + 1, ..m5 };
    lemma_run_one(m5, rs2);
    assert(spec_step(m5, rs2) == Ok::<_, ProcessError>((m6, Seq::<SpecEvent>::empty())));
    crate::filter::lemma_run_steps_app(m5, seq![rs2], b2 + seq![re]);
    assert(seq![rs2] + (b2 + seq![re]) =~= record_events(a2, b2));
    lemma_excluding_run(m6, b2);
    crate::filter::lemma_run_steps_app(m6, b2, seq![re]);
    let m7 = FilterModel { pending: seq![], excluding: false, ..m6 };
    lemma_run_one(m6, re);
    assert((m.starts + 2) % 2 == 0);
    assert(spec_step(m6, re) == Ok::<_, ProcessError>((m7, Seq::<SpecEvent>::empty())));
    assert(m7 =~= FilterModel { pending: seq![], excluding: false, starts: m.starts + 2, ..m });
    assert(Seq::<SpecEvent>::empty() + Seq::<SpecEvent>::empty() =~= Seq::<SpecEvent>::empty());
}

} // verus!
