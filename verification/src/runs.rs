//! Laws over whole runs of the driver: the actions a sequence of events draws
//! from an operation, compared with those of its commands run alone.

use crate::bmlitelib::{
    arg_word, begin, has_arg, job_next, last_word, op_next, Command, Error, Job, OperationView,
    ARG_COUNT, ARG_ID, ARG_MATCH, ARG_RESULT,
};
use crate::endian::{le16, lemma_le16_roundtrip};
use crate::link::{frame_spec, single_packet};
use crate::response::parse_payload;
use crate::link::{link_next, ActionView, EventView, LinkPhaseView, LinkStepView};
use vstd::prelude::*;

verus! {

/// The state, enrolled count and actions after feeding `evs` one by one.
pub open spec fn trace<E>(op: OperationView, enrolled: u16, evs: Seq<EventView>) -> (
    OperationView,
    u16,
    Seq<ActionView<E>>,
)
    decreases evs.len(),
{
    if evs.len() == 0 {
        (op, enrolled, Seq::empty())
    } else {
        let (op1, en1, a) = op_next::<E>(op, enrolled, evs[0]);
        let (op2, en2, rest) = trace::<E>(op1, en1, evs.drop_first());
        (op2, en2, seq![a] + rest)
    }
}

/// No action finishes the operation.
pub open spec fn no_finish<E>(acts: Seq<ActionView<E>>) -> bool {
    forall|i: int| 0 <= i < acts.len() ==> !(#[trigger] acts[i] is Finish)
}

/// The last action, and only it, finishes the operation.
pub open spec fn ends_at_last<E>(acts: Seq<ActionView<E>>) -> bool {
    acts.len() >= 1 && acts.last() is Finish && no_finish(acts.drop_last())
}

/// The actions of `command` started for `job`: its request, then what the
/// events draw.
pub open spec fn run_in_job<E>(job: Job, command: Command, enrolled: u16, evs: Seq<EventView>) -> Seq<
    ActionView<E>,
> {
    let (op, en, a) = begin::<E>(command, job, enrolled);
    seq![a] + trace::<E>(op, en, evs).2
}

/// The actions of `command` run alone.
pub open spec fn single_run<E>(command: Command, enrolled: u16, evs: Seq<EventView>) -> Seq<
    ActionView<E>,
> {
    run_in_job::<E>(Job::Single, command, enrolled, evs)
}

/// One action for each event.
pub proof fn lemma_trace_len<E>(op: OperationView, en: u16, evs: Seq<EventView>)
    ensures
        trace::<E>(op, en, evs).2.len() == evs.len(),
    decreases evs.len(),
{
    if evs.len() > 0 {
        let (op1, en1, a) = op_next::<E>(op, en, evs[0]);
        lemma_trace_len::<E>(op1, en1, evs.drop_first());
    }
}

/// Feeding two runs of events one after the other.
pub proof fn lemma_trace_append<E>(
    op: OperationView,
    en: u16,
    e1: Seq<EventView>,
    e2: Seq<EventView>,
)
    ensures
        trace::<E>(op, en, e1 + e2) == ({
            let t1 = trace::<E>(op, en, e1);
            let t2 = trace::<E>(t1.0, t1.1, e2);
            (t2.0, t2.1, t1.2 + t2.2)
        }),
    decreases e1.len(),
{
    if e1.len() == 0 {
        assert(e1 + e2 =~= e2);
        assert(Seq::<ActionView<E>>::empty() + trace::<E>(op, en, e2).2 =~= trace::<E>(op, en, e2).2);
    } else {
        let (op1, en1, a) = op_next::<E>(op, en, e1[0]);
        assert((e1 + e2)[0] == e1[0]);
        assert((e1 + e2).drop_first() =~= e1.drop_first() + e2);
        lemma_trace_append::<E>(op1, en1, e1.drop_first(), e2);
        let t1 = trace::<E>(op1, en1, e1.drop_first());
        let t2 = trace::<E>(t1.0, t1.1, e2);
        assert(seq![a] + (t1.2 + t2.2) =~= (seq![a] + t1.2) + t2.2);
    }
}

/// One step of a command within `job` against the same command alone.
proof fn lemma_step_in_job<E>(job: Job, command: Command, phase: LinkPhaseView, en: u16, ev: EventView)
    ensures
        ({
            let s = op_next::<E>(OperationView::Link { job: Job::Single, command, phase }, en, ev);
            let w = op_next::<E>(OperationView::Link { job, command, phase }, en, ev);
            &&& !(s.2 is Finish) ==> (s.0 matches OperationView::Link { job: Job::Single, command: c, phase: p }
                && c == command && s.1 == en && w == (OperationView::Link { job, command, phase: p }, en, s.2))
            &&& (s.2 matches ActionView::Finish(Err(_))) ==> w == s
            &&& s.2 matches ActionView::Finish(Ok(v)) ==> w == job_next::<E>(job, en, v) && s == (
                OperationView::Idle,
                en,
                s.2,
            )
        }),
{
}

/// The actions drawn while the command has not finished.
proof fn lemma_unfinished_in_job<E>(
    job: Job,
    command: Command,
    phase: LinkPhaseView,
    en: u16,
    evs: Seq<EventView>,
)
    requires
        no_finish(trace::<E>(OperationView::Link { job: Job::Single, command, phase }, en, evs).2),
    ensures
        ({
            let s = trace::<E>(OperationView::Link { job: Job::Single, command, phase }, en, evs);
            let w = trace::<E>(OperationView::Link { job, command, phase }, en, evs);
            s.0 matches OperationView::Link { job: Job::Single, command: c, phase: p } && c == command
                && s.1 == en && w == (OperationView::Link { job, command, phase: p }, en, s.2)
        }),
    decreases evs.len(),
{
    if evs.len() > 0 {
        let s = trace::<E>(OperationView::Link { job: Job::Single, command, phase }, en, evs);
        lemma_step_in_job::<E>(job, command, phase, en, evs[0]);
        let s1 = op_next::<E>(OperationView::Link { job: Job::Single, command, phase }, en, evs[0]);
        assert(s.2[0] == s1.2);
        let rest = trace::<E>(s1.0, s1.1, evs.drop_first());
        assert forall|i: int| 0 <= i < rest.2.len() implies !(#[trigger] rest.2[i] is Finish) by {
            assert(s.2[i + 1] == rest.2[i]);
        }
        let p1 = s1.0->Link_phase;
        lemma_unfinished_in_job::<E>(job, command, p1, en, evs.drop_first());
    }
}

/// A command behaves within any operation as it does alone: until it
/// finishes, the same actions; when it fails, the operation fails with the same
/// error and stops; when it succeeds with `v`, the operation goes on as
/// `job_next` says, in place of the command's `Finish`.
pub proof fn lemma_command_in_job<E>(job: Job, command: Command, en: u16, evs: Seq<EventView>, rest: Seq<EventView>)
    ensures
        no_finish(single_run::<E>(command, en, evs)) ==> run_in_job::<E>(job, command, en, evs)
            == single_run::<E>(command, en, evs),
        ends_at_last(single_run::<E>(command, en, evs)) && (single_run::<E>(command, en, evs).last() matches ActionView::Finish(Err(_)))
            ==> run_in_job::<E>(job, command, en, evs) == single_run::<E>(command, en, evs),
        ends_at_last(single_run::<E>(command, en, evs)) && (single_run::<E>(command, en, evs).last() matches ActionView::Finish(Ok(v)))
            ==> run_in_job::<E>(job, command, en, evs + rest) == ({
                let v = single_run::<E>(command, en, evs).last()->Finish_0->Ok_0;
                let (op, count, a) = job_next::<E>(job, en, v);
                single_run::<E>(command, en, evs).drop_last() + seq![a] + trace::<E>(op, count, rest).2
            }),
{
    let start = LinkPhaseView::Request;
    let single = OperationView::Link { job: Job::Single, command, phase: start };
    let within = OperationView::Link { job, command, phase: start };
    let sr = single_run::<E>(command, en, evs);
    let s = trace::<E>(single, en, evs);
    assert(sr == seq![begin::<E>(command, Job::Single, en).2] + s.2);
    assert(begin::<E>(command, Job::Single, en).2 == begin::<E>(command, job, en).2);
    if no_finish(sr) {
        assert forall|i: int| 0 <= i < s.2.len() implies !(#[trigger] s.2[i] is Finish) by {
            assert(sr[i + 1] == s.2[i]);
        }
        lemma_unfinished_in_job::<E>(job, command, start, en, evs);
    }
    if ends_at_last(sr) {
        lemma_trace_len::<E>(single, en, evs);
        assert(sr.len() == evs.len() + 1);
        assert(evs.len() >= 1) by {
            if evs.len() == 0 {
                assert(sr.last() == begin::<E>(command, Job::Single, en).2);
            }
        }
        let n = evs.len() - 1;
        let pre = evs.take(n);
        let last = evs.subrange(n, evs.len() as int);
        assert(pre + last =~= evs);
        lemma_trace_append::<E>(single, en, pre, last);
        lemma_trace_append::<E>(within, en, pre, last);
        let sp = trace::<E>(single, en, pre);
        assert(s.2 == sp.2 + trace::<E>(sp.0, sp.1, last).2);
        assert forall|i: int| 0 <= i < sp.2.len() implies !(#[trigger] sp.2[i] is Finish) by {
            assert(sr[i + 1] == sp.2[i]);
            assert(sr.drop_last()[i + 1] == sr[i + 1]);
        }
        lemma_unfinished_in_job::<E>(job, command, start, en, pre);
        let p = sp.0->Link_phase;
        lemma_step_in_job::<E>(job, command, p, en, last[0]);
        assert(last.drop_first().len() == 0);
        lemma_trace_len::<E>(single, en, pre);
        lemma_trace_len::<E>(sp.0, sp.1, last);
        let tl = trace::<E>(sp.0, sp.1, last);
        assert(tl.2[0] == op_next::<E>(sp.0, sp.1, last[0]).2);
        assert(sr.last() == s.2.last());
        assert(s.2.last() == tl.2[0]);
        if let ActionView::Finish(Ok(v)) = sr.last() {
            lemma_trace_append::<E>(within, en, evs, rest);
            let (op, count, a) = job_next::<E>(job, en, v);
            let wp = trace::<E>(within, en, pre);
            assert(wp == (OperationView::Link { job, command, phase: p }, en, sp.2));
            let wl = trace::<E>(wp.0, wp.1, last);
            assert(op_next::<E>(wp.0, wp.1, last[0]) == (op, count, a));
            assert(trace::<E>(op, count, last.drop_first()) == (op, count, Seq::<ActionView<E>>::empty()));
            assert(wl.2 =~= seq![a]);
            assert(wl.0 == op && wl.1 == count);
            let w = trace::<E>(within, en, evs);
            assert(w.0 == op && w.1 == count && w.2 == sp.2 + seq![a]);
            assert(sr.drop_last() =~= seq![begin::<E>(command, Job::Single, en).2] + sp.2);
            assert(run_in_job::<E>(job, command, en, evs + rest) =~= sr.drop_last() + seq![a] + trace::<E>(op, count, rest).2);
        }
    }
}

/// Identify is capture without timeout, then extract, then identify, each as
/// it runs alone, stopping at the first that fails: while capture runs, or
/// when it fails, the actions are those of capture alone; once it succeeded,
/// its `Finish` is dropped and extract follows, and the same holds of extract
/// before identify, whose run ends the operation.
pub proof fn lemma_identify_sequence<E>(en: u16, evs1: Seq<EventView>, evs2: Seq<EventView>, evs3: Seq<EventView>)
    ensures
        ({
            let cap = single_run::<E>(Command::Capture { timeout: 0 }, en, evs1);
            let ext = single_run::<E>(Command::DoExtract, en, evs2);
            let idf = single_run::<E>(Command::DoIdentify, en, evs3);
            let run = |evs: Seq<EventView>| run_in_job::<E>(Job::IdentifyCapture, Command::Capture { timeout: 0 }, en, evs);
            &&& no_finish(cap) ==> run(evs1) == cap
            &&& ends_at_last(cap) && (cap.last() matches ActionView::Finish(Err(_))) ==> run(evs1) == cap
            &&& ends_at_last(cap) && (cap.last() matches ActionView::Finish(Ok(_))) && no_finish(ext)
                ==> run(evs1 + evs2) == cap.drop_last() + ext
            &&& ends_at_last(cap) && (cap.last() matches ActionView::Finish(Ok(_))) && ends_at_last(ext)
                && (ext.last() matches ActionView::Finish(Err(_))) ==> run(evs1 + evs2) == cap.drop_last() + ext
            &&& ends_at_last(cap) && (cap.last() matches ActionView::Finish(Ok(_))) && ends_at_last(ext)
                && (ext.last() matches ActionView::Finish(Ok(_))) ==> run(evs1 + evs2 + evs3)
                == cap.drop_last() + ext.drop_last() + idf
        }),
{
    let capture = Command::Capture { timeout: 0 };
    let cap = single_run::<E>(capture, en, evs1);
    let ext = single_run::<E>(Command::DoExtract, en, evs2);
    let empty = Seq::<EventView>::empty();
    lemma_command_in_job::<E>(Job::IdentifyCapture, capture, en, evs1, empty);
    assert(evs1 + empty =~= evs1);
    lemma_command_in_job::<E>(Job::IdentifyCapture, capture, en, evs1, evs2);
    lemma_command_in_job::<E>(Job::IdentifyCapture, capture, en, evs1, evs2 + evs3);
    lemma_command_in_job::<E>(Job::IdentifyExtract, Command::DoExtract, en, evs2, empty);
    assert(evs2 + empty =~= evs2);
    lemma_command_in_job::<E>(Job::IdentifyExtract, Command::DoExtract, en, evs2, evs3);
    assert(evs1 + evs2 + evs3 =~= evs1 + (evs2 + evs3));
    if ends_at_last(cap) && (cap.last() matches ActionView::Finish(Ok(_))) {
        let (op, count, a) = begin::<E>(Command::DoExtract, Job::IdentifyExtract, en);
        assert(seq![a] + trace::<E>(op, count, evs2).2 == run_in_job::<E>(Job::IdentifyExtract, Command::DoExtract, en, evs2));
        assert(cap.drop_last() + seq![a] + trace::<E>(op, count, evs2).2 =~= cap.drop_last() + (seq![a] + trace::<E>(op, count, evs2).2));
        assert(cap.drop_last() + seq![a] + trace::<E>(op, count, evs2 + evs3).2 =~= cap.drop_last() + (seq![a] + trace::<E>(op, count, evs2 + evs3).2));
        if ends_at_last(ext) && (ext.last() matches ActionView::Finish(Ok(_))) {
            let (op2, count2, a2) = begin::<E>(Command::DoIdentify, Job::Single, en);
            assert(ext.drop_last() + seq![a2] + trace::<E>(op2, count2, evs3).2 =~= ext.drop_last() + single_run::<E>(Command::DoIdentify, en, evs3));
            assert(cap.drop_last() + (ext.drop_last() + single_run::<E>(Command::DoIdentify, en, evs3)) =~= cap.drop_last() + ext.drop_last() + single_run::<E>(Command::DoIdentify, en, evs3));
        }
    }
}

/// A state of an enrollment that started with `en0` fingers counted, with the
/// command each of its steps sends; the save goes under id `en0`.
pub open spec fn enrolling(op: OperationView, en0: u16) -> bool {
    match op {
        OperationView::EnrollAnnounce | OperationView::EnrollProgress => true,
        OperationView::Link { job, command, .. } => match job {
            Job::EnrollBegin => command == (Command::DoEnroll { state: 0x03 }),
            Job::EnrollWait => command == (Command::WaitFingerUp { timeout: 0 }),
            Job::EnrollCapture => command == (Command::Capture { timeout: 0 }),
            Job::EnrollAdd => command == (Command::DoEnroll { state: 0x04 }),
            Job::EnrollFinish => command == (Command::DoEnroll { state: 0x05 }),
            Job::EnrollSave => command == (Command::DoSaveTemplate { tplid: en0 }),
            _ => false,
        },
        _ => false,
    }
}

proof fn lemma_enrolling_run<E>(op: OperationView, en0: u16, evs: Seq<EventView>)
    requires
        en0 < 0xffff,
        enrolling(op, en0),
    ensures
        ({
            let t = trace::<E>(op, en0, evs);
            &&& no_finish(t.2) ==> t.1 == en0 && enrolling(t.0, en0)
            &&& ends_at_last(t.2) ==> t.0 == OperationView::Idle && (t.2.last() == ActionView::<E>::Finish(Ok(0)) && t.1 == en0 + 1
                || (t.2.last() matches ActionView::Finish(Err(_))) && t.1 == en0)
        }),
    decreases evs.len(),
{
    if evs.len() > 0 {
        let (op1, en1, a) = op_next::<E>(op, en0, evs[0]);
        let t = trace::<E>(op, en0, evs);
        let r = trace::<E>(op1, en1, evs.drop_first());
        lemma_trace_len::<E>(op1, en1, evs.drop_first());
        assert(t.2 == seq![a] + r.2);
        if !(a is Finish) {
            assert(en1 == en0 && enrolling(op1, en0));
            lemma_enrolling_run::<E>(op1, en0, evs.drop_first());
            if no_finish(t.2) {
                assert forall|i: int| 0 <= i < r.2.len() implies !(#[trigger] r.2[i] is Finish) by {
                    assert(t.2[i + 1] == r.2[i]);
                }
            }
            if ends_at_last(t.2) {
                assert(r.2.len() >= 1) by {
                    if r.2.len() == 0 {
                        assert(t.2.last() == a);
                    }
                }
                assert(r.2.last() == t.2.last());
                assert forall|i: int| 0 <= i < r.2.drop_last().len() implies !(#[trigger] r.2.drop_last()[i] is Finish) by {
                    assert(t.2.drop_last()[i + 1] == r.2.drop_last()[i]);
                }
            }
        } else {
            assert(op1 == OperationView::Idle);
            assert(a == ActionView::<E>::Finish(Ok(0)) && en1 == en0 + 1 || (a matches ActionView::Finish(Err(_))) && en1 == en0);
            assert(t.2[0] == a);
            if ends_at_last(t.2) {
                assert(t.2.len() == 1) by {
                    if t.2.len() > 1 {
                        assert(t.2.drop_last()[0] == a);
                    }
                }
                assert(evs.drop_first().len() == 0) by {
                    lemma_trace_len::<E>(op, en0, evs);
                }
            }
        }
    }
}

/// A whole enrollment, begun with `en` fingers counted: while it runs the
/// count stays `en` and every command it sends is one of its steps, its save
/// going under id `en`; when it finishes it is over, and either it succeeded
/// with 0 and the count is `en + 1`, so the next enrollment saves under
/// `en + 1`, or it failed and the count is still `en`.
pub proof fn lemma_enroll_run<E>(en: u16, evs: Seq<EventView>)
    requires
        en < 0xffff,
    ensures
        ({
            let t = trace::<E>(OperationView::EnrollAnnounce, en, evs);
            &&& no_finish(t.2) ==> t.1 == en && enrolling(t.0, en)
            &&& ends_at_last(t.2) ==> t.0 == OperationView::Idle && (t.2.last() == ActionView::<E>::Finish(Ok(0)) && t.1 == en + 1
                || (t.2.last() matches ActionView::Finish(Err(_))) && t.1 == en)
        }),
{
    lemma_enrolling_run::<E>(OperationView::EnrollAnnounce, en, evs);
}

/// A run from `op` that, after its first `k` events, stands at a command on
/// the link without having finished, and whose remaining actions are those
/// that command draws from the remaining events when it runs alone.
pub open spec fn ends_as_command_alone<E>(op: OperationView, en: u16, evs: Seq<EventView>, k: int) -> bool {
    &&& 0 <= k < evs.len()
    &&& ({
        let tp = trace::<E>(op, en, evs.take(k));
        &&& tp.0 is Link
        &&& tp.1 == en
        &&& no_finish(tp.2)
        &&& trace::<E>(op, en, evs).2 == tp.2 + trace::<E>(
            OperationView::Link { job: Job::Single, command: tp.0->Link_command, phase: tp.0->Link_phase },
            en,
            evs.skip(k),
        ).2
    })
}

proof fn lemma_enrolling_failure<E>(op: OperationView, en0: u16, evs: Seq<EventView>)
    requires
        en0 < 0xffff,
        enrolling(op, en0),
        ends_at_last(trace::<E>(op, en0, evs).2),
        trace::<E>(op, en0, evs).2.last() matches ActionView::Finish(Err(_)),
    ensures
        exists|k: int|
            #![trigger ends_as_command_alone::<E>(op, en0, evs, k)]
            ends_as_command_alone::<E>(op, en0, evs, k) && (k == 0 ==> op is Link) && (k > 0
                ==> trace::<E>(op, en0, evs.take(k)).0->Link_phase == LinkPhaseView::Request),
    decreases evs.len(),
{
    let t = trace::<E>(op, en0, evs);
    lemma_trace_len::<E>(op, en0, evs);
    let (op1, en1, a) = op_next::<E>(op, en0, evs[0]);
    let rest = evs.drop_first();
    let r = trace::<E>(op1, en1, rest);
    lemma_trace_len::<E>(op1, en1, rest);
    assert(t.2 == seq![a] + r.2);
    assert(t.2[0] == a);
    assert(evs.take(0) =~= Seq::<EventView>::empty());
    assert(evs.skip(0) =~= evs);
    if a is Finish {
        assert(t.2.len() == 1) by {
            if t.2.len() > 1 {
                assert(t.2.drop_last()[0] == a);
            }
        }
        assert(rest.len() == 0);
        let job = op->Link_job;
        let c = op->Link_command;
        let p = op->Link_phase;
        lemma_step_in_job::<E>(job, c, p, en0, evs[0]);
        let single = OperationView::Link { job: Job::Single, command: c, phase: p };
        let s1 = op_next::<E>(single, en0, evs[0]);
        assert(trace::<E>(s1.0, s1.1, rest).2 =~= Seq::<ActionView<E>>::empty());
        assert(trace::<E>(single, en0, evs).2 =~= seq![s1.2]);
        assert(t.2 =~= Seq::<ActionView<E>>::empty() + trace::<E>(single, en0, evs.skip(0)).2);
        assert(ends_as_command_alone::<E>(op, en0, evs, 0));
    } else {
        assert(en1 == en0 && enrolling(op1, en0));
        assert(r.2.len() >= 1) by {
            if r.2.len() == 0 {
                assert(t.2.last() == a);
            }
        }
        assert(r.2.last() == t.2.last());
        assert forall|i: int| 0 <= i < r.2.drop_last().len() implies !(#[trigger] r.2.drop_last()[i] is Finish) by {
            assert(t.2.drop_last()[i + 1] == r.2.drop_last()[i]);
        }
        lemma_enrolling_failure::<E>(op1, en0, rest);
        let k1 = choose|k: int|
            #![trigger ends_as_command_alone::<E>(op1, en0, rest, k)]
            ends_as_command_alone::<E>(op1, en0, rest, k) && (k == 0 ==> op1 is Link) && (k > 0
                ==> trace::<E>(op1, en0, rest.take(k)).0->Link_phase == LinkPhaseView::Request);
        let continues = op is Link && link_next::<E>(op->Link_phase, evs[0]) is Next;
        if continues && k1 == 0 {
            let c = op->Link_command;
            let p = op->Link_phase;
            lemma_step_in_job::<E>(op->Link_job, c, p, en0, evs[0]);
            let single = OperationView::Link { job: Job::Single, command: c, phase: p };
            let s1 = op_next::<E>(single, en0, evs[0]);
            assert(op1 == OperationView::Link { job: op->Link_job, command: c, phase: s1.0->Link_phase });
            assert(rest.take(0) =~= Seq::<EventView>::empty());
            assert(rest.skip(0) =~= rest);
            assert(trace::<E>(single, en0, evs).2 == seq![a] + trace::<E>(s1.0, s1.1, rest).2);
            assert(t.2 =~= Seq::<ActionView<E>>::empty() + trace::<E>(single, en0, evs.skip(0)).2);
            assert(ends_as_command_alone::<E>(op, en0, evs, 0));
        } else {
            let k = k1 + 1;
            assert(evs.take(k)[0] == evs[0]);
            assert(evs.take(k).drop_first() =~= rest.take(k1));
            assert(evs.skip(k) =~= rest.skip(k1));
            let tp1 = trace::<E>(op1, en0, rest.take(k1));
            let tp = trace::<E>(op, en0, evs.take(k));
            assert(tp.0 == tp1.0 && tp.1 == tp1.1 && tp.2 == seq![a] + tp1.2);
            assert forall|i: int| 0 <= i < tp.2.len() implies !(#[trigger] tp.2[i] is Finish) by {
                if i > 0 {
                    assert(tp.2[i] == tp1.2[i - 1]);
                }
            }
            if k1 == 0 {
                assert(rest.take(0) =~= Seq::<EventView>::empty());
                assert(tp1.0 == op1);
            }
            let tail = trace::<E>(
                OperationView::Link { job: Job::Single, command: tp.0->Link_command, phase: tp.0->Link_phase },
                en0,
                evs.skip(k),
            ).2;
            assert(t.2 =~= tp.2 + tail);
            assert(ends_as_command_alone::<E>(op, en0, evs, k));
        }
    }
}

/// A failed enrollment fails with its failing step's own error, unchanged,
/// and sends nothing after it: after some `k` events the run stands at the
/// request of one of its commands, and from there on its actions, up to the
/// failing `Finish`, are exactly those that command draws running alone.
pub proof fn lemma_enroll_failure<E>(en: u16, evs: Seq<EventView>)
    requires
        en < 0xffff,
        ends_at_last(trace::<E>(OperationView::EnrollAnnounce, en, evs).2),
        trace::<E>(OperationView::EnrollAnnounce, en, evs).2.last() matches ActionView::Finish(Err(_)),
    ensures
        trace::<E>(OperationView::EnrollAnnounce, en, evs).0 == OperationView::Idle,
        exists|k: int|
            #![trigger ends_as_command_alone::<E>(OperationView::EnrollAnnounce, en, evs, k)]
            ends_as_command_alone::<E>(OperationView::EnrollAnnounce, en, evs, k) && trace::<E>(
                OperationView::EnrollAnnounce,
                en,
                evs.take(k),
            ).0->Link_phase == LinkPhaseView::Request,
{
    lemma_enroll_run::<E>(en, evs);
    lemma_enrolling_failure::<E>(OperationView::EnrollAnnounce, en, evs);
}

/// Identify reports the template id the module matched, whatever it is, 0
/// included: it fails with `NoMatch` exactly when the match argument is absent
/// or zero; with a nonzero match and a result argument it gives the number in
/// the last id argument (0xffff_ffff without one).
pub proof fn lemma_identify_reports_id<E>(args: Seq<(u16, Seq<u8>)>)
    ensures
        (Command::DoIdentify.outcome::<E>(args) == Err::<u32, Error<E>>(Error::NoMatch)) <==> (
        last_word(args, ARG_MATCH, 0) == 0),
        last_word(args, ARG_MATCH, 0) != 0 && has_arg(args, ARG_RESULT) ==> Command::DoIdentify.outcome::<E>(
            args,
        ) == Ok::<u32, Error<E>>(last_word(args, ARG_ID, 0xffff_ffff)),
        last_word(args, ARG_MATCH, 0) != 0 && !has_arg(args, ARG_RESULT) ==> Command::DoIdentify.outcome::<E>(
            args,
        ) == Err::<u32, Error<E>>(Error::UnexpectedResponse),
{
}

/// For every template id `x`, a reply that matches (nonzero match data), names
/// template `x` and carries a result identifies template `x`.
pub proof fn lemma_identify_any_template<E>(m: Seq<u8>, x: u16)
    requires
        arg_word(m) != 0,
    ensures
        Command::DoIdentify.outcome::<E>(seq![(ARG_MATCH, m), (ARG_ID, le16(x)), (ARG_RESULT, seq![0u8])])
            == Ok::<u32, Error<E>>(x as u32),
{
    let args = seq![(ARG_MATCH, m), (ARG_ID, le16(x)), (ARG_RESULT, seq![0u8])];
    lemma_le16_roundtrip(x);
    assert(args.drop_last() =~= seq![(ARG_MATCH, m), (ARG_ID, le16(x))]);
    assert(args.drop_last().drop_last() =~= seq![(ARG_MATCH, m)]);
    assert(args.drop_last().drop_last().drop_last() =~= Seq::<(u16, Seq<u8>)>::empty());
    reveal_with_fuel(last_word, 4);
    assert(last_word(args, ARG_MATCH, 0) == arg_word(m));
    assert(last_word(args, ARG_ID, 0xffff_ffff) == arg_word(le16(x)));
    assert(args[2].0 == ARG_RESULT);
    assert(has_arg(args, ARG_RESULT));
}

/// After an added image, the enrollment reports exactly the count of images
/// still needed that the module's reply carries, when it is above 0; at 0 it
/// closes the enrollment instead.
pub proof fn lemma_enroll_reports_count<E>(
    en: u16,
    body: Seq<u8>,
    ev: EventView,
    args: Seq<(u16, Seq<u8>)>,
)
    requires
        6 <= body.len(),
        single_packet(body),
        parse_payload(body.subrange(6, body.len() as int), 0x0002) == Some(args),
        has_arg(args, ARG_RESULT),
    ensures
        ({
            let op = OperationView::Link {
                job: Job::EnrollAdd,
                command: Command::DoEnroll { state: 0x04 },
                phase: LinkPhaseView::Confirm { body },
            };
            let n = last_word(args, ARG_COUNT, 0);
            &&& n > 0 ==> op_next::<E>(op, en, ev) == (
                OperationView::EnrollProgress,
                en,
                ActionView::<E>::Progress(n),
            )
            &&& n == 0 ==> op_next::<E>(op, en, ev).2 == ActionView::<E>::Exchange(
                frame_spec(Command::DoEnroll { state: 0x05 }.request_spec()),
            )
        }),
{
}

/// Reset drives the reset line low, waits for the caller's delay, drives it
/// high again, and only then reports 0: over any run of the events it takes,
/// the actions are exactly low, delay, high, finish with 0.
pub proof fn lemma_reset_run<E>(en: u16, e1: EventView, e2: EventView, e3: EventView)
    ensures
        ({
            let t = trace::<E>(OperationView::ResetLow, en, seq![e1, e2, e3]);
            &&& seq![ActionView::<E>::SetReset { high: false }] + t.2 == seq![
                ActionView::<E>::SetReset { high: false },
                ActionView::<E>::Delay,
                ActionView::<E>::SetReset { high: true },
                ActionView::<E>::Finish(Ok(0)),
            ]
            &&& t.0 == OperationView::Idle
            &&& t.1 == en
        }),
{
    let evs = seq![e1, e2, e3];
    assert(evs.drop_first() =~= seq![e2, e3]);
    assert(seq![e2, e3].drop_first() =~= seq![e3]);
    assert(seq![e3].drop_first() =~= Seq::<EventView>::empty());
    reveal_with_fuel(trace, 4);
    let t = trace::<E>(OperationView::ResetLow, en, evs);
    assert(seq![ActionView::<E>::SetReset { high: false }] + t.2 =~= seq![
        ActionView::<E>::SetReset { high: false },
        ActionView::<E>::Delay,
        ActionView::<E>::SetReset { high: true },
        ActionView::<E>::Finish(Ok(0)),
    ]);
}

} // verus!
