//! The BM-Lite driver: its commands, their replies, and the operations built
//! from them, as a state machine that an I/O loop drives.

use crate::endian::{le16, le32, le_read_uint, le_value};
use crate::link::{
    frame_request, frame_spec, link_accepts, link_accepts_event, link_next, link_step,
    single_packet, Action, ActionView, Event, EventView, LinkPhase, LinkPhaseView, LinkStep,
    LinkStepView,
};
use crate::response::{lemma_payload_roundtrip, parse_payload, parse_result};
use crate::transport::{
    add_arg, add_arg_u16, add_arg_u32, bump_count, create_transport_buffer, encode_arg,
    encode_payload, lemma_add_encoded, lemma_command_only, set_cmd, transport_header,
};
use vstd::prelude::*;
use vstd::slice::{slice_subrange, slice_to_vec};

verus! {

/// What can go wrong in a driver operation.
#[derive(Debug, PartialEq, Eq)]
pub enum Error<E> {
    UnexpectedResponse,
    Timeout,
    CRCError,
    NoMatch,
    HalErr(E),
}

/// Reply argument: the result of the command.
pub const ARG_RESULT: u16 = 0x2001;

/// Reply argument: a count the command reports (images still needed to enroll).
pub const ARG_COUNT: u16 = 0x2002;

/// Request argument: a timeout in milliseconds.
pub const ARG_TIMEOUT: u16 = 0x5001;

/// Reply argument: whether the identified finger matched.
pub const ARG_MATCH: u16 = 0x000A;

/// Reply argument: the template id of the match.
pub const ARG_ID: u16 = 0x0006;

/// An argument's data read as a number, least significant byte first, and
/// cut to its low 32 bits.
pub open spec fn arg_word(data: Seq<u8>) -> u32 {
    (le_value(data) % 0x1_0000_0000) as u32
}

/// Whether some argument has id `id`.
pub open spec fn has_arg(args: Seq<(u16, Seq<u8>)>, id: u16) -> bool {
    exists|i: int| 0 <= i < args.len() && #[trigger] args[i].0 == id
}

/// The number in the last argument with id `id`, or `default` where there is none.
pub open spec fn last_word(args: Seq<(u16, Seq<u8>)>, id: u16, default: u32) -> u32
    decreases args.len(),
{
    if args.len() == 0 {
        default
    } else if args.last().0 == id {
        arg_word(args.last().1)
    } else {
        last_word(args.drop_last(), id, default)
    }
}

/// Whether every argument with id `id` holds between one and eight bytes, as
/// reading it as a number requires.
pub open spec fn readable(args: Seq<(u16, Seq<u8>)>, id: u16) -> bool {
    forall|i: int| 0 <= i < args.len() && #[trigger] args[i].0 == id ==> 1 <= args[i].1.len() <= 8
}

/// How `has_arg` and `last_word` change when one more argument is read.
proof fn lemma_args_push(seen: Seq<(u16, Seq<u8>)>, x: (u16, Seq<u8>), id: u16, default: u32)
    ensures
        has_arg(seen.push(x), id) == (has_arg(seen, id) || x.0 == id),
        last_word(seen.push(x), id, default) == if x.0 == id {
            arg_word(x.1)
        } else {
            last_word(seen, id, default)
        },
{
    let s = seen.push(x);
    assert(s.drop_last() =~= seen);
    if has_arg(seen, id) {
        let j = choose|j: int| 0 <= j < seen.len() && #[trigger] seen[j].0 == id;
        assert(s[j].0 == id);
    }
    if x.0 == id {
        assert(s[seen.len() as int].0 == id);
    }
    if has_arg(s, id) && x.0 != id {
        let j = choose|j: int| 0 <= j < s.len() && #[trigger] s[j].0 == id;
        assert(seen[j].0 == id);
    }
}

/// Whether some argument has id `id`.
fn contains_arg(args: &Vec<(u16, Vec<u8>)>, id: u16) -> (r: bool)
    ensures
        r == has_arg(args.deep_view(), id),
{
    let ghost all = args.deep_view();
    let mut found = false;
    let mut i: usize = 0;
    assert(all.take(0) =~= Seq::<(u16, Seq<u8>)>::empty());
    while i < args.len()
        invariant
            i <= args.len(),
            all == args.deep_view(),
            found == has_arg(all.take(i as int), id),
        decreases args.len() - i,
    {
        proof {
            lemma_args_push(all.take(i as int), all[i as int], id, 0);
            assert(all.take(i + 1) =~= all.take(i as int).push(all[i as int]));
        }
        if args[i].0 == id {
            found = true;
        }
        i = i + 1;
    }
    assert(all.take(i as int) =~= all);
    found
}

/// Whether `id` occurs among the arguments, and the number in the last one
/// with that id (or `default`).
fn scan(args: &Vec<(u16, Vec<u8>)>, id: u16, default: u32) -> (r: (bool, u32))
    requires
        readable(args.deep_view(), id),
    ensures
        r.0 == has_arg(args.deep_view(), id),
        r.1 == last_word(args.deep_view(), id, default),
{
    let ghost all = args.deep_view();
    let mut found = false;
    let mut value = default;
    let mut i: usize = 0;
    assert(all.take(0) =~= Seq::<(u16, Seq<u8>)>::empty());
    while i < args.len()
        invariant
            i <= args.len(),
            all == args.deep_view(),
            readable(all, id),
            found == has_arg(all.take(i as int), id),
            value == last_word(all.take(i as int), id, default),
        decreases args.len() - i,
    {
        let arg = &args[i];
        proof {
            lemma_args_push(all.take(i as int), all[i as int], id, default);
            assert(all.take(i + 1) =~= all.take(i as int).push(all[i as int]));
            assert(all[i as int].1 =~= arg.1@);
        }
        if arg.0 == id {
            let n = arg.1.len();
            let x = le_read_uint(arg.1.as_slice(), n);
            assert(arg.1@.subrange(0, n as int) =~= arg.1@);
            assert((x & 0xffff_ffff) as u32 == (x % 0x1_0000_0000) as u32) by (bit_vector);
            value = (x & 0xffff_ffff) as u32;
            found = true;
        }
        i = i + 1;
    }
    assert(all.take(i as int) =~= all);
    (found, value)
}

/// A fresh request for `cmd` without arguments.
fn with_command(cmd: u16) -> (r: Vec<u8>)
    ensures
        r@ == transport_header() + encode_payload(cmd, Seq::empty()),
{
    proof {
        lemma_command_only(cmd);
    }
    set_cmd(create_transport_buffer(), cmd)
}

/// The request with one more argument, without data.
fn with_arg(t: Vec<u8>, Ghost(cmd): Ghost<u16>, Ghost(args): Ghost<Seq<(u16, Seq<u8>)>>, id: u16) -> (r: Vec<u8>)
    requires
        args.len() < 255,
        t@ == transport_header() + encode_payload(cmd, args),
    ensures
        r@ == transport_header() + encode_payload(cmd, args.push((id, Seq::empty()))),
{
    proof {
        lemma_add_encoded(cmd, args, (id, Seq::empty()));
    }
    let r = add_arg(t, id);
    assert(r@ =~= bump_count(t@) + encode_arg((id, Seq::empty())));
    r
}

/// The request with one more argument holding a 32-bit number.
fn with_word_arg(
    t: Vec<u8>,
    Ghost(cmd): Ghost<u16>,
    Ghost(args): Ghost<Seq<(u16, Seq<u8>)>>,
    id: u16,
    data: u32,
) -> (r: Vec<u8>)
    requires
        args.len() < 255,
        t@ == transport_header() + encode_payload(cmd, args),
    ensures
        r@ == transport_header() + encode_payload(cmd, args.push((id, le32(data)))),
{
    proof {
        lemma_add_encoded(cmd, args, (id, le32(data)));
    }
    let r = add_arg_u32(t, id, data);
    assert(r@ =~= bump_count(t@) + encode_arg((id, le32(data))));
    r
}

/// The commands of the module and their arguments.
#[derive(Clone, Copy)]
pub enum Command {
    GetVersion,
    Capture { timeout: u32 },
    DoEnroll { state: u16 },
    DoSaveTemplate { tplid: u16 },
    DoExtract,
    DoIdentify,
    WaitFingerUp { timeout: u32 },
    DeleteAll,
}

impl Command {
    /// The command's code on the wire.
    pub open spec fn code(self) -> u16 {
        match self {
            Command::GetVersion => 0x3004,
            Command::Capture { .. } => 0x0001,
            Command::DoEnroll { .. } => 0x0002,
            Command::DoSaveTemplate { .. } => 0x0006,
            Command::DoExtract => 0x0005,
            Command::DoIdentify => 0x0003,
            Command::WaitFingerUp { .. } => 0x0007,
            Command::DeleteAll => 0x4002,
        }
    }

    /// The arguments the request carries, in order.
    pub open spec fn args(self) -> Seq<(u16, Seq<u8>)> {
        match self {
            Command::GetVersion => seq![(0x1004u16, Seq::empty())],
            Command::Capture { timeout } => if timeout != 0 {
                seq![(ARG_TIMEOUT, le32(timeout))]
            } else {
                Seq::empty()
            },
            Command::DoEnroll { state } => if state != 0 {
                seq![(state, Seq::empty())]
            } else {
                Seq::empty()
            },
            Command::DoSaveTemplate { tplid } => seq![
                (0x1008u16, Seq::empty()),
                (ARG_ID, le16(tplid)),
            ],
            Command::DoExtract => seq![(0x0008u16, Seq::empty())],
            Command::DoIdentify => Seq::empty(),
            Command::WaitFingerUp { timeout } => (if timeout != 0 {
                seq![(ARG_TIMEOUT, le32(timeout))]
            } else {
                Seq::empty()
            }) + seq![(0x0002u16, Seq::empty())],
            Command::DeleteAll => seq![(0x1009u16, Seq::empty()), (0x0007u16, Seq::empty())],
        }
    }

    /// The transport buffer of the request: header, command, arguments.
    pub open spec fn request_spec(self) -> Seq<u8> {
        transport_header() + encode_payload(self.code(), self.args())
    }

    /// Builds the transport buffer of the request.
    pub fn request(&self) -> (r: Vec<u8>)
        ensures
            r@ == self.request_spec(),
    {
        let ghost none = Seq::<(u16, Seq<u8>)>::empty();
        let ghost empty = Seq::<u8>::empty();
        match self {
            Command::GetVersion => {
                let t = with_command(0x3004);
                with_arg(t, Ghost(0x3004), Ghost(none), 0x1004)
            },
            Command::Capture { timeout } => {
                let t = with_command(0x0001);
                if *timeout != 0 {
                    with_word_arg(t, Ghost(0x0001), Ghost(none), ARG_TIMEOUT, *timeout)
                } else {
                    t
                }
            },
            Command::DoEnroll { state } => {
                let t = with_command(0x0002);
                if *state != 0 {
                    with_arg(t, Ghost(0x0002), Ghost(none), *state)
                } else {
                    t
                }
            },
            Command::DoSaveTemplate { tplid } => {
                let t = with_command(0x0006);
                let t = with_arg(t, Ghost(0x0006), Ghost(none), 0x1008);
                let ghost args = none.push((0x1008u16, empty));
                proof {
                    lemma_add_encoded(0x0006, args, (ARG_ID, le16(*tplid)));
                }
                let r = add_arg_u16(t, ARG_ID, *tplid);
                assert(r@ =~= bump_count(t@) + encode_arg((ARG_ID, le16(*tplid))));
                assert(args.push((ARG_ID, le16(*tplid))) =~= self.args());
                r
            },
            Command::DoExtract => {
                let t = with_command(0x0005);
                with_arg(t, Ghost(0x0005), Ghost(none), 0x0008)
            },
            Command::DoIdentify => with_command(0x0003),
            Command::WaitFingerUp { timeout } => {
                let t = with_command(0x0007);
                let ghost first = if *timeout != 0 {
                    seq![(ARG_TIMEOUT, le32(*timeout))]
                } else {
                    none
                };
                let t = if *timeout != 0 {
                    with_word_arg(t, Ghost(0x0007), Ghost(none), ARG_TIMEOUT, *timeout)
                } else {
                    t
                };
                assert(none.push((ARG_TIMEOUT, le32(*timeout))) =~= seq![(ARG_TIMEOUT, le32(*timeout))]);
                let r = with_arg(t, Ghost(0x0007), Ghost(first), 0x0002);
                assert(first.push((0x0002u16, empty)) =~= self.args());
                r
            },
            Command::DeleteAll => {
                let t = with_command(0x4002);
                let t = with_arg(t, Ghost(0x4002), Ghost(none), 0x1009);
                let r = with_arg(t, Ghost(0x4002), Ghost(none.push((0x1009u16, empty))), 0x0007);
                assert(none.push((0x1009u16, empty)).push((0x0007u16, empty)) =~= self.args());
                r
            },
        }
    }

    /// Whether the arguments the reply is read for can be read as numbers.
    pub open spec fn reply_readable(self, args: Seq<(u16, Seq<u8>)>) -> bool {
        match self {
            Command::Capture { .. } | Command::WaitFingerUp { .. } | Command::DeleteAll => readable(
                args,
                ARG_RESULT,
            ),
            Command::DoEnroll { .. } | Command::DoExtract => readable(args, ARG_COUNT),
            Command::DoIdentify => readable(args, ARG_MATCH) && readable(args, ARG_ID),
            _ => true,
        }
    }

    /// What a reply with these arguments means: every command fails without a
    /// result argument; the identify command fails with `NoMatch` first when
    /// the match argument is absent or zero.
    pub open spec fn outcome<E>(self, args: Seq<(u16, Seq<u8>)>) -> Result<u32, Error<E>> {
        match self {
            Command::DoIdentify => if last_word(args, ARG_MATCH, 0) == 0 {
                Err(Error::NoMatch)
            } else if has_arg(args, ARG_RESULT) {
                Ok(last_word(args, ARG_ID, 0xffff_ffff))
            } else {
                Err(Error::UnexpectedResponse)
            },
            _ => if !has_arg(args, ARG_RESULT) {
                Err(Error::UnexpectedResponse)
            } else {
                match self {
                    Command::Capture { .. } | Command::WaitFingerUp { .. } | Command::DeleteAll => Ok(
                        last_word(args, ARG_RESULT, 0) % 256,
                    ),
                    Command::DoEnroll { .. } | Command::DoExtract => Ok(
                        last_word(args, ARG_COUNT, 0),
                    ),
                    _ => Ok(0),
                }
            },
        }
    }

    /// Reads a reply's arguments as this command's result.
    pub fn interpret<E>(&self, args: &Vec<(u16, Vec<u8>)>) -> (r: Result<u32, Error<E>>)
        requires
            self.reply_readable(args.deep_view()),
        ensures
            r == self.outcome::<E>(args.deep_view()),
    {
        match self {
            Command::DoIdentify => {
                let (_, litematch) = scan(args, ARG_MATCH, 0);
                let (_, remaining) = scan(args, ARG_ID, 0xffff_ffff);
                let ok_resp = contains_arg(args, ARG_RESULT);
                if litematch == 0 {
                    return Err(Error::NoMatch);
                }
                if ok_resp && litematch != 0 {
                    return Ok(remaining);
                }
                Err(Error::UnexpectedResponse)
            },
            Command::Capture { .. } | Command::WaitFingerUp { .. } | Command::DeleteAll => {
                let (ok_resp, result) = scan(args, ARG_RESULT, 0);
                if ok_resp {
                    assert((result as u8) as u32 == result % 256) by (bit_vector);
                    return Ok((result as u8) as u32);
                }
                Err(Error::UnexpectedResponse)
            },
            Command::DoEnroll { .. } | Command::DoExtract => {
                let ok_resp = contains_arg(args, ARG_RESULT);
                let (_, remaining) = scan(args, ARG_COUNT, 0);
                if ok_resp {
                    return Ok(remaining);
                }
                Err(Error::UnexpectedResponse)
            },
            Command::GetVersion | Command::DoSaveTemplate { .. } => {
                let ok_resp = contains_arg(args, ARG_RESULT);
                if !ok_resp {
                    return Err(Error::UnexpectedResponse);
                }
                Ok(0)
            },
        }
    }
}

impl Command {
    /// The command's code on the wire.
    pub fn opcode(&self) -> (r: u16)
        ensures
            r == self.code(),
    {
        match self {
            Command::GetVersion => 0x3004,
            Command::Capture { .. } => 0x0001,
            Command::DoEnroll { .. } => 0x0002,
            Command::DoSaveTemplate { .. } => 0x0006,
            Command::DoExtract => 0x0005,
            Command::DoIdentify => 0x0003,
            Command::WaitFingerUp { .. } => 0x0007,
            Command::DeleteAll => 0x4002,
        }
    }

    /// Whether the arguments the reply is read for can be read as numbers.
    pub fn reply_is_readable(&self, args: &Vec<(u16, Vec<u8>)>) -> (r: bool)
        ensures
            r == self.reply_readable(args.deep_view()),
    {
        match self {
            Command::Capture { .. } | Command::WaitFingerUp { .. } | Command::DeleteAll => all_readable(
                args,
                ARG_RESULT,
            ),
            Command::DoEnroll { .. } | Command::DoExtract => all_readable(args, ARG_COUNT),
            Command::DoIdentify => all_readable(args, ARG_MATCH) && all_readable(args, ARG_ID),
            _ => true,
        }
    }

    /// The request frame for this command is within what `frame_request` takes.
    proof fn lemma_request_frameable(self)
        ensures
            10 <= self.request_spec().len() <= 30,
            (self.request_spec().len() as u32) == self.request_spec().len(),
            crate::link::declared_size(self.request_spec()) < 250,
    {
        reveal_with_fuel(crate::transport::encode_args, 3);
        let args = self.args();
        assert(args.len() <= 2);
        if args.len() == 2 {
            assert(args.drop_last().drop_last().len() == 0);
        }
    }
}

/// Whether every argument with id `id` holds between one and eight bytes.
fn all_readable(args: &Vec<(u16, Vec<u8>)>, id: u16) -> (r: bool)
    ensures
        r == readable(args.deep_view(), id),
{
    let ghost all = args.deep_view();
    let mut i: usize = 0;
    while i < args.len()
        invariant
            i <= args.len(),
            all == args.deep_view(),
            forall|k: int| 0 <= k < i && #[trigger] all[k].0 == id ==> 1 <= all[k].1.len() <= 8,
        decreases args.len() - i,
    {
        let arg = &args[i];
        assert(all[i as int].1 =~= arg.1@);
        if arg.0 == id && (arg.1.len() < 1 || arg.1.len() > 8) {
            assert(all[i as int].0 == id);
            return false;
        }
        i = i + 1;
    }
    true
}

/// The step a multi-command operation is at while one of its commands runs.
#[derive(Clone, Copy)]
pub enum Job {
    /// A single command; its result ends the operation.
    Single,
    /// Identify: capturing the image.
    IdentifyCapture,
    /// Identify: extracting the template.
    IdentifyExtract,
    /// Enroll: opening the enrollment.
    EnrollBegin,
    /// Enroll: waiting for the finger to lift.
    EnrollWait,
    /// Enroll: capturing an image.
    EnrollCapture,
    /// Enroll: adding the image; the reply counts the images still needed.
    EnrollAdd,
    /// Enroll: closing the enrollment.
    EnrollFinish,
    /// Enroll: saving the template under the next id.
    EnrollSave,
}

/// What the driver is doing.
pub enum Operation {
    /// Nothing: the last operation finished.
    Idle,
    /// Reset: the reset line is being pulled low.
    ResetLow,
    /// Reset: the caller's delay is running.
    ResetDelay,
    /// Reset: the reset line is being released.
    ResetHigh,
    /// Enroll: the first progress report is out, the enrollment not yet opened.
    EnrollAnnounce,
    /// Enroll: a progress report is out before the next image.
    EnrollProgress,
    /// A command of `job` is on the link.
    Link { job: Job, command: Command, phase: LinkPhase },
}

/// An operation as the contracts see it.
#[verifier::ext_equal]
pub enum OperationView {
    Idle,
    ResetLow,
    ResetDelay,
    ResetHigh,
    EnrollAnnounce,
    EnrollProgress,
    Link { job: Job, command: Command, phase: LinkPhaseView },
}

impl View for Operation {
    type V = OperationView;

    open spec fn view(&self) -> OperationView {
        match self {
            Operation::Idle => OperationView::Idle,
            Operation::ResetLow => OperationView::ResetLow,
            Operation::ResetDelay => OperationView::ResetDelay,
            Operation::ResetHigh => OperationView::ResetHigh,
            Operation::EnrollAnnounce => OperationView::EnrollAnnounce,
            Operation::EnrollProgress => OperationView::EnrollProgress,
            Operation::Link { job, command, phase } => OperationView::Link {
                job: *job,
                command: *command,
                phase: phase@,
            },
        }
    }
}

/// Sending `command` for `job`: its framed request goes out first.
pub open spec fn begin<E>(command: Command, job: Job, enrolled: u16) -> (
    OperationView,
    u16,
    ActionView<E>,
) {
    (
        OperationView::Link { job, command, phase: LinkPhaseView::Request },
        enrolled,
        ActionView::Exchange(frame_spec(command.request_spec())),
    )
}

/// What an operation does once a command of `job` succeeded with `v`.
pub open spec fn job_next<E>(job: Job, enrolled: u16, v: u32) -> (OperationView, u16, ActionView<E>) {
    match job {
        Job::Single => (OperationView::Idle, enrolled, ActionView::Finish(Ok(v))),
        Job::IdentifyCapture => begin(Command::DoExtract, Job::IdentifyExtract, enrolled),
        Job::IdentifyExtract => begin(Command::DoIdentify, Job::Single, enrolled),
        Job::EnrollBegin => (OperationView::EnrollProgress, enrolled, ActionView::Progress(100)),
        Job::EnrollWait => begin(Command::Capture { timeout: 0 }, Job::EnrollCapture, enrolled),
        Job::EnrollCapture => begin(Command::DoEnroll { state: 0x04 }, Job::EnrollAdd, enrolled),
        Job::EnrollAdd => if v > 0 {
            (OperationView::EnrollProgress, enrolled, ActionView::Progress(v))
        } else {
            begin(Command::DoEnroll { state: 0x05 }, Job::EnrollFinish, enrolled)
        },
        Job::EnrollFinish => begin(Command::DoSaveTemplate { tplid: enrolled }, Job::EnrollSave, enrolled),
        Job::EnrollSave => (OperationView::Idle, (enrolled + 1) as u16, ActionView::Finish(Ok(0))),
    }
}

/// Whether the reply `body` (past its CRC check) can be taken without the
/// driver failing: its numbers readable, and a saved template countable.
pub open spec fn reply_defined(job: Job, command: Command, enrolled: u16, body: Seq<u8>) -> bool {
    single_packet(body) ==> match parse_payload(body.subrange(6, body.len() as int), command.code()) {
        Some(args) => command.reply_readable(args) && (job is EnrollSave && command.outcome::<()>(
            args,
        ) is Ok ==> enrolled < 0xffff),
        None => true,
    }
}

/// The events the driver takes in each operation without failing.
pub open spec fn op_accepts(op: OperationView, enrolled: u16, ev: EventView) -> bool {
    match op {
        OperationView::Idle => false,
        OperationView::Link { job, command, phase } => link_accepts(phase, ev) && match phase {
            LinkPhaseView::Confirm { body } => reply_defined(job, command, enrolled, body),
            _ => true,
        },
        _ => ev is Done,
    }
}

/// One step of the driver: the next operation, enrolled-finger count and action.
pub open spec fn op_next<E>(op: OperationView, enrolled: u16, ev: EventView) -> (
    OperationView,
    u16,
    ActionView<E>,
) {
    match op {
        OperationView::Idle => (
            OperationView::Idle,
            enrolled,
            ActionView::Finish(Err(Error::UnexpectedResponse)),
        ),
        OperationView::ResetLow => (OperationView::ResetDelay, enrolled, ActionView::Delay),
        OperationView::ResetDelay => (
            OperationView::ResetHigh,
            enrolled,
            ActionView::SetReset { high: true },
        ),
        OperationView::ResetHigh => (OperationView::Idle, enrolled, ActionView::Finish(Ok(0))),
        OperationView::EnrollAnnounce => begin(
            Command::DoEnroll { state: 0x03 },
            Job::EnrollBegin,
            enrolled,
        ),
        OperationView::EnrollProgress => begin(
            Command::WaitFingerUp { timeout: 0 },
            Job::EnrollWait,
            enrolled,
        ),
        OperationView::Link { job, command, phase } => match link_next::<E>(phase, ev) {
            LinkStepView::Next(p, a) => (OperationView::Link { job, command, phase: p }, enrolled, a),
            LinkStepView::Complete(Err(e)) => (OperationView::Idle, enrolled, ActionView::Finish(Err(e))),
            LinkStepView::Complete(Ok(payload)) => match parse_payload(payload, command.code()) {
                None => (
                    OperationView::Idle,
                    enrolled,
                    ActionView::Finish(Err(Error::UnexpectedResponse)),
                ),
                Some(args) => match command.outcome::<E>(args) {
                    Err(e) => (OperationView::Idle, enrolled, ActionView::Finish(Err(e))),
                    Ok(v) => job_next(job, enrolled, v),
                },
            },
        },
    }
}

/// The driver: the module's SPI bus, chip select, reset and ready lines, the
/// number of fingers enrolled so far, and the operation under way.
pub struct BmLite<SPI, CS, RST, IRQ> {
    pub spi: SPI,
    pub cs: CS,
    pub rst: RST,
    pub irq: IRQ,
    enrolledfingers: u16,
    op: Operation,
}

impl<SPI, CS, RST, IRQ> BmLite<SPI, CS, RST, IRQ> {
    /// The operation under way.
    pub closed spec fn operation(&self) -> OperationView {
        self.op@
    }

    /// The interfaces the driver holds: bus, chip select, reset line, ready line.
    pub closed spec fn interfaces(&self) -> (SPI, CS, RST, IRQ) {
        (self.spi, self.cs, self.rst, self.irq)
    }

    /// How many fingers were enrolled through this driver.
    pub closed spec fn enrolled(&self) -> u16 {
        self.enrolledfingers
    }

    /// Creates a new driver from an SPI peripheral, a chip select, a reset and
    /// a ready pin; no finger is enrolled and nothing is under way.
    pub fn new(spi: SPI, cs: CS, rst: RST, irq: IRQ) -> (r: Self)
        ensures
            r.interfaces() == (spi, cs, rst, irq),
            r.enrolled() == 0,
            r.operation() == OperationView::Idle,
    {
        BmLite { spi: spi, cs: cs, rst: rst, irq: irq, enrolledfingers: 0, op: Operation::Idle }
    }

    /// Gives the interfaces back.
    pub fn teardown(self) -> (r: (SPI, (CS, RST, IRQ)))
        ensures
            r == (self.interfaces().0, (self.interfaces().1, self.interfaces().2, self.interfaces().3)),
    {
        (self.spi, (self.cs, self.rst, self.irq))
    }

    /// Sends `command` for `job`.
    fn begin<E>(&mut self, command: Command, job: Job) -> (a: Action<E>)
        ensures
            (final(self).operation(), final(self).enrolled(), a@) == begin::<E>(
                command,
                job,
                old(self).enrolled(),
            ),
            final(self).interfaces() == old(self).interfaces(),
    {
        proof {
            command.lemma_request_frameable();
        }
        let frame = frame_request(command.request());
        self.op = Operation::Link { job, command, phase: LinkPhase::Request };
        Action::Exchange(frame)
    }

    /// What a command of `job` leads to once it succeeded with `v`.
    fn job_done<E>(&mut self, job: Job, v: u32) -> (a: Action<E>)
        requires
            old(self).operation() == OperationView::Idle,
            job is EnrollSave ==> old(self).enrolled() < 0xffff,
        ensures
            (final(self).operation(), final(self).enrolled(), a@) == job_next::<E>(
                job,
                old(self).enrolled(),
                v,
            ),
            final(self).interfaces() == old(self).interfaces(),
    {
        match job {
            Job::Single => Action::Finish(Ok(v)),
            Job::IdentifyCapture => self.begin(Command::DoExtract, Job::IdentifyExtract),
            Job::IdentifyExtract => self.begin(Command::DoIdentify, Job::Single),
            Job::EnrollBegin => {
                self.op = Operation::EnrollProgress;
                Action::Progress(100)
            },
            Job::EnrollWait => self.begin(Command::Capture { timeout: 0 }, Job::EnrollCapture),
            Job::EnrollCapture => self.begin(Command::DoEnroll { state: 0x04 }, Job::EnrollAdd),
            Job::EnrollAdd => {
                if v > 0 {
                    self.op = Operation::EnrollProgress;
                    Action::Progress(v)
                } else {
                    self.begin(Command::DoEnroll { state: 0x05 }, Job::EnrollFinish)
                }
            },
            Job::EnrollFinish => {
                let e = self.enrolledfingers;
                self.begin(Command::DoSaveTemplate { tplid: e }, Job::EnrollSave)
            },
            Job::EnrollSave => {
                self.enrolledfingers = self.enrolledfingers + 1;
                Action::Finish(Ok(0))
            },
        }
    }

    /// Whether `step` takes `event` now. It does not where the event does not
    /// answer the action last asked for, and where the reply cannot be taken:
    /// a CRC-valid reply shorter than six bytes (its sequence fields cannot be
    /// read), a number argument of no or more than eight bytes, or a template
    /// saved when `u16::MAX` fingers are already counted. The I/O loop stops
    /// with a panic there.
    pub fn accepts(&self, event: &Event) -> (r: bool)
        ensures
            r == op_accepts(self.operation(), self.enrolled(), event@),
    {
        match &self.op {
            Operation::Idle => false,
            Operation::Link { job, command, phase } => {
                if !link_accepts_event(phase, event) {
                    return false;
                }
                match phase {
                    LinkPhase::Confirm { body } => {
                        if body[2] != body[4] || body[3] != body[5] {
                            return true;
                        }
                        let payload = slice_to_vec(slice_subrange(body.as_slice(), 6, body.len()));
                        match parse_result::<()>(&payload, command.opcode()) {
                            Err(_) => true,
                            Ok(args) => {
                                if !command.reply_is_readable(&args) {
                                    return false;
                                }
                                match (job, command.interpret::<()>(&args)) {
                                    (Job::EnrollSave, Ok(_)) => self.enrolledfingers < 0xffff,
                                    _ => true,
                                }
                            },
                        }
                    },
                    _ => true,
                }
            },
            _ => match event {
                Event::Done => true,
                _ => false,
            },
        }
    }

    /// Takes the event that answers the last action and gives the next action.
    pub fn step<E>(&mut self, event: Event) -> (a: Action<E>)
        requires
            op_accepts(old(self).operation(), old(self).enrolled(), event@),
        ensures
            (final(self).operation(), final(self).enrolled(), a@) == op_next::<E>(
                old(self).operation(),
                old(self).enrolled(),
                event@,
            ),
            final(self).interfaces() == old(self).interfaces(),
    {
        let mut op = Operation::Idle;
        core::mem::swap(&mut op, &mut self.op);
        match op {
            Operation::Idle => Action::Finish(Err(Error::UnexpectedResponse)),
            Operation::ResetLow => {
                self.op = Operation::ResetDelay;
                Action::Delay
            },
            Operation::ResetDelay => {
                self.op = Operation::ResetHigh;
                Action::SetReset { high: true }
            },
            Operation::ResetHigh => Action::Finish(Ok(0)),
            Operation::EnrollAnnounce => self.begin(Command::DoEnroll { state: 0x03 }, Job::EnrollBegin),
            Operation::EnrollProgress => self.begin(
                Command::WaitFingerUp { timeout: 0 },
                Job::EnrollWait,
            ),
            Operation::Link { job, command, phase } => {
                let ghost body = phase@;
                match link_step::<E>(phase, event) {
                    LinkStep::Next(p, a) => {
                        self.op = Operation::Link { job, command, phase: p };
                        a
                    },
                    LinkStep::Complete(Err(e)) => Action::Finish(Err(e)),
                    LinkStep::Complete(Ok(payload)) => {
                        match parse_result::<E>(&payload, command.opcode()) {
                            Err(e) => Action::Finish(Err(e)),
                            Ok(args) => {
                                proof {
                                    assert(body is Confirm);
                                    assert(command.reply_readable(args.deep_view()));
                                }
                                match command.interpret::<E>(&args) {
                                    Err(e) => Action::Finish(Err(e)),
                                    Ok(v) => self.job_done(job, v),
                                }
                            },
                        }
                    },
                }
            },
        }
    }

    /// Resets the module: pulls the reset line low, waits for the caller's
    /// delay, releases the line, and finishes with 0.
    pub fn reset<E>(&mut self) -> (a: Action<E>)
        ensures
            final(self).operation() == OperationView::ResetLow,
            final(self).enrolled() == old(self).enrolled(),
            final(self).interfaces() == old(self).interfaces(),
            a@ == (ActionView::<E>::SetReset { high: false }),
    {
        self.op = Operation::ResetLow;
        Action::SetReset { high: false }
    }

    /// Asks for the firmware version; finishes with 0 when the reply carries a result.
    pub fn get_version<E>(&mut self) -> (a: Action<E>)
        ensures
            (final(self).operation(), final(self).enrolled(), a@) == begin::<E>(
                Command::GetVersion,
                Job::Single,
                old(self).enrolled(),
            ),
            final(self).interfaces() == old(self).interfaces(),
    {
        self.begin(Command::GetVersion, Job::Single)
    }

    /// Captures an image, waiting at most `timeout` ms (0: forever); finishes
    /// with the low byte of the capture result.
    pub fn capture<E>(&mut self, timeout: u32) -> (a: Action<E>)
        ensures
            (final(self).operation(), final(self).enrolled(), a@) == begin::<E>(
                Command::Capture { timeout },
                Job::Single,
                old(self).enrolled(),
            ),
            final(self).interfaces() == old(self).interfaces(),
    {
        self.begin(Command::Capture { timeout }, Job::Single)
    }

    /// Enrolls a finger: reports progress (100 first), opens the enrollment,
    /// then until the module needs no more images waits for the finger to lift,
    /// captures and adds an image, reporting the images still needed; closes the
    /// enrollment, saves the template under the next id and counts it.
    pub fn enroll<E>(&mut self) -> (a: Action<E>)
        ensures
            final(self).operation() == OperationView::EnrollAnnounce,
            final(self).enrolled() == old(self).enrolled(),
            final(self).interfaces() == old(self).interfaces(),
            a@ == ActionView::<E>::Progress(100),
    {
        self.op = Operation::EnrollAnnounce;
        Action::Progress(100)
    }

    /// Sends one enrollment step (`state` 0 sends none); finishes with the
    /// count the reply carries, 0 without one.
    pub fn do_enroll<E>(&mut self, state: u16) -> (a: Action<E>)
        ensures
            (final(self).operation(), final(self).enrolled(), a@) == begin::<E>(
                Command::DoEnroll { state },
                Job::Single,
                old(self).enrolled(),
            ),
            final(self).interfaces() == old(self).interfaces(),
    {
        self.begin(Command::DoEnroll { state }, Job::Single)
    }

    /// Saves the template just enrolled under id `tplid`; finishes with 0.
    pub fn do_savetemplate<E>(&mut self, tplid: u16) -> (a: Action<E>)
        ensures
            (final(self).operation(), final(self).enrolled(), a@) == begin::<E>(
                Command::DoSaveTemplate { tplid },
                Job::Single,
                old(self).enrolled(),
            ),
            final(self).interfaces() == old(self).interfaces(),
    {
        self.begin(Command::DoSaveTemplate { tplid }, Job::Single)
    }

    /// Extracts a template from the captured image; finishes with the count the
    /// reply carries, 0 without one.
    pub fn do_extract<E>(&mut self) -> (a: Action<E>)
        ensures
            (final(self).operation(), final(self).enrolled(), a@) == begin::<E>(
                Command::DoExtract,
                Job::Single,
                old(self).enrolled(),
            ),
            final(self).interfaces() == old(self).interfaces(),
    {
        self.begin(Command::DoExtract, Job::Single)
    }

    /// Identifies a finger: captures an image without timeout, extracts a
    /// template, and finishes as `do_identify` does.
    pub fn identify<E>(&mut self) -> (a: Action<E>)
        ensures
            (final(self).operation(), final(self).enrolled(), a@) == begin::<E>(
                Command::Capture { timeout: 0 },
                Job::IdentifyCapture,
                old(self).enrolled(),
            ),
            final(self).interfaces() == old(self).interfaces(),
    {
        self.begin(Command::Capture { timeout: 0 }, Job::IdentifyCapture)
    }

    /// Matches the extracted template; finishes with the id of the match, or
    /// fails with `NoMatch`.
    pub fn do_identify<E>(&mut self) -> (a: Action<E>)
        ensures
            (final(self).operation(), final(self).enrolled(), a@) == begin::<E>(
                Command::DoIdentify,
                Job::Single,
                old(self).enrolled(),
            ),
            final(self).interfaces() == old(self).interfaces(),
    {
        self.begin(Command::DoIdentify, Job::Single)
    }

    /// Waits, at most `timeout` ms (0: forever), for the finger to lift;
    /// finishes with the low byte of the result.
    pub fn waitfingerup<E>(&mut self, timeout: u32) -> (a: Action<E>)
        ensures
            (final(self).operation(), final(self).enrolled(), a@) == begin::<E>(
                Command::WaitFingerUp { timeout },
                Job::Single,
                old(self).enrolled(),
            ),
            final(self).interfaces() == old(self).interfaces(),
    {
        self.begin(Command::WaitFingerUp { timeout }, Job::Single)
    }

    /// Deletes every stored template; finishes with the low byte of the result.
    pub fn delete_all<E>(&mut self) -> (a: Action<E>)
        ensures
            (final(self).operation(), final(self).enrolled(), a@) == begin::<E>(
                Command::DeleteAll,
                Job::Single,
                old(self).enrolled(),
            ),
            final(self).interfaces() == old(self).interfaces(),
    {
        self.begin(Command::DeleteAll, Job::Single)
    }
}

/// A request carries its command and arguments in the layout replies are read
/// in: parsed from byte 10 on, after the transport header, it gives back the
/// command's arguments. It needs an argument, as a reply shorter than six bytes
/// is refused.
pub proof fn lemma_request_payload(c: Command)
    requires
        c.args().len() >= 1,
    ensures
        parse_payload(
            c.request_spec().subrange(10, c.request_spec().len() as int),
            c.code(),
        ) == Some(c.args()),
{
    let r = c.request_spec();
    assert(r.subrange(10, r.len() as int) =~= encode_payload(c.code(), c.args()));
    assert(c.args().len() <= 2);
    assert forall|i: int| 0 <= i < c.args().len() implies #[trigger] c.args()[i].1.len() < 0x1_0000 by {}
    lemma_payload_roundtrip(c.code(), c.args());
}

/// An operation ends exactly when it reports its result: a step returns the
/// driver to idle if and only if its action is `Finish`.
pub proof fn lemma_finish_ends_operation<E>(op: OperationView, enrolled: u16, ev: EventView)
    requires
        op_accepts(op, enrolled, ev),
    ensures
        (op_next::<E>(op, enrolled, ev).2 is Finish) <==> (op_next::<E>(op, enrolled, ev).0
            == OperationView::Idle),
{
}

/// The count of enrolled fingers only ever grows by one, and only when an
/// enrollment's template was saved and the enrollment finishes with 0.
pub proof fn lemma_enrolled_count<E>(op: OperationView, enrolled: u16, ev: EventView)
    requires
        op_accepts(op, enrolled, ev),
    ensures
        ({
            let (next, count, action) = op_next::<E>(op, enrolled, ev);
            ||| count == enrolled
            ||| count == enrolled + 1 && action == ActionView::<E>::Finish(Ok(0)) && (op matches OperationView::Link { job: Job::EnrollSave, .. })
        }),
{
}

/// An enrollment saves its template under the number of fingers enrolled
/// before it: the save request it starts carries that number as the id.
pub proof fn lemma_save_under_count<E>(op: OperationView, enrolled: u16, ev: EventView)
    requires
        op_accepts(op, enrolled, ev),
        !(op matches OperationView::Link { job: Job::EnrollSave, .. }),
        op_next::<E>(op, enrolled, ev).0 matches OperationView::Link { job: Job::EnrollSave, .. },
    ensures
        op_next::<E>(op, enrolled, ev).0->command == (Command::DoSaveTemplate { tplid: enrolled }),
{
}

} // verus!
