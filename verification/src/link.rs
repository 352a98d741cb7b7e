//! The link protocol that carries one request and its reply over SPI: the
//! framed request, the acknowledgement, the reply header and the CRC-checked
//! reply, with the chip's ready line polled in between.

use crate::bmlitelib::Error;
use crate::checksum::{checksum_ieee, crc32_ieee};
use crate::endian::{lemma_le32_roundtrip, le32, le_read_u32, le_value};
use crate::transport::push_crc;
use vstd::prelude::*;
use vstd::slice::slice_subrange;

verus! {

/// What the I/O loop reports back after carrying out an action.
pub enum Event {
    /// The bytes clocked in while the action's bytes were clocked out.
    Transferred(Vec<u8>),
    /// The level of the ready line: `low` while the chip is busy.
    Irq { low: bool },
    /// A pin was driven, the delay elapsed, or progress was reported.
    Done,
}

/// An event as the contracts see it.
#[verifier::ext_equal]
pub enum EventView {
    Transferred(Seq<u8>),
    Irq { low: bool },
    Done,
}

impl View for Event {
    type V = EventView;

    open spec fn view(&self) -> EventView {
        match self {
            Event::Transferred(v) => EventView::Transferred(v@),
            Event::Irq { low } => EventView::Irq { low: *low },
            Event::Done => EventView::Done,
        }
    }
}

/// What the driver asks the I/O loop to do next.
pub enum Action<E> {
    /// Select the chip, clock these bytes out (and as many in), deselect it.
    Exchange(Vec<u8>),
    /// Read the ready line.
    PollIrq,
    /// Drive the reset line.
    SetReset { high: bool },
    /// Wait for the caller's reset delay.
    Delay,
    /// Report enrollment progress to the caller.
    Progress(u32),
    /// The operation is over, with this result.
    Finish(Result<u32, Error<E>>),
}

/// An action as the contracts see it.
#[verifier::ext_equal]
pub enum ActionView<E> {
    Exchange(Seq<u8>),
    PollIrq,
    SetReset { high: bool },
    Delay,
    Progress(u32),
    Finish(Result<u32, Error<E>>),
}

impl<E> View for Action<E> {
    type V = ActionView<E>;

    open spec fn view(&self) -> ActionView<E> {
        match self {
            Action::Exchange(v) => ActionView::Exchange(v@),
            Action::PollIrq => ActionView::PollIrq,
            Action::SetReset { high } => ActionView::SetReset { high: *high },
            Action::Delay => ActionView::Delay,
            Action::Progress(n) => ActionView::Progress(*n),
            Action::Finish(r) => ActionView::Finish(*r),
        }
    }
}

/// Where a link exchange stands.
pub enum LinkPhase {
    /// The request frame is being clocked out.
    Request,
    /// Waiting for the chip to get ready to acknowledge; `countdown` more busy
    /// readings are tolerated.
    WaitAck { countdown: i32 },
    /// The acknowledgement is being read.
    Ack,
    /// Waiting for the chip to get ready to reply.
    WaitHeader,
    /// The reply header is being read.
    Header,
    /// The reply, `size` bytes with its CRC, is being read.
    Body { size: usize },
    /// The reply passed its CRC and is being acknowledged.
    Confirm { body: Vec<u8> },
}

/// A link phase as the contracts see it.
#[verifier::ext_equal]
pub enum LinkPhaseView {
    Request,
    WaitAck { countdown: i32 },
    Ack,
    WaitHeader,
    Header,
    Body { size: usize },
    Confirm { body: Seq<u8> },
}

impl View for LinkPhase {
    type V = LinkPhaseView;

    open spec fn view(&self) -> LinkPhaseView {
        match self {
            LinkPhase::Request => LinkPhaseView::Request,
            LinkPhase::WaitAck { countdown } => LinkPhaseView::WaitAck { countdown: *countdown },
            LinkPhase::Ack => LinkPhaseView::Ack,
            LinkPhase::WaitHeader => LinkPhaseView::WaitHeader,
            LinkPhase::Header => LinkPhaseView::Header,
            LinkPhase::Body { size } => LinkPhaseView::Body { size: *size },
            LinkPhase::Confirm { body } => LinkPhaseView::Confirm { body: body@ },
        }
    }
}

/// The outcome of one link step.
pub enum LinkStep<E> {
    /// The exchange goes on in this phase with this action.
    Next(LinkPhase, Action<E>),
    /// The exchange is over: the reply's application payload, or why it failed.
    Complete(Result<Vec<u8>, Error<E>>),
}

/// A link step as the contracts see it.
#[verifier::ext_equal]
pub enum LinkStepView<E> {
    Next(LinkPhaseView, ActionView<E>),
    Complete(Result<Seq<u8>, Error<E>>),
}

impl<E> View for LinkStep<E> {
    type V = LinkStepView<E>;

    open spec fn view(&self) -> LinkStepView<E> {
        match self {
            LinkStep::Next(p, a) => LinkStepView::Next(p@, a@),
            LinkStep::Complete(Ok(v)) => LinkStepView::Complete(Ok(v@)),
            LinkStep::Complete(Err(e)) => LinkStepView::Complete(Err(*e)),
        }
    }
}

/// How many busy readings of the ready line are tolerated before the
/// acknowledgement.
pub const ACK_TIMEOUT: i32 = 500_000;

/// The four bytes that acknowledge a frame, in both directions.
pub open spec fn ack_magic() -> Seq<u8> {
    seq![0x7fu8, 0xff, 0x01, 0x7f]
}

/// `n` zero bytes: what is clocked out to read `n` bytes.
pub open spec fn zeros(n: nat) -> Seq<u8> {
    Seq::new(n, |i: int| 0u8)
}

/// The low byte of the transport size a request frame declares.
pub open spec fn declared_size(t: Seq<u8>) -> u8 {
    (((t.len() as u32) - 10) as u32 % 256) as u8
}

/// A transport buffer framed for sending: the link size (transport size plus
/// six) and the transport size written into bytes 2 to 5, then the CRC of
/// everything after the link header appended.
pub open spec fn frame_spec(t: Seq<u8>) -> Seq<u8> {
    let n = declared_size(t);
    let f = t.update(2, (n + 6) as u8).update(3, 0).update(4, n).update(5, 0);
    f + le32(crc32_ieee(f.subrange(4, f.len() as int)))
}

/// A reply whose last four bytes are, least significant first, the CRC of the rest.
pub open spec fn crc_sealed(v: Seq<u8>) -> bool {
    crc32_ieee(v.subrange(0, v.len() - 4)) == le_value(v.subrange(v.len() - 4, v.len() as int))
}

/// A reply that is a single packet: its sequence number equals its sequence length.
pub open spec fn single_packet(v: Seq<u8>) -> bool {
    v[2] == v[4] && v[3] == v[5]
}

/// The events a link phase can take without the driver failing.
pub open spec fn link_accepts(phase: LinkPhaseView, ev: EventView) -> bool {
    match phase {
        LinkPhaseView::Request => ev is Transferred,
        LinkPhaseView::WaitAck { countdown } => 0 <= countdown && ev is Irq,
        LinkPhaseView::Ack => ev matches EventView::Transferred(v) && v.len() == 4,
        LinkPhaseView::WaitHeader => ev is Irq,
        LinkPhaseView::Header => ev matches EventView::Transferred(v) && v.len() == 4,
        LinkPhaseView::Body { size } => 4 <= size && (ev matches EventView::Transferred(v) && v.len()
            == size),
        LinkPhaseView::Confirm { body } => 6 <= body.len() && ev is Transferred,
    }
}

/// One step of the link exchange.
pub open spec fn link_next<E>(phase: LinkPhaseView, ev: EventView) -> LinkStepView<E> {
    match phase {
        LinkPhaseView::Request => LinkStepView::Next(
            LinkPhaseView::WaitAck { countdown: ACK_TIMEOUT },
            ActionView::PollIrq,
        ),
        LinkPhaseView::WaitAck { countdown } => match ev {
            EventView::Irq { low: true } => if countdown - 1 < 0 {
                LinkStepView::Complete(Err(Error::Timeout))
            } else {
                LinkStepView::Next(
                    LinkPhaseView::WaitAck { countdown: (countdown - 1) as i32 },
                    ActionView::PollIrq,
                )
            },
            _ => LinkStepView::Next(LinkPhaseView::Ack, ActionView::Exchange(zeros(4))),
        },
        LinkPhaseView::Ack => match ev {
            EventView::Transferred(v) => if v == ack_magic() {
                LinkStepView::Next(LinkPhaseView::WaitHeader, ActionView::PollIrq)
            } else {
                LinkStepView::Complete(Err(Error::UnexpectedResponse))
            },
            _ => LinkStepView::Complete(Err(Error::UnexpectedResponse)),
        },
        LinkPhaseView::WaitHeader => match ev {
            EventView::Irq { low: true } => LinkStepView::Next(
                LinkPhaseView::WaitHeader,
                ActionView::PollIrq,
            ),
            _ => LinkStepView::Next(LinkPhaseView::Header, ActionView::Exchange(zeros(4))),
        },
        LinkPhaseView::Header => match ev {
            EventView::Transferred(v) => {
                let size = (4 + v[2]) as usize;
                LinkStepView::Next(
                    LinkPhaseView::Body { size },
                    ActionView::Exchange(zeros(size as nat)),
                )
            },
            _ => LinkStepView::Complete(Err(Error::UnexpectedResponse)),
        },
        LinkPhaseView::Body { size } => match ev {
            EventView::Transferred(v) => if crc_sealed(v) {
                LinkStepView::Next(LinkPhaseView::Confirm { body: v }, ActionView::Exchange(ack_magic()))
            } else {
                LinkStepView::Complete(Err(Error::CRCError))
            },
            _ => LinkStepView::Complete(Err(Error::UnexpectedResponse)),
        },
        LinkPhaseView::Confirm { body } => if single_packet(body) {
            LinkStepView::Complete(Ok(body.subrange(6, body.len() as int)))
        } else {
            LinkStepView::Complete(Err(Error::UnexpectedResponse))
        },
    }
}

/// `n` zero bytes.
pub(crate) fn zero_bytes(n: usize) -> (r: Vec<u8>)
    ensures
        r@ == zeros(n as nat),
{
    let mut v: Vec<u8> = Vec::with_capacity(n);
    let mut i: usize = 0;
    while i < n
        invariant
            i <= n,
            v@ == zeros(i as nat),
        decreases n - i,
    {
        v.push(0);
        i = i + 1;
        assert(v@ =~= zeros(i as nat));
    }
    v
}

/// The acknowledgement bytes.
pub(crate) fn ack_bytes() -> (r: Vec<u8>)
    ensures
        r@ == ack_magic(),
{
    let mut v: Vec<u8> = Vec::with_capacity(4);
    v.push(0x7f);
    v.push(0xff);
    v.push(0x01);
    v.push(0x7f);
    assert(v@ =~= ack_magic());
    v
}

/// Frames a transport buffer for sending: writes the link and transport sizes
/// into bytes 2 to 5 and appends the CRC. The size is computed in `u32` and
/// must not underflow, and the link size byte must not overflow.
pub fn frame_request(transport: Vec<u8>) -> (r: Vec<u8>)
    requires
        10 <= (transport@.len() as u32),
        declared_size(transport@) < 250,
    ensures
        r@ == frame_spec(transport@),
{
    let mut transport = transport;
    assert(transport@.len() >= 10) by {
        if transport@.len() < 0x1_0000_0000 {
            assert((transport@.len() as u32) == transport@.len());
        }
    }
    let len = transport.len() as u32 - 10;
    assert(len & 0xff == len % 256) by (bit_vector);
    let size = (len & 0xff) as u8;
    transport.set(2, size + 6);
    transport.set(3, 0);
    transport.set(4, size);
    transport.set(5, 0);
    push_crc(transport)
}

/// Whether the last four bytes of `v` are `crc`, least significant byte first.
pub fn ends_with_crc(v: &Vec<u8>, crc: u32) -> (r: bool)
    requires
        4 <= v@.len(),
    ensures
        r == (crc == le_value(v@.subrange(v@.len() - 4, v@.len() as int))),
{
    let tail = slice_subrange(v.as_slice(), v.len() - 4, v.len());
    let sent = le_read_u32(tail);
    assert(tail@.subrange(0, 4) =~= v@.subrange(v@.len() - 4, v@.len() as int));
    crc == sent
}

/// Whether a reply of `size` bytes ends with the CRC of the rest.
fn crc_matches(v: &Vec<u8>, size: usize) -> (r: bool)
    requires
        4 <= size,
        v@.len() == size,
    ensures
        r == crc_sealed(v@),
{
    let crc = checksum_ieee(slice_subrange(v.as_slice(), 0, size - 4));
    ends_with_crc(v, crc)
}

/// Whether `link_step` takes this event in this phase.
pub fn link_accepts_event(phase: &LinkPhase, event: &Event) -> (r: bool)
    ensures
        r == link_accepts(phase@, event@),
{
    match phase {
        LinkPhase::Request => match event {
            Event::Transferred(_) => true,
            _ => false,
        },
        LinkPhase::WaitAck { countdown } => 0 <= *countdown && match event {
            Event::Irq { .. } => true,
            _ => false,
        },
        LinkPhase::Ack | LinkPhase::Header => match event {
            Event::Transferred(v) => v.len() == 4,
            _ => false,
        },
        LinkPhase::WaitHeader => match event {
            Event::Irq { .. } => true,
            _ => false,
        },
        LinkPhase::Body { size } => 4 <= *size && match event {
            Event::Transferred(v) => v.len() == *size,
            _ => false,
        },
        LinkPhase::Confirm { body } => 6 <= body.len() && match event {
            Event::Transferred(_) => true,
            _ => false,
        },
    }
}

/// One step of the link exchange: the next phase and action, or its outcome.
pub fn link_step<E>(phase: LinkPhase, event: Event) -> (r: LinkStep<E>)
    requires
        link_accepts(phase@, event@),
    ensures
        r@ == link_next::<E>(phase@, event@),
{
    match phase {
        LinkPhase::Request => LinkStep::Next(
            LinkPhase::WaitAck { countdown: ACK_TIMEOUT },
            Action::PollIrq,
        ),
        LinkPhase::WaitAck { countdown } => match event {
            Event::Irq { low: true } => {
                let countdown = countdown - 1;
                if countdown < 0 {
                    LinkStep::Complete(Err(Error::Timeout))
                } else {
                    LinkStep::Next(LinkPhase::WaitAck { countdown }, Action::PollIrq)
                }
            },
            _ => LinkStep::Next(LinkPhase::Ack, Action::Exchange(zero_bytes(4))),
        },
        LinkPhase::Ack => match event {
            Event::Transferred(ack) => {
                if ack[0] == 0x7f && ack[1] == 0xff && ack[2] == 0x01 && ack[3] == 0x7f {
                    assert(ack@ =~= ack_magic());
                    LinkStep::Next(LinkPhase::WaitHeader, Action::PollIrq)
                } else {
                    LinkStep::Complete(Err(Error::UnexpectedResponse))
                }
            },
            _ => LinkStep::Complete(Err(Error::UnexpectedResponse)),
        },
        LinkPhase::WaitHeader => match event {
            Event::Irq { low: true } => LinkStep::Next(LinkPhase::WaitHeader, Action::PollIrq),
            _ => LinkStep::Next(LinkPhase::Header, Action::Exchange(zero_bytes(4))),
        },
        LinkPhase::Header => match event {
            Event::Transferred(v0) => {
                let size: usize = 4 + v0[2] as usize;
                LinkStep::Next(LinkPhase::Body { size }, Action::Exchange(zero_bytes(size)))
            },
            _ => LinkStep::Complete(Err(Error::UnexpectedResponse)),
        },
        LinkPhase::Body { size } => match event {
            Event::Transferred(v) => {
                if crc_matches(&v, size) {
                    LinkStep::Next(LinkPhase::Confirm { body: v }, Action::Exchange(ack_bytes()))
                } else {
                    LinkStep::Complete(Err(Error::CRCError))
                }
            },
            _ => LinkStep::Complete(Err(Error::UnexpectedResponse)),
        },
        LinkPhase::Confirm { body } => {
            if body[2] != body[4] || body[3] != body[5] {
                LinkStep::Complete(Err(Error::UnexpectedResponse))
            } else {
                let mut body = body;
                let payload = body.split_off(6);
                LinkStep::Complete(Ok(payload))
            }
        },
    }
}

/// The link outcome after feeding `evs` one by one from `phase`, stopping
/// early where the exchange completes; `None` for no events.
pub open spec fn link_after<E>(phase: LinkPhaseView, evs: Seq<EventView>) -> Option<LinkStepView<E>>
    decreases evs.len(),
{
    if evs.len() == 0 {
        None
    } else if evs.len() == 1 {
        Some(link_next::<E>(phase, evs[0]))
    } else {
        match link_next::<E>(phase, evs[0]) {
            LinkStepView::Next(p, _) => link_after::<E>(p, evs.drop_first()),
            done => Some(done),
        }
    }
}

/// `k` readings of a busy ready line.
pub open spec fn busy(k: nat) -> Seq<EventView> {
    Seq::new(k, |i: int| EventView::Irq { low: true })
}

/// From a countdown of `c`, up to `c` busy readings and then a ready one lead
/// to reading the acknowledgement; `c + 1` busy readings time out.
proof fn lemma_countdown<E>(c: nat, k: nat)
    requires
        c <= ACK_TIMEOUT,
        k <= c,
    ensures
        link_after::<E>(LinkPhaseView::WaitAck { countdown: c as i32 }, busy(k).push(EventView::Irq { low: false }))
            == Some(LinkStepView::<E>::Next(LinkPhaseView::Ack, ActionView::Exchange(zeros(4)))),
        link_after::<E>(LinkPhaseView::WaitAck { countdown: c as i32 }, busy(c + 1))
            == Some(LinkStepView::<E>::Complete(Err(Error::Timeout))),
    decreases c,
{
    let ready = EventView::Irq { low: false };
    if c > 0 {
        lemma_countdown::<E>((c - 1) as nat, if k > 0 { (k - 1) as nat } else { 0 });
        assert(busy(c + 1).drop_first() =~= busy(c));
        assert(busy(c + 1)[0] == EventView::Irq { low: true });
    } else {
        assert(busy(1)[0] == EventView::Irq { low: true });
    }
    if k > 0 {
        assert(busy(k).push(ready).drop_first() =~= busy((k - 1) as nat).push(ready));
        assert(busy(k).push(ready)[0] == EventView::Irq { low: true });
    } else {
        assert(busy(0).push(ready) =~= seq![ready]);
    }
}

/// The acknowledgement waits out at most `ACK_TIMEOUT` busy readings of the
/// ready line: with up to that many and then a ready reading the driver reads
/// the acknowledgement; one more busy reading fails the exchange with `Timeout`.
pub proof fn lemma_ack_timeout<E>(k: nat)
    requires
        k <= ACK_TIMEOUT,
    ensures
        link_after::<E>(
            LinkPhaseView::WaitAck { countdown: ACK_TIMEOUT },
            busy(k).push(EventView::Irq { low: false }),
        ) == Some(LinkStepView::<E>::Next(LinkPhaseView::Ack, ActionView::Exchange(zeros(4)))),
        link_after::<E>(LinkPhaseView::WaitAck { countdown: ACK_TIMEOUT }, busy(
            ACK_TIMEOUT as nat + 1,
        )) == Some(LinkStepView::<E>::Complete(Err(Error::Timeout))),
{
    lemma_countdown::<E>(ACK_TIMEOUT as nat, k);
}

/// A request frame passes the very CRC check the driver applies to replies,
/// taken over everything after the link header: the CRC it carries is that of
/// the bytes before it, least significant byte first.
pub proof fn lemma_frame_sealed(t: Seq<u8>)
    requires
        6 <= t.len(),
    ensures
        crc_sealed(frame_spec(t).subrange(4, frame_spec(t).len() as int)),
{
    let n = declared_size(t);
    let f = t.update(2, (n + 6) as u8).update(3, 0).update(4, n).update(5, 0);
    let c = crc32_ieee(f.subrange(4, f.len() as int));
    let g = frame_spec(t).subrange(4, frame_spec(t).len() as int);
    assert(g.subrange(0, g.len() - 4) =~= f.subrange(4, f.len() as int));
    assert(g.subrange(g.len() - 4, g.len() as int) =~= le32(c));
    lemma_le32_roundtrip(c);
}

/// A phase whose held reply, if any, passed its CRC check.
pub open spec fn holds_checked_reply(p: LinkPhaseView) -> bool {
    p matches LinkPhaseView::Confirm { body } ==> crc_sealed(body)
}

/// A payload that is the part past the six-byte header of a single-packet
/// reply which passed its CRC check.
pub open spec fn checked_payload(payload: Seq<u8>) -> bool {
    exists|body: Seq<u8>|
        #![trigger crc_sealed(body)]
        crc_sealed(body) && single_packet(body) && 6 <= body.len() && payload == body.subrange(
            6,
            body.len() as int,
        )
}

/// Whether each of `evs` is taken in the phase the ones before it lead to.
pub open spec fn run_accepted<E>(p: LinkPhaseView, evs: Seq<EventView>) -> bool
    decreases evs.len(),
{
    if evs.len() == 0 {
        true
    } else {
        link_accepts(p, evs[0]) && match link_next::<E>(p, evs[0]) {
            LinkStepView::Next(p2, _) => run_accepted::<E>(p2, evs.drop_first()),
            _ => true,
        }
    }
}

proof fn lemma_delivers_checked<E>(p: LinkPhaseView, evs: Seq<EventView>)
    requires
        holds_checked_reply(p),
        run_accepted::<E>(p, evs),
    ensures
        link_after::<E>(p, evs) matches Some(LinkStepView::Complete(Ok(payload))) ==> checked_payload(
            payload,
        ),
    decreases evs.len(),
{
    if evs.len() == 0 {
    } else {
        match link_next::<E>(p, evs[0]) {
            LinkStepView::Next(p2, _) => {
                if evs.len() > 1 {
                    lemma_delivers_checked::<E>(p2, evs.drop_first());
                }
            },
            _ => {
                if let LinkPhaseView::Confirm { body } = p {
                    assert(crc_sealed(body));
                }
            },
        }
    }
}

/// A link exchange delivers a payload only from a reply that passed its CRC
/// check and is a single packet: the payload is that reply past its six-byte
/// header. The events are those the link takes, as the driver only steps on
/// those.
pub proof fn lemma_link_delivers_checked<E>(evs: Seq<EventView>)
    requires
        run_accepted::<E>(LinkPhaseView::Request, evs),
    ensures
        link_after::<E>(LinkPhaseView::Request, evs) matches Some(
            LinkStepView::Complete(Ok(payload)),
        ) ==> checked_payload(payload),
{
    lemma_delivers_checked::<E>(LinkPhaseView::Request, evs);
}

/// Waiting for the reply, the driver keeps polling while the ready line reads
/// busy, however long, and reads the reply header only at the first ready
/// reading: after `k` busy readings and a ready one it asks for the four
/// header bytes, and a busy reading alone leaves it waiting.
pub proof fn lemma_header_waits_for_ready<E>(k: nat)
    ensures
        link_next::<E>(LinkPhaseView::WaitHeader, EventView::Irq { low: true }) == LinkStepView::<E>::Next(
            LinkPhaseView::WaitHeader,
            ActionView::PollIrq,
        ),
        link_after::<E>(LinkPhaseView::WaitHeader, busy(k).push(EventView::Irq { low: false }))
            == Some(LinkStepView::<E>::Next(LinkPhaseView::Header, ActionView::Exchange(zeros(4)))),
    decreases k,
{
    let ready = EventView::Irq { low: false };
    if k > 0 {
        lemma_header_waits_for_ready::<E>((k - 1) as nat);
        assert(busy(k).push(ready).drop_first() =~= busy((k - 1) as nat).push(ready));
        assert(busy(k).push(ready)[0] == EventView::Irq { low: true });
    } else {
        assert(busy(0).push(ready) =~= seq![ready]);
    }
}

} // verus!
