//! Driver logic for the BM-Lite fingerprint module: request framing, the
//! CRC-sealed link protocol, response parsing and the command sequences,
//! written as verified state machines that a thin I/O loop drives.
//!
//! The crate root holds the first, smaller driver, which only resets the
//! module and deletes all templates; `bmlitelib` holds the full one.

pub mod endian;
pub mod checksum;
pub mod transport;
pub mod response;
pub mod bmlitelib;
pub mod link;
pub mod serialio;
pub mod runs;

use crate::checksum::{checksum_ieee, crc32_ieee};
use crate::endian::le32;
use crate::link::{
    ack_bytes, ack_magic, busy, crc_sealed, ends_with_crc, zero_bytes, zeros, Event, EventView,
};
use crate::transport::push_u32;
use vstd::prelude::*;
use vstd::slice::slice_subrange;

verus! {

/// What can go wrong in an operation of the first driver.
#[derive(Debug)]
pub enum Error<E> {
    UnexpectedResponse,
    Timeout,
    HalErr(E),
}

/// The transport part of the delete-all request: transport size 12, sequence
/// 1 of 1, command 0x4002 with the arguments 0x1009 and 0x0007.
pub open spec fn delete_all_transport() -> Seq<u8> {
    seq![0x0cu8, 0x00, 0x01, 0x00, 0x01, 0x00, 0x02, 0x40, 0x02, 0x00, 0x09, 0x10, 0x00, 0x00, 0x07, 0x00, 0x00, 0x00]
}

/// The delete-all request frame: link header, transport part, and the CRC of
/// the transport part, least significant byte first.
pub open spec fn delete_all_frame() -> Seq<u8> {
    seq![0x01u8, 0x00, 0x12, 0x00] + delete_all_transport() + le32(crc32_ieee(delete_all_transport()))
}

/// The CRC-32 of the transport part of the delete-all request.
pub fn delete_all_checksum() -> (r: u32)
    ensures
        r == crc32_ieee(delete_all_transport()),
{
    let transport = transport_bytes();
    checksum_ieee(transport.as_slice())
}

/// The transport part of the delete-all request.
fn transport_bytes() -> (r: Vec<u8>)
    ensures
        r@ == delete_all_transport(),
{
    let mut t: Vec<u8> = Vec::with_capacity(18);
    t.push(0x0c);
    t.push(0x00);
    t.push(0x01);
    t.push(0x00);
    t.push(0x01);
    t.push(0x00);
    t.push(0x02);
    t.push(0x40);
    t.push(0x02);
    t.push(0x00);
    t.push(0x09);
    t.push(0x10);
    t.push(0x00);
    t.push(0x00);
    t.push(0x07);
    t.push(0x00);
    t.push(0x00);
    t.push(0x00);
    assert(t@ =~= delete_all_transport());
    t
}

/// The delete-all request frame.
pub fn delete_all_request() -> (r: Vec<u8>)
    ensures
        r@ == delete_all_frame(),
{
    let mut transport: Vec<u8> = Vec::with_capacity(26);
    transport.push(0);
    transport.push(0);
    transport.push(0);
    transport.push(0);
    let mut rest = transport_bytes();
    transport.append(&mut rest);
    assert(transport@.subrange(4, 22) =~= delete_all_transport());
    let crc = checksum_ieee(slice_subrange(transport.as_slice(), 4, transport.len()));
    let mut transport = push_u32(transport, crc);
    transport.set(0, 0x1);
    transport.set(1, 0x0);
    transport.set(2, 0x12);
    transport.set(3, 0x0);
    assert(transport@ =~= delete_all_frame());
    transport
}

/// What the first driver asks its I/O loop to do next.
pub enum Step<E> {
    /// Select the chip, clock these bytes out (and as many in), deselect it.
    Exchange(Vec<u8>),
    /// Read the ready line.
    PollIrq,
    /// Drive the reset line.
    SetReset { high: bool },
    /// Select the chip, clock in this many bytes one at a time, deselect it.
    Read(usize),
    /// The operation is over, with this result.
    Finish(Result<u8, Error<E>>),
}

/// A step as the contracts see it.
#[verifier::ext_equal]
pub enum StepView<E> {
    Exchange(Seq<u8>),
    PollIrq,
    SetReset { high: bool },
    Read(usize),
    Finish(Result<u8, Error<E>>),
}

impl<E> View for Step<E> {
    type V = StepView<E>;

    open spec fn view(&self) -> StepView<E> {
        match self {
            Step::Exchange(v) => StepView::Exchange(v@),
            Step::PollIrq => StepView::PollIrq,
            Step::SetReset { high } => StepView::SetReset { high: *high },
            Step::Read(n) => StepView::Read(*n),
            Step::Finish(r) => StepView::Finish(*r),
        }
    }
}

/// Where an operation of the first driver stands.
#[derive(Clone, Copy)]
pub enum Phase {
    Idle,
    ResetLow,
    ResetHigh,
    Request,
    WaitAck,
    Ack,
    WaitHeader,
    Header,
    Body { size: usize },
    Confirm,
}

/// The events each phase takes.
pub open spec fn phase_accepts(phase: Phase, ev: EventView) -> bool {
    match phase {
        Phase::Idle => false,
        Phase::ResetLow | Phase::ResetHigh => ev is Done,
        Phase::WaitAck | Phase::WaitHeader => ev is Irq,
        Phase::Request | Phase::Confirm => ev is Transferred,
        Phase::Ack | Phase::Header => ev matches EventView::Transferred(v) && v.len() == 4,
        Phase::Body { size } => 4 <= size && (ev matches EventView::Transferred(v) && v.len()
            == size),
    }
}

/// One step of the first driver.
pub open spec fn phase_next<E>(phase: Phase, ev: EventView) -> (Phase, StepView<E>) {
    match phase {
        Phase::Idle => (Phase::Idle, StepView::Finish(Err(Error::UnexpectedResponse))),
        Phase::ResetLow => (Phase::ResetHigh, StepView::SetReset { high: true }),
        Phase::ResetHigh => (Phase::Idle, StepView::Finish(Ok(0))),
        Phase::Request => (Phase::WaitAck, StepView::PollIrq),
        Phase::WaitAck => if ev matches EventView::Irq { low: true } {
            (Phase::WaitAck, StepView::PollIrq)
        } else {
            (Phase::Ack, StepView::Exchange(zeros(4)))
        },
        Phase::Ack => if ev matches EventView::Transferred(v) && v == ack_magic() {
            (Phase::WaitHeader, StepView::PollIrq)
        } else {
            (Phase::Idle, StepView::Finish(Err(Error::UnexpectedResponse)))
        },
        Phase::WaitHeader => if ev matches EventView::Irq { low: true } {
            (Phase::WaitHeader, StepView::PollIrq)
        } else {
            (Phase::Header, StepView::Exchange(zeros(4)))
        },
        Phase::Header => match ev {
            EventView::Transferred(v) => {
                let size = (4 + v[2]) as usize;
                (Phase::Body { size }, StepView::Read(size))
            },
            _ => (Phase::Idle, StepView::Finish(Err(Error::UnexpectedResponse))),
        },
        Phase::Body { .. } => if ev matches EventView::Transferred(v) && crc_sealed(v) {
            (Phase::Confirm, StepView::Exchange(ack_magic()))
        } else {
            (Phase::Idle, StepView::Finish(Ok(99)))
        },
        Phase::Confirm => (Phase::Idle, StepView::Finish(Ok(1))),
    }
}

/// The phase and step after feeding `evs` one by one from `phase`, stopping
/// early where the operation finishes; `None` for no events.
pub open spec fn phase_after<E>(phase: Phase, evs: Seq<EventView>) -> Option<(Phase, StepView<E>)>
    decreases evs.len(),
{
    if evs.len() == 0 {
        None
    } else if evs.len() == 1 {
        Some(phase_next::<E>(phase, evs[0]))
    } else {
        let (p, s) = phase_next::<E>(phase, evs[0]);
        if s is Finish {
            Some((p, s))
        } else {
            phase_after::<E>(p, evs.drop_first())
        }
    }
}

/// The first driver waits out a busy ready line, however long, both before
/// the acknowledgement and before the reply header: a busy reading leaves it
/// polling, and after `k` busy readings and a ready one it reads four bytes,
/// the acknowledgement or the header.
pub proof fn lemma_first_driver_waits_for_ready<E>(k: nat)
    ensures
        phase_next::<E>(Phase::WaitAck, EventView::Irq { low: true }) == (Phase::WaitAck, StepView::<E>::PollIrq),
        phase_next::<E>(Phase::WaitHeader, EventView::Irq { low: true }) == (Phase::WaitHeader, StepView::<E>::PollIrq),
        phase_after::<E>(Phase::WaitAck, busy(k).push(EventView::Irq { low: false })) == Some(
            (Phase::Ack, StepView::<E>::Exchange(zeros(4))),
        ),
        phase_after::<E>(Phase::WaitHeader, busy(k).push(EventView::Irq { low: false })) == Some(
            (Phase::Header, StepView::<E>::Exchange(zeros(4))),
        ),
    decreases k,
{
    let ready = EventView::Irq { low: false };
    if k > 0 {
        lemma_first_driver_waits_for_ready::<E>((k - 1) as nat);
        assert(busy(k).push(ready).drop_first() =~= busy((k - 1) as nat).push(ready));
        assert(busy(k).push(ready)[0] == EventView::Irq { low: true });
    } else {
        assert(busy(0).push(ready) =~= seq![ready]);
    }
}

/// The first driver's reset drives the reset line low, then high again, and
/// only then reports 0: over any run of the events it takes, the steps are
/// exactly low, high, finish with 0, so the module is left released.
pub proof fn lemma_first_reset_run<E>(e1: EventView, e2: EventView)
    requires
        phase_accepts(Phase::ResetLow, e1),
        phase_accepts(phase_next::<E>(Phase::ResetLow, e1).0, e2),
    ensures
        seq![
            StepView::<E>::SetReset { high: false },
            phase_next::<E>(Phase::ResetLow, e1).1,
            phase_next::<E>(phase_next::<E>(Phase::ResetLow, e1).0, e2).1,
        ] == seq![
            StepView::<E>::SetReset { high: false },
            StepView::<E>::SetReset { high: true },
            StepView::<E>::Finish(Ok(0)),
        ],
        phase_next::<E>(phase_next::<E>(Phase::ResetLow, e1).0, e2).0 == Phase::Idle,
{
}

/// The first driver: the module's SPI bus, chip select, reset and ready lines,
/// and the phase of the operation under way.
pub struct BmLite<SPI, CS, RST, IRQ> {
    pub spi: SPI,
    pub cs: CS,
    pub rst: RST,
    pub irq: IRQ,
    phase: Phase,
}

impl<SPI, CS, RST, IRQ> BmLite<SPI, CS, RST, IRQ> {
    /// The phase of the operation under way.
    pub closed spec fn phase(&self) -> Phase {
        self.phase
    }

    /// The interfaces the driver holds: bus, chip select, reset line, ready line.
    pub closed spec fn interfaces(&self) -> (SPI, CS, RST, IRQ) {
        (self.spi, self.cs, self.rst, self.irq)
    }

    /// Creates a new driver from an SPI peripheral, a chip select, a reset and
    /// a ready pin.
    pub fn new(spi: SPI, cs: CS, rst: RST, irq: IRQ) -> (r: Self)
        ensures
            r.interfaces() == (spi, cs, rst, irq),
            r.phase() == Phase::Idle,
    {
        BmLite { spi: spi, cs: cs, rst: rst, irq: irq, phase: Phase::Idle }
    }

    /// Resets the module: pulls the reset line low, releases it, finishes with 0.
    pub fn reset<E>(&mut self) -> (s: Step<E>)
        ensures
            final(self).phase() == Phase::ResetLow,
            final(self).interfaces() == old(self).interfaces(),
            s@ == (StepView::<E>::SetReset { high: false }),
    {
        self.phase = Phase::ResetLow;
        Step::SetReset { high: false }
    }

    /// Deletes all templates: sends the delete-all frame, waits for the
    /// acknowledgement and the reply, and finishes with 1 when the reply's CRC
    /// (least significant byte first) holds, 99 when it does not.
    pub fn delete_all<E>(&mut self) -> (s: Step<E>)
        ensures
            final(self).phase() == Phase::Request,
            final(self).interfaces() == old(self).interfaces(),
            s@ == StepView::<E>::Exchange(delete_all_frame()),
    {
        self.phase = Phase::Request;
        Step::Exchange(delete_all_request())
    }

    /// Whether `step` takes `event` now: it answers the step last asked for.
    pub fn accepts(&self, event: &Event) -> (r: bool)
        ensures
            r == phase_accepts(self.phase(), event@),
    {
        match self.phase {
            Phase::Idle => false,
            Phase::ResetLow | Phase::ResetHigh => match event {
                Event::Done => true,
                _ => false,
            },
            Phase::WaitAck | Phase::WaitHeader => match event {
                Event::Irq { .. } => true,
                _ => false,
            },
            Phase::Request | Phase::Confirm => match event {
                Event::Transferred(_) => true,
                _ => false,
            },
            Phase::Ack | Phase::Header => match event {
                Event::Transferred(v) => v.len() == 4,
                _ => false,
            },
            Phase::Body { size } => 4 <= size && match event {
                Event::Transferred(v) => v.len() == size,
                _ => false,
            },
        }
    }

    /// Takes the event that answers the last step and gives the next step.
    pub fn step<E>(&mut self, event: Event) -> (s: Step<E>)
        requires
            phase_accepts(old(self).phase(), event@),
        ensures
            (final(self).phase(), s@) == phase_next::<E>(old(self).phase(), event@),
            final(self).interfaces() == old(self).interfaces(),
    {
        let phase = self.phase;
        self.phase = Phase::Idle;
        match phase {
            Phase::Idle => Step::Finish(Err(Error::UnexpectedResponse)),
            Phase::ResetLow => {
                self.phase = Phase::ResetHigh;
                Step::SetReset { high: true }
            },
            Phase::ResetHigh => Step::Finish(Ok(0)),
            Phase::Request => {
                self.phase = Phase::WaitAck;
                Step::PollIrq
            },
            Phase::WaitAck | Phase::WaitHeader => match event {
                Event::Irq { low: true } => {
                    self.phase = phase;
                    Step::PollIrq
                },
                _ => {
                    self.phase = if let Phase::WaitAck = phase {
                        Phase::Ack
                    } else {
                        Phase::Header
                    };
                    Step::Exchange(zero_bytes(4))
                },
            },
            Phase::Ack => match event {
                Event::Transferred(ack) => {
                    if ack[0] == 0x7f && ack[1] == 0xff && ack[2] == 0x01 && ack[3] == 0x7f {
                        assert(ack@ =~= ack_magic());
                        self.phase = Phase::WaitHeader;
                        Step::PollIrq
                    } else {
                        Step::Finish(Err(Error::UnexpectedResponse))
                    }
                },
                _ => Step::Finish(Err(Error::UnexpectedResponse)),
            },
            Phase::Header => match event {
                Event::Transferred(v0) => {
                    let size: usize = 4 + v0[2] as usize;
                    self.phase = Phase::Body { size };
                    Step::Read(size)
                },
                _ => Step::Finish(Err(Error::UnexpectedResponse)),
            },
            Phase::Body { size } => match event {
                Event::Transferred(v) => {
                    let crc = checksum_ieee(slice_subrange(v.as_slice(), 0, size - 4));
                    if ends_with_crc(&v, crc) {
                        self.phase = Phase::Confirm;
                        Step::Exchange(ack_bytes())
                    } else {
                        Step::Finish(Ok(99))
                    }
                },
                _ => Step::Finish(Ok(99)),
            },
            Phase::Confirm => Step::Finish(Ok(1)),
        }
    }
}

} // verus!
