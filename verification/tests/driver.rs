#![allow(deprecated)]

use bmlite::bmlitelib::{BmLite, Error};
use bmlite::link::{Action, Event};
use embedded_hal::blocking::spi::Transfer;
use embedded_hal::digital::{InputPin, OutputPin};
use embedded_hal_mock::spi::{Mock as SpiMock, Transaction as SpiTransaction};
use std::cell::RefCell;

struct DummyInterface {
    data: RefCell<Vec<bool>>,
}

impl DummyInterface {
    fn new(l: Vec<bool>) -> Self {
        DummyInterface { data: RefCell::new(l) }
    }
}

impl OutputPin for DummyInterface {
    fn set_low(&mut self) {
        self.data.borrow_mut().push(false)
    }
    fn set_high(&mut self) {
        self.data.borrow_mut().push(true)
    }
}

impl InputPin for DummyInterface {
    fn is_high(&self) -> bool {
        self.data.borrow_mut().pop().unwrap()
    }
    fn is_low(&self) -> bool {
        !self.is_high()
    }
}

/// Carries out the driver's actions on the interfaces until it finishes.
fn run<SPI, CS, RST, IRQ, E>(
    bm: &mut BmLite<SPI, CS, RST, IRQ>,
    first: Action<E>,
    progress: &mut dyn FnMut(u32),
) -> Result<u32, Error<E>>
where
    SPI: Transfer<u8, Error = E>,
    CS: OutputPin,
    RST: OutputPin,
    IRQ: InputPin,
{
    let mut action = first;
    loop {
        let event = match action {
            Action::Finish(r) => return r,
            Action::Exchange(mut bytes) => {
                bm.cs.set_low();
                let reply = match bm.spi.transfer(&mut bytes) {
                    Ok(r) => r.to_vec(),
                    Err(e) => return Err(Error::HalErr(e)),
                };
                bm.cs.set_high();
                Event::Transferred(reply)
            }
            Action::PollIrq => Event::Irq { low: bm.irq.is_low() },
            Action::SetReset { high } => {
                if high {
                    bm.rst.set_high()
                } else {
                    bm.rst.set_low()
                }
                Event::Done
            }
            Action::Delay => Event::Done,
            Action::Progress(n) => {
                progress(n);
                Event::Done
            }
        };
        assert!(bm.accepts(&event), "the driver cannot take this reply");
        action = bm.step(event);
    }
}

fn irq_ready() -> DummyInterface {
    DummyInterface::new(
        [
            false, true, false, true, false, true, false, true, false, true, false, true, false,
            true, false, true, false, true, false, true, false, true, false, true,
        ]
        .to_vec(),
    )
}

#[test]
fn capture_identify() {
    let expectations = [
        SpiTransaction::transfer([0x01,0x00,0x0a,0x00,0x04,0x00,0x01,0x00,0x01,0x00,0x01,0x00,0x00,0x00,0x52,0x7c,0x2b,0x55,].to_vec(),[0;18].to_vec()),
        SpiTransaction::transfer([0,0,0,0].to_vec(),[0x7f,0xff,0x01,0x7f].to_vec()),
        SpiTransaction::transfer([0,0,0,0].to_vec() ,[0,0,17-2,0].to_vec()),
        SpiTransaction::transfer([0x00,0x00,0x00,0x00,0x00,0x00,0x00,0x00,0x00,0x00,0x00,0x00,0x00,0x00,0x00,0x00,0x00,0x00,0x00,].to_vec(),[0x09,0x00,0x01,0x00,0x01,0x00,0x01,0x00,0x01,0x00,0x01,0x20,0x01,0x00,0x00,0x83,0xe1,0x25,0x90,].to_vec()),
        SpiTransaction::transfer([0x7f,0xff,0x01,0x7f].to_vec(),[0,0,0,0].to_vec()),
        SpiTransaction::transfer([0x01,0x00,0x0e,0x00,0x08,0x00,0x01,0x00,0x01,0x00,0x05,0x00,0x01,0x00,0x08,0x00,0x00,0x00,0x8e,0xb5,0x8d,0xd0,].to_vec(),[0;22].to_vec()),
        SpiTransaction::transfer([0,0,0,0].to_vec(),[0x7f,0xff,0x01,0x7f].to_vec()),
        SpiTransaction::transfer([0,0,0,0].to_vec() ,[0,0,17-2,0].to_vec()),
        SpiTransaction::transfer([0x00,0x00,0x00,0x00,0x00,0x00,0x00,0x00,0x00,0x00,0x00,0x00,0x00,0x00,0x00,0x00,0x00,0x00,0x00,].to_vec(),[0x09,0x00,0x01,0x00,0x01,0x00,0x05,0x00,0x01,0x00,0x01,0x20,0x01,0x00,0x00,0x8f,0xb0,0xc9,0xcd,].to_vec()),
        SpiTransaction::transfer([0x7f,0xff,0x01,0x7f].to_vec(),[0,0,0,0].to_vec()),
        SpiTransaction::transfer([0x01,0x00,0x0a,0x00,0x04,0x00,0x01,0x00,0x01,0x00,0x03,0x00,0x00,0x00,0xd9,0xb4,0x22,0xff,].to_vec(),[0;18].to_vec()),
        SpiTransaction::transfer([0,0,0,0].to_vec(),[0x7f,0xff,0x01,0x7f].to_vec()),
        SpiTransaction::transfer([0,0,0,0].to_vec() ,[0,0,28-2,0].to_vec()),
        SpiTransaction::transfer([0x00,0x00,0x00,0x00,0x00,0x00,0x00,0x00,0x00,0x00,0x00,0x00,0x00,0x00,0x00,0x00,0x00,0x00,0x00,0x00,0x00,0x00,0x00,0x00,0x00,0x00,0x00,0x00,0x00,0x00,].to_vec(),[0x14,0x00,0x01,0x00,0x01,0x00,0x03,0x00,0x03,0x00,0x0a,0x00,0x01,0x00,0x01,0x06,0x00,0x02,0x00,0x01,0x00,0x01,0x20,0x01,0x00,0x00,0x26,0xf0,0xb5,0xf2,].to_vec()),
        SpiTransaction::transfer([0x7f,0xff,0x01,0x7f].to_vec(),[0,0,0,0].to_vec()),
    ];

    let spi = SpiMock::new(&expectations);

    let dummy_cs = DummyInterface::new([false, false, false].to_vec());
    let dummy_irq = irq_ready();
    let dummy_reset = DummyInterface::new([false].to_vec());

    let mut encoder = BmLite::new(spi, dummy_cs, dummy_reset, dummy_irq);
    let first = encoder.identify();
    let ans = run(&mut encoder, first, &mut |_| {});
    match ans {
        Err(_) => assert!(false, "Function returned unexpected error"),
        Ok(_) => {}
    }

    let (mut spi, (_a, _b, _c)) = encoder.teardown();
    spi.done();
}

#[test]
#[should_panic]
fn capture_identify_nodata() {
    let expectations = [];

    let spi = SpiMock::new(&expectations);

    let dummy_cs = DummyInterface::new([false, false, false].to_vec());
    let dummy_irq = irq_ready();
    let dummy_reset = DummyInterface::new([false].to_vec());

    let mut encoder = BmLite::new(spi, dummy_cs, dummy_reset, dummy_irq);
    let first = encoder.identify();
    let ans = run(&mut encoder, first, &mut |_| {});
    match ans {
        Err(_x) => assert!(false, "Function returned unexpected error"),
        Ok(_) => {}
    }

    let (mut spi, (_a, _b, _c)) = encoder.teardown();
    spi.done();
}

#[test]
fn bmlitelib_delete_all_templates() {
    let refvec: Vec<u8> = [0x01,0x00,0x12,0x00,0x0c,0x00,0x01,0x00,0x01,0x00,0x02,0x40,0x02,0x00,0x09,0x10,0x00,0x00,0x07,0x00,0x00,0x00,0xb1,0x2e,0x45,0x93].to_vec();
    let dontcare: Vec<u8> = [0x00,0x00,0x00,0x00,0x00,0x00,0x00,0x00,0x00,0x00,0x00,0x00,0x00,0x00,0x00,0x00,0x00,0x00,0x00,0x00,0x00,0x00,0x00,0x00,0x00,0x00].to_vec();

    let expectations = [
        SpiTransaction::transfer(refvec, dontcare),
        SpiTransaction::transfer([0,0,0,0].to_vec(),[0x7f,0xff,0x01,0x7f].to_vec()),
        SpiTransaction::transfer([0,0,0,0].to_vec(),[0x00,0x00,0x0F,0x00].to_vec()),
        SpiTransaction::transfer([0,0,0,0,0,0,0,0,0,0,0,0,0,0,0,0,0,0,0,].to_vec(),[0x09,0x00,0x01,0x00,0x01,0x00,0x02,0x40,0x01,0x00,0x01,0x20,0x01,0x00,0x00,0xab,0x1f,0x35,0x80,].to_vec()),
        SpiTransaction::transfer([0x7f,0xff,0x01,0x7f].to_vec(),[0,0,0,0].to_vec()),
    ];

    let spi = SpiMock::new(&expectations);

    let dummy_cs = DummyInterface::new([false, false, false].to_vec());
    let dummy_irq = DummyInterface::new([false,true,false,true,false,true,false,true,false,true,false,true].to_vec());
    let dummy_reset = DummyInterface::new([false].to_vec());

    let mut encoder = BmLite::new(spi, dummy_cs, dummy_reset, dummy_irq);
    let first = encoder.delete_all();
    let ans = run(&mut encoder, first, &mut |_| {});
    match ans {
        Err(_x) => assert!(false, "Function returned unexpected error"),
        Ok(_) => {}
    }

    let (mut spi, (_a, _b, _c)) = encoder.teardown();
    spi.done();
}

#[test]
fn capture_image() {
    let expectations = [
        SpiTransaction::transfer([0x01,0x00,0x0a,0x00,0x04,0x00,0x01,0x00,0x01,0x00,0x01,0x00,0x00,0x00,0x52,0x7c,0x2b,0x55,].to_vec(),[0;18].to_vec()),
        SpiTransaction::transfer([0,0,0,0].to_vec(),[0x7f,0xff,0x01,0x7f].to_vec()),
        SpiTransaction::transfer([0,0,0,0].to_vec() ,[0,0,17-2,0].to_vec()),
        SpiTransaction::transfer([0x00,0x00,0x00,0x00,0x00,0x00,0x00,0x00,0x00,0x00,0x00,0x00,0x00,0x00,0x00,0x00,0x00,0x00,0x00,].to_vec(),[0x09,0x00,0x01,0x00,0x01,0x00,0x01,0x00,0x01,0x00,0x01,0x20,0x01,0x00,0x00,0x83,0xe1,0x25,0x90,].to_vec()),
        SpiTransaction::transfer([0x7f,0xff,0x01,0x7f].to_vec(),[0,0,0,0].to_vec()),
    ];

    let spi = SpiMock::new(&expectations);

    let dummy_cs = DummyInterface::new([false, false, false].to_vec());
    let dummy_irq = irq_ready();
    let dummy_reset = DummyInterface::new([false].to_vec());

    let mut encoder = BmLite::new(spi, dummy_cs, dummy_reset, dummy_irq);
    let first = encoder.capture(0);
    let ans = run(&mut encoder, first, &mut |_| {});
    match ans {
        Err(_x) => assert!(false, "Function returned unexpected error"),
        Ok(ans) => assert!(ans == 0),
    }

    let (mut spi, (_a, _b, _c)) = encoder.teardown();
    spi.done();
}

/// A module that answers each request with the next queued reply payload.
struct FakeModule {
    replies: std::collections::VecDeque<Vec<u8>>,
    requests: Vec<Vec<u8>>,
    stage: u8,
    sealed: Vec<u8>,
    corrupt_crc: bool,
    second_packet: bool,
    ack: [u8; 4],
}

impl FakeModule {
    fn new(replies: Vec<Vec<u8>>) -> Self {
        FakeModule {
            replies: replies.into(),
            requests: Vec::new(),
            stage: 0,
            sealed: Vec::new(),
            corrupt_crc: false,
            second_packet: false,
            ack: [0x7f, 0xff, 0x01, 0x7f],
        }
    }
}

impl Transfer<u8> for FakeModule {
    type Error = ();

    fn transfer<'w>(&mut self, words: &'w mut [u8]) -> Result<&'w [u8], ()> {
        match self.stage {
            0 => {
                self.requests.push(words.to_vec());
                for w in words.iter_mut() {
                    *w = 0;
                }
                self.stage = 1;
            }
            1 => {
                assert_eq!(words, &[0, 0, 0, 0]);
                words.copy_from_slice(&self.ack);
                self.stage = 2;
            }
            2 => {
                assert_eq!(words, &[0, 0, 0, 0]);
                let payload = self.replies.pop_front().expect("no reply left");
                let mut body = vec![0, 0, 1, 0, if self.second_packet { 2 } else { 1 }, 0];
                body.extend_from_slice(&payload);
                let n = body.len() as u16;
                body[0] = n as u8;
                body[1] = (n >> 8) as u8;
                let mut crc = crc::crc32::checksum_ieee(&body).to_le_bytes();
                if self.corrupt_crc {
                    crc[0] ^= 1;
                }
                body.extend_from_slice(&crc);
                words.copy_from_slice(&[0, 0, (body.len() - 4) as u8, 0]);
                self.sealed = body;
                self.stage = 3;
            }
            3 => {
                assert!(words.iter().all(|w| *w == 0));
                words.copy_from_slice(&self.sealed);
                self.stage = 4;
            }
            _ => {
                assert_eq!(words, &[0x7f, 0xff, 0x01, 0x7f]);
                self.stage = 0;
            }
        }
        Ok(words)
    }
}

/// A ready line that reads busy a number of times, then ready.
struct ReadyAfter(std::cell::Cell<u32>);

impl InputPin for ReadyAfter {
    fn is_high(&self) -> bool {
        let left = self.0.get();
        if left == 0 {
            true
        } else {
            self.0.set(left - 1);
            false
        }
    }
    fn is_low(&self) -> bool {
        !self.is_high()
    }
}

/// A ready line that never gets ready; counts its readings.
struct NeverReady(std::cell::Cell<u32>);

impl InputPin for NeverReady {
    fn is_high(&self) -> bool {
        self.0.set(self.0.get() + 1);
        false
    }
    fn is_low(&self) -> bool {
        !self.is_high()
    }
}

/// A reply payload: command, argument count, arguments.
fn payload(cmd: u16, args: &[(u16, &[u8])]) -> Vec<u8> {
    let mut p = cmd.to_le_bytes().to_vec();
    p.extend_from_slice(&(args.len() as u16).to_le_bytes());
    for (id, data) in args {
        p.extend_from_slice(&id.to_le_bytes());
        p.extend_from_slice(&(data.len() as u16).to_le_bytes());
        p.extend_from_slice(data);
    }
    p
}

fn ok_reply(cmd: u16) -> Vec<u8> {
    payload(cmd, &[(0x2001, &[0])])
}

fn module_driver(m: FakeModule) -> BmLite<FakeModule, DummyInterface, DummyInterface, ReadyAfter> {
    BmLite::new(m, DummyInterface::new(vec![]), DummyInterface::new(vec![]), ReadyAfter(std::cell::Cell::new(0)))
}

/// The command code of a request frame.
fn code(frame: &[u8]) -> u16 {
    u16::from_le_bytes([frame[10], frame[11]])
}

#[test]
fn enroll_counts_images_and_saves_under_next_id() {
    let replies = vec![
        ok_reply(2),
        ok_reply(7),
        ok_reply(1),
        payload(2, &[(0x2001, &[0]), (0x2002, &[1, 0, 0, 0])]),
        ok_reply(7),
        ok_reply(1),
        payload(2, &[(0x2001, &[0]), (0x2002, &[0, 0, 0, 0])]),
        ok_reply(2),
        ok_reply(6),
        ok_reply(2),
        ok_reply(7),
        ok_reply(1),
        payload(2, &[(0x2001, &[0]), (0x2002, &[0])]),
        ok_reply(2),
        ok_reply(6),
    ];
    let mut bm = module_driver(FakeModule::new(replies));
    let mut seen = Vec::new();
    let first = bm.enroll();
    assert_eq!(run(&mut bm, first, &mut |n| seen.push(n)), Ok(0));
    assert_eq!(seen, vec![100, 100, 1]);
    let first = bm.enroll();
    assert_eq!(run(&mut bm, first, &mut |n| seen.push(n)), Ok(0));
    assert_eq!(seen, vec![100, 100, 1, 100, 100]);
    let (spi, _) = bm.teardown();
    let codes: Vec<u16> = spi.requests.iter().map(|r| code(r)).collect();
    assert_eq!(codes, vec![2, 7, 1, 2, 7, 1, 2, 2, 6, 2, 7, 1, 2, 2, 6]);
    // enrollment steps 3, 4, 4, 5
    assert_eq!(&spi.requests[0][14..18], &[3, 0, 0, 0]);
    assert_eq!(&spi.requests[3][14..18], &[4, 0, 0, 0]);
    assert_eq!(&spi.requests[7][14..18], &[5, 0, 0, 0]);
    // waiting for the finger to lift carries no timeout, only the enroll tag
    assert_eq!(&spi.requests[1][10..18], &[7, 0, 1, 0, 2, 0, 0, 0]);
    // first template saved under id 0, the second under id 1
    assert_eq!(&spi.requests[8][14..24], &[0x08, 0x10, 0, 0, 0x06, 0, 2, 0, 0, 0]);
    assert_eq!(&spi.requests[14][14..24], &[0x08, 0x10, 0, 0, 0x06, 0, 2, 0, 1, 0]);
}

#[test]
fn enroll_stops_at_first_failure() {
    let replies = vec![ok_reply(2), payload(7, &[])];
    let mut bm = module_driver(FakeModule::new(replies));
    let first = bm.enroll();
    assert_eq!(run(&mut bm, first, &mut |_| {}), Err(Error::UnexpectedResponse));
    // a failed enrollment saves nothing: the next one saves under id 0
    let replies = vec![ok_reply(2), ok_reply(7), ok_reply(1), payload(2, &[(0x2001, &[0]), (0x2002, &[0])]), ok_reply(2), ok_reply(6)];
    bm.spi.replies = replies.into();
    let first = bm.enroll();
    assert_eq!(run(&mut bm, first, &mut |_| {}), Ok(0));
    let last = bm.spi.requests.last().unwrap().clone();
    assert_eq!(&last[18..24], &[0x06, 0, 2, 0, 0, 0]);
}

#[test]
fn identify_without_match() {
    let replies = vec![ok_reply(1), ok_reply(5), payload(3, &[(0x2001, &[0]), (0x000a, &[0])])];
    let mut bm = module_driver(FakeModule::new(replies));
    let first = bm.identify();
    assert_eq!(run(&mut bm, first, &mut |_| {}), Err(Error::NoMatch));
}

#[test]
fn identify_returns_template_id() {
    let replies = vec![ok_reply(1), ok_reply(5), payload(3, &[(0x000a, &[1]), (0x0006, &[4, 0]), (0x2001, &[0])])];
    let mut bm = module_driver(FakeModule::new(replies));
    let first = bm.identify();
    assert_eq!(run(&mut bm, first, &mut |_| {}), Ok(4));
    let codes: Vec<u16> = bm.spi.requests.iter().map(|r| code(r)).collect();
    assert_eq!(codes, vec![1, 5, 3]);
}

#[test]
fn identify_stops_when_capture_fails() {
    let replies = vec![payload(1, &[(0x1234, &[])])];
    let mut bm = module_driver(FakeModule::new(replies));
    let first = bm.identify();
    assert_eq!(run(&mut bm, first, &mut |_| {}), Err(Error::UnexpectedResponse));
    assert_eq!(bm.spi.requests.len(), 1);
}

#[test]
fn single_commands() {
    let replies = vec![
        ok_reply(0x3004),
        payload(7, &[(0x2001, &[0x34, 0x12])]),
        payload(0x4002, &[(0x2001, &[3])]),
        payload(5, &[(0x2001, &[0]), (0x2002, &[9, 0, 0, 0])]),
        payload(2, &[(0x2001, &[0]), (0x2002, &[2])]),
        ok_reply(6),
        payload(3, &[(0x000a, &[1]), (0x2001, &[0])]),
    ];
    let mut bm = module_driver(FakeModule::new(replies));
    let a = bm.get_version();
    assert_eq!(run(&mut bm, a, &mut |_| {}), Ok(0));
    let a = bm.waitfingerup(250);
    assert_eq!(run(&mut bm, a, &mut |_| {}), Ok(0x34));
    let a = bm.delete_all();
    assert_eq!(run(&mut bm, a, &mut |_| {}), Ok(3));
    let a = bm.do_extract();
    assert_eq!(run(&mut bm, a, &mut |_| {}), Ok(9));
    let a = bm.do_enroll(0);
    assert_eq!(run(&mut bm, a, &mut |_| {}), Ok(2));
    let a = bm.do_savetemplate(7);
    assert_eq!(run(&mut bm, a, &mut |_| {}), Ok(0));
    let a = bm.do_identify();
    assert_eq!(run(&mut bm, a, &mut |_| {}), Ok(0xffff_ffff));
    let r = &bm.spi.requests;
    assert_eq!(&r[0][10..18], &[0x04, 0x30, 1, 0, 0x04, 0x10, 0, 0]);
    assert_eq!(&r[1][10..26], &[7, 0, 2, 0, 0x01, 0x50, 4, 0, 250, 0, 0, 0, 2, 0, 0, 0]);
    assert_eq!(&r[4][10..14], &[2, 0, 0, 0]);
}

#[test]
fn reply_with_bad_crc_fails() {
    let mut m = FakeModule::new(vec![ok_reply(1)]);
    m.corrupt_crc = true;
    let mut bm = module_driver(m);
    let a = bm.capture(0);
    assert_eq!(run(&mut bm, a, &mut |_| {}), Err(Error::CRCError));
    // the reply was not acknowledged
    assert_eq!(bm.spi.stage, 3 + 1);
}

#[test]
fn unexpected_acknowledgement_fails() {
    let mut m = FakeModule::new(vec![ok_reply(1)]);
    m.ack = [0x7f, 0xff, 0x02, 0x7f];
    let mut bm = module_driver(m);
    let a = bm.capture(0);
    assert_eq!(run(&mut bm, a, &mut |_| {}), Err(Error::UnexpectedResponse));
}

#[test]
fn multi_packet_reply_fails() {
    let mut m = FakeModule::new(vec![ok_reply(1)]);
    m.second_packet = true;
    let mut bm = module_driver(m);
    let a = bm.capture(0);
    assert_eq!(run(&mut bm, a, &mut |_| {}), Err(Error::UnexpectedResponse));
}

#[test]
fn reply_to_another_command_fails() {
    let mut bm = module_driver(FakeModule::new(vec![ok_reply(2)]));
    let a = bm.capture(0);
    assert_eq!(run(&mut bm, a, &mut |_| {}), Err(Error::UnexpectedResponse));
}

#[test]
fn acknowledgement_waits_out_the_timeout() {
    let mut bm = BmLite::new(
        FakeModule::new(vec![ok_reply(1)]),
        DummyInterface::new(vec![]),
        DummyInterface::new(vec![]),
        ReadyAfter(std::cell::Cell::new(500_000)),
    );
    let a = bm.capture(0);
    assert_eq!(run(&mut bm, a, &mut |_| {}), Ok(0));
}

#[test]
fn busy_module_times_out() {
    let mut bm = BmLite::new(
        FakeModule::new(vec![ok_reply(1)]),
        DummyInterface::new(vec![]),
        DummyInterface::new(vec![]),
        NeverReady(std::cell::Cell::new(0)),
    );
    let a = bm.capture(0);
    assert_eq!(run(&mut bm, a, &mut |_| {}), Err(Error::Timeout));
    let (_, (_, _, irq)) = bm.teardown();
    assert_eq!(irq.0.get(), 500_001);
}

#[test]
fn reset_drives_the_line_around_the_delay() {
    let mut bm = module_driver(FakeModule::new(vec![]));
    let mut first = bm.reset::<()>();
    let mut trace = Vec::new();
    loop {
        let ev = match first {
            Action::SetReset { high } => {
                trace.push(if high { "high" } else { "low" });
                Event::Done
            }
            Action::Delay => {
                trace.push("delay");
                Event::Done
            }
            Action::Finish(r) => {
                assert_eq!(r, Ok(0));
                break;
            }
            _ => panic!("unexpected action"),
        };
        assert!(bm.accepts(&ev));
        first = bm.step(ev);
    }
    assert_eq!(trace, vec!["low", "delay", "high"]);
}

#[test]
fn finished_driver_takes_no_event() {
    let mut bm = module_driver(FakeModule::new(vec![ok_reply(1)]));
    let a = bm.capture(0);
    assert_eq!(run(&mut bm, a, &mut |_| {}), Ok(0));
    assert!(!bm.accepts(&Event::Done));
    assert!(!bm.accepts(&Event::Irq { low: false }));
    assert!(!bm.accepts(&Event::Transferred(vec![0; 4])));
}

#[test]
fn driver_refuses_what_it_cannot_take() {
    // a CRC-valid reply of four bytes: the empty body's CRC is zero
    let mut bm = module_driver(FakeModule::new(vec![]));
    let _ = bm.capture::<()>(0);
    let _ = bm.step::<()>(Event::Transferred(vec![0; 18]));
    assert!(!bm.accepts(&Event::Done));
    let _ = bm.step::<()>(Event::Irq { low: false });
    assert!(!bm.accepts(&Event::Transferred(vec![0; 3])));
    let _ = bm.step::<()>(Event::Transferred(vec![0x7f, 0xff, 0x01, 0x7f]));
    let _ = bm.step::<()>(Event::Irq { low: false });
    let a = bm.step::<()>(Event::Transferred(vec![0, 0, 0, 0]));
    assert!(matches!(a, Action::Exchange(ref v) if v.len() == 4));
    assert!(!bm.accepts(&Event::Transferred(vec![0; 5])));
    let a = bm.step::<()>(Event::Transferred(vec![0, 0, 0, 0]));
    assert!(matches!(a, Action::Exchange(ref v) if v == &vec![0x7f, 0xff, 0x01, 0x7f]));
    assert!(!bm.accepts(&Event::Transferred(vec![0; 4])));

    // a result argument without data cannot be read as a number
    let mut bm = module_driver(FakeModule::new(vec![payload(1, &[(0x2001, &[])])]));
    let mut a = bm.capture::<()>(0);
    let refused = loop {
        let ev = match a {
            Action::Exchange(mut bytes) => Event::Transferred(bm.spi.transfer(&mut bytes).unwrap().to_vec()),
            Action::PollIrq => Event::Irq { low: false },
            _ => panic!("unexpected action"),
        };
        if !bm.accepts(&ev) {
            break true;
        }
        a = bm.step(ev);
    };
    assert!(refused);
}
