#![allow(deprecated)]

use bmlite::link::Event;
use bmlite::{delete_all_checksum, delete_all_request, BmLite, Error, Step};
use embedded_hal::blocking::spi::Transfer;
use embedded_hal::digital::{InputPin, OutputPin};
use embedded_hal::spi::FullDuplex;
use embedded_hal_mock::spi::{Mock as SpiMock, Transaction as SpiTransaction};

struct Pin;

impl OutputPin for Pin {
    fn set_low(&mut self) {}
    fn set_high(&mut self) {}
}

impl InputPin for Pin {
    fn is_high(&self) -> bool {
        true
    }
    fn is_low(&self) -> bool {
        false
    }
}

/// Carries out the first driver's steps until it finishes.
fn run<SPI, E>(bm: &mut BmLite<SPI, Pin, Pin, Pin>, first: Step<E>) -> Result<u8, Error<E>>
where
    SPI: Transfer<u8, Error = E> + FullDuplex<u8, Error = E>,
{
    let mut step = first;
    loop {
        let event = match step {
            Step::Finish(r) => return r,
            Step::Exchange(mut bytes) => {
                bm.cs.set_low();
                let reply = match bm.spi.transfer(&mut bytes) {
                    Ok(r) => r.to_vec(),
                    Err(e) => return Err(Error::HalErr(e)),
                };
                bm.cs.set_high();
                Event::Transferred(reply)
            }
            Step::Read(n) => {
                bm.cs.set_low();
                let mut v = Vec::with_capacity(n);
                for _ in 0..n {
                    loop {
                        match bm.spi.send(0) {
                            Ok(()) => break,
                            Err(nb::Error::WouldBlock) => continue,
                            Err(nb::Error::Other(e)) => return Err(Error::HalErr(e)),
                        }
                    }
                    let b = loop {
                        match bm.spi.read() {
                            Ok(b) => break b,
                            Err(nb::Error::WouldBlock) => continue,
                            Err(nb::Error::Other(e)) => return Err(Error::HalErr(e)),
                        }
                    };
                    v.push(b);
                }
                bm.cs.set_high();
                Event::Transferred(v)
            }
            Step::PollIrq => Event::Irq { low: bm.irq.is_low() },
            Step::SetReset { high } => {
                if high {
                    bm.rst.set_high()
                } else {
                    bm.rst.set_low()
                }
                Event::Done
            }
        };
        assert!(bm.accepts(&event));
        step = bm.step(event);
    }
}

#[test]
fn lib_delete_all_templates() {
    let tmp = delete_all_request();
    let refvec: Vec<u8> = vec![0x01,0x00,0x12,0x00,0x0c,0x00,0x01,0x00,0x01,0x00,0x02,0x40,0x02,0x00,0x09,0x10,0x00,0x00,0x07,0x00,0x00,0x00,0xb1,0x2e,0x45,0x93];
    assert!(tmp[4..] == refvec[4..]);
    assert!(&tmp[0..4] == &refvec[0..4]);

    let refvec: Vec<u8> = vec![0x01,0x00,0x12,0x00,0x0c,0x00,0x01,0x00,0x01,0x00,0x02,0x40,0x02,0x00,0x09,0x10,0x00,0x00,0x07,0x00,0x00,0x00,0xff,0xff,0xff,0xff];
    assert!(&tmp != &refvec)
}

#[test]
fn delete_all_checksum_value() {
    assert_eq!(delete_all_checksum(), 0x93452eb1);
}

fn delete_all_script(reply: &[u8]) -> Vec<SpiTransaction> {
    let mut t = vec![
        SpiTransaction::transfer(delete_all_request(), vec![0; 26]),
        SpiTransaction::transfer(vec![0; 4], vec![0x7f, 0xff, 0x01, 0x7f]),
        SpiTransaction::transfer(vec![0; 4], vec![0, 0, (reply.len() - 4) as u8, 0]),
    ];
    for b in reply {
        t.push(SpiTransaction::send(0));
        t.push(SpiTransaction::read(*b));
    }
    t
}

#[test]
fn legacy_delete_all_checks_crc_least_significant_first() {
    // the module's reply, sealed least significant byte first
    let reply = [0x09, 0x00, 0x01, 0x00, 0x01, 0x00, 0x02, 0x40, 0x01, 0x00, 0x01, 0x20, 0x01, 0x00, 0x00, 0xab, 0x1f, 0x35, 0x80];
    let mut script = delete_all_script(&reply);
    script.push(SpiTransaction::transfer(vec![0x7f, 0xff, 0x01, 0x7f], vec![0; 4]));
    let spi = SpiMock::new(&script);
    let mut bm = BmLite::new(spi, Pin, Pin, Pin);
    let first = bm.delete_all();
    assert!(matches!(run(&mut bm, first), Ok(1)));
    bm.spi.done();
}

#[test]
fn legacy_delete_all_reports_crc_mismatch() {
    // the same reply sealed most significant byte first does not pass
    let body = [0x09, 0x00, 0x01, 0x00, 0x01, 0x00, 0x02, 0x40, 0x01, 0x00, 0x01, 0x20, 0x01, 0x00, 0x00];
    let mut reply = body.to_vec();
    reply.extend_from_slice(&crc::crc32::checksum_ieee(&body).to_be_bytes());
    let spi = SpiMock::new(&delete_all_script(&reply));
    let mut bm = BmLite::new(spi, Pin, Pin, Pin);
    let first = bm.delete_all();
    assert!(matches!(run(&mut bm, first), Ok(99)));
    bm.spi.done();
}

#[test]
fn legacy_unexpected_acknowledgement() {
    let script = [
        SpiTransaction::transfer(delete_all_request(), vec![0; 26]),
        SpiTransaction::transfer(vec![0; 4], vec![0, 0, 0, 0]),
    ];
    let spi = SpiMock::new(&script);
    let mut bm = BmLite::new(spi, Pin, Pin, Pin);
    let first = bm.delete_all();
    assert!(matches!(run(&mut bm, first), Err(Error::UnexpectedResponse)));
    bm.spi.done();
}

#[test]
fn legacy_reset() {
    let spi = SpiMock::new(&[]);
    let mut bm = BmLite::new(spi, Pin, Pin, Pin);
    let first = bm.reset();
    assert!(matches!(run(&mut bm, first), Ok(0)));
    bm.spi.done();
}
