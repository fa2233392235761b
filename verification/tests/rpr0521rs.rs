use esp32_sensing::bus::{Procedure, Reading, Reply, Request, Step};
use esp32_sensing::rpr0521rs::{decode_sample, gain_from_control, perform_measurement, setup, AlsGain, AlsSample};

fn drive(start: (Procedure, Step), mut answer: impl FnMut(&Request) -> Reply) -> (Option<Reading>, Vec<String>) {
    let (mut p, mut step) = start;
    let mut log = Vec::new();
    loop {
        match step {
            Step::Done(Ok(r)) => return (Some(r), log),
            Step::Done(Err(_)) => return (None, log),
            Step::Perform(req) => {
                log.push(format!("{:?}", req));
                let reply = answer(&req);
                if let Some(refusal) = p.refusal(&reply) {
                    log.push(format!("refused: {:?}", refusal));
                    return (None, log);
                }
                step = p.resume(reply);
            }
        }
    }
}

#[test]
fn gain_field() {
    // The LED current bits (1..0) and bits 7..6 do not matter.
    for ctrl in [0x00u8, 0x03, 0xc0, 0xc3] {
        assert_eq!(gain_from_control(ctrl), (AlsGain::X1, AlsGain::X1));
    }
    for ctrl in [0x28u8, 0x2b, 0xe8] {
        assert_eq!(gain_from_control(ctrl), (AlsGain::X64, AlsGain::X64));
    }
    // Each channel has its own 2-bit code.
    assert_eq!(gain_from_control(0x08), (AlsGain::X1, AlsGain::X64));
    assert_eq!(gain_from_control(0x20), (AlsGain::X64, AlsGain::X1));
    assert_eq!(gain_from_control(0x3c), (AlsGain::X128, AlsGain::X128));
    assert_eq!(gain_from_control(0x14), (AlsGain::X2, AlsGain::X2));
    assert_eq!(gain_from_control(0x1c), (AlsGain::X2, AlsGain::X128));
    assert_eq!(gain_from_control(0xff), (AlsGain::X128, AlsGain::X128));
    assert_eq!([AlsGain::X1.factor(), AlsGain::X2.factor(), AlsGain::X64.factor(), AlsGain::X128.factor()], [1, 2, 64, 128]);
}

#[test]
fn sample_is_little_endian() {
    assert_eq!(
        decode_sample(&[0x34, 0x12, 0xcd, 0xab, 0x03]),
        AlsSample { als0: 0x1234, als1: 0xabcd, gain0: AlsGain::X1, gain1: AlsGain::X1 }
    );
    assert_eq!(
        decode_sample(&[0x34, 0x12, 0xcd, 0xab, 0x2b]),
        AlsSample { als0: 0x1234, als1: 0xabcd, gain0: AlsGain::X64, gain1: AlsGain::X64 }
    );
}

#[test]
fn rpr_setup_sequence() {
    let (r, log) = drive(setup(), |_| Reply { data: vec![], ok: false });
    assert_eq!(r, Some(Reading::Nothing));
    assert_eq!(
        log,
        vec![
            "Write { addr: 56, bytes: [64, 128] }",
            "Write { addr: 56, bytes: [65, 138] }",
            "Write { addr: 56, bytes: [66, 3] }",
        ]
    );
}

#[test]
fn rpr_measurement_sequence() {
    let (r, log) = drive(perform_measurement(), |req| match req {
        Request::WriteRead { bytes, .. } if bytes[0] == 0x46 => Reply { data: vec![0x10, 0x00, 0x20, 0x01], ok: true },
        _ => Reply { data: vec![0x03], ok: true },
    });
    assert_eq!(r, Some(Reading::Als(AlsSample { als0: 0x0010, als1: 0x0120, gain0: AlsGain::X1, gain1: AlsGain::X1 })));
    let (r, _) = drive(perform_measurement(), |req| match req {
        Request::WriteRead { bytes, .. } if bytes[0] == 0x46 => Reply { data: vec![0x10, 0x00, 0x20, 0x01], ok: true },
        _ => Reply { data: vec![0x2b], ok: true },
    });
    assert_eq!(r, Some(Reading::Als(AlsSample { als0: 0x0010, als1: 0x0120, gain0: AlsGain::X64, gain1: AlsGain::X64 })));
    assert_eq!(
        log,
        vec!["WriteRead { addr: 56, bytes: [70], len: 4 }", "WriteRead { addr: 56, bytes: [66], len: 1 }"]
    );
    let (r, _) = drive(perform_measurement(), |req| match req {
        Request::WriteRead { len, .. } => Reply { data: vec![0; *len], ok: false },
        _ => Reply { data: vec![], ok: true },
    });
    assert_eq!(r, None);
}
