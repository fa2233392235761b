use esp32_sensing::bh1750::{decode_measurement, measurement_time_commands, perform_measurement, setup, BH1750_MTREG};
use esp32_sensing::bus::{Procedure, Reading, Reply, Request, Step};

fn drive(start: (Procedure, Step), mut answer: impl FnMut(&Request) -> Reply) -> (Option<Reading>, Vec<String>) {
    let (mut p, mut step) = start;
    let mut log = Vec::new();
    loop {
        match step {
            Step::Done(Ok(r)) => return (Some(r), log),
            Step::Done(Err(_)) => return (None, log),
            Step::Perform(req) => {
                log.push(format!("{:?}", req));
                let reply = answer(&req);
                if let Some(refusal) = p.refusal(&reply) {
                    log.push(format!("refused: {:?}", refusal));
                    return (None, log);
                }
                step = p.resume(reply);
            }
        }
    }
}

#[test]
fn mtreg_commands() {
    assert_eq!(measurement_time_commands(BH1750_MTREG), (0x47, 0x7e));
    // The datasheet default of 69.
    assert_eq!(measurement_time_commands(69), (0x42, 0x65));
    assert_eq!(measurement_time_commands(31), (0x40, 0x7f));
}

#[test]
fn illuminance_word() {
    assert_eq!(decode_measurement(&[0x12, 0x34]), 0x1234);
    assert_eq!(decode_measurement(&[0xff, 0x00]), 0xff00);
}

#[test]
fn bh1750_setup_sequence() {
    let (r, log) = drive(setup(), |_| Reply { data: vec![], ok: false });
    assert_eq!(r, Some(Reading::Nothing));
    assert_eq!(
        log,
        vec![
            "Write { addr: 35, bytes: [1] }",
            "Write { addr: 35, bytes: [71] }",
            "Write { addr: 35, bytes: [126] }",
            "Delay { ms: 480 }",
        ]
    );
}

#[test]
fn bh1750_measurement_sequence() {
    let (r, log) = drive(perform_measurement(), |req| match req {
        Request::Read { len, .. } => {
            assert_eq!(*len, 2);
            Reply { data: vec![0x01, 0x02], ok: true }
        }
        _ => Reply { data: vec![], ok: true },
    });
    assert_eq!(r, Some(Reading::Illuminance(0x0102)));
    assert_eq!(
        log,
        vec!["Write { addr: 35, bytes: [1] }", "Write { addr: 35, bytes: [33] }", "Read { addr: 35, len: 2 }"]
    );
}

#[test]
fn measurement_stops_on_bus_error() {
    let (r, log) = drive(perform_measurement(), |req| match req {
        Request::Write { bytes, .. } if bytes[0] == 0x21 => Reply { data: vec![], ok: false },
        _ => Reply { data: vec![], ok: true },
    });
    assert_eq!(r, None);
    assert_eq!(log.len(), 2);
}
