use esp32_sensing::bus::{Procedure, Reading, Reply, Request, Step};
use esp32_sensing::dps310::{
    decode_coefficients, decode_raw_measurement, get_status, read_coefficients, read_pressure,
    read_temprature, setup, sign_ext_12bit, sign_ext_20bit, sign_ext_24bit, Dps310Coefficients,
    Dps310Status,
};

/// A simulated DPS310: answers each request from `answer`, records the
/// requests, and returns the procedure's outcome.
fn drive(
    start: (Procedure, Step),
    mut answer: impl FnMut(&Request) -> Reply,
    log: &mut Vec<String>,
) -> Option<Reading> {
    let (mut p, mut step) = start;
    for _ in 0..1000 {
        match step {
            Step::Done(Ok(r)) => return Some(r),
            Step::Done(Err(_)) => return None,
            Step::Perform(req) => {
                log.push(format!("{:?}", req));
                let reply = answer(&req);
                if let Some(refusal) = p.refusal(&reply) {
                    log.push(format!("refused: {:?}", refusal));
                    return None;
                }
                step = p.resume(reply);
            }
        }
    }
    panic!("procedure did not finish");
}

fn ok(data: Vec<u8>) -> Reply {
    Reply { data, ok: true }
}

#[test]
fn sign_ext_12bit_values() {
    assert_eq!(sign_ext_12bit(0x000), 0);
    assert_eq!(sign_ext_12bit(0x7ff), 2047);
    assert_eq!(sign_ext_12bit(0x800), -2048);
    assert_eq!(sign_ext_12bit(0xfff), -1);
    assert_eq!(sign_ext_12bit(0x123), 0x123);
    // Bits above the field: bit 11 set overwrites them, bit 11 clear keeps them.
    assert_eq!(sign_ext_12bit(0x1800), -2048);
    assert_eq!(sign_ext_12bit(0x8000), -32768);
}

#[test]
fn sign_ext_20bit_values() {
    assert_eq!(sign_ext_20bit(0x7ffff), 0x7ffff);
    assert_eq!(sign_ext_20bit(0x80000), -0x80000);
    assert_eq!(sign_ext_20bit(0xfffff), -1);
    assert_eq!(sign_ext_20bit(0x12345), 0x12345);
}

#[test]
fn sign_ext_24bit_values() {
    assert_eq!(sign_ext_24bit(0x7fffff), 0x7fffff);
    assert_eq!(sign_ext_24bit(0x800000), -0x800000);
    assert_eq!(sign_ext_24bit(0xffffff), -1);
    assert_eq!(sign_ext_24bit(0xfffffe), -2);
    assert_eq!(sign_ext_24bit(0x000001), 1);
}

#[test]
fn status_bits() {
    let s = Dps310Status::from_u8(0b1111_0101);
    assert_eq!(
        s,
        Dps310Status { coef_ready: true, sens_ready: true, temp_ready: true, prs_ready: true, ctr: 5 }
    );
    let s = Dps310Status::from_u8(0b0100_0010);
    assert_eq!(
        s,
        Dps310Status { coef_ready: false, sens_ready: true, temp_ready: false, prs_ready: false, ctr: 2 }
    );
    let s = Dps310Status::from_u8(0b1000_1111);
    assert!(s.coef_ready && !s.sens_ready && !s.temp_ready && !s.prs_ready);
    assert_eq!(s.ctr, 7);
}

const COEF_REGS: [u8; 18] = [
    0x0c, 0xaf, 0xff, // c0 = 0x0ca = 202, c1 = 0xfff = -1
    0x80, 0x00, 0x17, // c00 = 0x80001 = -524287, c10 = 0x7....
    0xff, 0xfe, // c10 = 0x7fffe = 524286
    0xff, 0xfe, // c01 = -2
    0x00, 0x10, // c11 = 16
    0x80, 0x00, // c20 = -32768
    0x7f, 0xff, // c21 = 32767
    0x12, 0x34, // c30 = 0x1234
];

fn expected_coefficients() -> Dps310Coefficients {
    Dps310Coefficients {
        c0: 0x0ca,
        c1: -1,
        c00: -524287,
        c10: 524286,
        c01: -2,
        c11: 16,
        c20: -32768,
        c21: 32767,
        c30: 0x1234,
    }
}

#[test]
fn coefficients_from_registers() {
    assert_eq!(decode_coefficients(&COEF_REGS), expected_coefficients());
    assert_eq!(
        decode_coefficients(&[0u8; 18]),
        Dps310Coefficients { c0: 0, c1: 0, c00: 0, c10: 0, c01: 0, c11: 0, c20: 0, c21: 0, c30: 0 }
    );
}

#[test]
fn raw_measurement_from_registers() {
    assert_eq!(decode_raw_measurement(&[0x00, 0x00, 0x01]), 1);
    assert_eq!(decode_raw_measurement(&[0xff, 0xff, 0xff]), -1);
    assert_eq!(decode_raw_measurement(&[0x80, 0x00, 0x00]), -0x800000);
    assert_eq!(decode_raw_measurement(&[0x12, 0x34, 0x56]), 0x123456);
    // The roundtrip of a negative value through its three registers.
    let v: i32 = -123456;
    let u = (v as u32) & 0xff_ffff;
    assert_eq!(decode_raw_measurement(&[(u >> 16) as u8, (u >> 8) as u8, u as u8]), v);
}

#[test]
fn setup_writes_configuration_and_waits_for_sensor() {
    let mut log = Vec::new();
    let mut polls = 0;
    let r = drive(
        setup(),
        |req| match req {
            Request::WriteRead { bytes, len, .. } => {
                assert_eq!(bytes, &vec![0x08]);
                polls += 1;
                // Not ready twice, then sensor ready.
                ok(vec![if polls < 3 { 0x00 } else { 0x40 }; *len])
            }
            Request::Write { .. } => Reply { data: vec![], ok: false },
            Request::Delay { .. } | Request::Read { .. } => ok(vec![]),
        },
        &mut log,
    );
    assert_eq!(r, Some(Reading::Nothing));
    assert_eq!(
        log,
        vec![
            "Write { addr: 119, bytes: [12, 9] }",
            "Write { addr: 119, bytes: [40, 0] }",
            "Write { addr: 119, bytes: [9, 12] }",
            "WriteRead { addr: 119, bytes: [8], len: 1 }",
            "Delay { ms: 1 }",
            "WriteRead { addr: 119, bytes: [8], len: 1 }",
            "Delay { ms: 1 }",
            "WriteRead { addr: 119, bytes: [8], len: 1 }",
            "Write { addr: 119, bytes: [40, 128] }",
            "Write { addr: 119, bytes: [6, 6] }",
            "Write { addr: 119, bytes: [7, 134] }",
        ]
    );
}

#[test]
fn setup_fails_when_status_read_fails() {
    let mut log = Vec::new();
    let r = drive(
        setup(),
        |req| match req {
            Request::WriteRead { len, .. } => Reply { data: vec![0; *len], ok: false },
            _ => ok(vec![]),
        },
        &mut log,
    );
    assert_eq!(r, None);
    assert_eq!(log.len(), 5);
    assert_eq!(log[4], "refused: BusError");
}

#[test]
fn get_status_reads_meas_cfg() {
    let mut log = Vec::new();
    let r = drive(get_status(), |_| ok(vec![0xc0]), &mut log);
    assert_eq!(r, Some(Reading::Status(Dps310Status::from_u8(0xc0))));
    assert_eq!(log, vec!["WriteRead { addr: 119, bytes: [8], len: 1 }"]);
}

#[test]
fn read_coefficients_reads_18_registers() {
    let mut log = Vec::new();
    let r = drive(
        read_coefficients(),
        |req| match req {
            Request::WriteRead { bytes, .. } if bytes[0] == 0x08 => ok(vec![0x80]),
            Request::WriteRead { bytes, .. } => ok(vec![COEF_REGS[(bytes[0] - 0x10) as usize]]),
            _ => ok(vec![]),
        },
        &mut log,
    );
    assert_eq!(r, Some(Reading::Coefficients(expected_coefficients())));
    assert_eq!(log.len(), 19);
    assert_eq!(log[1], "WriteRead { addr: 119, bytes: [16], len: 1 }");
    assert_eq!(log[18], "WriteRead { addr: 119, bytes: [33], len: 1 }");
}

#[test]
fn read_coefficients_ignores_register_errors() {
    let mut log = Vec::new();
    let r = drive(
        read_coefficients(),
        |req| match req {
            Request::WriteRead { bytes, .. } if bytes[0] == 0x08 => ok(vec![0x80]),
            // The zero-filled buffer comes back with an error.
            Request::WriteRead { .. } => Reply { data: vec![0], ok: false },
            _ => ok(vec![]),
        },
        &mut log,
    );
    assert_eq!(
        r,
        Some(Reading::Coefficients(Dps310Coefficients {
            c0: 0, c1: 0, c00: 0, c10: 0, c01: 0, c11: 0, c20: 0, c21: 0, c30: 0
        }))
    );
}

#[test]
fn read_pressure_waits_for_result() {
    let mut log = Vec::new();
    let mut status_reads = 0;
    let r = drive(
        read_pressure(),
        |req| match req {
            Request::WriteRead { bytes, .. } => match bytes[0] {
                0x08 => {
                    status_reads += 1;
                    ok(vec![if status_reads == 1 { 0x20 } else { 0x10 }])
                }
                0x06 => ok(vec![0x26]),
                0x00 => ok(vec![0xff]),
                0x01 => ok(vec![0xff]),
                0x02 => ok(vec![0xfe]),
                _ => panic!("unexpected register"),
            },
            _ => ok(vec![]),
        },
        &mut log,
    );
    assert_eq!(r, Some(Reading::RawMeasurement(-2)));
    assert_eq!(
        log,
        vec![
            "Write { addr: 119, bytes: [8, 1] }",
            "WriteRead { addr: 119, bytes: [6], len: 1 }",
            "WriteRead { addr: 119, bytes: [8], len: 1 }",
            "Delay { ms: 1 }",
            "WriteRead { addr: 119, bytes: [8], len: 1 }",
            "WriteRead { addr: 119, bytes: [0], len: 1 }",
            "WriteRead { addr: 119, bytes: [1], len: 1 }",
            "WriteRead { addr: 119, bytes: [2], len: 1 }",
        ]
    );
}

#[test]
fn read_temprature_fails_when_command_fails() {
    let mut log = Vec::new();
    let r = drive(read_temprature(), |_| Reply { data: vec![], ok: false }, &mut log);
    assert_eq!(r, None);
    assert_eq!(log, vec!["Write { addr: 119, bytes: [8, 2] }"]);
}

#[test]
fn read_temprature_result() {
    let mut log = Vec::new();
    let r = drive(
        read_temprature(),
        |req| match req {
            Request::WriteRead { bytes, .. } => match bytes[0] {
                0x08 => ok(vec![0x20]),
                0x07 => ok(vec![0x86]),
                0x03 => ok(vec![0x01]),
                0x04 => ok(vec![0x02]),
                0x05 => ok(vec![0x03]),
                _ => panic!("unexpected register"),
            },
            _ => ok(vec![]),
        },
        &mut log,
    );
    assert_eq!(r, Some(Reading::RawMeasurement(0x010203)));
    assert_eq!(log[0], "Write { addr: 119, bytes: [8, 2] }");
    assert_eq!(log[1], "WriteRead { addr: 119, bytes: [7], len: 1 }");
}

/// The register layout of the coefficients, as the sensor stores them.
fn registers_of(c: &Dps310Coefficients) -> [u8; 18] {
    let u0 = (c.c0 as u16) & 0xfff;
    let u1 = (c.c1 as u16) & 0xfff;
    let u00 = (c.c00 as u32) & 0xfffff;
    let u10 = (c.c10 as u32) & 0xfffff;
    let w = |v: i16| ((v as u16) >> 8) as u8;
    let l = |v: i16| v as u8;
    [
        (u0 >> 4) as u8,
        (((u0 & 0xf) << 4) | (u1 >> 8)) as u8,
        u1 as u8,
        (u00 >> 12) as u8,
        (u00 >> 4) as u8,
        (((u00 & 0xf) << 4) | (u10 >> 16)) as u8,
        (u10 >> 8) as u8,
        u10 as u8,
        w(c.c01),
        l(c.c01),
        w(c.c11),
        l(c.c11),
        w(c.c20),
        l(c.c20),
        w(c.c21),
        l(c.c21),
        w(c.c30),
        l(c.c30),
    ]
}

#[test]
fn coefficients_roundtrip() {
    let samples = [
        expected_coefficients(),
        Dps310Coefficients { c0: -2048, c1: 2047, c00: 0x7ffff, c10: -0x80000, c01: i16::MIN, c11: i16::MAX, c20: -1, c21: 1, c30: 0 },
        Dps310Coefficients { c0: 204, c1: -261, c00: 80469, c10: -54017, c01: -2738, c11: 1245, c20: -10327, c21: 66, c30: -822 },
    ];
    assert_eq!(registers_of(&expected_coefficients()), COEF_REGS);
    for c in samples {
        assert_eq!(decode_coefficients(&registers_of(&c)), c);
        // Read through the procedure as well.
        let regs = registers_of(&c);
        let mut log = Vec::new();
        let r = drive(
            read_coefficients(),
            |req| match req {
                Request::WriteRead { bytes, .. } if bytes[0] == 0x08 => ok(vec![0xc0]),
                Request::WriteRead { bytes, .. } => ok(vec![regs[(bytes[0] - 0x10) as usize]]),
                _ => ok(vec![]),
            },
            &mut log,
        );
        assert_eq!(r, Some(Reading::Coefficients(c)));
    }
}
