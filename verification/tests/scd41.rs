use esp32_sensing::bus::{Procedure, Reading, Reply, Request, Step};
use esp32_sensing::scd41::{
    check_crc, command, data_ready, decode_measurement, is_data_ready, measurement_valid,
    read_measurement, setup, start_periodic_measurement, stop_periodic_measurement, wait_data_ready,
};

fn drive(start: (Procedure, Step), mut answer: impl FnMut(&Request) -> Reply) -> (Option<Reading>, Vec<String>) {
    let (mut p, mut step) = start;
    let mut log = Vec::new();
    loop {
        match step {
            Step::Done(Ok(r)) => return (Some(r), log),
            Step::Done(Err(_)) => return (None, log),
            Step::Perform(req) => {
                log.push(format!("{:?}", req));
                let reply = answer(&req);
                if let Some(refusal) = p.refusal(&reply) {
                    log.push(format!("refused: {:?}", refusal));
                    return (None, log);
                }
                step = p.resume(reply);
            }
        }
    }
}

/// The CRC-8 of a data word, computed bit by bit as the datasheet gives it.
fn crc_of(data: &[u8]) -> u8 {
    let mut crc: u8 = 0xff;
    for b in data {
        crc ^= b;
        for _ in 0..8 {
            crc = if crc & 0x80 != 0 { (crc << 1) ^ 0x31 } else { crc << 1 };
        }
    }
    crc
}

#[test]
fn crc_of_datasheet_example() {
    // Sensirion's example: the CRC of 0xBEEF is 0x92.
    assert!(check_crc(&[0xbe, 0xef, 0x92]));
    assert!(!check_crc(&[0xbe, 0xef, 0x93]));
    assert!(!check_crc(&[0xbe, 0xee, 0x92]));
}

#[test]
fn crc_appended_passes() {
    for word in [[0x00u8, 0x00], [0x01, 0xf4], [0x66, 0x67], [0x5e, 0xb9], [0xff, 0xff]] {
        let c = crc_of(&word);
        assert!(check_crc(&[word[0], word[1], c]));
        assert!(!check_crc(&[word[0], word[1], c ^ 0x01]));
    }
    // The CRC of no data is the initial value; 0xff alone does not pass.
    assert!(!check_crc(&[]));
    assert!(check_crc(&[0xff]));
}

#[test]
fn data_ready_bits() {
    assert!(!data_ready(&[0x80, 0x00, 0x00]));
    assert!(!data_ready(&[0xf8, 0x00, 0x12]));
    assert!(data_ready(&[0x00, 0x01, 0x00]));
    assert!(data_ready(&[0x04, 0x00, 0x00]));
    assert!(data_ready(&[0x80, 0x06, 0x00]));
}

fn word(w: u16) -> [u8; 3] {
    let b = [(w >> 8) as u8, w as u8];
    [b[0], b[1], crc_of(&b)]
}

fn measurement_bytes(co2: u16, t: u16, h: u16) -> Vec<u8> {
    [word(co2), word(t), word(h)].concat()
}

#[test]
fn measurement_words() {
    let raw = measurement_bytes(0x01f4, 0x6667, 0x5eb9);
    assert!(measurement_valid(&raw));
    assert_eq!(decode_measurement(&raw), (500, 0x6667, 0x5eb9));
}

#[test]
fn measurement_crc_error() {
    for k in 0..3 {
        let mut raw = measurement_bytes(0x01f4, 0x6667, 0x5eb9);
        raw[3 * k + 2] ^= 0x40;
        assert!(!measurement_valid(&raw));
        let mut raw = measurement_bytes(0x01f4, 0x6667, 0x5eb9);
        raw[3 * k] ^= 0x01;
        assert!(!measurement_valid(&raw));
    }
}

#[test]
fn command_words() {
    assert_eq!(command(0x21b1), vec![0x21, 0xb1]);
    assert_eq!(command(0xec05), vec![0xec, 0x05]);
}

#[test]
fn setup_restarts_periodic_measurement() {
    let (r, log) = drive(setup(), |_| Reply { data: vec![], ok: false });
    assert_eq!(r, Some(Reading::Nothing));
    assert_eq!(
        log,
        vec![
            "Write { addr: 98, bytes: [63, 134] }",
            "Delay { ms: 500 }",
            "Write { addr: 98, bytes: [33, 177] }",
        ]
    );
}

#[test]
fn start_and_stop_commands() {
    let (r, log) = drive(start_periodic_measurement(), |_| Reply { data: vec![], ok: true });
    assert_eq!(r, Some(Reading::Nothing));
    assert_eq!(log, vec!["Write { addr: 98, bytes: [33, 177] }"]);
    let (r, log) = drive(stop_periodic_measurement(), |_| Reply { data: vec![], ok: false });
    assert_eq!(r, None);
    assert_eq!(log, vec!["Write { addr: 98, bytes: [63, 134] }"]);
}

#[test]
fn is_data_ready_procedure() {
    let (r, log) = drive(is_data_ready(), |_| Reply { data: vec![0x80, 0x06, 0x00], ok: true });
    assert_eq!(r, Some(Reading::DataReady(true)));
    assert_eq!(log, vec!["WriteRead { addr: 98, bytes: [228, 184], len: 3 }"]);
    let (r, _) = drive(is_data_ready(), |_| Reply { data: vec![0x80, 0x00, 0x00], ok: true });
    assert_eq!(r, Some(Reading::DataReady(false)));
}

#[test]
fn read_measurement_procedure() {
    let raw = measurement_bytes(812, 0x6667, 0x5eb9);
    let (r, log) = drive(read_measurement(), |_| Reply { data: raw.clone(), ok: true });
    assert_eq!(r, Some(Reading::Measurement((812, 0x6667, 0x5eb9))));
    assert_eq!(log, vec!["WriteRead { addr: 98, bytes: [236, 5], len: 9 }"]);
    // A failed transfer ends the procedure without a CRC check.
    let (r, log) = drive(read_measurement(), |_| Reply { data: vec![0; 9], ok: false });
    assert_eq!(r, None);
    assert_eq!(log.len(), 1);
    // A corrupt word is refused.
    let mut bad = raw.clone();
    bad[4] ^= 0x10;
    let (r, log) = drive(read_measurement(), |_| Reply { data: bad.clone(), ok: true });
    assert_eq!(r, None);
    assert_eq!(log[1], "refused: CrcMismatch");
}

#[test]
fn wait_data_ready_polls() {
    let mut polls = 0;
    let (r, log) = drive(wait_data_ready(), |req| match req {
        Request::WriteRead { .. } => {
            polls += 1;
            // 0x8000: not ready (bit 15 is outside the low 11 bits); then ready.
            Reply { data: if polls < 3 { vec![0x80, 0x00, 0xa2] } else { vec![0x80, 0x06, 0x00] }, ok: true }
        }
        _ => Reply { data: vec![], ok: true },
    });
    assert_eq!(r, Some(Reading::Nothing));
    assert_eq!(
        log,
        vec![
            "WriteRead { addr: 98, bytes: [228, 184], len: 3 }",
            "Delay { ms: 1 }",
            "WriteRead { addr: 98, bytes: [228, 184], len: 3 }",
            "Delay { ms: 1 }",
            "WriteRead { addr: 98, bytes: [228, 184], len: 3 }",
        ]
    );
    let (r, log) = drive(wait_data_ready(), |_| Reply { data: vec![0; 3], ok: false });
    assert_eq!(r, None);
    assert_eq!(log[1], "refused: BusError");
}

#[test]
fn crc_detects_odd_and_burst_errors() {
    let good = [0x66u8, 0x67, crc_of(&[0x66, 0x67])];
    assert!(check_crc(&good));
    // Every burst of at most 8 bits within the 24 bits of the word.
    for start in 0..24 {
        for pattern in 1u32..256 {
            if start + 8 > 24 && (pattern >> (24 - start)) != 0 {
                continue;
            }
            let e = (pattern << start) & 0xff_ffff;
            let bad = [good[0] ^ (e >> 16) as u8, good[1] ^ (e >> 8) as u8, good[2] ^ e as u8];
            assert!(!check_crc(&bad), "burst {e:06x}");
        }
    }
    // Three flipped bits far apart.
    let bad = [good[0] ^ 0x80, good[1] ^ 0x01, good[2] ^ 0x10];
    assert!(!check_crc(&bad));
}
