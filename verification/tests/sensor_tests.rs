use dome_drivers::dht20::{calibration_steps, Dht20Step};
use dome_drivers::dht11::{Dht11, Dht11Reader, Error, Next};
use dome_drivers::dht20::{Dht20, Error as Dht20Error};

fn ideal_levels(bytes: [u8; 5]) -> Vec<bool> {
    let mut v = vec![false, true];
    for b in bytes {
        for i in (0..8).rev() {
            v.push(false);
            v.push(true);
            v.push(b & (1 << i) != 0);
        }
    }
    v
}

fn run(levels: &[bool]) -> Option<(Result<(u8, u8), Error>, usize)> {
    let mut r = Dht11Reader::new();
    for (i, &l) in levels.iter().enumerate() {
        match r.feed(l) {
            Next::Finish { result, .. } => return Some((result, i + 1)),
            Next::Sample { .. } => {}
        }
    }
    None
}

#[test]
fn dht11_decodes_an_ideal_answer() {
    let levels = ideal_levels([55, 0, 24, 0, 79]);
    assert_eq!(run(&levels), Some((Ok((55, 24)), levels.len())));
    assert_eq!(run(&levels[..levels.len() - 1]), None);
}

#[test]
fn dht11_reports_checksum_mismatch() {
    let levels = ideal_levels([55, 0, 24, 0, 80]);
    assert_eq!(run(&levels), Some((Err(Error::Checksum { calc: 79, recv: 80 }), levels.len())));
}

#[test]
fn dht11_checksum_wraps() {
    assert_eq!(Dht11::check_frame(&[200, 100, 0, 0, 44]), Ok((200, 0)));
    assert_eq!(Dht11::check_frame(&[200, 100, 0, 0, 45]), Err(Error::Checksum { calc: 44, recv: 45 }));
}

#[test]
fn dht11_rejects_readings_out_of_range() {
    let levels = ideal_levels([200, 0, 100, 0, 44]);
    assert_eq!(
        run(&levels),
        Some((Err(Error::OutOfRange { humidity: 200, temperature: 100 }), levels.len()))
    );
    assert_eq!(Dht11::check_reading(&[99, 0, 50, 0, 149]), Ok((99, 50)));
    assert_eq!(Dht11::check_reading(&[100, 0, 50, 0, 150]), Err(Error::OutOfRange { humidity: 100, temperature: 50 }));
    assert_eq!(Dht11::check_reading(&[99, 0, 51, 0, 150]), Err(Error::OutOfRange { humidity: 99, temperature: 51 }));
    assert_eq!(Dht11::check_reading(&[55, 0, 24, 0, 80]), Err(Error::Checksum { calc: 79, recv: 80 }));
}

#[test]
fn dht11_no_response_after_timeout() {
    let high = vec![true; 200];
    assert_eq!(run(&high[..99]), None);
    assert_eq!(run(&high), Some((Err(Error::NoResponse), 100)));
}

#[test]
fn dht11_no_response_in_second_half() {
    let mut levels = vec![false];
    levels.extend(vec![false; 100]);
    assert_eq!(run(&levels), Some((Err(Error::NoResponse), 101)));
}

#[test]
fn dht11_read_timeout_inside_a_bit() {
    let mut levels = vec![false, true];
    levels.extend(vec![true; 70]);
    assert_eq!(run(&levels), Some((Err(Error::ReadTimeout), 72)));
}

#[test]
fn dht11_delays_follow_the_protocol() {
    let mut r = Dht11Reader::new();
    assert_eq!(r.feed(true), Next::Sample { delay_us: 1 });
    assert_eq!(r.feed(false), Next::Sample { delay_us: 0 });
    assert_eq!(r.feed(true), Next::Sample { delay_us: 0 });
    assert_eq!(r.feed(false), Next::Sample { delay_us: 0 });
    assert_eq!(r.feed(true), Next::Sample { delay_us: 40 });
    assert_eq!(r.feed(true), Next::Sample { delay_us: 0 });
    assert!(!r.is_done());
}

fn crc_frame(mut b: [u8; 7]) -> [u8; 7] {
    b[6] = Dht20::<()>::crc8(&b[..6]);
    b
}

#[test]
fn dht20_crc8_check_value() {
    assert_eq!(Dht20::<()>::crc8(b"123456789"), 0xF7);
    assert_eq!(Dht20::<()>::crc8(&[]), 0xFF);
    assert_eq!(Dht20::<()>::crc8(&[0x00]), 0xAC);
}

#[test]
fn dht20_crc8_of_message_with_its_crc_is_zero() {
    let mut msg = b"DHT20".to_vec();
    let c = Dht20::<()>::crc8(&msg);
    msg.push(c);
    assert_eq!(Dht20::<()>::crc8(&msg), 0);
}

#[test]
fn dht20_converts_a_measurement() {
    let buf = crc_frame([0x1C, 0x80, 0x00, 0x05, 0x66, 0x66, 0]);
    assert_eq!(Dht20::<()>::parse_measurement(&buf), Ok((500, 174)));
}

#[test]
fn dht20_clamps_negative_temperature() {
    let buf = crc_frame([0x1C, 0x00, 0x00, 0x00, 0x00, 0x00, 0]);
    assert_eq!(Dht20::<()>::parse_measurement(&buf), Ok((0, 0)));
}

#[test]
fn dht20_full_scale() {
    let buf = crc_frame([0x1C, 0xFF, 0xFF, 0xFF, 0xFF, 0xFF, 0]);
    assert_eq!(Dht20::<()>::parse_measurement(&buf), Ok((999, 1499)));
}

#[test]
fn dht20_busy_and_crc_errors() {
    let busy = crc_frame([0x9C, 0x80, 0x00, 0x05, 0x66, 0x66, 0]);
    assert_eq!(Dht20::<()>::parse_measurement(&busy), Err(Dht20Error::NotReady));
    let mut bad = crc_frame([0x1C, 0x80, 0x00, 0x05, 0x66, 0x66, 0]);
    bad[6] ^= 1;
    assert_eq!(Dht20::<()>::parse_measurement(&bad), Err(Dht20Error::Crc));
}

#[test]
fn dht20_calibration_flag() {
    assert!(!Dht20::<()>::needs_calibration(0x18));
    assert!(Dht20::<()>::needs_calibration(0x98));
}

#[test]
fn dht20_keeps_its_bus() {
    let mut d = Dht20::new(7u32);
    *d.i2c_mut() += 1;
    assert_eq!(*d.i2c_mut(), 8);
}

#[test]
fn dht20_crc8_catches_every_single_bit_flip() {
    let msg = *b"123456789";
    let crc = Dht20::<()>::crc8(&msg);
    for i in 0..msg.len() {
        for k in 0..8 {
            let mut m = msg;
            m[i] ^= 1 << k;
            assert_ne!(Dht20::<()>::crc8(&m), crc);
        }
    }
}

#[test]
fn dht20_calibration_steps_follow_the_status() {
    assert_eq!(calibration_steps(0x18), vec![]);
    let c = Dht20Step::Calibrate;
    let w = Dht20Step::Wait(10);
    assert_eq!(calibration_steps(0x80), vec![c, w, c, w, c, w]);
}
