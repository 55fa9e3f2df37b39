use ecp::Command;
use ecp::Error;
use ecp::LedMsg;
use rand::rngs::StdRng;
use rand::seq::SliceRandom;
use rand::RngExt;
use rand::SeedableRng;

fn rng() -> StdRng {
    let mut seed = [0; 32];
    for (i, v) in seed.iter_mut().enumerate() {
        *v = i as u8;
    }
    StdRng::from_seed(seed)
}

fn generate_test_msgs() -> Vec<LedMsg> {
    let mut test_vals = vec![
        LedMsg {
            cmd: Command::Null,
            time: 0,
            color: 0,
            element: 0,
        };
        255
    ];
    let mut rng = rng();

    for (i, cmd) in [
        Command::Null,
        Command::Flat(0),
        Command::FlatStack(0),
        Command::PulseLinear(0),
        Command::PulseQuadratic(0),
    ]
    .iter()
    .enumerate()
    {
        for msg in test_vals[i * 51..(i + 1) * 51].iter_mut() {
            let cmd = match cmd {
                Command::Null => Command::Null,
                Command::Flat(_) => Command::Flat(rng.random()),
                Command::FlatStack(_) => Command::FlatStack(rng.random()),
                Command::PulseLinear(_) => Command::PulseLinear(rng.random()),
                Command::PulseQuadratic(_) => Command::PulseQuadratic(rng.random()),
            };
            msg.cmd = cmd;
        }
    }
    test_vals.shuffle(&mut rng);
    for msg in test_vals.iter_mut() {
        let b: u8 = rng.random();
        msg.time = match b & 0x03 {
            0x00 => 0,
            0x01 => rng.random::<i8>() as u64,
            0x02 => rng.random::<i16>() as u64,
            0x03 => rng.random::<i32>() as u64,
            _ => unreachable!(),
        };
        msg.element = rng.random();
        msg.color = rng.random();
    }
    test_vals
}

#[test]
fn serial_deserialize() {
    let test_vals = generate_test_msgs();
    let mut i = 0;
    // serialize
    while i < test_vals.len() {
        let mut buf = vec![0u8; LedMsg::MAX_LEN + 4];
        let (msgs, bytes) = LedMsg::serialize(&test_vals[i..], &mut buf, 0);
        println!("bytes: {}, msgs: {}", bytes, msgs);
        println!("{:X?}", &buf[..bytes]);
        println!("{:#?}", &test_vals[i..i + msgs]);
        let cpy = LedMsg::deserialize(&buf[..bytes], 0).unwrap();
        assert_eq!(&test_vals[i..i + msgs], &cpy[..]);
        i += msgs;
    }
}

#[test]
fn empty_buffer_is_empty_batch() {
    let out = LedMsg::deserialize(&[], 12345).unwrap();
    assert!(out.is_empty());
}

#[test]
fn short_buffer_is_bad_input() {
    for n in 1..4 {
        let buf = vec![0u8; n];
        let err = LedMsg::deserialize(&buf, 0).unwrap_err();
        assert!(matches!(err, Error::BadInput(_)));
    }
}

#[test]
fn unknown_command_tag_is_bad_input() {
    // base time, then one record whose header carries tag 5.
    let buf = [0u8, 0, 0, 0, 5 << 2, 1, 2];
    let err = LedMsg::deserialize(&buf, 0).unwrap_err();
    assert!(matches!(err, Error::BadInput(_)));
}

#[test]
fn truncated_record_is_bad_input() {
    // only two bytes after the base time
    let buf = [0u8, 0, 0, 0, 0x50, 1];
    assert!(matches!(
        LedMsg::deserialize(&buf, 0).unwrap_err(),
        Error::BadInput(_)
    ));
    // a 32-bit delta announced, two delta bytes present
    let buf = [0u8, 0, 0, 0, 3 * 64 + 4 * 4, 1, 2, 9, 9];
    assert!(matches!(
        LedMsg::deserialize(&buf, 0).unwrap_err(),
        Error::BadInput(_)
    ));
}

#[test]
fn exact_wire_bytes_positive_delta() {
    let base: u64 = 1000;
    let msgs = [LedMsg {
        time: 1005,
        element: 7,
        color: 2,
        cmd: Command::FlatStack(9),
    }];
    let mut buf = vec![0u8; 12];
    let (n, used) = LedMsg::serialize(&msgs, &mut buf, base);
    assert_eq!(n, 1);
    assert_eq!(used, 9);
    // base 1000 = 0x3E8 little-endian, then header (width 1, tag 4),
    // element, color, delta 5, payload 9
    assert_eq!(&buf[..used], &[0xE8, 0x03, 0, 0, 0x50, 7, 2, 5, 9]);
    let back = LedMsg::deserialize(&buf[..used], base).unwrap();
    assert_eq!(&back[..], &msgs[..]);
}

#[test]
fn exact_wire_bytes_negative_delta() {
    let base: u64 = 1000;
    let msgs = [LedMsg {
        time: 995,
        element: 3,
        color: 1,
        cmd: Command::Null,
    }];
    let mut buf = vec![0u8; 12];
    let (n, used) = LedMsg::serialize(&msgs, &mut buf, base);
    assert_eq!(n, 1);
    assert_eq!(used, 8);
    // delta -5 as one signed byte is 251; Null carries no payload
    assert_eq!(&buf[4..used], &[0x40, 3, 1, 251]);
    let back = LedMsg::deserialize(&buf[..used], base).unwrap();
    assert_eq!(back[0].time, 995);
    assert_eq!(back[0].cmd, Command::Null);
}

#[test]
fn delta_width_selection() {
    let base: u64 = 1 << 40;
    let cases = [
        (base, 8usize),           // no delta bytes
        (base + 100, 9),          // 8-bit delta
        (base - 100, 9),          // 8-bit negative delta
        (base + 300, 10),         // 16-bit delta
        (base - 30_000, 10),      // 16-bit negative delta
        (base + 100_000, 12),     // 32-bit delta
        (base - 2_000_000_000, 12),
    ];
    for (t, expect_len) in cases {
        let msgs = [LedMsg {
            time: t,
            element: 0,
            color: 0,
            cmd: Command::Flat(1),
        }];
        let mut buf = vec![0u8; 16];
        let (n, used) = LedMsg::serialize(&msgs, &mut buf, base);
        assert_eq!(n, 1);
        assert_eq!(used, expect_len, "time {}", t);
        let back = LedMsg::deserialize(&buf[..used], base).unwrap();
        assert_eq!(&back[..], &msgs[..]);
    }
}

#[test]
fn unrepresentable_delta_is_skipped() {
    let msgs = [
        LedMsg { time: 5, element: 1, color: 1, cmd: Command::Flat(1) },
        LedMsg { time: 1 << 32, element: 2, color: 2, cmd: Command::Flat(2) },
        LedMsg { time: 7, element: 3, color: 3, cmd: Command::Flat(3) },
    ];
    let mut buf = vec![0u8; 64];
    let (n, used) = LedMsg::serialize(&msgs, &mut buf, 0);
    assert_eq!(n, 3);
    let back = LedMsg::deserialize(&buf[..used], 0).unwrap();
    assert_eq!(&back[..], &[msgs[0], msgs[2]]);
}

#[test]
fn mtu_splitting_loses_nothing() {
    let test_vals = generate_test_msgs();
    let mut collected: Vec<LedMsg> = Vec::new();
    let mut i = 0;
    // every record fits in 12 bytes, so each round must make progress
    while i < test_vals.len() {
        let mut buf = vec![0u8; 12];
        let (msgs, bytes) = LedMsg::serialize(&test_vals[i..], &mut buf, 0);
        assert!(msgs >= 1);
        collected.extend(LedMsg::deserialize(&buf[..bytes], 0).unwrap());
        i += msgs;
    }
    assert_eq!(collected, test_vals);
}

#[test]
fn serialize_packets_round_trip() {
    let test_vals = generate_test_msgs();
    let base: u64 = 42;
    let pkts = ecp::codec::serialize_packets(&test_vals, 20, base);
    let mut collected: Vec<LedMsg> = Vec::new();
    for p in &pkts {
        assert!(p.len() <= 20);
        collected.extend(LedMsg::deserialize(p, base).unwrap());
    }
    assert_eq!(collected, test_vals);
}

#[test]
fn epoch_resolution_keeps_near_candidate() {
    // hint sits just past a 32-bit wrap; the transmitted low bits are
    // small, so the current epoch's candidate is the closer one.
    let hint: u64 = (1 << 32) + 5;
    let buf = [10u8, 0, 0, 0, 0, 9, 1]; // base low = 10, one Null record
    let back = LedMsg::deserialize(&buf, hint).unwrap();
    assert_eq!(back[0].time, (1 << 32) + 10);
}

#[test]
fn epoch_resolution_crosses_wraparound() {
    // hint is just below a 32-bit wrap, the transmitted low bits just
    // above it: the adjacent, later epoch is the closer one.
    let hint: u64 = 0xFFFF_FF00;
    let buf = [5u8, 0, 0, 0, 0, 9, 1]; // base low = 5
    let back = LedMsg::deserialize(&buf, hint).unwrap();
    assert_eq!(back[0].time, (1u64 << 32) + 5);
}

#[test]
fn serialize_reports_bytes_written() {
    // a batch with no records still carries its base time
    let mut buf = vec![0u8; 12];
    let (n, used) = LedMsg::serialize(&[], &mut buf, 0xAABBCCDD);
    assert_eq!(n, 0);
    assert_eq!(used, 4);
    assert_eq!(&buf[..4], &[0xDD, 0xCC, 0xBB, 0xAA]);
}
