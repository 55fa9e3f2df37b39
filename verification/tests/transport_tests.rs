use ecp::channel;
use ecp::Command;
use ecp::Error;
use ecp::LedMsg;
use ecp::Receiver;
use ecp::Sender;
use rand::rngs::StdRng;
use rand::seq::SliceRandom;
use rand::RngExt;
use rand::SeedableRng;

fn seeded_rng() -> StdRng {
    let mut seed = [0; 32];
    for (i, v) in seed.iter_mut().enumerate() {
        *v = i as u8;
    }
    StdRng::from_seed(seed)
}

fn build_test_msgs() -> Vec<LedMsg> {
    let mut test_vals = vec![
        LedMsg {
            cmd: Command::Null,
            time: 0,
            color: 0,
            element: 0,
        };
        255
    ];
    let mut rng = seeded_rng();

    for (i, cmd) in [
        Command::Null,
        Command::Flat(0),
        Command::FlatStack(0),
        Command::PulseLinear(0),
        Command::PulseQuadratic(0),
    ]
    .iter()
    .enumerate()
    {
        for msg in test_vals[i * 51..(i + 1) * 51].iter_mut() {
            let cmd = match cmd {
                Command::Null => Command::Null,
                Command::Flat(_) => Command::Flat(rng.random()),
                Command::FlatStack(_) => Command::FlatStack(rng.random()),
                Command::PulseLinear(_) => Command::PulseLinear(rng.random()),
                Command::PulseQuadratic(_) => Command::PulseQuadratic(rng.random()),
            };
            msg.cmd = cmd;
        }
    }
    test_vals.shuffle(&mut rng);
    for msg in test_vals.iter_mut() {
        let b: u8 = rng.random();
        msg.time = match b & 0x03 {
            0x00 => 0,
            0x01 => rng.random::<i8>() as u64,
            0x02 => rng.random::<i16>() as u64,
            0x03 => rng.random::<i32>() as u64,
            _ => unreachable!(),
        };
        msg.element = rng.random();
        msg.color = rng.random();
    }
    test_vals
}

fn sample_batch(n: u8) -> Vec<LedMsg> {
    let mut v = Vec::new();
    for i in 0..n {
        v.push(LedMsg {
            time: 1000 + i as u64,
            element: i,
            color: i.wrapping_mul(3),
            cmd: Command::FlatStack(i),
        });
    }
    v
}

#[test]
fn local_send_receive() {
    let test_vals = build_test_msgs();
    let (mut sender, mut recv) = channel(1);
    for i in 0..5 {
        let mut to_send = test_vals[i * 51..(i + 1) * 51].to_vec();
        sender.send(&mut to_send, false).unwrap();
        let cpy = recv.recv().unwrap();
        assert_eq!(&test_vals[i * 51..(i + 1) * 51], &cpy[..]);
    }
}

#[test]
fn blocking_recv_returns_the_batch() {
    let (mut tx, mut rx) = channel(1);
    let mut batch = sample_batch(7);
    let keep = batch.clone();
    tx.send(&mut batch, false).unwrap();
    let got = rx.recv().unwrap();
    assert_eq!(got, keep);
}

#[test]
fn try_recv_before_any_send_times_out() {
    let (_tx, mut rx) = channel(1);
    let err = rx.try_recv().unwrap_err();
    assert!(matches!(err, Error::Timeout(_)));
    let err = rx.recv_to(0).unwrap_err();
    assert!(matches!(err, Error::Timeout(_)));
}

#[test]
fn send_with_offset_shifts_times_in_place() {
    let (mut tx, mut rx) = channel(1);
    let mut batch = sample_batch(3);
    let original = batch.clone();
    tx.send(&mut batch, true).unwrap();
    let got = rx.recv().unwrap();
    // what was sent is what the caller's buffer now holds
    assert_eq!(got, batch);
    for (sent, orig) in got.iter().zip(original.iter()) {
        // the clock only moves forward from the channel's creation
        assert!(sent.time >= orig.time);
        assert_eq!(sent.element, orig.element);
        assert_eq!(sent.color, orig.color);
        assert_eq!(sent.cmd, orig.cmd);
        // every record is shifted by the same clock reading
        assert_eq!(sent.time - orig.time, got[0].time - original[0].time);
    }
}

#[test]
fn send_without_offset_keeps_times() {
    let (mut tx, mut rx) = channel(1);
    let mut batch = sample_batch(3);
    let original = batch.clone();
    tx.send(&mut batch, false).unwrap();
    assert_eq!(batch, original);
    assert_eq!(rx.recv().unwrap(), original);
}

#[test]
fn dropped_receiver_is_unrecoverable() {
    let (mut tx, rx) = channel(1);
    drop(rx);
    let mut batch = sample_batch(2);
    let err = tx.send(&mut batch, false).unwrap_err();
    assert!(matches!(err, Error::Unrecoverable(_)));
}

#[test]
fn dropped_sender_is_unrecoverable() {
    let (tx, mut rx) = channel(1);
    drop(tx);
    assert!(matches!(rx.recv().unwrap_err(), Error::Unrecoverable(_)));
    assert!(matches!(rx.recv_to(0).unwrap_err(), Error::Unrecoverable(_)));
}

#[test]
fn try_iter_drains_then_stops() {
    let (mut tx, mut rx) = channel(2);
    let mut a = sample_batch(2);
    let mut b = sample_batch(3);
    let keep_a = a.clone();
    let keep_b = b.clone();
    tx.send(&mut a, false).unwrap();
    tx.send(&mut b, false).unwrap();
    let mut it = rx.try_iter();
    assert_eq!(it.next(), Some(keep_a));
    assert_eq!(it.next(), Some(keep_b));
    assert_eq!(it.next(), None);
}

#[test]
fn clocks_start_together() {
    let (tx, rx) = channel(1);
    let t1 = tx.get_time();
    let t2 = rx.cur_time();
    // both halves read the same clock; a generous slack absorbs
    // scheduling noise
    assert!(t2 >= t1);
    assert!(t2 - t1 < 1_000_000);
}
