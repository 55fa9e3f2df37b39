use ecp::color::Color;
use ecp::controller::pace_delay;
use ecp::controller::MemController;
use ecp::Command;
use ecp::Controller;
use ecp::Error;
use ecp::LedMsg;
use ecp::Receiver;
use ecp::Renderer;

/// A receiver with a fixed clock and a scripted run of batches.
struct ScriptedReceiver {
    now: u64,
    batches: Vec<Vec<LedMsg>>,
    broken: bool,
}

impl Receiver for ScriptedReceiver {
    fn cur_time(&self) -> u64 {
        self.now
    }

    fn recv_to(&mut self, _timeout_micros: u64) -> Result<Vec<LedMsg>, Error> {
        if self.broken {
            Err(Error::Unrecoverable("scripted failure".to_string()))
        } else if self.batches.is_empty() {
            Err(Error::Timeout("no batch scripted".to_string()))
        } else {
            Ok(self.batches.remove(0))
        }
    }

    fn recv(&mut self) -> Result<Vec<LedMsg>, Error> {
        if self.broken || self.batches.is_empty() {
            Err(Error::Unrecoverable("scripted failure".to_string()))
        } else {
            Ok(self.batches.remove(0))
        }
    }
}

fn black() -> Color {
    Color { red: 0, green: 0, blue: 0, alpha: 0 }
}

#[test]
fn end_to_end_composition() {
    // batch base time t0; two records for element 5: the second is
    // newer and owns the element; FlatStack(4) maps to 5 of 256 LEDs.
    let t0: u64 = 1_000_000;
    let batch = vec![
        LedMsg { time: t0, element: 5, color: 2, cmd: Command::FlatStack(9) },
        LedMsg { time: t0 + 100, element: 5, color: 3, cmd: Command::FlatStack(4) },
    ];
    let recv = ScriptedReceiver { now: t0 + 200, batches: vec![batch], broken: false };
    let mut r = Renderer::new(recv, MemController::new(256));
    r.update_leds().unwrap();

    let yellow_norm = Color { red: 128, green: 128, blue: 0, alpha: 0 };
    let leds = r.leds();
    for i in 0..5 {
        assert_eq!(leds[i], yellow_norm, "led {}", i);
    }
    for i in 5..256 {
        assert_eq!(leds[i], black(), "led {}", i);
    }
    // the older record never contributed and is garbage-collected
    let pending = r.pending_records();
    assert_eq!(pending.len(), 1);
    assert_eq!(pending[0].time, t0 + 100);
    assert_eq!(pending[0].color, 3);
}

#[test]
fn expiry_boundary() {
    // age exactly at the window is out, one microsecond younger is in
    let now: u64 = 10_000_000;
    let batch = vec![
        LedMsg { time: now - 5_000_000, element: 1, color: 1, cmd: Command::FlatStack(255) },
        LedMsg { time: now - 4_999_999, element: 2, color: 4, cmd: Command::FlatStack(255) },
    ];
    let recv = ScriptedReceiver { now, batches: vec![batch], broken: false };
    let mut r = Renderer::new(recv, MemController::new(4));
    r.update_leds().unwrap();

    let green = Color { red: 0, green: 255, blue: 0, alpha: 0 };
    for i in 0..4 {
        assert_eq!(r.leds()[i], green, "led {}", i);
    }
    let pending = r.pending_records();
    assert_eq!(pending.len(), 1);
    assert_eq!(pending[0].element, 2);
}

#[test]
fn ownership_newer_time_wins() {
    // the newer record sits earlier in the buffer; ownership goes by
    // time, not by arrival order
    let now: u64 = 1_000_000;
    let batch = vec![
        LedMsg { time: now - 100, element: 9, color: 5, cmd: Command::FlatStack(255) },
        LedMsg { time: now - 300, element: 9, color: 1, cmd: Command::FlatStack(255) },
    ];
    let recv = ScriptedReceiver { now, batches: vec![batch], broken: false };
    let mut r = Renderer::new(recv, MemController::new(4));
    r.update_leds().unwrap();

    let blue = Color { red: 0, green: 0, blue: 255, alpha: 0 };
    for i in 0..4 {
        assert_eq!(r.leds()[i], blue, "led {}", i);
    }
    let pending = r.pending_records();
    assert_eq!(pending.len(), 1);
    assert_eq!(pending[0].time, now - 100);
}

#[test]
fn unimplemented_command_is_fatal() {
    let now: u64 = 1_000_000;
    let batch = vec![LedMsg { time: now, element: 0, color: 1, cmd: Command::Flat(3) }];
    let recv = ScriptedReceiver { now, batches: vec![batch], broken: false };
    let mut r = Renderer::new(recv, MemController::new(4));
    let err = r.update_leds().unwrap_err();
    assert!(matches!(err, Error::Misc(_)));
}

#[test]
fn receiver_error_propagates() {
    let recv = ScriptedReceiver { now: 0, batches: vec![], broken: true };
    let mut r = Renderer::new(recv, MemController::new(4));
    let err = r.update_leds().unwrap_err();
    assert!(matches!(err, Error::Unrecoverable(_)));
}

#[test]
fn blend_converges_over_ticks() {
    let now: u64 = 1_000_000;
    let batch = vec![LedMsg { time: now, element: 0, color: 1, cmd: Command::FlatStack(255) }];
    let recv = ScriptedReceiver { now, batches: vec![batch], broken: false };
    let mut r = Renderer::new(recv, MemController::new(8));
    r.set_blend(1);
    assert_eq!(r.blend(), 1);

    // the frame starts at (1,1,1,0); the target is pure red
    r.update_leds().unwrap();
    assert_eq!(r.leds()[0], Color { red: 128, green: 0, blue: 0, alpha: 0 });
    // the record is still active: a second tick halves the distance
    r.update_leds().unwrap();
    assert_eq!(r.leds()[0], Color { red: 191, green: 0, blue: 0, alpha: 0 });
}

#[test]
fn write_through_blend_matches_target() {
    let now: u64 = 1_000_000;
    let batch = vec![LedMsg { time: now, element: 0, color: 5, cmd: Command::FlatStack(127) }];
    let recv = ScriptedReceiver { now, batches: vec![batch], broken: false };
    let mut r = Renderer::new(recv, MemController::new(8));
    r.update_leds().unwrap();
    // FlatStack(127) covers half of the 8-LED strip
    let blue = Color { red: 0, green: 0, blue: 255, alpha: 0 };
    for i in 0..4 {
        assert_eq!(r.leds()[i], blue, "led {}", i);
    }
    for i in 4..8 {
        assert_eq!(r.leds()[i], black(), "led {}", i);
    }
}

#[test]
fn stacked_regions_advance_the_cursor() {
    let now: u64 = 1_000_000;
    let batch = vec![
        LedMsg { time: now, element: 1, color: 1, cmd: Command::FlatStack(127) },
        LedMsg { time: now, element: 2, color: 4, cmd: Command::FlatStack(127) },
    ];
    let recv = ScriptedReceiver { now, batches: vec![batch], broken: false };
    let mut r = Renderer::new(recv, MemController::new(8));
    r.update_leds().unwrap();
    let red = Color { red: 255, green: 0, blue: 0, alpha: 0 };
    let green = Color { red: 0, green: 255, blue: 0, alpha: 0 };
    for i in 0..4 {
        assert_eq!(r.leds()[i], red, "led {}", i);
    }
    for i in 4..8 {
        assert_eq!(r.leds()[i], green, "led {}", i);
    }
}

#[test]
fn expired_records_are_pruned() {
    let now: u64 = 100_000_000;
    let batch = vec![
        LedMsg { time: now - 60_000_000, element: 1, color: 1, cmd: Command::FlatStack(9) },
        LedMsg { time: now - 10, element: 2, color: 4, cmd: Command::FlatStack(9) },
    ];
    let recv = ScriptedReceiver { now, batches: vec![batch], broken: false };
    let mut r = Renderer::new(recv, MemController::new(16));
    r.update_leds().unwrap();
    let pending = r.pending_records();
    assert_eq!(pending.len(), 1);
    assert_eq!(pending[0].element, 2);
}

#[test]
fn mem_controller_keeps_last_frame() {
    let mut c = MemController::new(3);
    assert_eq!(c.led_count(), 3);
    assert_eq!(c.flush_count(), 0);
    let f = vec![Color { red: 9, green: 8, blue: 7, alpha: 6 }; 3];
    c.render(&f);
    assert_eq!(c.frame()[..], f[..]);
    assert_eq!(c.flush_count(), 1);
}

#[test]
fn pace_delay_schedule() {
    assert_eq!(pace_delay(0, 16_666, 3), 49_998);
    assert_eq!(pace_delay(50_000, 16_666, 3), 0);
    assert_eq!(pace_delay(10, 100, 1), 90);
    // a saturated schedule never wraps
    assert_eq!(pace_delay(5, u64::MAX, 2), u64::MAX - 5);
}
