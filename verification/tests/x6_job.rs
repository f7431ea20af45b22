use printa_ble::bitmap::Bitmap;
use printa_ble::job::{
    density_to_energy, density_to_speed, Action, JobStats, X6Notification, X6PrintJob,
};
use printa_ble::packets::{apply_energy, feed_paper, raw_scanline, set_energy, set_speed};

fn drain_sends(job: &mut X6PrintJob) -> Vec<Vec<u8>> {
    let mut sent = vec![];
    loop {
        match job.next_action() {
            Action::Send(b) => sent.push(b),
            Action::WaitMs(_) => continue,
            _ => break,
        }
    }
    sent
}

/// Endpoints and the default density are kitty-printer's strength presets: low 12000, medium 24000
/// (its DEF_ENERGY), high 48000.
#[test]
fn density_to_energy_maps_and_clamps() {
    assert_eq!(density_to_energy(1), 12000);
    assert_eq!(density_to_energy(3), 24000);
    assert_eq!(density_to_energy(7), 48000);
    assert_eq!(density_to_energy(0), 12000); // clamped up
    assert_eq!(density_to_energy(9), 48000); // clamped down
}

/// Density 1, 3 and 7 land on kitty-printer's speed presets: quick 8, fast 16, normal 32 (its
/// DEF_SPEED). The divisor never exceeds 32, the largest reference-validated value.
#[test]
fn density_to_speed_maps_and_clamps() {
    assert_eq!(density_to_speed(1), 8);
    assert_eq!(density_to_speed(3), 16);
    assert_eq!(density_to_speed(7), 32);
    assert_eq!(density_to_speed(0), 8); // clamped up
    assert_eq!(density_to_speed(9), 32); // clamped down
}

#[test]
fn happy_path_streams_setup_blank_lead_then_rows_then_feed() {
    let mut bitmap = Bitmap::new(2);
    bitmap.set(0, 0, true); // MSB-first 0x80 -> wire 0x01
    let mut job = X6PrintJob::new(&bitmap, 3, 64, 0);

    let sent = drain_sends(&mut job);
    // set speed, set energy, apply energy, blank artifact-guard line, 2 bitmap rows, feed
    assert_eq!(sent.len(), 7);
    assert_eq!(&sent[0][..3], &[0x51, 0x78, 0xBD]); // speed first, kitty's order
    assert_eq!(sent[0][6], 16); // divisor 16, density 3
    assert_eq!(&sent[1][..3], &[0x51, 0x78, 0xAF]);
    assert_eq!(&sent[1][6..8], &[0xC0, 0x5D]); // 24000 LE, density 3
    assert_eq!(&sent[2][..3], &[0x51, 0x78, 0xBE]);
    assert_eq!(&sent[3][..3], &[0x51, 0x78, 0xA2]);
    assert!(sent[3][6..54].iter().all(|&b| b == 0)); // lead row is blank
    assert_eq!(sent[4][6], 0x01); // bit-reversed pixel
    assert_eq!(&sent[6][..3], &[0x51, 0x78, 0xA1]); // trailing feed
    assert_eq!(&sent[6][6..8], &[64, 0]); // 64 px LE
    assert!(matches!(job.next_action(), Action::Done));
}

#[test]
fn buffer_full_pauses_until_ready() {
    let bitmap = Bitmap::new(4);
    let mut job = X6PrintJob::new(&bitmap, 3, 0, 0);
    let _ = job.next_action(); // set speed
    let _ = job.next_action(); // set energy
    let _ = job.next_action(); // apply energy
    let _ = job.next_action(); // lead row
    let _ = job.next_action(); // row 0

    job.on_notification(X6Notification::BufferFull);
    assert!(matches!(job.next_action(), Action::WaitNotification));
    assert!(matches!(job.next_action(), Action::WaitNotification));

    job.on_notification(X6Notification::Ready);
    match job.next_action() {
        Action::Send(p) => assert_eq!(p[2], 0xA2),
        other => panic!("expected resumed scanline, got {other:?}"),
    }
    assert_eq!(job.stats().holds, 1);
}

#[test]
fn ready_without_pause_is_ignored() {
    let bitmap = Bitmap::new(2);
    let mut job = X6PrintJob::new(&bitmap, 3, 0, 0);
    job.on_notification(X6Notification::Ready);
    assert_eq!(job.stats(), JobStats::default());
    // still runs from the start
    let _ = job.next_action(); // set speed
    let _ = job.next_action(); // set energy
    let _ = job.next_action(); // apply energy
    match job.next_action() {
        Action::Send(p) => assert_eq!(p[2], 0xA2),
        other => panic!("expected scanline, got {other:?}"),
    }
}

#[test]
fn inter_packet_delay_between_scanlines_only() {
    let bitmap = Bitmap::new(2);
    let mut job = X6PrintJob::new(&bitmap, 3, 64, 15);
    // no delay after the setup frames
    assert!(matches!(job.next_action(), Action::Send(_))); // set speed
    assert!(matches!(job.next_action(), Action::Send(_))); // set energy
    assert!(matches!(job.next_action(), Action::Send(_))); // apply energy
    assert!(matches!(job.next_action(), Action::Send(_))); // lead
    assert!(matches!(job.next_action(), Action::WaitMs(15)));
    assert!(matches!(job.next_action(), Action::Send(_))); // row 0
    assert!(matches!(job.next_action(), Action::WaitMs(15)));
    assert!(matches!(job.next_action(), Action::Send(_))); // row 1

    // no delay between last scanline and the feed command
    match job.next_action() {
        Action::Send(p) => assert_eq!(p[2], 0xA1),
        other => panic!("expected feed, got {other:?}"),
    }
}

#[test]
fn settle_wait_before_done() {
    let bitmap = Bitmap::new(1);
    let mut job = X6PrintJob::new(&bitmap, 3, 64, 0);
    let _ = job.next_action(); // set speed
    let _ = job.next_action(); // set energy
    let _ = job.next_action(); // apply energy
    let _ = job.next_action(); // lead row
    let _ = job.next_action(); // row 0
    let _ = job.next_action(); // feed
    assert!(matches!(job.next_action(), Action::WaitMs(5_000)));
    assert!(matches!(job.next_action(), Action::Done));
}

#[test]
fn zero_feed_skips_feed_command() {
    let bitmap = Bitmap::new(1);
    let mut job = X6PrintJob::new(&bitmap, 3, 0, 0);
    let sent = drain_sends(&mut job);
    assert_eq!(sent.len(), 5); // speed, energy, apply, lead + row, no 0xA1
    assert!(sent.iter().all(|p| p[2] != 0xA1));
    assert!(sent[3..].iter().all(|p| p[2] == 0xA2));
}

#[test]
fn stats_count_scanlines_not_setup_or_feed() {
    let bitmap = Bitmap::new(3);
    let mut job = X6PrintJob::new(&bitmap, 3, 64, 0);
    drain_sends(&mut job);
    assert_eq!(job.stats().packets_sent, 4); // lead + 3 rows only
    assert_eq!(job.stats().retransmits, 0);
    assert_eq!(job.stats().cooldowns, 0);
}

/// Pausing after every scanline sends the same frames as not pausing at all.
#[test]
fn pauses_neither_drop_nor_repeat_a_frame() {
    let mut bitmap = Bitmap::new(5);
    for y in 0..5 {
        bitmap.set(7 * y, y, true);
    }
    let straight = drain_sends(&mut X6PrintJob::new(&bitmap, 5, 30, 0));
    let mut job = X6PrintJob::new(&bitmap, 5, 30, 20);
    let mut sent = vec![];
    loop {
        match job.next_action() {
            Action::Send(frame) => {
                sent.push(frame);
                job.on_notification(X6Notification::BufferFull);
                job.on_notification(X6Notification::Unknown);
            }
            Action::WaitNotification => job.on_notification(X6Notification::Ready),
            Action::WaitMs(_) => {}
            Action::Done => break,
        }
    }
    assert_eq!(sent, straight);
    // Neither the feed nor the speed and energy frames can be paused: only the six scanlines and
    // the last setup frame, after which the stream begins.
    assert_eq!(job.stats().holds, 7);
    assert!(matches!(job.next_action(), Action::Done));
    job.on_notification(X6Notification::BufferFull);
    assert!(matches!(job.next_action(), Action::Done));
}

/// A pause drops a pending delay; the stream goes on with the next scanline at once.
#[test]
fn a_pause_drops_the_pending_delay() {
    let mut job = X6PrintJob::new(&Bitmap::new(3), 3, 0, 15);
    for _ in 0..4 {
        let _ = job.next_action();
    }
    job.on_notification(X6Notification::BufferFull);
    job.on_notification(X6Notification::Ready);
    match job.next_action() {
        Action::Send(p) => assert_eq!(p[2], 0xA2),
        other => panic!("expected a scanline, got {other:?}"),
    }
}

#[test]
fn frames_carry_length_checksum_and_trailer() {
    // CRC-8 with polynomial 0x07: of [1] it is 7, of [0x10] 0x70, of nothing 0.
    assert_eq!(apply_energy(), vec![0x51, 0x78, 0xBE, 0, 1, 0, 1, 7, 0xFF]);
    assert_eq!(set_speed(16), vec![0x51, 0x78, 0xBD, 0, 1, 0, 16, 0x70, 0xFF]);
    assert_eq!(
        set_energy(24000),
        vec![0x51, 0x78, 0xAF, 0, 2, 0, 0xC0, 0x5D, 0x79, 0xFF]
    );
    assert_eq!(feed_paper(64)[..8], [0x51, 0x78, 0xA1, 0, 2, 0, 64, 0]);
    let mut row = [0u8; 48];
    row[0] = 0b1100_0001;
    row[47] = 0b0000_0001;
    let frame = raw_scanline(&row);
    assert_eq!(frame.len(), 56);
    assert_eq!(frame[4..7], [48, 0, 0b1000_0011]);
    assert_eq!(frame[53], 0b1000_0000);
    assert_eq!(frame[55], 0xFF);
}

/// An undisturbed run: three setup frames, the scanlines with a pause between each two, the feed
/// where there is one, the settling time, and nothing more.
#[test]
fn undisturbed_jobs_follow_the_plan() {
    for (height, feed, delay) in [(0, 0, 0), (0, 64, 9), (3, 0, 0), (3, 64, 0), (3, 0, 9), (3, 64, 9)] {
        let mut bitmap = Bitmap::new(height);
        for y in 0..height {
            bitmap.set(3 * y, y, true);
        }
        let mut plan = vec![
            format!("{:?}", set_speed(16)),
            format!("{:?}", set_energy(24000)),
            format!("{:?}", apply_energy()),
            format!("{:?}", raw_scanline(&[0; 48])),
        ];
        for y in 0..height {
            if delay > 0 {
                plan.push(format!("wait {delay}"));
            }
            plan.push(format!("{:?}", raw_scanline(bitmap.row(y))));
        }
        if feed > 0 {
            plan.push(format!("{:?}", feed_paper(feed)));
        }
        plan.push("wait 5000".to_string());
        let mut job = X6PrintJob::new(&bitmap, 3, feed, delay);
        let mut run = vec![];
        loop {
            run.push(match job.next_action() {
                Action::Send(frame) => format!("{frame:?}"),
                Action::WaitMs(ms) => format!("wait {ms}"),
                Action::WaitNotification => panic!("nothing paused the job"),
                Action::Done => break,
            });
        }
        assert_eq!(run, plan);
        let calls = 5
            + height
            + if delay > 0 { height } else { 0 }
            + usize::from(feed > 0);
        assert_eq!(run.len(), calls);
    }
}

/// The counters follow a run: a hold for each pause, a packet for each scanline.
#[test]
fn counters_follow_the_run() {
    let mut job = X6PrintJob::new(&Bitmap::new(4), 3, 64, 7);
    let (mut scanlines, mut pauses) = (0, 0);
    for call in 0..40 {
        match job.next_action() {
            Action::Send(frame) => {
                scanlines += u32::from(frame[2] == 0xA2);
                if call % 3 == 0 && frame[2] == 0xA2 {
                    job.on_notification(X6Notification::BufferFull);
                    job.on_notification(X6Notification::BufferFull);
                    pauses += 1;
                }
            }
            Action::WaitNotification => {
                job.on_notification(X6Notification::Unknown);
                job.on_notification(X6Notification::Ready);
            }
            Action::WaitMs(_) | Action::Done => {}
        }
        assert_eq!(
            job.stats(),
            JobStats { packets_sent: scanlines, retransmits: 0, holds: pauses, cooldowns: 0 }
        );
    }
    assert!(matches!(job.next_action(), Action::Done));
    assert!(pauses > 0);
    assert_eq!(job.stats().packets_sent, 5);
}
