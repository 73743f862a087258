use std::time::Instant;

use hvdevices::legacy::pit::{Pit, PitChannel};

fn channel(reload: u32, access_mode: u8) -> PitChannel {
    PitChannel {
        reload,
        started: Instant::now(),
        access_mode,
        write_lsb: None,
        read_lsb_next: true,
        latched_count: None,
        latched_lsb_next: true,
    }
}

#[test]
fn counts_go_down_from_the_reload_value() {
    let timer = channel(0x1000, 3);
    assert_eq!(timer.count_at(0), 0x1000);
    // A second has 1193182 ticks, which is 0x1000 times 291 and a rest of 1246.
    assert_eq!(timer.count_at(1_000_000_000), 0x1000 - 1246);
    assert_eq!(channel(0x1_0000, 3).count_at(0), 0);
}

#[test]
fn a_latched_count_is_kept_for_two_reads() {
    let mut timer = channel(0x1000, 3);
    timer.latch_count_at(1_000_000_000);
    let count = 0x1000u16 - 1246;
    assert_eq!(timer.read_counter_at(0), count as u8);
    assert_eq!(timer.read_counter_at(0), (count >> 8) as u8);
    assert_eq!(timer.read_counter_at(0), 0x00);
    assert_eq!(timer.read_counter_at(0), 0x10);
}

#[test]
fn two_bytes_load_a_channel() {
    let mut pit = Pit::new();
    pit.write(0, 3, &[0x34]);
    pit.write(0, 0, &[0x34]);
    assert_eq!(pit.channels[0].reload, 0x1_0000);
    pit.write(0, 0, &[0x12]);
    assert_eq!(pit.channels[0].reload, 0x1234);
    let mut data = [0u8];
    pit.read(0, 0, &mut data);
    pit.write(0, 3, &[0x10]);
    pit.write(0, 0, &[0x55]);
    assert_eq!(pit.channels[0].reload, 0x55);
    pit.write(0, 3, &[0x20]);
    pit.write(0, 0, &[0x55]);
    assert_eq!(pit.channels[0].reload, 0x5500);
}

#[test]
fn a_running_channel_counts() {
    let timer = PitChannel::new();
    let first = timer.current_count();
    let mut changed = false;
    for _ in 0..1_000_000 {
        if timer.current_count() != first {
            changed = true;
            break;
        }
    }
    assert!(changed);
}
