use pi_capture::clock::{format_offset, format_timestamp, LocalTime};

fn at(year: i32, month: u32, day: u32, hour: u32, minute: u32, second: u32, offset_seconds: i32) -> LocalTime {
    LocalTime { year, month, day, hour, minute, second, offset_seconds }
}

#[test]
fn timestamps_and_offsets() {
    let t = at(2026, 3, 12, 9, 0, 0, 0);
    assert_eq!(format_timestamp(&t), "2026-03-12T09:00:00");
    assert_eq!(format_offset(&t), "+00:00");
    let t = at(2026, 3, 4, 16, 1, 27, 8 * 3600);
    assert_eq!(format_timestamp(&t), "2026-03-04T16:01:27");
    assert_eq!(format_offset(&t), "+08:00");
    let t = at(2026, 12, 31, 23, 59, 59, -(5 * 3600 + 30 * 60));
    assert_eq!(format_timestamp(&t), "2026-12-31T23:59:59");
    assert_eq!(format_offset(&t), "-05:30");
    assert_eq!(format_offset(&at(987, 1, 2, 3, 4, 5, 45)), "+00:00");
    assert_eq!(format_timestamp(&at(987, 1, 2, 3, 4, 5, 45)), "0987-01-02T03:04:05");
    assert_eq!(format_timestamp(&at(12345, 1, 2, 3, 4, 5, 0)), "12345-01-02T03:04:05");
}
