use aze::display::Display;
use aze::frame::Frame;
use aze::time::current_timestamp;

fn frame(id: &str, start: i64, end: Option<i64>, now: i64) -> Frame {
    Frame {
        id: id.to_string(),
        start,
        end,
        last_update: now,
        project: "1".to_string(),
        tags: Vec::new(),
        deleted: false,
    }
}

#[test]
fn can_add_multiple_frames() {
    let now = current_timestamp();
    let frame1 = frame("1", now, Some(now), now);
    let frame2 = frame("2", now, Some(now), now);

    let display = Display {
        date: now / 86400,
        frames: vec![frame1, frame2],
    };

    assert_eq!(display.frames.len(), 2);
}

#[test]
fn duration_from_multiple_frames() {
    let now = current_timestamp();
    let start = chrono::NaiveDate::from_ymd_opt(2001, 1, 1)
        .unwrap()
        .and_hms_opt(10, 0, 0)
        .unwrap()
        .and_utc()
        .timestamp();
    let end = chrono::NaiveDate::from_ymd_opt(2001, 1, 1)
        .unwrap()
        .and_hms_opt(11, 0, 0)
        .unwrap()
        .and_utc()
        .timestamp();
    let frame1 = frame("1", start, Some(end), now);
    let frame2 = frame("2", start, Some(end), now);

    let display = Display {
        date: start / 86400,
        frames: vec![frame1, frame2],
    };

    assert_eq!(2, display.total_duration(now) / 3600);
}

#[test]
fn open_frame_counts_up_to_now() {
    let now = current_timestamp();
    let running = frame("1", now - 7200, None, now);

    let display = Display {
        date: (now - 7200) / 86400,
        frames: vec![running],
    };

    assert_eq!(7200, display.total_duration(now));
    assert_eq!(Some(7200), display.total_duration_checked(now));
}
