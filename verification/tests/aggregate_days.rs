use aze::display::aggregate;
use aze::frame::Frame;

// 2000-01-01 00:00:00; a day is 86400 seconds
const BASE: i64 = 946684800;

fn frame(id: &str, start: i64, end: Option<i64>) -> Frame {
    Frame {
        id: id.to_string(),
        start,
        end,
        last_update: BASE,
        project: "test".to_string(),
        tags: Vec::new(),
        deleted: false,
    }
}

#[test]
fn one_day_sums_its_frames() {
    // two frames on the same calendar day, 30 and 90 minutes long
    let frames = vec![
        frame("a", BASE + 10 * 3600, Some(BASE + 10 * 3600 + 1800)),
        frame("b", BASE + 12 * 3600, Some(BASE + 12 * 3600 + 5400)),
    ];
    let buckets = aggregate(&frames, false);

    assert_eq!(1, buckets.len());
    assert_eq!(BASE / 86400, buckets[0].date);
    let ids: Vec<&str> = buckets[0].frames.iter().map(|f| f.id.as_str()).collect();
    assert_eq!(vec!["a", "b"], ids);
    // 30 + 90 minutes make 120
    assert_eq!(120 * 60, buckets[0].total_duration(BASE));
}

#[test]
fn days_get_their_own_buckets() {
    let day2 = BASE + 86400;
    let frames = vec![
        frame("late", day2 + 3600, Some(day2 + 7200)),
        frame("early_b", BASE + 7200, Some(BASE + 10800)),
        frame("early_a", BASE + 3600, Some(BASE + 7200)),
    ];
    let buckets = aggregate(&frames, false);

    assert_eq!(2, buckets.len());
    assert_eq!(day2 / 86400, buckets[0].date);
    assert_eq!(BASE / 86400, buckets[1].date);
    let ids: Vec<&str> = buckets[1].frames.iter().map(|f| f.id.as_str()).collect();
    assert_eq!(vec!["early_b", "early_a"], ids);
}

#[test]
fn reverse_prepends_buckets_and_frames() {
    let day2 = BASE + 86400;
    let frames = vec![
        frame("late", day2 + 3600, Some(day2 + 7200)),
        frame("early_b", BASE + 7200, Some(BASE + 10800)),
        frame("early_a", BASE + 3600, Some(BASE + 7200)),
    ];
    let buckets = aggregate(&frames, true);

    assert_eq!(2, buckets.len());
    assert_eq!(BASE / 86400, buckets[0].date);
    assert_eq!(day2 / 86400, buckets[1].date);
    let ids: Vec<&str> = buckets[0].frames.iter().map(|f| f.id.as_str()).collect();
    assert_eq!(vec!["early_a", "early_b"], ids);
}

#[test]
fn a_frame_spanning_midnight_stays_with_its_start_day() {
    let frames = vec![frame("night", BASE + 23 * 3600, Some(BASE + 25 * 3600))];
    let buckets = aggregate(&frames, false);

    assert_eq!(1, buckets.len());
    assert_eq!(BASE / 86400, buckets[0].date);
    assert_eq!(7200, buckets[0].total_duration(BASE));
}
