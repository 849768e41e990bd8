use aze::commands::add::AddSubcommand;
use aze::commands::frames::FramesSubcommand;
use aze::commands::remove::RemoveSubcommand;
use aze::commands::start::StartSubcommand;
use aze::commands::status::StatusSubcommand;
use aze::commands::stop::StopSubcommand;
use aze::frame::Frame;
use aze::Error;
use aze::Store;

// 2000-01-01 00:00:00
const BASE: i64 = 946684800;

fn add(project: &str, tags: Vec<String>, from: i64, to: i64) -> AddSubcommand {
    AddSubcommand {
        project: project.to_string(),
        tags,
        from,
        to,
        confirm_project: false,
        confirm_tags: false,
    }
}

fn start_at(project: &str, at: i64) -> StartSubcommand {
    StartSubcommand {
        project: project.to_string(),
        tags: Vec::new(),
        at: Some(at),
        confirm_project: false,
        confirm_tags: false,
        no_gap: false,
    }
}

fn raw_frame(id: &str, start: i64, end: Option<i64>) -> Frame {
    Frame {
        id: id.to_string(),
        start,
        end,
        last_update: BASE,
        project: "test".to_string(),
        tags: Vec::new(),
        deleted: false,
    }
}

#[test]
fn add_creates_a_frame_with_a_fresh_id() {
    let mut store = Store::new();
    let now = BASE;
    let first = add("test", vec!["tag1".to_string()], BASE + 12 * 3600, BASE + 13 * 3600)
        .run(&mut store, now)
        .unwrap();
    let second = add("test", Vec::new(), BASE + 14 * 3600, BASE + 15 * 3600)
        .run(&mut store, now)
        .unwrap();

    assert_eq!(36, first.len());
    assert_eq!(36, second.len());
    assert_ne!(first, second);

    let frame = store.find_by_id(&first).unwrap();
    assert_eq!(first, frame.id);
    assert_eq!(BASE + 12 * 3600, frame.start);
    assert_eq!(Some(BASE + 13 * 3600), frame.end);
    assert_eq!("test", frame.project);
    assert_eq!(vec!["tag1".to_string()], frame.tags);
    assert!(!frame.deleted);
}

#[test]
fn add_rejects_a_malformed_interval() {
    let mut store = Store::new();
    let r = add("test", Vec::new(), BASE + 3600, BASE + 3600).run(&mut store, BASE);
    assert_eq!(Err(Error::ValidationError), r);
    assert_eq!(0, store.len());
}

#[test]
fn add_rejects_overlapping_intervals() {
    let mut store = Store::new();
    let id = add("test", Vec::new(), BASE + 12 * 3600, BASE + 16 * 3600)
        .run(&mut store, BASE)
        .unwrap();

    // overlaps at the start of the existing frame
    let r = add("test", Vec::new(), BASE + 10 * 3600, BASE + 13 * 3600).run(&mut store, BASE);
    assert_eq!(Err(Error::OverlapError(id.clone())), r);
    // overlaps at the end
    let r = add("test", Vec::new(), BASE + 15 * 3600, BASE + 17 * 3600).run(&mut store, BASE);
    assert_eq!(Err(Error::OverlapError(id.clone())), r);
    // lies entirely inside
    let r = add("test", Vec::new(), BASE + 13 * 3600, BASE + 14 * 3600).run(&mut store, BASE);
    assert_eq!(Err(Error::OverlapError(id.clone())), r);
    // touches only at the boundary: no overlap
    let r = add("test", Vec::new(), BASE + 16 * 3600, BASE + 17 * 3600).run(&mut store, BASE);
    assert!(r.is_ok());
}

#[test]
fn start_before_an_existing_end_is_an_overlap() {
    let mut store = Store::new();
    let id = add("test", Vec::new(), BASE + 12 * 3600, BASE + 16 * 3600)
        .run(&mut store, BASE)
        .unwrap();

    let r = start_at("test", BASE + 15 * 3600).run(&mut store, BASE);
    assert_eq!(Err(Error::OverlapError(id)), r);

    let r = start_at("test", BASE + 16 * 3600).run(&mut store, BASE);
    let (_, started_at) = r.unwrap();
    assert_eq!(BASE + 16 * 3600, started_at);
}

#[test]
fn only_one_frame_runs_at_a_time() {
    let mut store = Store::new();
    let (first_id, _) = start_at("another", BASE).run(&mut store, BASE).unwrap();

    let r = start_at("test", BASE + 3600).run(&mut store, BASE + 3600);
    assert_eq!(Err(Error::OverlapError(first_id)), r);

    let status = StatusSubcommand {
        show_project: false,
        show_tags: false,
        show_elapsed: false,
    };
    let running = status.run(&store).unwrap();
    assert_eq!("another", running.project);
    assert_eq!(None, running.end);
}

#[test]
fn stop_closes_the_running_frame() {
    let mut store = Store::new();
    start_at("test", BASE).run(&mut store, BASE).unwrap();

    let stopped = StopSubcommand { at: Some(BASE + 1800) }
        .run(&mut store, BASE + 1800)
        .unwrap();
    assert_eq!("test", stopped.project);
    assert_eq!(Some(BASE + 1800), stopped.end);

    let r = StopSubcommand { at: None }.run(&mut store, BASE + 3600);
    assert_eq!(Err(Error::NotFoundError), r);
}

#[test]
fn stop_rejects_an_end_at_or_before_the_start() {
    let mut store = Store::new();
    start_at("test", BASE + 3600).run(&mut store, BASE + 3600).unwrap();

    let r = StopSubcommand { at: Some(BASE + 3600) }.run(&mut store, BASE + 7200);
    assert_eq!(Err(Error::ValidationError), r);
}

#[test]
fn no_gap_starts_at_the_latest_end() {
    let mut store = Store::new();
    add("test", Vec::new(), BASE, BASE + 3600).run(&mut store, BASE).unwrap();
    add("test", Vec::new(), BASE + 7200, BASE + 9000).run(&mut store, BASE).unwrap();

    let cmd = StartSubcommand {
        project: "test".to_string(),
        tags: Vec::new(),
        at: None,
        confirm_project: false,
        confirm_tags: false,
        no_gap: true,
    };
    let (_, started_at) = cmd.run(&mut store, BASE + 10000).unwrap();
    assert_eq!(BASE + 9000, started_at);
}

#[test]
fn no_gap_without_a_finished_frame_is_not_found() {
    let mut store = Store::new();
    let cmd = StartSubcommand {
        project: "test".to_string(),
        tags: Vec::new(),
        at: None,
        confirm_project: false,
        confirm_tags: false,
        no_gap: true,
    };
    assert_eq!(Err(Error::NotFoundError), cmd.run(&mut store, BASE));
}

#[test]
fn soft_delete_hides_the_frame_but_keeps_the_row() {
    let mut store = Store::new();
    let id = add("test", Vec::new(), BASE + 3600, BASE + 7200)
        .run(&mut store, BASE)
        .unwrap();
    assert_eq!(1, store.len());
    assert!(store.frame_collides(BASE + 3600, BASE + 7200));

    let short: String = id.chars().take(7).collect();
    let removed = RemoveSubcommand { id: short, force: true }
        .run(&mut store, BASE)
        .unwrap();
    assert_eq!(id, removed.id);

    // the row still exists in storage, but nothing sees it any more
    assert_eq!(1, store.len());
    let rows = store.rows();
    assert_eq!(1, rows.len());
    assert!(rows[0].deleted);
    assert_eq!(id, rows[0].id);
    assert_eq!(Err(Error::NotFoundError), store.find_by_id(&id));
    assert!(!store.frame_collides(BASE + 3600, BASE + 7200));
    assert!(store.find_all().is_empty());

    // deleting again through the full id reports a no-op
    assert_eq!(Ok(false), store.soft_delete(&id, BASE));
}

#[test]
fn remove_without_force_changes_nothing() {
    let mut store = Store::new();
    let id = add("test", Vec::new(), BASE + 3600, BASE + 7200)
        .run(&mut store, BASE)
        .unwrap();

    let seen = RemoveSubcommand { id: id.clone(), force: false }
        .run(&mut store, BASE)
        .unwrap();
    assert_eq!(id, seen.id);
    assert!(store.find_by_id(&id).is_ok());
}

#[test]
fn remove_of_an_unknown_id_is_not_found() {
    let mut store = Store::new();
    let r = RemoveSubcommand { id: "aaaaaaa".to_string(), force: true }.run(&mut store, BASE);
    assert_eq!(Err(Error::NotFoundError), r);
}

#[test]
fn short_id_resolution_reports_ambiguity() {
    let rows = vec![
        raw_frame("abcdefg1111", BASE, Some(BASE + 3600)),
        raw_frame("abcdefg2222", BASE + 7200, Some(BASE + 9000)),
    ];
    let store = Store::from_rows(rows).unwrap();

    // the two ids share a seven-character prefix
    assert_eq!(
        Err(Error::AmbiguousError),
        store.find_by_short_id("abcdefg").map(|f| f.id)
    );

    // one more character restores uniqueness
    let f = store.find_by_short_id("abcdefg1").unwrap();
    assert_eq!("abcdefg1111", f.id);

    assert_eq!(
        Err(Error::NotFoundError),
        store.find_by_short_id("zzzzzzz").map(|f| f.id)
    );
}

#[test]
fn from_rows_refuses_broken_invariants() {
    // duplicate ids
    let rows = vec![
        raw_frame("a", BASE, Some(BASE + 10)),
        raw_frame("a", BASE + 20, Some(BASE + 30)),
    ];
    assert!(Store::from_rows(rows).is_none());

    // overlapping live finished frames
    let rows = vec![
        raw_frame("a", BASE, Some(BASE + 100)),
        raw_frame("b", BASE + 50, Some(BASE + 150)),
    ];
    assert!(Store::from_rows(rows).is_none());

    // two running frames
    let rows = vec![raw_frame("a", BASE, None), raw_frame("b", BASE + 50, None)];
    assert!(Store::from_rows(rows).is_none());

    // an inverted interval
    let rows = vec![raw_frame("a", BASE + 100, Some(BASE))];
    assert!(Store::from_rows(rows).is_none());

    // a deleted overlap is fine: deleted rows are out of every check
    let mut dead = raw_frame("a", BASE, Some(BASE + 100));
    dead.deleted = true;
    let rows = vec![dead, raw_frame("b", BASE + 50, Some(BASE + 150))];
    assert!(Store::from_rows(rows).is_some());
}

#[test]
fn frames_lists_short_ids_of_live_frames() {
    let rows = vec![
        raw_frame("abcdefg1111", BASE, Some(BASE + 3600)),
        raw_frame("hijklmn2222", BASE + 7200, Some(BASE + 9000)),
    ];
    let store = Store::from_rows(rows).unwrap();
    let shorts = FramesSubcommand {}.run(&store);
    assert_eq!(vec!["abcdefg".to_string(), "hijklmn".to_string()], shorts);
}
