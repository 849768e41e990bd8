use aze::commands::add::AddSubcommand;
use aze::commands::log::LogSubcommand;
use aze::commands::start::StartSubcommand;
use aze::display::Display;
use aze::time::current_timestamp;
use aze::ConfigFault;
use aze::Error;
use aze::Store;

fn add(project: &str, tags: Vec<&str>, from: i64, to: i64) -> AddSubcommand {
    AddSubcommand {
        project: project.to_string(),
        tags: tags.iter().map(|t| t.to_string()).collect(),
        from,
        to,
        confirm_project: false,
        confirm_tags: false,
    }
}

fn log() -> LogSubcommand {
    LogSubcommand {
        projects: Vec::new(),
        tags: Vec::new(),
        ignored_projects: Vec::new(),
        ignored_tags: Vec::new(),
        current: false,
        reverse: false,
        from: None,
        to: None,
    }
}

fn strings(v: &[&str]) -> Vec<String> {
    v.iter().map(|s| s.to_string()).collect()
}

fn bucket_projects(buckets: &[Display]) -> Vec<String> {
    buckets
        .iter()
        .flat_map(|b| b.frames.iter().map(|f| f.project.clone()))
        .collect()
}

/// A store with one frame for project "a" (tag "t1") and one for
/// project "b" (tag "t2"), both within the default window.
fn two_project_store(now: i64) -> Store {
    let mut store = Store::new();
    add("a", vec!["t1"], now - 7200, now - 5400).run(&mut store, now).unwrap();
    add("b", vec!["t2"], now - 3600, now - 1800).run(&mut store, now).unwrap();
    store
}

#[test]
fn project_selection_keeps_only_named_projects() {
    let now = current_timestamp();
    let store = two_project_store(now);

    let mut cmd = log();
    cmd.projects = strings(&["a"]);
    let buckets = cmd.run(&store, now).unwrap();
    assert_eq!(vec!["a".to_string()], bucket_projects(&buckets));
}

#[test]
fn ignored_projects_are_dropped() {
    let now = current_timestamp();
    let store = two_project_store(now);

    let mut cmd = log();
    cmd.ignored_projects = strings(&["a"]);
    let buckets = cmd.run(&store, now).unwrap();
    assert_eq!(vec!["b".to_string()], bucket_projects(&buckets));
}

#[test]
fn selecting_and_ignoring_a_project_is_rejected() {
    let now = current_timestamp();
    let store = two_project_store(now);

    let mut cmd = log();
    cmd.projects = strings(&["a"]);
    cmd.ignored_projects = strings(&["a"]);
    assert_eq!(
        Err(Error::ConfigurationError(ConfigFault::ProjectsNotDisjoint)),
        cmd.run(&store, now)
    );
    assert_eq!(vec!["a".to_string()], cmd.parse_project());
    assert!(cmd.parse_tags().is_empty());
}

#[test]
fn tag_selection_keeps_frames_with_a_listed_tag() {
    let now = current_timestamp();
    let store = two_project_store(now);

    let mut cmd = log();
    cmd.tags = strings(&["t1"]);
    let buckets = cmd.run(&store, now).unwrap();
    assert_eq!(vec!["a".to_string()], bucket_projects(&buckets));
}

#[test]
fn ignored_tags_drop_their_frames() {
    let now = current_timestamp();
    let store = two_project_store(now);

    let mut cmd = log();
    cmd.ignored_tags = strings(&["t1"]);
    let buckets = cmd.run(&store, now).unwrap();
    assert_eq!(vec!["b".to_string()], bucket_projects(&buckets));
}

#[test]
fn selecting_and_ignoring_a_tag_is_rejected() {
    let now = current_timestamp();
    let store = two_project_store(now);

    let mut cmd = log();
    cmd.tags = strings(&["t1"]);
    cmd.ignored_tags = strings(&["t1"]);
    assert_eq!(
        Err(Error::ConfigurationError(ConfigFault::TagsNotDisjoint)),
        cmd.run(&store, now)
    );
    assert_eq!(vec!["t1".to_string()], cmd.parse_tags());
}

#[test]
fn from_after_to_is_rejected() {
    let now = current_timestamp();
    let store = two_project_store(now);

    let mut cmd = log();
    cmd.from = Some(now);
    cmd.to = Some(now - 3600);
    assert_eq!(
        Err(Error::ConfigurationError(ConfigFault::FromAfterTo)),
        cmd.run(&store, now)
    );
}

#[test]
fn default_window_drops_old_frames() {
    let now = current_timestamp();
    let mut store = Store::new();
    // eight days old: before the default lower bound of a week ago
    add("old", vec![], now - 8 * 86400, now - 8 * 86400 + 3600)
        .run(&mut store, now)
        .unwrap();
    add("new", vec![], now - 3600, now - 1800).run(&mut store, now).unwrap();

    let buckets = log().run(&store, now).unwrap();
    assert_eq!(vec!["new".to_string()], bucket_projects(&buckets));
}

#[test]
fn running_frame_appears_only_when_asked_for() {
    let now = current_timestamp();
    let mut store = Store::new();
    StartSubcommand {
        project: "live".to_string(),
        tags: Vec::new(),
        at: Some(now - 7200),
        confirm_project: false,
        confirm_tags: false,
        no_gap: false,
    }
    .run(&mut store, now)
    .unwrap();

    // not included by default
    let buckets = log().run(&store, now).unwrap();
    assert!(bucket_projects(&buckets).is_empty());

    // included on request, counted up to now: two hours so far
    let mut cmd = log();
    cmd.current = true;
    let buckets = cmd.run(&store, now).unwrap();
    assert_eq!(vec!["live".to_string()], bucket_projects(&buckets));
    assert_eq!(7200, buckets[0].total_duration(now));

    // absent whenever the upper bound lies in the past
    let mut cmd = log();
    cmd.current = true;
    cmd.from = Some(now - 4 * 86400);
    cmd.to = Some(now - 600);
    let buckets = cmd.run(&store, now).unwrap();
    assert!(bucket_projects(&buckets).is_empty());
}

#[test]
fn frames_come_most_recent_first() {
    let now = current_timestamp();
    let mut store = Store::new();
    add("first", vec![], now - 7200, now - 5400).run(&mut store, now).unwrap();
    add("second", vec![], now - 3600, now - 1800).run(&mut store, now).unwrap();

    let buckets = log().run(&store, now).unwrap();
    assert_eq!(
        vec!["second".to_string(), "first".to_string()],
        bucket_projects(&buckets)
    );

    let mut cmd = log();
    cmd.reverse = true;
    let buckets = cmd.run(&store, now).unwrap();
    assert_eq!(
        vec!["first".to_string(), "second".to_string()],
        bucket_projects(&buckets)
    );
}

#[test]
fn bounds_select_by_start_and_end() {
    let now = current_timestamp();
    let mut store = Store::new();
    // a finished frame well inside the window
    add("kept", vec![], now - 7200, now - 5400).run(&mut store, now).unwrap();
    // starts exactly at the lower bound: "start strictly after" drops it
    add("at_from", vec![], now - 10800, now - 9000).run(&mut store, now).unwrap();

    let mut cmd = log();
    cmd.from = Some(now - 10800);
    let buckets = cmd.run(&store, now).unwrap();
    assert_eq!(vec!["kept".to_string()], bucket_projects(&buckets));

    // a past upper bound keeps only frames that ended before it
    let mut cmd = log();
    cmd.from = Some(now - 4 * 86400);
    cmd.to = Some(now - 5400);
    let buckets = cmd.run(&store, now).unwrap();
    assert_eq!(vec!["at_from".to_string()], bucket_projects(&buckets));
}
