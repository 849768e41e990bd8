use aze::ago;
use aze::cli::convert_tags;
use aze::project;
use aze::tags;
use aze::time::current_timestamp;
use aze::Elapsed;
use aze::Store;
use aze::commands::add::AddSubcommand;
use aze::commands::projects::ProjectsSubcommand;

const BASE: i64 = 946684800;

#[test]
fn convert_tags_strips_the_plus_sign() {
    assert_eq!(Ok("tag1".to_string()), convert_tags("+tag1"));
    assert_eq!(Err("Fail".to_string()), convert_tags("tag1"));
    assert_eq!(Err("Fail".to_string()), convert_tags(""));
    assert_eq!(Ok("".to_string()), convert_tags("+"));
}

#[test]
fn ago_reports_the_coarsest_unit() {
    assert_eq!(Elapsed::Days(2), ago(BASE, BASE + 2 * 86400));
    assert_eq!(Elapsed::Days(1), ago(BASE, BASE + 86400 + 3600));
    assert_eq!(Elapsed::Hours(3), ago(BASE, BASE + 3 * 3600));
    assert_eq!(Elapsed::Minutes(42), ago(BASE, BASE + 42 * 60));
    assert_eq!(Elapsed::Seconds(59), ago(BASE, BASE + 59));
    assert_eq!(Elapsed::JustNow, ago(BASE, BASE));
    // a timestamp in the future counts backwards
    assert_eq!(Elapsed::Seconds(-30), ago(BASE + 30, BASE));
    assert_eq!(Elapsed::Days(-2), ago(BASE + 2 * 86400, BASE));
}

#[test]
fn the_clock_reads_like_chrono() {
    let ours = current_timestamp();
    let chronos = chrono::Local::now().naive_local().and_utc().timestamp();
    assert!((ours - chronos).abs() <= 5);
}

#[test]
fn projects_and_tags_queries_see_only_live_frames() {
    let mut store = Store::new();
    let add = |project: &str, tag: &str, from: i64, to: i64| AddSubcommand {
        project: project.to_string(),
        tags: vec![tag.to_string()],
        from,
        to,
        confirm_project: false,
        confirm_tags: false,
    };
    let id = add("apollo11", "brakes", BASE, BASE + 3600)
        .run(&mut store, BASE)
        .unwrap();
    add("hubble", "mirror", BASE + 7200, BASE + 9000)
        .run(&mut store, BASE)
        .unwrap();
    add("apollo11", "module", BASE + 10000, BASE + 10600)
        .run(&mut store, BASE)
        .unwrap();

    assert!(project::has_project(&store, "apollo11"));
    assert!(!project::has_project(&store, "voyager1"));
    assert!(tags::has_tag(&store, "brakes"));
    assert!(!tags::has_tag(&store, "wheels"));

    // distinct names, first occurrences in store order
    assert_eq!(
        vec!["apollo11".to_string(), "hubble".to_string()],
        ProjectsSubcommand {}.run(&store)
    );

    // a deleted frame no longer feeds the queries
    store.soft_delete(&id, BASE).unwrap();
    assert!(!tags::has_tag(&store, "brakes"));
    assert!(project::has_project(&store, "apollo11"));
}
