use aze::commands::add::AddSubcommand;
use aze::commands::edit::EditSubcommand;
use aze::commands::start::StartSubcommand;
use aze::Error;
use aze::FramePatch;
use aze::Store;

const BASE: i64 = 946684800;

fn add(project: &str, from: i64, to: i64) -> AddSubcommand {
    AddSubcommand {
        project: project.to_string(),
        tags: Vec::new(),
        from,
        to,
        confirm_project: false,
        confirm_tags: false,
    }
}

fn edit(frame_id: Option<String>) -> EditSubcommand {
    EditSubcommand {
        frame_id,
        confirm_project: false,
        confirm_tags: false,
    }
}

fn untouched() -> FramePatch {
    FramePatch {
        start: None,
        end: None,
        project: None,
        tags: None,
    }
}

#[test]
fn edit_rewrites_the_named_frame() {
    let mut store = Store::new();
    let id = add("before", BASE, BASE + 3600).run(&mut store, BASE).unwrap();

    let patch = FramePatch {
        start: Some(BASE + 600),
        end: Some(Some(BASE + 4200)),
        project: Some("after".to_string()),
        tags: Some(vec!["fixed".to_string()]),
    };
    edit(Some(id.clone())).run(&mut store, &patch, BASE + 9999).unwrap();

    let f = store.find_by_id(&id).unwrap();
    assert_eq!(BASE + 600, f.start);
    assert_eq!(Some(BASE + 4200), f.end);
    assert_eq!("after", f.project);
    assert_eq!(vec!["fixed".to_string()], f.tags);
    assert_eq!(BASE + 9999, f.last_update);
}

#[test]
fn edit_without_an_id_takes_the_frame_created_last() {
    let mut store = Store::new();
    add("first", BASE, BASE + 3600).run(&mut store, BASE).unwrap();
    let last = add("second", BASE + 7200, BASE + 9000).run(&mut store, BASE).unwrap();

    let patch = FramePatch {
        project: Some("renamed".to_string()),
        ..untouched()
    };
    edit(None).run(&mut store, &patch, BASE).unwrap();

    assert_eq!("renamed", store.find_by_id(&last).unwrap().project);
}

#[test]
fn edit_with_nothing_recorded_is_not_found() {
    let mut store = Store::new();
    let r = edit(None).run(&mut store, &untouched(), BASE);
    assert_eq!(Err(Error::NotFoundError), r);
}

#[test]
fn edit_of_an_unknown_id_is_not_found() {
    let mut store = Store::new();
    add("test", BASE, BASE + 3600).run(&mut store, BASE).unwrap();
    let r = edit(Some("nope".to_string())).run(&mut store, &untouched(), BASE);
    assert_eq!(Err(Error::NotFoundError), r);
}

#[test]
fn edit_rejects_a_malformed_interval() {
    let mut store = Store::new();
    let id = add("test", BASE, BASE + 3600).run(&mut store, BASE).unwrap();

    let patch = FramePatch {
        end: Some(Some(BASE - 100)),
        ..untouched()
    };
    let r = edit(Some(id)).run(&mut store, &patch, BASE);
    assert_eq!(Err(Error::ValidationError), r);
}

#[test]
fn edit_rejects_a_patched_interval_in_the_way() {
    let mut store = Store::new();
    let blocker = add("a", BASE, BASE + 3600).run(&mut store, BASE).unwrap();
    let target = add("b", BASE + 7200, BASE + 9000).run(&mut store, BASE).unwrap();

    let patch = FramePatch {
        start: Some(BASE + 1800),
        ..untouched()
    };
    let r = edit(Some(target)).run(&mut store, &patch, BASE);
    assert_eq!(Err(Error::OverlapError(blocker)), r);
}

#[test]
fn edit_cannot_reopen_beside_a_running_frame() {
    let mut store = Store::new();
    let closed = add("a", BASE, BASE + 3600).run(&mut store, BASE).unwrap();
    let (running, _) = StartSubcommand {
        project: "b".to_string(),
        tags: Vec::new(),
        at: Some(BASE + 7200),
        confirm_project: false,
        confirm_tags: false,
        no_gap: false,
    }
    .run(&mut store, BASE + 7200)
    .unwrap();

    let patch = FramePatch {
        end: Some(None),
        ..untouched()
    };
    let r = edit(Some(closed)).run(&mut store, &patch, BASE + 7200);
    assert_eq!(Err(Error::OverlapError(running)), r);
}
