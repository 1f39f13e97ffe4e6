use alist_bore::locate::{copy_to_app_data, find_binary, Dir, Search, Stage};

/// What a search is told, and what it did in the end.
struct Scene {
    app_data: Option<bool>,
    working: Option<bool>,
    resource: Option<bool>,
    target: Option<bool>,
    created: Result<(), String>,
    copied: Result<(), String>,
}

fn scene() -> Scene {
    Scene {
        app_data: Some(false),
        working: Some(false),
        resource: Some(false),
        target: Some(false),
        created: Ok(()),
        copied: Ok(()),
    }
}

fn run(mut search: Search, scene: &Scene) -> (Result<Dir, String>, Vec<String>) {
    let mut asked = Vec::new();
    loop {
        search = match search {
            Search::Probe(probing) => {
                asked.push(format!("probe {:?}", probing.dir()));
                let found = match probing.stage {
                    Stage::At(Dir::AppData) => scene.app_data,
                    Stage::At(Dir::Working) => scene.working,
                    Stage::At(Dir::Resource) => scene.resource,
                    Stage::CopyOf(_) => scene.target,
                };
                probing.answer(found)
            }
            Search::Create(creating) => {
                asked.push("create".to_string());
                creating.answer(scene.created.clone())
            }
            Search::Copy(copying) => {
                asked.push(format!("copy {:?}", copying.from));
                copying.answer(scene.copied.clone())
            }
            Search::Finish(result) => return (result, asked),
        };
    }
}

fn find(scene: &Scene) -> (Result<Dir, String>, Vec<String>) {
    run(find_binary("bore"), scene)
}

#[test]
fn the_data_directory_comes_first() {
    let scene = Scene { app_data: Some(true), working: Some(true), ..scene() };
    let (result, asked) = find(&scene);
    assert_eq!(result, Ok(Dir::AppData));
    assert_eq!(asked, vec!["probe AppData"]);
}

#[test]
fn the_working_directory_comes_before_the_resources() {
    let scene = Scene { working: Some(true), resource: Some(true), ..scene() };
    let (result, asked) = find(&scene);
    assert_eq!(result, Ok(Dir::AppData));
    assert_eq!(
        asked,
        vec!["probe AppData", "probe Working", "probe AppData", "create", "copy Working"]
    );
}

#[test]
fn the_resources_come_last() {
    let scene = Scene { working: None, resource: Some(true), ..scene() };
    let (result, asked) = find(&scene);
    assert_eq!(result, Ok(Dir::AppData));
    assert_eq!(asked.last().map(|last| last.as_str()), Some("copy Resource"));
}

#[test]
fn nothing_is_copied_over_an_existing_file() {
    let scene = Scene { working: Some(true), target: Some(true), ..scene() };
    let (result, asked) = find(&scene);
    assert_eq!(result, Ok(Dir::AppData));
    assert_eq!(asked, vec!["probe AppData", "probe Working", "probe AppData"]);
}

#[test]
fn without_a_data_directory_the_executable_is_used_in_place() {
    let unknown = Scene { app_data: None, working: Some(true), target: None, ..scene() };
    assert_eq!(find(&unknown).0, Ok(Dir::Working));
    let unknown = Scene { app_data: None, resource: Some(true), target: None, ..scene() };
    assert_eq!(find(&unknown).0, Ok(Dir::Resource));
}

#[test]
fn an_executable_that_is_nowhere_is_reported() {
    let missing = Err("找不到 bore，请将其放在程序同目录".to_string());
    assert_eq!(find(&scene()).0, missing);
    let unknown = Scene { app_data: None, working: None, resource: None, ..scene() };
    assert_eq!(find(&unknown).0, missing);
}

#[test]
fn failures_on_the_way_are_reported() {
    let full = Err("disk full".to_string());
    let broken = Scene { working: Some(true), created: full.clone(), ..scene() };
    let (result, asked) = find(&broken);
    assert_eq!(result, Err("disk full".to_string()));
    assert_eq!(asked.last().map(|last| last.as_str()), Some("create"));
    let broken = Scene { working: Some(true), copied: full, ..scene() };
    assert_eq!(find(&broken).0, Err("disk full".to_string()));
}

#[test]
fn copying_starts_with_a_look_at_the_target() {
    let (result, asked) = run(copy_to_app_data("bore".to_string(), Dir::Resource), &scene());
    assert_eq!(result, Ok(Dir::AppData));
    assert_eq!(asked, vec!["probe AppData", "create", "copy Resource"]);
}
