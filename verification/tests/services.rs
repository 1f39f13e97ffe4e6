use alist_bore::config::{
    alist_binary, bore_binary, ALIST_PORT, BORE_HOST, PASSWORD_FILE, STARTUP_TIMEOUT_SECS,
};
use alist_bore::service::{
    cmd_open_url, cmd_quit_app, cmd_start_alist, cmd_start_bore, cmd_stop_services, kill_alist,
    kill_bore, AppState, Launch, Locating, Service, Spawning,
};

fn locating(launch: Launch) -> Locating {
    match launch {
        Launch::Locate(locating) => locating,
        _ => panic!("not at the beginning"),
    }
}

fn spawning(launch: Launch) -> Spawning {
    match locating(launch).answer(Ok(())) {
        Launch::Spawn(spawning) => spawning,
        _ => panic!("not about to run"),
    }
}

fn failure(launch: Launch) -> String {
    match launch {
        Launch::Fail(why) => why,
        _ => panic!("no failure"),
    }
}

#[test]
fn the_configuration() {
    assert_eq!(ALIST_PORT, 5244);
    assert_eq!(BORE_HOST, "bore.pub");
    assert_eq!(STARTUP_TIMEOUT_SECS, 15);
    assert_eq!(PASSWORD_FILE, "alist_password.json");
    assert_eq!(alist_binary(true), "alist.exe");
    assert_eq!(alist_binary(false), "alist");
    assert_eq!(bore_binary(true), "bore.exe");
    assert_eq!(bore_binary(false), "bore");
}

#[test]
fn nothing_runs_at_first() {
    let state: AppState<u32> = AppState::new();
    assert!(state.alist_child.is_none());
    assert!(state.bore_child.is_none());
}

#[test]
fn a_kept_handle_replaces_the_one_before() {
    let mut state: AppState<u32> = AppState::new();
    assert_eq!(state.keep(Service::Alist, 1), None);
    assert_eq!(state.keep(Service::Bore, 2), None);
    assert_eq!(state.keep(Service::Alist, 3), Some(1));
    assert_eq!(state.alist_child, Some(3));
    assert_eq!(state.bore_child, Some(2));
}

#[test]
fn each_service_is_stopped_by_itself() {
    let mut state = AppState { alist_child: Some(1), bore_child: Some(2) };
    assert_eq!(kill_alist(&mut state), Some(1));
    assert_eq!(state.bore_child, Some(2));
    assert_eq!(kill_alist(&mut state), None);
    assert_eq!(kill_bore(&mut state), Some(2));
    assert_eq!(kill_bore(&mut state), None);
}

#[test]
fn all_services_are_stopped_in_order() {
    let mut state = AppState { alist_child: Some(1), bore_child: Some(2) };
    assert_eq!(cmd_stop_services(&mut state), vec![1, 2]);
    assert!(state.alist_child.is_none() && state.bore_child.is_none());
    assert!(cmd_stop_services(&mut state).is_empty());

    let mut state = AppState { alist_child: None, bore_child: Some(2) };
    assert_eq!(state.drain(), vec![2]);
}

#[test]
fn quitting_stops_everything_and_exits_well() {
    let mut state = AppState { alist_child: Some(1), bore_child: Some(2) };
    assert_eq!(cmd_quit_app(&mut state), (vec![1, 2], 0));
    assert!(state.alist_child.is_none() && state.bore_child.is_none());
}

#[test]
fn opening_an_address_reports_what_went_wrong() {
    assert_eq!(cmd_open_url(Ok(())), Ok(()));
    assert_eq!(
        cmd_open_url(Err("no browser".to_string())),
        Err("打开 URL 失败: no browser".to_string())
    );
}

#[test]
fn the_executables_of_the_services() {
    assert_eq!(locating(cmd_start_alist()).binary(true), "alist.exe");
    assert_eq!(locating(cmd_start_alist()).binary(false), "alist");
    assert_eq!(locating(cmd_start_bore()).binary(true), "bore.exe");
    assert_eq!(locating(cmd_start_bore()).binary(false), "bore");
}

#[test]
fn the_arguments_of_the_services() {
    assert_eq!(spawning(cmd_start_alist()).arguments(), vec!["server"]);
    assert_eq!(
        spawning(cmd_start_bore()).arguments(),
        vec!["local", "5244", "--to", "bore.pub"]
    );
}

#[test]
fn a_start_goes_through_its_steps() {
    for launch in [cmd_start_alist(), cmd_start_bore()] {
        let keeping = match spawning(launch).answer(Ok(true)) {
            Launch::Keep(keeping) => keeping,
            _ => panic!("not about to be noted"),
        };
        let watching = match keeping.answer(Ok(())) {
            Launch::Watch(watching) => watching,
            _ => panic!("not watched"),
        };
        assert_eq!(watching.limit_secs(), 20);
    }
}

#[test]
fn a_start_fails_for_the_first_obstacle() {
    let nowhere = locating(cmd_start_alist()).answer(Err("nowhere".to_string()));
    assert_eq!(failure(nowhere), "nowhere");
    let refused = spawning(cmd_start_alist()).answer(Err("refused".to_string()));
    assert_eq!(failure(refused), "启动 AList 失败: refused");
    let refused = spawning(cmd_start_bore()).answer(Err("refused".to_string()));
    assert_eq!(failure(refused), "启动 bore 失败: refused");
    assert_eq!(failure(spawning(cmd_start_bore()).answer(Ok(false))), "无法获取 stdout");
    match spawning(cmd_start_alist()).answer(Ok(true)) {
        Launch::Keep(keeping) => {
            assert_eq!(failure(keeping.answer(Err("poisoned".to_string()))), "poisoned");
        }
        _ => panic!("not about to be noted"),
    }
}
