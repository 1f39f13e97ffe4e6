//! The two services: which of them run, and the steps that start and stop them.

use vstd::prelude::*;

#[allow(unused_imports)]
use crate::config::{alist_binary, bore_binary, ALIST_PORT, BORE_HOST, STARTUP_TIMEOUT_SECS};
use crate::output::result_view;
#[allow(unused_imports)]
use crate::text::{decimal, decimal_of, digit, joined};

verus! {

/// One of the programs that the tool runs.
#[derive(Clone, Copy, Debug, PartialEq, Eq, Structural)]
pub enum Service {
    /// The file server.
    Alist,
    /// The tunnel that makes the file server reachable from outside.
    Bore,
}

/// The running services; `C` is a handle on a running program.
pub struct AppState<C> {
    pub alist_child: Option<C>,
    pub bore_child: Option<C>,
}

/// The handles that `alist` and `bore` hold, that of AList first.
pub open spec fn handles<C>(alist: Option<C>, bore: Option<C>) -> Seq<C> {
    let first = match alist {
        Some(child) => seq![child],
        None => Seq::empty(),
    };
    match bore {
        Some(child) => first.push(child),
        None => first,
    }
}

impl<C> AppState<C> {
    /// Nothing runs.
    pub fn new() -> (state: Self)
        ensures
            state.alist_child is None,
            state.bore_child is None,
    {
        AppState { alist_child: None, bore_child: None }
    }

    /// The handle on a service, if it runs.
    pub open spec fn child(&self, service: Service) -> Option<C> {
        match service {
            Service::Alist => self.alist_child,
            Service::Bore => self.bore_child,
        }
    }

    /// Notes that a service runs. A handle that was there before is handed out.
    pub fn keep(&mut self, service: Service, child: C) -> (before: Option<C>)
        ensures
            before == old(self).child(service),
            before == (match service {
                Service::Alist => old(self).alist_child,
                Service::Bore => old(self).bore_child,
            }),
            *final(self) == (match service {
                Service::Alist => AppState {
                    alist_child: Some(child),
                    bore_child: old(self).bore_child,
                },
                Service::Bore => AppState {
                    alist_child: old(self).alist_child,
                    bore_child: Some(child),
                },
            }),
    {
        match service {
            Service::Alist => {
                let before = self.alist_child.take();
                self.alist_child = Some(child);
                before
            },
            Service::Bore => {
                let before = self.bore_child.take();
                self.bore_child = Some(child);
                before
            },
        }
    }

    /// Hands out every handle, to be stopped in this order, and forgets them.
    pub fn drain(&mut self) -> (children: Vec<C>)
        ensures
            children@ == handles(old(self).alist_child, old(self).bore_child),
            final(self).alist_child is None,
            final(self).bore_child is None,
    {
        let mut children: Vec<C> = Vec::new();
        if let Some(child) = self.alist_child.take() {
            children.push(child);
        }
        if let Some(child) = self.bore_child.take() {
            children.push(child);
        }
        children
    }
}

/// Hands out the handle on AList, to be stopped, and forgets it.
pub fn kill_alist<C>(state: &mut AppState<C>) -> (child: Option<C>)
    ensures
        child == old(state).alist_child,
        final(state).alist_child is None,
        final(state).bore_child == old(state).bore_child,
{
    state.alist_child.take()
}

/// Hands out the handle on bore, to be stopped, and forgets it.
pub fn kill_bore<C>(state: &mut AppState<C>) -> (child: Option<C>)
    ensures
        child == old(state).bore_child,
        final(state).bore_child is None,
        final(state).alist_child == old(state).alist_child,
{
    state.bore_child.take()
}

/// Stops all services: hands out every handle, to be stopped in this order.
pub fn cmd_stop_services<C>(state: &mut AppState<C>) -> (children: Vec<C>)
    ensures
        children@ == handles(old(state).alist_child, old(state).bore_child),
        final(state).alist_child is None,
        final(state).bore_child is None,
{
    state.drain()
}

/// Ends the application: hands out every handle, to be stopped in this order, and
/// the code to exit with after that.
pub fn cmd_quit_app<C>(state: &mut AppState<C>) -> (end: (Vec<C>, i32))
    ensures
        end.0@ == handles(old(state).alist_child, old(state).bore_child),
        end.1 == 0,
        final(state).alist_child is None,
        final(state).bore_child is None,
{
    (state.drain(), 0)
}

/// Reports what came of opening an address in the browser.
pub fn cmd_open_url(opened: Result<(), String>) -> (report: Result<(), String>)
    ensures
        result_view(report) == (match result_view(opened) {
            Ok(_) => Ok(()),
            Err(why) => Err("打开 URL 失败: "@ + why),
        }),
        opened is Ok <==> report is Ok,
        opened matches Err(why) ==> report matches Err(told) && told@ == "打开 URL 失败: "@ + why@,
{
    match opened {
        Ok(_) => Ok(()),
        Err(why) => Err(joined("打开 URL 失败: ", why.as_str())),
    }
}

/// What is reported of a program whose output cannot be had.
pub const NO_STDOUT: &'static str = "无法获取 stdout";

/// How much longer than a service may take its reader is waited for, in seconds.
pub const READER_GRACE_SECS: u64 = 5;

/// What comes next in a start of a service.
pub enum Launch {
    /// Find the executable.
    Locate(Locating),
    /// Run it, with its output piped.
    Spawn(Spawning),
    /// Note that it runs.
    Keep(Keeping),
    /// Read its output, for a limited time.
    Watch(Watching),
    /// Nothing: the start has failed.
    Fail(String),
}

/// A start that waits for the executable to be found.
pub struct Locating {
    pub service: Service,
}

/// A start that waits for the program to run.
pub struct Spawning {
    pub service: Service,
}

/// A start that waits for the running program to be noted.
pub struct Keeping {
    pub service: Service,
}

/// A start that waits for the output of the program.
pub struct Watching {
    pub service: Service,
}

/// [`Launch`] with its text as a sequence of characters.
pub enum LaunchView {
    Locate(Service),
    Spawn(Service),
    Keep(Service),
    Watch(Service),
    Fail(Seq<char>),
}

impl View for Launch {
    type V = LaunchView;

    open spec fn view(&self) -> LaunchView {
        match self {
            Launch::Locate(locating) => LaunchView::Locate(locating.service),
            Launch::Spawn(spawning) => LaunchView::Spawn(spawning.service),
            Launch::Keep(keeping) => LaunchView::Keep(keeping.service),
            Launch::Watch(watching) => LaunchView::Watch(watching.service),
            Launch::Fail(why) => LaunchView::Fail(why@),
        }
    }
}

/// The arguments with which a service is run.
pub open spec fn service_arguments(service: Service) -> Seq<Seq<char>> {
    match service {
        Service::Alist => seq!["server"@],
        Service::Bore => seq!["local"@, decimal(ALIST_PORT as nat), "--to"@, BORE_HOST@],
    }
}

/// What the report of a program that cannot be run begins with.
pub open spec fn spawn_failure(service: Service) -> Seq<char> {
    match service {
        Service::Alist => "启动 AList 失败: "@,
        Service::Bore => "启动 bore 失败: "@,
    }
}

/// How a start goes on once the executable was looked for.
pub open spec fn located(service: Service, found: Result<(), Seq<char>>) -> LaunchView {
    match found {
        Ok(_) => LaunchView::Spawn(service),
        Err(why) => LaunchView::Fail(why),
    }
}

/// How a start goes on once the program was run; the flag tells whether its
/// output can be had.
pub open spec fn spawned(service: Service, run: Result<bool, Seq<char>>) -> LaunchView {
    match run {
        Ok(true) => LaunchView::Keep(service),
        Ok(false) => LaunchView::Fail(NO_STDOUT@),
        Err(why) => LaunchView::Fail(spawn_failure(service) + why),
    }
}

/// How a start goes on once the program was noted.
pub open spec fn kept(service: Service, noted: Result<(), Seq<char>>) -> LaunchView {
    match noted {
        Ok(_) => LaunchView::Watch(service),
        Err(why) => LaunchView::Fail(why),
    }
}

/// Begins to start AList.
pub fn cmd_start_alist() -> (launch: Launch)
    ensures
        launch@ == LaunchView::Locate(Service::Alist),
{
    Launch::Locate(Locating { service: Service::Alist })
}

/// Begins to start bore.
pub fn cmd_start_bore() -> (launch: Launch)
    ensures
        launch@ == LaunchView::Locate(Service::Bore),
{
    Launch::Locate(Locating { service: Service::Bore })
}

impl Locating {
    /// The name of the executable, on Windows or elsewhere.
    pub fn binary(&self, windows: bool) -> (name: &'static str)
        ensures
            name@ == (match (self.service, windows) {
                (Service::Alist, true) => "alist.exe"@,
                (Service::Alist, false) => "alist"@,
                (Service::Bore, true) => "bore.exe"@,
                (Service::Bore, false) => "bore"@,
            }),
    {
        match self.service {
            Service::Alist => alist_binary(windows),
            Service::Bore => bore_binary(windows),
        }
    }

    /// Goes on with whether the executable was found.
    pub fn answer(self, found: Result<(), String>) -> (launch: Launch)
        ensures
            launch@ == located(self.service, result_view(found)),
    {
        match found {
            Ok(_) => Launch::Spawn(Spawning { service: self.service }),
            Err(why) => Launch::Fail(why),
        }
    }
}

impl Spawning {
    /// The arguments to run the program with.
    pub fn arguments(&self) -> (arguments: Vec<String>)
        ensures
            arguments.deep_view() == service_arguments(self.service),
    {
        let mut arguments: Vec<String> = Vec::new();
        match self.service {
            Service::Alist => {
                arguments.push("server".to_string());
            },
            Service::Bore => {
                arguments.push("local".to_string());
                arguments.push(decimal_of(ALIST_PORT));
                arguments.push("--to".to_string());
                arguments.push(BORE_HOST.to_string());
            },
        }
        assert(arguments.deep_view() =~= service_arguments(self.service));
        arguments
    }

    /// Goes on with whether the program runs, and then whether its output can be
    /// had.
    pub fn answer(self, run: Result<bool, String>) -> (launch: Launch)
        ensures
            launch@ == spawned(self.service, result_view(run)),
    {
        match run {
            Ok(true) => Launch::Keep(Keeping { service: self.service }),
            Ok(false) => Launch::Fail(NO_STDOUT.to_string()),
            Err(why) => match self.service {
                Service::Alist => Launch::Fail(joined("启动 AList 失败: ", why.as_str())),
                Service::Bore => Launch::Fail(joined("启动 bore 失败: ", why.as_str())),
            },
        }
    }
}

impl Keeping {
    /// Goes on with whether the running program could be noted.
    pub fn answer(self, noted: Result<(), String>) -> (launch: Launch)
        ensures
            launch@ == kept(self.service, result_view(noted)),
    {
        match noted {
            Ok(_) => Launch::Watch(Watching { service: self.service }),
            Err(why) => Launch::Fail(why),
        }
    }
}

impl Watching {
    /// How long to wait for the reader of the output, in seconds.
    pub fn limit_secs(&self) -> (secs: u64)
        ensures
            secs == STARTUP_TIMEOUT_SECS + READER_GRACE_SECS,
            secs == 20,
    {
        STARTUP_TIMEOUT_SECS + READER_GRACE_SECS
    }
}

/// A start comes to watch the output of its service exactly where the executable
/// was found, runs, has its output piped and was noted; otherwise it fails for the
/// first of these that did not come about.
pub proof fn launch_fails_for_first_obstacle(
    service: Service,
    found: Result<(), Seq<char>>,
    run: Result<bool, Seq<char>>,
    noted: Result<(), Seq<char>>,
)
    ensures
        (match located(service, found) {
            LaunchView::Spawn(service) => match spawned(service, run) {
                LaunchView::Keep(service) => kept(service, noted),
                other => other,
            },
            other => other,
        }) == (match (found, run, noted) {
            (Ok(_), Ok(true), Ok(_)) => LaunchView::Watch(service),
            (Err(why), _, _) => LaunchView::Fail(why),
            (Ok(_), Err(why), _) => LaunchView::Fail(
                (if service == Service::Alist {
                    "启动 AList 失败: "@
                } else {
                    "启动 bore 失败: "@
                }) + why,
            ),
            (Ok(_), Ok(false), _) => LaunchView::Fail("无法获取 stdout"@),
            (Ok(_), Ok(true), Err(why)) => LaunchView::Fail(why),
        }),
{
}

/// Stopping all services stops AList and then bore, as stopping the one and then
/// the other does.
pub proof fn stopping_all_is_stopping_each<C>(alist: Option<C>, bore: Option<C>)
    ensures
        handles(alist, bore) == handles(alist, None) + handles(None, bore),
        handles(alist, bore).len() == (if alist is Some {
            1int
        } else {
            0
        }) + (if bore is Some {
            1int
        } else {
            0
        }),
{
    assert(handles(alist, bore) =~= handles(alist, None) + handles(None, bore));
}

/// Once nothing runs, stopping the services stops nothing more.
pub proof fn stopping_again_stops_nothing<C>(state: AppState<C>)
    requires
        state.alist_child is None,
        state.bore_child is None,
    ensures
        handles(state.alist_child, state.bore_child) == Seq::<C>::empty(),
{
}

/// What stopping all services hands out holds the handle on each service that runs,
/// once, that on AList first, and nothing else.
pub proof fn every_running_service_is_stopped<C>(state: AppState<C>, children: Seq<C>)
    requires
        children == handles(state.alist_child, state.bore_child),
    ensures
        match (state.alist_child, state.bore_child) {
            (Some(alist), Some(bore)) => children.len() == 2 && children[0] == alist && children[1]
                == bore,
            (Some(alist), None) => children.len() == 1 && children[0] == alist,
            (None, Some(bore)) => children.len() == 1 && children[0] == bore,
            (None, None) => children.len() == 0,
        },
{
}

/// A start begins with the search for the executable of its service.
pub proof fn start_begins_with_search(alist: Launch, bore: Launch)
    requires
        alist@ == LaunchView::Locate(Service::Alist),
        bore@ == LaunchView::Locate(Service::Bore),
    ensures
        alist matches Launch::Locate(locating) && locating.service == Service::Alist,
        bore matches Launch::Locate(locating) && locating.service == Service::Bore,
{
}

/// A start goes on to run what was found, and otherwise fails with the words of the
/// search.
pub proof fn found_executable_is_run(
    locating: Locating,
    found: Result<(), String>,
    launch: Launch,
)
    requires
        launch@ == located(locating.service, result_view(found)),
    ensures
        match found {
            Ok(_) => launch matches Launch::Spawn(next) && next.service == locating.service,
            Err(why) => launch matches Launch::Fail(told) && told@ == why@,
        },
{
}

/// A start goes on to note a program that runs with its output piped; it fails with
/// the words of the system behind its own where the program does not run.
pub proof fn running_program_is_noted(
    spawning: Spawning,
    run: Result<bool, String>,
    launch: Launch,
)
    requires
        launch@ == spawned(spawning.service, result_view(run)),
    ensures
        match run {
            Ok(piped) => if piped {
                launch matches Launch::Keep(next) && next.service == spawning.service
            } else {
                launch matches Launch::Fail(told) && told@ == "无法获取 stdout"@
            },
            Err(why) => launch matches Launch::Fail(told) && told@ == (match spawning.service {
                Service::Alist => "启动 AList 失败: "@,
                Service::Bore => "启动 bore 失败: "@,
            }) + why@,
        },
{
}

/// A start goes on to watch a program that was noted, and otherwise fails with the
/// words it was given.
pub proof fn noted_program_is_watched(
    keeping: Keeping,
    noted: Result<(), String>,
    launch: Launch,
)
    requires
        launch@ == kept(keeping.service, result_view(noted)),
    ensures
        match noted {
            Ok(_) => launch matches Launch::Watch(next) && next.service == keeping.service,
            Err(why) => launch matches Launch::Fail(told) && told@ == why@,
        },
{
}

/// AList is run as a server, and bore as a tunnel from the port of AList to the
/// relay.
pub proof fn services_run_with_their_arguments(spawning: Spawning, arguments: Vec<String>)
    requires
        arguments.deep_view() == service_arguments(spawning.service),
    ensures
        match spawning.service {
            Service::Alist => arguments.len() == 1 && arguments[0]@ == "server"@,
            Service::Bore => {
                &&& arguments.len() == 4
                &&& arguments[0]@ == "local"@
                &&& arguments[1]@ == "5244"@
                &&& arguments[2]@ == "--to"@
                &&& arguments[3]@ == "bore.pub"@
            },
        },
{
    reveal_with_fuel(decimal, 5);
    reveal_strlit("5244");
    assert(decimal(5244) =~= "5244"@);
    assert(arguments.deep_view().len() == arguments.len());
    assert forall|i: int| 0 <= i < arguments.len() implies #[trigger] arguments[i]@
        == arguments.deep_view()[i] by {}
}

} // verus!
