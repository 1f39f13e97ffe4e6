use alist_bore::alist::{announced_password, conclude_alist, AlistNext, AlistScan, AlistStep};
use alist_bore::bore::{conclude_bore, public_url, scan_bore, BoreStep};
use alist_bore::output::{Output, Reading};
use alist_bore::wait::{spawn_and_wait_output, Poll, Reader, Waiting};

const SERVING: &str = "start HTTP server @ 0.0.0.0:5244";

fn line(text: &str) -> Output {
    Output::Line(text.to_string())
}

fn follow(outputs: Vec<Output>) -> Option<Result<(String, bool), String>> {
    let mut scan = AlistScan::new();
    for output in outputs {
        match scan.step(output) {
            AlistStep::Wait(next) => scan = next,
            AlistStep::Ready(password, is_new) => return Some(Ok((password, is_new))),
            AlistStep::Failed(why) => return Some(Err(why)),
        }
    }
    None
}

fn follow_bore(outputs: Vec<Output>) -> Option<Result<String, String>> {
    for output in outputs {
        match scan_bore(output) {
            BoreStep::Wait => {}
            BoreStep::Ready(url) => return Some(Ok(url)),
            BoreStep::Failed(why) => return Some(Err(why)),
        }
    }
    None
}

fn announced(text: &str) -> Option<String> {
    announced_password(text)
}

#[test]
fn a_line_announces_a_password() {
    let text = "INFO[2024-01-01 00:00:00] Successfully created the admin user and the initial admin password is: x9Yz";
    assert_eq!(announced(text), Some("x9Yz".to_string()));
    assert_eq!(announced("initial admin password is:x9Yz"), Some("x9Yz".to_string()));
    assert_eq!(announced("initial password is: old1"), Some("old1".to_string()));
    assert_eq!(announced("password is: x9Yz"), None);
    assert_eq!(announced(""), None);
}

#[test]
fn the_white_space_around_a_password_is_dropped() {
    assert_eq!(announced("initial admin password is: \t a b \r"), Some("a b".to_string()));
    let spaces = "\u{9}\u{a}\u{b}\u{c}\u{d}\u{20}\u{85}\u{a0}\u{1680}\u{2000}\u{2001}\u{2002}\u{2003}\u{2004}\u{2005}\u{2006}\u{2007}\u{2008}\u{2009}\u{200a}\u{2028}\u{2029}\u{202f}\u{205f}\u{3000}";
    let text = format!("initial admin password is:{}p{}", spaces, spaces);
    assert_eq!(announced(&text), Some("p".to_string()));
    // A zero width space is none.
    let text = "initial admin password is: \u{200b}p".to_string();
    assert_eq!(announced(&text), Some("\u{200b}p".to_string()));
}

#[test]
fn white_space_is_what_the_standard_library_takes_for_it() {
    for code in 0..0x11_0000u32 {
        if let Some(c) = char::from_u32(code) {
            if c.is_whitespace() || code % 257 == 0 {
                let text = format!("initial password is:{}p{}", c, c);
                let expected = format!("{}p{}", c, c).trim().to_string();
                assert_eq!(announced(&text), Some(expected));
            }
        }
    }
}

#[test]
fn an_empty_announcement_counts_for_nothing() {
    assert_eq!(announced("initial admin password is:"), None);
    assert_eq!(announced("initial admin password is:   "), None);
    // The mark of older releases is not looked for where the other one stands.
    assert_eq!(announced("initial password is: old1 initial admin password is:"), None);
}

#[test]
fn the_first_mark_in_a_line_counts() {
    assert_eq!(
        announced("initial admin password is: a initial admin password is: b"),
        Some("a initial admin password is: b".to_string())
    );
    assert_eq!(
        announced("initial password is: old1 initial admin password is: new1"),
        Some("new1".to_string())
    );
}

#[test]
fn marks_are_found_where_the_standard_library_finds_them() {
    let mark = "initial admin password is:";
    let texts = [
        "iinitial admin password is: p",
        "initial admin initial admin password is: p",
        "密码 initial admin password is: 密码",
        "initial admin password is",
        "initial admin password is: initial admin password is:",
    ];
    for text in texts {
        let expected = text.find(mark).map(|at| text[at + mark.len()..].trim().to_string());
        assert_eq!(announced(text), expected.filter(|password| !password.is_empty()));
    }
}

#[test]
fn alist_is_ready_once_it_serves() {
    let outputs = vec![line("reading config"), line(SERVING), line("never read")];
    assert_eq!(follow(outputs), Some(Ok((String::new(), false))));
    let outputs = vec![line("initial admin password is: p1"), line(SERVING)];
    assert_eq!(follow(outputs), Some(Ok(("p1".to_string(), true))));
    assert_eq!(follow(vec![line("initial admin password is: p1")]), None);
}

#[test]
fn the_last_announcement_counts() {
    let outputs = vec![
        line("initial admin password is: p1"),
        line("initial password is: p2"),
        line("initial admin password is:  "),
        line(SERVING),
    ];
    assert_eq!(follow(outputs), Some(Ok(("p2".to_string(), true))));
    let both = format!("initial admin password is: p3 {}", SERVING);
    let outputs = vec![line("initial admin password is: p1"), line(&both)];
    let p3 = format!("p3 {}", SERVING);
    assert_eq!(follow(outputs), Some(Ok((p3, true))));
}

#[test]
fn an_alist_that_goes_away_is_reported() {
    let gone = Some(Err("AList 进程异常退出".to_string()));
    let outputs = vec![line("initial admin password is: p1"), Output::Closed];
    assert_eq!(follow(outputs), gone);
    assert_eq!(follow(vec![Output::Broken, line(SERVING)]), gone);
}

fn finished(next: AlistNext) -> (bool, bool, Result<(String, bool), String>) {
    match next {
        AlistNext::Finish(verdict) => (verdict.kill, verdict.save, verdict.result),
        AlistNext::Load(_) => panic!("not finished"),
    }
}

#[test]
fn a_new_password_is_saved() {
    let next = conclude_alist(Reading::Ended(Ok(("p1".to_string(), true))));
    assert_eq!(finished(next), (false, true, Ok(("p1".to_string(), true))));
}

#[test]
fn a_saved_password_is_handed_out_and_not_saved_again() {
    match conclude_alist(Reading::Ended(Ok((String::new(), false)))) {
        AlistNext::Load(loading) => {
            let verdict = loading.answer(Some("kept".to_string()));
            assert!(!verdict.kill && !verdict.save);
            assert_eq!(verdict.result, Ok(("kept".to_string(), false)));
        }
        AlistNext::Finish(_) => panic!("nothing was looked up"),
    }
    match conclude_alist(Reading::Ended(Ok((String::new(), false)))) {
        AlistNext::Load(loading) => {
            let verdict = loading.answer(None);
            assert!(!verdict.kill && !verdict.save);
            assert_eq!(verdict.result, Ok((String::new(), false)));
        }
        AlistNext::Finish(_) => panic!("nothing was looked up"),
    }
}

#[test]
fn a_password_that_is_not_new_is_not_saved() {
    let next = conclude_alist(Reading::Ended(Ok(("p1".to_string(), false))));
    assert_eq!(finished(next), (false, false, Ok(("p1".to_string(), false))));
}

#[test]
fn failed_starts_of_alist() {
    assert_eq!(
        finished(conclude_alist(Reading::TimedOut)),
        (true, false, Err("AList 启动超时".to_string()))
    );
    assert_eq!(
        finished(conclude_alist(Reading::Crashed)),
        (false, false, Err("AList 启动线程异常".to_string()))
    );
    assert_eq!(
        finished(conclude_alist(Reading::Ended(Err("gone".to_string())))),
        (true, false, Err("gone".to_string()))
    );
}

#[test]
fn a_line_gives_the_public_address() {
    assert_eq!(
        public_url("INFO bore_cli::client: listening at bore.pub:40123"),
        Some("http://bore.pub:40123".to_string())
    );
    assert_eq!(public_url("listening at bore.pub:7x9"), Some("http://bore.pub:7".to_string()));
    assert_eq!(public_url("listening at bore.pub:"), None);
    assert_eq!(public_url("listening at bore.pub: 7"), None);
    assert_eq!(public_url("listening at bore.pub:x listening at bore.pub:7"), None);
    assert_eq!(public_url("listening at other.host:7"), None);
    // Digits of other scripts are none.
    assert_eq!(public_url("listening at bore.pub:\u{0664}"), None);
}

#[test]
fn the_first_port_counts() {
    let outputs = vec![
        line("connecting"),
        line("listening at bore.pub:x"),
        line("listening at bore.pub:1"),
        line("listening at bore.pub:2"),
    ];
    assert_eq!(follow_bore(outputs), Some(Ok("http://bore.pub:1".to_string())));
    assert_eq!(follow_bore(vec![line("connecting")]), None);
}

#[test]
fn a_bore_that_goes_away_is_reported() {
    let gone = Some(Err("bore 进程异常退出".to_string()));
    assert_eq!(follow_bore(vec![line("connecting"), Output::Closed]), gone);
    assert_eq!(follow_bore(vec![Output::Broken]), gone);
}

#[test]
fn how_starts_of_bore_end() {
    let verdict = conclude_bore(Reading::TimedOut);
    assert_eq!((verdict.kill, verdict.result), (true, Err("bore 穿透超时".to_string())));
    let verdict = conclude_bore(Reading::Crashed);
    assert_eq!((verdict.kill, verdict.result), (false, Err("bore 启动线程异常".to_string())));
    let verdict = conclude_bore(Reading::Ended(Err("gone".to_string())));
    assert_eq!((verdict.kill, verdict.result), (false, Err("gone".to_string())));
    let verdict = conclude_bore(Reading::Ended(Ok("http://bore.pub:1".to_string())));
    assert_eq!((verdict.kill, verdict.result), (false, Ok("http://bore.pub:1".to_string())));
}

fn upper(text: &str) -> Option<String> {
    if text.starts_with("go") {
        Some(text.to_uppercase())
    } else {
        None
    }
}

fn waiting(timeout_secs: u64) -> Waiting {
    match spawn_and_wait_output(Ok(true), timeout_secs) {
        Ok(waiting) => waiting,
        Err(why) => panic!("{}", why),
    }
}

#[test]
fn a_program_that_does_not_run_is_not_waited_for() {
    assert_eq!(
        spawn_and_wait_output(Err("refused".to_string()), 3).err(),
        Some("启动进程失败: refused".to_string())
    );
    assert_eq!(spawn_and_wait_output(Ok(false), 3).err(), Some("无法获取 stdout".to_string()));
    assert_eq!(waiting(3).timeout_secs, 3);
    assert_eq!(waiting(3).deadline_secs(), 5);
}

#[test]
fn a_line_is_waited_for() {
    let waiting = waiting(3);
    assert_eq!(waiting.read(0, 0, line("stay"), &upper), None);
    assert_eq!(waiting.read(3, 0, line("go on"), &upper), Some(Ok("GO ON".to_string())));
    let late = Some(Err("启动超时".to_string()));
    assert_eq!(waiting.read(3, 1, line("go on"), &upper), late);
    assert_eq!(waiting.read(4, 0, line("stay"), &upper), late);
    assert_eq!(waiting.read(4, 0, Output::Broken, &upper), late);
    let gone = Some(Err("进程异常退出".to_string()));
    assert_eq!(waiting.read(2, 999_999_999, Output::Broken, &upper), gone);
    assert_eq!(waiting.read(9, 0, Output::Closed, &upper), gone);
}

#[test]
fn the_reader_is_looked_at_until_the_deadline() {
    let waiting = waiting(3);
    assert!(matches!(waiting.poll(Reader::Running, false), Poll::Sleep(100)));
    match waiting.poll(Reader::Running, true) {
        Poll::Over(kill, result) => {
            assert!(kill);
            assert_eq!(result, Err("启动超时".to_string()));
        }
        Poll::Sleep(_) => panic!("waits on"),
    }
    match waiting.poll(Reader::Finished(Ok("GO".to_string())), true) {
        Poll::Over(kill, result) => {
            assert!(!kill);
            assert_eq!(result, Ok("GO".to_string()));
        }
        Poll::Sleep(_) => panic!("waits on"),
    }
    match waiting.poll(Reader::Panicked, false) {
        Poll::Over(kill, result) => {
            assert!(!kill);
            assert_eq!(result, Err("线程 panic".to_string()));
        }
        Poll::Sleep(_) => panic!("waits on"),
    }
}
