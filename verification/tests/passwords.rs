use alist_bore::alist::{conclude_alist, AlistNext};
use alist_bore::output::Reading;
use alist_bore::password::{
    cmd_get_password, load_password, load_saved_time, password_file_path, password_record,
    save_password, PasswordData,
};

fn record(password: &str) -> Option<PasswordData> {
    Some(PasswordData {
        password: password.to_string(),
        saved_at: "2024-02-29 07:05:09".to_string(),
        note: String::new(),
    })
}

#[test]
fn the_file_is_in_the_data_directory() {
    assert_eq!(password_file_path(Some("data")), Ok(("data", "alist_password.json")));
    assert_eq!(password_file_path::<u8>(None), Err("无法获取数据目录".to_string()));
}

#[test]
fn a_record_keeps_the_encoded_password() {
    let record = password_record("foobar", "2024-02-29 07:05:09".to_string());
    assert_eq!(record.password, "Zm9vYmFy");
    assert_eq!(record.saved_at, "2024-02-29 07:05:09");
    assert_eq!(record.note, "AList 初始密码（base64编码），登录后请立即修改");
}

#[test]
fn a_record_made_now_bears_a_time() {
    let before = chrono::Local::now().naive_local() - chrono::Duration::seconds(2);
    let record = save_password("foobar");
    let after = chrono::Local::now().naive_local() + chrono::Duration::seconds(2);
    assert_eq!(record.password, "Zm9vYmFy");
    assert_eq!(record.note, "AList 初始密码（base64编码），登录后请立即修改");
    assert_eq!(record.saved_at.len(), 19);
    let saved =
        chrono::NaiveDateTime::parse_from_str(&record.saved_at, "%Y-%m-%d %H:%M:%S").unwrap();
    assert!(before <= saved && saved <= after);
}

#[test]
fn saved_passwords_read_back() {
    for password in ["", "x9Yz", "密码 1", "=", "Zm9v", "\u{1F511}\n"] {
        let record = save_password(password);
        assert_eq!(load_password(Some(record)), Some(password.to_string()));
        assert!(password.is_empty() || save_password(password).password != password);
    }
}

#[test]
fn plain_passwords_read_as_they_stand() {
    assert_eq!(load_password(record("x9Yz!")), Some("x9Yz!".to_string()));
    assert_eq!(load_password(record("密码")), Some("密码".to_string()));
    // Base64, but of no text.
    assert_eq!(load_password(record("/w==")), Some("/w==".to_string()));
    // A plain password that happens to be the Base64 of a text.
    assert_eq!(load_password(record("Zm9v")), Some("foo".to_string()));
    assert_eq!(load_password(None), None);
}

#[test]
fn the_time_reads_back() {
    assert_eq!(load_saved_time(record("Zm9v")), Some("2024-02-29 07:05:09".to_string()));
    assert_eq!(load_saved_time(None), None);
}

#[test]
fn what_is_shown_of_the_saved_password() {
    assert_eq!(
        cmd_get_password(Ok(true), record("Zm9v"), record("Zm9v")),
        Ok(("foo".to_string(), "2024-02-29 07:05:09".to_string(), false))
    );
    assert_eq!(
        cmd_get_password(Ok(false), None, None),
        Ok((String::new(), String::new(), true))
    );
    assert_eq!(
        cmd_get_password(Err("no path".to_string()), None, None),
        Ok((String::new(), String::new(), true))
    );
    assert_eq!(
        cmd_get_password(Ok(true), None, record("")),
        Ok((String::new(), "2024-02-29 07:05:09".to_string(), false))
    );
}

#[test]
fn a_password_survives_a_restart() {
    let announced = match conclude_alist(Reading::Ended(Ok(("x9Yz".to_string(), true)))) {
        AlistNext::Finish(verdict) => verdict,
        AlistNext::Load(_) => panic!("a password was announced"),
    };
    assert!(announced.save);
    let (password, _) = announced.result.unwrap();
    let kept = save_password(&password);
    match conclude_alist(Reading::Ended(Ok((String::new(), false)))) {
        AlistNext::Load(loading) => {
            let verdict = loading.answer(load_password(Some(kept)));
            assert_eq!(verdict.result, Ok(("x9Yz".to_string(), false)));
            assert!(!verdict.save);
        }
        AlistNext::Finish(_) => panic!("nothing was announced"),
    }
}
