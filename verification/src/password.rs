//! The password of AList, as it is kept in a file.

use vstd::prelude::*;
#[allow(unused_imports)]
use vstd::string::*;
#[allow(unused_imports)]
use vstd::utf8::{decode_utf8, encode_utf8, valid_utf8};

#[allow(unused_imports)]
use crate::alist::{alist_conclusion, alist_success, or_empty, AlistNextView, AlistVerdictView};
#[allow(unused_imports)]
use crate::base64::{
    all_symbols, alphabet, base64_decode, base64_encode, decode_inverts_encode, decode_reads_bits,
    decode_refuses_other_characters, decoded, encode_writes_bits, encoded, encoded_hides_text,
    same_bits, spelled, spells, symbols_decoded, unpadded,
};
#[allow(unused_imports)]
use crate::clock::{is_timestamp, local_time_text, TIMESTAMP_FORMAT};
use crate::config::PASSWORD_FILE;
#[allow(unused_imports)]
use crate::output::{result_view, ReadingView};

verus! {

/// What the file says about itself.
pub const PASSWORD_NOTE: &'static str = "AList 初始密码（base64编码），登录后请立即修改";

/// What is reported where there is no data directory.
pub const NO_DATA_DIR: &'static str = "无法获取数据目录";

/// A password as it is kept.
pub struct PasswordData {
    /// The password in Base64; plain in files that old versions wrote.
    pub password: String,
    /// When it was saved, in local time.
    pub saved_at: String,
    /// A note to who opens the file.
    pub note: String,
}

/// [`PasswordData`] with its texts as sequences of characters.
pub struct PasswordDataView {
    pub password: Seq<char>,
    pub saved_at: Seq<char>,
    pub note: Seq<char>,
}

impl DeepView for PasswordData {
    type V = PasswordDataView;

    open spec fn deep_view(&self) -> PasswordDataView {
        PasswordDataView {
            password: self.password@,
            saved_at: self.saved_at@,
            note: self.note@,
        }
    }
}

/// What is kept of `password`, saved at the time that `saved_at` tells.
pub open spec fn record_of(password: Seq<char>, saved_at: Seq<char>) -> PasswordDataView {
    PasswordDataView {
        password: encoded(encode_utf8(password)),
        saved_at,
        note: PASSWORD_NOTE@,
    }
}

/// The password that a record keeps: its field decoded, or as it stands where it
/// is no Base64 of a text.
pub open spec fn password_in(record: PasswordDataView) -> Seq<char> {
    match decoded(record.password) {
        Some(password) => password,
        None => record.password,
    }
}

/// The file that keeps the password, as its directory and its name; there is none
/// without a data directory.
pub fn password_file_path<P>(app_data_dir: Option<P>) -> (path: Result<(P, &'static str), String>)
    ensures
        match (path, app_data_dir) {
            (Ok((dir, name)), Some(app_data)) => dir == app_data && name@ == PASSWORD_FILE@,
            (Err(why), None) => why@ == NO_DATA_DIR@,
            _ => false,
        },
{
    match app_data_dir {
        Some(dir) => Ok((dir, PASSWORD_FILE)),
        None => Err(NO_DATA_DIR.to_string()),
    }
}

/// Makes what is kept of `password`, saved at the time that `saved_at` tells.
pub fn password_record(password: &str, saved_at: String) -> (record: PasswordData)
    ensures
        record.deep_view() == record_of(password@, saved_at@),
{
    PasswordData {
        password: base64_encode(password),
        saved_at,
        note: PASSWORD_NOTE.to_string(),
    }
}

/// Makes what is kept of `password`, saved now.
pub fn save_password(password: &str) -> (record: PasswordData)
    ensures
        record.deep_view() == record_of(password@, record.saved_at@),
        is_timestamp(record.saved_at@),
{
    password_record(password, local_time_text(TIMESTAMP_FORMAT))
}

/// The password in what was read from the file, if anything was.
pub fn load_password(record: Option<PasswordData>) -> (password: Option<String>)
    ensures
        password.deep_view() == (match record.deep_view() {
            Some(record) => Some(password_in(record)),
            None => None,
        }),
{
    match record {
        Some(record) => match base64_decode(record.password.as_str()) {
            Some(password) => Some(password),
            None => Some(record.password),
        },
        None => None,
    }
}

/// The time in what was read from the file, if anything was.
pub fn load_saved_time(record: Option<PasswordData>) -> (saved_at: Option<String>)
    ensures
        saved_at.deep_view() == (match record.deep_view() {
            Some(record) => Some(record.saved_at),
            None => None,
        }),
        match (record, saved_at) {
            (Some(record), Some(text)) => text@ == record.saved_at@,
            (None, None) => true,
            _ => false,
        },
{
    match record {
        Some(record) => Some(record.saved_at),
        None => None,
    }
}

/// The saved password, when it was saved, and whether this is the first run.
///
/// `exists` tells whether the file is there, or why there is no path to it. The
/// file is read once for the password and once for the time; a record is `None`
/// where that reading failed.
pub fn cmd_get_password(
    exists: Result<bool, String>,
    for_password: Option<PasswordData>,
    for_time: Option<PasswordData>,
) -> (saved: Result<(String, String, bool), String>)
    ensures
        result_view(saved) == Ok::<(Seq<char>, Seq<char>, bool), Seq<char>>(
            (
                match for_password.deep_view() {
                    Some(record) => password_in(record),
                    None => Seq::empty(),
                },
                match for_time.deep_view() {
                    Some(record) => record.saved_at,
                    None => Seq::empty(),
                },
                result_view(exists) != Ok::<bool, Seq<char>>(true),
            ),
        ),
        saved matches Ok((password, saved_at, is_first)) && {
            &&& is_first <==> !(exists matches Ok(there) && there)
            &&& for_password is None ==> password@.len() == 0
            &&& for_time is None ==> saved_at@.len() == 0
            &&& for_time matches Some(record) ==> saved_at@ == record.saved_at@
        },
{
    let is_first = match exists {
        Ok(exists) => !exists,
        Err(_) => true,
    };
    let password = match load_password(for_password) {
        Some(password) => password,
        None => String::new(),
    };
    let saved_at = match load_saved_time(for_time) {
        Some(saved_at) => saved_at,
        None => String::new(),
    };
    Ok((password, saved_at, is_first))
}

/// A password that was saved is read back as it was, whatever it is and whenever
/// it was saved.
pub proof fn saved_password_reads_back(password: Seq<char>, saved_at: Seq<char>)
    ensures
        password_in(record_of(password, saved_at)) == password,
        record_of(password, saved_at).saved_at == saved_at,
{
    decode_inverts_encode(password);
}

/// No password but the empty one is kept as it stands.
pub proof fn password_is_not_kept_plain(password: Seq<char>, saved_at: Seq<char>)
    requires
        password.len() > 0,
    ensures
        record_of(password, saved_at).password != password,
{
    encoded_hides_text(password);
}

/// A plain password from an old version is read as it stands wherever it is not
/// the Base64 of a text, for either reason: a character that Base64 does not use,
/// other than padding at its end, or bytes that are no UTF-8.
pub proof fn plain_password_reads_as_it_stands(record: PasswordDataView)
    requires
        !all_symbols(unpadded(record.password)) || !valid_utf8(
            symbols_decoded(unpadded(record.password)),
        ),
    ensures
        password_in(record) == record.password,
{
}

/// A kept field with a character that is not in the alphabet of Base64, before or
/// at one that is no padding, is the password itself.
pub proof fn field_of_other_characters_is_the_password(
    record: PasswordData,
    password: Option<String>,
    i: int,
    j: int,
)
    requires
        password.deep_view() == Some(password_in(record.deep_view())),
        0 <= i <= j < record.password@.len(),
        !alphabet().contains(record.password@[i]),
        record.password@[j] != '=',
    ensures
        password matches Some(read) && read@ == record.password@,
{
    decode_refuses_other_characters(record.password@, i, j);
}

/// A kept field of symbols and padding is the password itself where its bits are no
/// UTF-8, and stands for the text whose UTF-8 has these bits where they are.
pub proof fn field_of_symbols_stands_for_its_bits(
    record: PasswordData,
    password: Option<String>,
    values: Seq<int>,
    pads: nat,
    bytes: Seq<u8>,
)
    requires
        password.deep_view() == Some(password_in(record.deep_view())),
        record.password@ == spelled(values, pads),
        same_bits(values, bytes),
    ensures
        password matches Some(read) && read@ == (if valid_utf8(bytes) {
            decode_utf8(bytes)
        } else {
            record.password@
        }),
{
    decode_reads_bits(values, pads, bytes);
}

/// What is kept of a password is the spelling of the bits of its UTF-8, the time as
/// it was given, and the note.
pub proof fn record_keeps_bits(
    password: Seq<char>,
    saved_at: Seq<char>,
    record: PasswordData,
    values: Seq<int>,
    pads: nat,
)
    requires
        record.deep_view() == record_of(password, saved_at),
        spells(values, pads, encode_utf8(password)),
    ensures
        record.password@ == spelled(values, pads),
        record.saved_at@ == saved_at,
        record.note@ == "AList 初始密码（base64编码），登录后请立即修改"@,
{
    encode_writes_bits(values, pads, encode_utf8(password));
}

/// A record that was made of a password, read again, gives the password and the
/// time it was made with.
pub proof fn saved_record_is_shown(
    password: Seq<char>,
    saved_at: Seq<char>,
    record: PasswordData,
    read: Option<String>,
    time: Option<String>,
)
    requires
        record.deep_view() == record_of(password, saved_at),
        read.deep_view() == Some(password_in(record.deep_view())),
        time.deep_view() == Some(record.deep_view().saved_at),
    ensures
        read matches Some(text) && text@ == password,
        time matches Some(text) && text@ == saved_at && text@ == record.saved_at@,
{
    saved_password_reads_back(password, saved_at);
}

/// A password that AList announces in one start is saved, and is handed out by
/// every later start that announces none.
pub proof fn password_survives_restart(password: Seq<char>, saved_at: Seq<char>)
    requires
        password.len() > 0,
    ensures
        alist_conclusion(ReadingView::Ended(Ok((password, true)))) == AlistNextView::Finish(
            (AlistVerdictView { kill: false, save: true, result: Ok((password, true)) }),
        ),
        alist_conclusion(ReadingView::Ended(Ok((Seq::empty(), false)))) == AlistNextView::Load(false),
        alist_success(or_empty(Some(password_in(record_of(password, saved_at)))), false) == (
        AlistVerdictView { kill: false, save: false, result: Ok((password, false)) }),
{
    saved_password_reads_back(password, saved_at);
}

} // verus!
