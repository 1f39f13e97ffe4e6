//! Starting AList: what its output says, and what follows from it.

use vstd::prelude::*;

#[allow(unused_imports)]
use crate::output::{result_view, Output, OutputView, Reading, ReadingView};
#[allow(unused_imports)]
use crate::text::{
    after_first, chars_of, find_after, is_white_space,
    lemma_after_first_split, lemma_occurs_iff_split, lemma_trimmed_blank, lemma_trimmed_of_parts,
    occurs_in, trim_from, trimmed,
};

verus! {

/// What AList prints before a freshly made administrator password.
pub const ADMIN_MARK: &'static str = "initial admin password is:";

/// What older releases of AList print instead.
pub const LEGACY_MARK: &'static str = "initial password is:";

/// What AList prints once it serves.
pub const SERVING_MARK: &'static str = "start HTTP server @ 0.0.0.0:";

/// What is reported of an AList that goes away before it serves.
pub const ALIST_EXITED: &'static str = "AList 进程异常退出";

/// The password that `line` announces: what follows the mark, without the white
/// space around it. The mark of older releases counts only where the other one
/// is not there, and an empty password counts for nothing.
pub open spec fn announced(line: Seq<char>) -> Option<Seq<char>> {
    let rest = match after_first(line, ADMIN_MARK@) {
        Some(rest) => Some(rest),
        None => after_first(line, LEGACY_MARK@),
    };
    match rest {
        Some(rest) => if trimmed(rest).len() > 0 {
            Some(trimmed(rest))
        } else {
            None
        },
        None => None,
    }
}

/// Whether `line` says that AList serves.
pub open spec fn serving(line: Seq<char>) -> bool {
    occurs_in(line, SERVING_MARK@)
}

/// Reads the password out of a line that announces one.
pub fn announced_password(line: &str) -> (password: Option<String>)
    ensures
        password.deep_view() == announced(line@),
{
    let line = chars_of(line);
    let behind = match find_after(&line, ADMIN_MARK) {
        Some(k) => Some(k),
        None => find_after(&line, LEGACY_MARK),
    };
    match behind {
        Some(k) => {
            let password = trim_from(&line, k);
            if password.as_str().is_empty() {
                None
            } else {
                Some(password)
            }
        },
        None => None,
    }
}

/// Follows the output of an AList that is coming up.
pub struct AlistScan {
    found: Option<String>,
}

/// Where following the output has got to.
pub enum AlistStep {
    /// AList does not serve yet: go on with the next output.
    Wait(AlistScan),
    /// AList serves. The password is the one it announced last; it is empty, and
    /// the flag false, where it announced none.
    Ready(String, bool),
    /// AList went away, for the reason given.
    Failed(String),
}

/// [`AlistStep`] in terms of the password announced last.
pub enum AlistStepView {
    Wait(Option<Seq<char>>),
    Ready(Option<Seq<char>>),
    Failed(Seq<char>),
}

impl View for AlistScan {
    /// The password announced last, if any was.
    type V = Option<Seq<char>>;

    closed spec fn view(&self) -> Option<Seq<char>> {
        self.found.deep_view()
    }
}

/// What [`AlistScan::step`] comes to, for the password announced so far and the
/// next output.
pub open spec fn scan_step(found: Option<Seq<char>>, output: OutputView) -> AlistStepView {
    match output {
        OutputView::Line(line) => {
            let found = match announced(line) {
                Some(password) => Some(password),
                None => found,
            };
            if serving(line) {
                AlistStepView::Ready(found)
            } else {
                AlistStepView::Wait(found)
            }
        },
        OutputView::Broken => AlistStepView::Failed(ALIST_EXITED@),
        OutputView::Closed => AlistStepView::Failed(ALIST_EXITED@),
    }
}

/// Whether `step` is what `view` describes.
pub open spec fn is_step(step: AlistStep, view: AlistStepView) -> bool {
    match (step, view) {
        (AlistStep::Wait(scan), AlistStepView::Wait(found)) => scan@ == found,
        (AlistStep::Ready(password, is_new), AlistStepView::Ready(found)) => {
            &&& is_new == found is Some
            &&& password@ == (match found {
                Some(password) => password,
                None => Seq::empty(),
            })
        },
        (AlistStep::Failed(why), AlistStepView::Failed(text)) => why@ == text,
        _ => false,
    }
}

impl AlistScan {
    /// Starts at the beginning of the output.
    pub fn new() -> (scan: AlistScan)
        ensures
            scan@ == None::<Seq<char>>,
    {
        AlistScan { found: None }
    }

    /// Takes in the next output.
    pub fn step(self, output: Output) -> (step: AlistStep)
        ensures
            is_step(step, scan_step(self@, output@)),
    {
        match output {
            Output::Line(line) => {
                let found = match announced_password(line.as_str()) {
                    Some(password) => Some(password),
                    None => self.found,
                };
                let line = chars_of(line.as_str());
                if find_after(&line, SERVING_MARK).is_some() {
                    match found {
                        Some(password) => AlistStep::Ready(password, true),
                        None => AlistStep::Ready(String::new(), false),
                    }
                } else {
                    AlistStep::Wait(AlistScan { found })
                }
            },
            Output::Broken => AlistStep::Failed(ALIST_EXITED.to_string()),
            Output::Closed => AlistStep::Failed(ALIST_EXITED.to_string()),
        }
    }
}

/// What is reported of an AList that does not serve in time.
pub const ALIST_TIMED_OUT: &'static str = "AList 启动超时";

/// What is reported where the task that reads AList's output is lost.
pub const ALIST_READER_LOST: &'static str = "AList 启动线程异常";

/// How a start of AList ends.
pub struct AlistVerdict {
    /// Whether AList is to be stopped.
    pub kill: bool,
    /// Whether the password in the result is to be saved.
    pub save: bool,
    /// The password with whether it is a new one, or what went wrong.
    pub result: Result<(String, bool), String>,
}

/// What is to be done once the output of AList has been read.
pub enum AlistNext {
    /// AList announced no password: look up the one that was saved.
    Load(AlistLoading),
    /// The start is over.
    Finish(AlistVerdict),
}

/// A start of AList that waits for the saved password.
pub struct AlistLoading {
    /// Whether AList announced a new password.
    pub is_new: bool,
}

/// [`AlistVerdict`] with its texts as sequences of characters.
pub struct AlistVerdictView {
    pub kill: bool,
    pub save: bool,
    pub result: Result<(Seq<char>, bool), Seq<char>>,
}

/// [`AlistNext`] with its texts as sequences of characters.
pub enum AlistNextView {
    Load(bool),
    Finish(AlistVerdictView),
}

impl View for AlistVerdict {
    type V = AlistVerdictView;

    open spec fn view(&self) -> AlistVerdictView {
        AlistVerdictView { kill: self.kill, save: self.save, result: result_view(self.result) }
    }
}

impl View for AlistNext {
    type V = AlistNextView;

    open spec fn view(&self) -> AlistNextView {
        match self {
            AlistNext::Load(loading) => AlistNextView::Load(loading.is_new),
            AlistNext::Finish(verdict) => AlistNextView::Finish(verdict@),
        }
    }
}

/// A start that failed for `why`.
pub open spec fn alist_failure(kill: bool, why: Seq<char>) -> AlistVerdictView {
    AlistVerdictView { kill, save: false, result: Err(why) }
}

/// A start that came to `password`. Only a new password that is not empty is
/// worth saving.
pub open spec fn alist_success(password: Seq<char>, is_new: bool) -> AlistVerdictView {
    AlistVerdictView {
        kill: false,
        save: is_new && password.len() > 0,
        result: Ok((password, is_new)),
    }
}

/// What reading the output of AList leads to. AList is stopped where it did not
/// serve in time or went away, not where the reader was lost.
pub open spec fn alist_conclusion(reading: ReadingView<(Seq<char>, bool)>) -> AlistNextView {
    match reading {
        ReadingView::TimedOut => AlistNextView::Finish(alist_failure(true, ALIST_TIMED_OUT@)),
        ReadingView::Crashed => AlistNextView::Finish(alist_failure(false, ALIST_READER_LOST@)),
        ReadingView::Ended(Err(why)) => AlistNextView::Finish(alist_failure(true, why)),
        ReadingView::Ended(Ok((password, is_new))) => if password.len() == 0 {
            AlistNextView::Load(is_new)
        } else {
            AlistNextView::Finish(alist_success(password, is_new))
        },
    }
}

/// The saved password, or an empty one where none could be read.
pub open spec fn or_empty(stored: Option<Seq<char>>) -> Seq<char> {
    match stored {
        Some(password) => password,
        None => Seq::empty(),
    }
}

/// Decides how a start of AList goes on once its output has been read.
pub fn conclude_alist(reading: Reading<(String, bool)>) -> (next: AlistNext)
    ensures
        next@ == alist_conclusion(reading@),
{
    match reading {
        Reading::TimedOut => AlistNext::Finish(
            AlistVerdict { kill: true, save: false, result: Err(ALIST_TIMED_OUT.to_string()) },
        ),
        Reading::Crashed => AlistNext::Finish(
            AlistVerdict { kill: false, save: false, result: Err(ALIST_READER_LOST.to_string()) },
        ),
        Reading::Ended(Err(why)) => AlistNext::Finish(
            AlistVerdict { kill: true, save: false, result: Err(why) },
        ),
        Reading::Ended(Ok((password, is_new))) => if password.as_str().is_empty() {
            AlistNext::Load(AlistLoading { is_new })
        } else {
            AlistNext::Finish(
                AlistVerdict { kill: false, save: is_new, result: Ok((password, is_new)) },
            )
        },
    }
}

impl AlistLoading {
    /// Ends the start with the saved password, where there is one.
    pub fn answer(self, stored: Option<String>) -> (verdict: AlistVerdict)
        ensures
            verdict@ == alist_success(or_empty(stored.deep_view()), self.is_new),
    {
        let password = match stored {
            Some(password) => password,
            None => String::new(),
        };
        let save = self.is_new && !password.as_str().is_empty();
        AlistVerdict { kill: false, save, result: Ok((password, self.is_new)) }
    }
}

/// What following `outputs` from the beginning comes to, with `found` announced
/// before them. There is no result yet where AList neither serves nor goes away.
pub open spec fn scan_run(found: Option<Seq<char>>, outputs: Seq<OutputView>) -> Option<
    Result<(Seq<char>, bool), Seq<char>>,
>
    decreases outputs.len(),
{
    if outputs.len() == 0 {
        None
    } else {
        match scan_step(found, outputs[0]) {
            AlistStepView::Wait(found) => scan_run(found, outputs.drop_first()),
            AlistStepView::Ready(found) => Some(Ok((or_empty(found), found is Some))),
            AlistStepView::Failed(why) => Some(Err(why)),
        }
    }
}

/// Whether the first `k` of `outputs` are lines before AList serves.
pub open spec fn coming_up(outputs: Seq<OutputView>, k: int) -> bool {
    &&& 0 <= k <= outputs.len()
    &&& forall|i: int|
        0 <= i < k ==> (#[trigger] outputs[i] matches OutputView::Line(line) && !serving(line))
}

/// The password that the last line among the first `k` of `outputs` announces
/// that announces one, or `found` where none does.
pub open spec fn last_announced(
    found: Option<Seq<char>>,
    outputs: Seq<OutputView>,
    k: int,
) -> Option<Seq<char>>
    decreases k,
{
    if k <= 0 {
        found
    } else {
        match outputs[k - 1] {
            OutputView::Line(line) => match announced(line) {
                Some(password) => Some(password),
                None => last_announced(found, outputs, k - 1),
            },
            _ => last_announced(found, outputs, k - 1),
        }
    }
}

proof fn lemma_last_announced_shift(found: Option<Seq<char>>, outputs: Seq<OutputView>, k: int)
    requires
        0 < k <= outputs.len(),
    ensures
        last_announced(found, outputs, k) == last_announced(
            last_announced(found, outputs, 1),
            outputs.drop_first(),
            k - 1,
        ),
    decreases k,
{
    reveal_with_fuel(last_announced, 2);
    if k > 1 {
        lemma_last_announced_shift(found, outputs, k - 1);
        assert(outputs.drop_first()[k - 2] == outputs[k - 1]);
    }
}

/// Lines before AList serves only change which password was announced last.
proof fn lemma_scan_skips(found: Option<Seq<char>>, outputs: Seq<OutputView>, k: int)
    requires
        coming_up(outputs, k),
    ensures
        scan_run(found, outputs) == scan_run(last_announced(found, outputs, k), outputs.skip(k)),
    decreases k,
{
    if k == 0 {
        assert(outputs.skip(0) =~= outputs);
    } else {
        let next = last_announced(found, outputs, 1);
        reveal_with_fuel(last_announced, 2);
        assert(outputs[0] matches OutputView::Line(line) && !serving(line));
        assert(scan_run(found, outputs) == scan_run(next, outputs.drop_first()));
        assert forall|i: int| 0 <= i < k - 1 implies (#[trigger] outputs.drop_first()[i] matches
        OutputView::Line(line) && !serving(line)) by {
            assert(outputs.drop_first()[i] == outputs[i + 1]);
        }
        lemma_scan_skips(next, outputs.drop_first(), k - 1);
        lemma_last_announced_shift(found, outputs, k);
        assert(outputs.drop_first().skip(k - 1) =~= outputs.skip(k));
    }
}

/// An AList that comes to serve is reported with the password that it announced
/// last up to and with the line that says so. The password counts as new exactly
/// where one was announced.
pub proof fn scan_reports_last_announcement(outputs: Seq<OutputView>, k: int)
    requires
        coming_up(outputs, k),
        k < outputs.len(),
        outputs[k] matches OutputView::Line(line) && serving(line),
    ensures
        scan_run(None, outputs) == Some(
            Ok::<(Seq<char>, bool), Seq<char>>(
                (
                    or_empty(last_announced(None, outputs, k + 1)),
                    last_announced(None, outputs, k + 1) is Some,
                ),
            ),
        ),
{
    lemma_scan_skips(None, outputs, k);
    assert(outputs.skip(k)[0] == outputs[k]);
}

/// An AList whose output breaks off or ends before it serves is reported as gone,
/// whatever it announced.
pub proof fn scan_reports_exit(outputs: Seq<OutputView>, k: int)
    requires
        coming_up(outputs, k),
        k < outputs.len(),
        outputs[k] is Broken || outputs[k] is Closed,
    ensures
        scan_run(None, outputs) == Some(Err::<(Seq<char>, bool), Seq<char>>(ALIST_EXITED@)),
{
    lemma_scan_skips(None, outputs, k);
    assert(outputs.skip(k)[0] == outputs[k]);
}

proof fn lemma_scan_new_iff_announced(found: Option<Seq<char>>, outputs: Seq<OutputView>)
    requires
        found matches Some(password) ==> password.len() > 0,
    ensures
        scan_run(found, outputs) matches Some(Ok((password, is_new))) ==> (is_new <==> password.len()
            > 0),
    decreases outputs.len(),
{
    if outputs.len() > 0 {
        match scan_step(found, outputs[0]) {
            AlistStepView::Wait(found) => lemma_scan_new_iff_announced(
                found,
                outputs.drop_first(),
            ),
            _ => {},
        }
    }
}

/// The password that a start comes to is saved exactly where AList announced it
/// during that start. Where it announced none, the saved password is handed out,
/// is not called new, and is not written back.
pub proof fn only_announced_passwords_are_saved(
    outputs: Seq<OutputView>,
    password: Seq<char>,
    is_new: bool,
    stored: Option<Seq<char>>,
)
    requires
        scan_run(None, outputs) == Some(Ok::<(Seq<char>, bool), Seq<char>>((password, is_new))),
    ensures
        match alist_conclusion(ReadingView::Ended(Ok((password, is_new)))) {
            AlistNextView::Finish(verdict) => {
                &&& is_new
                &&& password.len() > 0
                &&& verdict == (AlistVerdictView {
                    kill: false,
                    save: true,
                    result: Ok((password, true)),
                })
            },
            AlistNextView::Load(flag) => {
                &&& !is_new
                &&& !flag
                &&& alist_success(or_empty(stored), flag) == (AlistVerdictView {
                    kill: false,
                    save: false,
                    result: Ok((or_empty(stored), false)),
                })
            },
        },
{
    lemma_scan_new_iff_announced(None, outputs);
}

/// A start of AList that is to be stopped is one that failed, and nothing of a
/// failed start is saved.
pub proof fn stopped_starts_failed(reading: ReadingView<(Seq<char>, bool)>)
    ensures
        alist_conclusion(reading) matches AlistNextView::Finish(verdict) ==> {
            &&& verdict.kill ==> verdict.result is Err
            &&& verdict.result is Err ==> !verdict.save
            &&& verdict.result is Err && !verdict.kill ==> reading is Crashed
        },
{
}

/// A line that can be split around the mark of a new administrator password, and
/// nowhere earlier, announces exactly what stands behind the mark, without the
/// white space around it. What stands before the mark makes no difference.
pub proof fn admin_mark_announces_what_follows(
    line: Seq<char>,
    before: Seq<char>,
    lead: Seq<char>,
    password: Seq<char>,
    tail: Seq<char>,
)
    requires
        line == before + "initial admin password is:"@ + (lead + password + tail),
        forall|x: Seq<char>, y: Seq<char>|
            #[trigger] (x + "initial admin password is:"@ + y) == line ==> before.len() <= x.len(),
        forall|i: int| 0 <= i < lead.len() ==> is_white_space(#[trigger] lead[i]),
        forall|i: int| 0 <= i < tail.len() ==> is_white_space(#[trigger] tail[i]),
        password.len() > 0,
        !is_white_space(password[0]),
        !is_white_space(password.last()),
    ensures
        announced(line) == Some(password),
{
    lemma_after_first_split(line, before, ADMIN_MARK@, lead + password + tail);
    lemma_trimmed_of_parts(lead, password, tail);
}

/// A line that holds the mark of older releases, and the other mark nowhere,
/// announces exactly what stands behind the first of them, without the white
/// space around it.
pub proof fn legacy_mark_announces_what_follows(
    line: Seq<char>,
    before: Seq<char>,
    lead: Seq<char>,
    password: Seq<char>,
    tail: Seq<char>,
)
    requires
        line == before + "initial password is:"@ + (lead + password + tail),
        forall|x: Seq<char>, y: Seq<char>|
            #[trigger] (x + "initial password is:"@ + y) == line ==> before.len() <= x.len(),
        forall|x: Seq<char>, y: Seq<char>|
            #[trigger] (x + "initial admin password is:"@ + y) != line,
        forall|i: int| 0 <= i < lead.len() ==> is_white_space(#[trigger] lead[i]),
        forall|i: int| 0 <= i < tail.len() ==> is_white_space(#[trigger] tail[i]),
        password.len() > 0,
        !is_white_space(password[0]),
        !is_white_space(password.last()),
    ensures
        announced(line) == Some(password),
{
    lemma_occurs_iff_split(line, ADMIN_MARK@);
    lemma_after_first_split(line, before, LEGACY_MARK@, lead + password + tail);
    lemma_trimmed_of_parts(lead, password, tail);
}

/// A mark with nothing but white space behind it announces nothing, and keeps the
/// mark of older releases in the same line from counting.
pub proof fn blank_admin_mark_announces_nothing(
    line: Seq<char>,
    before: Seq<char>,
    blank: Seq<char>,
)
    requires
        line == before + "initial admin password is:"@ + blank,
        forall|x: Seq<char>, y: Seq<char>|
            #[trigger] (x + "initial admin password is:"@ + y) == line ==> before.len() <= x.len(),
        forall|i: int| 0 <= i < blank.len() ==> is_white_space(#[trigger] blank[i]),
    ensures
        announced(line) is None,
{
    lemma_after_first_split(line, before, ADMIN_MARK@, blank);
    lemma_trimmed_blank(blank);
}

/// The same of the mark of older releases, in a line without the other one.
pub proof fn blank_legacy_mark_announces_nothing(
    line: Seq<char>,
    before: Seq<char>,
    blank: Seq<char>,
)
    requires
        line == before + "initial password is:"@ + blank,
        forall|x: Seq<char>, y: Seq<char>|
            #[trigger] (x + "initial password is:"@ + y) == line ==> before.len() <= x.len(),
        forall|x: Seq<char>, y: Seq<char>|
            #[trigger] (x + "initial admin password is:"@ + y) != line,
        forall|i: int| 0 <= i < blank.len() ==> is_white_space(#[trigger] blank[i]),
    ensures
        announced(line) is None,
{
    lemma_occurs_iff_split(line, ADMIN_MARK@);
    lemma_after_first_split(line, before, LEGACY_MARK@, blank);
    lemma_trimmed_blank(blank);
}

/// A line that holds neither mark announces nothing.
pub proof fn unmarked_line_announces_nothing(line: Seq<char>)
    requires
        forall|x: Seq<char>, y: Seq<char>|
            #[trigger] (x + "initial admin password is:"@ + y) != line,
        forall|x: Seq<char>, y: Seq<char>| #[trigger] (x + "initial password is:"@ + y) != line,
    ensures
        announced(line) is None,
{
    lemma_occurs_iff_split(line, ADMIN_MARK@);
    lemma_occurs_iff_split(line, LEGACY_MARK@);
}

/// A step on a line reports AList ready exactly where the line holds the mark that
/// AList prints once it serves, whatever stands before and after it, and never
/// reports it gone.
pub proof fn step_is_ready_where_line_holds_mark(scan: AlistScan, line: String, step: AlistStep)
    requires
        is_step(step, scan_step(scan@, Output::Line(line)@)),
    ensures
        step is Ready <==> exists|x: Seq<char>, y: Seq<char>|
            #[trigger] (x + "start HTTP server @ 0.0.0.0:"@ + y) == line@,
        step !is Failed,
{
    lemma_occurs_iff_split(line@, SERVING_MARK@);
}

/// A line `before` + mark + `after` makes a step report AList ready.
pub proof fn step_is_ready_on_marked_line(
    scan: AlistScan,
    line: String,
    before: Seq<char>,
    after: Seq<char>,
    step: AlistStep,
)
    requires
        is_step(step, scan_step(scan@, Output::Line(line)@)),
        line@ == before + "start HTTP server @ 0.0.0.0:"@ + after,
    ensures
        step is Ready,
{
    step_is_ready_where_line_holds_mark(scan, line, step);
    assert(before + "start HTTP server @ 0.0.0.0:"@ + after == line@);
}

/// A step on a line that announces a password takes it over, in place of one that
/// was announced before; a step on another line keeps what it had. What is
/// reported once AList serves is that password, as a new one, or an empty one that
/// is not new.
pub proof fn step_keeps_last_announcement(scan: AlistScan, line: String, step: AlistStep)
    requires
        is_step(step, scan_step(scan@, Output::Line(line)@)),
    ensures
        announced(line@) matches Some(password) ==> match step {
            AlistStep::Wait(next) => next@ == Some(password),
            AlistStep::Ready(shown, is_new) => shown@ == password && is_new,
            AlistStep::Failed(_) => false,
        },
        announced(line@) is None ==> match step {
            AlistStep::Wait(next) => next@ == scan@,
            AlistStep::Ready(shown, is_new) => {
                &&& is_new <==> scan@ is Some
                &&& scan@ matches Some(password) ==> shown@ == password
                &&& scan@ is None ==> shown@.len() == 0
            },
            AlistStep::Failed(_) => false,
        },
{
}

/// A step reports AList gone where its output breaks off or ends, whatever was
/// announced before.
pub proof fn step_fails_at_end_of_output(scan: AlistScan, output: Output, step: AlistStep)
    requires
        is_step(step, scan_step(scan@, output@)),
        output is Broken || output is Closed,
    ensures
        step matches AlistStep::Failed(why) && why@ == "AList 进程异常退出"@,
{
}

/// A password that AList announces in one line and that it serves in a later one,
/// with no other announcement from then on, is what the start comes to.
pub proof fn announcement_reaches_ready(
    scan: AlistScan,
    line: String,
    next: AlistScan,
    last: String,
    step: AlistStep,
    password: Seq<char>,
)
    requires
        is_step(AlistStep::Wait(next), scan_step(scan@, Output::Line(line)@)),
        is_step(step, scan_step(next@, Output::Line(last)@)),
        announced(line@) == Some(password),
        announced(last@) is None,
        step is Ready,
    ensures
        step matches AlistStep::Ready(shown, is_new) && shown@ == password && is_new,
{
    step_keeps_last_announcement(scan, line, AlistStep::Wait(next));
    step_keeps_last_announcement(next, last, step);
}

/// What a start of AList comes to after its output was read. A result of the
/// reader goes through unchanged; a password of a start that found none is looked
/// up. AList is to be stopped where it was too slow or the reader failed, and not
/// where it serves.
pub proof fn alist_start_comes_to(reading: Reading<(String, bool)>, next: AlistNext)
    requires
        next@ == alist_conclusion(reading@),
    ensures
        match reading {
            Reading::TimedOut => next matches AlistNext::Finish(verdict) && verdict.kill
                && !verdict.save && (verdict.result matches Err(why) && why@
                == "AList 启动超时"@),
            Reading::Crashed => next matches AlistNext::Finish(verdict) && !verdict.kill
                && !verdict.save && (verdict.result matches Err(why) && why@
                == "AList 启动线程异常"@),
            Reading::Ended(Err(why)) => next matches AlistNext::Finish(verdict) && verdict.kill
                && !verdict.save && (verdict.result matches Err(told) && told@ == why@),
            Reading::Ended(Ok((password, is_new))) => if password@.len() == 0 {
                next matches AlistNext::Load(loading) && loading.is_new == is_new
            } else {
                next matches AlistNext::Finish(verdict) && !verdict.kill && verdict.save == is_new
                    && (verdict.result matches Ok((shown, flag)) && shown@ == password@ && flag
                    == is_new)
            },
        },
{
}

/// A start of AList that looked the saved password up hands out that password,
/// or an empty one where there is none, and stops nothing.
pub proof fn looked_up_password_is_handed_out(
    loading: AlistLoading,
    stored: Option<String>,
    verdict: AlistVerdict,
)
    requires
        verdict@ == alist_success(or_empty(stored.deep_view()), loading.is_new),
    ensures
        !verdict.kill,
        verdict.result matches Ok((shown, is_new)) && is_new == loading.is_new && match stored {
            Some(password) => shown@ == password@,
            None => shown@.len() == 0,
        },
        verdict.save ==> loading.is_new && (stored matches Some(password) && password@.len() > 0),
        loading.is_new && (stored matches Some(password) && password@.len() > 0) ==> verdict.save,
{
}

} // verus!
