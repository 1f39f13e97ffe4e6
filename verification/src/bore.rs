//! Starting bore: the public address that its output gives.

use vstd::prelude::*;

use crate::config::BORE_HOST;
#[allow(unused_imports)]
use crate::output::{result_view, Output, OutputView, Reading, ReadingView};
#[allow(unused_imports)]
use crate::text::{
    after_first, chars_of, digits_from, find_after, is_digit, joined, leading_digits,
    leading_digits_are_longest_run, lemma_after_first_split, lemma_leading_digits_of_parts,
    lemma_occurs_iff_split,
};

verus! {

/// What is reported of a bore that goes away before it has an address.
pub const BORE_EXITED: &'static str = "bore 进程异常退出";

/// What is reported of a bore that has no address in time.
pub const BORE_TIMED_OUT: &'static str = "bore 穿透超时";

/// What is reported where the task that reads bore's output is lost.
pub const BORE_READER_LOST: &'static str = "bore 启动线程异常";

/// What bore prints before the port that it was given on the relay.
pub open spec fn listening_mark() -> Seq<char> {
    "listening at "@ + BORE_HOST@ + ":"@
}

/// The port that `line` gives: the digits right behind the mark, if any.
pub open spec fn tunnel_port(line: Seq<char>) -> Option<Seq<char>> {
    match after_first(line, listening_mark()) {
        Some(rest) => if leading_digits(rest).len() > 0 {
            Some(leading_digits(rest))
        } else {
            None
        },
        None => None,
    }
}

/// The public address for a port on the relay.
pub open spec fn tunnel_url(port: Seq<char>) -> Seq<char> {
    "http://"@ + BORE_HOST@ + ":"@ + port
}

/// The address that a line gives, if it gives one.
pub open spec fn url_in(line: Seq<char>) -> Option<Seq<char>> {
    match tunnel_port(line) {
        Some(port) => Some(tunnel_url(port)),
        None => None,
    }
}

/// Where following the output of bore has got to.
pub enum BoreStep {
    /// There is no address yet: go on with the next output.
    Wait,
    /// AList can be reached at this address.
    Ready(String),
    /// bore went away, for the reason given.
    Failed(String),
}

/// [`BoreStep`] with its texts as sequences of characters.
pub enum BoreStepView {
    Wait,
    Ready(Seq<char>),
    Failed(Seq<char>),
}

impl View for BoreStep {
    type V = BoreStepView;

    open spec fn view(&self) -> BoreStepView {
        match self {
            BoreStep::Wait => BoreStepView::Wait,
            BoreStep::Ready(url) => BoreStepView::Ready(url@),
            BoreStep::Failed(why) => BoreStepView::Failed(why@),
        }
    }
}

/// What the next output of bore comes to.
pub open spec fn bore_scan_step(output: OutputView) -> BoreStepView {
    match output {
        OutputView::Line(line) => match tunnel_port(line) {
            Some(port) => BoreStepView::Ready(tunnel_url(port)),
            None => BoreStepView::Wait,
        },
        OutputView::Broken => BoreStepView::Failed(BORE_EXITED@),
        OutputView::Closed => BoreStepView::Failed(BORE_EXITED@),
    }
}

/// Reads the public address out of a line that gives one.
pub fn public_url(line: &str) -> (url: Option<String>)
    ensures
        url.deep_view() == url_in(line@),
{
    let mut mark = joined("listening at ", BORE_HOST);
    mark.append(":");
    let line = chars_of(line);
    match find_after(&line, mark.as_str()) {
        Some(k) => {
            let port = digits_from(&line, k);
            if port.as_str().is_empty() {
                None
            } else {
                let mut url = joined("http://", BORE_HOST);
                url.append(":");
                url.append(port.as_str());
                Some(url)
            }
        },
        None => None,
    }
}

/// Takes in the next output of a bore that is coming up.
pub fn scan_bore(output: Output) -> (step: BoreStep)
    ensures
        step@ == bore_scan_step(output@),
{
    match output {
        Output::Line(line) => match public_url(line.as_str()) {
            Some(url) => BoreStep::Ready(url),
            None => BoreStep::Wait,
        },
        Output::Broken => BoreStep::Failed(BORE_EXITED.to_string()),
        Output::Closed => BoreStep::Failed(BORE_EXITED.to_string()),
    }
}

/// How a start of bore ends.
pub struct BoreVerdict {
    /// Whether bore is to be stopped.
    pub kill: bool,
    /// The public address, or what went wrong.
    pub result: Result<String, String>,
}

/// [`BoreVerdict`] with its texts as sequences of characters.
pub struct BoreVerdictView {
    pub kill: bool,
    pub result: Result<Seq<char>, Seq<char>>,
}

impl View for BoreVerdict {
    type V = BoreVerdictView;

    open spec fn view(&self) -> BoreVerdictView {
        BoreVerdictView { kill: self.kill, result: result_view(self.result) }
    }
}

/// What reading the output of bore leads to. bore is stopped only where it had
/// no address in time.
pub open spec fn bore_conclusion(reading: ReadingView<Seq<char>>) -> BoreVerdictView {
    match reading {
        ReadingView::TimedOut => BoreVerdictView { kill: true, result: Err(BORE_TIMED_OUT@) },
        ReadingView::Crashed => BoreVerdictView { kill: false, result: Err(BORE_READER_LOST@) },
        ReadingView::Ended(result) => BoreVerdictView { kill: false, result },
    }
}

/// Decides how a start of bore ends once its output has been read.
pub fn conclude_bore(reading: Reading<String>) -> (verdict: BoreVerdict)
    ensures
        verdict@ == bore_conclusion(reading@),
{
    match reading {
        Reading::TimedOut => BoreVerdict { kill: true, result: Err(BORE_TIMED_OUT.to_string()) },
        Reading::Crashed => BoreVerdict { kill: false, result: Err(BORE_READER_LOST.to_string()) },
        Reading::Ended(result) => BoreVerdict { kill: false, result },
    }
}

/// What following `outputs` from the beginning comes to. There is no result yet
/// where bore neither gives an address nor goes away.
pub open spec fn bore_run(outputs: Seq<OutputView>) -> Option<Result<Seq<char>, Seq<char>>>
    decreases outputs.len(),
{
    if outputs.len() == 0 {
        None
    } else {
        match bore_scan_step(outputs[0]) {
            BoreStepView::Wait => bore_run(outputs.drop_first()),
            BoreStepView::Ready(url) => Some(Ok(url)),
            BoreStepView::Failed(why) => Some(Err(why)),
        }
    }
}

/// Whether the first `k` of `outputs` are lines that give no address.
pub open spec fn connecting(outputs: Seq<OutputView>, k: int) -> bool {
    &&& 0 <= k <= outputs.len()
    &&& forall|i: int|
        0 <= i < k ==> (#[trigger] outputs[i] matches OutputView::Line(line) && tunnel_port(
            line,
        ) is None)
}

proof fn lemma_bore_skips(outputs: Seq<OutputView>, k: int)
    requires
        connecting(outputs, k),
    ensures
        bore_run(outputs) == bore_run(outputs.skip(k)),
    decreases k,
{
    if k == 0 {
        assert(outputs.skip(0) =~= outputs);
    } else {
        assert(outputs[0] matches OutputView::Line(line) && tunnel_port(line) is None);
        assert forall|i: int| 0 <= i < k - 1 implies (#[trigger] outputs.drop_first()[i] matches
        OutputView::Line(line) && tunnel_port(line) is None) by {
            assert(outputs.drop_first()[i] == outputs[i + 1]);
        }
        lemma_bore_skips(outputs.drop_first(), k - 1);
        assert(outputs.drop_first().skip(k - 1) =~= outputs.skip(k));
    }
}

/// The address that bore is reported with is that of the first line that gives a
/// port.
pub proof fn bore_reports_first_port(outputs: Seq<OutputView>, k: int, port: Seq<char>)
    requires
        connecting(outputs, k),
        k < outputs.len(),
        outputs[k] matches OutputView::Line(line) && tunnel_port(line) == Some(port),
    ensures
        bore_run(outputs) == Some(Ok::<Seq<char>, Seq<char>>(tunnel_url(port))),
{
    lemma_bore_skips(outputs, k);
    assert(outputs.skip(k)[0] == outputs[k]);
}

/// A bore whose output breaks off or ends before it gives a port is reported as
/// gone.
pub proof fn bore_reports_exit(outputs: Seq<OutputView>, k: int)
    requires
        connecting(outputs, k),
        k < outputs.len(),
        outputs[k] is Broken || outputs[k] is Closed,
    ensures
        bore_run(outputs) == Some(Err::<Seq<char>, Seq<char>>(BORE_EXITED@)),
{
    lemma_bore_skips(outputs, k);
    assert(outputs.skip(k)[0] == outputs[k]);
}

/// The port that a line gives is the longest run of digits behind the mark, and
/// is never empty.
pub proof fn tunnel_port_is_longest_run(line: Seq<char>, rest: Seq<char>, port: Seq<char>)
    requires
        after_first(line, listening_mark()) == Some(rest),
        tunnel_port(line) == Some(port),
    ensures
        0 < port.len() <= rest.len(),
        port == rest.take(port.len() as int),
        forall|i: int| 0 <= i < port.len() ==> is_digit(#[trigger] port[i]),
        port.len() < rest.len() ==> !is_digit(rest[port.len() as int]),
{
    leading_digits_are_longest_run(rest);
}

proof fn lemma_mark_text()
    ensures
        listening_mark() == "listening at bore.pub:"@,
{
    reveal_strlit("listening at ");
    reveal_strlit("bore.pub");
    reveal_strlit(":");
    reveal_strlit("listening at bore.pub:");
    assert(listening_mark() =~= "listening at bore.pub:"@);
}

proof fn lemma_url_text(port: Seq<char>)
    ensures
        "http://"@ + "bore.pub"@ + ":"@ + port == "http://bore.pub:"@ + port,
{
    reveal_strlit("http://");
    reveal_strlit("bore.pub");
    reveal_strlit(":");
    reveal_strlit("http://bore.pub:");
    assert("http://"@ + "bore.pub"@ + ":"@ =~= "http://bore.pub:"@);
}

/// A line that can be split around the mark, and nowhere earlier, with digits
/// right behind it gives the address that ends with all of these digits. What
/// stands before the mark and behind the digits makes no difference.
pub proof fn line_with_port_gives_address(
    line: Seq<char>,
    before: Seq<char>,
    digits: Seq<char>,
    rest: Seq<char>,
)
    requires
        line == before + "listening at bore.pub:"@ + (digits + rest),
        forall|x: Seq<char>, y: Seq<char>|
            #[trigger] (x + "listening at bore.pub:"@ + y) == line ==> before.len() <= x.len(),
        digits.len() > 0,
        forall|i: int| 0 <= i < digits.len() ==> '0' <= #[trigger] digits[i] <= '9',
        rest.len() > 0 ==> !('0' <= rest[0] <= '9'),
    ensures
        url_in(line) == Some("http://bore.pub:"@ + digits),
{
    lemma_mark_text();
    lemma_after_first_split(line, before, listening_mark(), digits + rest);
    lemma_leading_digits_of_parts(digits, rest);
    lemma_url_text(digits);
}

/// A line in which no digit stands right behind the first mark gives no address.
pub proof fn line_without_port_gives_nothing(line: Seq<char>, before: Seq<char>, rest: Seq<char>)
    requires
        line == before + "listening at bore.pub:"@ + rest,
        forall|x: Seq<char>, y: Seq<char>|
            #[trigger] (x + "listening at bore.pub:"@ + y) == line ==> before.len() <= x.len(),
        rest.len() > 0 ==> !('0' <= rest[0] <= '9'),
    ensures
        url_in(line) is None,
{
    lemma_mark_text();
    lemma_after_first_split(line, before, listening_mark(), rest);
}

/// A line without the mark gives no address.
pub proof fn line_without_mark_gives_nothing(line: Seq<char>)
    requires
        forall|x: Seq<char>, y: Seq<char>| #[trigger] (x + "listening at bore.pub:"@ + y) != line,
    ensures
        url_in(line) is None,
{
    lemma_mark_text();
    lemma_occurs_iff_split(line, listening_mark());
}

/// Different ports give different addresses, and an address ends with its port.
pub proof fn addresses_tell_ports_apart(a: Seq<char>, b: Seq<char>)
    ensures
        tunnel_url(a) == tunnel_url(b) ==> a == b,
        tunnel_url(a) == "http://bore.pub:"@ + a,
{
    lemma_url_text(a);
    lemma_url_text(b);
    let head = "http://bore.pub:"@;
    assert((head + a).skip(head.len() as int) =~= a);
    assert((head + b).skip(head.len() as int) =~= b);
}

/// A step on the output of bore goes on where a line gives no address, gives the
/// address of a line that does, and reports bore gone where the output breaks off
/// or ends.
pub proof fn bore_step_gives_address(output: Output, step: BoreStep)
    requires
        step@ == bore_scan_step(output@),
    ensures
        match output {
            Output::Line(line) => match url_in(line@) {
                Some(url) => step matches BoreStep::Ready(given) && given@ == url,
                None => step is Wait,
            },
            Output::Broken => step matches BoreStep::Failed(why) && why@
                == "bore 进程异常退出"@,
            Output::Closed => step matches BoreStep::Failed(why) && why@
                == "bore 进程异常退出"@,
        },
{
}

/// What a start of bore comes to after its output was read: what the reader came
/// to goes through unchanged, and bore is to be stopped exactly where it was too
/// slow.
pub proof fn bore_start_comes_to(reading: Reading<String>, verdict: BoreVerdict)
    requires
        verdict@ == bore_conclusion(reading@),
    ensures
        verdict.kill <==> reading is TimedOut,
        match reading {
            Reading::TimedOut => verdict.result matches Err(why) && why@ == "bore 穿透超时"@,
            Reading::Crashed => verdict.result matches Err(why) && why@
                == "bore 启动线程异常"@,
            Reading::Ended(Ok(url)) => verdict.result matches Ok(given) && given@ == url@,
            Reading::Ended(Err(why)) => verdict.result matches Err(told) && told@ == why@,
        },
{
}

} // verus!
