//! Running a program and waiting for a line of its output.

use vstd::prelude::*;

#[allow(unused_imports)]
use crate::output::{result_view, Output, OutputView};
use crate::service::NO_STDOUT;
use crate::text::joined;

verus! {

/// What is reported of a program that goes away before the awaited line.
pub const PROGRAM_EXITED: &'static str = "进程异常退出";

/// What is reported where the awaited line does not come in time.
pub const PROGRAM_TIMED_OUT: &'static str = "启动超时";

/// What is reported where the thread that reads the output panics.
pub const READER_PANICKED: &'static str = "线程 panic";

/// How much longer than the time limit the reader is waited for, in seconds.
pub const POLL_GRACE_SECS: u64 = 2;

/// How long to sleep between two looks at the reader, in milliseconds.
pub const POLL_INTERVAL_MILLIS: u64 = 100;

/// A program that runs and whose output is being read.
#[derive(Clone, Copy)]
pub struct Waiting {
    /// How long the awaited line may take, in seconds.
    pub timeout_secs: u64,
}

/// What a look at the reader shows.
pub enum Reader {
    /// It has come to this result.
    Finished(Result<String, String>),
    /// It panicked.
    Panicked,
    /// It still reads.
    Running,
}

/// What follows from a look at the reader.
pub enum Poll {
    /// Waiting is over, with this result; the program is to be stopped first where
    /// the flag says so.
    Over(bool, Result<String, String>),
    /// Sleep for so many milliseconds and look again.
    Sleep(u64),
}

/// [`Reader`] with its texts as sequences of characters.
pub enum ReaderView {
    Finished(Result<Seq<char>, Seq<char>>),
    Panicked,
    Running,
}

/// [`Poll`] with its texts as sequences of characters.
pub enum PollView {
    Over(bool, Result<Seq<char>, Seq<char>>),
    Sleep(u64),
}

impl View for Reader {
    type V = ReaderView;

    open spec fn view(&self) -> ReaderView {
        match self {
            Reader::Finished(result) => ReaderView::Finished(result_view(*result)),
            Reader::Panicked => ReaderView::Panicked,
            Reader::Running => ReaderView::Running,
        }
    }
}

impl View for Poll {
    type V = PollView;

    open spec fn view(&self) -> PollView {
        match self {
            Poll::Over(kill, result) => PollView::Over(*kill, result_view(*result)),
            Poll::Sleep(millis) => PollView::Sleep(*millis),
        }
    }
}

/// What follows from a look at the reader, given whether the deadline has passed.
/// A result counts even after the deadline.
pub open spec fn polled(reader: ReaderView, past_deadline: bool) -> PollView {
    match reader {
        ReaderView::Finished(result) => PollView::Over(false, result),
        ReaderView::Panicked => PollView::Over(false, Err(READER_PANICKED@)),
        ReaderView::Running => if past_deadline {
            PollView::Over(true, Err(PROGRAM_TIMED_OUT@))
        } else {
            PollView::Sleep(POLL_INTERVAL_MILLIS)
        },
    }
}

/// Begins to wait for a program that was run; the flag tells whether its output
/// can be had.
pub fn spawn_and_wait_output(run: Result<bool, String>, timeout_secs: u64) -> (waiting: Result<
    Waiting,
    String,
>)
    ensures
        match (waiting, result_view(run)) {
            (Ok(waiting), Ok(true)) => waiting.timeout_secs == timeout_secs,
            (Err(why), Ok(false)) => why@ == NO_STDOUT@,
            (Err(why), Err(text)) => why@ == "启动进程失败: "@ + text,
            _ => false,
        },
        run matches Err(text) ==> waiting matches Err(why) && why@ == "启动进程失败: "@ + text@,
        run matches Ok(piped) ==> (waiting is Ok <==> piped),
{
    match run {
        Ok(true) => Ok(Waiting { timeout_secs }),
        Ok(false) => Err(NO_STDOUT.to_string()),
        Err(why) => Err(joined("启动进程失败: ", why.as_str())),
    }
}

impl Waiting {
    /// Whether more time has passed, in seconds and nanoseconds, than the awaited
    /// line may take.
    pub open spec fn too_late(&self, secs: u64, nanos: u32) -> bool {
        secs * 1_000_000_000 + nanos > self.timeout_secs * 1_000_000_000
    }

    /// Takes in the next output, so many seconds and nanoseconds after the start,
    /// and gives the result of reading where it is the last one. The time is
    /// looked at with every line, not at the end of the output; a line counts
    /// where `match_fn` makes something of it.
    pub fn read<F: Fn(&str) -> Option<String>>(
        &self,
        secs: u64,
        nanos: u32,
        output: Output,
        match_fn: &F,
    ) -> (result: Option<Result<String, String>>)
        requires
            forall|line: &str| call_requires(*match_fn, (line,)),
        ensures
            match output {
                Output::Closed => result matches Some(Err(why)) && why@ == PROGRAM_EXITED@,
                Output::Broken => result matches Some(Err(why)) && why@ == (if self.too_late(
                    secs,
                    nanos,
                ) {
                    PROGRAM_TIMED_OUT@
                } else {
                    PROGRAM_EXITED@
                }),
                Output::Line(text) => if self.too_late(secs, nanos) {
                    result matches Some(Err(why)) && why@ == PROGRAM_TIMED_OUT@
                } else {
                    exists|line: &str, matched: Option<String>|
                        {
                            &&& line@ == text@
                            &&& #[trigger] call_ensures(*match_fn, (line,), matched)
                            &&& result == (match matched {
                                Some(found) => Some(Ok::<String, String>(found)),
                                None => None,
                            })
                        }
                },
            },
    {
        let elapsed: u128 = secs as u128 * 1_000_000_000 + nanos as u128;
        let late = elapsed > self.timeout_secs as u128 * 1_000_000_000;
        match output {
            Output::Closed => Some(Err(PROGRAM_EXITED.to_string())),
            Output::Broken => if late {
                Some(Err(PROGRAM_TIMED_OUT.to_string()))
            } else {
                Some(Err(PROGRAM_EXITED.to_string()))
            },
            Output::Line(text) => if late {
                Some(Err(PROGRAM_TIMED_OUT.to_string()))
            } else {
                let line = text.as_str();
                match match_fn(line) {
                    Some(found) => Some(Ok(found)),
                    None => None,
                }
            },
        }
    }

    /// How long to wait for the reader at most, in seconds.
    pub fn deadline_secs(&self) -> (secs: u64)
        requires
            self.timeout_secs + POLL_GRACE_SECS <= u64::MAX,
        ensures
            secs == self.timeout_secs + POLL_GRACE_SECS,
    {
        self.timeout_secs + POLL_GRACE_SECS
    }

    /// Decides on a look at the reader, given whether the deadline has passed.
    pub fn poll(&self, reader: Reader, past_deadline: bool) -> (poll: Poll)
        ensures
            poll@ == polled(reader@, past_deadline),
    {
        match reader {
            Reader::Finished(result) => Poll::Over(false, result),
            Reader::Panicked => Poll::Over(false, Err(READER_PANICKED.to_string())),
            Reader::Running => if past_deadline {
                Poll::Over(true, Err(PROGRAM_TIMED_OUT.to_string()))
            } else {
                Poll::Sleep(POLL_INTERVAL_MILLIS)
            },
        }
    }
}

/// A program is stopped exactly where the deadline passes while its output is
/// still being read, and waiting ends at the deadline at the latest.
pub proof fn waiting_ends_by_deadline(reader: ReaderView, past_deadline: bool)
    ensures
        past_deadline ==> polled(reader, past_deadline) is Over,
        (polled(reader, past_deadline) matches PollView::Over(kill, _) && kill) <==> (reader is Running
            && past_deadline),
{
}

/// The time limit is passed once whole seconds go beyond it, or it is reached and a
/// fraction of a second on top.
pub proof fn limit_is_passed_after_it_is_reached(waiting: Waiting, secs: u64, nanos: u32)
    requires
        nanos < 1_000_000_000,
    ensures
        waiting.too_late(secs, nanos) <==> secs > waiting.timeout_secs || (secs
            == waiting.timeout_secs && nanos > 0),
{
}

/// What a look at the reader leads to: its result goes through unchanged, even
/// after the deadline; a reader that still reads is looked at again a tenth of a
/// second later, or given up together with the program at the deadline.
pub proof fn look_at_reader_leads_to(reader: Reader, past_deadline: bool, poll: Poll)
    requires
        poll@ == polled(reader@, past_deadline),
    ensures
        match reader {
            Reader::Finished(Ok(found)) => poll matches Poll::Over(kill, Ok(given)) && !kill
                && given@ == found@,
            Reader::Finished(Err(why)) => poll matches Poll::Over(kill, Err(told)) && !kill
                && told@ == why@,
            Reader::Panicked => poll matches Poll::Over(kill, Err(told)) && !kill && told@
                == "线程 panic"@,
            Reader::Running => if past_deadline {
                poll matches Poll::Over(kill, Err(told)) && kill && told@ == "启动超时"@
            } else {
                poll == Poll::Sleep(100)
            },
        },
{
}

} // verus!
