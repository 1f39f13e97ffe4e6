//! What comes out of a running service, and what became of reading it.

use vstd::prelude::*;

verus! {

/// What a reader of a service's standard output meets next.
pub enum Output {
    /// A line of text, without its line break.
    Line(String),
    /// The output could not be read.
    Broken,
    /// The output has ended.
    Closed,
}

/// [`Output`] with its line as a sequence of characters.
pub enum OutputView {
    Line(Seq<char>),
    Broken,
    Closed,
}

impl View for Output {
    type V = OutputView;

    open spec fn view(&self) -> OutputView {
        match self {
            Output::Line(line) => OutputView::Line(line@),
            Output::Broken => OutputView::Broken,
            Output::Closed => OutputView::Closed,
        }
    }
}

/// What became of the task that reads a service's output.
pub enum Reading<T> {
    /// It was not done in time.
    TimedOut,
    /// It panicked or was cancelled.
    Crashed,
    /// It came to this result.
    Ended(Result<T, String>),
}

/// `result` with its value and its error text as what they stand for.
pub open spec fn result_view<T: DeepView>(result: Result<T, String>) -> Result<T::V, Seq<char>> {
    match result {
        Ok(value) => Ok(value.deep_view()),
        Err(why) => Err(why@),
    }
}

/// [`Reading`] with its result as what it stands for.
pub enum ReadingView<V> {
    TimedOut,
    Crashed,
    Ended(Result<V, Seq<char>>),
}

impl<T: DeepView> View for Reading<T> {
    type V = ReadingView<T::V>;

    open spec fn view(&self) -> ReadingView<T::V> {
        match self {
            Reading::TimedOut => ReadingView::TimedOut,
            Reading::Crashed => ReadingView::Crashed,
            Reading::Ended(result) => ReadingView::Ended(result_view(*result)),
        }
    }
}

} // verus!
