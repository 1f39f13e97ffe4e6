//! Finding the executable of a service.
//!
//! The search asks for one thing at a time, looking at a file, making a
//! directory or copying a file, and goes on by the answer.

use vstd::prelude::*;

use crate::output::result_view;
use crate::text::joined;

verus! {

/// A directory that may hold an executable.
#[derive(Clone, Copy, Debug, PartialEq, Eq, Structural)]
pub enum Dir {
    /// Where the application keeps its data.
    AppData,
    /// The current working directory.
    Working,
    /// Where the resources of the application were installed.
    Resource,
}

/// Which file a search looks at.
#[derive(Clone, Copy, Debug, PartialEq, Eq, Structural)]
pub enum Stage {
    /// The executable in this directory.
    At(Dir),
    /// The place in the data directory for a copy of the executable from here.
    CopyOf(Dir),
}

/// What a search asks for next.
pub enum Search {
    /// Look whether a file exists.
    Probe(Probing),
    /// Make the data directory.
    Create(Creating),
    /// Copy the executable to the data directory.
    Copy(Copying),
    /// Nothing: the executable is in this directory, or cannot be had.
    Finish(Result<Dir, String>),
}

/// A search that waits to hear whether a file exists.
pub struct Probing {
    pub name: String,
    pub stage: Stage,
}

/// A search that waits for the data directory to be made.
pub struct Creating {
    pub from: Dir,
}

/// A search that waits for the executable to be copied.
pub struct Copying {
    pub from: Dir,
}

/// [`Search`] with its texts as sequences of characters.
pub enum SearchView {
    Probe(Seq<char>, Stage),
    Create(Dir),
    Copy(Dir),
    Finish(Result<Dir, Seq<char>>),
}

impl View for Search {
    type V = SearchView;

    open spec fn view(&self) -> SearchView {
        match self {
            Search::Probe(probing) => SearchView::Probe(probing.name@, probing.stage),
            Search::Create(creating) => SearchView::Create(creating.from),
            Search::Copy(copying) => SearchView::Copy(copying.from),
            Search::Finish(Ok(dir)) => SearchView::Finish(Ok(*dir)),
            Search::Finish(Err(why)) => SearchView::Finish(Err(why@)),
        }
    }
}

/// What is reported of an executable that is nowhere.
pub open spec fn not_found(name: Seq<char>) -> Seq<char> {
    "找不到 "@ + name + "，请将其放在程序同目录"@
}

/// How a search goes on once it knows of a file: `None` where its directory is
/// not known, otherwise whether the file exists.
pub open spec fn probed(name: Seq<char>, stage: Stage, found: Option<bool>) -> SearchView {
    match stage {
        Stage::At(Dir::AppData) => if found == Some(true) {
            SearchView::Finish(Ok(Dir::AppData))
        } else {
            SearchView::Probe(name, Stage::At(Dir::Working))
        },
        Stage::At(Dir::Working) => if found == Some(true) {
            SearchView::Probe(name, Stage::CopyOf(Dir::Working))
        } else {
            SearchView::Probe(name, Stage::At(Dir::Resource))
        },
        Stage::At(Dir::Resource) => if found == Some(true) {
            SearchView::Probe(name, Stage::CopyOf(Dir::Resource))
        } else {
            SearchView::Finish(Err(not_found(name)))
        },
        Stage::CopyOf(from) => match found {
            None => SearchView::Finish(Ok(from)),
            Some(true) => SearchView::Finish(Ok(Dir::AppData)),
            Some(false) => SearchView::Create(from),
        },
    }
}

/// How a search goes on once it was tried to make the data directory.
pub open spec fn created(from: Dir, outcome: Result<(), Seq<char>>) -> SearchView {
    match outcome {
        Ok(_) => SearchView::Copy(from),
        Err(why) => SearchView::Finish(Err(why)),
    }
}

/// How a search ends once it was tried to copy the executable.
pub open spec fn copied(outcome: Result<(), Seq<char>>) -> SearchView {
    match outcome {
        Ok(_) => SearchView::Finish(Ok(Dir::AppData)),
        Err(why) => SearchView::Finish(Err(why)),
    }
}

/// Starts to look for the executable `name`.
pub fn find_binary(name: &str) -> (search: Search)
    ensures
        search@ == SearchView::Probe(name@, Stage::At(Dir::AppData)),
{
    Search::Probe(Probing { name: name.to_string(), stage: Stage::At(Dir::AppData) })
}

/// Goes on to have a copy of the executable `name` from `from` in the data
/// directory.
pub fn copy_to_app_data(name: String, from: Dir) -> (search: Search)
    ensures
        search@ == SearchView::Probe(name@, Stage::CopyOf(from)),
{
    Search::Probe(Probing { name, stage: Stage::CopyOf(from) })
}

impl Probing {
    /// The directory whose file is asked for.
    pub fn dir(&self) -> (dir: Dir)
        ensures
            dir == (match self.stage {
                Stage::At(dir) => dir,
                Stage::CopyOf(_) => Dir::AppData,
            }),
    {
        match self.stage {
            Stage::At(dir) => dir,
            Stage::CopyOf(_) => Dir::AppData,
        }
    }

    /// Goes on with whether the file exists; `None` where its directory is not
    /// known.
    pub fn answer(self, found: Option<bool>) -> (search: Search)
        ensures
            search@ == probed(self.name@, self.stage, found),
    {
        let exists = match found {
            Some(exists) => exists,
            None => false,
        };
        match self.stage {
            Stage::At(Dir::AppData) => if exists {
                Search::Finish(Ok(Dir::AppData))
            } else {
                Search::Probe(Probing { name: self.name, stage: Stage::At(Dir::Working) })
            },
            Stage::At(Dir::Working) => if exists {
                copy_to_app_data(self.name, Dir::Working)
            } else {
                Search::Probe(Probing { name: self.name, stage: Stage::At(Dir::Resource) })
            },
            Stage::At(Dir::Resource) => if exists {
                copy_to_app_data(self.name, Dir::Resource)
            } else {
                let mut why = joined("找不到 ", self.name.as_str());
                why.append("，请将其放在程序同目录");
                Search::Finish(Err(why))
            },
            Stage::CopyOf(from) => match found {
                None => Search::Finish(Ok(from)),
                Some(true) => Search::Finish(Ok(Dir::AppData)),
                Some(false) => Search::Create(Creating { from }),
            },
        }
    }
}

impl Creating {
    /// Goes on with whether the directory could be made.
    pub fn answer(self, outcome: Result<(), String>) -> (search: Search)
        ensures
            search@ == created(self.from, result_view(outcome)),
    {
        match outcome {
            Ok(_) => Search::Copy(Copying { from: self.from }),
            Err(why) => Search::Finish(Err(why)),
        }
    }
}

impl Copying {
    /// Goes on with whether the executable could be copied.
    pub fn answer(self, outcome: Result<(), String>) -> (search: Search)
        ensures
            search@ == copied(result_view(outcome)),
    {
        match outcome {
            Ok(_) => Search::Finish(Ok(Dir::AppData)),
            Err(why) => Search::Finish(Err(why)),
        }
    }
}

/// What a search finds when it asks.
pub struct Files {
    /// Whether the executable is in the data directory, the working directory and
    /// the resource directory; `None` where the directory is not known.
    pub app_data: Option<bool>,
    pub working: Option<bool>,
    pub resource: Option<bool>,
    /// The same of the data directory, asked again before copying.
    pub target: Option<bool>,
    /// What comes of making the data directory and of copying to it.
    pub created: Result<(), Seq<char>>,
    pub copied: Result<(), Seq<char>>,
}

/// Where a search ends, and from where it copies on the way.
pub struct Settlement {
    pub result: Result<Dir, Seq<char>>,
    pub copied_from: Option<Dir>,
}

/// How many questions a search can still ask.
pub open spec fn questions_left(search: SearchView) -> nat {
    match search {
        SearchView::Probe(_, Stage::At(Dir::AppData)) => 6,
        SearchView::Probe(_, Stage::At(Dir::Working)) => 5,
        SearchView::Probe(_, Stage::At(Dir::Resource)) => 4,
        SearchView::Probe(_, Stage::CopyOf(_)) => 3,
        SearchView::Create(_) => 2,
        SearchView::Copy(_) => 1,
        SearchView::Finish(_) => 0,
    }
}

/// Where `search` ends when its questions are answered by `files`.
pub open spec fn settled(search: SearchView, files: Files) -> Settlement
    decreases questions_left(search),
{
    match search {
        SearchView::Probe(name, stage) => settled(
            probed(
                name,
                stage,
                match stage {
                    Stage::At(Dir::AppData) => files.app_data,
                    Stage::At(Dir::Working) => files.working,
                    Stage::At(Dir::Resource) => files.resource,
                    Stage::CopyOf(_) => files.target,
                },
            ),
            files,
        ),
        SearchView::Create(from) => settled(created(from, files.created), files),
        SearchView::Copy(from) => Settlement {
            result: settled(copied(files.copied), files).result,
            copied_from: Some(from),
        },
        SearchView::Finish(result) => Settlement { result, copied_from: None },
    }
}

/// The first directory that holds the executable, the data directory before the
/// working directory before the resource directory.
pub open spec fn first_holding(files: Files) -> Option<Dir> {
    if files.app_data == Some(true) {
        Some(Dir::AppData)
    } else if files.working == Some(true) {
        Some(Dir::Working)
    } else if files.resource == Some(true) {
        Some(Dir::Resource)
    } else {
        None
    }
}

/// What becomes of an executable found in `from`: it is used from there only
/// where there is no data directory, otherwise from the data directory, to which
/// it is copied unless it is there.
pub open spec fn brought_in(from: Dir, files: Files) -> Settlement {
    match files.target {
        None => Settlement { result: Ok(from), copied_from: None },
        Some(true) => Settlement { result: Ok(Dir::AppData), copied_from: None },
        Some(false) => match (files.created, files.copied) {
            (Err(why), _) => Settlement { result: Err(why), copied_from: None },
            (Ok(_), Err(why)) => Settlement { result: Err(why), copied_from: Some(from) },
            (Ok(_), Ok(_)) => Settlement { result: Ok(Dir::AppData), copied_from: Some(from) },
        },
    }
}

proof fn lemma_copy_settles(name: Seq<char>, from: Dir, files: Files)
    ensures
        settled(SearchView::Probe(name, Stage::CopyOf(from)), files) == brought_in(from, files),
{
    reveal_with_fuel(settled, 5);
}

/// A search takes the executable from the first directory that holds it, the data
/// directory before the working directory before the resource directory, and
/// fails where none does.
pub proof fn search_keeps_priority(name: Seq<char>, files: Files)
    ensures
        settled(SearchView::Probe(name, Stage::At(Dir::AppData)), files) == (match first_holding(
            files,
        ) {
            Some(Dir::AppData) => Settlement { result: Ok(Dir::AppData), copied_from: None },
            Some(from) => brought_in(from, files),
            None => Settlement {
                result: Err("找不到 "@ + name + "，请将其放在程序同目录"@),
                copied_from: None,
            },
        }),
{
    lemma_copy_settles(name, Dir::Working, files);
    lemma_copy_settles(name, Dir::Resource, files);
    reveal_with_fuel(settled, 5);
}

/// A search never copies over an executable that is in the data directory, and
/// never copies from the data directory.
pub proof fn search_overwrites_nothing(name: Seq<char>, files: Files)
    ensures
        settled(SearchView::Probe(name, Stage::At(Dir::AppData)), files).copied_from matches Some(
            from,
        ) ==> {
            &&& from != Dir::AppData
            &&& files.app_data != Some(true)
            &&& files.target == Some(false)
        },
{
    search_keeps_priority(name, files);
}

/// A search begins in the data directory, for the executable it was asked for.
pub proof fn search_begins_in_data_directory(name: Seq<char>, search: Search)
    requires
        search@ == SearchView::Probe(name, Stage::At(Dir::AppData)),
    ensures
        search matches Search::Probe(probing) && probing.name@ == name && probing.stage == Stage::At(
            Dir::AppData,
        ),
{
}

/// An executable that is in the directory looked at ends the search there, in the
/// data directory, or leads to a copy of it; one that is not there, or whose
/// directory is not known, is looked for in the next directory. The name that is
/// searched for stays the same.
pub proof fn search_goes_from_directory_to_directory(
    probing: Probing,
    found: Option<bool>,
    search: Search,
)
    requires
        search@ == probed(probing.name@, probing.stage, found),
    ensures
        probing.stage matches Stage::At(dir) ==> if found == Some(true) {
            if dir == Dir::AppData {
                search == Search::Finish(Ok(Dir::AppData))
            } else {
                search matches Search::Probe(next) && next.name@ == probing.name@ && next.stage
                    == Stage::CopyOf(dir)
            }
        } else {
            match dir {
                Dir::AppData => search matches Search::Probe(next) && next.name@ == probing.name@
                    && next.stage == Stage::At(Dir::Working),
                Dir::Working => search matches Search::Probe(next) && next.name@ == probing.name@
                    && next.stage == Stage::At(Dir::Resource),
                Dir::Resource => search matches Search::Finish(Err(why)) && why@ == "找不到 "@
                    + probing.name@ + "，请将其放在程序同目录"@,
            }
        },
        probing.stage matches Stage::CopyOf(from) ==> match found {
            None => search == Search::Finish(Ok(from)),
            Some(true) => search == Search::Finish(Ok(Dir::AppData)),
            Some(false) => search matches Search::Create(next) && next.from == from,
        },
{
}

/// The executable is copied, from where it was found, once the data directory could
/// be made, and is then in the data directory; what goes wrong on the way is told
/// in the words of the system.
pub proof fn copy_comes_from_where_it_was_found(
    creating: Creating,
    made: Result<(), String>,
    after_making: Search,
    written: Result<(), String>,
    after_writing: Search,
)
    requires
        after_making@ == created(creating.from, result_view(made)),
        after_writing@ == copied(result_view(written)),
    ensures
        match made {
            Ok(_) => after_making matches Search::Copy(copying) && copying.from == creating.from,
            Err(why) => after_making matches Search::Finish(Err(told)) && told@ == why@,
        },
        match written {
            Ok(_) => after_writing == Search::Finish(Ok(Dir::AppData)),
            Err(why) => after_writing matches Search::Finish(Err(told)) && told@ == why@,
        },
{
}

} // verus!
