//! The record kept for each tracked file, and how the records are gathered
//! from the answers to the per-file queries.

use vstd::prelude::*;
use crate::decimal::{parse_integer, parse_integer_text};
use crate::text::trimmed;

verus! {

/// A tracked file and the time of the last commit that touched it.
#[derive(Debug, PartialEq, Eq, PartialOrd, Ord)]
pub struct FileInfo {
    /// The file's path, as the repository lists it.
    pub filename: String,
    /// The commit's time in seconds since the Unix epoch.
    pub commit_time: i64,
}

/// What a `FileInfo` holds.
pub struct FileInfoView {
    pub filename: Seq<char>,
    pub commit_time: i64,
}

impl View for FileInfo {
    type V = FileInfoView;

    open spec fn view(&self) -> FileInfoView {
        FileInfoView { filename: self.filename@, commit_time: self.commit_time }
    }
}

/// What each record of `infos` holds.
pub open spec fn views(infos: Seq<FileInfo>) -> Seq<FileInfoView> {
    infos.map_values(|info: FileInfo| info@)
}

/// The query for one file's last commit time, and what came of it.
#[derive(Debug, PartialEq, Eq)]
pub struct LogQuery {
    /// The file asked about.
    pub filename: String,
    /// The text the query printed; `None` where it could not be run.
    pub output: Option<String>,
}

/// The commit time that a query's output gives: the integer it holds between
/// leading and trailing white space. `None` where it holds anything else.
pub open spec fn commit_time_in(output: Seq<char>) -> Option<i64> {
    parse_integer(trimmed(output))
}

/// The commit time that `query` found, if it found one.
pub open spec fn found_time(query: LogQuery) -> Option<i64> {
    match query.output {
        Some(text) => commit_time_in(text@),
        None => None,
    }
}

/// The records of the queries that found a commit time, in the queries' order.
pub open spec fn collected(queries: Seq<LogQuery>) -> Seq<FileInfoView>
    decreases queries.len(),
{
    if queries.len() == 0 {
        Seq::empty()
    } else {
        let before = collected(queries.drop_last());
        match found_time(queries.last()) {
            Some(time) => before.push(
                FileInfoView { filename: queries.last().filename@, commit_time: time },
            ),
            None => before,
        }
    }
}

/// Every query found a commit time.
pub open spec fn all_found(queries: Seq<LogQuery>) -> bool {
    forall|i: int| 0 <= i < queries.len() ==> found_time(#[trigger] queries[i]) is Some
}

/// There are no more records than queries, and as many where every query
/// found a commit time.
pub proof fn lemma_collected_len(queries: Seq<LogQuery>)
    ensures
        collected(queries).len() <= queries.len(),
        all_found(queries) ==> collected(queries).len() == queries.len(),
    decreases queries.len(),
{
    if queries.len() > 0 {
        lemma_collected_len(queries.drop_last());
        if all_found(queries) {
            assert(found_time(queries.last()) is Some);
            assert forall|i: int| 0 <= i < queries.drop_last().len() implies found_time(
                #[trigger] queries.drop_last()[i],
            ) is Some by {
                assert(queries.drop_last()[i] == queries[i]);
            }
        }
    }
}

/// A query that did not find a commit time leaves no record behind: the
/// records are those gathered without it.
pub proof fn lemma_collected_skips_failure(queries: Seq<LogQuery>, i: int)
    requires
        0 <= i < queries.len(),
        found_time(queries[i]) is None,
    ensures
        collected(queries) == collected(queries.remove(i)),
    decreases queries.len(),
{
    if i == queries.len() - 1 {
        assert(queries.remove(i) == queries.drop_last());
    } else {
        lemma_collected_skips_failure(queries.drop_last(), i);
        assert(queries.remove(i).drop_last() == queries.drop_last().remove(i));
    }
}

impl FileInfo {
    /// The record for `filename`, given the text that the query for its last
    /// commit time printed. `None` where the text holds no commit time.
    pub fn from_log(filename: &str, output: &str) -> (info: Option<FileInfo>)
        ensures
            info is Some <==> commit_time_in(output@) is Some,
            info is Some ==> info->0@ == (FileInfoView {
                filename: filename@,
                commit_time: commit_time_in(output@)->0,
            }),
    {
        match parse_integer_text(output) {
            Some(commit_time) => Some(
                FileInfo { filename: filename.to_owned(), commit_time },
            ),
            None => None,
        }
    }
}

impl LogQuery {
    /// The record that this query gives, if it found a commit time.
    pub fn file_info(&self) -> (info: Option<FileInfo>)
        ensures
            info is Some <==> found_time(*self) is Some,
            info is Some ==> info->0@ == (FileInfoView {
                filename: self.filename@,
                commit_time: found_time(*self)->0,
            }),
    {
        match &self.output {
            Some(text) => FileInfo::from_log(self.filename.as_str(), text.as_str()),
            None => None,
        }
    }
}

/// Gathers the records of the queries that found a commit time, in the
/// queries' order.
pub fn collect_file_infos(queries: &Vec<LogQuery>) -> (infos: Vec<FileInfo>)
    ensures
        views(infos@) == collected(queries@),
        infos.len() <= queries.len(),
        all_found(queries@) ==> infos.len() == queries.len(),
{
    let mut infos: Vec<FileInfo> = Vec::new();
    let mut i: usize = 0;
    while i < queries.len()
        invariant
            i <= queries.len(),
            views(infos@) == collected(queries@.take(i as int)),
        decreases queries.len() - i,
    {
        assert(queries@.take(i + 1).drop_last() == queries@.take(i as int));
        if let Some(info) = queries[i].file_info() {
            infos.push(info);
        }
        i += 1;
    }
    proof {
        assert(queries@.take(queries.len() as int) == queries@);
        lemma_collected_len(queries@);
    }
    infos
}

} // verus!
