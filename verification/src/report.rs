//! The report: one line for each file whose last commit time is known, from
//! the oldest change to the newest.

use vstd::prelude::*;
use vstd::string::StringExecFns;
use crate::age::{age_phrase, elapsed_seconds, format_duration, relative_age};
use crate::file_info::{
    all_found, collect_file_infos, collected, lemma_collected_len, views, FileInfo, FileInfoView,
    LogQuery,
};
use crate::sort::{is_stable_sort_of, sorted_by_commit_time};
use crate::text::texts;

verus! {

/// A report line: the file's name, then the age phrase in round brackets.
pub open spec fn line_text(filename: Seq<char>, phrase: Seq<char>) -> Seq<char> {
    filename + " ("@ + phrase + ")"@
}

/// The report line for `record` at the instant `now`.
pub open spec fn line_at(record: FileInfoView, now: i64) -> Seq<char> {
    line_text(record.filename, age_phrase(elapsed_seconds(now, record.commit_time)))
}

/// `line` is the report line for `record` at some instant.
pub open spec fn is_line_of(line: Seq<char>, record: FileInfoView) -> bool {
    exists|now: i64| line == #[trigger] line_at(record, now)
}

/// The report lines for `records` at the instant `now`, in the records' order.
pub open spec fn lines_at(records: Seq<FileInfoView>, now: i64) -> Seq<Seq<char>> {
    records.map_values(|record: FileInfoView| line_at(record, now))
}

/// Each of `lines` is the report line for the record in its place, at some
/// instant.
pub open spec fn are_lines_of(lines: Seq<Seq<char>>, records: Seq<FileInfoView>) -> bool {
    &&& lines.len() == records.len()
    &&& forall|i: int| 0 <= i < lines.len() ==> is_line_of(#[trigger] lines[i], records[i])
}

fn compose_line(filename: &str, phrase: &str) -> (line: String)
    ensures
        line@ == line_text(filename@, phrase@),
{
    let mut line = String::from_str(filename);
    line.append(" (");
    line.append(phrase);
    line.append(")");
    line
}

impl FileInfo {
    /// The report line for this file at the instant `now`, in seconds since
    /// the Unix epoch.
    pub fn report_line_at(&self, now: i64) -> (line: String)
        ensures
            line@ == line_at(self@, now),
    {
        let phrase: String = relative_age(now, self.commit_time);
        compose_line(self.filename.as_str(), phrase.as_str())
    }

    /// The report line for this file at the time of the call.
    pub fn report_line(&self) -> (line: String)
        ensures
            is_line_of(line@, self@),
    {
        let phrase = format_duration(self.commit_time);
        let line = compose_line(self.filename.as_str(), phrase.as_str());
        proof {
            let now = choose|now: i64|
                phrase@ == age_phrase(#[trigger] elapsed_seconds(now, self.commit_time));
            assert(line@ == line_at(self@, now));
        }
        line
    }
}

/// The report at the instant `now`, in seconds since the Unix epoch: a line
/// for each query that found a commit time, from the oldest commit to the
/// newest. Files with the same commit time keep the order of their queries.
pub fn report_at(queries: &Vec<LogQuery>, now: i64) -> (lines: Vec<String>)
    ensures
        exists|sorted: Seq<FileInfoView>| #[trigger]
            is_stable_sort_of(sorted, collected(queries@)) && texts(lines@) == lines_at(
                sorted,
                now,
            ),
        lines.len() <= queries.len(),
        all_found(queries@) ==> lines.len() == queries.len(),
{
    let infos = sorted_by_commit_time(collect_file_infos(queries));
    let mut lines: Vec<String> = Vec::new();
    let mut i: usize = 0;
    while i < infos.len()
        invariant
            i <= infos.len(),
            texts(lines@) == lines_at(views(infos@).take(i as int), now),
        decreases infos.len() - i,
    {
        let line = infos[i].report_line_at(now);
        let ghost before = lines@;
        lines.push(line);
        proof {
            assert(texts(lines@) == texts(before).push(line@));
        }
        i += 1;
    }
    lines
}

/// The report at the time of the call: a line for each query that found a
/// commit time, from the oldest commit to the newest. Files with the same
/// commit time keep the order of their queries. The clock is read anew for
/// every line.
pub fn report(queries: &Vec<LogQuery>) -> (lines: Vec<String>)
    ensures
        exists|sorted: Seq<FileInfoView>| #[trigger]
            is_stable_sort_of(sorted, collected(queries@)) && are_lines_of(
                texts(lines@),
                sorted,
            ),
        lines.len() <= queries.len(),
        all_found(queries@) ==> lines.len() == queries.len(),
{
    let infos = sorted_by_commit_time(collect_file_infos(queries));
    let mut lines: Vec<String> = Vec::new();
    let mut i: usize = 0;
    while i < infos.len()
        invariant
            i <= infos.len(),
            are_lines_of(texts(lines@), views(infos@).take(i as int)),
        decreases infos.len() - i,
    {
        let line = infos[i].report_line();
        let ghost before = lines@;
        lines.push(line);
        proof {
            assert(texts(lines@) == texts(before).push(line@));
        }
        i += 1;
    }
    lines
}

/// What holds of every report on `queries`, whatever the instant `now`: it has
/// no more lines than there were queries, it has as many where every query
/// found a commit time, and no line comes before the line of a file whose last
/// commit is older.
pub proof fn lemma_report_shape(queries: Seq<LogQuery>, sorted: Seq<FileInfoView>, now: i64)
    requires
        is_stable_sort_of(sorted, collected(queries)),
    ensures
        lines_at(sorted, now).len() <= queries.len(),
        all_found(queries) ==> lines_at(sorted, now).len() == queries.len(),
        forall|i: int, j: int|
            0 <= i <= j < sorted.len() ==> sorted[i].commit_time <= sorted[j].commit_time,
        forall|i: int|
            0 <= i < sorted.len() ==> lines_at(sorted, now)[i] == line_at(
                #[trigger] sorted[i],
                now,
            ),
{
    lemma_collected_len(queries);
}

} // verus!
