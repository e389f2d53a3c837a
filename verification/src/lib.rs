//! Ages of tracked files: given the paths a repository tracks and the time of
//! the last commit that touched each, order them from the oldest change to the
//! newest and describe every file's age in words.

pub mod age;
pub mod decimal;
pub mod file_info;
pub mod report;
pub mod sort;
pub mod text;
