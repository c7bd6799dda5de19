pub mod encode;
pub mod fetch;
pub mod job;
pub mod report;
pub mod size;
pub mod tree;
pub mod url;

use vstd::prelude::*;

verus! {

/// A place in a repository of models.
#[derive(Debug)]
pub struct HfUrl {
    pub repo_id: String,
    pub revision: String,
    pub path_in_repo: String,
    pub is_folder: bool,
}

/// A file of a repository.
#[derive(Debug)]
pub struct FileEntry {
    pub path: String,
    pub size: u64,
    pub is_lfs: bool,
}

/// A file that can have to be fetched.
#[derive(Debug)]
pub struct DownloadJob {
    pub file: FileEntry,
    pub local_path: String,
    /// Whether it has to be fetched.
    pub new: bool,
    pub total_files: usize,
}

/// What came of a file.
#[derive(Debug)]
pub struct FileResult {
    pub path: String,
    pub size: u64,
    pub status: String,
    pub local_path: Option<String>,
}

/// What came of a download.
#[derive(Debug)]
pub struct DownloadResult {
    pub repo_id: String,
    pub revision: String,
    pub target_dir: String,
    pub files: Vec<FileResult>,
}

/// A place in a repository, as mathematical values.
pub struct UrlView {
    pub repo_id: Seq<char>,
    pub revision: Seq<char>,
    pub path: Seq<char>,
    pub is_folder: bool,
}

impl View for HfUrl {
    type V = UrlView;

    open spec fn view(&self) -> UrlView {
        UrlView {
            repo_id: self.repo_id@,
            revision: self.revision@,
            path: self.path_in_repo@,
            is_folder: self.is_folder,
        }
    }
}

} // verus!
