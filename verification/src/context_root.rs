//! The directory layout of a context store.
use std::path::PathBuf;
use vstd::prelude::*;
use crate::paths::{joined, path_join};

verus! {

/// The directories of a context store: the root, and under it the
/// sessions, hashes and logs directories.
pub struct ContextRoot {
    root: PathBuf,
    sessions_dir: PathBuf,
    hashes_dir: PathBuf,
    logs_dir: PathBuf,
}

/// The directories of one session.
pub struct SessionDirs {
    pub session_dir: PathBuf,
    pub transient_dir: PathBuf,
    pub short_term_dir: PathBuf,
    pub long_term_dir: PathBuf,
}

/// Names of the category directories every session's long-term layer has.
pub open spec fn session_categories() -> Seq<Seq<char>> {
    seq!["git_rules"@, "tool_configs"@, "task_patterns"@]
}

impl ContextRoot {
    /// The root directory.
    pub closed spec fn root_spec(&self) -> PathBuf {
        self.root
    }

    /// The sessions directory.
    pub closed spec fn sessions_spec(&self) -> PathBuf {
        self.sessions_dir
    }

    /// The hashes directory.
    pub closed spec fn hashes_spec(&self) -> PathBuf {
        self.hashes_dir
    }

    /// The logs directory.
    pub closed spec fn logs_spec(&self) -> PathBuf {
        self.logs_dir
    }

    /// The layout under `root`: `sessions`, `hashes` and `logs`. Nothing is
    /// created on disk.
    pub fn layout(root: PathBuf) -> (c: Self)
        ensures
            c.root_spec() == root,
            c.sessions_spec() == joined(root, "sessions"@),
            c.hashes_spec() == joined(root, "hashes"@),
            c.logs_spec() == joined(root, "logs"@),
    {
        let sessions_dir = path_join(&root, "sessions");
        let hashes_dir = path_join(&root, "hashes");
        let logs_dir = path_join(&root, "logs");
        ContextRoot { root, sessions_dir, hashes_dir, logs_dir }
    }

    /// The directory of session `session_id`.
    pub fn session_dir(&self, session_id: &str) -> (p: PathBuf)
        ensures
            p == joined(self.sessions_spec(), session_id@),
    {
        path_join(&self.sessions_dir, session_id)
    }

    /// The hashes directory.
    pub fn hashes_dir(&self) -> (p: &PathBuf)
        ensures
            *p == self.hashes_spec(),
    {
        &self.hashes_dir
    }

    /// The logs directory.
    pub fn logs_dir(&self) -> (p: &PathBuf)
        ensures
            *p == self.logs_spec(),
    {
        &self.logs_dir
    }

    /// The root directory.
    pub fn root(&self) -> (p: &PathBuf)
        ensures
            *p == self.root_spec(),
    {
        &self.root
    }

    /// The directories of session `session_id`: the session directory and
    /// under it `transient`, `short-term` and `long-term`. Nothing is
    /// created on disk.
    pub fn session_layout(&self, session_id: &str) -> (d: SessionDirs)
        ensures
            d.session_dir == joined(self.sessions_spec(), session_id@),
            d.transient_dir == joined(d.session_dir, "transient"@),
            d.short_term_dir == joined(d.session_dir, "short-term"@),
            d.long_term_dir == joined(d.session_dir, "long-term"@),
    {
        let session_dir = self.session_dir(session_id);
        let transient_dir = path_join(&session_dir, "transient");
        let short_term_dir = path_join(&session_dir, "short-term");
        let long_term_dir = path_join(&session_dir, "long-term");
        SessionDirs { session_dir, transient_dir, short_term_dir, long_term_dir }
    }
}

} // verus!
