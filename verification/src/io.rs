//! What the library asks of the file system, and what it is answered.
//!
//! The library decides and the caller acts. A job that needs the file system
//! is a value that names its next request. The caller carries the request out
//! and resumes the job with the reply, until the job is done or has failed.

use vstd::prelude::*;
use crate::file_path::FilePath;

verus! {

/// Why a request could not be carried out.
#[derive(Debug)]
pub enum Failure {
    /// Something stands already where a file was to be put.
    AlreadyExists(String),
    /// A path that cannot be used for what it was given for.
    InvalidInput,
    /// Anything else.
    Other(String),
}

impl Failure {
    /// What a user is told of the failure.
    pub open spec fn spec_message(self) -> Seq<char> {
        match self {
            Failure::AlreadyExists(text) => text@,
            Failure::InvalidInput => "invalid input parameter"@,
            Failure::Other(text) => text@,
        }
    }

    /// What a user is told of the failure.
    pub fn message(&self) -> (res: String)
        ensures
            res@ == self.spec_message(),
            match self {
                Failure::AlreadyExists(text) => res@ == text@,
                Failure::InvalidInput => res@ == "invalid input parameter"@,
                Failure::Other(text) => res@ == text@,
            },
    {
        match self {
            Failure::AlreadyExists(text) => text.clone(),
            Failure::InvalidInput => "invalid input parameter".to_owned(),
            Failure::Other(text) => text.clone(),
        }
    }
}

/// One thing to do, with `P` for the paths in it.
#[derive(Debug)]
pub enum Request<P> {
    /// Name the working directory. Answered by `Path`.
    CurrentDir,
    /// Name the path behind all links. Answered by `Path`.
    Canonicalize(P),
    /// Tell whether a directory stands there. Answered by `Flag`.
    IsDir(P),
    /// Tell whether anything stands there. Answered by `Flag`.
    TryExists(P),
    /// Create a directory and those above it. Answered by `Done`.
    CreateDirAll(P),
    /// Create a directory and those above it with these permission bits, where
    /// the platform has such, if it is not there. Answered by `Done`.
    CreatePrivateDir { path: P, mode: u32 },
    /// Set the permission bits of a directory, where the platform has such.
    /// Answered by `Done`.
    Restrict { path: P, mode: u32 },
    /// Move a directory as a whole. Answered by `Done`.
    Rename { from: P, to: P },
    /// Create a temporary file in a directory, to show that it takes files.
    /// Answered by `Done`.
    Probe(P),
    /// Copy a file to a temporary file in a directory. Answered by `Done`.
    StageCopy { source: P, dir: P },
    /// Write the bytes that the job holds to a temporary file in a directory.
    /// Answered by `Done`.
    StageBytes(P),
    /// Give the temporary file this name unless something has it. Answered by
    /// `Done`.
    Persist(P),
    /// Remove a file. Any answer will do.
    Remove(P),
    /// Read the attachment rows of the archive. Answered by `Rows`.
    LoadRows,
    /// Write the new attachment paths that the job holds to the archive, all of
    /// them or none. Answered by `Done`.
    CommitRows,
}

impl DeepView for Request<FilePath> {
    type V = Request<Seq<u8>>;

    open spec fn deep_view(&self) -> Request<Seq<u8>> {
        match self {
            Request::CurrentDir => Request::CurrentDir,
            Request::Canonicalize(p) => Request::Canonicalize(p@),
            Request::IsDir(p) => Request::IsDir(p@),
            Request::TryExists(p) => Request::TryExists(p@),
            Request::CreateDirAll(p) => Request::CreateDirAll(p@),
            Request::CreatePrivateDir { path, mode } => Request::CreatePrivateDir {
                path: path@,
                mode: *mode,
            },
            Request::Restrict { path, mode } => Request::Restrict { path: path@, mode: *mode },
            Request::Rename { from, to } => Request::Rename { from: from@, to: to@ },
            Request::Probe(p) => Request::Probe(p@),
            Request::StageCopy { source, dir } => Request::StageCopy { source: source@, dir: dir@ },
            Request::StageBytes(p) => Request::StageBytes(p@),
            Request::Persist(p) => Request::Persist(p@),
            Request::Remove(p) => Request::Remove(p@),
            Request::LoadRows => Request::LoadRows,
            Request::CommitRows => Request::CommitRows,
        }
    }
}

impl<P> Request<P> {
    /// Whether carrying the request out changes nothing.
    pub open spec fn only_reads(self) -> bool {
        match self {
            Request::CurrentDir => true,
            Request::Canonicalize(_) => true,
            Request::IsDir(_) => true,
            Request::TryExists(_) => true,
            Request::LoadRows => true,
            _ => false,
        }
    }
}

/// An attachment that the archive knows, with `P` for its path.
#[derive(Debug)]
pub struct Row<P> {
    pub chat: String,
    pub id: String,
    pub source: P,
}

impl DeepView for Row<FilePath> {
    type V = Row<Seq<u8>>;

    open spec fn deep_view(&self) -> Row<Seq<u8>> {
        Row { chat: self.chat, id: self.id, source: self.source@ }
    }
}

/// What came of a request, with `P` for a path and `R` for the rows.
#[derive(Debug)]
pub enum Reply<P, R> {
    Path(P),
    Flag(bool),
    Done,
    Rows(R),
    /// The request was tried in vain.
    Failed(Failure),
    /// The task that was to carry the request out broke down.
    TaskFailed,
}

/// A reply as callers give it.
pub type Answer = Reply<FilePath, Vec<Row<FilePath>>>;

/// A reply as contracts speak of it.
pub type AnswerView = Reply<Seq<u8>, Seq<Row<Seq<u8>>>>;

impl DeepView for Reply<FilePath, Vec<Row<FilePath>>> {
    type V = AnswerView;

    open spec fn deep_view(&self) -> AnswerView {
        match self {
            Reply::Path(p) => Reply::Path(p@),
            Reply::Flag(b) => Reply::Flag(*b),
            Reply::Done => Reply::Done,
            Reply::Rows(rows) => Reply::Rows(rows.deep_view()),
            Reply::Failed(f) => Reply::Failed(*f),
            Reply::TaskFailed => Reply::TaskFailed,
        }
    }
}

/// Where a job `J` stands: it asks for something, is done with a result `R`, or
/// has failed with an error `E`.
#[derive(Debug)]
pub enum Step<J, R, E> {
    Ask(J),
    Done(R),
    Failed(E),
}

impl<J: DeepView, R: DeepView, E> DeepView for Step<J, R, E> {
    type V = Step<J::V, R::V, E>;

    open spec fn deep_view(&self) -> Step<J::V, R::V, E> {
        match self {
            Step::Ask(job) => Step::Ask(job.deep_view()),
            Step::Done(result) => Step::Done(result.deep_view()),
            Step::Failed(error) => Step::Failed(*error),
        }
    }
}

} // verus!
