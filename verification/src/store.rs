//! A model of a disk on which files are made, for what is said of jobs that
//! make them.

use vstd::prelude::*;
use crate::disk::{Disk, Node, Place};
use crate::io::{AnswerView, Request};
use crate::path;

verus! {

/// A disk, and what the temporary file of the job at hand holds. The temporary
/// file itself is not counted among the files on the disk.
#[verifier::ext_equal]
pub ghost struct Store {
    pub disk: Disk,
    pub staged: Option<Seq<u8>>,
}

/// The disk with a file at a place.
pub open spec fn with_file(disk: Disk, k: Place, bytes: Seq<u8>) -> Disk {
    Disk { nodes: disk.nodes.insert(k, Node::File(bytes)) }
}

/// The disk with nothing at a place.
pub open spec fn without(disk: Disk, k: Place) -> Disk {
    Disk { nodes: disk.nodes.remove(k) }
}

/// Whether a file with these bytes is on the disk.
pub open spec fn is_file(disk: Disk, k: Place, bytes: Seq<u8>) -> bool {
    disk.has(k) && disk.nodes[k] == Node::File(bytes)
}

impl Store {
    /// Whether a request can be answered by `reply` and leave the store as
    /// `later`. `bytes` are those that the job has for a new file, if any.
    pub open spec fn can_become(
        self,
        request: Request<Seq<u8>>,
        bytes: Option<Seq<u8>>,
        reply: AnswerView,
        later: Store,
    ) -> bool {
        match request {
            Request::TryExists(p) => {
                &&& later == self
                &&& reply matches AnswerView::Flag(there) ==> there == self.disk.reaches(p)
            },
            Request::CreateDirAll(p) => {
                &&& later.staged == self.staged
                &&& self.disk.gains_dirs(later.disk, p)
                &&& reply is Done ==> later.disk.has_way(p)
            },
            Request::StageCopy { source, .. } => {
                &&& later.disk == self.disk
                &&& reply is Done ==> (later.staged matches Some(copy) && is_file(
                    self.disk,
                    path::place(source),
                    copy,
                ))
            },
            Request::StageBytes(_) => {
                &&& later.disk == self.disk
                &&& reply is Done ==> later.staged == bytes
            },
            Request::Persist(target) => if reply is Done {
                let k = path::place(target);
                &&& !self.disk.has(k)
                &&& k.len() > 1 ==> self.disk.is_dir(k.drop_last())
                &&& self.staged matches Some(staged) && later.disk == with_file(
                    self.disk,
                    k,
                    staged,
                )
            } else {
                later == self
            },
            Request::Remove(p) => {
                &&& later.staged == self.staged
                &&& later.disk == without(self.disk, path::place(p)) || later.disk
                    == self.disk
            },
            Request::Probe(_) => later == self,
            Request::CommitRows => later == self,
            request => request.only_reads() ==> later == self,
        }
    }
}

} // verus!
