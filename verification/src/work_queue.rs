//! Work items and the FIFO work queue that feeds the download workers.

use vstd::prelude::*;
use std::collections::VecDeque;

verus! {

/// What kind of file a work item fetches.
#[derive(Debug, Clone, Copy, PartialEq, Eq, Structural)]
pub enum FileType {
    Key,
    MediaSegment,
}

/// One unit of download work: where to fetch from and where, relative to
/// the per-kind subdirectory, to write.
#[derive(Debug, Clone, PartialEq, Eq)]
pub struct WorkItem {
    pub local_path: String,
    pub remote_url: String,
    pub file_type: FileType,
}

pub struct WorkItemModel {
    pub local_path: Seq<char>,
    pub remote_url: Seq<char>,
    pub file_type: FileType,
}

impl View for WorkItem {
    type V = WorkItemModel;

    open spec fn view(&self) -> WorkItemModel {
        WorkItemModel {
            local_path: self.local_path@,
            remote_url: self.remote_url@,
            file_type: self.file_type,
        }
    }
}

impl WorkItem {
    pub fn new(local_path: String, remote_url: String, file_type: FileType) -> (r: WorkItem)
        ensures
            r.local_path@ == local_path@,
            r.remote_url@ == remote_url@,
            r.file_type == file_type,
    {
        WorkItem { file_type, local_path, remote_url }
    }
}

/// A first-in first-out queue of work items: producers add at the back,
/// workers take from the front.
pub struct WorkQueue {
    work: VecDeque<WorkItem>,
}

impl View for WorkQueue {
    type V = Seq<WorkItemModel>;

    closed spec fn view(&self) -> Seq<WorkItemModel> {
        self.work@.map_values(|w: WorkItem| w@)
    }
}

impl WorkQueue {
    /// An empty queue.
    pub fn new() -> (r: WorkQueue)
        ensures
            r@ == Seq::<WorkItemModel>::empty(),
    {
        let r = WorkQueue { work: VecDeque::new() };
        proof {
            assert(r@ =~= Seq::<WorkItemModel>::empty());
        }
        r
    }

    /// Add an item at the back.
    pub fn add(&mut self, item: WorkItem)
        ensures
            final(self)@ == old(self)@.push(item@),
    {
        let ghost iv = item@;
        self.work.push_back(item);
        proof {
            assert(self@ =~= old(self)@.push(iv));
        }
    }

    /// Is there nothing left to take?
    pub fn is_empty(&self) -> (r: bool)
        ensures
            r == (self@.len() == 0),
    {
        self.work.len() == 0
    }

    /// Take the oldest item, if any.
    pub fn take(&mut self) -> (r: Option<WorkItem>)
        ensures
            match r {
                Some(item) => old(self)@.len() > 0 && item@ == old(self)@[0] && final(self)@ == old(
                    self,
                )@.skip(1),
                None => old(self)@.len() == 0 && final(self)@ == old(self)@,
            },
{
        let r = self.work.pop_front();
        proof {
            if old(self).work@.len() > 0 {
                assert(self@ =~= old(self)@.skip(1));
                assert(old(self)@[0] == old(self).work@[0]@);
            } else {
                assert(self@ =~= old(self)@);
            }
        }
        r
    }
}

} // verus!
