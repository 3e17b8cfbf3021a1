//! The circular log: a fixed-size array of record positions. A position
//! holds nothing until the write head first reaches it.

use vstd::prelude::*;
use crate::kv::LogItem;
use crate::model::EntryModel;

verus! {

/// Fixed-capacity storage for the cache's records. Positions are referred
/// to by index from the sets, so the log is never compacted or reordered.
pub struct Log<V> {
    pub entries: Vec<Option<LogItem<V>>>,
}

impl<V> View for Log<V> {
    type V = Seq<Option<EntryModel<V>>>;

    open spec fn view(&self) -> Seq<Option<EntryModel<V>>> {
        Seq::new(
            self.entries@.len(),
            |p: int| match self.entries@[p] {
                Some(item) => Some(item@),
                None => None,
            },
        )
    }
}

impl<V> Log<V> {
    /// A fresh log of `log_size` unwritten positions.
    pub fn new(log_size: usize) -> (r: Self)
        ensures
            r.entries@.len() == log_size,
            r@ =~= Seq::new(log_size as nat, |p: int| None::<EntryModel<V>>),
    {
        let mut entries: Vec<Option<LogItem<V>>> = Vec::new();
        let mut i: usize = 0;
        while i < log_size
            invariant
                i <= log_size,
                entries@.len() == i,
                forall|j: int| 0 <= j < i ==> entries@[j] is None,
            decreases log_size - i,
        {
            entries.push(None);
            i += 1;
        }
        Log { entries }
    }
}

} // verus!
