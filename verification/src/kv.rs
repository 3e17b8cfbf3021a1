//! One record of the circular log: a key together with its value.

use vstd::prelude::*;
use crate::model::EntryModel;

verus! {

/// A key-value record as the log stores it.
pub struct LogItem<V> {
    pub key: u64,
    pub value: V,
}

impl<V> View for LogItem<V> {
    type V = EntryModel<V>;

    open spec fn view(&self) -> EntryModel<V> {
        EntryModel { key: self.key, value: self.value }
    }
}

impl<V> LogItem<V> {
    /// A record holding the given key and value.
    pub fn new(key: u64, value: V) -> (r: Self)
        ensures
            r.key == key,
            r.value == value,
    {
        LogItem { key, value }
    }
}

} // verus!
