use crate::log_format::{del_record, set_record};
use vstd::prelude::*;

pub mod aof;

verus! {

/// A place that mutations are recorded in, beside the cache.
pub trait Persist {
    /// The log file and flush period of this backend, if it keeps a log.
    spec fn log_target(&self) -> Option<(Seq<char>, u64)>;

    /// Whether this backend keeps a record of the mutations it is given.
    open spec fn keeps_records(&self) -> bool {
        self.log_target() is Some
    }

    /// The log text this backend has queued and not yet handed out.
    spec fn written(&self) -> Seq<char>;

    /// Records that `val` is now held under `key`.
    fn set(&mut self, key: &str, val: &str)
        ensures
            final(self).log_target() == old(self).log_target(),
            final(self).written() == old(self).written() + (if old(self).keeps_records() {
                set_record(key@, val@)
            } else {
                Seq::empty()
            }),
    ;

    /// Records that nothing is held under `key` any more.
    fn del(&mut self, key: &str)
        ensures
            final(self).log_target() == old(self).log_target(),
            final(self).written() == old(self).written() + (if old(self).keeps_records() {
                del_record(key@)
            } else {
                Seq::empty()
            }),
    ;
}

/// The backend that records nothing: the cache alone holds the data.
pub struct Empty;

impl Persist for Empty {
    open spec fn log_target(&self) -> Option<(Seq<char>, u64)> {
        None
    }

    open spec fn written(&self) -> Seq<char> {
        Seq::empty()
    }

    fn set(&mut self, _key: &str, _val: &str) {
    }

    fn del(&mut self, _key: &str) {
    }
}

} // verus!
