use super::Persist;
use crate::cache::Cache;
use crate::log_format::{
    del_record, del_tag, line_views, replay_lines, replay_text, set_record, set_tag, split_lines,
};
use crate::StoreError;
use vstd::prelude::*;

verus! {

/// The append-only log backend. Records are queued in `pending` until the
/// owner of the log file takes them out and writes them.
pub struct Storage {
    filename: String,
    sync_time: u64,
    pending: String,
}

/// The tag on the first line of a record.
#[derive(PartialEq, Eq, Structural, Clone, Copy, Debug)]
pub enum ActionType {
    Put,
    Del,
}

impl ActionType {
    pub open spec fn tag(self) -> Seq<char> {
        match self {
            ActionType::Put => set_tag(),
            ActionType::Del => del_tag(),
        }
    }

    /// The tag written for this action: `Set` or `Del`.
    pub fn as_str(&self) -> (r: &'static str)
        ensures
            r@ == self.tag(),
    {
        match self {
            ActionType::Put => {
                proof {
                    reveal_strlit("Set");
                }
                assert("Set"@ =~= set_tag());
                "Set"
            },
            ActionType::Del => {
                proof {
                    reveal_strlit("Del");
                }
                assert("Del"@ =~= del_tag());
                "Del"
            },
        }
    }

    /// The action whose tag is exactly `input`, if any.
    pub fn from(input: &String) -> (r: Option<ActionType>)
        ensures
            r == (if input@ == set_tag() {
                Some(ActionType::Put)
            } else if input@ == del_tag() {
                Some(ActionType::Del)
            } else {
                None
            }),
    {
        let set = String::from_str(ActionType::Put.as_str());
        let del = String::from_str(ActionType::Del.as_str());
        if *input == set {
            Some(ActionType::Put)
        } else if *input == del {
            Some(ActionType::Del)
        } else {
            None
        }
    }
}

/// Rebuilds the mapping that a log text records; fails on a corrupt log.
pub fn read_file(text: &str) -> (r: Result<Cache, StoreError>)
    ensures
        match r {
            Ok(c) => c.wf() && replay_text(text@) == Some(c@),
            Err(e) => e == StoreError::CorruptLog && replay_text(text@) is None,
        },
{
    let lines = split_lines(text);
    let ghost ls = line_views(lines@);
    let mut map = Cache::new();
    let mut i: usize = 0;
    assert(ls.skip(0) =~= ls);
    while i < lines.len()
        invariant
            ls == line_views(lines@),
            map.wf(),
            i <= lines@.len(),
            replay_text(text@) == replay_lines(ls.skip(i as int), map@),
        decreases lines@.len() - i,
    {
        let ghost rest = ls.skip(i as int);
        assert(rest[0] == lines@[i as int]@);
        match ActionType::from(&lines[i]) {
            None => {
                return Err(StoreError::CorruptLog);
            },
            Some(ActionType::Put) => {
                if lines.len() - i < 3 {
                    return Err(StoreError::CorruptLog);
                }
                assert(rest[1] == lines@[i + 1]@);
                assert(rest[2] == lines@[i + 2]@);
                if lines[i + 1].as_str().is_empty() {
                    return Err(StoreError::CorruptLog);
                }
                map.insert(lines[i + 1].clone(), lines[i + 2].clone());
                assert(rest.skip(3) =~= ls.skip(i + 3));
                i = i + 3;
            },
            Some(ActionType::Del) => {
                if lines.len() - i < 2 {
                    return Err(StoreError::CorruptLog);
                }
                assert(rest[1] == lines@[i + 1]@);
                if lines[i + 1].as_str().is_empty() {
                    return Err(StoreError::CorruptLog);
                }
                map.remove(&lines[i + 1]);
                assert(rest.skip(2) =~= ls.skip(i + 2));
                i = i + 2;
            },
        }
    }
    assert(ls.skip(i as int).len() == 0);
    Ok(map)
}

impl Storage {
    /// The log text queued and not yet taken out.
    pub closed spec fn pending_view(&self) -> Seq<char> {
        self.pending@
    }

    pub closed spec fn file_name_view(&self) -> Seq<char> {
        self.filename@
    }

    pub closed spec fn sync_time_view(&self) -> u64 {
        self.sync_time
    }

    /// Opens the log backend on a file whose present contents are `existing`,
    /// and returns the mapping they replay to beside it.
    pub fn new(filename: String, sync_time: u64, existing: &str) -> (r: Result<(Cache, Storage), StoreError>)
        ensures
            match r {
                Ok((c, s)) => {
                    &&& c.wf()
                    &&& replay_text(existing@) == Some(c@)
                    &&& s.pending_view() == Seq::<char>::empty()
                    &&& s.file_name_view() == filename@
                    &&& s.sync_time_view() == sync_time
                },
                Err(e) => e == StoreError::CorruptLog && replay_text(existing@) is None,
            },
    {
        let map = read_file(existing)?;
        Ok((map, Storage { filename, sync_time, pending: String::new() }))
    }

    /// The path of the log file.
    pub fn file_name(&self) -> (r: &String)
        ensures
            r@ == self.file_name_view(),
    {
        &self.filename
    }

    /// The period, in milliseconds, at which queued records are flushed.
    pub fn sync_time(&self) -> (r: u64)
        ensures
            r == self.sync_time_view(),
    {
        self.sync_time
    }

    /// Hands out the queued log text, leaving the queue empty.
    pub fn take_pending(&mut self) -> (r: String)
        ensures
            r@ == old(self).pending_view(),
            final(self).pending_view() == Seq::<char>::empty(),
            final(self).file_name_view() == old(self).file_name_view(),
            final(self).sync_time_view() == old(self).sync_time_view(),
    {
        let mut out = String::new();
        std::mem::swap(&mut out, &mut self.pending);
        out
    }
}

impl Persist for Storage {
    open spec fn log_target(&self) -> Option<(Seq<char>, u64)> {
        Some((self.file_name_view(), self.sync_time_view()))
    }

    open spec fn written(&self) -> Seq<char> {
        self.pending_view()
    }

    fn set(&mut self, key: &str, val: &str) {
        proof {
            reveal_strlit("\n");
        }
        self.pending.append(ActionType::Put.as_str());
        self.pending.append("\n");
        self.pending.append(key);
        self.pending.append("\n");
        self.pending.append(val);
        self.pending.append("\n");
        assert(self.pending@ =~= old(self).pending@ + set_record(key@, val@));
    }

    fn del(&mut self, key: &str) {
        proof {
            reveal_strlit("\n");
        }
        self.pending.append(ActionType::Del.as_str());
        self.pending.append("\n");
        self.pending.append(key);
        self.pending.append("\n");
        assert(self.pending@ =~= old(self).pending@ + del_record(key@));
    }
}

} // verus!
