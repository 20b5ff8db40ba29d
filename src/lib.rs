pub mod cache;
pub mod laws;
pub mod log_format;
pub mod persistance;

use crate::cache::Cache;
use crate::log_format::{del_record, replay_text, set_record};
use crate::persistance::Persist;
use vstd::prelude::*;

verus! {

/// Which persistence backend a store uses.
#[derive(PartialEq, Eq, Structural, Clone, Copy, Debug)]
pub enum Type {
    Memory,
    Aof,
}

/// The error of a store configured for a backend whose settings are absent.
#[derive(PartialEq, Eq, Structural, Clone, Copy, Debug)]
pub struct ConfigMissing {
    /// The backend whose settings were missing.
    pub persistance_type: Type,
}

/// What can go wrong in a store.
#[derive(PartialEq, Eq, Structural, Clone, Copy, Debug)]
pub enum StoreError {
    /// The log backend was selected without its settings.
    ConfigMissing(ConfigMissing),
    /// The log file holds a structurally invalid record.
    CorruptLog,
    /// A value could not be encoded, or stored text could not be decoded.
    Codec,
}

/// How a store is configured.
pub struct Config {
    pub aof_config: Option<AofConfig>,
    pub persistance_type: Type,
}

/// The settings of the log backend.
pub struct AofConfig {
    /// Period of the background flush, in milliseconds.
    pub sync_time: u64,
    pub file_name: String,
}

/// The backend of a store, chosen once when it is built.
pub enum Backend {
    Empty(persistance::Empty),
    Aof(persistance::aof::Storage),
}

/// A key-value store: a cache in front of an optional append-only log.
pub struct Storage {
    cache: Cache,
    storage: Backend,
}

/// Whether a configuration selects the log backend (with or without its settings).
pub open spec fn selects_log(config: Option<Config>) -> bool {
    match config {
        Some(c) => c.persistance_type == Type::Aof,
        None => false,
    }
}

#[verifier::external_type_specification]
#[verifier::external_body]
pub struct ExValue(serde_json::Value);

#[verifier::external_type_specification]
#[verifier::external_body]
pub struct ExJsonError(serde_json::Error);

/// Whether serde_json accepts a text as a JSON value.
pub uninterp spec fn is_json_text(s: Seq<char>) -> bool;

/// Relies on serde_json::to_string: the compact JSON text of a value. For a
/// `Value` it cannot fail: map keys are strings, non-finite numbers are
/// written as `null`, and the writer is an in-memory buffer.
#[verifier::external_body]
fn encode_value(v: &serde_json::Value) -> (r: Result<String, serde_json::Error>)
    ensures
        r is Ok,
{
    serde_json::to_string(v)
}

/// Relies on serde_json::from_str: it parses a JSON value, and whether it
/// succeeds depends on the text alone.
#[verifier::external_body]
fn decode_value(s: &str) -> (r: Result<serde_json::Value, serde_json::Error>)
    ensures
        r is Ok <==> is_json_text(s@),
{
    serde_json::from_str(s)
}

impl Storage {
    pub closed spec fn wf(&self) -> bool {
        self.cache.wf()
    }

    /// The mapping from key to encoded value that reads see.
    pub closed spec fn cache_view(&self) -> Map<Seq<char>, Seq<char>> {
        self.cache@
    }

    /// The log file and flush period, for a store with the log backend.
    pub closed spec fn log_target(&self) -> Option<(Seq<char>, u64)> {
        match self.storage {
            Backend::Empty(e) => e.log_target(),
            Backend::Aof(a) => a.log_target(),
        }
    }

    /// Whether mutations are recorded in a log.
    pub open spec fn persists(&self) -> bool {
        self.log_target() is Some
    }

    /// The log text queued for the log file and not yet taken out.
    pub closed spec fn written(&self) -> Seq<char> {
        match self.storage {
            Backend::Empty(e) => e.written(),
            Backend::Aof(a) => a.written(),
        }
    }

    fn new_cache_without_persistance() -> (r: Self)
        ensures
            r.wf(),
            r.cache_view() == Map::<Seq<char>, Seq<char>>::empty(),
            !r.persists(),
            r.written() == Seq::<char>::empty(),
    {
        Storage { cache: Cache::new(), storage: Backend::Empty(persistance::Empty) }
    }

    /// Builds a store from its configuration. With the log backend,
    /// `existing` is the present contents of the log file, replayed into
    /// the cache; otherwise it is not read.
    pub fn new(config: Option<Config>, existing: &str) -> (r: Result<Storage, StoreError>)
        ensures
            !selects_log(config) ==> (r matches Ok(s) && s.wf() && s.cache_view() == Map::<
                Seq<char>,
                Seq<char>,
            >::empty() && !s.persists() && s.written() == Seq::<char>::empty()),
            selects_log(config) && config->0.aof_config is None ==> r == Err::<Storage, StoreError>(
                StoreError::ConfigMissing(ConfigMissing { persistance_type: Type::Aof }),
            ),
            selects_log(config) && config->0.aof_config is Some ==> match r {
                Ok(s) => {
                    &&& replay_text(existing@) == Some(s.cache_view())
                    &&& s.wf()
                    &&& s.log_target() == Some(
                        (config->0.aof_config->0.file_name@, config->0.aof_config->0.sync_time),
                    )
                    &&& s.written() == Seq::<char>::empty()
                },
                Err(e) => e == StoreError::CorruptLog && replay_text(existing@) is None,
            },
    {
        match config {
            Some(c) => match c.persistance_type {
                Type::Memory => Ok(Storage::new_cache_without_persistance()),
                Type::Aof => match c.aof_config {
                    Some(a) => {
                        let (map, log) = persistance::aof::Storage::new(
                            a.file_name,
                            a.sync_time,
                            existing,
                        )?;
                        Ok(Storage { cache: map, storage: Backend::Aof(log) })
                    },
                    None => Err(
                        StoreError::ConfigMissing(
                            ConfigMissing { persistance_type: c.persistance_type },
                        ),
                    ),
                },
            },
            None => Ok(Storage::new_cache_without_persistance()),
        }
    }

    /// Stores already encoded text under `key`: the record goes to the
    /// backend, then the cache holds the text.
    pub fn set_text(&mut self, key: String, text: String)
        requires
            old(self).wf(),
        ensures
            final(self).wf(),
            final(self).cache_view() == old(self).cache_view().insert(key@, text@),
            final(self).log_target() == old(self).log_target(),
            final(self).written() == old(self).written() + (if old(self).persists() {
                set_record(key@, text@)
            } else {
                Seq::empty()
            }),
    {
        match &mut self.storage {
            Backend::Empty(e) => e.set(key.as_str(), text.as_str()),
            Backend::Aof(a) => a.set(key.as_str(), text.as_str()),
        }
        self.cache.insert(key, text);
    }

    /// Encodes `val` as JSON and stores it under `key`: the cache and the
    /// log hold the same encoded text. Encoding a JSON value always succeeds.
    pub fn set(&mut self, key: String, val: &serde_json::Value) -> (r: Result<(), StoreError>)
        requires
            old(self).wf(),
        ensures
            final(self).wf(),
            final(self).log_target() == old(self).log_target(),
            r is Ok,
            match r {
                Ok(()) => exists|t: Seq<char>|
                    {
                        &&& final(self).cache_view() == old(self).cache_view().insert(key@, t)
                        &&& final(self).written() == old(self).written() + (if old(
                            self,
                        ).persists() {
                            set_record(key@, t)
                        } else {
                            Seq::empty()
                        })
                    },
                Err(e) => e == StoreError::Codec && *final(self) == *old(self),
            },
    {
        match encode_value(val) {
            Ok(text) => {
                self.set_text(key, text);
                Ok(())
            },
            Err(_) => Err(StoreError::Codec),
        }
    }

    /// Removes `key` from the cache, then records the delete in the backend,
    /// whether or not the key was present.
    pub fn del(&mut self, key: &String)
        requires
            old(self).wf(),
        ensures
            final(self).wf(),
            final(self).cache_view() == old(self).cache_view().remove(key@),
            final(self).log_target() == old(self).log_target(),
            final(self).written() == old(self).written() + (if old(self).persists() {
                del_record(key@)
            } else {
                Seq::empty()
            }),
    {
        self.cache.remove(key);
        match &mut self.storage {
            Backend::Empty(e) => e.del(key.as_str()),
            Backend::Aof(a) => a.del(key.as_str()),
        }
    }

    /// The encoded text held under `key`, if any.
    pub fn get_text(&self, key: &String) -> (r: Option<String>)
        requires
            self.wf(),
        ensures
            match r {
                Some(t) => self.cache_view().contains_key(key@) && t@ == self.cache_view()[key@],
                None => !self.cache_view().contains_key(key@),
            },
    {
        match self.cache.get(key) {
            Some(t) => Some(t.clone()),
            None => None,
        }
    }

    /// Decodes the JSON value held under `key`, if any.
    pub fn get(&self, key: String) -> (r: Result<Option<serde_json::Value>, StoreError>)
        requires
            self.wf(),
        ensures
            !self.cache_view().contains_key(key@) ==> r matches Ok(None),
            self.cache_view().contains_key(key@) ==> match r {
                Ok(v) => v is Some && is_json_text(self.cache_view()[key@]),
                Err(e) => e == StoreError::Codec && !is_json_text(self.cache_view()[key@]),
            },
    {
        match self.cache.get(&key) {
            Some(t) => match decode_value(t.as_str()) {
                Ok(v) => Ok(Some(v)),
                Err(_) => Err(StoreError::Codec),
            },
            None => Ok(None),
        }
    }

    /// Hands out the log text queued since the last call, for the owner of
    /// the log file to append; empty for a store without persistence.
    pub fn take_pending(&mut self) -> (r: String)
        requires
            old(self).wf(),
        ensures
            final(self).wf(),
            r@ == old(self).written(),
            final(self).written() == Seq::<char>::empty(),
            final(self).cache_view() == old(self).cache_view(),
            final(self).log_target() == old(self).log_target(),
    {
        match &mut self.storage {
            Backend::Empty(_) => String::new(),
            Backend::Aof(a) => a.take_pending(),
        }
    }

    /// The log file and flush period, for a store with the log backend.
    pub fn log_settings(&self) -> (r: Option<(String, u64)>)
        ensures
            match r {
                Some((f, t)) => self.log_target() == Some((f@, t)),
                None => self.log_target() is None,
            },
    {
        match &self.storage {
            Backend::Empty(_) => None,
            Backend::Aof(a) => Some((a.file_name().clone(), a.sync_time())),
        }
    }
}

/// The log file a configuration names, when it selects the log backend
/// with its settings: the file whose contents `Storage::new` replays.
pub fn log_file(config: &Option<Config>) -> (r: Option<String>)
    ensures
        match r {
            Some(f) => selects_log(*config) && (config->0.aof_config matches Some(a) && f@
                == a.file_name@),
            None => !(selects_log(*config) && config->0.aof_config is Some),
        },
{
    match config {
        Some(c) => match c.persistance_type {
            Type::Aof => match &c.aof_config {
                Some(a) => Some(a.file_name.clone()),
                None => None,
            },
            Type::Memory => None,
        },
        None => None,
    }
}

} // verus!
