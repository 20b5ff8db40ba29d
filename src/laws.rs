use crate::Storage;
use vstd::prelude::*;

verus! {

/// After `set_text(key, text)` on a store, the store holds `text` under
/// `key`, so `get_text(key)` returns it.
pub proof fn lemma_round_trip(before: Storage, after: Storage, key: Seq<char>, text: Seq<char>)
    requires
        after.cache_view() == before.cache_view().insert(key, text),
    ensures
        after.cache_view().contains_key(key),
        after.cache_view()[key] == text,
{
}

/// Deleting a key that is absent leaves the cache as it was.
pub proof fn lemma_delete_absent(before: Storage, after: Storage, key: Seq<char>)
    requires
        !before.cache_view().contains_key(key),
        after.cache_view() == before.cache_view().remove(key),
    ensures
        after.cache_view() == before.cache_view(),
{
    assert(after.cache_view() =~= before.cache_view());
}

/// A store without persistence queues no log text: `set_text` and `del`
/// leave it without a log and with nothing written.
pub proof fn lemma_memory_store_writes_nothing(before: Storage, after: Storage)
    requires
        !before.persists(),
        before.written() == Seq::<char>::empty(),
        after.log_target() == before.log_target(),
        after.written() == before.written() + Seq::<char>::empty(),
    ensures
        !after.persists(),
        after.written() == Seq::<char>::empty(),
{
    assert(Seq::<char>::empty() + Seq::<char>::empty() =~= Seq::<char>::empty());
}

} // verus!
