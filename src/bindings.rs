//! Declarations of the outside items the loader relies on, with the
//! contracts that their sources and documentation give them.
use vstd::prelude::*;

verus! {

#[verifier::external_type_specification]
#[verifier::external_body]
#[verifier::reject_recursive_types(T)]
pub struct ExSender<T>(async_channel::Sender<T>);

#[verifier::external_type_specification]
#[verifier::external_body]
#[verifier::reject_recursive_types(T)]
pub struct ExReceiver<T>(async_channel::Receiver<T>);

#[verifier::external_type_specification]
#[verifier::external_body]
#[verifier::reject_recursive_types(L)]
#[verifier::reject_recursive_types(R)]
#[verifier::reject_recursive_types(LS)]
#[verifier::reject_recursive_types(RS)]
pub struct ExBiHashMap<L, R, LS, RS>(bimap::BiHashMap<L, R, LS, RS>);

/// The pairs held by a name table, seen from the left (name) side.
pub uninterp spec fn name_table(m: bimap::BiHashMap<String, u32>) -> Map<Seq<char>, u32>;

/// Relies on bimap::BiHashMap::new: the new table holds no pair.
#[verifier::external_body]
pub(crate) fn new_name_table() -> (table: bimap::BiHashMap<String, u32>)
    ensures
        name_table(table).dom() == Set::<Seq<char>>::empty(),
{
    bimap::BiHashMap::new()
}

/// Relies on bimap::BiHashMap::get_by_left: the id paired with `name`, if any.
#[verifier::external_body]
pub(crate) fn id_by_name(table: &bimap::BiHashMap<String, u32>, name: &str) -> (r: Option<u32>)
    ensures
        r == (if name_table(*table).contains_key(name@) {
            Some(name_table(*table)[name@])
        } else {
            None::<u32>
        }),
{
    table.get_by_left(name).copied()
}

/// Relies on bimap::BiHashMap::get_by_right: the name paired with `id`, if any.
#[verifier::external_body]
pub(crate) fn name_by_id(table: &bimap::BiHashMap<String, u32>, id: u32) -> (r: Option<String>)
    ensures
        r matches Some(s) ==> name_table(*table).contains_key(s@) && name_table(*table)[s@] == id,
        r is None ==> forall|n: Seq<char>|
            name_table(*table).contains_key(n) ==> name_table(*table)[n] != id,
{
    table.get_by_right(&id).cloned()
}

/// Relies on bimap::BiHashMap::insert_no_overwrite: the pair goes in exactly
/// when neither its name nor its id is held yet; otherwise the table is unchanged.
#[verifier::external_body]
pub(crate) fn insert_new_pair(table: &mut bimap::BiHashMap<String, u32>, name: String, id: u32) -> (r: bool)
    ensures
        r == (!name_table(*old(table)).contains_key(name@) && forall|n: Seq<char>|
            name_table(*old(table)).contains_key(n) ==> name_table(*old(table))[n] != id),
        r ==> name_table(*final(table)) == name_table(*old(table)).insert(name@, id),
        !r ==> name_table(*final(table)) == name_table(*old(table)),
{
    table.insert_no_overwrite(name, id).is_ok()
}

/// Relies on async_channel::unbounded: a fresh channel that never reports itself full.
#[verifier::external_body]
pub(crate) fn unbounded_channel<T>() -> (r: (async_channel::Sender<T>, async_channel::Receiver<T>)) {
    async_channel::unbounded()
}

/// Relies on async_channel::Receiver::len: the number of messages queued now.
#[verifier::external_body]
pub(crate) fn queued_messages<T>(receiver: &async_channel::Receiver<T>) -> (r: usize) {
    receiver.len()
}

/// Relies on async_channel::Receiver::try_recv: the next queued message, if any,
/// without waiting.
#[verifier::external_body]
pub(crate) fn try_receive<T>(receiver: &async_channel::Receiver<T>) -> (r: Option<T>) {
    receiver.try_recv().ok()
}

/// Relies on async_channel::Sender::try_send: queues `msg` unless the channel is
/// closed; whether it was queued is returned.
#[verifier::external_body]
pub(crate) fn try_send<T>(sender: &async_channel::Sender<T>, msg: T) -> (r: bool) {
    sender.try_send(msg).is_ok()
}

/// Relies on the `Clone` impl of async_channel::Sender: another handle on the same channel.
#[verifier::external_body]
pub(crate) fn clone_sender<T>(sender: &async_channel::Sender<T>) -> (r: async_channel::Sender<T>) {
    sender.clone()
}

/// Relies on `Arc::clone`: another pointer to the same allocation, so the same value.
#[verifier::external_body]
pub(crate) fn share<T>(a: &std::sync::Arc<T>) -> (r: std::sync::Arc<T>)
    ensures
        r == *a,
{
    a.clone()
}

} // verus!
