//! Properties of the loader that span several calls, stated over its model.
use vstd::prelude::*;

use crate::file_loader::{
    callbacks_of, endpoints_registered, lemma_with_ready_keeps_wf, send_all, EndpointId, FileData,
    FileId, LoaderModel, ResourceState, Waiter,
};

verus! {

/// The model after each of `ws`, in order, asked for `name`.
pub open spec fn after_requests<C>(s: LoaderModel<C>, name: Seq<char>, ws: Seq<Waiter<C>>) -> LoaderModel<C>
    decreases ws.len(),
{
    if ws.len() == 0 {
        s
    } else {
        after_requests(s, name, ws.drop_last()).after_request(name, ws.last())
    }
}

/// One callback waiter for each of `cbs`, in order.
pub open spec fn callback_waiters<C>(cbs: Seq<C>) -> Seq<Waiter<C>> {
    cbs.map_values(|c: C| Waiter::Callback(c))
}

/// A request keeps the model well formed, gives the name an id, and leaves
/// the id of every known name as it was.
pub proof fn lemma_request_keeps_ids<C>(s: LoaderModel<C>, name: Seq<char>, w: Waiter<C>)
    requires
        s.wf(),
        s.has_room_for(name),
        w matches Waiter::Endpoint(e) ==> s.endpoints.contains(e.0),
    ensures
        s.after_request(name, w).wf(),
        s.after_request(name, w).names.contains_key(name),
        forall|n: Seq<char>| #[trigger]
            s.names.contains_key(n) ==> s.after_request(name, w).names.contains_key(n)
                && s.after_request(name, w).names[n] == s.names[n],
        s.after_request(name, w).next_endpoint == s.next_endpoint,
        s.after_request(name, w).endpoints == s.endpoints,
{
    let t = s.after_request(name, w);
    if s.names.contains_key(name) && s.ready.contains_key(s.names[name]) {
        assert(t.sent.dom() =~= t.endpoints);
    }
    if s.names.contains_key(name) && !s.ready.contains_key(s.names[name]) {
        let ws0 = s.pending[s.names[name]];
        assert forall|i: int| 0 <= i < ws0.push(w).len() implies match #[trigger] ws0.push(w)[i] {
            Waiter::Endpoint(e) => s.endpoints.contains(e.0),
            Waiter::Callback(_) => true,
        } by {
            if i < ws0.len() {
                assert(ws0.push(w)[i] == ws0[i]);
            }
        }
        assert(endpoints_registered(ws0.push(w), s.endpoints));
    }
    if !s.names.contains_key(name) {
        assert(seq![w][0] == w);
        assert forall|n1: Seq<char>, n2: Seq<char>|
            t.names.contains_key(n1) && t.names.contains_key(n2) && t.names[n1] == t.names[n2]
            implies n1 == n2 by {
            if n1 != name && n2 != name {
                assert(s.names[n1] == s.names[n2]);
            } else if n1 == name && n2 != name {
                assert(s.names[n2] < s.next_id);
            } else if n1 != name && n2 == name {
                assert(s.names[n1] < s.next_id);
            }
        }
    }
}

/// Keeping ids carries over a chain of calls.
pub proof fn lemma_keeps_ids_chain<C>(a: LoaderModel<C>, b: LoaderModel<C>, c: LoaderModel<C>)
    requires
        a.keeps_ids(b),
        b.keeps_ids(c),
    ensures
        a.keeps_ids(c),
{
    assert forall|n: Seq<char>| #[trigger] a.names.contains_key(n) implies c.names.contains_key(n)
        && c.names[n] == a.names[n] by {
        assert(b.names.contains_key(n));
    }
}

/// Ids are stable and name one name each: an id handed out for `n1` at one
/// point and one handed out for `n2` at any later point (all calls in between
/// keep ids, as every call of the loader does) are equal exactly when the
/// names are.
pub proof fn lemma_ids_agree_across_calls<C>(
    earlier: LoaderModel<C>,
    later: LoaderModel<C>,
    n1: Seq<char>,
    n2: Seq<char>,
)
    requires
        later.wf(),
        earlier.keeps_ids(later),
        earlier.names.contains_key(n1),
        later.names.contains_key(n2),
    ensures
        (earlier.names[n1] == later.names[n2]) == (n1 == n2),
{
    assert(later.names.contains_key(n1) && later.names[n1] == earlier.names[n1]);
}

/// Requests for an unknown name issued before its fetch completes queue
/// exactly one fetch, and the name's waiters are the requesters in the order
/// they asked.
pub proof fn lemma_requests_before_completion<C>(s: LoaderModel<C>, name: Seq<char>, ws: Seq<Waiter<C>>)
    requires
        s.wf(),
        s.state_of(name) is Unknown,
        s.next_id < u32::MAX,
        ws.len() > 0,
        endpoints_registered(ws, s.endpoints),
    ensures
        after_requests(s, name, ws).wf(),
        after_requests(s, name, ws).endpoints == s.endpoints,
        after_requests(s, name, ws).sent == s.sent,
        after_requests(s, name, ws).fetches == s.fetches.push(name),
        after_requests(s, name, ws).names == s.names.insert(name, s.next_id as u32),
        after_requests(s, name, ws).state_of(name) == ResourceState::Pending(ws),
    decreases ws.len(),
{
    let t = after_requests(s, name, ws);
    assert(ws[ws.len() - 1] == ws.last());
    if ws.len() == 1 {
        assert(ws.drop_last().len() == 0);
        assert(seq![ws.last()] =~= ws);
        lemma_request_keeps_ids(s, name, ws.last());
    } else {
        let prev = ws.drop_last();
        assert forall|i: int| 0 <= i < prev.len() implies match #[trigger] prev[i] {
            Waiter::Endpoint(e) => s.endpoints.contains(e.0),
            Waiter::Callback(_) => true,
        } by {
            assert(prev[i] == ws[i]);
        }
        lemma_requests_before_completion(s, name, prev);
        let p = after_requests(s, name, prev);
        lemma_request_keeps_ids(p, name, ws.last());
        assert(prev.push(ws.last()) =~= ws);
    }
}

/// Completing a pending name makes exactly its data ready under its id.
pub proof fn lemma_completion_makes_ready<C>(s: LoaderModel<C>, name: Seq<char>, data: Vec<u8>)
    requires
        s.wf(),
        s.state_of(name) is Pending,
    ensures
        s.after_completion(name, data).wf(),
        s.after_completion(name, data).state_of(name) == ResourceState::<C>::Ready(
            FileData { id: FileId(s.names[name]), data },
        ),
        s.after_completion(name, data).names == s.names,
{
    lemma_with_ready_keeps_wf(s, FileData { id: FileId(s.names[name]), data });
}

/// Until its own completion arrives a pending name stays pending, with the
/// same waiters, whatever else completes.
pub proof fn lemma_other_completion_keeps_pending<C>(
    s: LoaderModel<C>,
    name: Seq<char>,
    other: Seq<char>,
    data: Vec<u8>,
)
    requires
        s.wf(),
        s.state_of(name) is Pending,
        other != name,
    ensures
        s.after_completion(other, data).state_of(name) == s.state_of(name),
{
    if s.names.contains_key(other) {
        assert(s.names[other] != s.names[name]);
    }
}

/// The callbacks owed to callback waiters are those callbacks, once each and
/// in order, every one with the same file.
pub proof fn lemma_callbacks_once_each<C>(cbs: Seq<C>, file: FileData)
    ensures
        callbacks_of(callback_waiters(cbs), file) == cbs.map_values(|c: C| (c, file)),
    decreases cbs.len(),
{
    if cbs.len() > 0 {
        lemma_callbacks_once_each(cbs.drop_last(), file);
        assert(callback_waiters(cbs).drop_last() =~= callback_waiters(cbs.drop_last()));
        assert(cbs.map_values(|c: C| (c, file)) =~= cbs.drop_last().map_values(|c: C| (c, file)).push(
            (cbs.last(), file),
        ));
    } else {
        assert(cbs.map_values(|c: C| (c, file)) =~= Seq::<(C, FileData)>::empty());
    }
}

/// Callbacks that all asked for one unknown name before its fetch completed:
/// one fetch is queued, and the poll that brings the data hands every
/// callback back exactly once, in request order, each with the same data.
pub proof fn lemma_one_fetch_every_callback_once<C>(
    s: LoaderModel<C>,
    name: Seq<char>,
    cbs: Seq<C>,
    data: Vec<u8>,
)
    requires
        s.wf(),
        s.state_of(name) is Unknown,
        s.next_id < u32::MAX,
        cbs.len() > 0,
    ensures
        after_requests(s, name, callback_waiters(cbs)).fetches == s.fetches.push(name),
        ({
            let t = after_requests(s, name, callback_waiters(cbs));
            let f = FileData { id: FileId(t.names[name]), data };
            &&& t.can_resolve(seq![f])
            &&& t.resolve_files(seq![f]) == t.after_completion(name, data)
            &&& t.deliveries(seq![f]) == cbs.map_values(|c: C| (c, f))
        }),
{
    let ws = callback_waiters(cbs);
    assert forall|i: int| 0 <= i < ws.len() implies match #[trigger] ws[i] {
        Waiter::Endpoint(e) => s.endpoints.contains(e.0),
        Waiter::Callback(_) => true,
    } by {
        assert(ws[i] == Waiter::<C>::Callback(cbs[i]));
    }
    lemma_requests_before_completion(s, name, ws);
    let t = after_requests(s, name, ws);
    let f = FileData { id: FileId(t.names[name]), data };
    assert(seq![f].drop_last() =~= Seq::<FileData>::empty());
    assert(t.resolve_files(Seq::<FileData>::empty()) == t);
    assert(t.can_resolve(Seq::<FileData>::empty()));
    assert(t.deliveries(Seq::<FileData>::empty()) == Seq::<(C, FileData)>::empty());
    assert(t.pending.contains_key(f.id.0));
    assert(t.can_resolve(seq![f]));
    assert(t.resolve_files(seq![f]) == t.with_ready(f));
    assert(t.pending[f.id.0] == ws);
    lemma_callbacks_once_each(cbs, f);
    assert(Seq::<(C, FileData)>::empty() + callbacks_of(ws, f) =~= callbacks_of(ws, f));
}


/// Across polls a known name is ready exactly when it was ready before or one
/// of the resolved files carries its id, and then it holds that file; until
/// then it stays pending with the same waiters.
pub proof fn lemma_ready_exactly_after_its_completion<C>(
    s: LoaderModel<C>,
    files: Seq<FileData>,
    name: Seq<char>,
)
    requires
        s.wf(),
        s.can_resolve(files),
        s.names.contains_key(name),
    ensures
        s.resolve_files(files).wf(),
        s.resolve_files(files).names == s.names,
        (forall|i: int| 0 <= i < files.len() ==> (#[trigger] files[i]).id.0 != s.names[name])
            ==> s.resolve_files(files).state_of(name) == s.state_of(name),
        forall|i: int|
            0 <= i < files.len() && (#[trigger] files[i]).id.0 == s.names[name]
                ==> s.resolve_files(files).state_of(name) == ResourceState::<C>::Ready(files[i]),
    decreases files.len(),
{
    if files.len() > 0 {
        let prev = files.drop_last();
        let f = files.last();
        lemma_ready_exactly_after_its_completion(s, prev, name);
        let p = s.resolve_files(prev);
        let t = p.with_ready(f);
        assert(p.pending.contains_key(f.id.0));
        lemma_with_ready_keeps_wf(p, f);
        assert forall|i: int|
            0 <= i < files.len() && (#[trigger] files[i]).id.0 == s.names[name]
                implies t.state_of(name) == ResourceState::<C>::Ready(files[i]) by {
            if i < files.len() - 1 {
                assert(prev[i] == files[i]);
                assert(p.state_of(name) == ResourceState::<C>::Ready(files[i]));
                assert(!p.pending.contains_key(s.names[name]));
            }
        }
        if forall|i: int| 0 <= i < files.len() ==> (#[trigger] files[i]).id.0 != s.names[name] {
            assert forall|i: int| 0 <= i < prev.len() implies (#[trigger] prev[i]).id.0
                != s.names[name] by {
                assert(prev[i] == files[i]);
            }
            assert(f.id.0 != s.names[name]);
        }
    }
}

/// How many times endpoint `e` waits among `ws`.
pub open spec fn endpoint_count<C>(ws: Seq<Waiter<C>>, e: u32) -> nat
    decreases ws.len(),
{
    if ws.len() == 0 {
        0
    } else {
        endpoint_count(ws.drop_last(), e) + match ws.last() {
            Waiter::Endpoint(x) => if x.0 == e { 1nat } else { 0nat },
            Waiter::Callback(_) => 0nat,
        }
    }
}

/// Serving waiters sends endpoint `e` the file once for each time it waits,
/// and nothing else.
pub proof fn lemma_send_all_counts<C>(sent: Map<u32, Seq<FileData>>, ws: Seq<Waiter<C>>, file: FileData, e: u32)
    ensures
        send_all(sent, ws, file)[e] == sent[e] + Seq::new(endpoint_count(ws, e), |i: int| file),
    decreases ws.len(),
{
    if ws.len() == 0 {
        assert(sent[e] + Seq::new(0, |i: int| file) =~= sent[e]);
    } else {
        lemma_send_all_counts(sent, ws.drop_last(), file, e);
        let k = endpoint_count(ws.drop_last(), e);
        match ws.last() {
            Waiter::Endpoint(x) => {
                if x.0 == e {
                    assert(sent[e] + Seq::new(k + 1, |i: int| file) =~= (sent[e] + Seq::new(
                        k,
                        |i: int| file,
                    )).push(file));
                }
            },
            Waiter::Callback(_) => {},
        }
    }
}

/// When a pending name's data arrives, every endpoint is sent the file once
/// for each time it asked for the name; an endpoint that did not ask is sent
/// nothing.
pub proof fn lemma_completion_sends_to_endpoints<C>(
    s: LoaderModel<C>,
    name: Seq<char>,
    data: Vec<u8>,
    e: u32,
)
    requires
        s.wf(),
        s.state_of(name) is Pending,
    ensures
        s.after_completion(name, data).sent[e] == s.sent[e] + Seq::new(
            endpoint_count(s.pending[s.names[name]], e),
            |i: int| (FileData { id: FileId(s.names[name]), data }),
        ),
{
    lemma_send_all_counts(s.sent, s.pending[s.names[name]], FileData { id: FileId(s.names[name]), data }, e);
}

/// A new endpoint that asks for an unknown name gets, once the name's data
/// arrives, exactly one message: the name's id with that data.
pub proof fn lemma_new_endpoint_gets_one_message<C>(
    s: LoaderModel<C>,
    name: Seq<char>,
    data: Vec<u8>,
    e: u32,
)
    requires
        s.wf(),
        s.endpoints.contains(e),
        s.sent[e] == Seq::<FileData>::empty(),
        s.state_of(name) is Unknown,
        s.next_id < u32::MAX,
    ensures
        ({
            let t = s.after_request(name, Waiter::Endpoint(EndpointId(e)));
            t.after_completion(name, data).sent[e] == seq![
                FileData { id: FileId(t.names[name]), data },
            ]
        }),
{
    let w = Waiter::<C>::Endpoint(EndpointId(e));
    lemma_request_keeps_ids(s, name, w);
    let t = s.after_request(name, w);
    assert(t.pending[t.names[name]] == seq![w]);
    assert(seq![w].drop_last() =~= Seq::<Waiter<C>>::empty());
    assert(endpoint_count(Seq::<Waiter<C>>::empty(), e) == 0);
    assert(seq![w].last() == w);
    assert(endpoint_count(seq![w], e) == 1);
    lemma_completion_sends_to_endpoints(t, name, data, e);
    let f = FileData { id: FileId(t.names[name]), data };
    assert(Seq::<FileData>::empty() + Seq::new(1, |i: int| f) =~= seq![f]);
}

/// An endpoint asking for a ready name is sent its data at once, with no
/// fetch queued and nothing else changed.
pub proof fn lemma_ready_name_sent_at_once<C>(s: LoaderModel<C>, name: Seq<char>, e: u32)
    requires
        s.wf(),
        s.state_of(name) is Ready,
    ensures
        s.after_request(name, Waiter::Endpoint(EndpointId(e))) == (LoaderModel {
            sent: s.sent.insert(e, s.sent[e].push(s.ready[s.names[name]])),
            ..s
        }),
{
}

} // verus!
