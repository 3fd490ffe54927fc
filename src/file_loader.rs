//! A loader that hands out named byte buffers without blocking its owner.
//!
//! Each name gets a stable id the first time it is asked for. The first
//! request for a name queues one fetch; later requests for the same name wait
//! on that fetch. Completed fetches come back through a channel that `poll`
//! drains; the data then stays ready for every later request.
use std::collections::HashMap;
use std::sync::Arc;
use vstd::prelude::*;

use crate::bindings::{
    clone_sender, id_by_name, insert_new_pair, name_by_id, name_table, new_name_table,
    queued_messages, share, try_receive, try_send, unbounded_channel,
};

verus! {

broadcast use vstd::std_specs::hash::group_hash_axioms;

/// A stable handle for a resource name, assigned the first time the name is seen.
#[derive(Debug, Clone, Copy, PartialEq, Eq, Hash, Structural)]
pub struct FileId(pub u32);

/// A handle for a subscriber that receives completions through its own channel.
#[derive(Debug, Clone, Copy, PartialEq, Eq, Hash, Structural)]
pub struct EndpointId(pub u32);

/// The bytes of a resource, with the id of the name they were fetched for.
#[derive(Clone, Debug)]
pub struct FileData {
    pub id: FileId,
    pub data: Vec<u8>,
}

/// Ready data, shared read-only by every consumer.
pub type FileDataHandle = Arc<FileData>;

/// Someone waiting for a resource.
pub enum Waiter<C> {
    /// A callback value, handed back to the owner with the data.
    Callback(C),
    /// An endpoint, whose channel receives the data.
    Endpoint(EndpointId),
}

/// What the loader knows of one name.
pub enum ResourceState<C> {
    Unknown,
    Pending(Seq<Waiter<C>>),
    Ready(FileData),
}

/// The mathematical model of a loader.
pub struct LoaderModel<C> {
    /// The id of every name seen so far.
    pub names: Map<Seq<char>, u32>,
    /// The id the next new name gets.
    pub next_id: nat,
    /// Data of the ids whose fetch completed.
    pub ready: Map<u32, FileData>,
    /// Waiters of the ids whose fetch is in flight, in registration order.
    pub pending: Map<u32, Seq<Waiter<C>>>,
    /// Names whose fetch is still to be started, oldest first.
    pub fetches: Seq<Seq<char>>,
    /// Registered endpoints.
    pub endpoints: Set<u32>,
    /// The id the next endpoint gets.
    pub next_endpoint: nat,
    /// For each registered endpoint, the files handed to its channel so far,
    /// oldest first.
    pub sent: Map<u32, Seq<FileData>>,
}

impl<C> LoaderModel<C> {
    pub open spec fn initial() -> Self {
        LoaderModel {
            names: Map::empty(),
            next_id: 0,
            ready: Map::empty(),
            pending: Map::empty(),
            fetches: Seq::empty(),
            endpoints: Set::empty(),
            next_endpoint: 0,
            sent: Map::empty(),
        }
    }

    pub open spec fn state_of(self, name: Seq<char>) -> ResourceState<C> {
        if !self.names.contains_key(name) {
            ResourceState::Unknown
        } else if self.ready.contains_key(self.names[name]) {
            ResourceState::Ready(self.ready[self.names[name]])
        } else {
            ResourceState::Pending(self.pending[self.names[name]])
        }
    }

    /// Ids are below the counter and name at most one name; each named id is
    /// either pending or ready, never both; ready data carries its own id;
    /// every endpoint that waits, or was sent anything, is registered.
    pub open spec fn wf(self) -> bool {
        &&& self.next_id <= u32::MAX
        &&& self.next_endpoint <= u32::MAX
        &&& forall|n: Seq<char>| #[trigger]
            self.names.contains_key(n) ==> self.names[n] < self.next_id
        &&& forall|n1: Seq<char>, n2: Seq<char>|
            #![trigger self.names[n1], self.names[n2]]
            self.names.contains_key(n1) && self.names.contains_key(n2) && self.names[n1]
                == self.names[n2] ==> n1 == n2
        &&& forall|n: Seq<char>| #[trigger]
            self.names.contains_key(n) ==> self.ready.contains_key(self.names[n])
                || self.pending.contains_key(self.names[n])
        &&& forall|id: u32| #[trigger]
            self.ready.contains_key(id) ==> id < self.next_id && !self.pending.contains_key(id)
                && self.ready[id].id == FileId(id)
        &&& forall|id: u32| #[trigger] self.pending.contains_key(id) ==> id < self.next_id
        &&& forall|e: u32| #[trigger] self.endpoints.contains(e) ==> e < self.next_endpoint
        &&& self.sent.dom() == self.endpoints
        &&& forall|id: u32| #[trigger]
            self.pending.contains_key(id) ==> endpoints_registered(self.pending[id], self.endpoints)
    }

    /// The ids of all names seen by `self` keep their ids in `later`.
    pub open spec fn keeps_ids(self, later: Self) -> bool {
        forall|n: Seq<char>| #[trigger]
            self.names.contains_key(n) ==> later.names.contains_key(n) && later.names[n]
                == self.names[n]
    }

    /// A request for `name` can be served without running out of ids.
    pub open spec fn has_room_for(self, name: Seq<char>) -> bool {
        self.names.contains_key(name) || self.next_id < u32::MAX
    }

    /// The model after `w` asks for `name`. For a ready name, an endpoint is
    /// sent the data at once and a callback changes nothing (it is handed back
    /// with the data). A pending name gains the waiter at the end of its list.
    /// An unknown name gets the next id, a list holding only `w`, and a queued
    /// fetch.
    pub open spec fn after_request(self, name: Seq<char>, w: Waiter<C>) -> Self {
        if self.names.contains_key(name) {
            let id = self.names[name];
            if self.ready.contains_key(id) {
                match w {
                    Waiter::Endpoint(e) => LoaderModel {
                        sent: self.sent.insert(e.0, self.sent[e.0].push(self.ready[id])),
                        ..self
                    },
                    Waiter::Callback(_) => self,
                }
            } else {
                LoaderModel { pending: self.pending.insert(id, self.pending[id].push(w)), ..self }
            }
        } else {
            let id = self.next_id as u32;
            LoaderModel {
                names: self.names.insert(name, id),
                next_id: self.next_id + 1,
                pending: self.pending.insert(id, seq![w]),
                fetches: self.fetches.push(name),
                ..self
            }
        }
    }

    /// The model once `file` is stored, its id no longer pending, and each of
    /// its endpoint waiters sent the file, in registration order.
    pub open spec fn with_ready(self, file: FileData) -> Self {
        LoaderModel {
            ready: self.ready.insert(file.id.0, file),
            pending: self.pending.remove(file.id.0),
            sent: send_all(self.sent, self.pending[file.id.0], file),
            ..self
        }
    }

    /// The model after a fetch of `name` completed with `data`: only a pending
    /// name becomes ready; any other completion is dropped.
    pub open spec fn after_completion(self, name: Seq<char>, data: Vec<u8>) -> Self {
        match self.state_of(name) {
            ResourceState::Pending(_) => self.with_ready(
                FileData { id: FileId(self.names[name]), data },
            ),
            _ => self,
        }
    }

    /// The model after `files` became ready one after the other.
    pub open spec fn resolve_files(self, files: Seq<FileData>) -> Self
        decreases files.len(),
    {
        if files.len() == 0 {
            self
        } else {
            self.resolve_files(files.drop_last()).with_ready(files.last())
        }
    }

    /// Each of `files` was pending, under its own id, when its turn came.
    pub open spec fn can_resolve(self, files: Seq<FileData>) -> bool
        decreases files.len(),
    {
        if files.len() == 0 {
            true
        } else {
            &&& self.can_resolve(files.drop_last())
            &&& self.resolve_files(files.drop_last()).pending.contains_key(files.last().id.0)
        }
    }

    /// The callbacks owed when `files` became ready one after the other, each
    /// with its file, in the order of `files` and, within a file, of registration.
    pub open spec fn deliveries(self, files: Seq<FileData>) -> Seq<(C, FileData)>
        decreases files.len(),
    {
        if files.len() == 0 {
            Seq::empty()
        } else {
            let before = self.resolve_files(files.drop_last());
            self.deliveries(files.drop_last()) + callbacks_of(
                before.pending[files.last().id.0],
                files.last(),
            )
        }
    }
}

/// Every endpoint waiting in `ws` is registered in `endpoints`.
pub open spec fn endpoints_registered<C>(ws: Seq<Waiter<C>>, endpoints: Set<u32>) -> bool {
    forall|i: int| 0 <= i < ws.len() ==> match #[trigger] ws[i] {
        Waiter::Endpoint(e) => endpoints.contains(e.0),
        Waiter::Callback(_) => true,
    }
}

/// `sent` after `file` went, in order, to each endpoint among `ws`.
pub open spec fn send_all<C>(sent: Map<u32, Seq<FileData>>, ws: Seq<Waiter<C>>, file: FileData) -> Map<
    u32,
    Seq<FileData>,
>
    decreases ws.len(),
{
    if ws.len() == 0 {
        sent
    } else {
        let before = send_all(sent, ws.drop_last(), file);
        match ws.last() {
            Waiter::Endpoint(e) => before.insert(e.0, before[e.0].push(file)),
            Waiter::Callback(_) => before,
        }
    }
}

/// The callback waiters among `ws`, in order, each paired with `file`.
pub open spec fn callbacks_of<C>(ws: Seq<Waiter<C>>, file: FileData) -> Seq<(C, FileData)>
    decreases ws.len(),
{
    if ws.len() == 0 {
        Seq::empty()
    } else {
        let rest = callbacks_of(ws.drop_last(), file);
        match ws.last() {
            Waiter::Callback(c) => rest.push((c, file)),
            Waiter::Endpoint(_) => rest,
        }
    }
}

/// Deduplicating, caching loader of named resources, owned by one thread.
///
/// `C` is the callback type of direct requests: the loader stores callbacks
/// and hands them back with the data when it is ready.
#[verifier::reject_recursive_types(C)]
pub struct FileLoader<C> {
    sender: async_channel::Sender<(String, Vec<u8>)>,
    receiver: async_channel::Receiver<(String, Vec<u8>)>,
    file_id_map: bimap::BiHashMap<String, u32>,
    next_file_id: u32,
    endpoint_id_map: HashMap<u32, async_channel::Sender<FileDataHandle>>,
    next_endpoint_id: u32,
    ready_files: HashMap<u32, FileDataHandle>,
    pending_files: HashMap<u32, Vec<Waiter<C>>>,
    fetch_queue: Vec<String>,
    sent: Ghost<Map<u32, Seq<FileData>>>,
}

impl<C> View for FileLoader<C> {
    type V = LoaderModel<C>;

    closed spec fn view(&self) -> LoaderModel<C> {
        LoaderModel {
            names: name_table(self.file_id_map),
            next_id: self.next_file_id as nat,
            ready: self.ready_files@.map_values(|h: FileDataHandle| *h),
            pending: self.pending_files@.map_values(|v: Vec<Waiter<C>>| v@),
            fetches: self.fetch_queue@.map_values(|s: String| s@),
            endpoints: self.endpoint_id_map@.dom(),
            next_endpoint: self.next_endpoint_id as nat,
            sent: self.sent@,
        }
    }
}

/// The file behind a handle.
pub open spec fn file_of(h: FileDataHandle) -> FileData {
    *h
}

impl<C> FileLoader<C> {
    pub open spec fn wf(&self) -> bool {
        self@.wf()
    }

    /// An empty loader with its own completion channel.
    pub fn new() -> (r: Self)
        ensures
            r.wf(),
            r@ == LoaderModel::<C>::initial(),
    {
        let (sender, receiver) = unbounded_channel();
        let r = FileLoader {
            sender,
            receiver,
            file_id_map: new_name_table(),
            next_file_id: 0,
            endpoint_id_map: HashMap::new(),
            next_endpoint_id: 0,
            ready_files: HashMap::new(),
            pending_files: HashMap::new(),
            fetch_queue: Vec::new(),
            sent: Ghost(Map::empty()),
        };
        assert(r@.names =~= LoaderModel::<C>::initial().names);
        assert(r@.ready =~= LoaderModel::<C>::initial().ready);
        assert(r@.pending =~= LoaderModel::<C>::initial().pending);
        assert(r@.fetches =~= LoaderModel::<C>::initial().fetches);
        assert(r@.endpoints =~= LoaderModel::<C>::initial().endpoints);
        r
    }

    fn find_file_id(&self, path: &str) -> (r: Option<FileId>)
        ensures
            r == (if self@.names.contains_key(path@) {
                Some(FileId(self@.names[path@]))
            } else {
                None::<FileId>
            }),
    {
        match id_by_name(&self.file_id_map, path) {
            Some(id) => Some(FileId(id)),
            None => None,
        }
    }

    /// The name that `id` was assigned to, if any.
    pub fn path_by_id(&self, id: FileId) -> (r: Option<String>)
        ensures
            r matches Some(s) ==> self@.names.contains_key(s@) && self@.names[s@] == id.0,
            r is None ==> forall|n: Seq<char>|
                #[trigger] self@.names.contains_key(n) ==> self@.names[n] != id.0,
    {
        name_by_id(&self.file_id_map, id.0)
    }

    /// The data of `path` if its fetch has completed; `None` otherwise.
    pub fn try_get_file(&self, path: &str) -> (r: Option<FileDataHandle>)
        requires
            self.wf(),
        ensures
            match self@.state_of(path@) {
                ResourceState::Ready(f) => r matches Some(h) && *h == f,
                _ => r is None,
            },
    {
        match self.find_file_id(path) {
            Some(id) => match self.ready_files.get(&id.0) {
                Some(file) => Some(share(file)),
                None => None,
            },
            None => None,
        }
    }

    /// The same probe as `try_get_file`.
    pub fn try_get_resource(&self, path: &str) -> (r: Option<FileDataHandle>)
        requires
            self.wf(),
        ensures
            match self@.state_of(path@) {
                ResourceState::Ready(f) => r matches Some(h) && *h == f,
                _ => r is None,
            },
    {
        self.try_get_file(path)
    }

    /// Whether `path` was asked for and its data has not arrived yet.
    pub fn is_pending(&self, path: &str) -> (r: bool)
        requires
            self.wf(),
        ensures
            r == (self@.state_of(path@) is Pending),
    {
        match self.find_file_id(path) {
            Some(id) => !self.ready_files.contains_key(&id.0),
            None => false,
        }
    }

    /// Whether a request for `path` can be served: the name is known, or ids
    /// are left for a new one.
    pub fn has_room_for(&self, path: &str) -> (r: bool)
        ensures
            r == self@.has_room_for(path@),
    {
        match self.find_file_id(path) {
            Some(_) => true,
            None => self.next_file_id < u32::MAX,
        }
    }

    /// Whether endpoint ids are left for another endpoint.
    pub fn has_room_for_endpoint(&self) -> (r: bool)
        ensures
            r == (self@.next_endpoint < u32::MAX),
    {
        self.next_endpoint_id < u32::MAX
    }

    /// Whether `e` is an endpoint registered with this loader.
    pub fn has_endpoint(&self, e: EndpointId) -> (r: bool)
        ensures
            r == self@.endpoints.contains(e.0),
    {
        self.endpoint_id_map.contains_key(&e.0)
    }

    /// Another sender on the channel through which fetches report completion.
    pub fn completion_sender(&self) -> (r: async_channel::Sender<(String, Vec<u8>)>) {
        clone_sender(&self.sender)
    }
}

/// The outcome of a direct request.
pub enum Requested<C> {
    /// The data is ready: the callback comes back with it, to be called now.
    Ready(FileId, C, FileDataHandle),
    /// The callback waits for the data.
    Waiting(FileId),
}

/// The outcome of one completed fetch.
pub enum Completion<C> {
    /// The name was pending: its data is now ready, its endpoint waiters have
    /// been sent it, and these are its callbacks, in registration order, each
    /// with the data.
    Resolved(FileDataHandle, Vec<(C, FileDataHandle)>),
    /// Nobody asked for the name; the data was dropped.
    Unexpected,
    /// The name was ready already; the data was dropped.
    Duplicate,
}

/// A completion that `poll` dropped, with the name it came for.
pub enum Rejected {
    Unexpected(String),
    Duplicate(String),
}

/// What one `poll` did.
pub struct Polled<C> {
    /// The files that became ready, in the order their completions arrived.
    pub resolved: Vec<FileDataHandle>,
    /// The callbacks owed by those files, each with its data, in order.
    pub callbacks: Vec<(C, FileDataHandle)>,
    /// The completions that were dropped, in arrival order.
    pub rejected: Vec<Rejected>,
}

pub open spec fn files_of(hs: Seq<FileDataHandle>) -> Seq<FileData> {
    hs.map_values(|h: FileDataHandle| *h)
}

pub open spec fn pairs_of<C>(ps: Seq<(C, FileDataHandle)>) -> Seq<(C, FileData)> {
    ps.map_values(|p: (C, FileDataHandle)| (p.0, *p.1))
}

impl<C> Requested<C> {
    pub open spec fn spec_id(&self) -> FileId {
        match self {
            Requested::Ready(id, _, _) => *id,
            Requested::Waiting(id) => *id,
        }
    }

    /// The id of the requested name.
    pub fn id(&self) -> (r: FileId)
        ensures
            r == self.spec_id(),
    {
        match self {
            Requested::Ready(id, _, _) => *id,
            Requested::Waiting(id) => *id,
        }
    }
}

impl<C> FileLoader<C> {
    /// Registers `w` for `path`. If the data is ready an endpoint is sent it
    /// now, and a callback is handed back with it.
    fn enqueue(&mut self, path: &str, w: Waiter<C>) -> (r: (FileId, Option<(C, FileDataHandle)>))
        requires
            old(self).wf(),
            old(self)@.has_room_for(path@),
            w matches Waiter::Endpoint(e) ==> old(self)@.endpoints.contains(e.0),
        ensures
            final(self).wf(),
            final(self)@ == old(self)@.after_request(path@, w),
            final(self)@.names.contains_key(path@),
            r.0 == FileId(final(self)@.names[path@]),
            (old(self)@.state_of(path@) is Ready && w is Callback) == (r.1 is Some),
            r.1 matches Some(p) ==> w == Waiter::<C>::Callback(p.0) && *p.1 == old(
                self,
            )@.ready[r.0.0],
    {
        match self.find_file_id(path) {
            Some(id) => {
                match self.ready_files.get(&id.0) {
                    Some(file) => {
                        let file = share(file);
                        return match w {
                            Waiter::Callback(c) => (id, Some((c, file))),
                            Waiter::Endpoint(e) => {
                                self.send_to_endpoint(e, file);
                                assert(self@.sent.dom() =~= self@.endpoints);
                                (id, None)
                            },
                        };
                    },
                    None => {},
                }
                let ghost ws0 = old(self)@.pending[id.0];
                let mut ws = match self.pending_files.remove(&id.0) {
                    Some(ws) => ws,
                    None => Vec::new(),
                };
                ws.push(w);
                self.pending_files.insert(id.0, ws);
                proof {
                    assert(self@.pending =~= old(self)@.pending.insert(id.0, ws0.push(w)));
                    assert(self@.ready =~= old(self)@.ready);
                    assert(endpoints_registered(ws0.push(w), self@.endpoints)) by {
                        assert forall|i: int| 0 <= i < ws0.push(w).len() implies match #[trigger] ws0.push(w)[i] {
                            Waiter::Endpoint(e) => self@.endpoints.contains(e.0),
                            Waiter::Callback(_) => true,
                        } by {
                            if i < ws0.len() {
                                assert(ws0.push(w)[i] == ws0[i]);
                            }
                        }
                    }
                }
                (id, None)
            },
            None => {
                let id = self.next_file_id;
                let inserted = insert_new_pair(&mut self.file_id_map, path.to_string(), id);
                assert(inserted);
                self.next_file_id = id + 1;
                let mut ws: Vec<Waiter<C>> = Vec::new();
                ws.push(w);
                self.pending_files.insert(id, ws);
                self.fetch_queue.push(path.to_string());
                proof {
                    let m = old(self)@.after_request(path@, w);
                    assert(self@.pending =~= m.pending);
                    assert(self@.ready =~= m.ready);
                    assert(self@.fetches =~= m.fetches);
                    assert(self@.names =~= m.names);
                    assert(seq![w][0] == w);
                }
                (FileId(id), None)
            },
        }
    }

    /// Asks for `path` on behalf of `callback`.
    ///
    /// A ready name hands the callback back at once with the data. Otherwise
    /// the callback joins the name's waiters; the first request for a name
    /// also queues its one fetch (see `take_fetches`).
    pub fn get_or_request(&mut self, path: &str, callback: C) -> (r: Requested<C>)
        requires
            old(self).wf(),
            old(self)@.has_room_for(path@),
        ensures
            final(self).wf(),
            final(self)@ == old(self)@.after_request(path@, Waiter::Callback(callback)),
            old(self)@.keeps_ids(final(self)@),
            r.spec_id() == FileId(final(self)@.names[path@]),
            (old(self)@.state_of(path@) is Ready) == (r is Ready),
            r matches Requested::Ready(id, c, h) ==> c == callback && *h
                == old(self)@.ready[id.0],
    {
        let (id, served) = self.enqueue(path, Waiter::Callback(callback));
        match served {
            Some((c, file)) => Requested::Ready(id, c, file),
            None => Requested::Waiting(id),
        }
    }

    /// Takes the names whose fetch is to be started, oldest first.
    pub fn take_fetches(&mut self) -> (r: Vec<String>)
        requires
            old(self).wf(),
        ensures
            final(self).wf(),
            r@.map_values(|s: String| s@) == old(self)@.fetches,
            old(self)@.keeps_ids(final(self)@),
            final(self)@ == (LoaderModel { fetches: Seq::empty(), ..old(self)@ }),
    {
        let mut out: Vec<String> = Vec::new();
        std::mem::swap(&mut out, &mut self.fetch_queue);
        assert(self@.fetches =~= Seq::<Seq<char>>::empty());
        out
    }

    /// Records that the fetch of `name` produced `data`.
    ///
    /// Only a pending name becomes ready: its endpoint waiters are sent the
    /// data and its callbacks come back with it, both in registration order.
    /// A completion for an unknown or ready name is dropped and changes nothing.
    pub fn complete(&mut self, name: &str, data: Vec<u8>) -> (r: Completion<C>)
        requires
            old(self).wf(),
        ensures
            final(self).wf(),
            final(self)@ == old(self)@.after_completion(name@, data),
            old(self)@.keeps_ids(final(self)@),
            (old(self)@.state_of(name@) is Unknown) == (r is Unexpected),
            (old(self)@.state_of(name@) is Ready) == (r is Duplicate),
            old(self)@.state_of(name@) matches ResourceState::Pending(ws) ==> (r matches Completion::Resolved(h, v)
                && *h == (FileData { id: FileId(old(self)@.names[name@]), data })
                && pairs_of(v@) == callbacks_of(ws, *h)),
    {
        match self.find_file_id(name) {
            None => Completion::Unexpected,
            Some(id) => {
                if self.ready_files.contains_key(&id.0) {
                    return Completion::Duplicate;
                }
                let ws = match self.pending_files.remove(&id.0) {
                    Some(ws) => ws,
                    None => Vec::new(),
                };
                let file = Arc::new(FileData { id, data });
                self.ready_files.insert(id.0, share(&file));
                let ghost mid = self@;
                proof {
                    let m = old(self)@.after_completion(name@, data);
                    assert(self@.pending =~= m.pending);
                    assert(self@.ready =~= m.ready);
                }
                let mut callbacks: Vec<(C, FileDataHandle)> = Vec::new();
                self.hand_out(&file, ws, &mut callbacks);
                proof {
                    assert(pairs_of(Seq::<(C, FileDataHandle)>::empty()) =~= Seq::<(C, FileData)>::empty());
                    assert(Seq::<(C, FileData)>::empty() + callbacks_of(old(self)@.pending[id.0], file_of(file))
                        =~= callbacks_of(old(self)@.pending[id.0], file_of(file)));
                    lemma_send_all_keeps_dom(old(self)@.sent, old(self)@.pending[id.0], file_of(file));
                    let m = old(self)@.after_completion(name@, data);
                    assert(self@ == m);
                    assert forall|x: u32| #[trigger] self@.pending.contains_key(x) implies endpoints_registered(
                        self@.pending[x],
                        self@.endpoints,
                    ) by {
                        assert(old(self)@.pending.contains_key(x));
                    }
                    assert forall|n: Seq<char>| #[trigger] self@.names.contains_key(n) implies self@.ready.contains_key(
                        self@.names[n],
                    ) || self@.pending.contains_key(self@.names[n]) by {
                        assert(old(self)@.ready.contains_key(old(self)@.names[n]) || old(self)@.pending.contains_key(
                            old(self)@.names[n],
                        ));
                    }
                }
                Completion::Resolved(file, callbacks)
            },
        }
    }
}

/// Storing a pending file keeps a model well formed.
pub proof fn lemma_with_ready_keeps_wf<C>(s: LoaderModel<C>, file: FileData)
    requires
        s.wf(),
        s.pending.contains_key(file.id.0),
    ensures
        s.with_ready(file).wf(),
        s.with_ready(file).names == s.names,
{
    let t = s.with_ready(file);
    lemma_send_all_keeps_dom(s.sent, s.pending[file.id.0], file);
    assert forall|x: u32| #[trigger] t.pending.contains_key(x) implies endpoints_registered(
        t.pending[x],
        t.endpoints,
    ) by {
        assert(s.pending.contains_key(x));
    }
    assert forall|n: Seq<char>| #[trigger] t.names.contains_key(n) implies t.ready.contains_key(
        t.names[n],
    ) || t.pending.contains_key(t.names[n]) by {
        assert(s.ready.contains_key(s.names[n]) || s.pending.contains_key(s.names[n]));
    }
}

/// `send_all` only appends to endpoints already in `sent`.
pub proof fn lemma_send_all_keeps_dom<C>(sent: Map<u32, Seq<FileData>>, ws: Seq<Waiter<C>>, file: FileData)
    requires
        endpoints_registered(ws, sent.dom()),
    ensures
        send_all(sent, ws, file).dom() == sent.dom(),
    decreases ws.len(),
{
    if ws.len() > 0 {
        let prev = ws.drop_last();
        assert(endpoints_registered(prev, sent.dom())) by {
            assert forall|i: int| 0 <= i < prev.len() implies match #[trigger] prev[i] {
                Waiter::Endpoint(e) => sent.dom().contains(e.0),
                Waiter::Callback(_) => true,
            } by {
                assert(prev[i] == ws[i]);
            }
        }
        lemma_send_all_keeps_dom(sent, prev, file);
        match ws.last() {
            Waiter::Endpoint(e) => {
                assert(ws[ws.len() - 1] == ws.last());
                assert(send_all(sent, ws, file).dom() =~= sent.dom());
            },
            Waiter::Callback(_) => {},
        }
    }
}

/// A subscriber whose requests resolve into messages on its own channel.
pub struct FileLoaderEndpoint {
    id: EndpointId,
    pub receiver: async_channel::Receiver<FileDataHandle>,
}

impl FileLoaderEndpoint {
    pub closed spec fn spec_id(&self) -> EndpointId {
        self.id
    }

    /// The id under which the loader knows this endpoint.
    pub fn id(&self) -> (r: EndpointId)
        ensures
            r == self.spec_id(),
    {
        self.id
    }

    /// Asks `loader` for `path` on behalf of this endpoint. The data goes to
    /// this endpoint's channel: now if it is ready, else from the `poll` that
    /// resolves it.
    pub fn request<C>(&self, loader: &mut FileLoader<C>, path: &str) -> (r: FileId)
        requires
            old(loader).wf(),
            old(loader)@.has_room_for(path@),
            old(loader)@.endpoints.contains(self.spec_id().0),
        ensures
            final(loader).wf(),
            final(loader)@ == old(loader)@.after_request(path@, Waiter::Endpoint(self.spec_id())),
            old(loader)@.keeps_ids(final(loader)@),
            r == FileId(final(loader)@.names[path@]),
            old(loader)@.state_of(path@) matches ResourceState::Ready(f) ==> final(loader)@.sent
                == old(loader)@.sent.insert(
                self.spec_id().0,
                old(loader)@.sent[self.spec_id().0].push(f),
            ),
            !(old(loader)@.state_of(path@) is Ready) ==> final(loader)@.sent == old(loader)@.sent,
    {
        let (id, _) = loader.enqueue(path, Waiter::Endpoint(self.id));
        id
    }
}

impl<C> FileLoader<C> {
    /// Registers a new endpoint with a channel of its own, to which nothing
    /// has been sent.
    pub fn make_endpoint(&mut self) -> (r: FileLoaderEndpoint)
        requires
            old(self).wf(),
            old(self)@.next_endpoint < u32::MAX,
        ensures
            final(self).wf(),
            r.spec_id() == EndpointId(old(self)@.next_endpoint as u32),
            !old(self)@.endpoints.contains(r.spec_id().0),
            final(self)@.sent[r.spec_id().0] == Seq::<FileData>::empty(),
            old(self)@.keeps_ids(final(self)@),
            final(self)@ == (LoaderModel {
                endpoints: old(self)@.endpoints.insert(old(self)@.next_endpoint as u32),
                next_endpoint: old(self)@.next_endpoint + 1,
                sent: old(self)@.sent.insert(old(self)@.next_endpoint as u32, Seq::empty()),
                ..old(self)@
            }),
    {
        let (sender, receiver) = unbounded_channel();
        let id = self.next_endpoint_id;
        self.next_endpoint_id = id + 1;
        self.endpoint_id_map.insert(id, sender);
        self.sent = Ghost(self.sent@.insert(id, Seq::empty()));
        proof {
            assert(self@.endpoints =~= old(self)@.endpoints.insert(id));
            assert forall|x: u32| #[trigger] self@.pending.contains_key(x) implies endpoints_registered(
                self@.pending[x],
                self@.endpoints,
            ) by {
                let ws = self@.pending[x];
                assert(endpoints_registered(ws, old(self)@.endpoints));
                assert forall|i: int| 0 <= i < ws.len() implies match #[trigger] ws[i] {
                    Waiter::Endpoint(e) => self@.endpoints.contains(e.0),
                    Waiter::Callback(_) => true,
                } by {
                    match ws[i] {
                        Waiter::Endpoint(e) => assert(old(self)@.endpoints.contains(e.0)),
                        Waiter::Callback(_) => {},
                    }
                }
            }
        }
        FileLoaderEndpoint { id: EndpointId(id), receiver }
    }

    /// Hands `file` to the channel of the registered endpoint `e`.
    fn send_to_endpoint(&mut self, e: EndpointId, file: FileDataHandle)
        requires
            old(self)@.sent.contains_key(e.0),
            old(self)@.sent.dom() == old(self)@.endpoints,
        ensures
            final(self)@ == (LoaderModel {
                sent: old(self)@.sent.insert(e.0, old(self)@.sent[e.0].push(*file)),
                ..old(self)@
            }),
    {
        self.sent = Ghost(self.sent@.insert(e.0, self.sent@[e.0].push(file_of(file))));
        match self.endpoint_id_map.get(&e.0) {
            Some(sender) => {
                let _ = try_send(sender, file);
            },
            None => {},
        }
    }

    /// Serves `waiters` with `file` in order: endpoints through their channels,
    /// callbacks by appending them to `out`.
    fn hand_out(
        &mut self,
        file: &FileDataHandle,
        waiters: Vec<Waiter<C>>,
        out: &mut Vec<(C, FileDataHandle)>,
    )
        requires
            endpoints_registered(waiters@, old(self)@.endpoints),
            old(self)@.sent.dom() == old(self)@.endpoints,
        ensures
            final(self)@ == (LoaderModel { sent: send_all(old(self)@.sent, waiters@, **file), ..old(self)@ }),
            pairs_of(final(out)@) == pairs_of(old(out)@) + callbacks_of(waiters@, **file),
    {
        let ghost all = waiters@;
        let n = waiters.len();
        let mut ws = waiters;
        let mut i: usize = 0;
        while ws.len() > 0
            invariant
                all.len() == n,
                i <= all.len(),
                ws@ == all.subrange(i as int, all.len() as int),
                endpoints_registered(all, old(self)@.endpoints),
                old(self)@.sent.dom() == old(self)@.endpoints,
                self@ == (LoaderModel {
                    sent: send_all(old(self)@.sent, all.subrange(0, i as int), **file),
                    ..old(self)@
                }),
                self@.sent.dom() == self@.endpoints,
                pairs_of(out@) == pairs_of(old(out)@) + callbacks_of(all.subrange(0, i as int), **file),
            decreases ws.len(),
        {
            let w = ws.remove(0);
            let ghost before = out@;
            proof {
                assert(all.subrange(0, i + 1).drop_last() =~= all.subrange(0, i as int));
                assert(all.subrange(0, i + 1).last() == w);
                assert(all[i as int] == w);
            }
            match w {
                Waiter::Callback(c) => {
                    out.push((c, share(file)));
                    assert(pairs_of(out@) =~= pairs_of(before).push((c, **file)));
                },
                Waiter::Endpoint(e) => {
                    self.send_to_endpoint(e, share(file));
                    assert(self@.sent.dom() =~= self@.endpoints);
                },
            }
            i = i + 1;
            assert(ws@ =~= all.subrange(i as int, all.len() as int));
        }
        assert(all.subrange(0, i as int) =~= all);
    }

    /// Drains the completions queued when the call starts, without waiting.
    ///
    /// Each completion for a pending name makes it ready, sends it to the
    /// name's endpoint waiters and owes it to the name's callbacks, in
    /// registration order; the others are dropped and reported. Which
    /// completions had arrived is up to the fetches; whatever they were, the
    /// files in `resolved` became ready in that order, every endpoint was sent
    /// exactly what the model's `resolve_files` records, and `callbacks` holds
    /// exactly the callbacks those files owed.
    pub fn poll(&mut self) -> (r: Polled<C>)
        requires
            old(self).wf(),
        ensures
            final(self).wf(),
            old(self)@.can_resolve(files_of(r.resolved@)),
            final(self)@ == old(self)@.resolve_files(files_of(r.resolved@)),
            old(self)@.keeps_ids(final(self)@),
            pairs_of(r.callbacks@) == old(self)@.deliveries(files_of(r.resolved@)),
            forall|i: int| 0 <= i < r.rejected@.len() ==> match #[trigger] r.rejected@[i] {
                Rejected::Unexpected(n) => !final(self)@.names.contains_key(n@),
                Rejected::Duplicate(n) => final(self)@.state_of(n@) is Ready,
            },
    {
        let n = queued_messages(&self.receiver);
        let mut resolved: Vec<FileDataHandle> = Vec::new();
        let mut callbacks: Vec<(C, FileDataHandle)> = Vec::new();
        let mut rejected: Vec<Rejected> = Vec::new();
        let mut k: usize = 0;
        while k < n
            invariant
                self.wf(),
                old(self)@.can_resolve(files_of(resolved@)),
                self@ == old(self)@.resolve_files(files_of(resolved@)),
                pairs_of(callbacks@) == old(self)@.deliveries(files_of(resolved@)),
                self@.names == old(self)@.names,
                forall|i: int| 0 <= i < rejected@.len() ==> match #[trigger] rejected@[i] {
                    Rejected::Unexpected(n) => !self@.names.contains_key(n@),
                    Rejected::Duplicate(n) => self@.state_of(n@) is Ready,
                },
            decreases n - k,
        {
            match try_receive(&self.receiver) {
                Some((name, data)) => {
                    let ghost done = files_of(resolved@);
                    match self.complete(name.as_str(), data) {
                        Completion::Resolved(file, owed) => {
                            let mut owed = owed;
                            let ghost before = callbacks@;
                            let ghost owed0 = owed@;
                            callbacks.append(&mut owed);
                            proof {
                                let files = files_of(resolved@.push(file));
                                assert(files.drop_last() =~= done);
                                assert(pairs_of(callbacks@) =~= pairs_of(before) + pairs_of(owed0));
                            }
                            resolved.push(file);
                        },
                        Completion::Unexpected => {
                            rejected.push(Rejected::Unexpected(name));
                        },
                        Completion::Duplicate => {
                            rejected.push(Rejected::Duplicate(name));
                        },
                    }
                    k = k + 1;
                },
                None => {
                    k = n;
                },
            }
        }
        Polled { resolved, callbacks, rejected }
    }
}

} // verus!
