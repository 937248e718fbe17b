//! The manager: which driver serves which medium, and what its worker is
//! told. The manager decides; its caller owns the queues and the tasks.

use vstd::prelude::*;
use vstd::string::StringExecFns;
use std::collections::HashMap;
use url::Url;
use crate::media::MediaError;
use crate::media::spec::FileSpec;
use crate::media::spec::FileSpecView;
use crate::media::spec::MediaSpec;
use crate::media::spec::MediaSpecView;
use crate::text::texts;
use crate::urls::clone_url;
use crate::urls::clone_urls;
use crate::urls::scheme_of;
use crate::urls::url_text;
use crate::urls::url_texts;

verus! {

/// A handle on an attached medium: the attachment, the driver that made it,
/// and the mirror that the driver was found by.
#[derive(Debug)]
pub struct AttachedMedium {
    id: u32,
    driver_id: u32,
    base_url: Url,
}

impl AttachedMedium {
    /// The handle for the attachment `id` of the driver `driver_id`.
    pub fn new(id: u32, driver_id: u32, base_url: Url) -> (m: AttachedMedium)
        ensures
            m.id() == id,
            m.driver_id() == driver_id,
            m.base_url() == base_url,
    {
        AttachedMedium { id, driver_id, base_url }
    }

    /// The id of the attachment.
    pub closed spec fn spec_id(&self) -> u32 {
        self.id
    }

    /// The id of the driver.
    pub closed spec fn spec_driver_id(&self) -> u32 {
        self.driver_id
    }

    /// The mirror that the driver was found by.
    pub closed spec fn spec_base_url(&self) -> &Url {
        &self.base_url
    }

    /// The id of the attachment.
    #[verifier::when_used_as_spec(spec_id)]
    pub fn id(&self) -> (r: u32)
        ensures
            r == self.id(),
    {
        self.id
    }

    /// The id of the driver.
    #[verifier::when_used_as_spec(spec_driver_id)]
    pub fn driver_id(&self) -> (r: u32)
        ensures
            r == self.driver_id(),
    {
        self.driver_id
    }

    /// The mirror that the driver was found by.
    #[verifier::when_used_as_spec(spec_base_url)]
    pub fn base_url(&self) -> (r: &Url)
        ensures
            r == self.base_url(),
    {
        &self.base_url
    }
}

/// What a worker is told.
#[allow(inconsistent_fields)]
#[derive(Debug)]
pub enum ToWorkerMsg {
    /// Attach the medium `spec` at the mirrors `urls`.
    Attach { urls: Vec<Url>, spec: MediaSpec },
    /// Provide the file at `path` of the attachment `attach_id`.
    Fetch { attach_id: u32, path: String, spec: FileSpec },
    /// Give up one use of the attachment `attach_id`.
    Detach { attach_id: u32 },
    /// Take no more work.
    Shutdown,
}

/// The mathematical value of a [`ToWorkerMsg`].
#[allow(inconsistent_fields)]
pub enum MsgView {
    Attach { urls: Seq<Seq<char>>, spec: MediaSpecView },
    Fetch { attach_id: u32, path: Seq<char>, spec: FileSpecView },
    Detach { attach_id: u32 },
    Shutdown,
}

impl View for ToWorkerMsg {
    type V = MsgView;

    open spec fn view(&self) -> MsgView {
        match *self {
            ToWorkerMsg::Attach { urls, spec } => MsgView::Attach {
                urls: url_texts(urls@),
                spec: spec@,
            },
            ToWorkerMsg::Fetch { attach_id, path, spec } => MsgView::Fetch {
                attach_id,
                path: path@,
                spec: spec@,
            },
            ToWorkerMsg::Detach { attach_id } => MsgView::Detach { attach_id },
            ToWorkerMsg::Shutdown => MsgView::Shutdown,
        }
    }
}

/// What the manager knows of a worker: the schemes that its driver serves.
#[derive(Debug)]
pub struct WorkerHandle {
    schemes: Vec<String>,
}

impl View for WorkerHandle {
    type V = Seq<Seq<char>>;

    closed spec fn view(&self) -> Seq<Seq<char>> {
        texts(self.schemes@)
    }
}

impl WorkerHandle {
    /// The handle of a worker whose driver serves `schemes`.
    pub fn new(schemes: Vec<String>) -> (h: WorkerHandle)
        ensures
            h@ == texts(schemes@),
    {
        WorkerHandle { schemes }
    }

    /// Whether the worker's driver serves the scheme.
    pub fn can_handle_scheme(&self, scheme: &str) -> (r: bool)
        ensures
            r == self@.contains(scheme@),
    {
        let wanted = String::from_str(scheme);
        let mut i: usize = 0;
        while i < self.schemes.len()
            invariant
                i <= self.schemes@.len(),
                wanted@ == scheme@,
                forall|j: int| 0 <= j < i ==> (#[trigger] self.schemes@[j])@ != scheme@,
            decreases self.schemes@.len() - i,
        {
            if self.schemes[i] == wanted {
                assert(self@[i as int] == scheme@);
                return true;
            }
            i = i + 1;
        }
        assert forall|j: int| 0 <= j < self@.len() implies self@[j] != scheme@ by {
            assert(self@[j] == self.schemes@[j]@);
        }
        false
    }
}

/// The mathematical value of the manager: the id handed out last, and the
/// schemes of every driver by its id.
pub struct ManagerView {
    pub next_driver_id: u32,
    pub drivers: Map<u32, Seq<Seq<char>>>,
}

/// Whether the driver `id` serves the scheme.
pub open spec fn handles(drivers: Map<u32, Seq<Seq<char>>>, id: nat, scheme: Seq<char>) -> bool {
    id <= u32::MAX && drivers.contains_key(id as u32) && drivers[id as u32].contains(scheme)
}

/// The driver with the lowest id from `from` to `last` that serves the
/// scheme. Ids are handed out in rising order, so this is the driver that
/// was added first among them.
pub open spec fn handler_from(
    drivers: Map<u32, Seq<Seq<char>>>,
    scheme: Seq<char>,
    from: nat,
    last: nat,
) -> Option<u32>
    decreases last + 1 - from,
{
    if from > last {
        None
    } else if handles(drivers, from, scheme) {
        Some(from as u32)
    } else {
        handler_from(drivers, scheme, from + 1, last)
    }
}

/// Where a request goes: the driver that takes it, and the place in the
/// list of mirrors of the URL that it was found by.
pub struct RouteView {
    pub driver_id: u32,
    pub index: nat,
}

impl ManagerView {
    /// Whether a driver has the id.
    pub open spec fn has_driver(self, id: u32) -> bool {
        self.drivers.contains_key(id)
    }

    /// The driver that takes requests for the scheme: of those that serve
    /// it, the one that was added first.
    pub open spec fn handler(self, scheme: Seq<char>) -> Option<u32> {
        handler_from(self.drivers, scheme, 0, self.next_driver_id as nat)
    }

    /// The first mirror from `from` on whose scheme some driver serves,
    /// with the driver that takes requests for it.
    pub open spec fn route_from(self, urls: Seq<Seq<char>>, from: nat) -> Option<RouteView>
        decreases urls.len() - from,
    {
        if from >= urls.len() {
            None
        } else {
            match self.handler(scheme_of(urls[from as int])) {
                Some(driver_id) => Some(RouteView { driver_id: driver_id, index: from }),
                None => self.route_from(urls, from + 1),
            }
        }
    }

    /// Where an attach at the mirrors `urls` goes.
    pub open spec fn route(self, urls: Seq<Seq<char>>) -> Option<RouteView> {
        self.route_from(urls, 0)
    }

    /// What holds of every manager: no driver's id is ahead of the
    /// counter.
    pub open spec fn wf(self) -> bool {
        forall|id: u32| #[trigger] self.drivers.contains_key(id) ==> id <= self.next_driver_id
    }
}

/// Where an attach goes, and what the worker there is told.
#[derive(Debug)]
pub struct Route {
    /// The driver that takes the request.
    pub driver_id: u32,
    /// The mirror that the driver was found by.
    pub base_url: Url,
    /// What the driver's worker is told.
    pub message: ToWorkerMsg,
}

/// The routing table of the media manager.
#[derive(Debug)]
pub struct Manager {
    next_driver_id: u32,
    drivers: HashMap<u32, WorkerHandle>,
}

impl View for Manager {
    type V = ManagerView;

    closed spec fn view(&self) -> ManagerView {
        ManagerView {
            next_driver_id: self.next_driver_id,
            drivers: self.drivers@.map_values(|h: WorkerHandle| h@),
        }
    }
}

impl Manager {
    /// A manager with the HTTP driver, which serves `http` and `https`, as
    /// its first driver.
    pub fn new() -> (m: Manager)
        ensures
            m@.wf(),
            m@.next_driver_id == 1,
            m@.drivers == map![1u32 => seq!["http"@, "https"@]],
    {
        broadcast use vstd::std_specs::hash::group_hash_axioms;

        let mut schemes: Vec<String> = Vec::new();
        schemes.push(String::from_str("http"));
        schemes.push(String::from_str("https"));
        let handle = WorkerHandle::new(schemes);
        assert(handle@ =~= seq!["http"@, "https"@]);
        let mut drivers: HashMap<u32, WorkerHandle> = HashMap::new();
        let _ = drivers.insert(1u32, handle);
        let m = Manager { next_driver_id: 1, drivers };
        assert(m@.drivers =~= map![1u32 => seq!["http"@, "https"@]]);
        m
    }

    /// The id that was handed out last.
    pub fn last_driver_id(&self) -> (r: u32)
        ensures
            r == self@.next_driver_id,
    {
        self.next_driver_id
    }

    /// Adds a driver that serves `schemes`, under the next id.
    pub fn add_driver(&mut self, schemes: Vec<String>) -> (id: u32)
        requires
            old(self)@.wf(),
            old(self)@.next_driver_id < u32::MAX,
        ensures
            final(self)@.wf(),
            id == old(self)@.next_driver_id + 1,
            final(self)@.next_driver_id == id,
            final(self)@.drivers == old(self)@.drivers.insert(id, texts(schemes@)),
    {
        broadcast use vstd::std_specs::hash::group_hash_axioms;

        let ghost before = self@;
        let id = self.next_driver_id + 1;
        self.next_driver_id = id;
        let _ = self.drivers.insert(id, WorkerHandle::new(schemes));
        assert(self@.drivers =~= before.drivers.insert(id, texts(schemes@)));
        id
    }

    fn handler(&self, scheme: &str) -> (r: Option<u32>)
        ensures
            r == self@.handler(scheme@),
    {
        broadcast use vstd::std_specs::hash::group_hash_axioms;

        let mut id: u32 = 0;
        loop
            invariant
                id <= self.next_driver_id,
                self@.handler(scheme@) == handler_from(
                    self@.drivers,
                    scheme@,
                    id as nat,
                    self.next_driver_id as nat,
                ),
            decreases self.next_driver_id - id,
        {
            match self.drivers.get(&id) {
                Some(handle) => {
                    if handle.can_handle_scheme(scheme) {
                        return Some(id);
                    }
                },
                None => {},
            }
            assert(!handles(self@.drivers, id as nat, scheme@));
            if id == self.next_driver_id {
                assert(handler_from(
                    self@.drivers,
                    scheme@,
                    (id + 1) as nat,
                    self.next_driver_id as nat,
                ) is None);
                return None;
            }
            id = id + 1;
        }
    }

    /// Whether a driver has the id.
    pub fn has_driver(&self, id: u32) -> (r: bool)
        ensures
            r == self@.has_driver(id),
    {
        broadcast use vstd::std_specs::hash::group_hash_axioms;

        self.drivers.contains_key(&id)
    }

    /// Finds the driver for an attach: of the mirrors, in order, the first
    /// whose scheme a driver serves decides, and the driver added first
    /// among those that serve it takes the request. The worker of that
    /// driver is to be told to attach the medium at all the mirrors. Where
    /// no mirror has a driver, and so for an empty list, no driver is
    /// found.
    pub fn attach(&self, urls: &Vec<Url>, spec: &MediaSpec) -> (r: Result<Route, MediaError>)
        ensures
            match r {
                Ok(route) => {
                    &&& self@.route(url_texts(urls@)) matches Some(to)
                    &&& route.driver_id == to.driver_id
                    &&& to.index < urls@.len()
                    &&& url_text(route.base_url) == url_text(urls@[to.index as int])
                    &&& route.message@ == (MsgView::Attach {
                        urls: url_texts(urls@),
                        spec: spec@,
                    })
                },
                Err(e) => self@.route(url_texts(urls@)) is None && e
                    == MediaError::NoDriverFound,
            },
    {
        let ghost list = url_texts(urls@);
        let mut i: usize = 0;
        while i < urls.len()
            invariant
                i <= urls@.len(),
                list == url_texts(urls@),
                self@.route_from(list, 0) == self@.route_from(list, i as nat),
            decreases urls@.len() - i,
        {
            assert(list[i as int] == url_text(urls@[i as int]));
            match self.handler(urls[i].scheme()) {
                Some(driver_id) => {
                    let message = ToWorkerMsg::Attach {
                        urls: clone_urls(urls),
                        spec: spec.clone(),
                    };
                    return Ok(Route { driver_id, base_url: clone_url(&urls[i]), message });
                },
                None => {},
            }
            i = i + 1;
        }
        Err(MediaError::NoDriverFound)
    }

    /// Finds the worker for a fetch: the one of the driver that made the
    /// attachment, which is to be told to provide the file as it was asked
    /// for. A handle of a driver that this manager does not have is
    /// invalid.
    pub fn fetch(&self, medium: &AttachedMedium, path: String, spec: FileSpec) -> (r: Result<
        (u32, ToWorkerMsg),
        MediaError,
    >)
        ensures
            match r {
                Ok(to) => {
                    &&& self@.has_driver(medium.driver_id())
                    &&& to.0 == medium.driver_id()
                    &&& to.1@ == (MsgView::Fetch {
                        attach_id: medium.id(),
                        path: path@,
                        spec: spec@,
                    })
                },
                Err(e) => !self@.has_driver(medium.driver_id()) && e
                    == MediaError::InvalidHandle,
            },
    {
        if self.has_driver(medium.driver_id()) {
            Ok((medium.driver_id(), ToWorkerMsg::Fetch { attach_id: medium.id(), path, spec }))
        } else {
            Err(MediaError::InvalidHandle)
        }
    }

    /// Finds the worker that is to be told that a handle is gone: the one
    /// of the driver that made the attachment, if this manager has it.
    pub fn detach(&self, medium: &AttachedMedium) -> (r: Option<(u32, ToWorkerMsg)>)
        ensures
            match r {
                Some(to) => {
                    &&& self@.has_driver(medium.driver_id())
                    &&& to.0 == medium.driver_id()
                    &&& to.1@ == (MsgView::Detach { attach_id: medium.id() })
                },
                None => !self@.has_driver(medium.driver_id()),
            },
    {
        if self.has_driver(medium.driver_id()) {
            Some((medium.driver_id(), ToWorkerMsg::Detach { attach_id: medium.id() }))
        } else {
            None
        }
    }
}

/// An attach at no mirror at all finds no driver.
pub proof fn lemma_no_mirror_no_driver(m: ManagerView)
    ensures
        m.route(Seq::empty()) is None,
{
}

/// The handler of a scheme is the driver with the lowest id that serves
/// it: it serves the scheme, and no driver with a lower id does. Where
/// there is no handler, no driver up to the last id serves the scheme.
pub proof fn lemma_handler_is_first(
    drivers: Map<u32, Seq<Seq<char>>>,
    scheme: Seq<char>,
    from: nat,
    last: nat,
)
    ensures
        match handler_from(drivers, scheme, from, last) {
            Some(id) => {
                &&& from <= id <= last
                &&& handles(drivers, id as nat, scheme)
                &&& forall|k: nat| from <= k < id ==> !handles(drivers, k, scheme)
            },
            None => forall|k: nat| from <= k <= last ==> !handles(drivers, k, scheme),
        },
    decreases last + 1 - from,
{
    if from <= last && !handles(drivers, from, scheme) {
        lemma_handler_is_first(drivers, scheme, from + 1, last);
    }
}

/// In a well-formed manager a scheme without a handler is served by no
/// driver at all.
pub proof fn lemma_no_handler_no_driver(m: ManagerView, scheme: Seq<char>, id: u32)
    requires
        m.wf(),
        m.handler(scheme) is None,
        m.drivers.contains_key(id),
    ensures
        !m.drivers[id].contains(scheme),
{
    lemma_handler_is_first(m.drivers, scheme, 0, m.next_driver_id as nat);
    assert(!handles(m.drivers, id as nat, scheme));
}

/// The route of an attach names the first mirror that has a driver: no
/// mirror before it has one, and the driver named is the handler of its
/// scheme.
pub proof fn lemma_route_is_first(m: ManagerView, urls: Seq<Seq<char>>, from: nat)
    ensures
        match m.route_from(urls, from) {
            Some(to) => {
                &&& from <= to.index < urls.len()
                &&& m.handler(scheme_of(urls[to.index as int])) == Some(to.driver_id)
                &&& forall|i: int|
                    from <= i < to.index ==> m.handler(scheme_of(#[trigger] urls[i])) is None
            },
            None => forall|i: int|
                from <= i < urls.len() ==> m.handler(scheme_of(#[trigger] urls[i])) is None,
        },
    decreases urls.len() - from,
{
    if from < urls.len() && m.handler(scheme_of(urls[from as int])) is None {
        lemma_route_is_first(m, urls, from + 1);
    }
}

/// What a worker does next.
#[derive(Debug)]
pub enum WorkerAction {
    /// Handle the message as a task of its own, beside those that run, and
    /// send the driver's answer to whoever waits for it.
    Spawn(ToWorkerMsg),
    /// Give up one use of the attachment, now.
    Detach(u32),
    /// Wait for the next message or the end of a task.
    Continue,
    /// Take no more messages; wait for the tasks that run.
    Drain,
    /// Stop.
    Exit,
}

/// The mathematical value of a [`WorkerAction`].
pub enum WorkerActionView {
    Spawn(MsgView),
    Detach(u32),
    Continue,
    Drain,
    Exit,
}

impl View for WorkerAction {
    type V = WorkerActionView;

    open spec fn view(&self) -> WorkerActionView {
        match *self {
            WorkerAction::Spawn(msg) => WorkerActionView::Spawn(msg@),
            WorkerAction::Detach(id) => WorkerActionView::Detach(id),
            WorkerAction::Continue => WorkerActionView::Continue,
            WorkerAction::Drain => WorkerActionView::Drain,
            WorkerAction::Exit => WorkerActionView::Exit,
        }
    }
}

/// What a worker that takes no more messages does while `running` of its
/// tasks still run: it waits for them, and stops when none is left.
pub open spec fn wind_down(running: nat) -> WorkerActionView {
    if running == 0 {
        WorkerActionView::Exit
    } else {
        WorkerActionView::Drain
    }
}

/// What a worker does with a message while `running` of its tasks run, and
/// whether it takes messages after it. An attach and a fetch become tasks
/// of their own; a detach is done at once; a shutdown ends the taking of
/// messages. A worker that takes no messages drops what still arrives.
pub open spec fn on_message_spec(accepting: bool, msg: MsgView, running: nat) -> (
    bool,
    WorkerActionView,
) {
    if !accepting {
        (false, wind_down(running))
    } else {
        match msg {
            MsgView::Attach { .. } => (true, WorkerActionView::Spawn(msg)),
            MsgView::Fetch { .. } => (true, WorkerActionView::Spawn(msg)),
            MsgView::Detach { attach_id } => (true, WorkerActionView::Detach(attach_id)),
            MsgView::Shutdown => (false, wind_down(running)),
        }
    }
}

/// The dispatcher of one driver: it takes messages until it is shut down
/// or its queue closes, lets the tasks that run come to their end, and
/// stops.
#[derive(Debug)]
pub struct Worker {
    accepting: bool,
}

impl Worker {
    /// Whether the worker takes messages.
    pub closed spec fn accepting(&self) -> bool {
        self.accepting
    }

    /// A worker that takes messages.
    pub fn new() -> (w: Worker)
        ensures
            w.accepting(),
    {
        Worker { accepting: true }
    }

    /// Whether the worker takes messages.
    pub fn is_accepting(&self) -> (r: bool)
        ensures
            r == self.accepting(),
    {
        self.accepting
    }

    fn wind_down(running: usize) -> (action: WorkerAction)
        ensures
            action@ == wind_down(running as nat),
    {
        if running == 0 {
            WorkerAction::Exit
        } else {
            WorkerAction::Drain
        }
    }

    /// Decides what to do with a message that arrived while `running`
    /// tasks run.
    pub fn on_message(&mut self, msg: ToWorkerMsg, running: usize) -> (action: WorkerAction)
        ensures
            (final(self).accepting(), action@) == on_message_spec(
                old(self).accepting(),
                msg@,
                running as nat,
            ),
    {
        if !self.accepting {
            return Worker::wind_down(running);
        }
        match msg {
            ToWorkerMsg::Attach { urls, spec } => WorkerAction::Spawn(
                ToWorkerMsg::Attach { urls, spec },
            ),
            ToWorkerMsg::Fetch { attach_id, path, spec } => WorkerAction::Spawn(
                ToWorkerMsg::Fetch { attach_id, path, spec },
            ),
            ToWorkerMsg::Detach { attach_id } => WorkerAction::Detach(attach_id),
            ToWorkerMsg::Shutdown => {
                self.accepting = false;
                Worker::wind_down(running)
            },
        }
    }

    /// Decides what to do when the queue closed while `running` tasks run:
    /// no message is taken any more.
    pub fn on_closed(&mut self, running: usize) -> (action: WorkerAction)
        ensures
            !final(self).accepting(),
            action@ == wind_down(running as nat),
    {
        self.accepting = false;
        Worker::wind_down(running)
    }

    /// Decides what to do when a task ended and `running` tasks still run.
    pub fn on_task_done(&mut self, running: usize) -> (action: WorkerAction)
        ensures
            final(self).accepting() == old(self).accepting(),
            action@ == (if old(self).accepting() {
                WorkerActionView::Continue
            } else {
                wind_down(running as nat)
            }),
    {
        if self.accepting {
            WorkerAction::Continue
        } else {
            Worker::wind_down(running)
        }
    }
}

/// A worker that stopped taking messages never takes one again, starts no
/// task, and stops exactly when no task runs.
pub proof fn lemma_worker_winds_down(msg: MsgView, running: nat)
    ensures
        !on_message_spec(false, msg, running).0,
        !(on_message_spec(false, msg, running).1 is Spawn),
        on_message_spec(false, msg, running).1 is Exit <==> running == 0,
{
}

} // verus!
