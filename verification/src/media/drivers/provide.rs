//! Providing one file from an attached medium, step by step.
//!
//! A request pins its attachment, prepares the target directory, and then
//! either finds the file, waits for whoever is downloading it, or downloads
//! it itself, mirror after mirror. The driver decides each step from what
//! its caller reports; the caller does the work on disk and on the network.

use vstd::prelude::*;
use vstd::string::StringExecFns;
use url::Url;
use crate::media::opt_error_view;
use crate::media::MediaError;
use crate::media::MediaErrorView;
use crate::media::drivers::http::Claim;
use crate::media::drivers::http::DriverView;
use crate::media::drivers::http::MediaHttpDriver;
use crate::media::spec::FileSpec;
use crate::paths::opt_text;
use crate::paths::path_components;
use crate::paths::path_file_name;
use crate::paths::path_join;
use crate::paths::path_parent;
use crate::paths::path_strip_prefix;
use crate::urls::url_join_text;
use crate::urls::url_text;
use crate::urls::url_texts;

verus! {

/// Where a request stands.
#[derive(Clone, Copy, Debug, PartialEq, Eq, Structural)]
pub enum Phase {
    /// The target directory is being prepared.
    PreparingDir,
    /// The target file is being looked for.
    Probing,
    /// Somebody else downloads the file; the request waits to be woken.
    Waiting,
    /// A mirror was asked for the file.
    Requesting,
    /// A mirror's answer is being written to disk.
    Storing,
    /// The request is over.
    Finished,
}

/// What the caller reports to a request.
#[derive(Debug)]
pub enum ProvideEvent {
    /// The target directory was looked at, and created where it was
    /// missing: it is a directory, or something else is in its place.
    DirReady { is_dir: bool },
    /// The target file was looked for.
    Probed { exists: bool },
    /// The attachment announced the end of a download.
    Woken,
    /// The mirror answered with this HTTP status.
    Responded { status: u16 },
    /// The answer was written out, synced and moved to the target file.
    Stored,
    /// The step that was asked for failed.
    Failed { error: MediaError },
    /// The caller gives the request up. No request waits for this, so it
    /// ends the request wherever it stands.
    Abandoned,
}

/// The mathematical value of a [`ProvideEvent`].
pub enum EventView {
    DirReady { is_dir: bool },
    Probed { exists: bool },
    Woken,
    Responded { status: u16 },
    Stored,
    Failed { error: MediaErrorView },
    Abandoned,
}

impl View for ProvideEvent {
    type V = EventView;

    open spec fn view(&self) -> EventView {
        match *self {
            ProvideEvent::DirReady { is_dir } => EventView::DirReady { is_dir },
            ProvideEvent::Probed { exists } => EventView::Probed { exists },
            ProvideEvent::Woken => EventView::Woken,
            ProvideEvent::Responded { status } => EventView::Responded { status },
            ProvideEvent::Stored => EventView::Stored,
            ProvideEvent::Failed { error } => EventView::Failed { error: error@ },
            ProvideEvent::Abandoned => EventView::Abandoned,
        }
    }
}

/// What a request asks its caller to do next.
#[derive(Debug)]
pub enum ProvideAction {
    /// Create `dir` with its parents if nothing is there, then report with
    /// `DirReady` whether it is a directory.
    PrepareDir { dir: String },
    /// Report with `Probed` whether `file` exists.
    Probe { file: String },
    /// Wait until the attachment announces the end of a download, then
    /// report `Woken`.
    Wait,
    /// Create a temporary file in `dir` and send a GET request for `url`;
    /// report the status with `Responded`.
    Request { url: Url, dir: String },
    /// Write the answer's body to the temporary file, sync it and move it
    /// to `file`; report `Stored`.
    Store { file: String },
    /// The request is over with `result`. With `notify`, announce the end
    /// of a download to the attachment's waiters. Remove the directory
    /// `evicted`, whose attachment went with this request.
    Done { result: Result<String, MediaError>, notify: bool, evicted: Option<String> },
}

/// The mathematical value of a [`ProvideAction`].
pub enum ActionView {
    PrepareDir { dir: Seq<char> },
    Probe { file: Seq<char> },
    Wait,
    Request { url: Seq<char>, dir: Seq<char> },
    Store { file: Seq<char> },
    Done { result: Result<Seq<char>, MediaErrorView>, notify: bool, evicted: Option<Seq<char>> },
}

/// The mathematical value of a request's result.
pub open spec fn result_view(r: Result<String, MediaError>) -> Result<Seq<char>, MediaErrorView> {
    match r {
        Ok(file) => Ok(file@),
        Err(e) => Err(e@),
    }
}

impl View for ProvideAction {
    type V = ActionView;

    open spec fn view(&self) -> ActionView {
        match *self {
            ProvideAction::PrepareDir { dir } => ActionView::PrepareDir { dir: dir@ },
            ProvideAction::Probe { file } => ActionView::Probe { file: file@ },
            ProvideAction::Wait => ActionView::Wait,
            ProvideAction::Request { url, dir } => ActionView::Request {
                url: url_text(url),
                dir: dir@,
            },
            ProvideAction::Store { file } => ActionView::Store { file: file@ },
            ProvideAction::Done { result, notify, evicted } => ActionView::Done {
                result: result_view(result),
                notify,
                evicted: opt_text(evicted),
            },
        }
    }
}

/// The mathematical value of a request.
pub struct CallView {
    /// The attachment that the file is asked from.
    pub attach_id: u32,
    /// The path of the file on the medium.
    pub path: Seq<char>,
    /// The directory that the file goes to.
    pub target_dir: Seq<char>,
    /// The file's place on disk, once its name is known.
    pub target_file: Seq<char>,
    pub phase: Phase,
    /// Whether the request holds a use of its attachment.
    pub pinned: bool,
    /// Whether the request is the one that downloads the file.
    pub armed: bool,
    /// The mirrors as they were when the download began.
    pub mirrors: Seq<Seq<char>>,
    /// The mirror that is being tried.
    pub next_mirror: nat,
    /// What the mirror tried last failed with.
    pub last_error: Option<MediaErrorView>,
}

impl CallView {
    /// The identity of the requested path.
    pub open spec fn key(self) -> Seq<Seq<char>> {
        path_components(self.path)
    }

    /// What holds of every request: it holds a use of its attachment until
    /// it is over, only a request that downloads talks to a mirror, and the
    /// mirror it talks to is one of its list.
    pub open spec fn wf(self) -> bool {
        &&& (self.phase == Phase::Requesting || self.phase == Phase::Storing) ==> self.armed
            && self.next_mirror < self.mirrors.len()
        &&& self.armed ==> self.pinned
        &&& self.pinned <==> self.phase != Phase::Finished
    }
}

/// The outcome of one step: the driver and the request after it, and what
/// the caller is asked to do.
pub struct Step {
    pub driver: DriverView,
    pub call: CallView,
    pub action: ActionView,
}

/// The directory that a file of the medium goes to: the scratch directory,
/// extended by the parent of the file's path, a leading separator taken
/// off. A path without a parent goes to the scratch directory itself.
pub open spec fn target_dir_of(scratch_dir: Seq<char>, path: Seq<char>) -> Seq<char> {
    match path_parent(path) {
        None => scratch_dir,
        Some(parent) => match path_strip_prefix(parent, "/"@) {
            Some(rel) => path_join(scratch_dir, rel),
            None => path_join(scratch_dir, parent),
        },
    }
}

/// The place on disk of a file of the medium: its name in its target
/// directory. A path without a file name has none.
pub open spec fn target_file_of(scratch_dir: Seq<char>, path: Seq<char>) -> Option<Seq<char>> {
    match path_file_name(path) {
        None => None,
        Some(name) => Some(path_join(target_dir_of(scratch_dir, path), name)),
    }
}

/// Whether an HTTP status reports success: the codes from 200 to 299.
pub open spec fn is_success(status: u16) -> bool {
    200 <= status < 300
}

/// The error of a request that was told something it did not ask for.
pub open spec fn unexpected_event() -> MediaErrorView {
    MediaErrorView::Internal("unexpected event"@)
}

/// The end of a request: its download, if it had one, is over, and its use
/// of the attachment is given up, with which the attachment may go.
pub open spec fn finish(
    d: DriverView,
    c: CallView,
    result: Result<Seq<char>, MediaErrorView>,
) -> Step {
    let released = if c.armed {
        d.release(c.attach_id, c.key())
    } else {
        d
    };
    let unpinned = if c.pinned {
        released.unpin(c.attach_id)
    } else {
        released
    };
    Step {
        driver: unpinned,
        call: CallView {
            phase: Phase::Finished,
            pinned: false,
            armed: false,
            last_error: None,
            ..c
        },
        action: ActionView::Done {
            result: result,
            notify: c.armed && d.attached.contains_key(c.attach_id),
            evicted: if c.pinned {
                released.evicts(c.attach_id)
            } else {
                None
            },
        },
    }
}

/// Tries the mirrors from the one at `from` on, in order: the first whose
/// URL the path can be joined to is asked for the file. A mirror that the
/// path cannot be joined to counts as failed with an invalid path. With no
/// mirror left the request ends with the last failure, or with a file that
/// was not found where nothing failed.
pub open spec fn try_mirrors(
    d: DriverView,
    c: CallView,
    from: nat,
    last: Option<MediaErrorView>,
) -> Step
    decreases c.mirrors.len() - from,
{
    if from >= c.mirrors.len() {
        finish(
            d,
            c,
            Err(
                match last {
                    Some(e) => e,
                    None => MediaErrorView::FileNotFound,
                },
            ),
        )
    } else {
        match url_join_text(c.mirrors[from as int], c.path) {
            Some(url) => Step {
                driver: d,
                call: CallView {
                    phase: Phase::Requesting,
                    next_mirror: from,
                    last_error: last,
                    ..c
                },
                action: ActionView::Request { url: url, dir: c.target_dir },
            },
            None => try_mirrors(d, c, from + 1, Some(MediaErrorView::InvalidPath)),
        }
    }
}

/// The first step of a request for `path` from the attachment `id`: the
/// attachment gets one more use, and its target directory is to be
/// prepared. Without the attachment the handle is invalid.
pub open spec fn start(d: DriverView, id: u32, path: Seq<char>) -> Step {
    let fresh = CallView {
        attach_id: id,
        path: path,
        target_dir: Seq::empty(),
        target_file: Seq::empty(),
        phase: Phase::Finished,
        pinned: false,
        armed: false,
        mirrors: Seq::empty(),
        next_mirror: 0,
        last_error: None,
    };
    if d.attached.contains_key(id) {
        let dir = target_dir_of(d.attached[id].attach_dir, path);
        Step {
            driver: d.pin(id),
            call: CallView { target_dir: dir, phase: Phase::PreparingDir, pinned: true, ..fresh },
            action: ActionView::PrepareDir { dir: dir },
        }
    } else {
        Step {
            driver: d,
            call: fresh,
            action: ActionView::Done {
                result: Err(MediaErrorView::InvalidHandle),
                notify: false,
                evicted: None,
            },
        }
    }
}

/// The step of a request whose target file was not found: without its
/// attachment the handle is invalid; while somebody else downloads the file
/// the request waits; else it becomes the one that downloads, and tries the
/// mirrors as they are now.
pub open spec fn begin_download(d: DriverView, c: CallView) -> Step {
    if !d.attached.contains_key(c.attach_id) {
        finish(d, c, Err(MediaErrorView::InvalidHandle))
    } else if d.in_flight(c.attach_id, c.key()) {
        Step { driver: d, call: CallView { phase: Phase::Waiting, ..c }, action: ActionView::Wait }
    } else {
        try_mirrors(
            d.claim(c.attach_id, c.key()),
            CallView { armed: true, mirrors: d.attached[c.attach_id].mirrors, ..c },
            0,
            None,
        )
    }
}

/// The step that a request takes when its caller reports `event`. A report
/// that the request does not wait for where it stands ends it with an
/// internal error; so does any report to a request that is over, and
/// giving the request up.
pub open spec fn step(d: DriverView, c: CallView, event: EventView) -> Step {
    match (c.phase, event) {
        (Phase::PreparingDir, EventView::DirReady { is_dir }) => {
            if !is_dir {
                finish(d, c, Err(MediaErrorView::FileExists))
            } else {
                match path_file_name(c.path) {
                    None => finish(d, c, Err(MediaErrorView::NotAFile)),
                    Some(name) => {
                        let file = path_join(c.target_dir, name);
                        Step {
                            driver: d,
                            call: CallView { target_file: file, phase: Phase::Probing, ..c },
                            action: ActionView::Probe { file: file },
                        }
                    },
                }
            }
        },
        (Phase::PreparingDir, EventView::Failed { error }) => finish(d, c, Err(error)),
        (Phase::Probing, EventView::Probed { exists }) => {
            if exists {
                finish(d, c, Ok(c.target_file))
            } else {
                begin_download(d, c)
            }
        },
        (Phase::Probing, EventView::Failed { error }) => finish(d, c, Err(error)),
        (Phase::Waiting, EventView::Woken) => Step {
            driver: d,
            call: CallView { phase: Phase::Probing, ..c },
            action: ActionView::Probe { file: c.target_file },
        },
        (Phase::Requesting, EventView::Responded { status }) => {
            if is_success(status) {
                Step {
                    driver: d,
                    call: CallView { phase: Phase::Storing, ..c },
                    action: ActionView::Store { file: c.target_file },
                }
            } else {
                try_mirrors(d, c, c.next_mirror + 1, Some(MediaErrorView::FileNotFound))
            }
        },
        (Phase::Requesting, EventView::Failed { error }) => try_mirrors(
            d,
            c,
            c.next_mirror + 1,
            Some(error),
        ),
        (Phase::Storing, EventView::Stored) => finish(d, c, Ok(c.target_file)),
        (Phase::Storing, EventView::Failed { error }) => try_mirrors(
            d,
            c,
            c.next_mirror + 1,
            Some(error),
        ),
        _ => finish(d, c, Err(unexpected_event())),
    }
}


/// One request for a file of an attached medium.
#[derive(Debug)]
pub struct ProvideCall {
    attach_id: u32,
    path: String,
    target_dir: String,
    target_file: String,
    phase: Phase,
    pinned: bool,
    armed: bool,
    mirrors: Vec<Url>,
    next_mirror: usize,
    last_error: Option<MediaError>,
}

impl View for ProvideCall {
    type V = CallView;

    closed spec fn view(&self) -> CallView {
        CallView {
            attach_id: self.attach_id,
            path: self.path@,
            target_dir: self.target_dir@,
            target_file: self.target_file@,
            phase: self.phase,
            pinned: self.pinned,
            armed: self.armed,
            mirrors: url_texts(self.mirrors@),
            next_mirror: self.next_mirror as nat,
            last_error: opt_error_view(self.last_error),
        }
    }
}

impl ProvideCall {
    /// Where the request stands.
    pub fn phase(&self) -> (p: Phase)
        ensures
            p == self@.phase,
    {
        self.phase
    }

    /// Whether the request is over.
    pub fn is_finished(&self) -> (b: bool)
        ensures
            b == (self@.phase == Phase::Finished),
    {
        match self.phase {
            Phase::Finished => true,
            _ => false,
        }
    }

    /// The attachment that the file is asked from.
    pub fn attach_id(&self) -> (id: u32)
        ensures
            id == self@.attach_id,
    {
        self.attach_id
    }

    /// Whether the request is the one that downloads the file.
    pub fn is_requester(&self) -> (b: bool)
        ensures
            b == self@.armed,
    {
        self.armed
    }
}

/// The directory that a file of the medium goes to.
pub fn target_dir(scratch_dir: &str, path: &str) -> (dir: String)
    ensures
        dir@ == target_dir_of(scratch_dir@, path@),
{
    match crate::paths::parent_dir(path) {
        None => String::from_str(scratch_dir),
        Some(parent) => match crate::paths::strip_base(parent.as_str(), "/") {
            Some(rel) => crate::paths::join_path(scratch_dir, rel.as_str()),
            None => crate::paths::join_path(scratch_dir, parent.as_str()),
        },
    }
}

/// The place on disk of a file of the medium.
pub fn target_file(scratch_dir: &str, path: &str) -> (file: Option<String>)
    ensures
        opt_text(file) == target_file_of(scratch_dir@, path@),
{
    match crate::paths::last_component(path) {
        None => None,
        Some(name) => {
            let dir = target_dir(scratch_dir, path);
            Some(crate::paths::join_path(dir.as_str(), name.as_str()))
        },
    }
}

/// Whether an HTTP status reports success.
pub fn status_is_success(status: u16) -> (b: bool)
    ensures
        b == is_success(status),
{
    200 <= status && status < 300
}

impl MediaHttpDriver {
    fn finish(&mut self, call: &mut ProvideCall, result: Result<String, MediaError>) -> (action:
        ProvideAction)
        requires
            old(self).inv(),
        ensures
            final(self).inv(),
            (Step { driver: final(self)@, call: final(call)@, action: action@ }) == finish(
                old(self)@,
                old(call)@,
                result_view(result),
            ),
    {
        let mut notify = false;
        if call.armed {
            notify = self.release(call.attach_id, call.path.as_str());
            call.armed = false;
        }
        let mut evicted: Option<String> = None;
        if call.pinned {
            evicted = self.unpin(call.attach_id);
            call.pinned = false;
        }
        call.phase = Phase::Finished;
        call.last_error = None;
        ProvideAction::Done { result, notify, evicted }
    }

    #[verifier::loop_isolation(false)]
    fn try_mirrors(&mut self, call: &mut ProvideCall, from: usize, last: Option<MediaError>) -> (action:
        ProvideAction)
        requires
            old(self).inv(),
            from <= old(call)@.mirrors.len(),
        ensures
            final(self).inv(),
            (Step { driver: final(self)@, call: final(call)@, action: action@ }) == try_mirrors(
                old(self)@,
                old(call)@,
                from as nat,
                opt_error_view(last),
            ),
    {
        let ghost d = self@;
        let ghost c = call@;
        let ghost goal = try_mirrors(d, c, from as nat, opt_error_view(last));
        let mut last = last;
        let mut i: usize = from;
        while i < call.mirrors.len()
            invariant
                self.inv(),
                self@ == d,
                call@ == c,
                from <= i <= call.mirrors@.len(),
                c.mirrors.len() == call.mirrors@.len(),
                goal == try_mirrors(d, c, i as nat, opt_error_view(last)),
            decreases call.mirrors@.len() - i,
        {
            assert(c.mirrors[i as int] == url_text(call.mirrors@[i as int]));
            match call.mirrors[i].join(call.path.as_str()) {
                Ok(url) => {
                    call.phase = Phase::Requesting;
                    call.next_mirror = i;
                    call.last_error = last;
                    let dir = call.target_dir.clone();
                    return ProvideAction::Request { url, dir };
                },
                Err(_) => {
                    last = Some(MediaError::InvalidPath);
                    i = i + 1;
                },
            }
        }
        let error = match last {
            Some(e) => e,
            None => MediaError::FileNotFound,
        };
        self.finish(call, Err(error))
    }

    fn begin_download(&mut self, call: &mut ProvideCall) -> (action: ProvideAction)
        requires
            old(self).inv(),
        ensures
            final(self).inv(),
            (Step { driver: final(self)@, call: final(call)@, action: action@ }) == begin_download(
                old(self)@,
                old(call)@,
            ),
    {
        match self.claim(call.attach_id, call.path.as_str()) {
            Claim::Gone => self.finish(call, Err(MediaError::InvalidHandle)),
            Claim::Busy => {
                call.phase = Phase::Waiting;
                ProvideAction::Wait
            },
            Claim::Granted(mirrors) => {
                call.armed = true;
                call.mirrors = mirrors;
                self.try_mirrors(call, 0, None)
            },
        }
    }

    /// Begins a request for the file at `path` of the attachment
    /// `attach_id`. What `spec` says of the file is accepted and decides
    /// nothing.
    pub fn provide(&mut self, attach_id: u32, path: String, spec: FileSpec) -> (r: (
        ProvideCall,
        ProvideAction,
    ))
        requires
            old(self).inv(),
            old(self)@.can_pin(attach_id),
        ensures
            final(self).inv(),
            r.0@.wf(),
            (Step { driver: final(self)@, call: r.0@, action: r.1@ }) == start(
                old(self)@,
                attach_id,
                path@,
            ),
    {
        let mut call = ProvideCall {
            attach_id,
            path,
            target_dir: String::new(),
            target_file: String::new(),
            phase: Phase::Finished,
            pinned: false,
            armed: false,
            mirrors: Vec::new(),
            next_mirror: 0,
            last_error: None,
        };
        assert(url_texts(call.mirrors@) =~= Seq::<Seq<char>>::empty());
        match self.pin(attach_id) {
            None => {
                let action = ProvideAction::Done {
                    result: Err(MediaError::InvalidHandle),
                    notify: false,
                    evicted: None,
                };
                (call, action)
            },
            Some(scratch_dir) => {
                let dir = target_dir(scratch_dir.as_str(), call.path.as_str());
                call.target_dir = dir.clone();
                call.phase = Phase::PreparingDir;
                call.pinned = true;
                (call, ProvideAction::PrepareDir { dir })
            },
        }
    }

    /// Takes the next step of a request, given what its caller reports.
    pub fn advance(&mut self, call: &mut ProvideCall, event: ProvideEvent) -> (action:
        ProvideAction)
        requires
            old(self).inv(),
            old(call)@.wf(),
        ensures
            final(self).inv(),
            final(call)@.wf(),
            (Step { driver: final(self)@, call: final(call)@, action: action@ }) == step(
                old(self)@,
                old(call)@,
                event@,
            ),
    {
        // the number of mirrors bounds the index of the one in use
        let mirror_count = call.mirrors.len();
        proof {
            lemma_step_wf(self@, call@, event@);
            assert(call@.mirrors.len() == mirror_count);
        }
        match call.phase {
            Phase::PreparingDir => match event {
                ProvideEvent::DirReady { is_dir } => {
                    if !is_dir {
                        self.finish(call, Err(MediaError::FileExists))
                    } else {
                        match crate::paths::last_component(call.path.as_str()) {
                            None => self.finish(call, Err(MediaError::NotAFile)),
                            Some(name) => {
                                let file = crate::paths::join_path(
                                    call.target_dir.as_str(),
                                    name.as_str(),
                                );
                                call.target_file = file.clone();
                                call.phase = Phase::Probing;
                                ProvideAction::Probe { file }
                            },
                        }
                    }
                },
                ProvideEvent::Failed { error } => self.finish(call, Err(error)),
                _ => self.finish(call, Err(unexpected())),
            },
            Phase::Probing => match event {
                ProvideEvent::Probed { exists } => {
                    if exists {
                        let file = call.target_file.clone();
                        self.finish(call, Ok(file))
                    } else {
                        self.begin_download(call)
                    }
                },
                ProvideEvent::Failed { error } => self.finish(call, Err(error)),
                _ => self.finish(call, Err(unexpected())),
            },
            Phase::Waiting => match event {
                ProvideEvent::Woken => {
                    call.phase = Phase::Probing;
                    ProvideAction::Probe { file: call.target_file.clone() }
                },
                _ => self.finish(call, Err(unexpected())),
            },
            Phase::Requesting => match event {
                ProvideEvent::Responded { status } => {
                    if status_is_success(status) {
                        call.phase = Phase::Storing;
                        ProvideAction::Store { file: call.target_file.clone() }
                    } else {
                        let next = call.next_mirror + 1;
                        self.try_mirrors(call, next, Some(MediaError::FileNotFound))
                    }
                },
                ProvideEvent::Failed { error } => {
                    let next = call.next_mirror + 1;
                    self.try_mirrors(call, next, Some(error))
                },
                _ => self.finish(call, Err(unexpected())),
            },
            Phase::Storing => match event {
                ProvideEvent::Stored => {
                    let file = call.target_file.clone();
                    self.finish(call, Ok(file))
                },
                ProvideEvent::Failed { error } => {
                    let next = call.next_mirror + 1;
                    self.try_mirrors(call, next, Some(error))
                },
                _ => self.finish(call, Err(unexpected())),
            },
            Phase::Finished => self.finish(call, Err(unexpected())),
        }
    }
}

fn unexpected() -> (e: MediaError)
    ensures
        e@ == unexpected_event(),
{
    MediaError::Internal(String::from_str("unexpected event"))
}

/// A step keeps a request well-formed.
pub proof fn lemma_step_wf(d: DriverView, c: CallView, event: EventView)
    requires
        c.wf(),
    ensures
        step(d, c, event).call.wf(),
{
    match (c.phase, event) {
        (Phase::Probing, EventView::Probed { exists }) => {
            if !exists && d.attached.contains_key(c.attach_id) && !d.in_flight(
                c.attach_id,
                c.key(),
            ) {
                lemma_try_mirrors_wf(
                    d.claim(c.attach_id, c.key()),
                    CallView { armed: true, mirrors: d.attached[c.attach_id].mirrors, ..c },
                    0,
                    None,
                );
            }
        },
        (Phase::Requesting, EventView::Responded { status }) => {
            lemma_try_mirrors_wf(d, c, c.next_mirror + 1, Some(MediaErrorView::FileNotFound));
        },
        (Phase::Requesting, EventView::Failed { error }) => {
            lemma_try_mirrors_wf(d, c, c.next_mirror + 1, Some(error));
        },
        (Phase::Storing, EventView::Failed { error }) => {
            lemma_try_mirrors_wf(d, c, c.next_mirror + 1, Some(error));
        },
        _ => {},
    }
}

proof fn lemma_try_mirrors_wf(d: DriverView, c: CallView, from: nat, last: Option<MediaErrorView>)
    requires
        c.armed,
        c.pinned,
        c.phase != Phase::Finished,
    ensures
        try_mirrors(d, c, from, last).call.wf(),
    decreases c.mirrors.len() - from,
{
    if from < c.mirrors.len() && url_join_text(c.mirrors[from as int], c.path) is None {
        lemma_try_mirrors_wf(d, c, from + 1, Some(MediaErrorView::InvalidPath));
    }
}

} // verus!
