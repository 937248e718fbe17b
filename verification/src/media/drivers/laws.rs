//! What holds of the HTTP driver in every state it can reach, whatever its
//! callers do and in whatever order their requests take their steps.

use vstd::prelude::*;
use crate::media::MediaErrorView;
use crate::media::drivers::http::lemma_attach_wf;
use crate::media::drivers::http::lemma_claim_wf;
use crate::media::drivers::http::lemma_pin_wf;
use crate::media::drivers::http::lemma_release_wf;
use crate::media::drivers::http::lemma_serving_attachment_unique;
use crate::media::drivers::http::lemma_unpin_wf;
use crate::media::drivers::http::serves;
use crate::media::drivers::http::AttachedMediaView;
use crate::media::drivers::http::DriverView;
use crate::media::drivers::http::PathKey;
use crate::media::drivers::provide::begin_download;
use crate::media::drivers::provide::finish;
use crate::media::drivers::provide::is_success;
use crate::media::drivers::provide::start;
use crate::media::drivers::provide::step;
use crate::media::drivers::provide::target_dir_of;
use crate::media::drivers::provide::target_file_of;
use crate::media::drivers::provide::try_mirrors;
use crate::media::drivers::provide::unexpected_event;
use crate::media::drivers::provide::ActionView;
use crate::media::drivers::provide::CallView;
use crate::media::drivers::provide::EventView;
use crate::media::drivers::provide::Phase;
use crate::media::drivers::provide::Step;
use crate::media::spec::same_medium;
use crate::media::spec::MediaSpecView;
use crate::paths::path_file_name;
use crate::paths::path_parent;
use crate::tribool::Tribool;
use crate::urls::url_join_text;

verus! {

/// A driver together with all the requests that were ever begun on it.
pub struct System {
    pub driver: DriverView,
    pub calls: Seq<CallView>,
}

impl System {
    /// Whether the request `i` is the one that downloads `key` from `id`.
    pub open spec fn requester(self, i: int, id: u32, key: PathKey) -> bool {
        &&& 0 <= i < self.calls.len()
        &&& self.calls[i].armed
        &&& self.calls[i].attach_id == id
        &&& self.calls[i].key() == key
    }

    /// Whether some request downloads `key` from `id`.
    pub open spec fn has_requester(self, id: u32, key: PathKey) -> bool {
        exists|i: int| self.requester(i, id, key)
    }

    /// What holds of the driver and its requests at any time: the state is
    /// well-formed, the marks and the requests that download agree, and a
    /// request takes part in a download exactly while it talks to a mirror.
    pub open spec fn consistent(self) -> bool {
        &&& self.coherent()
        &&& forall|i: int|
            0 <= i < self.calls.len() ==> ((#[trigger] self.calls[i]).armed <==> (
            self.calls[i].phase == Phase::Requesting || self.calls[i].phase == Phase::Storing))
    }

    /// The driver is well-formed, its requests are, and the paths marked as
    /// running are those of the requests that download, each of them once.
    pub open spec fn coherent(self) -> bool {
        &&& self.driver.wf()
        &&& forall|i: int| 0 <= i < self.calls.len() ==> (#[trigger] self.calls[i]).wf()
        &&& forall|i: int|
            0 <= i < self.calls.len() && (#[trigger] self.calls[i]).pinned
                ==> self.calls[i].attach_id <= self.driver.next_attach_id
        &&& forall|i: int|
            0 <= i < self.calls.len() && (#[trigger] self.calls[i]).armed
                && self.driver.attached.contains_key(self.calls[i].attach_id)
                ==> self.driver.in_flight(self.calls[i].attach_id, self.calls[i].key())
        &&& forall|id: u32, key: PathKey| #[trigger]
            self.driver.in_flight(id, key) ==> self.has_requester(id, key)
        &&& forall|i: int, j: int|
            0 <= i < j < self.calls.len() && (#[trigger] self.calls[i]).armed && (
            #[trigger] self.calls[j]).armed ==> !(self.calls[i].attach_id
                == self.calls[j].attach_id && self.calls[i].key() == self.calls[j].key())
    }

    /// The system after the request `i` took the step `st`.
    pub open spec fn with_step(self, i: int, st: Step) -> System {
        System { driver: st.driver, calls: self.calls.update(i, st.call) }
    }

    /// The system after the request `i` was told `event`.
    pub open spec fn after_event(self, i: int, event: EventView) -> System {
        self.with_step(i, step(self.driver, self.calls[i], event))
    }

    /// The system after a request for `path` from `id` was begun.
    pub open spec fn after_provide(self, id: u32, path: Seq<char>) -> System {
        let st = start(self.driver, id, path);
        System { driver: st.driver, calls: self.calls.push(st.call) }
    }

    /// The system after an attach.
    pub open spec fn after_attach(
        self,
        urls: Seq<Seq<char>>,
        spec: MediaSpecView,
        scratch_dir: Seq<char>,
    ) -> System {
        System { driver: self.driver.attach(urls, spec, scratch_dir), ..self }
    }

    /// The system after a detach.
    pub open spec fn after_detach(self, id: u32) -> System {
        System { driver: self.driver.unpin(id), ..self }
    }
}

/// A new driver without requests is consistent.
pub proof fn lemma_initial_consistent()
    ensures
        (System {
            driver: DriverView { next_attach_id: 1, attached: Map::empty() },
            calls: Seq::empty(),
        }).consistent(),
{
}

/// At any time at most one request downloads a given path from a given
/// attachment.
pub proof fn lemma_single_requester(s: System, i: int, j: int, id: u32, key: PathKey)
    requires
        s.consistent(),
        s.requester(i, id, key),
        s.requester(j, id, key),
    ensures
        i == j,
{
    if i < j {
        assert(s.calls[i].armed && s.calls[j].armed);
    } else if j < i {
        assert(s.calls[j].armed && s.calls[i].armed);
    }
}

/// The paths marked as running on an attachment are exactly those that
/// some request downloads from it.
pub proof fn lemma_in_flight_is_requested(s: System, id: u32, key: PathKey)
    requires
        s.consistent(),
        s.driver.attached.contains_key(id),
    ensures
        s.driver.in_flight(id, key) <==> s.has_requester(id, key),
{
    if s.has_requester(id, key) {
        let i = choose|i: int| s.requester(i, id, key);
        assert(s.calls[i].armed);
    }
}


/// The driver `n` came from `d` without a change to what is marked as
/// running: counters only grew, attachments that are new have no marks, and
/// those that stayed have the marks they had.
spec fn framed(d: DriverView, n: DriverView) -> bool {
    &&& d.next_attach_id <= n.next_attach_id
    &&& forall|id: u32| #[trigger]
        n.attached.contains_key(id) ==> d.attached.contains_key(id) || id > d.next_attach_id
    &&& forall|id: u32, key: PathKey| #[trigger]
        n.in_flight(id, key) <==> n.attached.contains_key(id) && d.in_flight(id, key)
}

/// The request `n` is the request `c` a step later, with the same target
/// and the same part in a download.
spec fn same_part(c: CallView, n: CallView) -> bool {
    &&& n.armed == c.armed
    &&& n.attach_id == c.attach_id
    &&& n.path == c.path
    &&& n.pinned ==> c.pinned
}

proof fn lemma_framed(s: System, n: System)
    requires
        s.coherent(),
        n.driver.wf(),
        framed(s.driver, n.driver),
        s.calls.len() <= n.calls.len(),
        forall|i: int| 0 <= i < n.calls.len() ==> (#[trigger] n.calls[i]).wf(),
        forall|i: int| 0 <= i < s.calls.len() ==> same_part(s.calls[i], #[trigger] n.calls[i]),
        forall|i: int|
            s.calls.len() <= i < n.calls.len() ==> !(#[trigger] n.calls[i]).armed && (
            n.calls[i].pinned ==> n.calls[i].attach_id <= n.driver.next_attach_id),
    ensures
        n.coherent(),
{
    assert forall|i: int| 0 <= i < n.calls.len() && (#[trigger] n.calls[i]).pinned implies n.calls[i].attach_id
        <= n.driver.next_attach_id by {
        if i < s.calls.len() {
            assert(same_part(s.calls[i], n.calls[i]));
            assert(s.calls[i].pinned);
        }
    }
    assert forall|i: int|
        0 <= i < n.calls.len() && (#[trigger] n.calls[i]).armed && n.driver.attached.contains_key(
            n.calls[i].attach_id,
        ) implies n.driver.in_flight(n.calls[i].attach_id, n.calls[i].key()) by {
        assert(i < s.calls.len());
        assert(same_part(s.calls[i], n.calls[i]));
        assert(s.calls[i].armed);
        assert(s.calls[i].wf());
        assert(s.calls[i].pinned);
        let id = n.calls[i].attach_id;
        assert(s.driver.attached.contains_key(id));
        assert(s.driver.in_flight(id, s.calls[i].key()));
        assert(n.driver.in_flight(id, n.calls[i].key()));
    }
    assert forall|id: u32, key: PathKey| #[trigger] n.driver.in_flight(id, key) implies n.has_requester(
        id,
        key,
    ) by {
        assert(s.driver.in_flight(id, key));
        assert(s.has_requester(id, key));
        let i = choose|i: int| s.requester(i, id, key);
        assert(same_part(s.calls[i], n.calls[i]));
        assert(n.requester(i, id, key));
    }
    assert forall|i: int, j: int|
        0 <= i < j < n.calls.len() && (#[trigger] n.calls[i]).armed && (
        #[trigger] n.calls[j]).armed implies !(n.calls[i].attach_id == n.calls[j].attach_id
        && n.calls[i].key() == n.calls[j].key()) by {
        assert(j < s.calls.len());
        assert(same_part(s.calls[i], n.calls[i]));
        assert(same_part(s.calls[j], n.calls[j]));
        assert(s.calls[i].armed && s.calls[j].armed);
    }
}

proof fn lemma_attach_coherent(
    s: System,
    urls: Seq<Seq<char>>,
    spec: MediaSpecView,
    scratch_dir: Seq<char>,
)
    requires
        s.coherent(),
        s.driver.can_attach(urls, spec),
    ensures
        s.after_attach(urls, spec, scratch_dir).coherent(),
{
    let n = s.after_attach(urls, spec, scratch_dir);
    lemma_attach_wf(s.driver, urls, spec, scratch_dir);
    match s.driver.lookup(urls, spec) {
        Some(id) => {
            assert(s.driver.serves_at(id, urls, spec));
        },
        None => {},
    }
    assert(framed(s.driver, n.driver));
    lemma_framed(s, n);
}

proof fn lemma_detach_coherent(s: System, id: u32)
    requires
        s.coherent(),
    ensures
        s.after_detach(id).coherent(),
{
    let n = s.after_detach(id);
    lemma_unpin_wf(s.driver, id);
    assert(framed(s.driver, n.driver));
    lemma_framed(s, n);
}

proof fn lemma_provide_coherent(s: System, id: u32, path: Seq<char>)
    requires
        s.coherent(),
        s.driver.can_pin(id),
    ensures
        s.after_provide(id, path).coherent(),
{
    let n = s.after_provide(id, path);
    lemma_pin_wf(s.driver, id);
    assert(framed(s.driver, n.driver));
    lemma_framed(s, n);
}

proof fn lemma_relabel(s: System, i: int, c: CallView)
    requires
        s.coherent(),
        0 <= i < s.calls.len(),
        c.wf(),
        same_part(s.calls[i], c),
    ensures
        (System { driver: s.driver, calls: s.calls.update(i, c) }).coherent(),
{
    let n = System { driver: s.driver, calls: s.calls.update(i, c) };
    assert(framed(s.driver, n.driver));
    lemma_framed(s, n);
}

/// The request `i` stops being the one that downloads.
proof fn lemma_disarm(s: System, i: int)
    requires
        s.coherent(),
        0 <= i < s.calls.len(),
        s.calls[i].armed,
    ensures
        (System {
            driver: s.driver.release(s.calls[i].attach_id, s.calls[i].key()),
            calls: s.calls.update(
                i,
                CallView { armed: false, phase: Phase::Probing, ..s.calls[i] },
            ),
        }).coherent(),
{
    let c = s.calls[i];
    let id = c.attach_id;
    let key = c.key();
    let n = System {
        driver: s.driver.release(id, key),
        calls: s.calls.update(i, CallView { armed: false, phase: Phase::Probing, ..c }),
    };
    lemma_release_wf(s.driver, id, key);
    assert(c.wf());
    assert forall|j: int| 0 <= j < n.calls.len() implies (#[trigger] n.calls[j]).wf() by {
        if j != i {
            assert(s.calls[j].wf());
        }
    }
    assert forall|j: int| 0 <= j < n.calls.len() && (#[trigger] n.calls[j]).pinned implies n.calls[j].attach_id
        <= n.driver.next_attach_id by {
        assert(s.calls[j].pinned);
    }
    assert forall|j: int|
        0 <= j < n.calls.len() && (#[trigger] n.calls[j]).armed && n.driver.attached.contains_key(
            n.calls[j].attach_id,
        ) implies n.driver.in_flight(n.calls[j].attach_id, n.calls[j].key()) by {
        assert(j != i);
        assert(s.calls[j].armed);
        assert(s.driver.in_flight(s.calls[j].attach_id, s.calls[j].key()));
        if i < j {
            assert(s.calls[i].armed && s.calls[j].armed);
        } else {
            assert(s.calls[j].armed && s.calls[i].armed);
        }
    }
    assert forall|x: u32, k: PathKey| #[trigger] n.driver.in_flight(x, k) implies n.has_requester(
        x,
        k,
    ) by {
        assert(s.driver.in_flight(x, k));
        assert(s.has_requester(x, k));
        let j = choose|j: int| s.requester(j, x, k);
        assert(j != i);
        assert(n.requester(j, x, k));
    }
    assert forall|a: int, b: int|
        0 <= a < b < n.calls.len() && (#[trigger] n.calls[a]).armed && (
        #[trigger] n.calls[b]).armed implies !(n.calls[a].attach_id == n.calls[b].attach_id
        && n.calls[a].key() == n.calls[b].key()) by {
        assert(s.calls[a].armed && s.calls[b].armed);
    }
}

/// The request `i` becomes the one that downloads.
proof fn lemma_arm(s: System, i: int, mirrors: Seq<Seq<char>>)
    requires
        s.coherent(),
        0 <= i < s.calls.len(),
        !s.calls[i].armed,
        s.calls[i].pinned,
        s.driver.attached.contains_key(s.calls[i].attach_id),
        !s.driver.in_flight(s.calls[i].attach_id, s.calls[i].key()),
    ensures
        (System {
            driver: s.driver.claim(s.calls[i].attach_id, s.calls[i].key()),
            calls: s.calls.update(
                i,
                CallView { armed: true, mirrors: mirrors, phase: Phase::Probing, ..s.calls[i] },
            ),
        }).coherent(),
{
    let c = s.calls[i];
    let id = c.attach_id;
    let key = c.key();
    let n = System {
        driver: s.driver.claim(id, key),
        calls: s.calls.update(
            i,
            CallView { armed: true, mirrors: mirrors, phase: Phase::Probing, ..c },
        ),
    };
    lemma_claim_wf(s.driver, id, key);
    assert(c.wf());
    assert forall|j: int| 0 <= j < n.calls.len() implies (#[trigger] n.calls[j]).wf() by {
        if j != i {
            assert(s.calls[j].wf());
        }
    }
    assert forall|j: int| 0 <= j < n.calls.len() && (#[trigger] n.calls[j]).pinned implies n.calls[j].attach_id
        <= n.driver.next_attach_id by {
        assert(s.calls[j].pinned);
    }
    assert forall|j: int|
        0 <= j < n.calls.len() && (#[trigger] n.calls[j]).armed && n.driver.attached.contains_key(
            n.calls[j].attach_id,
        ) implies n.driver.in_flight(n.calls[j].attach_id, n.calls[j].key()) by {
        if j != i {
            assert(s.calls[j].armed);
            assert(s.driver.in_flight(s.calls[j].attach_id, s.calls[j].key()));
        }
    }
    assert forall|x: u32, k: PathKey| #[trigger] n.driver.in_flight(x, k) implies n.has_requester(
        x,
        k,
    ) by {
        if x == id && k == key {
            assert(n.requester(i, x, k));
        } else {
            assert(s.driver.in_flight(x, k));
            assert(s.has_requester(x, k));
            let j = choose|j: int| s.requester(j, x, k);
            assert(n.requester(j, x, k));
        }
    }
    assert forall|a: int, b: int|
        0 <= a < b < n.calls.len() && (#[trigger] n.calls[a]).armed && (
        #[trigger] n.calls[b]).armed implies !(n.calls[a].attach_id == n.calls[b].attach_id
        && n.calls[a].key() == n.calls[b].key()) by {
        if a == i {
            assert(s.calls[b].armed);
            if s.calls[b].attach_id == id {
                assert(s.driver.in_flight(id, s.calls[b].key()));
            }
        } else if b == i {
            assert(s.calls[a].armed);
            if s.calls[a].attach_id == id {
                assert(s.driver.in_flight(id, s.calls[a].key()));
            }
        } else {
            assert(s.calls[a].armed && s.calls[b].armed);
        }
    }
}

proof fn lemma_finish_coherent(s: System, i: int, result: Result<Seq<char>, MediaErrorView>)
    requires
        s.coherent(),
        0 <= i < s.calls.len(),
    ensures
        s.with_step(i, finish(s.driver, s.calls[i], result)).coherent(),
{
    let c = s.calls[i];
    let n = s.with_step(i, finish(s.driver, c, result));
    let mid = if c.armed {
        System {
            driver: s.driver.release(c.attach_id, c.key()),
            calls: s.calls.update(i, CallView { armed: false, phase: Phase::Probing, ..c }),
        }
    } else {
        s
    };
    if c.armed {
        lemma_disarm(s, i);
    }
    assert(mid.coherent());
    assert(c.wf());
    if c.pinned {
        lemma_unpin_wf(mid.driver, c.attach_id);
    }
    assert(n.driver == if c.pinned {
        mid.driver.unpin(c.attach_id)
    } else {
        mid.driver
    });
    assert(framed(mid.driver, n.driver));
    assert forall|j: int| 0 <= j < n.calls.len() implies (#[trigger] n.calls[j]).wf() by {
        if j != i {
            assert(mid.calls[j].wf());
        }
    }
    assert forall|j: int| 0 <= j < mid.calls.len() implies same_part(
        mid.calls[j],
        #[trigger] n.calls[j],
    ) by {}
    lemma_framed(mid, n);
}

proof fn lemma_try_mirrors_coherent(
    s: System,
    i: int,
    from: nat,
    last: Option<MediaErrorView>,
)
    requires
        s.coherent(),
        0 <= i < s.calls.len(),
        s.calls[i].armed,
    ensures
        s.with_step(i, try_mirrors(s.driver, s.calls[i], from, last)).coherent(),
    decreases s.calls[i].mirrors.len() - from,
{
    let c = s.calls[i];
    assert(c.wf());
    if from >= c.mirrors.len() {
        lemma_finish_coherent(
            s,
            i,
            Err(
                match last {
                    Some(e) => e,
                    None => MediaErrorView::FileNotFound,
                },
            ),
        );
    } else {
        match url_join_text(c.mirrors[from as int], c.path) {
            Some(url) => {
                lemma_relabel(
                    s,
                    i,
                    CallView {
                        phase: Phase::Requesting,
                        next_mirror: from,
                        last_error: last,
                        ..c
                    },
                );
            },
            None => {
                lemma_try_mirrors_coherent(s, i, from + 1, Some(MediaErrorView::InvalidPath));
            },
        }
    }
}

proof fn lemma_begin_download_coherent(s: System, i: int)
    requires
        s.coherent(),
        0 <= i < s.calls.len(),
        s.calls[i].phase == Phase::Probing,
        !s.calls[i].armed,
    ensures
        s.with_step(i, begin_download(s.driver, s.calls[i])).coherent(),
{
    let c = s.calls[i];
    let d = s.driver;
    assert(c.wf());
    if !d.attached.contains_key(c.attach_id) {
        lemma_finish_coherent(s, i, Err(MediaErrorView::InvalidHandle));
    } else if d.in_flight(c.attach_id, c.key()) {
        lemma_relabel(s, i, CallView { phase: Phase::Waiting, ..c });
    } else {
        let mirrors = d.attached[c.attach_id].mirrors;
        lemma_arm(s, i, mirrors);
        let mid = System {
            driver: d.claim(c.attach_id, c.key()),
            calls: s.calls.update(
                i,
                CallView { armed: true, mirrors: mirrors, phase: Phase::Probing, ..c },
            ),
        };
        lemma_try_mirrors_coherent(mid, i, 0, None);
        assert(mid.calls[i] == (CallView { armed: true, mirrors: mirrors, ..c }));
        assert(mid.with_step(i, try_mirrors(mid.driver, mid.calls[i], 0, None)).calls
            =~= s.with_step(i, begin_download(d, c)).calls);
    }
}


proof fn lemma_step_phase(d: DriverView, c: CallView, event: EventView)
    requires
        c.wf(),
        c.armed <==> (c.phase == Phase::Requesting || c.phase == Phase::Storing),
    ensures
        ({
            let n = step(d, c, event).call;
            n.armed <==> (n.phase == Phase::Requesting || n.phase == Phase::Storing)
        }),
{
    match (c.phase, event) {
        (Phase::Probing, EventView::Probed { exists }) => {
            if !exists && d.attached.contains_key(c.attach_id) && !d.in_flight(
                c.attach_id,
                c.key(),
            ) {
                lemma_try_mirrors_phase(
                    d.claim(c.attach_id, c.key()),
                    CallView { armed: true, mirrors: d.attached[c.attach_id].mirrors, ..c },
                    0,
                    None,
                );
            }
        },
        (Phase::Requesting, EventView::Responded { status }) => {
            lemma_try_mirrors_phase(d, c, c.next_mirror + 1, Some(MediaErrorView::FileNotFound));
        },
        (Phase::Requesting, EventView::Failed { error }) => {
            lemma_try_mirrors_phase(d, c, c.next_mirror + 1, Some(error));
        },
        (Phase::Storing, EventView::Failed { error }) => {
            lemma_try_mirrors_phase(d, c, c.next_mirror + 1, Some(error));
        },
        _ => {},
    }
}

proof fn lemma_try_mirrors_phase(d: DriverView, c: CallView, from: nat, last: Option<MediaErrorView>)
    requires
        c.armed,
    ensures
        ({
            let n = try_mirrors(d, c, from, last).call;
            n.armed <==> (n.phase == Phase::Requesting || n.phase == Phase::Storing)
        }),
    decreases c.mirrors.len() - from,
{
    if from < c.mirrors.len() && url_join_text(c.mirrors[from as int], c.path) is None {
        lemma_try_mirrors_phase(d, c, from + 1, Some(MediaErrorView::InvalidPath));
    }
}

proof fn lemma_event_coherent(s: System, i: int, event: EventView)
    requires
        s.consistent(),
        0 <= i < s.calls.len(),
    ensures
        s.after_event(i, event).coherent(),
{
    let c = s.calls[i];
    let d = s.driver;
    assert(c.wf());
    match (c.phase, event) {
        (Phase::PreparingDir, EventView::DirReady { is_dir }) => {
            if !is_dir {
                lemma_finish_coherent(s, i, Err(MediaErrorView::FileExists));
            } else {
                match path_file_name(c.path) {
                    None => {
                        lemma_finish_coherent(s, i, Err(MediaErrorView::NotAFile));
                    },
                    Some(name) => {
                        lemma_relabel(s, i, step(d, c, event).call);
                    },
                }
            }
        },
        (Phase::PreparingDir, EventView::Failed { error }) => {
            lemma_finish_coherent(s, i, Err(error));
        },
        (Phase::Probing, EventView::Probed { exists }) => {
            if exists {
                lemma_finish_coherent(s, i, Ok(c.target_file));
            } else {
                lemma_begin_download_coherent(s, i);
            }
        },
        (Phase::Probing, EventView::Failed { error }) => {
            lemma_finish_coherent(s, i, Err(error));
        },
        (Phase::Waiting, EventView::Woken) => {
            lemma_relabel(s, i, step(d, c, event).call);
        },
        (Phase::Requesting, EventView::Responded { status }) => {
            if is_success(status) {
                lemma_relabel(s, i, step(d, c, event).call);
            } else {
                lemma_try_mirrors_coherent(
                    s,
                    i,
                    c.next_mirror + 1,
                    Some(MediaErrorView::FileNotFound),
                );
            }
        },
        (Phase::Requesting, EventView::Failed { error }) => {
            lemma_try_mirrors_coherent(s, i, c.next_mirror + 1, Some(error));
        },
        (Phase::Storing, EventView::Stored) => {
            lemma_finish_coherent(s, i, Ok(c.target_file));
        },
        (Phase::Storing, EventView::Failed { error }) => {
            lemma_try_mirrors_coherent(s, i, c.next_mirror + 1, Some(error));
        },
        _ => {
            lemma_finish_coherent(
                s,
                i,
                Err(unexpected_event()),
            );
        },
    }
}

/// An attach keeps the system consistent.
pub proof fn lemma_attach_consistent(
    s: System,
    urls: Seq<Seq<char>>,
    spec: MediaSpecView,
    scratch_dir: Seq<char>,
)
    requires
        s.consistent(),
        s.driver.can_attach(urls, spec),
    ensures
        s.after_attach(urls, spec, scratch_dir).consistent(),
{
    lemma_attach_coherent(s, urls, spec, scratch_dir);
}

/// A detach keeps the system consistent, whoever asks for it and however
/// often.
pub proof fn lemma_detach_consistent(s: System, id: u32)
    requires
        s.consistent(),
    ensures
        s.after_detach(id).consistent(),
{
    lemma_detach_coherent(s, id);
}

/// The begin of a request keeps the system consistent.
pub proof fn lemma_provide_consistent(s: System, id: u32, path: Seq<char>)
    requires
        s.consistent(),
        s.driver.can_pin(id),
    ensures
        s.after_provide(id, path).consistent(),
{
    lemma_provide_coherent(s, id, path);
}

/// A step of any request, on any report, keeps the system consistent.
pub proof fn lemma_event_consistent(s: System, i: int, event: EventView)
    requires
        s.consistent(),
        0 <= i < s.calls.len(),
    ensures
        s.after_event(i, event).consistent(),
{
    lemma_event_coherent(s, i, event);
    assert(s.calls[i].wf());
    lemma_step_phase(s.driver, s.calls[i], event);
}


/// The driver after `n` uses of the attachment `id` were given up.
pub open spec fn unpin_times(d: DriverView, id: u32, n: nat) -> DriverView
    decreases n,
{
    if n == 0 {
        d
    } else {
        unpin_times(d.unpin(id), id, (n - 1) as nat)
    }
}

/// An attachment stays while it has users, each use given up takes one from
/// its count, and it goes when the last of them is given up: whether by a
/// detach or by the end of a request.
pub proof fn lemma_last_use_evicts(d: DriverView, id: u32, n: nat)
    requires
        d.wf(),
        d.attached.contains_key(id),
        n <= d.attached[id].use_cnt,
    ensures
        n < d.attached[id].use_cnt ==> unpin_times(d, id, n).attached.contains_key(id)
            && unpin_times(d, id, n).attached[id].use_cnt == d.attached[id].use_cnt - n,
        n == d.attached[id].use_cnt ==> !unpin_times(d, id, n).attached.contains_key(id),
        unpin_times(d, id, n).wf(),
    decreases n,
{
    if n > 0 {
        lemma_unpin_wf(d, id);
        if d.attached[id].use_cnt > 1 {
            lemma_last_use_evicts(d.unpin(id), id, (n - 1) as nat);
        } else {
            assert(unpin_times(d.unpin(id), id, 0) == d.unpin(id));
        }
    }
}

/// A second attach of a medium that the first one serves returns the same
/// id and takes one more use of it: where both describe the same medium,
/// and where that cannot be told and both name the same first mirror. It
/// makes no attachment and leaves every attachment its mirrors, its
/// medium, its scratch directory and its running requests. One detach
/// takes the use back and evicts nothing.
pub proof fn lemma_attach_again(
    d: DriverView,
    urls: Seq<Seq<char>>,
    spec: MediaSpecView,
    dir: Seq<char>,
    urls2: Seq<Seq<char>>,
    spec2: MediaSpecView,
    dir2: Seq<char>,
)
    requires
        d.wf(),
        d.can_attach(urls, spec),
        serves(spec, urls, urls2, spec2),
    ensures
        ({
            let id = d.attach_id(urls, spec);
            let first = d.attach(urls, spec, dir);
            let second = first.attach(urls2, spec2, dir2);
            &&& first.attach_id(urls2, spec2) == id
            &&& first.attached.contains_key(id)
            &&& second.attached.dom() == first.attached.dom()
            &&& second.next_attach_id == first.next_attach_id
            &&& second.attached[id] == (AttachedMediaView {
                use_cnt: first.attached[id].use_cnt + 1,
                ..first.attached[id]
            })
            &&& forall|other: u32|
                #[trigger] first.attached.contains_key(other) && other != id
                    ==> second.attached[other] == first.attached[other]
            &&& second.evicts(id) is None
            &&& second.unpin(id) == first
        }),
{
    let id = d.attach_id(urls, spec);
    let first = d.attach(urls, spec, dir);
    lemma_attach_wf(d, urls, spec, dir);
    match d.lookup(urls, spec) {
        Some(found) => {
            assert(d.serves_at(found, urls, spec));
        },
        None => {},
    }
    assert(first.serves_at(id, urls2, spec2));
    let chosen = choose|c: u32| first.serves_at(c, urls2, spec2);
    lemma_serving_attachment_unique(first, chosen, id, urls2, spec2);
    let second = first.attach(urls2, spec2, dir2);
    assert(second.attached.dom() =~= first.attached.dom());
    assert(second.unpin(id).attached =~= first.attached);
}

/// An attach of a medium that compares as the same with the medium of an
/// attachment returns that attachment, whatever the mirrors.
pub proof fn lemma_same_medium_is_served(
    d: DriverView,
    id: u32,
    urls: Seq<Seq<char>>,
    spec: MediaSpecView,
)
    requires
        d.wf(),
        d.attached.contains_key(id),
        same_medium(d.attached[id].spec, spec) == Tribool::True,
    ensures
        d.lookup(urls, spec) == Some(id),
        d.attach_id(urls, spec) == id,
{
    assert(d.serves_at(id, urls, spec));
    let chosen = choose|c: u32| d.serves_at(c, urls, spec);
    lemma_serving_attachment_unique(d, chosen, id, urls, spec);
}

/// An attach that no attachment serves gets an id that no attachment has
/// or ever had, and leaves every other attachment as it was.
pub proof fn lemma_fresh_attach(
    d: DriverView,
    urls: Seq<Seq<char>>,
    spec: MediaSpecView,
    dir: Seq<char>,
)
    requires
        d.wf(),
        d.can_attach(urls, spec),
        d.lookup(urls, spec) is None,
    ensures
        ({
            let id = d.attach_id(urls, spec);
            let n = d.attach(urls, spec, dir);
            &&& id > d.next_attach_id
            &&& !d.attached.contains_key(id)
            &&& forall|other: u32| #[trigger] d.attached.contains_key(other) ==> other < id
            &&& n.next_attach_id == id
            &&& n.attached.contains_key(id)
            &&& n.attached[id].attach_dir == dir
            &&& n.attached[id].use_cnt == 1
            &&& n.attached[id].requests_running == Set::<PathKey>::empty()
            &&& forall|other: u32| #[trigger]
                d.attached.contains_key(other) ==> n.attached.contains_key(other)
                    && n.attached[other] == d.attached[other]
        }),
{
}

/// The request `c` puts its file where the scratch directory `scratch` and
/// its path say.
pub open spec fn targets(c: CallView, scratch: Seq<char>) -> bool {
    &&& c.phase != Phase::Finished ==> c.target_dir
        == target_dir_of(scratch, c.path)
    &&& (c.phase == Phase::Probing || c.phase == Phase::Waiting || c.phase == Phase::Requesting
        || c.phase == Phase::Storing) ==> Some(c.target_file)
        == target_file_of(scratch, c.path)
}

/// A request begins with the target that its attachment's scratch
/// directory and its path give.
pub proof fn lemma_start_targets(d: DriverView, id: u32, path: Seq<char>)
    requires
        d.attached.contains_key(id),
    ensures
        targets(start(d, id, path).call, d.attached[id].attach_dir),
        start(d, id, path).call.path == path,
        start(d, id, path).call.attach_id == id,
{
}

proof fn lemma_try_mirrors_targets(
    d: DriverView,
    c: CallView,
    from: nat,
    last: Option<MediaErrorView>,
    scratch: Seq<char>,
)
    requires
        targets(c, scratch),
        c.phase == Phase::Probing || c.phase == Phase::Requesting || c.phase == Phase::Storing,
    ensures
        ({
            let st = try_mirrors(d, c, from, last);
            &&& targets(st.call, scratch)
            &&& st.call.path == c.path
            &&& st.call.attach_id == c.attach_id
            &&& st.action is Done ==> st.action->result is Err
        }),
    decreases c.mirrors.len() - from,
{
    if from < c.mirrors.len() && url_join_text(c.mirrors[from as int], c.path) is None {
        lemma_try_mirrors_targets(d, c, from + 1, Some(MediaErrorView::InvalidPath), scratch);
    }
}

/// A request keeps its target through every step, and where it ends well
/// it returns the place that the scratch directory and the path give: so
/// every request for the same path of the same attachment that ends well
/// returns the same place.
pub proof fn lemma_step_targets(d: DriverView, c: CallView, event: EventView, scratch: Seq<char>)
    requires
        targets(c, scratch),
    ensures
        ({
            let st = step(d, c, event);
            &&& targets(st.call, scratch)
            &&& st.call.path == c.path
            &&& st.call.attach_id == c.attach_id
            &&& st.action matches ActionView::Done {
                result: Ok(file),
                ..
            } ==> Some(file) == target_file_of(scratch, c.path)
        }),
{
    match (c.phase, event) {
        (Phase::Probing, EventView::Probed { exists }) => {
            if !exists && d.attached.contains_key(c.attach_id) && !d.in_flight(
                c.attach_id,
                c.key(),
            ) {
                lemma_try_mirrors_targets(
                    d.claim(c.attach_id, c.key()),
                    CallView { armed: true, mirrors: d.attached[c.attach_id].mirrors, ..c },
                    0,
                    None,
                    scratch,
                );
            }
        },
        (Phase::Requesting, EventView::Responded { status }) => {
            lemma_try_mirrors_targets(
                d,
                c,
                c.next_mirror + 1,
                Some(MediaErrorView::FileNotFound),
                scratch,
            );
        },
        (Phase::Requesting, EventView::Failed { error }) => {
            lemma_try_mirrors_targets(d, c, c.next_mirror + 1, Some(error), scratch);
        },
        (Phase::Storing, EventView::Failed { error }) => {
            lemma_try_mirrors_targets(d, c, c.next_mirror + 1, Some(error), scratch);
        },
        _ => {},
    }
}

/// A request for a file that is on disk already ends with the file's place
/// after two reports, the directory and the file, and asks no mirror.
pub proof fn lemma_present_file_is_returned(d: DriverView, id: u32, path: Seq<char>)
    requires
        d.wf(),
        d.attached.contains_key(id),
        path_file_name(path) is Some,
    ensures
        ({
            let scratch = d.attached[id].attach_dir;
            let file = target_file_of(scratch, path)->0;
            let begun = start(d, id, path);
            let second = step(begun.driver, begun.call, EventView::DirReady { is_dir: true });
            let third = step(second.driver, second.call, EventView::Probed { exists: true });
            &&& begun.action == (ActionView::PrepareDir {
                dir: target_dir_of(scratch, path),
            })
            &&& second.action == (ActionView::Probe {
                file: file,
            })
            &&& third.action matches ActionView::Done {
                result,
                notify,
                ..
            } && result == Ok::<Seq<char>, MediaErrorView>(file) && !notify
            &&& third.driver.attached == d.attached
        }),
{
    let begun = start(d, id, path);
    let second = step(begun.driver, begun.call, EventView::DirReady { is_dir: true });
    let third = step(second.driver, second.call, EventView::Probed { exists: true });
    assert(third.driver.attached =~= d.attached);
}

/// The first mirror from `from` on that the path can be joined to, or the
/// number of mirrors where there is none.
pub open spec fn first_usable(mirrors: Seq<Seq<char>>, path: Seq<char>, from: nat) -> nat
    decreases mirrors.len() - from,
{
    if from >= mirrors.len() {
        mirrors.len()
    } else if url_join_text(mirrors[from as int], path) is Some {
        from
    } else {
        first_usable(mirrors, path, from + 1)
    }
}

/// Mirrors are tried in their order: after a failure the next mirror that
/// the path can be joined to is asked, at the URL that the join gives, and
/// what failed is remembered. With no such mirror left the request ends
/// with the last failure: an invalid path where a join failed after it,
/// and a file that was not found where nothing failed at all.
pub proof fn lemma_mirror_order(d: DriverView, c: CallView, from: nat, last: Option<MediaErrorView>)
    ensures
        ({
            let st = try_mirrors(d, c, from, last);
            let next = first_usable(c.mirrors, c.path, from);
            let failed = if next > from {
                Some(MediaErrorView::InvalidPath)
            } else {
                last
            };
            &&& from <= next || from > c.mirrors.len()
            &&& next < c.mirrors.len() ==> {
                &&& st.driver == d
                &&& st.call.phase == Phase::Requesting
                &&& st.call.next_mirror == next
                &&& st.call.last_error == failed
                &&& st.action == (ActionView::Request {
                    url: url_join_text(c.mirrors[next as int], c.path)->0,
                    dir: c.target_dir,
                })
            }
            &&& next >= c.mirrors.len() ==> st == finish(
                d,
                c,
                Err(
                    match failed {
                        Some(e) => e,
                        None => MediaErrorView::FileNotFound,
                    },
                ),
            )
        }),
    decreases c.mirrors.len() - from,
{
    if from < c.mirrors.len() && url_join_text(c.mirrors[from as int], c.path) is None {
        lemma_mirror_order(d, c, from + 1, Some(MediaErrorView::InvalidPath));
    }
}

/// A path without a parent goes to the scratch directory itself.
pub proof fn lemma_no_parent_targets_scratch(scratch: Seq<char>, path: Seq<char>)
    requires
        path_parent(path) is None,
    ensures
        target_dir_of(scratch, path) == scratch,
{
}

/// A request for a path without a file name ends as soon as its directory
/// is ready: the path is not a file.
pub proof fn lemma_no_file_name_is_not_a_file(d: DriverView, c: CallView)
    requires
        c.phase == Phase::PreparingDir,
        path_file_name(c.path) is None,
    ensures
        step(d, c, EventView::DirReady { is_dir: true }).action
            matches ActionView::Done { result, .. } && result
            == Err::<Seq<char>, MediaErrorView>(MediaErrorView::NotAFile),
        step(d, c, EventView::DirReady { is_dir: true }).call.phase == Phase::Finished,
{
}

/// No step changes an attachment's scratch directory, its mirrors or its
/// medium, and no step makes an attachment.
pub proof fn lemma_step_keeps_attachments(d: DriverView, c: CallView, event: EventView, id: u32)
    requires
        step(d, c, event).driver.attached.contains_key(id),
    ensures
        d.attached.contains_key(id),
        step(d, c, event).driver.attached[id].attach_dir == d.attached[id].attach_dir,
        step(d, c, event).driver.attached[id].mirrors == d.attached[id].mirrors,
        step(d, c, event).driver.attached[id].spec == d.attached[id].spec,
        step(d, c, event).driver.next_attach_id == d.next_attach_id,
{
    match (c.phase, event) {
        (Phase::Probing, EventView::Probed { exists }) => {
            if !exists && d.attached.contains_key(c.attach_id) && !d.in_flight(
                c.attach_id,
                c.key(),
            ) {
                lemma_try_mirrors_keeps(
                    d.claim(c.attach_id, c.key()),
                    CallView { armed: true, mirrors: d.attached[c.attach_id].mirrors, ..c },
                    0,
                    None,
                    id,
                );
            }
        },
        (Phase::Requesting, EventView::Responded { status }) => {
            if !is_success(status) {
                lemma_try_mirrors_keeps(
                    d,
                    c,
                    c.next_mirror + 1,
                    Some(MediaErrorView::FileNotFound),
                    id,
                );
            }
        },
        (Phase::Requesting, EventView::Failed { error }) => {
            lemma_try_mirrors_keeps(d, c, c.next_mirror + 1, Some(error), id);
        },
        (Phase::Storing, EventView::Failed { error }) => {
            lemma_try_mirrors_keeps(d, c, c.next_mirror + 1, Some(error), id);
        },
        _ => {},
    }
}

proof fn lemma_try_mirrors_keeps(
    d: DriverView,
    c: CallView,
    from: nat,
    last: Option<MediaErrorView>,
    id: u32,
)
    requires
        try_mirrors(d, c, from, last).driver.attached.contains_key(id),
    ensures
        d.attached.contains_key(id),
        try_mirrors(d, c, from, last).driver.attached[id].attach_dir == d.attached[id].attach_dir,
        try_mirrors(d, c, from, last).driver.attached[id].mirrors == d.attached[id].mirrors,
        try_mirrors(d, c, from, last).driver.attached[id].spec == d.attached[id].spec,
        try_mirrors(d, c, from, last).driver.next_attach_id == d.next_attach_id,
    decreases c.mirrors.len() - from,
{
    if from < c.mirrors.len() && url_join_text(c.mirrors[from as int], c.path) is None {
        lemma_try_mirrors_keeps(d, c, from + 1, Some(MediaErrorView::InvalidPath), id);
    }
}


/// A request ends well only when it was told that its file is on disk:
/// found there, or written there from a mirror's answer. So no place is
/// returned before the file in it is whole.
pub proof fn lemma_ok_needs_the_file(d: DriverView, c: CallView, event: EventView)
    requires
        step(d, c, event).action matches ActionView::Done { result, .. } && result is Ok,
    ensures
        (c.phase == Phase::Probing && event == (EventView::Probed { exists: true })) || (c.phase
            == Phase::Storing && event == EventView::Stored),
        step(d, c, event).action matches ActionView::Done { result, .. } && result == Ok::<
            Seq<char>,
            MediaErrorView,
        >(c.target_file),
{
    match (c.phase, event) {
        (Phase::Probing, EventView::Probed { exists }) => {
            if !exists && d.attached.contains_key(c.attach_id) && !d.in_flight(
                c.attach_id,
                c.key(),
            ) {
                lemma_try_mirrors_fails(
                    d.claim(c.attach_id, c.key()),
                    CallView { armed: true, mirrors: d.attached[c.attach_id].mirrors, ..c },
                    0,
                    None,
                );
            }
        },
        (Phase::Requesting, EventView::Responded { status }) => {
            if !is_success(status) {
                lemma_try_mirrors_fails(d, c, c.next_mirror + 1, Some(MediaErrorView::FileNotFound));
            }
        },
        (Phase::Requesting, EventView::Failed { error }) => {
            lemma_try_mirrors_fails(d, c, c.next_mirror + 1, Some(error));
        },
        (Phase::Storing, EventView::Failed { error }) => {
            lemma_try_mirrors_fails(d, c, c.next_mirror + 1, Some(error));
        },
        _ => {},
    }
}

proof fn lemma_try_mirrors_fails(d: DriverView, c: CallView, from: nat, last: Option<MediaErrorView>)
    ensures
        try_mirrors(d, c, from, last).action matches ActionView::Done { result, .. } ==> result is Err,
    decreases c.mirrors.len() - from,
{
    if from < c.mirrors.len() && url_join_text(c.mirrors[from as int], c.path) is None {
        lemma_try_mirrors_fails(d, c, from + 1, Some(MediaErrorView::InvalidPath));
    }
}

/// No two attachments have the same scratch directory.
pub open spec fn distinct_dirs(d: DriverView) -> bool {
    forall|a: u32, b: u32|
        #![trigger d.attached.contains_key(a), d.attached.contains_key(b)]
        d.attached.contains_key(a) && d.attached.contains_key(b) && a != b
            ==> d.attached[a].attach_dir != d.attached[b].attach_dir
}

/// Attachments with different ids keep different scratch directories
/// through an attach, as long as the directory handed in is not the
/// directory of an attachment already.
pub proof fn lemma_attach_keeps_dirs_distinct(
    d: DriverView,
    urls: Seq<Seq<char>>,
    spec: MediaSpecView,
    dir: Seq<char>,
)
    requires
        d.wf(),
        distinct_dirs(d),
        forall|a: u32| #[trigger] d.attached.contains_key(a) ==> d.attached[a].attach_dir != dir,
    ensures
        distinct_dirs(d.attach(urls, spec, dir)),
{
    let n = d.attach(urls, spec, dir);
    match d.lookup(urls, spec) {
        Some(id) => {
            assert(d.serves_at(id, urls, spec));
        },
        None => {},
    }
    assert forall|a: u32, b: u32|
        #![trigger n.attached.contains_key(a), n.attached.contains_key(b)]
        n.attached.contains_key(a) && n.attached.contains_key(b) && a != b implies n.attached[a].attach_dir
        != n.attached[b].attach_dir by {
        if d.attached.contains_key(a) && d.attached.contains_key(b) {
            assert(d.attached[a].attach_dir != d.attached[b].attach_dir);
        }
    }
}

/// Attachments with different ids keep different scratch directories
/// through a detach and through every step of every request.
pub proof fn lemma_steps_keep_dirs_distinct(d: DriverView, c: CallView, event: EventView, id: u32)
    requires
        distinct_dirs(d),
    ensures
        distinct_dirs(d.unpin(id)),
        distinct_dirs(step(d, c, event).driver),
        distinct_dirs(start(d, c.attach_id, c.path).driver),
{
    let n = step(d, c, event).driver;
    assert forall|a: u32, b: u32|
        #![trigger n.attached.contains_key(a), n.attached.contains_key(b)]
        n.attached.contains_key(a) && n.attached.contains_key(b) && a != b implies n.attached[a].attach_dir
        != n.attached[b].attach_dir by {
        lemma_step_keeps_attachments(d, c, event, a);
        lemma_step_keeps_attachments(d, c, event, b);
        assert(d.attached.contains_key(a) && d.attached.contains_key(b));
    }
    let u = d.unpin(id);
    assert forall|a: u32, b: u32|
        #![trigger u.attached.contains_key(a), u.attached.contains_key(b)]
        u.attached.contains_key(a) && u.attached.contains_key(b) && a != b implies u.attached[a].attach_dir
        != u.attached[b].attach_dir by {
        assert(d.attached.contains_key(a) && d.attached.contains_key(b));
    }
    let p = start(d, c.attach_id, c.path).driver;
    assert forall|a: u32, b: u32|
        #![trigger p.attached.contains_key(a), p.attached.contains_key(b)]
        p.attached.contains_key(a) && p.attached.contains_key(b) && a != b implies p.attached[a].attach_dir
        != p.attached[b].attach_dir by {
        assert(d.attached.contains_key(a) && d.attached.contains_key(b));
    }
}


/// A request that is given up is over at once, wherever it stood: it takes
/// no part in a download any more and holds no use of its attachment.
pub proof fn lemma_abandoned_is_over(d: DriverView, c: CallView)
    ensures
        step(d, c, EventView::Abandoned).call.phase == Phase::Finished,
        !step(d, c, EventView::Abandoned).call.armed,
        !step(d, c, EventView::Abandoned).call.pinned,
        step(d, c, EventView::Abandoned) == finish(d, c, Err(unexpected_event())),
{
}


/// While one request downloads a file, every other request for that file
/// of that attachment that finds it missing is told to wait: it asks no
/// mirror and changes nothing. So of any number of requests for one file
/// only one talks to the mirrors at a time.
pub proof fn lemma_others_wait(s: System, i: int, j: int)
    requires
        s.consistent(),
        0 <= i < s.calls.len(),
        0 <= j < s.calls.len(),
        s.calls[i].armed,
        s.calls[j].phase == Phase::Probing,
        s.calls[j].attach_id == s.calls[i].attach_id,
        s.calls[j].key() == s.calls[i].key(),
        s.driver.attached.contains_key(s.calls[i].attach_id),
    ensures
        step(s.driver, s.calls[j], EventView::Probed { exists: false }).action == ActionView::Wait,
        step(s.driver, s.calls[j], EventView::Probed { exists: false }).driver == s.driver,
        step(s.driver, s.calls[j], EventView::Probed { exists: false }).call.phase
            == Phase::Waiting,
{
    assert(s.driver.in_flight(s.calls[i].attach_id, s.calls[i].key()));
}

} // verus!
