//! Who holds an attachment: the handles that callers have, and the
//! requests that run. As long as nobody detaches more often than it
//! attached, the use count of an attachment is the number of its holders,
//! and the attachment stays exactly as long as it has one.

use vstd::prelude::*;
use crate::media::MediaErrorView;
use crate::media::drivers::http::DriverView;
use crate::media::drivers::laws::lemma_attach_consistent;
use crate::media::drivers::laws::lemma_detach_consistent;
use crate::media::drivers::laws::lemma_event_consistent;
use crate::media::drivers::laws::lemma_provide_consistent;
use crate::media::drivers::laws::System;
use crate::media::drivers::provide::is_success;
use crate::media::drivers::provide::step;
use crate::media::drivers::provide::try_mirrors;
use crate::media::drivers::provide::CallView;
use crate::media::drivers::provide::EventView;
use crate::media::drivers::provide::Phase;
use crate::media::spec::MediaSpecView;
use crate::urls::url_join_text;

verus! {

/// One if the request holds a use of the attachment `id`, else none.
pub open spec fn pinned_on(c: CallView, id: u32) -> nat {
    if c.pinned && c.attach_id == id {
        1
    } else {
        0
    }
}

/// The number of requests that hold a use of the attachment `id`.
pub open spec fn pins(calls: Seq<CallView>, id: u32) -> nat
    decreases calls.len(),
{
    if calls.len() == 0 {
        0
    } else {
        pins(calls.drop_last(), id) + pinned_on(calls.last(), id)
    }
}

/// A driver with its requests, and how many handles callers have on each
/// attachment.
pub struct Accounts {
    pub system: System,
    pub handles: Map<u32, nat>,
}

impl Accounts {
    /// The number of handles on the attachment `id`.
    pub open spec fn handles_on(self, id: u32) -> nat {
        if self.handles.contains_key(id) {
            self.handles[id]
        } else {
            0
        }
    }

    /// The books are balanced: the system is consistent, the use count of
    /// every attachment is the number of its handles and of the requests
    /// that run on it, and what is no attachment has neither.
    pub open spec fn balanced(self) -> bool {
        &&& self.system.consistent()
        &&& forall|id: u32| #[trigger]
            self.system.driver.attached.contains_key(id)
                ==> self.system.driver.attached[id].use_cnt == self.handles_on(id) + pins(
                self.system.calls,
                id,
            )
        &&& forall|id: u32|
            !(#[trigger] self.system.driver.attached.contains_key(id)) ==> self.handles_on(id)
                == 0 && pins(self.system.calls, id) == 0
    }

    /// The accounts after an attach: the caller has one more handle on the
    /// attachment that was returned.
    pub open spec fn after_attach(
        self,
        urls: Seq<Seq<char>>,
        spec: MediaSpecView,
        scratch_dir: Seq<char>,
    ) -> Accounts {
        let id = self.system.driver.attach_id(urls, spec);
        Accounts {
            system: self.system.after_attach(urls, spec, scratch_dir),
            handles: self.handles.insert(id, self.handles_on(id) + 1),
        }
    }

    /// The accounts after a handle on `id` was given up.
    pub open spec fn after_detach(self, id: u32) -> Accounts {
        Accounts {
            system: self.system.after_detach(id),
            handles: self.handles.insert(id, (self.handles_on(id) - 1) as nat),
        }
    }

    /// The accounts after a request was begun.
    pub open spec fn after_provide(self, id: u32, path: Seq<char>) -> Accounts {
        Accounts { system: self.system.after_provide(id, path), ..self }
    }

    /// The accounts after the request `i` was told `event`.
    pub open spec fn after_event(self, i: int, event: EventView) -> Accounts {
        Accounts { system: self.system.after_event(i, event), ..self }
    }
}

proof fn lemma_pins_push(calls: Seq<CallView>, c: CallView, id: u32)
    ensures
        pins(calls.push(c), id) == pins(calls, id) + pinned_on(c, id),
{
    assert(calls.push(c).drop_last() =~= calls);
}

proof fn lemma_pins_update(calls: Seq<CallView>, i: int, c: CallView, id: u32)
    requires
        0 <= i < calls.len(),
    ensures
        pins(calls.update(i, c), id) + pinned_on(calls[i], id) == pins(calls, id) + pinned_on(
            c,
            id,
        ),
    decreases calls.len(),
{
    let updated = calls.update(i, c);
    if i == calls.len() - 1 {
        assert(updated.drop_last() =~= calls.drop_last());
    } else {
        assert(updated.drop_last() =~= calls.drop_last().update(i, c));
        lemma_pins_update(calls.drop_last(), i, c, id);
    }
}

proof fn lemma_pins_count(calls: Seq<CallView>, i: int, id: u32)
    requires
        0 <= i < calls.len(),
    ensures
        pins(calls, id) >= pinned_on(calls[i], id),
    decreases calls.len(),
{
    if i < calls.len() - 1 {
        lemma_pins_count(calls.drop_last(), i, id);
    }
}

/// The use counts of a driver's attachments.
spec fn counts(d: DriverView) -> Map<u32, int> {
    Map::new(|id: u32| d.attached.contains_key(id), |id: u32| d.attached[id].use_cnt)
}

/// What a step does to the use counts: nothing while the request goes on,
/// and one use of its attachment less when it ends.
spec fn counts_after(d: DriverView, before: CallView, after: CallView) -> Map<u32, int> {
    if before.pinned && !after.pinned {
        counts(d.unpin(before.attach_id))
    } else {
        counts(d)
    }
}

proof fn lemma_unpin_counts(d: DriverView, base: DriverView, id: u32)
    requires
        counts(d) == counts(base),
    ensures
        counts(d.unpin(id)) == counts(base.unpin(id)),
{
    assert forall|x: u32| d.attached.contains_key(x) <==> base.attached.contains_key(x) by {
        assert(counts(d).contains_key(x) <==> d.attached.contains_key(x));
        assert(counts(base).contains_key(x) <==> base.attached.contains_key(x));
    }
    assert forall|x: u32| d.attached.contains_key(x) implies d.attached[x].use_cnt
        == base.attached[x].use_cnt by {
        assert(counts(d)[x] == d.attached[x].use_cnt);
        assert(counts(base)[x] == base.attached[x].use_cnt);
    }
    let dn = d.unpin(id);
    let bn = base.unpin(id);
    assert forall|x: u32| counts(dn).contains_key(x) <==> counts(bn).contains_key(x) by {
        assert(d.attached.contains_key(x) <==> base.attached.contains_key(x));
        assert(d.attached.contains_key(id) <==> base.attached.contains_key(id));
    }
    assert forall|x: u32| counts(dn).contains_key(x) implies counts(dn)[x] == counts(bn)[x] by {
        assert(d.attached.contains_key(x) <==> base.attached.contains_key(x));
        assert(d.attached.contains_key(id) <==> base.attached.contains_key(id));
    }
    assert(counts(dn) =~= counts(bn));
}

proof fn lemma_try_mirrors_counts(
    d: DriverView,
    base: DriverView,
    c: CallView,
    from: nat,
    last: Option<MediaErrorView>,
)
    requires
        c.armed,
        c.pinned,
        counts(d) == counts(base),
    ensures
        ({
            let st = try_mirrors(d, c, from, last);
            &&& st.call.attach_id == c.attach_id
            &&& st.call.pinned ==> c.pinned
            &&& counts(st.driver) == counts_after(base, c, st.call)
        }),
    decreases c.mirrors.len() - from,
{
    if from >= c.mirrors.len() {
        let released = d.release(c.attach_id, c.key());
        assert(counts(released) =~= counts(d));
        lemma_unpin_counts(released, base, c.attach_id);
    } else if url_join_text(c.mirrors[from as int], c.path) is None {
        lemma_try_mirrors_counts(d, base, c, from + 1, Some(MediaErrorView::InvalidPath));
    }
}

proof fn lemma_step_counts(d: DriverView, c: CallView, event: EventView)
    requires
        c.wf(),
    ensures
        ({
            let st = step(d, c, event);
            &&& st.call.attach_id == c.attach_id
            &&& st.call.pinned ==> c.pinned
            &&& counts(st.driver) == counts_after(d, c, st.call)
        }),
{
    let st = step(d, c, event);
    let released = d.release(c.attach_id, c.key());
    assert(counts(released) =~= counts(d));
    assert(counts(released.unpin(c.attach_id)) =~= counts(d.unpin(c.attach_id)));
    match (c.phase, event) {
        (Phase::Probing, EventView::Probed { exists }) => {
            if !exists && d.attached.contains_key(c.attach_id) && !d.in_flight(
                c.attach_id,
                c.key(),
            ) {
                let claimed = d.claim(c.attach_id, c.key());
                assert(counts(claimed) =~= counts(d));
                lemma_try_mirrors_counts(
                    claimed,
                    d,
                    CallView { armed: true, mirrors: d.attached[c.attach_id].mirrors, ..c },
                    0,
                    None,
                );
            }
        },
        (Phase::Requesting, EventView::Responded { status }) => {
            if !is_success(status) {
                lemma_try_mirrors_counts(
                    d,
                    d,
                    c,
                    c.next_mirror + 1,
                    Some(MediaErrorView::FileNotFound),
                );
            }
        },
        (Phase::Requesting, EventView::Failed { error }) => {
            lemma_try_mirrors_counts(d, d, c, c.next_mirror + 1, Some(error));
        },
        (Phase::Storing, EventView::Failed { error }) => {
            lemma_try_mirrors_counts(d, d, c, c.next_mirror + 1, Some(error));
        },
        _ => {},
    }
}

/// A new driver without requests and without handles has balanced books.
pub proof fn lemma_initial_balanced()
    ensures
        (Accounts {
            system: System {
                driver: DriverView { next_attach_id: 1, attached: Map::empty() },
                calls: Seq::empty(),
            },
            handles: Map::empty(),
        }).balanced(),
{
    crate::media::drivers::laws::lemma_initial_consistent();
}

/// An attach keeps the books balanced.
pub proof fn lemma_attach_balanced(
    a: Accounts,
    urls: Seq<Seq<char>>,
    spec: MediaSpecView,
    scratch_dir: Seq<char>,
)
    requires
        a.balanced(),
        a.system.driver.can_attach(urls, spec),
    ensures
        a.after_attach(urls, spec, scratch_dir).balanced(),
{
    let n = a.after_attach(urls, spec, scratch_dir);
    let d = a.system.driver;
    lemma_attach_consistent(a.system, urls, spec, scratch_dir);
    match d.lookup(urls, spec) {
        Some(id) => {
            assert(d.serves_at(id, urls, spec));
        },
        None => {},
    }
    let id = d.attach_id(urls, spec);
    assert forall|x: u32| #[trigger] n.system.driver.attached.contains_key(x) implies n.system.driver.attached[x].use_cnt
        == n.handles_on(x) + pins(n.system.calls, x) by {
        if x != id {
            assert(d.attached.contains_key(x));
        } else if d.attached.contains_key(id) {
        } else {
            assert(a.handles_on(id) == 0 && pins(a.system.calls, id) == 0);
        }
    }
    assert forall|x: u32| !(#[trigger] n.system.driver.attached.contains_key(x)) implies n.handles_on(
        x,
    ) == 0 && pins(n.system.calls, x) == 0 by {
        assert(!d.attached.contains_key(x));
    }
}

/// Giving up a handle that one has keeps the books balanced.
pub proof fn lemma_detach_balanced(a: Accounts, id: u32)
    requires
        a.balanced(),
        a.handles_on(id) >= 1,
    ensures
        a.after_detach(id).balanced(),
{
    let n = a.after_detach(id);
    let d = a.system.driver;
    lemma_detach_consistent(a.system, id);
    assert(d.attached.contains_key(id));
    assert forall|x: u32| #[trigger] n.system.driver.attached.contains_key(x) implies n.system.driver.attached[x].use_cnt
        == n.handles_on(x) + pins(n.system.calls, x) by {
        assert(d.attached.contains_key(x));
    }
    assert forall|x: u32| !(#[trigger] n.system.driver.attached.contains_key(x)) implies n.handles_on(
        x,
    ) == 0 && pins(n.system.calls, x) == 0 by {
        if x != id {
            assert(!d.attached.contains_key(x));
        }
    }
}

/// The begin of a request keeps the books balanced.
pub proof fn lemma_provide_balanced(a: Accounts, id: u32, path: Seq<char>)
    requires
        a.balanced(),
        a.system.driver.can_pin(id),
    ensures
        a.after_provide(id, path).balanced(),
{
    let n = a.after_provide(id, path);
    let d = a.system.driver;
    let st = crate::media::drivers::provide::start(d, id, path);
    lemma_provide_consistent(a.system, id, path);
    assert forall|x: u32| #[trigger] n.system.driver.attached.contains_key(x) implies n.system.driver.attached[x].use_cnt
        == n.handles_on(x) + pins(n.system.calls, x) by {
        lemma_pins_push(a.system.calls, st.call, x);
        assert(d.attached.contains_key(x));
    }
    assert forall|x: u32| !(#[trigger] n.system.driver.attached.contains_key(x)) implies n.handles_on(
        x,
    ) == 0 && pins(n.system.calls, x) == 0 by {
        lemma_pins_push(a.system.calls, st.call, x);
        assert(!d.attached.contains_key(x));
    }
}

/// A step of any request, on any report, keeps the books balanced.
pub proof fn lemma_event_balanced(a: Accounts, i: int, event: EventView)
    requires
        a.balanced(),
        0 <= i < a.system.calls.len(),
    ensures
        a.after_event(i, event).balanced(),
{
    let n = a.after_event(i, event);
    let d = a.system.driver;
    let c = a.system.calls[i];
    let st = step(d, c, event);
    lemma_event_consistent(a.system, i, event);
    assert(c.wf());
    lemma_step_counts(d, c, event);
    let nd = n.system.driver;
    assert(nd == st.driver);
    assert forall|x: u32| nd.attached.contains_key(x) <==> counts(nd).contains_key(x) by {}
    assert forall|x: u32| #[trigger] nd.attached.contains_key(x) implies nd.attached[x].use_cnt
        == n.handles_on(x) + pins(n.system.calls, x) by {
        lemma_pins_update(a.system.calls, i, st.call, x);
        assert(counts(nd)[x] == nd.attached[x].use_cnt);
        if c.pinned && !st.call.pinned {
            assert(counts(d.unpin(c.attach_id)).contains_key(x));
            assert(d.unpin(c.attach_id).attached.contains_key(x));
            assert(d.attached.contains_key(x));
            assert(counts(d.unpin(c.attach_id))[x] == d.unpin(c.attach_id).attached[x].use_cnt);
        } else {
            assert(counts(d).contains_key(x));
            assert(d.attached.contains_key(x));
            assert(counts(d)[x] == d.attached[x].use_cnt);
        }
    }
    assert forall|x: u32| !(#[trigger] nd.attached.contains_key(x)) implies n.handles_on(x) == 0
        && pins(n.system.calls, x) == 0 by {
        lemma_pins_update(a.system.calls, i, st.call, x);
        lemma_pins_count(a.system.calls, i, x);
        if c.pinned && !st.call.pinned {
            assert(!counts(d.unpin(c.attach_id)).contains_key(x));
            assert(!d.unpin(c.attach_id).attached.contains_key(x));
            if d.attached.contains_key(x) {
                assert(x == c.attach_id);
                assert(d.attached[x].use_cnt == 1);
            }
        } else {
            assert(!counts(d).contains_key(x));
            assert(!d.attached.contains_key(x));
        }
    }
}

/// While a request runs its attachment exists: a request that began on an
/// attachment never finds its handle invalid.
pub proof fn lemma_running_request_has_attachment(a: Accounts, i: int)
    requires
        a.balanced(),
        0 <= i < a.system.calls.len(),
        a.system.calls[i].pinned,
    ensures
        a.system.driver.attached.contains_key(a.system.calls[i].attach_id),
{
    lemma_pins_count(a.system.calls, i, a.system.calls[i].attach_id);
}

/// While a caller has a handle its attachment exists, and is in use.
pub proof fn lemma_live_handle_has_attachment(a: Accounts, id: u32)
    requires
        a.balanced(),
        a.handles_on(id) >= 1,
    ensures
        a.system.driver.attached.contains_key(id),
        a.system.driver.attached[id].use_cnt >= 1,
{
    assert(a.system.driver.attached.contains_key(id));
}

/// An attachment goes with its last holder: once no caller has a handle on
/// it and no request runs on it, it exists no more.
pub proof fn lemma_no_holder_no_attachment(a: Accounts, id: u32)
    requires
        a.balanced(),
        a.handles_on(id) == 0,
        pins(a.system.calls, id) == 0,
    ensures
        !a.system.driver.attached.contains_key(id),
{
}

} // verus!
