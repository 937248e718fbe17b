//! The HTTP driver's bookkeeping: which media are attached, how often each
//! is in use, and which of their files are being downloaded right now.
//!
//! Nothing here touches the network or the file system. The driver decides;
//! its caller creates directories, sends requests and reports back.

use vstd::prelude::*;
use vstd::std_specs::iter::IteratorSpec;
use vstd::string::StringExecFns;
use std::collections::HashMap;
use url::Url;
use crate::media::MediaError;
use crate::media::spec::same_medium;
use crate::media::spec::MediaSpec;
use crate::media::spec::MediaSpecView;
use crate::paths::opt_text;
use crate::paths::path_components;
use crate::paths::paths_equal;
use crate::tribool::Tribool;
use crate::urls::clone_urls;
use crate::urls::url_text;
use crate::urls::url_texts;
use crate::urls::urls_equal;

verus! {

/// The prefix of the name of every scratch directory.
pub const SCRATCH_PREFIX: &'static str = "zypp-http";

/// The identity of a requested path: its components.
pub type PathKey = Seq<Seq<char>>;

/// The mathematical value of one attachment.
pub struct AttachedMediaView {
    /// How many users hold the attachment: handles and running requests.
    pub use_cnt: int,
    /// The scratch directory that files of this medium are put into.
    pub attach_dir: Seq<char>,
    /// The serialized mirrors, in the order in which they are tried.
    pub mirrors: Seq<Seq<char>>,
    /// The medium that is attached.
    pub spec: MediaSpecView,
    /// The paths that are being downloaded right now.
    pub requests_running: Set<PathKey>,
}

/// The first of a list of mirrors, if there is one.
pub open spec fn first_mirror(urls: Seq<Seq<char>>) -> Option<Seq<char>> {
    if urls.len() > 0 {
        Some(urls[0])
    } else {
        None
    }
}

/// Whether an attachment serves a request for the medium `spec` at the
/// mirrors `urls`: it does if both describe the same medium; where that
/// cannot be told, it does exactly if both name the same first mirror.
pub open spec fn serves(
    attach_spec: MediaSpecView,
    attach_mirrors: Seq<Seq<char>>,
    urls: Seq<Seq<char>>,
    spec: MediaSpecView,
) -> bool {
    match same_medium(attach_spec, spec) {
        Tribool::True => true,
        Tribool::False => false,
        Tribool::Indeterminate => first_mirror(urls) == first_mirror(attach_mirrors),
    }
}

/// The mathematical value of the driver: the attachments by id, and the id
/// that was handed out last.
pub struct DriverView {
    pub next_attach_id: u32,
    pub attached: Map<u32, AttachedMediaView>,
}

impl DriverView {
    /// Whether the attachment `id` serves the medium `spec` at `urls`.
    pub open spec fn serves_at(self, id: u32, urls: Seq<Seq<char>>, spec: MediaSpecView) -> bool {
        &&& self.attached.contains_key(id)
        &&& serves(self.attached[id].spec, self.attached[id].mirrors, urls, spec)
    }

    /// What holds of every state that the driver can reach: ids are never
    /// ahead of the counter, every attachment is in use, and no two
    /// attachments serve the same medium.
    pub open spec fn wf(self) -> bool {
        &&& self.attached.dom().finite()
        &&& forall|id: u32| #[trigger]
            self.attached.contains_key(id) ==> {
                &&& id <= self.next_attach_id
                &&& 1 <= self.attached[id].use_cnt <= i64::MAX
                &&& self.attached[id].requests_running.finite()
            }
        &&& forall|a: u32, b: u32|
            #![trigger self.attached.contains_key(a), self.attached.contains_key(b)]
            self.attached.contains_key(a) && self.attached.contains_key(b) && a != b ==> !serves(
                self.attached[a].spec,
                self.attached[a].mirrors,
                self.attached[b].mirrors,
                self.attached[b].spec,
            )
    }

    /// The attachment that serves the medium `spec` at `urls`, if any.
    pub open spec fn lookup(self, urls: Seq<Seq<char>>, spec: MediaSpecView) -> Option<u32> {
        if exists|id: u32| self.serves_at(id, urls, spec) {
            Some(choose|id: u32| self.serves_at(id, urls, spec))
        } else {
            None
        }
    }

    /// The state with one more use of the attachment `id`.
    pub open spec fn pin(self, id: u32) -> DriverView {
        if self.attached.contains_key(id) {
            let e = self.attached[id];
            DriverView {
                attached: self.attached.insert(
                    id,
                    AttachedMediaView { use_cnt: e.use_cnt + 1, ..e },
                ),
                ..self
            }
        } else {
            self
        }
    }

    /// The state with one use less of the attachment `id`, which goes when
    /// its last use does.
    pub open spec fn unpin(self, id: u32) -> DriverView {
        if self.attached.contains_key(id) {
            let e = self.attached[id];
            if e.use_cnt - 1 <= 0 {
                DriverView { attached: self.attached.remove(id), ..self }
            } else {
                DriverView {
                    attached: self.attached.insert(
                        id,
                        AttachedMediaView { use_cnt: e.use_cnt - 1, ..e },
                    ),
                    ..self
                }
            }
        } else {
            self
        }
    }

    /// The scratch directory that goes when the attachment `id` loses one
    /// use: that of `id` if this is its last use.
    pub open spec fn evicts(self, id: u32) -> Option<Seq<char>> {
        if self.attached.contains_key(id) && self.attached[id].use_cnt - 1 <= 0 {
            Some(self.attached[id].attach_dir)
        } else {
            None
        }
    }

    /// The id that an attach of the medium `spec` at `urls` returns.
    pub open spec fn attach_id(self, urls: Seq<Seq<char>>, spec: MediaSpecView) -> u32 {
        match self.lookup(urls, spec) {
            Some(id) => id,
            None => (self.next_attach_id + 1) as u32,
        }
    }

    /// The state after an attach of the medium `spec` at `urls`: one more
    /// use of the attachment that serves it, or else a new attachment under
    /// the next id, used once, with `scratch_dir` as its directory.
    pub open spec fn attach(
        self,
        urls: Seq<Seq<char>>,
        spec: MediaSpecView,
        scratch_dir: Seq<char>,
    ) -> DriverView {
        match self.lookup(urls, spec) {
            Some(id) => self.pin(id),
            None => {
                let id = (self.next_attach_id + 1) as u32;
                DriverView {
                    next_attach_id: id,
                    attached: self.attached.insert(
                        id,
                        AttachedMediaView {
                            use_cnt: 1,
                            attach_dir: scratch_dir,
                            mirrors: urls,
                            spec: spec,
                            requests_running: Set::empty(),
                        },
                    ),
                }
            },
        }
    }

    /// Whether the use count of the attachment `id`, if it exists, can grow.
    pub open spec fn can_pin(self, id: u32) -> bool {
        self.attached.contains_key(id) ==> self.attached[id].use_cnt < i64::MAX
    }

    /// Whether an attach of the medium `spec` at `urls` stays within the
    /// range of the counters.
    pub open spec fn can_attach(self, urls: Seq<Seq<char>>, spec: MediaSpecView) -> bool {
        match self.lookup(urls, spec) {
            Some(id) => self.attached[id].use_cnt < i64::MAX,
            None => self.next_attach_id < u32::MAX,
        }
    }

    /// Whether a download of `key` from the attachment `id` is running.
    pub open spec fn in_flight(self, id: u32, key: PathKey) -> bool {
        self.attached.contains_key(id) && self.attached[id].requests_running.contains(key)
    }

    /// The state in which a download of `key` from `id` is running.
    pub open spec fn claim(self, id: u32, key: PathKey) -> DriverView {
        if self.attached.contains_key(id) {
            let e = self.attached[id];
            DriverView {
                attached: self.attached.insert(
                    id,
                    AttachedMediaView { requests_running: e.requests_running.insert(key), ..e },
                ),
                ..self
            }
        } else {
            self
        }
    }

    /// The state in which no download of `key` from `id` is running.
    pub open spec fn release(self, id: u32, key: PathKey) -> DriverView {
        if self.attached.contains_key(id) {
            let e = self.attached[id];
            DriverView {
                attached: self.attached.insert(
                    id,
                    AttachedMediaView { requests_running: e.requests_running.remove(key), ..e },
                ),
                ..self
            }
        } else {
            self
        }
    }
}

/// In a well-formed state at most one attachment serves a given medium.
pub proof fn lemma_serving_attachment_unique(
    d: DriverView,
    a: u32,
    b: u32,
    urls: Seq<Seq<char>>,
    spec: MediaSpecView,
)
    requires
        d.wf(),
        d.serves_at(a, urls, spec),
        d.serves_at(b, urls, spec),
    ensures
        a == b,
{
    if a != b {
        assert(d.attached.contains_key(a) && d.attached.contains_key(b));
        assert(!serves(
            d.attached[a].spec,
            d.attached[a].mirrors,
            d.attached[b].mirrors,
            d.attached[b].spec,
        ));
    }
}



/// A state whose attachments all come from a well-formed state, with the
/// medium and the mirrors they had there, is well-formed if their use
/// counts and running requests are in order.
proof fn lemma_wf_kept(d: DriverView, n: DriverView)
    requires
        d.wf(),
        d.next_attach_id <= n.next_attach_id,
        n.attached.dom().finite(),
        forall|id: u32| #[trigger]
            n.attached.contains_key(id) ==> {
                &&& d.attached.contains_key(id)
                &&& n.attached[id].spec == d.attached[id].spec
                &&& n.attached[id].mirrors == d.attached[id].mirrors
                &&& 1 <= n.attached[id].use_cnt <= i64::MAX
                &&& n.attached[id].requests_running.finite()
            },
    ensures
        n.wf(),
{
    assert forall|a: u32, b: u32|
        #![trigger n.attached.contains_key(a), n.attached.contains_key(b)]
        n.attached.contains_key(a) && n.attached.contains_key(b) && a != b implies !serves(
        n.attached[a].spec,
        n.attached[a].mirrors,
        n.attached[b].mirrors,
        n.attached[b].spec,
    ) by {
        assert(d.attached.contains_key(a) && d.attached.contains_key(b));
    }
}

/// One more use keeps the state well-formed.
pub proof fn lemma_pin_wf(d: DriverView, id: u32)
    requires
        d.wf(),
        d.can_pin(id),
    ensures
        d.pin(id).wf(),
{
    if d.attached.contains_key(id) {
        assert(d.pin(id).attached.dom() =~= d.attached.dom());
        lemma_wf_kept(d, d.pin(id));
    }
}

/// One use less keeps the state well-formed: a use count never falls below
/// one while its attachment exists.
pub proof fn lemma_unpin_wf(d: DriverView, id: u32)
    requires
        d.wf(),
    ensures
        d.unpin(id).wf(),
{
    if d.attached.contains_key(id) {
        lemma_wf_kept(d, d.unpin(id));
    }
}

/// An attach keeps the state well-formed.
pub proof fn lemma_attach_wf(
    d: DriverView,
    urls: Seq<Seq<char>>,
    spec: MediaSpecView,
    scratch_dir: Seq<char>,
)
    requires
        d.wf(),
        d.can_attach(urls, spec),
    ensures
        d.attach(urls, spec, scratch_dir).wf(),
{
    let n = d.attach(urls, spec, scratch_dir);
    match d.lookup(urls, spec) {
        Some(id) => {
            assert(d.serves_at(id, urls, spec));
            lemma_pin_wf(d, id);
        },
        None => {
            let id = (d.next_attach_id + 1) as u32;
            assert(!d.attached.contains_key(id));
            assert forall|a: u32| #[trigger] n.attached.contains_key(a) implies {
                &&& a <= n.next_attach_id
                &&& 1 <= n.attached[a].use_cnt <= i64::MAX
                &&& n.attached[a].requests_running.finite()
            } by {
                if a != id {
                    assert(d.attached.contains_key(a));
                }
            }
            assert forall|a: u32, b: u32|
                #![trigger n.attached.contains_key(a), n.attached.contains_key(b)]
                n.attached.contains_key(a) && n.attached.contains_key(b) && a != b implies !serves(
                n.attached[a].spec,
                n.attached[a].mirrors,
                n.attached[b].mirrors,
                n.attached[b].spec,
            ) by {
                if a == id {
                    assert(d.attached.contains_key(b));
                    assert(!d.serves_at(b, urls, spec));
                } else if b == id {
                    assert(d.attached.contains_key(a));
                    assert(!d.serves_at(a, urls, spec));
                } else {
                    assert(d.attached.contains_key(a) && d.attached.contains_key(b));
                }
            }
        },
    }
}

/// Marking a download as running keeps the state well-formed.
pub proof fn lemma_claim_wf(d: DriverView, id: u32, key: PathKey)
    requires
        d.wf(),
    ensures
        d.claim(id, key).wf(),
{
    if d.attached.contains_key(id) {
        assert(d.claim(id, key).attached.dom() =~= d.attached.dom());
        lemma_wf_kept(d, d.claim(id, key));
    }
}

/// Marking a download as over keeps the state well-formed.
pub proof fn lemma_release_wf(d: DriverView, id: u32, key: PathKey)
    requires
        d.wf(),
    ensures
        d.release(id, key).wf(),
{
    if d.attached.contains_key(id) {
        assert(d.release(id, key).attached.dom() =~= d.attached.dom());
        lemma_wf_kept(d, d.release(id, key));
    }
}

/// One attachment: a medium, its mirrors and its scratch directory.
pub struct AttachedMedia {
    use_cnt: i64,
    attach_dir: String,
    mirrors: Vec<Url>,
    spec: MediaSpec,
    requests_running: Vec<String>,
}

/// The identities of a list of paths.
spec fn keys_of(paths: Seq<String>) -> Set<PathKey> {
    paths.map_values(|p: String| path_components(p@)).to_set()
}

/// No two paths of the list are the same path.
spec fn distinct_keys(paths: Seq<String>) -> bool {
    forall|i: int, j: int|
        0 <= i < j < paths.len() ==> path_components(#[trigger] paths[i]@) != path_components(
            #[trigger] paths[j]@,
        )
}

impl View for AttachedMedia {
    type V = AttachedMediaView;

    closed spec fn view(&self) -> AttachedMediaView {
        AttachedMediaView {
            use_cnt: self.use_cnt as int,
            attach_dir: self.attach_dir@,
            mirrors: url_texts(self.mirrors@),
            spec: self.spec@,
            requests_running: keys_of(self.requests_running@),
        }
    }
}

/// The driver for `http` and `https` mirrors.
pub struct MediaHttpDriver {
    next_attach_id: u32,
    attached_media: HashMap<u32, AttachedMedia>,
}

/// The mathematical values of the attachments of a table.
spec fn views(table: Map<u32, AttachedMedia>) -> Map<u32, AttachedMediaView> {
    table.map_values(|e: AttachedMedia| e@)
}

/// In every attachment of the table every running request is listed once.
spec fn listed_once(table: Map<u32, AttachedMedia>) -> bool {
    forall|id: u32| #[trigger]
        table.contains_key(id) ==> distinct_keys(table[id].requests_running@)
}

proof fn lemma_keys_contains(paths: Seq<String>, key: PathKey)
    ensures
        keys_of(paths).contains(key) <==> exists|j: int|
            0 <= j < paths.len() && path_components(#[trigger] paths[j]@) == key,
{
    let m = paths.map_values(|p: String| path_components(p@));
    if keys_of(paths).contains(key) {
        assert(m.contains(key));
        let j = choose|j: int| 0 <= j < m.len() && m[j] == key;
        assert(path_components(paths[j]@) == key);
    }
    if exists|j: int| 0 <= j < paths.len() && path_components(#[trigger] paths[j]@) == key {
        let j = choose|j: int| 0 <= j < paths.len() && path_components(#[trigger] paths[j]@) == key;
        assert(m[j] == key);
        assert(m.contains(key));
    }
}

proof fn lemma_keys_push(paths: Seq<String>, p: String)
    ensures
        keys_of(paths.push(p)) =~= keys_of(paths).insert(path_components(p@)),
{
    let q = paths.push(p);
    assert forall|k: PathKey| keys_of(q).contains(k) <==> keys_of(paths).insert(
        path_components(p@),
    ).contains(k) by {
        lemma_keys_contains(q, k);
        lemma_keys_contains(paths, k);
        if keys_of(q).contains(k) {
            let j = choose|j: int| 0 <= j < q.len() && path_components(#[trigger] q[j]@) == k;
            if j < paths.len() {
                assert(path_components(paths[j]@) == k);
            }
        }
        if keys_of(paths).contains(k) {
            let j = choose|j: int|
                0 <= j < paths.len() && path_components(#[trigger] paths[j]@) == k;
            assert(path_components(q[j]@) == k);
        }
        if k == path_components(p@) {
            assert(path_components(q[paths.len() as int]@) == k);
        }
    }
}

proof fn lemma_keys_remove(paths: Seq<String>, i: int)
    requires
        distinct_keys(paths),
        0 <= i < paths.len(),
    ensures
        keys_of(paths.remove(i)) =~= keys_of(paths).remove(path_components(paths[i]@)),
        distinct_keys(paths.remove(i)),
{
    let q = paths.remove(i);
    let gone = path_components(paths[i]@);
    assert forall|k: PathKey| keys_of(q).contains(k) <==> keys_of(paths).remove(gone).contains(
        k,
    ) by {
        lemma_keys_contains(q, k);
        lemma_keys_contains(paths, k);
        if keys_of(q).contains(k) {
            let j = choose|j: int| 0 <= j < q.len() && path_components(#[trigger] q[j]@) == k;
            if j < i {
                assert(path_components(paths[j]@) == k);
                assert(path_components(paths[j]@) != path_components(paths[i]@));
            } else {
                assert(q[j] == paths[j + 1]);
                assert(path_components(paths[j + 1]@) == k);
                assert(path_components(paths[i]@) != path_components(paths[j + 1]@));
            }
        }
        if keys_of(paths).contains(k) && k != gone {
            let j = choose|j: int|
                0 <= j < paths.len() && path_components(#[trigger] paths[j]@) == k;
            if j < i {
                assert(path_components(q[j]@) == k);
            } else {
                assert(q[j - 1] == paths[j]);
                assert(path_components(q[j - 1]@) == k);
            }
        }
    }
    assert forall|a: int, b: int| 0 <= a < b < q.len() implies path_components(
        #[trigger] q[a]@,
    ) != path_components(#[trigger] q[b]@) by {
        let a2 = if a < i { a } else { a + 1 };
        let b2 = if b < i { b } else { b + 1 };
        assert(q[a] == paths[a2]);
        assert(q[b] == paths[b2]);
        assert(path_components(paths[a2]@) != path_components(paths[b2]@));
    }
}

/// Putting an attachment into the table puts its value into the values.
proof fn lemma_put(table: Map<u32, AttachedMedia>, id: u32, e: AttachedMedia)
    requires
        listed_once(table),
        distinct_keys(e.requests_running@),
    ensures
        listed_once(table.insert(id, e)),
        listed_once(table.remove(id).insert(id, e)),
        views(table.insert(id, e)) == views(table).insert(id, e@),
        views(table.remove(id).insert(id, e)) == views(table).insert(id, e@),
{
    assert(table.remove(id).insert(id, e) =~= table.insert(id, e));
    assert(views(table.insert(id, e)) =~= views(table).insert(id, e@));
    assert forall|k: u32| #[trigger] table.insert(id, e).contains_key(k) implies distinct_keys(
        table.insert(id, e)[k].requests_running@,
    ) by {
        if k != id {
            assert(table.contains_key(k));
        }
    }
}

/// Taking an attachment out of the table takes its value out of the values.
proof fn lemma_take(table: Map<u32, AttachedMedia>, id: u32)
    requires
        listed_once(table),
    ensures
        listed_once(table.remove(id)),
        views(table.remove(id)) == views(table).remove(id),
{
    assert(views(table.remove(id)) =~= views(table).remove(id));
    assert forall|k: u32| #[trigger] table.remove(id).contains_key(k) implies distinct_keys(
        table.remove(id)[k].requests_running@,
    ) by {
        assert(table.contains_key(k));
    }
}

impl View for MediaHttpDriver {
    type V = DriverView;

    closed spec fn view(&self) -> DriverView {
        DriverView {
            next_attach_id: self.next_attach_id,
            attached: views(self.attached_media@),
        }
    }
}

/// What an attach did.
#[derive(Clone, Copy, Debug, PartialEq, Eq)]
pub struct Attached {
    /// The id of the attachment.
    pub id: u32,
    /// Whether the attachment was made by this call, so that the scratch
    /// directory handed in is now its directory.
    pub fresh: bool,
}

fn same_first(a: &Vec<Url>, b: &Vec<Url>) -> (r: bool)
    ensures
        r == (first_mirror(url_texts(a@)) == first_mirror(url_texts(b@))),
{
    if a.len() == 0 {
        b.len() == 0
    } else if b.len() == 0 {
        false
    } else {
        urls_equal(&a[0], &b[0])
    }
}

fn entry_serves(e: &AttachedMedia, urls: &Vec<Url>, spec: &MediaSpec) -> (r: bool)
    ensures
        r == serves(e@.spec, e@.mirrors, url_texts(urls@), spec@),
{
    match e.spec.is_same_medium(spec) {
        Tribool::Indeterminate => same_first(urls, &e.mirrors),
        Tribool::True => true,
        Tribool::False => false,
    }
}

#[verifier::loop_isolation(false)]
fn find_running(e: &AttachedMedia, path: &str) -> (r: Option<usize>)
    ensures
        match r {
            Some(j) => {
                &&& j < e.requests_running@.len()
                &&& path_components(e.requests_running@[j as int]@) == path_components(path@)
                &&& e@.requests_running.contains(path_components(path@))
            },
            None => !e@.requests_running.contains(path_components(path@)),
        },
{
    let running = &e.requests_running;
    proof {
        lemma_keys_contains(running@, path_components(path@));
    }
    let mut j: usize = 0;
    while j < running.len()
        invariant
            j <= running@.len(),
            forall|k: int|
                0 <= k < j ==> path_components(#[trigger] running@[k]@) != path_components(path@),
        decreases running@.len() - j,
    {
        if paths_equal(running[j].as_str(), path) {
            return Some(j);
        }
        j = j + 1;
    }
    None
}

/// What a request for a download finds.
pub(crate) enum Claim {
    /// The attachment is gone.
    Gone,
    /// Somebody else is downloading the file.
    Busy,
    /// The download is now the asker's, from these mirrors in this order.
    Granted(Vec<Url>),
}

impl MediaHttpDriver {
    /// The driver's internal consistency: every running request is listed
    /// once, and the state is one that the driver can reach.
    pub closed spec fn inv(&self) -> bool {
        &&& listed_once(self.attached_media@)
        &&& self@.wf()
    }

    /// A consistent driver is in a well-formed state.
    pub proof fn lemma_inv_wf(&self)
        requires
            self.inv(),
        ensures
            self@.wf(),
    {
    }

    /// A driver without attachments.
    pub fn new() -> (d: Self)
        ensures
            d.inv(),
            d@ == (DriverView { next_attach_id: 1, attached: Map::empty() }),
    {
        broadcast use vstd::std_specs::hash::group_hash_axioms;

        let d = MediaHttpDriver { next_attach_id: 1, attached_media: HashMap::new() };
        assert(d@.attached =~= Map::empty());
        d
    }

    /// The URL schemes that this driver serves: `http` and `https`.
    pub fn schemes(&self) -> (r: Vec<String>)
        ensures
            r@.len() == 2,
            r@[0]@ == "http"@,
            r@[1]@ == "https"@,
    {
        let mut r: Vec<String> = Vec::new();
        r.push(String::from_str("http"));
        r.push(String::from_str("https"));
        r
    }

    fn entry(&self, id: u32) -> (r: Option<&AttachedMedia>)
        ensures
            match r {
                Some(e) => self@.attached.contains_key(id) && self@.attached[id] == e@
                    && self.attached_media@.contains_key(id) && self.attached_media@[id] == *e,
                None => !self@.attached.contains_key(id),
            },
    {
        broadcast use vstd::std_specs::hash::group_hash_axioms;

        self.attached_media.get(&id)
    }

    /// The attachment that serves the medium `spec` at the mirrors `urls`.
    pub fn lookup(&self, urls: &Vec<Url>, spec: &MediaSpec) -> (r: Option<u32>)
        requires
            self.inv(),
        ensures
            r == self@.lookup(url_texts(urls@), spec@),
    {
        broadcast use vstd::std_specs::hash::group_hash_axioms;

        let ghost texts = url_texts(urls@);
        let ghost ids = self.attached_media.keys().remaining();
        for id in it: self.attached_media.keys()
            invariant
                self.inv(),
                texts == url_texts(urls@),
                it.seq() == ids,
                forall|j: int| 0 <= j < it.index() ==> !self@.serves_at(*ids[j], texts, spec@),
        {
            assert(ids.unref().to_set().contains(*id));
            match self.attached_media.get(id) {
                Some(e) => {
                    if entry_serves(e, urls, spec) {
                        proof {
                            assert(self@.serves_at(*id, texts, spec@));
                            let chosen = choose|c: u32| self@.serves_at(c, texts, spec@);
                            lemma_serving_attachment_unique(self@, chosen, *id, texts, spec@);
                        }
                        return Some(*id);
                    }
                },
                None => {},
            }
        }
        proof {
            assert forall|id: u32| !self@.serves_at(id, texts, spec@) by {
                if self@.attached.contains_key(id) {
                    assert(ids.unref().to_set().contains(id));
                    let j = choose|j: int| 0 <= j < ids.unref().len() && ids.unref()[j] == id;
                    assert(*ids[j] == id);
                }
            }
        }
        None
    }

    /// Whether the attachment `id` exists.
    pub fn is_attached(&self, id: u32) -> (r: bool)
        ensures
            r == self@.attached.contains_key(id),
    {
        self.entry(id).is_some()
    }

    /// How many users hold the attachment `id`.
    pub fn use_count(&self, id: u32) -> (r: Option<i64>)
        ensures
            match r {
                Some(n) => self@.attached.contains_key(id) && n == self@.attached[id].use_cnt,
                None => !self@.attached.contains_key(id),
            },
    {
        match self.entry(id) {
            Some(e) => Some(e.use_cnt),
            None => None,
        }
    }

    /// The scratch directory of the attachment `id`.
    pub fn attach_dir(&self, id: u32) -> (r: Option<String>)
        ensures
            match r {
                Some(dir) => self@.attached.contains_key(id) && dir@
                    == self@.attached[id].attach_dir,
                None => !self@.attached.contains_key(id),
            },
    {
        match self.entry(id) {
            Some(e) => Some(e.attach_dir.clone()),
            None => None,
        }
    }

    /// The id that was handed out last.
    pub fn last_attach_id(&self) -> (r: u32)
        ensures
            r == self@.next_attach_id,
    {
        self.next_attach_id
    }

    /// Whether an attach of the medium `spec` at `urls` stays within the
    /// range of the counters.
    pub fn can_attach(&self, urls: &Vec<Url>, spec: &MediaSpec) -> (r: bool)
        requires
            self.inv(),
        ensures
            r == self@.can_attach(url_texts(urls@), spec@),
    {
        match self.lookup(urls, spec) {
            Some(id) => {
                assert(self@.serves_at(id, url_texts(urls@), spec@));
                match self.entry(id) {
                    Some(e) => e.use_cnt < i64::MAX,
                    None => false,
                }
            },
            None => self.next_attach_id < u32::MAX,
        }
    }

    /// Takes the attachment `id` out of the table, to be changed and put
    /// back.
    fn take(&mut self, id: u32) -> (r: Option<AttachedMedia>)
        requires
            old(self).inv(),
        ensures
            final(self).next_attach_id == old(self).next_attach_id,
            final(self).attached_media@ == old(self).attached_media@.remove(id),
            listed_once(final(self).attached_media@),
            views(final(self).attached_media@) == old(self)@.attached.remove(id),
            match r {
                Some(e) => old(self)@.attached.contains_key(id) && old(self)@.attached[id] == e@
                    && old(self).attached_media@[id] == e && distinct_keys(e.requests_running@),
                None => !old(self)@.attached.contains_key(id),
            },
    {
        broadcast use vstd::std_specs::hash::group_hash_axioms;

        proof {
            lemma_take(self.attached_media@, id);
        }
        self.attached_media.remove(&id)
    }

    /// Puts an attachment into the table under `id`.
    fn put(&mut self, id: u32, e: AttachedMedia)
        requires
            listed_once(old(self).attached_media@),
            distinct_keys(e.requests_running@),
        ensures
            final(self).next_attach_id == old(self).next_attach_id,
            final(self).attached_media@ == old(self).attached_media@.insert(id, e),
            listed_once(final(self).attached_media@),
            views(final(self).attached_media@) == views(old(self).attached_media@).insert(id, e@),
    {
        broadcast use vstd::std_specs::hash::group_hash_axioms;

        proof {
            lemma_put(self.attached_media@, id, e);
        }
        let _ = self.attached_media.insert(id, e);
    }

    /// Attaches the medium `spec` at the mirrors `urls`. Where an
    /// attachment serves that medium already, it gets one more use and its
    /// id is returned; `scratch_dir` is then left unused. Otherwise a new
    /// attachment is made under the next id, with `scratch_dir` as the
    /// directory that its files go to.
    pub fn attach(&mut self, urls: Vec<Url>, spec: MediaSpec, scratch_dir: String) -> (r: Attached)
        requires
            old(self).inv(),
            old(self)@.can_attach(url_texts(urls@), spec@),
        ensures
            final(self).inv(),
            final(self)@ == old(self)@.attach(url_texts(urls@), spec@, scratch_dir@),
            r.id == old(self)@.attach_id(url_texts(urls@), spec@),
            r.fresh == (old(self)@.lookup(url_texts(urls@), spec@) is None),
    {
        proof {
            lemma_attach_wf(old(self)@, url_texts(urls@), spec@, scratch_dir@);
        }
        match self.lookup(&urls, &spec) {
            Some(id) => {
                assert(self@.serves_at(id, url_texts(urls@), spec@));
                let _ = self.pin(id);
                Attached { id, fresh: false }
            },
            None => {
                let id = self.next_attach_id + 1;
                let entry = AttachedMedia {
                    use_cnt: 1,
                    attach_dir: scratch_dir,
                    mirrors: urls,
                    spec,
                    requests_running: Vec::new(),
                };
                proof {
                    assert(keys_of(entry.requests_running@) =~= Set::<PathKey>::empty()) by {
                        assert forall|k: PathKey| !keys_of(entry.requests_running@).contains(
                            k,
                        ) by {
                            lemma_keys_contains(entry.requests_running@, k);
                        }
                    }
                }
                self.put(id, entry);
                self.next_attach_id = id;
                Attached { id, fresh: true }
            },
        }
    }

    /// Gives up one use of the attachment `id`. When that was the last use
    /// the attachment goes, and its scratch directory is returned for
    /// removal. An unknown id is an invalid handle.
    pub fn detach(&mut self, id: u32) -> (r: Result<Option<String>, MediaError>)
        requires
            old(self).inv(),
        ensures
            final(self).inv(),
            final(self)@ == old(self)@.unpin(id),
            match r {
                Ok(dir) => old(self)@.attached.contains_key(id) && opt_text(dir) == old(
                    self,
                )@.evicts(id),
                Err(e) => !old(self)@.attached.contains_key(id) && e
                    == MediaError::InvalidHandle,
            },
    {
        if self.is_attached(id) {
            Ok(self.unpin(id))
        } else {
            Err(MediaError::InvalidHandle)
        }
    }

    /// Takes one more use of the attachment `id` and returns its scratch
    /// directory.
    pub(crate) fn pin(&mut self, id: u32) -> (r: Option<String>)
        requires
            old(self).inv(),
            old(self)@.can_pin(id),
        ensures
            final(self).inv(),
            final(self)@ == old(self)@.pin(id),
            match r {
                Some(dir) => old(self)@.attached.contains_key(id) && dir@
                    == old(self)@.attached[id].attach_dir,
                None => !old(self)@.attached.contains_key(id),
            },
    {
        proof {
            lemma_pin_wf(old(self)@, id);
        }
        match self.take(id) {
            Some(mut e) => {
                let dir = e.attach_dir.clone();
                e.use_cnt = e.use_cnt + 1;
                self.put(id, e);
                assert(self@.attached =~= old(self)@.pin(id).attached);
                Some(dir)
            },
            None => {
                assert(self@.attached =~= old(self)@.attached);
                None
            },
        }
    }

    /// Gives up one use of the attachment `id`, if it still exists, and
    /// returns the scratch directory of an attachment that went with it.
    pub(crate) fn unpin(&mut self, id: u32) -> (r: Option<String>)
        requires
            old(self).inv(),
        ensures
            final(self).inv(),
            final(self)@ == old(self)@.unpin(id),
            opt_text(r) == old(self)@.evicts(id),
    {
        proof {
            lemma_unpin_wf(old(self)@, id);
        }
        match self.take(id) {
            Some(mut e) => {
                if e.use_cnt - 1 <= 0 {
                    assert(self@.attached =~= old(self)@.unpin(id).attached);
                    Some(e.attach_dir)
                } else {
                    e.use_cnt = e.use_cnt - 1;
                    self.put(id, e);
                    assert(self@.attached =~= old(self)@.unpin(id).attached);
                    None
                }
            },
            None => {
                assert(self@.attached =~= old(self)@.attached);
                None
            },
        }
    }

    /// Asks for the download of `path` from the attachment `id`.
    pub(crate) fn claim(&mut self, id: u32, path: &str) -> (r: Claim)
        requires
            old(self).inv(),
        ensures
            final(self).inv(),
            match r {
                Claim::Gone => !old(self)@.attached.contains_key(id) && final(self)@ == old(
                    self,
                )@,
                Claim::Busy => old(self)@.in_flight(id, path_components(path@)) && final(self)@
                    == old(self)@,
                Claim::Granted(mirrors) => {
                    &&& old(self)@.attached.contains_key(id)
                    &&& !old(self)@.in_flight(id, path_components(path@))
                    &&& final(self)@ == old(self)@.claim(id, path_components(path@))
                    &&& url_texts(mirrors@) == old(self)@.attached[id].mirrors
                },
            },
    {
        let ghost key = path_components(path@);
        proof {
            lemma_claim_wf(old(self)@, id, key);
        }
        match self.take(id) {
            None => {
                assert(self@.attached =~= old(self)@.attached);
                Claim::Gone
            },
            Some(mut e) => {
                let ghost before = e;
                match find_running(&e, path) {
                    Some(_) => {
                        self.put(id, e);
                        assert(self@.attached =~= old(self)@.attached);
                        Claim::Busy
                    },
                    None => {
                        let mirrors = clone_urls(&e.mirrors);
                        let owned = String::from_str(path);
                        proof {
                            lemma_keys_push(before.requests_running@, owned);
                            lemma_keys_contains(before.requests_running@, key);
                        }
                        e.requests_running.push(owned);
                        assert(distinct_keys(e.requests_running@)) by {
                            let old_running = before.requests_running@;
                            let new_running = e.requests_running@;
                            assert forall|a: int, b: int|
                                0 <= a < b < new_running.len() implies path_components(
                                #[trigger] new_running[a]@,
                            ) != path_components(#[trigger] new_running[b]@) by {
                                if b < old_running.len() {
                                    assert(path_components(old_running[a]@) != path_components(
                                        old_running[b]@,
                                    ));
                                } else {
                                    assert(path_components(old_running[a]@) != key);
                                }
                            }
                        }
                        self.put(id, e);
                        assert(self@.attached =~= old(self)@.claim(id, key).attached);
                        Claim::Granted(mirrors)
                    },
                }
            },
        }
    }

    /// Ends the download of `path` from the attachment `id`. Returns
    /// whether the attachment still exists, so that its waiters are to be
    /// woken.
    pub(crate) fn release(&mut self, id: u32, path: &str) -> (r: bool)
        requires
            old(self).inv(),
        ensures
            final(self).inv(),
            final(self)@ == old(self)@.release(id, path_components(path@)),
            r == old(self)@.attached.contains_key(id),
    {
        let ghost key = path_components(path@);
        proof {
            lemma_release_wf(old(self)@, id, key);
        }
        match self.take(id) {
            None => {
                assert(self@.attached =~= old(self)@.attached);
                false
            },
            Some(mut e) => {
                let ghost before = e;
                match find_running(&e, path) {
                    None => {
                        assert(before@.requests_running.remove(key) =~= before@.requests_running);
                    },
                    Some(j) => {
                        proof {
                            lemma_keys_remove(before.requests_running@, j as int);
                        }
                        let _ = e.requests_running.remove(j);
                    },
                }
                self.put(id, e);
                assert(self@.attached =~= old(self)@.release(id, key).attached);
                true
            },
        }
    }
}

} // verus!
