//! The asset manager: a registry of loadable resources addressable by a
//! logical id and by their canonical source path, with reload subscriptions.

use crate::assets::Asset;
use crate::assets::AssetError;
use crate::assets::AssetErrorKind;
use crate::handle::Handle;
use crate::paths::norm_path;
use crate::paths::normalize_path;
use crate::watcher::StalePathBuffer;
use vstd::prelude::*;

verus! {

/// The kinds of failure the manager can report.
#[derive(Clone, Copy, Debug, Eq, Hash, Ord, PartialEq, PartialOrd, Structural)]
pub enum AssetManagerErrorKind {
    WatcherError,
    WatcherNotInitializedError,
    AssetReloadError,
}

/// The mathematical content of an [`AssetManagerError`].
pub struct AssetManagerErrorView {
    pub message: Seq<char>,
    pub kind: AssetManagerErrorKind,
    pub source: Option<Seq<char>>,
}

/// An error raised by the manager, carrying the rendered message of the
/// underlying cause when there is one.
#[derive(Debug)]
pub struct AssetManagerError {
    message: String,
    kind: AssetManagerErrorKind,
    source: Option<String>,
}

impl View for AssetManagerError {
    type V = AssetManagerErrorView;

    closed spec fn view(&self) -> AssetManagerErrorView {
        AssetManagerErrorView {
            message: self.message@,
            kind: self.kind,
            source: match self.source {
                Some(s) => Some(s@),
                None => None,
            },
        }
    }
}

impl AssetManagerError {
    pub fn new(message: &str, kind: AssetManagerErrorKind, source: Option<String>) -> (e:
        AssetManagerError)
        ensures
            e@.message == message@,
            e@.kind == kind,
            e@.source == (match source {
                Some(s) => Some(s@),
                None => None::<Seq<char>>,
            }),
    {
        AssetManagerError { message: message.to_owned(), kind, source }
    }

    pub fn kind(&self) -> (k: AssetManagerErrorKind)
        ensures
            k == self@.kind,
    {
        self.kind
    }

    pub fn message(&self) -> (m: String)
        ensures
            m@ == self@.message,
    {
        self.message.clone()
    }

    pub fn source_message(&self) -> (s: Option<String>)
        ensures
            self@.source is Some <==> s is Some,
            s matches Some(m) ==> self@.source == Some(m@),
    {
        match &self.source {
            Some(m) => Some(m.clone()),
            None => None,
        }
    }
}

/// A reload subscriber. Running it performs the subscriber's reaction and
/// increments its invocation count by exactly one, so that how often a
/// subscriber was notified is part of its observable state.
pub trait ReloadCallback: Sized {
    /// How often the callback has run. A verified implementation gives
    /// this its own meaning; left alone it promises nothing.
    open spec fn calls(&self) -> nat {
        arbitrary()
    }

    /// Reacts to a reload of the subscribed id.
    fn run(&mut self)
        ensures
            final(self).calls() == old(self).calls() + 1,
    ;
}

/// A subscriber that only counts how often it ran.
#[derive(Clone, Copy)]
pub struct CountingCallback {
    count: u64,
    hits: Ghost<nat>,
}

impl CountingCallback {
    #[verifier::type_invariant]
    closed spec fn inv(&self) -> bool {
        if self.hits@ <= u64::MAX as nat {
            self.count as nat == self.hits@
        } else {
            self.count == u64::MAX
        }
    }

    pub fn new() -> (c: CountingCallback)
        ensures
            c.calls() == 0,
    {
        CountingCallback { count: 0, hits: Ghost(0) }
    }

    /// The invocation count, saturated at the largest representable value.
    pub fn count(&self) -> (n: u64)
        ensures
            self.calls() <= u64::MAX ==> n == self.calls(),
            self.calls() > u64::MAX ==> n == u64::MAX,
    {
        proof {
            use_type_invariant(self);
        }
        self.count
    }
}

impl ReloadCallback for CountingCallback {
    closed spec fn calls(&self) -> nat {
        self.hits@
    }

    fn run(&mut self) {
        proof {
            use_type_invariant(&*self);
        }
        let c: u64 = if self.count < u64::MAX {
            self.count + 1
        } else {
            self.count
        };
        *self = CountingCallback { count: c, hits: Ghost(self.hits@ + 1) };
    }
}

/// One observable step in a manager's reload history: a successful reload
/// of an id, or the firing of the callback standing at a registration
/// index for that id.
pub enum ManagerEvent {
    Reloaded { id: Seq<char> },
    CallbackFired { id: Seq<char>, index: int },
}

/// The callback-firing events a reload of `id` produces: one per
/// registration for `id`, in registration order, carrying the
/// registration's position.
pub open spec fn fired_events(id: Seq<char>, reg_ids: Seq<Seq<char>>) -> Seq<ManagerEvent>
    decreases reg_ids.len(),
{
    if reg_ids.len() == 0 {
        Seq::empty()
    } else {
        let rest = fired_events(id, reg_ids.drop_last());
        if reg_ids.last() == id {
            rest.push(ManagerEvent::CallbackFired { id, index: reg_ids.len() - 1 })
        } else {
            rest
        }
    }
}

/// The whole trace of a successful reload of `id`: the reload itself, then
/// every registered callback for `id` in registration order.
pub open spec fn reload_trace(id: Seq<char>, reg_ids: Seq<Seq<char>>) -> Seq<ManagerEvent> {
    seq![ManagerEvent::Reloaded { id }] + fired_events(id, reg_ids)
}

/// Whether an event is the firing of a callback registered for `id`.
pub open spec fn is_firing_for(e: ManagerEvent, id: Seq<char>) -> bool {
    e matches ManagerEvent::CallbackFired { id: fid, index: _ } && fid == id
}

/// The registration position a firing event names; meaningless for a
/// reload event.
pub open spec fn firing_index(e: ManagerEvent) -> int {
    match e {
        ManagerEvent::CallbackFired { id: _, index } => index,
        ManagerEvent::Reloaded { id: _ } => -1,
    }
}

/// Registering N callbacks for an id and then reloading it fires all N,
/// each exactly once, in registration order: the firing trace of a reload
/// names only registrations for that id, at strictly ascending positions,
/// and every registration for the id is named.
pub proof fn lemma_fired_events_in_order(id: Seq<char>, reg_ids: Seq<Seq<char>>)
    ensures
        forall|k: int|
            0 <= k < fired_events(id, reg_ids).len() ==> is_firing_for(
                #[trigger] fired_events(id, reg_ids)[k],
                id,
            ) && 0 <= firing_index(fired_events(id, reg_ids)[k]) < reg_ids.len() && reg_ids[
                firing_index(fired_events(id, reg_ids)[k])
            ] == id,
        forall|k1: int, k2: int|
            0 <= k1 < k2 < fired_events(id, reg_ids).len() ==> firing_index(
                #[trigger] fired_events(id, reg_ids)[k1],
            ) < firing_index(#[trigger] fired_events(id, reg_ids)[k2]),
        forall|j: int|
            0 <= j < reg_ids.len() && reg_ids[j] == id ==> exists|k: int|
                0 <= k < fired_events(id, reg_ids).len() && firing_index(
                    #[trigger] fired_events(id, reg_ids)[k],
                ) == j,
    decreases reg_ids.len(),
{
    if reg_ids.len() > 0 {
        lemma_fired_events_in_order(id, reg_ids.drop_last());
        let rest = fired_events(id, reg_ids.drop_last());
        let fe = fired_events(id, reg_ids);
        assert forall|j: int| 0 <= j < reg_ids.len() && reg_ids[j] == id implies exists|k: int|
            0 <= k < fe.len() && firing_index(#[trigger] fe[k]) == j by {
            if j < reg_ids.len() - 1 {
                assert(reg_ids.drop_last()[j] == id);
                let k = choose|k: int| 0 <= k < rest.len() && firing_index(#[trigger] rest[k]) == j;
                assert(fe[k] == rest[k]);
            } else {
                assert(reg_ids.last() == id);
                assert(firing_index(fe[fe.len() - 1]) == j);
            }
        }
    }
}

/// The events one coordinator pass over `paths` produces against a
/// registry with entries `es` and registration ids `reg_ids`: for each
/// path that, brought to canonical form, resolves through the reverse
/// index, the trace of reloading the resolved id; unresolved paths
/// contribute nothing.
pub open spec fn batch_trace(
    es: Seq<(Seq<char>, Seq<char>)>,
    reg_ids: Seq<Seq<char>>,
    paths: Seq<Seq<char>>,
) -> Seq<ManagerEvent>
    decreases paths.len(),
{
    if paths.len() == 0 {
        Seq::empty()
    } else {
        let rest = batch_trace(es, reg_ids, paths.drop_last());
        let p = norm_path(paths.last());
        if has_path_in(es, p) {
            rest + reload_trace(id_for_path_in(es, p), reg_ids)
        } else {
            rest
        }
    }
}

/// How many times one coordinator pass over `paths` reloads the asset
/// `id`: the number of paths that, brought to canonical form, resolve to
/// `id` through the reverse index of `es`.
pub open spec fn reload_count(
    es: Seq<(Seq<char>, Seq<char>)>,
    paths: Seq<Seq<char>>,
    id: Seq<char>,
) -> nat
    decreases paths.len(),
{
    if paths.len() == 0 {
        0
    } else {
        let rest = reload_count(es, paths.drop_last(), id);
        let p = norm_path(paths.last());
        if has_path_in(es, p) && id_for_path_in(es, p) == id {
            rest + 1
        } else {
            rest
        }
    }
}

/// The effect of firing the callbacks for `id` once: every registration
/// keeps its id and its position; those for `id` have run exactly once
/// more, and every other one is untouched.
pub open spec fn fired_once<C: ReloadCallback>(
    pre: Seq<(Seq<char>, C)>,
    post: Seq<(Seq<char>, C)>,
    id: Seq<char>,
) -> bool {
    &&& post.len() == pre.len()
    &&& forall|j: int|
        0 <= j < pre.len() ==> (#[trigger] post[j]).0 == pre[j].0 && (pre[j].0 == id
            ==> post[j].1.calls() == pre[j].1.calls() + 1) && (pre[j].0 != id ==> post[j].1
            == pre[j].1)
}

/// A registration list with every registration for `id` removed; the rest
/// keep their order.
pub open spec fn drop_registrations_for<C>(regs: Seq<(Seq<char>, C)>, id: Seq<char>) -> Seq<
    (Seq<char>, C),
>
    decreases regs.len(),
{
    if regs.len() == 0 {
        Seq::empty()
    } else {
        let rest = drop_registrations_for(regs.drop_last(), id);
        if regs.last().0 == id {
            rest
        } else {
            rest.push(regs.last())
        }
    }
}

/// Uniqueness of an entry list: no id and no path occurs twice.
pub open spec fn entries_unique(es: Seq<(Seq<char>, Seq<char>)>) -> bool {
    forall|i: int, j: int|
        0 <= i < j < es.len() ==> es[i].0 != es[j].0 && es[i].1 != es[j].1
}

/// Whether an entry list holds an entry for `id`.
pub open spec fn has_id_in(es: Seq<(Seq<char>, Seq<char>)>, id: Seq<char>) -> bool {
    exists|i: int| 0 <= i < es.len() && es[i].0 == id
}

/// The index of the entry for `id`.
pub open spec fn id_index_in(es: Seq<(Seq<char>, Seq<char>)>, id: Seq<char>) -> int {
    choose|i: int| 0 <= i < es.len() && es[i].0 == id
}

/// Whether an entry list holds an entry whose path is `p`.
pub open spec fn has_path_in(es: Seq<(Seq<char>, Seq<char>)>, p: Seq<char>) -> bool {
    exists|i: int| 0 <= i < es.len() && es[i].1 == p
}

/// The index of the entry whose path is `p`.
pub open spec fn path_index_in(es: Seq<(Seq<char>, Seq<char>)>, p: Seq<char>) -> int {
    choose|i: int| 0 <= i < es.len() && es[i].1 == p
}

/// The id of the entry whose path is `p`.
pub open spec fn id_for_path_in(es: Seq<(Seq<char>, Seq<char>)>, p: Seq<char>) -> Seq<char> {
    es[path_index_in(es, p)].0
}

/// An entry list with the entry for `id` removed, when there is one.
pub open spec fn remove_id_entry(es: Seq<(Seq<char>, Seq<char>)>, id: Seq<char>) -> Seq<
    (Seq<char>, Seq<char>),
> {
    if has_id_in(es, id) {
        es.remove(id_index_in(es, id))
    } else {
        es
    }
}

/// An entry list with the entry whose path is `p` removed, when there is one.
pub open spec fn remove_path_entry(es: Seq<(Seq<char>, Seq<char>)>, p: Seq<char>) -> Seq<
    (Seq<char>, Seq<char>),
> {
    if has_path_in(es, p) {
        es.remove(path_index_in(es, p))
    } else {
        es
    }
}

proof fn lemma_remove_preserves_unique(es: Seq<(Seq<char>, Seq<char>)>, i: int)
    requires
        entries_unique(es),
        0 <= i < es.len(),
    ensures
        entries_unique(es.remove(i)),
{
    let post = es.remove(i);
    assert forall|k1: int, k2: int| 0 <= k1 < k2 < post.len() implies post[k1].0 != post[k2].0
        && post[k1].1 != post[k2].1 by {
        let m1: int = if k1 < i {
            k1
        } else {
            k1 + 1
        };
        let m2: int = if k2 < i {
            k2
        } else {
            k2 + 1
        };
        assert(post[k1] == es[m1]);
        assert(post[k2] == es[m2]);
    }
}

proof fn lemma_remove_unique_id(es: Seq<(Seq<char>, Seq<char>)>, id: Seq<char>)
    requires
        entries_unique(es),
        has_id_in(es, id),
    ensures
        !has_id_in(es.remove(id_index_in(es, id)), id),
        entries_unique(es.remove(id_index_in(es, id))),
{
    let ci = id_index_in(es, id);
    assert(0 <= ci < es.len() && es[ci].0 == id);
    let post = es.remove(ci);
    assert forall|k: int| 0 <= k < post.len() implies post[k].0 != id by {
        let m: int = if k < ci {
            k
        } else {
            k + 1
        };
        assert(post[k] == es[m]);
    }
    lemma_remove_preserves_unique(es, ci);
}

proof fn lemma_remove_unique_path(es: Seq<(Seq<char>, Seq<char>)>, p: Seq<char>)
    requires
        entries_unique(es),
        has_path_in(es, p),
    ensures
        !has_path_in(es.remove(path_index_in(es, p)), p),
        entries_unique(es.remove(path_index_in(es, p))),
{
    let ci = path_index_in(es, p);
    assert(0 <= ci < es.len() && es[ci].1 == p);
    let post = es.remove(ci);
    assert forall|k: int| 0 <= k < post.len() implies post[k].1 != p by {
        let m: int = if k < ci {
            k
        } else {
            k + 1
        };
        assert(post[k] == es[m]);
    }
    lemma_remove_preserves_unique(es, ci);
}

proof fn lemma_remove_keeps_id_absent(es: Seq<(Seq<char>, Seq<char>)>, x: int, id: Seq<char>)
    requires
        0 <= x < es.len(),
        !has_id_in(es, id),
    ensures
        !has_id_in(es.remove(x), id),
{
    let post = es.remove(x);
    assert forall|k: int| 0 <= k < post.len() implies post[k].0 != id by {
        let m: int = if k < x {
            k
        } else {
            k + 1
        };
        assert(post[k] == es[m]);
    }
}

#[verifier::reject_recursive_types(A)]
struct AssetEntry<A> {
    id: String,
    path: String,
    handle: Handle<A>,
}

struct CallbackEntry<C> {
    id: String,
    callback: C,
}

/// The registry: a forward map from logical id to a shared resource
/// handle, a reverse index from canonical source path to id, a list of
/// reload subscriptions, and a history of the reloads performed.
///
/// The forward map and the reverse index are one list of entries, each
/// carrying an id, a path and a handle, so the two can never disagree;
/// [`Self::wf`] states that ids and paths are each unique.
#[verifier::reject_recursive_types(A)]
#[verifier::reject_recursive_types(C)]
pub struct AssetManager<A: Asset, C: ReloadCallback> {
    assets: Vec<AssetEntry<A>>,
    callbacks: Vec<CallbackEntry<C>>,
    history: Ghost<Seq<ManagerEvent>>,
}

impl<A: Asset, C: ReloadCallback> AssetManager<A, C> {
    /// The registry as (id, canonical path) pairs, in insertion order.
    pub closed spec fn entries(&self) -> Seq<(Seq<char>, Seq<char>)> {
        self.assets@.map_values(|e: AssetEntry<A>| (e.id@, e.path@))
    }

    /// The stored resource handles, in insertion order: the cell at
    /// position `i` belongs to the entry at position `i` of
    /// [`Self::entries`]. A handle is an opaque cell identity, so equality
    /// here means sharing the same cell.
    pub closed spec fn handles(&self) -> Seq<Handle<A>> {
        self.assets@.map_values(|e: AssetEntry<A>| e.handle)
    }

    /// The reload subscriptions as (id, callback) pairs, in registration
    /// order.
    pub closed spec fn registrations(&self) -> Seq<(Seq<char>, C)> {
        self.callbacks@.map_values(|e: CallbackEntry<C>| (e.id@, e.callback))
    }

    /// The ids the subscriptions are registered for, in registration order.
    pub open spec fn registration_ids(&self) -> Seq<Seq<char>> {
        self.registrations().map_values(|r: (Seq<char>, C)| r.0)
    }

    /// The history of reloads performed and callbacks fired, oldest first.
    pub closed spec fn history(&self) -> Seq<ManagerEvent> {
        self.history@
    }

    /// Well-formedness: no id and no path occurs twice in the registry.
    pub open spec fn wf(&self) -> bool {
        entries_unique(self.entries())
    }

    /// Whether an asset is registered under `id`.
    pub open spec fn has_id(&self, id: Seq<char>) -> bool {
        has_id_in(self.entries(), id)
    }

    /// The canonical path of the asset registered under `id`.
    pub open spec fn path_of(&self, id: Seq<char>) -> Seq<char> {
        self.entries()[id_index_in(self.entries(), id)].1
    }

    /// Whether some asset was loaded from canonical path `p`.
    pub open spec fn has_path(&self, p: Seq<char>) -> bool {
        has_path_in(self.entries(), p)
    }

    /// The id of the asset loaded from canonical path `p`.
    pub open spec fn id_of_path(&self, p: Seq<char>) -> Seq<char> {
        id_for_path_in(self.entries(), p)
    }

    /// The forward map, id to canonical path.
    pub open spec fn forward_map(&self) -> Map<Seq<char>, Seq<char>> {
        Map::new(|id: Seq<char>| self.has_id(id), |id: Seq<char>| self.path_of(id))
    }

    /// The reverse index, canonical path to id.
    pub open spec fn reverse_map(&self) -> Map<Seq<char>, Seq<char>> {
        Map::new(|p: Seq<char>| self.has_path(p), |p: Seq<char>| self.id_of_path(p))
    }

    /// A fresh manager: no assets, no subscriptions, nothing reloaded yet.
    pub fn new() -> (r: Result<AssetManager<A, C>, AssetManagerError>)
        ensures
            r matches Ok(m) ==> m.wf() && m.entries().len() == 0 && m.registrations().len() == 0
                && m.history().len() == 0,
            r is Ok,
    {
        let m = AssetManager {
            assets: Vec::new(),
            callbacks: Vec::new(),
            history: Ghost(Seq::empty()),
        };
        proof {
            assert(m.entries() =~= Seq::<(Seq<char>, Seq<char>)>::empty());
            assert(m.registrations() =~= Seq::<(Seq<char>, C)>::empty());
        }
        Ok(m)
    }

    /// The position of the asset registered under `id`, when there is one.
    fn find_asset(&self, id: &str) -> (r: Option<usize>)
        ensures
            match r {
                Some(i) => i < self.entries().len() && self.entries()[i as int].0 == id@,
                None => !self.has_id(id@),
            },
    {
        let id_owned = id.to_owned();
        let n = self.assets.len();
        let mut j: usize = 0;
        while j < n
            invariant
                0 <= j <= n,
                n == self.assets@.len(),
                id_owned@ == id@,
                forall|k: int| 0 <= k < j ==> self.entries()[k].0 != id@,
            decreases n - j,
        {
            if self.assets[j].id == id_owned {
                assert(self.entries()[j as int].0 == id@);
                return Some(j);
            }
            assert(self.entries()[j as int].0 == self.assets@[j as int].id@);
            j = j + 1;
        }
        None
    }

    /// The position of the asset loaded from canonical path `p`, when
    /// there is one.
    fn find_asset_by_path(&self, p: &str) -> (r: Option<usize>)
        ensures
            match r {
                Some(i) => i < self.entries().len() && self.entries()[i as int].1 == p@,
                None => !self.has_path(p@),
            },
    {
        let p_owned = p.to_owned();
        let n = self.assets.len();
        let mut j: usize = 0;
        while j < n
            invariant
                0 <= j <= n,
                n == self.assets@.len(),
                p_owned@ == p@,
                forall|k: int| 0 <= k < j ==> self.entries()[k].1 != p@,
            decreases n - j,
        {
            if self.assets[j].path == p_owned {
                assert(self.entries()[j as int].1 == p@);
                return Some(j);
            }
            assert(self.entries()[j as int].1 == self.assets@[j as int].path@);
            j = j + 1;
        }
        None
    }

    /// Loads a resource under `id` from `file_path`, and returns a clone
    /// of its shared handle.
    ///
    /// The path is first brought to its canonical form, which the asset is
    /// constructed from and the reverse index is keyed by. Loading under an
    /// id that already exists, or from a path that already backs another
    /// entry, replaces the prior entry: its resource is destroyed first —
    /// never silently orphaned — and the entry leaves both maps. The
    /// returned handle is a clone of the very cell stored in the new
    /// entry. On any error the registry is unchanged; when neither the id
    /// nor the canonical path was taken, the only possible error is the
    /// construct's own, with its kind.
    pub fn load_asset(&mut self, id: &str, file_path: &str) -> (r: Result<Handle<A>, AssetError>)
        requires
            old(self).wf(),
        ensures
            final(self).wf(),
            final(self).registrations() == old(self).registrations(),
            final(self).history() == old(self).history(),
            match r {
                Ok(_) => final(self).entries() == remove_path_entry(
                    remove_id_entry(old(self).entries(), id@),
                    norm_path(file_path@),
                ).push((id@, norm_path(file_path@))),
                Err(_) => final(self).entries() == old(self).entries(),
            },
            r matches Ok(h) ==> final(self).handles().len() == final(self).entries().len() && h
                == final(self).handles().last(),
            !old(self).has_id(id@) && !old(self).has_path(norm_path(file_path@)) ==> (r matches Err(
                e,
            ) ==> e@.kind == AssetErrorKind::LoadingFailed || e@.kind
                == AssetErrorKind::InvalidFileExtension),
    {
        let npath = normalize_path(file_path);
        let asset = match A::new(id, npath.as_str()) {
            Ok(a) => a,
            Err(e) => {
                return Err(e);
            },
        };
        let ghost es0 = old(self).entries();
        let i_opt = self.find_asset(id);
        match i_opt {
            Some(i) => {
                proof {
                    assert(es0[i as int].0 == id@);
                    assert(has_id_in(es0, id@));
                }
                match self.assets[i].handle.destroy() {
                    Err(e) => {
                        return Err(e);
                    },
                    Ok(_) => {},
                }
            },
            None => {},
        }
        let j_opt = self.find_asset_by_path(npath.as_str());
        match j_opt {
            Some(j) => {
                proof {
                    assert(es0[j as int].1 == norm_path(file_path@));
                    assert(has_path_in(es0, norm_path(file_path@)));
                }
                let same = match i_opt {
                    Some(i) => i == j,
                    None => false,
                };
                if !same {
                    match self.assets[j].handle.destroy() {
                        Err(e) => {
                            return Err(e);
                        },
                        Ok(_) => {},
                    }
                }
            },
            None => {},
        }
        match i_opt {
            Some(i) => {
                let _ = self.assets.remove(i);
                proof {
                    assert(es0[i as int].0 == id@);
                    let ci = id_index_in(es0, id@);
                    assert(0 <= ci < es0.len() && es0[ci].0 == id@);
                    if ci != i as int {
                        assert(false);
                    }
                    assert(self.entries() =~= es0.remove(i as int));
                    lemma_remove_unique_id(es0, id@);
                }
            },
            None => {},
        }
        let ghost es1 = remove_id_entry(es0, id@);
        proof {
            assert(self.entries() =~= es1);
        }
        let j2_opt = self.find_asset_by_path(npath.as_str());
        match j2_opt {
            Some(j) => {
                let _ = self.assets.remove(j);
                proof {
                    assert(es1[j as int].1 == norm_path(file_path@));
                    let cj = path_index_in(es1, norm_path(file_path@));
                    assert(0 <= cj < es1.len() && es1[cj].1 == norm_path(file_path@));
                    if has_id_in(es0, id@) {
                        lemma_remove_unique_id(es0, id@);
                    }
                    if cj != j as int {
                        assert(false);
                    }
                    assert(self.entries() =~= es1.remove(j as int));
                    lemma_remove_unique_path(es1, norm_path(file_path@));
                    lemma_remove_keeps_id_absent(es1, j as int, id@);
                }
            },
            None => {},
        }
        let ghost es2 = remove_path_entry(es1, norm_path(file_path@));
        proof {
            assert(self.entries() =~= es2);
            if has_id_in(es0, id@) {
                lemma_remove_unique_id(es0, id@);
            }
            assert(entries_unique(es2));
            assert(!has_id_in(es2, id@));
            assert(!has_path_in(es2, norm_path(file_path@)));
        }
        let handle = Handle::new_cell(asset);
        let out = handle.clone();
        self.assets.push(AssetEntry { id: id.to_owned(), path: npath, handle });
        proof {
            assert(self.entries() =~= es2.push((id@, norm_path(file_path@))));
            let post = self.entries();
            assert forall|a: int, b: int| 0 <= a < b < post.len() implies post[a].0 != post[b].0
                && post[a].1 != post[b].1 by {
                if b == post.len() - 1 {
                    assert(post[a] == es2[a]);
                }
            }
            assert(self.registrations() =~= old(self).registrations());
            assert(self.handles().len() == self.assets@.len());
            assert(self.entries().len() == self.assets@.len());
            assert(self.handles().last() == self.assets@.last().handle);
            assert(self.handles().last() == out);
        }
        Ok(out)
    }

    /// A clone of the shared handle registered under `id` — the very cell
    /// the registry stores, so the caller sees every later reload through
    /// it — or nothing when the id is unknown. Never touches the
    /// resource's own lock.
    pub fn get_asset(&self, id: &str) -> (r: Option<Handle<A>>)
        ensures
            r is Some <==> self.has_id(id@),
            r matches Some(h) ==> exists|i: int|
                0 <= i < self.entries().len() && (#[trigger] self.entries()[i]).0 == id@ && h
                    == self.handles()[i],
    {
        match self.find_asset(id) {
            Some(i) => {
                let h = self.assets[i].handle.clone();
                proof {
                    assert(self.handles()[i as int] == self.assets@[i as int].handle);
                }
                Some(h)
            },
            None => None,
        }
    }

    /// The id of the asset loaded from `path`, resolved through the
    /// reverse index after bringing the path to canonical form; nothing
    /// when no asset was loaded from it.
    pub fn asset_id_for_path(&self, path: &str) -> (r: Option<String>)
        requires
            self.wf(),
        ensures
            r is Some <==> self.has_path(norm_path(path@)),
            r matches Some(s) ==> s@ == self.id_of_path(norm_path(path@)),
    {
        let np = normalize_path(path);
        match self.find_asset_by_path(np.as_str()) {
            Some(i) => {
                proof {
                    let es = self.entries();
                    assert(es[i as int].1 == np@);
                    assert(has_path_in(es, np@));
                    let j = path_index_in(es, np@);
                    assert(0 <= j < es.len() && es[j].1 == np@);
                    if j != i as int {
                        assert(false);
                    }
                    assert(self.assets@[i as int].id@ == es[i as int].0);
                }
                Some(self.assets[i].id.clone())
            },
            None => None,
        }
    }

    /// The canonical source path of the asset registered under `id`;
    /// nothing when the id is unknown.
    pub fn asset_path_for_id(&self, id: &str) -> (r: Option<String>)
        requires
            self.wf(),
        ensures
            r is Some <==> self.has_id(id@),
            r matches Some(s) ==> s@ == self.path_of(id@),
    {
        match self.find_asset(id) {
            Some(i) => {
                proof {
                    let es = self.entries();
                    assert(es[i as int].0 == id@);
                    let j = id_index_in(es, id@);
                    assert(0 <= j < es.len() && es[j].0 == id@);
                    if j != i as int {
                        assert(false);
                    }
                    assert(self.assets@[i as int].path@ == es[i as int].1);
                }
                Some(self.assets[i].path.clone())
            },
            None => None,
        }
    }

    /// The canonical source paths of every registered asset, in insertion
    /// order: what an application hands its filesystem observer so that
    /// each loaded asset's file is watched.
    pub fn asset_file_paths(&self) -> (r: Vec<String>)
        ensures
            r.deep_view() == self.entries().map_values(|e: (Seq<char>, Seq<char>)| e.1),
    {
        let ghost target = self.entries().map_values(|e: (Seq<char>, Seq<char>)| e.1);
        let n = self.assets.len();
        let mut out: Vec<String> = Vec::new();
        let mut k: usize = 0;
        proof {
            assert(out.deep_view() =~= target.take(0));
        }
        while k < n
            invariant
                0 <= k <= n,
                n == self.assets@.len(),
                target == self.entries().map_values(|e: (Seq<char>, Seq<char>)| e.1),
                target.len() == n,
                out.deep_view() == target.take(k as int),
            decreases n - k,
        {
            let ghost pre = out.deep_view();
            out.push(self.assets[k].path.clone());
            proof {
                assert(target[k as int] == self.entries()[k as int].1);
                assert(out.deep_view() =~= pre.push(self.assets@[k as int].path@));
                assert(target.take(k + 1).drop_last() =~= target.take(k as int));
                assert(target.take(k + 1).last() == target[k as int]);
                assert(out.deep_view() =~= target.take(k + 1));
            }
            k = k + 1;
        }
        proof {
            assert(target.take(n as int) =~= target);
        }
        out
    }

    /// Appends a reload subscription for `target_asset_id`. The id need not
    /// be loaded yet; earlier registrations, for any id, are kept in order.
    pub fn register_asset_reload_callback(&mut self, target_asset_id: &str, callback: C)
        ensures
            final(self).registrations() == old(self).registrations().push(
                (target_asset_id@, callback),
            ),
            final(self).entries() == old(self).entries(),
            final(self).handles() == old(self).handles(),
            final(self).history() == old(self).history(),
    {
        self.callbacks.push(CallbackEntry { id: target_asset_id.to_owned(), callback });
        proof {
            assert(self.entries() =~= old(self).entries());
            assert(self.handles() =~= old(self).handles());
            assert(self.registrations() =~= old(self).registrations().push(
                (target_asset_id@, callback),
            ));
        }
    }

    /// Fires every callback registered for `id`, in registration order,
    /// and records each firing in the history.
    fn run_callbacks(&mut self, id: &str)
        ensures
            final(self).entries() == old(self).entries(),
            final(self).handles() == old(self).handles(),
            fired_once(old(self).registrations(), final(self).registrations(), id@),
            final(self).registration_ids() == old(self).registration_ids(),
            final(self).history() == old(self).history() + fired_events(
                id@,
                old(self).registration_ids(),
            ),
    {
        let id_owned = id.to_owned();
        let n = self.callbacks.len();
        let ghost rids = old(self).registration_ids();
        proof {
            assert(fired_events(id@, rids.take(0)) =~= Seq::<ManagerEvent>::empty());
            assert(self.history@ =~= old(self).history@ + fired_events(id@, rids.take(0)));
        }
        let mut j: usize = 0;
        while j < n
            invariant
                0 <= j <= n,
                n == self.callbacks@.len(),
                self.callbacks@.len() == old(self).callbacks@.len(),
                self.assets == old(self).assets,
                id_owned@ == id@,
                rids == old(self).registration_ids(),
                rids.len() == n,
                forall|k: int| j <= k < n ==> self.callbacks@[k] == old(self).callbacks@[k],
                forall|k: int|
                    0 <= k < j ==> (#[trigger] self.callbacks@[k]).id@ == old(
                        self,
                    ).callbacks@[k].id@,
                forall|k: int|
                    0 <= k < j && old(self).callbacks@[k].id@ == id@ ==> (
                    #[trigger] self.callbacks@[k]).callback.calls() == old(
                        self,
                    ).callbacks@[k].callback.calls() + 1,
                forall|k: int|
                    0 <= k < j && old(self).callbacks@[k].id@ != id@ ==> (
                    #[trigger] self.callbacks@[k]).callback == old(self).callbacks@[k].callback,
                self.history@ == old(self).history@ + fired_events(id@, rids.take(j as int)),
            decreases n - j,
        {
            let ghost before = self.callbacks@;
            proof {
                assert(rids[j as int] == old(self).callbacks@[j as int].id@);
                assert(rids.take(j + 1).drop_last() =~= rids.take(j as int));
                assert(rids.take(j + 1).last() == rids[j as int]);
            }
            let mut entry = self.callbacks.remove(j);
            proof {
                assert(entry.id@ == rids[j as int]);
            }
            if entry.id == id_owned {
                entry.callback.run();
                self.history = Ghost(
                    self.history@ + seq![
                        ManagerEvent::CallbackFired { id: id@, index: j as int },
                    ],
                );
            }
            self.callbacks.insert(j, entry);
            proof {
                assert(self.callbacks@ =~= before.update(j as int, self.callbacks@[j as int]));
                assert(fired_events(id@, rids.take(j + 1)) == (if rids[j as int] == id@ {
                    fired_events(id@, rids.take(j as int)).push(
                        ManagerEvent::CallbackFired { id: id@, index: j as int },
                    )
                } else {
                    fired_events(id@, rids.take(j as int))
                }));
                assert(self.history@ =~= old(self).history@ + fired_events(
                    id@,
                    rids.take(j + 1),
                ));
            }
            j = j + 1;
        }
        proof {
            assert(rids.take(n as int) =~= rids);
            assert(self.entries() =~= old(self).entries());
            assert(self.handles() =~= old(self).handles());
            assert(self.registration_ids() =~= old(self).registration_ids());
            assert forall|k: int| 0 <= k < old(self).registrations().len() implies (
            #[trigger] self.registrations()[k]).0 == old(self).registrations()[k].0 && (old(
                self,
            ).registrations()[k].0 == id@ ==> self.registrations()[k].1.calls() == old(
                self,
            ).registrations()[k].1.calls() + 1) && (old(self).registrations()[k].0 != id@
                ==> self.registrations()[k].1 == old(self).registrations()[k].1) by {
                assert(self.registrations()[k].0 == self.callbacks@[k].id@);
                assert(self.registrations()[k].1 == self.callbacks@[k].callback);
            }
        }
    }

    /// The effect of a successful reload of `id`: the registry unchanged,
    /// every callback for `id` fired exactly once in registration order,
    /// and the reload with its firings appended to the history.
    pub open spec fn reload_applied(pre: Self, post: Self, id: Seq<char>) -> bool {
        &&& post.entries() == pre.entries()
        &&& post.handles() == pre.handles()
        &&& fired_once(pre.registrations(), post.registrations(), id)
        &&& post.registration_ids() == pre.registration_ids()
        &&& post.history() == pre.history() + reload_trace(id, pre.registration_ids())
    }

    /// Reloads the asset registered under `id` in place, and on success
    /// fires every callback registered for `id`, in registration order,
    /// synchronously, before returning.
    ///
    /// An unknown id is a soft result, `Ok(None)`, never an error: callers
    /// iterating over possibly stale ids must not treat it as fatal. An
    /// error — the resource's own reload failure, or its lock found
    /// poisoned — is returned as it came, with the registry, the
    /// subscriptions and the history left untouched.
    pub fn reload_asset(&mut self, id: &str) -> (r: Result<Option<()>, AssetError>)
        ensures
            final(self).entries() == old(self).entries(),
            final(self).handles() == old(self).handles(),
            !old(self).has_id(id@) ==> r == Ok::<Option<()>, AssetError>(None) && *final(self)
                == *old(self),
            old(self).has_id(id@) ==> match r {
                Ok(o) => o == Some(()) && Self::reload_applied(*old(self), *final(self), id@),
                Err(_) => *final(self) == *old(self),
            },
    {
        match self.find_asset(id) {
            None => Ok(None),
            Some(i) => {
                let outcome = self.assets[i].handle.reload();
                match outcome {
                    Ok(_) => {
                        self.history = Ghost(
                            self.history@ + seq![ManagerEvent::Reloaded { id: id@ }],
                        );
                        self.run_callbacks(id);
                        proof {
                            assert(self.history@ =~= old(self).history@ + reload_trace(
                                id@,
                                old(self).registration_ids(),
                            ));
                            assert(self.entries() =~= old(self).entries());
                            assert(self.handles() =~= old(self).handles());
                        }
                        Ok(Some(()))
                    },
                    Err(e) => Err(e),
                }
            },
        }
    }

    /// Removes every reload subscription for `id`, keeping the rest in
    /// registration order.
    fn remove_callbacks_for(&mut self, id: &str)
        ensures
            final(self).entries() == old(self).entries(),
            final(self).handles() == old(self).handles(),
            final(self).history() == old(self).history(),
            final(self).registrations() == drop_registrations_for(
                old(self).registrations(),
                id@,
            ),
    {
        let id_owned = id.to_owned();
        let ghost orig = old(self).callbacks@;
        let ghost regs = old(self).registrations();
        let total = self.callbacks.len();
        let mut kept: Vec<CallbackEntry<C>> = Vec::new();
        let mut k: usize = 0;
        proof {
            assert(self.callbacks@ =~= orig.skip(0));
            assert(kept@.map_values(|e: CallbackEntry<C>| (e.id@, e.callback))
                =~= drop_registrations_for(regs.take(0), id@));
        }
        while k < total
            invariant
                0 <= k <= total,
                total == orig.len(),
                regs == orig.map_values(|e: CallbackEntry<C>| (e.id@, e.callback)),
                id_owned@ == id@,
                self.assets == old(self).assets,
                self.history == old(self).history,
                self.callbacks@ == orig.skip(k as int),
                kept@.map_values(|e: CallbackEntry<C>| (e.id@, e.callback))
                    == drop_registrations_for(regs.take(k as int), id@),
            decreases total - k,
        {
            let ghost kept_pre = kept@;
            let e = self.callbacks.remove(0);
            proof {
                assert(e == orig[k as int]);
                assert(self.callbacks@ =~= orig.skip(k + 1));
                assert(regs.take(k + 1).drop_last() =~= regs.take(k as int));
                assert(regs.take(k + 1).last() == regs[k as int]);
                assert(regs[k as int] == (orig[k as int].id@, orig[k as int].callback));
            }
            if !(e.id == id_owned) {
                kept.push(e);
                proof {
                    assert(kept@.map_values(|x: CallbackEntry<C>| (x.id@, x.callback))
                        =~= kept_pre.map_values(|x: CallbackEntry<C>| (x.id@, x.callback)).push(
                        (orig[k as int].id@, orig[k as int].callback),
                    ));
                }
            }
            k = k + 1;
        }
        self.callbacks = kept;
        proof {
            assert(regs.take(total as int) =~= regs);
            assert(self.entries() =~= old(self).entries());
            assert(self.handles() =~= old(self).handles());
        }
    }

    /// Destroys the asset registered under `id`: releases its native
    /// state, removes the entry from the registry — forward map and
    /// reverse index in the same step — and drops its subscriptions.
    ///
    /// An unknown id is the soft result `Ok(None)`. When the resource's
    /// destroy fails, or its lock is poisoned, the error is returned and
    /// the registry is left untouched.
    pub fn destroy_asset(&mut self, id: &str) -> (r: Result<Option<()>, AssetError>)
        requires
            old(self).wf(),
        ensures
            final(self).wf(),
            final(self).history() == old(self).history(),
            !old(self).has_id(id@) ==> r == Ok::<Option<()>, AssetError>(None) && *final(self)
                == *old(self),
            old(self).has_id(id@) ==> match r {
                Ok(o) => o == Some(()) && final(self).entries() == remove_id_entry(
                    old(self).entries(),
                    id@,
                ) && final(self).handles() == old(self).handles().remove(
                    id_index_in(old(self).entries(), id@),
                ) && final(self).registrations() == drop_registrations_for(
                    old(self).registrations(),
                    id@,
                ),
                Err(_) => *final(self) == *old(self),
            },
    {
        let i = match self.find_asset(id) {
            None => {
                return Ok(None);
            },
            Some(i) => i,
        };
        match self.assets[i].handle.destroy() {
            Err(e) => {
                return Err(e);
            },
            Ok(_) => {},
        }
        let ghost es = old(self).entries();
        let ghost hs = old(self).handles();
        let _ = self.assets.remove(i);
        proof {
            assert(es[i as int].0 == id@);
            let ci = id_index_in(es, id@);
            assert(has_id_in(es, id@));
            assert(0 <= ci < es.len() && es[ci].0 == id@);
            if ci != i as int {
                assert(false);
            }
            assert(self.entries() =~= es.remove(i as int));
            assert(self.handles() =~= hs.remove(i as int));
            lemma_remove_preserves_unique(es, i as int);
        }
        self.remove_callbacks_for(id);
        Ok(Some(()))
    }

    /// The effect of one coordinator pass over `paths`: the registry is
    /// unchanged, every callback has run once per reload of its subscribed
    /// id — and not at all for ids the pass did not reload — and the
    /// reloads with their firings, in order, are appended to the history.
    pub open spec fn batch_applied(pre: Self, post: Self, paths: Seq<Seq<char>>) -> bool {
        &&& post.entries() == pre.entries()
        &&& post.handles() == pre.handles()
        &&& post.registration_ids() == pre.registration_ids()
        &&& post.registrations().len() == pre.registrations().len()
        &&& forall|j: int|
            0 <= j < pre.registrations().len() ==> (#[trigger] post.registrations()[j]).1.calls()
                == pre.registrations()[j].1.calls() + reload_count(
                pre.entries(),
                paths,
                pre.registrations()[j].0,
            )
        &&& post.history() == pre.history() + batch_trace(
            pre.entries(),
            pre.registration_ids(),
            paths,
        )
    }

    /// Resolves each stale path through the reverse index — after bringing
    /// it to canonical form — and reloads every asset that matches, firing
    /// its callbacks. This is the bridge between the watcher's raw paths
    /// and the id-keyed registry.
    ///
    /// A path with no registered asset is skipped, not an error: a changed
    /// file nobody loaded is expected — a batch in which no path resolves
    /// at all, the empty batch included, always succeeds. The first hard
    /// reload error aborts the batch and is surfaced with the id that
    /// failed in its message; paths earlier in the batch keep their
    /// completed reloads.
    pub fn watch_for_changes(&mut self, stale_paths: &Vec<String>) -> (r: Result<
        (),
        AssetManagerError,
    >)
        requires
            old(self).wf(),
        ensures
            final(self).wf(),
            final(self).entries() == old(self).entries(),
            final(self).handles() == old(self).handles(),
            final(self).registration_ids() == old(self).registration_ids(),
            (forall|k: int|
                0 <= k < stale_paths.deep_view().len() ==> !has_path_in(
                    old(self).entries(),
                    norm_path(#[trigger] stale_paths.deep_view()[k]),
                )) ==> r is Ok,
            r is Ok ==> Self::batch_applied(*old(self), *final(self), stale_paths.deep_view()),
            r matches Err(e) ==> e@.kind == AssetManagerErrorKind::AssetReloadError && e@.source
                is Some && exists|k: int|
                0 <= k < stale_paths.deep_view().len() && has_path_in(
                    old(self).entries(),
                    norm_path(#[trigger] stale_paths.deep_view()[k]),
                ) && e@.message == "unable to reload asset "@ + id_for_path_in(
                    old(self).entries(),
                    norm_path(stale_paths.deep_view()[k]),
                ) && Self::batch_applied(
                    *old(self),
                    *final(self),
                    stale_paths.deep_view().take(k),
                ),
    {
        let ghost es = old(self).entries();
        let ghost rids = old(self).registration_ids();
        let ghost pv = stale_paths.deep_view();
        let n = stale_paths.len();
        let mut k: usize = 0;
        proof {
            assert(batch_trace(es, rids, pv.take(0)) =~= Seq::<ManagerEvent>::empty());
            assert(self.history() =~= old(self).history() + batch_trace(es, rids, pv.take(0)));
            assert(Self::batch_applied(*old(self), *self, pv.take(0)));
        }
        while k < n
            invariant
                0 <= k <= n,
                n == stale_paths@.len(),
                pv == stale_paths.deep_view(),
                es == old(self).entries(),
                rids == old(self).registration_ids(),
                self.wf(),
                self.entries() == es,
                self.registration_ids() == rids,
                Self::batch_applied(*old(self), *self, pv.take(k as int)),
            decreases n - k,
        {
            proof {
                assert(pv.take(k + 1).drop_last() =~= pv.take(k as int));
                assert(pv.take(k + 1).last() == pv[k as int]);
                assert(pv[k as int] == stale_paths@[k as int]@);
            }
            let np = normalize_path(stale_paths[k].as_str());
            match self.find_asset_by_path(np.as_str()) {
                None => {
                    proof {
                        assert(!has_path_in(es, norm_path(pv[k as int])));
                        assert(batch_trace(es, rids, pv.take(k + 1)) == batch_trace(
                            es,
                            rids,
                            pv.take(k as int),
                        ));
                        assert forall|j: int|
                            0 <= j < old(self).registrations().len() implies reload_count(
                            es,
                            pv.take(k + 1),
                            (#[trigger] old(self).registrations()[j]).0,
                        ) == reload_count(es, pv.take(k as int), old(self).registrations()[j].0) by {
                        }
                        assert(Self::batch_applied(*old(self), *self, pv.take(k + 1)));
                    }
                },
                Some(i) => {
                    let asset_id = self.assets[i].id.clone();
                    proof {
                        assert(self.entries()[i as int].1 == np@);
                        assert(self.entries()[i as int].0 == asset_id@);
                        let ci = path_index_in(es, np@);
                        assert(has_path_in(es, np@));
                        assert(0 <= ci < es.len() && es[ci].1 == np@);
                        if ci != i as int {
                            assert(false);
                        }
                        assert(id_for_path_in(es, norm_path(pv[k as int])) == asset_id@);
                        assert(has_id_in(es, asset_id@));
                    }
                    let ghost mid = *self;
                    match self.reload_asset(asset_id.as_str()) {
                        Ok(_) => {
                            proof {
                                assert(Self::reload_applied(mid, *self, asset_id@));
                                assert(self.history() =~= old(self).history() + batch_trace(
                                    es,
                                    rids,
                                    pv.take(k + 1),
                                ));
                                let oldregs = old(self).registrations();
                                let midregs = mid.registrations();
                                let newregs = self.registrations();
                                assert(fired_once(midregs, newregs, asset_id@));
                                assert forall|j: int|
                                    0 <= j < oldregs.len() implies (
                                #[trigger] newregs[j]).1.calls() == oldregs[j].1.calls()
                                    + reload_count(es, pv.take(k + 1), oldregs[j].0) by {
                                    assert(mid.registration_ids()[j] == midregs[j].0);
                                    assert(old(self).registration_ids()[j] == oldregs[j].0);
                                    assert(midregs[j].0 == oldregs[j].0);
                                    if oldregs[j].0 == asset_id@ {
                                        assert(newregs[j].1.calls() == midregs[j].1.calls() + 1);
                                        assert(reload_count(es, pv.take(k + 1), oldregs[j].0)
                                            == reload_count(es, pv.take(k as int), oldregs[j].0)
                                            + 1);
                                    } else {
                                        assert(newregs[j].1 == midregs[j].1);
                                        assert(reload_count(es, pv.take(k + 1), oldregs[j].0)
                                            == reload_count(es, pv.take(k as int), oldregs[j].0));
                                    }
                                }
                                assert(Self::batch_applied(*old(self), *self, pv.take(k + 1)));
                            }
                        },
                        Err(e) => {
                            let mut msg = "unable to reload asset ".to_owned();
                            msg.append(asset_id.as_str());
                            proof {
                                assert(Self::batch_applied(*old(self), *self, pv.take(k as int)));
                                assert(has_path_in(es, norm_path(pv[k as int])));
                                assert(msg@ == "unable to reload asset "@ + id_for_path_in(
                                    es,
                                    norm_path(pv[k as int]),
                                ));
                            }
                            return Err(
                                AssetManagerError::new(
                                    msg.as_str(),
                                    AssetManagerErrorKind::AssetReloadError,
                                    Some(e.message()),
                                ),
                            );
                        },
                    }
                },
            }
            k = k + 1;
        }
        proof {
            assert(pv.take(n as int) =~= pv);
            assert(Self::batch_applied(*old(self), *self, pv));
        }
        Ok(())
    }

    /// Whether the asset registered under `id` reports itself loaded; the
    /// soft result `Ok(None)` for an unknown id, and an error when the
    /// resource's lock is poisoned.
    pub fn is_asset_loaded(&self, id: &str) -> (r: Result<Option<bool>, AssetError>)
        ensures
            !self.has_id(id@) ==> r == Ok::<Option<bool>, AssetError>(None),
            self.has_id(id@) ==> match r {
                Ok(o) => o is Some,
                Err(_) => true,
            },
    {
        match self.find_asset(id) {
            None => Ok(None),
            Some(i) => match self.assets[i].handle.is_loaded() {
                Ok(b) => Ok(Some(b)),
                Err(e) => Err(e),
            },
        }
    }
}

/// The callbacks standing in `regs` for `id`, in registration order.
pub open spec fn callbacks_of<C>(regs: Seq<(Seq<char>, C)>, id: Seq<char>) -> Seq<C>
    decreases regs.len(),
{
    if regs.len() == 0 {
        Seq::empty()
    } else {
        let rest = callbacks_of(regs.drop_last(), id);
        if regs.last().0 == id {
            rest.push(regs.last().1)
        } else {
            rest
        }
    }
}

impl<A: Asset, C: ReloadCallback + Copy> AssetManager<A, C> {
    /// The callbacks registered for `id`, in registration order.
    pub fn callbacks_for(&self, id: &str) -> (r: Vec<C>)
        ensures
            r@ == callbacks_of(self.registrations(), id@),
    {
        let id_owned = id.to_owned();
        let ghost regs = self.registrations();
        let n = self.callbacks.len();
        let mut out: Vec<C> = Vec::new();
        let mut k: usize = 0;
        proof {
            assert(out@ =~= callbacks_of(regs.take(0), id@));
        }
        while k < n
            invariant
                0 <= k <= n,
                n == self.callbacks@.len(),
                id_owned@ == id@,
                regs == self.registrations(),
                out@ == callbacks_of(regs.take(k as int), id@),
            decreases n - k,
        {
            let ghost pre = out@;
            proof {
                assert(regs.take(k + 1).drop_last() =~= regs.take(k as int));
                assert(regs.take(k + 1).last() == regs[k as int]);
                assert(regs[k as int] == (self.callbacks@[k as int].id@, self.callbacks@[k as int].callback));
            }
            if self.callbacks[k].id == id_owned {
                out.push(self.callbacks[k].callback);
                proof {
                    assert(out@ =~= pre.push(self.callbacks@[k as int].callback));
                }
            }
            k = k + 1;
        }
        proof {
            assert(regs.take(n as int) =~= regs);
        }
        out
    }
}

/// The mutual consistency of a well-formed manager's two maps: every id in
/// the forward map has exactly one path in the reverse index pointing back
/// to it, and every path in the reverse index points to an id the forward
/// map sends back to that path. This holds of a fresh manager and is
/// preserved by every load, reload and destroy, since each leaves the
/// registry well-formed.
pub proof fn lemma_maps_consistent<A: Asset, C: ReloadCallback>(m: &AssetManager<A, C>)
    requires
        m.wf(),
    ensures
        forall|id: Seq<char>| #[trigger]
            m.forward_map().dom().contains(id) ==> m.reverse_map().dom().contains(
                m.forward_map()[id],
            ) && m.reverse_map()[m.forward_map()[id]] == id,
        forall|p: Seq<char>| #[trigger]
            m.reverse_map().dom().contains(p) ==> m.forward_map().dom().contains(
                m.reverse_map()[p],
            ) && m.forward_map()[m.reverse_map()[p]] == p,
{
    let es = m.entries();
    assert forall|id: Seq<char>| #[trigger]
        m.forward_map().dom().contains(id) implies m.reverse_map().dom().contains(
        m.forward_map()[id],
    ) && m.reverse_map()[m.forward_map()[id]] == id by {
        let i = id_index_in(es, id);
        assert(0 <= i < es.len() && es[i].0 == id);
        let p = es[i].1;
        assert(has_path_in(es, p));
        let j = path_index_in(es, p);
        assert(0 <= j < es.len() && es[j].1 == p);
        if i != j {
            assert(false);
        }
    }
    assert forall|p: Seq<char>| #[trigger]
        m.reverse_map().dom().contains(p) implies m.forward_map().dom().contains(
        m.reverse_map()[p],
    ) && m.forward_map()[m.reverse_map()[p]] == p by {
        let j = path_index_in(es, p);
        assert(0 <= j < es.len() && es[j].1 == p);
        let id = es[j].0;
        assert(has_id_in(es, id));
        let i = id_index_in(es, id);
        assert(0 <= i < es.len() && es[i].0 == id);
        if i != j {
            assert(false);
        }
    }
}

/// One coordinator pass, run once per application tick: drains the
/// watcher's stale-path buffer, resolves and reloads every matching asset
/// with its callbacks through [`AssetManager::watch_for_changes`], and
/// clears the buffer.
///
/// The buffer is cleared only after every consequent reload has been
/// attempted, and only on success: on an error it is left exactly as it
/// was, so no reported change is lost, and the error names the asset that
/// failed in its message. A pass over a buffer in which no path resolves,
/// an empty buffer included, always succeeds. A path buffered by the
/// observer after the drain taken here is not processed in this pass; it
/// stays for the next one.
pub fn watch_for_asset_changes<A: Asset, C: ReloadCallback>(
    manager: &mut AssetManager<A, C>,
    buffer: &mut StalePathBuffer,
) -> (r: Result<(), AssetManagerError>)
    requires
        old(manager).wf(),
    ensures
        final(manager).wf(),
        final(manager).entries() == old(manager).entries(),
        final(manager).handles() == old(manager).handles(),
        final(manager).registration_ids() == old(manager).registration_ids(),
        (forall|k: int|
            0 <= k < old(buffer)@.len() ==> !has_path_in(
                old(manager).entries(),
                norm_path(#[trigger] old(buffer)@[k]),
            )) ==> r is Ok,
        r is Ok ==> AssetManager::<A, C>::batch_applied(
            *old(manager),
            *final(manager),
            old(buffer)@,
        ) && final(buffer)@.len() == 0,
        r matches Err(e) ==> *final(buffer) == *old(buffer) && e@.kind
            == AssetManagerErrorKind::AssetReloadError && e@.source is Some && exists|k: int|
            0 <= k < old(buffer)@.len() && has_path_in(
                old(manager).entries(),
                norm_path(#[trigger] old(buffer)@[k]),
            ) && e@.message == "unable to reload asset "@ + id_for_path_in(
                old(manager).entries(),
                norm_path(old(buffer)@[k]),
            ) && AssetManager::<A, C>::batch_applied(
                *old(manager),
                *final(manager),
                old(buffer)@.take(k),
            ),
{
    let stale = buffer.get_stale_paths();
    match manager.watch_for_changes(&stale) {
        Ok(_) => {
            buffer.clear_stale_paths();
            Ok(())
        },
        Err(e) => Err(e),
    }
}

} // verus!
