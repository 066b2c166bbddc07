//! The guid-addressed table of live remote objects.
use vstd::prelude::*;
use crate::error::ConnectionError;
use crate::json::Json;

verus! {

/// Guid of the root object, which is live for the whole connection.
pub const ROOT_GUID: &'static str = "";

/// The known remote object types; anything else is held as `Generic`.
#[derive(Clone, Copy, Debug, PartialEq, Eq, Structural)]
pub enum ObjectKind {
    Root,
    Playwright,
    Selectors,
    BrowserType,
    JsHandle,
    Generic,
}

/// Kind that a declared type name is held as.
pub open spec fn kind_of(typ: Seq<char>) -> ObjectKind {
    if typ == "Playwright"@ {
        ObjectKind::Playwright
    } else if typ == "Selectors"@ {
        ObjectKind::Selectors
    } else if typ == "BrowserType"@ {
        ObjectKind::BrowserType
    } else if typ == "JSHandle"@ {
        ObjectKind::JsHandle
    } else {
        ObjectKind::Generic
    }
}

/// Decides the kind for a declared type name; unknown names fall back to
/// `Generic` so that new protocol types never break the client.
pub fn object_kind(typ: &String) -> (r: ObjectKind)
    ensures
        r == kind_of(typ@),
{
    if *typ == "Playwright".to_owned() {
        ObjectKind::Playwright
    } else if *typ == "Selectors".to_owned() {
        ObjectKind::Selectors
    } else if *typ == "BrowserType".to_owned() {
        ObjectKind::BrowserType
    } else if *typ == "JSHandle".to_owned() {
        ObjectKind::JsHandle
    } else {
        ObjectKind::Generic
    }
}

/// One subscriber of an object's events.
#[derive(Debug)]
pub struct Subscription {
    pub id: u64,
    pub event: String,
}

/// A live remote object, owned by the registry.
#[derive(Debug)]
pub struct RemoteObject {
    pub guid: String,
    pub typ: String,
    pub kind: ObjectKind,
    /// Absent only for the root.
    pub parent: Option<String>,
    /// The initializer payload.
    pub initializer: Json,
    pub subscribers: Vec<Subscription>,
}

/// The registry: owns every live remote object, one per guid.
#[derive(Debug)]
pub struct Registry {
    objects: Vec<RemoteObject>,
    next_subscription: u64,
}

impl Registry {
    /// Every object's guid differs from every other's.
    pub open spec fn wf(&self) -> bool {
        forall|i: int, j: int|
            0 <= i < self.objects().len() && 0 <= j < self.objects().len() && i != j
                ==> #[trigger] self.objects()[i].guid@ != #[trigger] self.objects()[j].guid@
    }

    pub closed spec fn objects(&self) -> Seq<RemoteObject> {
        self.objects@
    }

    /// The id that the next subscription receives.
    pub closed spec fn next_subscription_id(&self) -> u64 {
        self.next_subscription
    }

    /// Position of a guid in the table, if it is live.
    pub open spec fn holds_at(&self, g: Seq<char>, i: int) -> bool {
        0 <= i < self.objects().len() && self.objects()[i].guid@ == g
    }

    /// The set of live guids.
    pub open spec fn live(&self) -> Set<Seq<char>> {
        Set::new(|g: Seq<char>| exists|i: int| self.holds_at(g, i))
    }

    /// The live object with guid `g` (meaningful when `g` is live).
    pub open spec fn object(&self, g: Seq<char>) -> RemoteObject {
        self.objects()[choose|i: int| self.holds_at(g, i)]
    }

    /// A registry that holds the root object alone, under `ROOT_GUID`.
    pub fn new() -> (r: Registry)
        ensures
            r.wf(),
            r.live() == set![ROOT_GUID@],
            r.object(ROOT_GUID@).kind == ObjectKind::Root,
            r.object(ROOT_GUID@).parent is None,
    {
        Registry::with_root(ROOT_GUID.to_owned())
    }

    /// A registry that holds a root object alone, under the given guid.
    pub fn with_root(guid: String) -> (r: Registry)
        ensures
            r.wf(),
            r.live() == set![guid@],
            r.object(guid@).kind == ObjectKind::Root,
            r.object(guid@).parent is None,
    {
        let ghost g = guid@;
        let root = RemoteObject {
            guid,
            typ: "".to_owned(),
            kind: ObjectKind::Root,
            parent: None,
            initializer: Json::Object(Vec::new()),
            subscribers: Vec::new(),
        };
        let mut objects = Vec::new();
        objects.push(root);
        let r = Registry { objects, next_subscription: 0 };
        proof {
            assert(r.holds_at(g, 0));
            r.lemma_object_at(g, 0);
            assert(r.live() =~= set![g]);
        }
        r
    }

    fn find(&self, guid: &str) -> (r: Option<usize>)
        requires
            self.wf(),
        ensures
            match r {
                Some(i) => self.holds_at(guid@, i as int),
                None => !self.live().contains(guid@),
            },
    {
        let key = guid.to_owned();
        let mut i: usize = 0;
        while i < self.objects.len()
            invariant
                i <= self.objects@.len(),
                key@ == guid@,
                forall|j: int| 0 <= j < i ==> self.objects@[j].guid@ != guid@,
            decreases self.objects@.len() - i,
        {
            if self.objects[i].guid == key {
                return Some(i);
            }
            i = i + 1;
        }
        None
    }

    /// Whether `guid` is live.
    pub fn contains(&self, guid: &str) -> (r: bool)
        requires
            self.wf(),
        ensures
            r == self.live().contains(guid@),
    {
        self.find(guid).is_some()
    }

    proof fn lemma_object_at(&self, g: Seq<char>, i: int)
        requires
            self.wf(),
            self.holds_at(g, i),
        ensures
            self.object(g) == self.objects()[i],
            self.live().contains(g),
    {
        let j = choose|j: int| self.holds_at(g, j);
        assert(self.objects()[j].guid@ == self.objects()[i].guid@);
    }

    /// Resolves a guid to its live object; fails with `ObjectNotFound` once
    /// the guid is disposed, never returning stale data.
    pub fn lookup(&self, guid: &str) -> (r: Result<&RemoteObject, ConnectionError>)
        requires
            self.wf(),
        ensures
            r is Ok <==> self.live().contains(guid@),
            match r {
                Ok(o) => *o == self.object(guid@) && o.guid@ == guid@,
                Err(e) => e == ConnectionError::ObjectNotFound,
            },
    {
        match self.find(guid) {
            Some(i) => {
                proof {
                    self.lemma_object_at(guid@, i as int);
                }
                Ok(&self.objects[i])
            },
            None => Err(ConnectionError::ObjectNotFound),
        }
    }

    /// Removes the object at `i`, keeping every other object under its guid.
    fn remove_at(&mut self, i: usize) -> (r: RemoteObject)
        requires
            old(self).wf(),
            i < old(self).objects().len(),
        ensures
            final(self).wf(),
            r == old(self).objects()[i as int],
            final(self).live() == old(self).live().remove(r.guid@),
            forall|g: Seq<char>|
                g != r.guid@ && #[trigger] old(self).live().contains(g) ==> final(self).object(g)
                    == old(self).object(g),
            final(self).next_subscription == old(self).next_subscription,
    {
        let r = self.objects.remove(i);
        proof {
            let pre = *old(self);
            assert forall|a: int, b: int|
                0 <= a < self.objects().len() && 0 <= b < self.objects().len() && a != b
                    implies #[trigger] self.objects()[a].guid@ != #[trigger] self.objects()[b].guid@ by {
                let a2 = if a < i { a } else { a + 1 };
                let b2 = if b < i { b } else { b + 1 };
                assert(pre.objects()[a2].guid@ != pre.objects()[b2].guid@);
            }
            assert forall|g: Seq<char>|
                g != r.guid@ && #[trigger] pre.live().contains(g) implies self.live().contains(g)
                    && self.object(g) == pre.object(g) by {
                let k = choose|k: int| pre.holds_at(g, k);
                pre.lemma_object_at(g, k);
                let k2 = if k < i { k } else { k - 1 };
                assert(self.holds_at(g, k2));
                self.lemma_object_at(g, k2);
            }
            assert forall|g: Seq<char>| #[trigger] self.live().contains(g) implies pre.live().contains(g)
                && g != r.guid@ by {
                let k = choose|k: int| self.holds_at(g, k);
                let k2 = if k < i { k } else { k + 1 };
                assert(pre.holds_at(g, k2));
                assert(pre.objects()[k2].guid@ != pre.objects()[i as int].guid@);
            }
            assert(self.live() =~= pre.live().remove(r.guid@));
        }
        r
    }

    /// Appends an object whose guid is not live.
    fn push_new(&mut self, o: RemoteObject)
        requires
            old(self).wf(),
            !old(self).live().contains(o.guid@),
        ensures
            final(self).wf(),
            final(self).live() == old(self).live().insert(o.guid@),
            final(self).object(o.guid@) == o,
            forall|g: Seq<char>|
                g != o.guid@ && #[trigger] old(self).live().contains(g) ==> final(self).object(g)
                    == old(self).object(g),
            final(self).next_subscription == old(self).next_subscription,
    {
        let ghost g0 = o.guid@;
        let ghost o0 = o;
        self.objects.push(o);
        proof {
            let pre = *old(self);
            let n = pre.objects().len() as int;
            assert forall|k: int| 0 <= k < n implies pre.objects()[k].guid@ != g0 by {
                if pre.objects()[k].guid@ == g0 {
                    assert(pre.holds_at(g0, k));
                }
            }
            assert(self.holds_at(g0, n));
            self.lemma_object_at(g0, n);
            assert forall|g: Seq<char>|
                g != g0 && #[trigger] pre.live().contains(g) implies self.live().contains(g)
                    && self.object(g) == pre.object(g) by {
                let k = choose|k: int| pre.holds_at(g, k);
                pre.lemma_object_at(g, k);
                assert(self.holds_at(g, k));
                self.lemma_object_at(g, k);
            }
            assert forall|g: Seq<char>| #[trigger] self.live().contains(g) implies pre.live().insert(g0).contains(g) by {
                let k = choose|k: int| self.holds_at(g, k);
                if k < n {
                    assert(pre.holds_at(g, k));
                }
            }
            assert(self.live() =~= pre.live().insert(g0));
        }
    }

    /// Handles a creation notification: fails with `ParentNotFound`, and
    /// changes nothing, unless `parent` is live; otherwise the object is
    /// live under `guid` afterwards, with the kind its type name selects.
    pub fn create(&mut self, parent: &str, typ: String, guid: String, initializer: Json) -> (r: Result<(), ConnectionError>)
        requires
            old(self).wf(),
        ensures
            final(self).wf(),
            r is Ok <==> old(self).live().contains(parent@),
            r is Err ==> r == Err::<(), ConnectionError>(ConnectionError::ParentNotFound) && *final(self) == *old(self),
            final(self).live() == apply_notice(old(self).live(), Notice::Create { parent: parent@, guid: guid@ }),
            r is Ok ==> final(self).live() == old(self).live().insert(guid@),
            r is Ok ==> ({
                let o = final(self).object(guid@);
                &&& o.guid@ == guid@
                &&& o.typ@ == typ@
                &&& o.kind == kind_of(typ@)
                &&& o.parent is Some && o.parent->0@ == parent@
                &&& o.initializer == initializer
                &&& o.subscribers@.len() == 0
            }),
            r is Ok ==> forall|g: Seq<char>|
                g != guid@ && #[trigger] old(self).live().contains(g) ==> final(self).object(g)
                    == old(self).object(g),
    {
        if !self.contains(parent) {
            return Err(ConnectionError::ParentNotFound);
        }
        let kind = object_kind(&typ);
        let o = RemoteObject {
            guid,
            typ,
            kind,
            parent: Some(parent.to_owned()),
            initializer,
            subscribers: Vec::new(),
        };
        match self.find(o.guid.as_str()) {
            Some(i) => {
                let _ = self.remove_at(i);
            },
            None => {},
        }
        let ghost mid = *self;
        self.push_new(o);
        proof {
            assert(mid.live().insert(guid@) =~= old(self).live().insert(guid@));
        }
        Ok(())
    }

    /// Handles a disposal notification: the guid is not live afterwards;
    /// disposing a guid that is not live changes nothing.
    pub fn dispose(&mut self, guid: &str)
        requires
            old(self).wf(),
        ensures
            final(self).wf(),
            final(self).live() == old(self).live().remove(guid@),
            final(self).live() == apply_notice(old(self).live(), Notice::Dispose { guid: guid@ }),
            forall|g: Seq<char>|
                g != guid@ && #[trigger] old(self).live().contains(g) ==> final(self).object(g)
                    == old(self).object(g),
    {
        match self.find(guid) {
            Some(i) => {
                let _ = self.remove_at(i);
            },
            None => {
                proof {
                    assert(old(self).live().remove(guid@) =~= old(self).live());
                }
            },
        }
    }

    /// Registers a subscriber for `event` on a live object and returns its
    /// id; ids are handed out in increasing order and never reused.
    pub fn subscribe(&mut self, guid: &str, event: String) -> (r: Result<u64, ConnectionError>)
        requires
            old(self).wf(),
        ensures
            final(self).wf(),
            final(self).live() == old(self).live(),
            !old(self).live().contains(guid@) ==> r == Err::<u64, ConnectionError>(ConnectionError::ObjectNotFound),
            old(self).live().contains(guid@) && old(self).next_subscription_id() == u64::MAX ==> r == Err::<u64, ConnectionError>(
                ConnectionError::IdsExhausted,
            ),
            old(self).live().contains(guid@) && old(self).next_subscription_id() < u64::MAX ==> ({
                let o = old(self).object(guid@);
                let n = final(self).object(guid@);
                &&& r == Ok::<u64, ConnectionError>(old(self).next_subscription_id())
                &&& n.subscribers@.len() == o.subscribers@.len() + 1
                &&& n.subscribers@.drop_last() == o.subscribers@
                &&& n.subscribers@.last().id == old(self).next_subscription_id()
                &&& n.subscribers@.last().event@ == event@
                &&& n.guid == o.guid && n.typ == o.typ && n.kind == o.kind
                &&& n.parent == o.parent && n.initializer == o.initializer
            }),
            r is Err ==> *final(self) == *old(self),
            forall|g: Seq<char>|
                g != guid@ && #[trigger] old(self).live().contains(g) ==> final(self).object(g)
                    == old(self).object(g),
    {
        let i = match self.find(guid) {
            Some(i) => i,
            None => return Err(ConnectionError::ObjectNotFound),
        };
        if self.next_subscription == u64::MAX {
            return Err(ConnectionError::IdsExhausted);
        }
        let id = self.next_subscription;
        proof {
            self.lemma_object_at(guid@, i as int);
        }
        let mut o = self.remove_at(i);
        let ghost before = o;
        o.subscribers.push(Subscription { id, event });
        proof {
            assert(o.subscribers@.drop_last() =~= before.subscribers@);
        }
        proof {
            assert(o.guid@ == guid@);
            assert(old(self).live().remove(guid@).insert(guid@) =~= old(self).live());
        }
        self.push_new(o);
        let ghost mid = *self;
        self.next_subscription = id + 1;
        proof {
            assert(self.objects() == mid.objects());
            assert forall|g: Seq<char>| self.live().contains(g) == mid.live().contains(g) by {
                if self.live().contains(g) {
                    let k = choose|k: int| self.holds_at(g, k);
                    assert(mid.holds_at(g, k));
                }
                if mid.live().contains(g) {
                    let k = choose|k: int| mid.holds_at(g, k);
                    assert(self.holds_at(g, k));
                }
            }
            assert(self.live() =~= mid.live());
            assert forall|g: Seq<char>| #[trigger] mid.live().contains(g) implies self.object(g) == mid.object(g) by {}
        }
        Ok(id)
    }

    /// Removes the first subscription with id `id` from the object `guid`.
    /// Returns whether one was removed; nothing changes otherwise.
    pub fn unsubscribe(&mut self, guid: &str, id: u64) -> (r: bool)
        requires
            old(self).wf(),
        ensures
            final(self).wf(),
            final(self).live() == old(self).live(),
            final(self).next_subscription_id() == old(self).next_subscription_id(),
            r ==> old(self).live().contains(guid@) && ({
                let o = old(self).object(guid@);
                let n = final(self).object(guid@);
                exists|k: int|
                    0 <= k < o.subscribers@.len() && o.subscribers@[k].id == id && (forall|j: int|
                        0 <= j < k ==> o.subscribers@[j].id != id) && n.subscribers@ == o.subscribers@.remove(k)
                        && n.guid == o.guid && n.typ == o.typ && n.kind == o.kind && n.parent == o.parent
                        && n.initializer == o.initializer
            }),
            !r ==> *final(self) == *old(self),
            !r && old(self).live().contains(guid@) ==> forall|j: int|
                0 <= j < old(self).object(guid@).subscribers@.len() ==> #[trigger] old(self).object(
                    guid@,
                ).subscribers@[j].id != id,
            forall|g: Seq<char>|
                g != guid@ && #[trigger] old(self).live().contains(g) ==> final(self).object(g)
                    == old(self).object(g),
    {
        let i = match self.find(guid) {
            Some(i) => i,
            None => return false,
        };
        proof {
            self.lemma_object_at(guid@, i as int);
        }
        let mut k: usize = 0;
        let n = self.objects[i].subscribers.len();
        while k < n
            invariant
                i < self.objects@.len(),
                n == self.objects@[i as int].subscribers@.len(),
                k <= n,
                forall|j: int| 0 <= j < k ==> self.objects@[i as int].subscribers@[j].id != id,
            ensures
                k <= n,
                forall|j: int| 0 <= j < k ==> self.objects@[i as int].subscribers@[j].id != id,
                k < n ==> self.objects@[i as int].subscribers@[k as int].id == id,
            decreases n - k,
        {
            if self.objects[i].subscribers[k].id == id {
                break;
            }
            k = k + 1;
        }
        if k == n {
            return false;
        }
        let next = self.next_subscription;
        let mut o = self.remove_at(i);
        let ghost before = o;
        let _ = o.subscribers.remove(k);
        proof {
            assert(o.guid@ == guid@);
            assert(old(self).live().remove(guid@).insert(guid@) =~= old(self).live());
        }
        self.push_new(o);
        proof {
            assert(before.subscribers@[k as int].id == id);
        }
        true
    }

    /// Ids of the subscribers for `event` on the object `guid`, in the order
    /// they subscribed; none when the guid is not live (it may just have
    /// been disposed).
    pub fn emit(&self, guid: &str, event: &str) -> (r: Vec<u64>)
        requires
            self.wf(),
        ensures
            !self.live().contains(guid@) ==> r@.len() == 0,
            self.live().contains(guid@) ==> r@ == subscribers_for(self.object(guid@).subscribers@, event@),
    {
        let mut out: Vec<u64> = Vec::new();
        let i = match self.find(guid) {
            Some(i) => i,
            None => return out,
        };
        proof {
            self.lemma_object_at(guid@, i as int);
        }
        let subs = &self.objects[i].subscribers;
        let key = event.to_owned();
        let mut j: usize = 0;
        while j < subs.len()
            invariant
                j <= subs@.len(),
                key@ == event@,
                out@ == subscribers_for(subs@.take(j as int), event@),
            decreases subs@.len() - j,
        {
            proof {
                assert(subs@.take(j + 1).drop_last() =~= subs@.take(j as int));
            }
            if subs[j].event == key {
                out.push(subs[j].id);
            }
            j = j + 1;
        }
        proof {
            assert(subs@.take(j as int) =~= subs@);
        }
        out
    }
}

/// Ids of the subscriptions to `event`, in order.
pub open spec fn subscribers_for(subs: Seq<Subscription>, event: Seq<char>) -> Seq<u64>
    decreases subs.len(),
{
    if subs.len() == 0 {
        Seq::empty()
    } else {
        let rest = subscribers_for(subs.drop_last(), event);
        if subs.last().event@ == event {
            rest.push(subs.last().id)
        } else {
            rest
        }
    }
}

/// A lifecycle notification, as the registry's live set sees it.
pub enum Notice {
    Create { parent: Seq<char>, guid: Seq<char> },
    Dispose { guid: Seq<char> },
}

/// The live set after one notification: a creation takes effect only when
/// its parent is live; a disposal removes the guid.
pub open spec fn apply_notice(live: Set<Seq<char>>, n: Notice) -> Set<Seq<char>> {
    match n {
        Notice::Create { parent, guid } => if live.contains(parent) {
            live.insert(guid)
        } else {
            live
        },
        Notice::Dispose { guid } => live.remove(guid),
    }
}

/// The live set after a sequence of notifications, in order.
pub open spec fn replay(live: Set<Seq<char>>, ops: Seq<Notice>) -> Set<Seq<char>>
    decreases ops.len(),
{
    if ops.len() == 0 {
        live
    } else {
        apply_notice(replay(live, ops.drop_last()), ops.last())
    }
}

/// No disposal of `g` at position `k` or later.
pub open spec fn not_disposed_from(ops: Seq<Notice>, g: Seq<char>, k: int) -> bool {
    forall|j: int| k <= j < ops.len() ==> #[trigger] ops[j] != (Notice::Dispose { guid: g })
}

/// Position `i` creates `g` while its parent is live.
pub open spec fn created_at(live: Set<Seq<char>>, ops: Seq<Notice>, g: Seq<char>, i: int) -> bool {
    &&& 0 <= i < ops.len()
    &&& ops[i] is Create
    &&& ops[i]->Create_guid == g
    &&& replay(live, ops.take(i)).contains(ops[i]->Create_parent)
}

/// `g` was live from the start or created later, and not disposed since.
pub open spec fn created_and_not_disposed(live: Set<Seq<char>>, ops: Seq<Notice>, g: Seq<char>) -> bool {
    ||| live.contains(g) && not_disposed_from(ops, g, 0)
    ||| exists|i: int| #[trigger] created_at(live, ops, g, i) && not_disposed_from(ops, g, i + 1)
}

/// Over any sequence of creation and disposal notifications, a guid is
/// resolvable afterwards exactly when it was created (or live at the start)
/// and not disposed since; a disposed guid is never resolvable.
pub proof fn lemma_resolvable_iff_created_and_not_disposed(live: Set<Seq<char>>, ops: Seq<Notice>, g: Seq<char>)
    ensures
        replay(live, ops).contains(g) <==> created_and_not_disposed(live, ops, g),
    decreases ops.len(),
{
    if ops.len() == 0 {
        return;
    }
    let init = ops.drop_last();
    let n = ops.len() - 1;
    let last = ops.last();
    lemma_resolvable_iff_created_and_not_disposed(live, init, g);
    assert(ops.take(n) =~= init);
    assert forall|i: int| 0 <= i < n implies #[trigger] ops.take(i) == init.take(i) by {
        assert(ops.take(i) =~= init.take(i));
    }
    assert forall|k: int| 0 <= k <= n implies not_disposed_from(ops, g, k) == (not_disposed_from(init, g, k)
        && ops[n] != (Notice::Dispose { guid: g })) by {
        if not_disposed_from(init, g, k) && ops[n] != (Notice::Dispose { guid: g }) {
            assert forall|j: int| k <= j < ops.len() implies #[trigger] ops[j] != (Notice::Dispose { guid: g }) by {
                if j < n {
                    assert(init[j] == ops[j]);
                }
            }
        }
        if not_disposed_from(ops, g, k) {
            assert forall|j: int| k <= j < init.len() implies #[trigger] init[j] != (Notice::Dispose { guid: g }) by {
                assert(init[j] == ops[j]);
            }
        }
    }
    assert forall|i: int| 0 <= i < n implies created_at(live, ops, g, i) == created_at(live, init, g, i) by {
        assert(ops[i] == init[i]);
    }
    let ex_ops = exists|i: int| #[trigger] created_at(live, ops, g, i) && not_disposed_from(ops, g, i + 1);
    let ex_init = exists|i: int| #[trigger] created_at(live, init, g, i) && not_disposed_from(init, g, i + 1);
    if last == (Notice::Dispose { guid: g }) {
        assert(!not_disposed_from(ops, g, 0)) by {
            assert(ops[n] == last);
        }
        if ex_ops {
            let i = choose|i: int| #[trigger] created_at(live, ops, g, i) && not_disposed_from(ops, g, i + 1);
            assert(ops[n] == last);
            assert(i != n);
        }
    } else {
        assert(ops[n] == last);
        if ex_init {
            let i = choose|i: int| #[trigger] created_at(live, init, g, i) && not_disposed_from(init, g, i + 1);
            assert(created_at(live, ops, g, i) && not_disposed_from(ops, g, i + 1));
        }
        if ex_ops {
            let i = choose|i: int| #[trigger] created_at(live, ops, g, i) && not_disposed_from(ops, g, i + 1);
            if i < n {
                assert(created_at(live, init, g, i) && not_disposed_from(init, g, i + 1));
            }
        }
        match last {
            Notice::Create { parent, guid } => {
                if guid == g && replay(live, init).contains(parent) {
                    assert(created_at(live, ops, g, n));
                    assert(not_disposed_from(ops, g, n + 1));
                }
            },
            Notice::Dispose { guid } => {},
        }
    }
}

} // verus!
