//! Request correlation: fresh ids for outgoing calls, and the table of
//! pending calls that result frames resolve.
use vstd::prelude::*;
use crate::error::ConnectionError;
use crate::wire::{WireEntry, WireValue};

verus! {

broadcast use vstd::seq_lib::group_seq_properties;

/// An outgoing call: `{id, guid, method, params}`.
#[derive(Debug)]
pub struct Request {
    pub id: u64,
    pub guid: String,
    pub method: String,
    pub params: Vec<WireEntry>,
}

/// How a call ended.
#[derive(Debug)]
pub enum Outcome {
    /// The result value, with the handle list it refers to.
    Success { value: WireValue, handles: Vec<String> },
    /// An error raised by the engine, with its message and stack text.
    RemoteError { message: String, stack: String },
    /// The transport closed before an answer came.
    Disconnected,
}

/// The single resolution of one call.
#[derive(Debug)]
pub struct Completion {
    pub id: u64,
    pub outcome: Outcome,
}

/// Hands out request ids and tracks the calls still awaiting an answer.
#[derive(Debug)]
pub struct Correlator {
    next_id: u64,
    pending: Vec<u64>,
}

/// Pending set after a result frame for `id`, and whether it resolved a call.
pub open spec fn resolve_step(pending: Set<u64>, id: u64) -> (Set<u64>, bool) {
    (pending.remove(id), pending.contains(id))
}

/// How many times `id` is resolved when result frames for the ids `rs`
/// arrive in order and the transport then closes, starting from `pending`.
pub open spec fn resolutions(pending: Set<u64>, rs: Seq<u64>, id: u64) -> nat
    decreases rs.len(),
{
    if rs.len() == 0 {
        if pending.contains(id) { 1 } else { 0 }
    } else {
        let (next, hit) = resolve_step(pending, rs[0]);
        (if hit && rs[0] == id { 1nat } else { 0nat }) + resolutions(next, rs.skip(1), id)
    }
}

/// Every call pending at some point is resolved exactly once, whatever
/// result frames arrive (duplicates and unknown ids included) before the
/// transport closes; an id that is not pending is never resolved.
pub proof fn lemma_exactly_one_resolution(pending: Set<u64>, rs: Seq<u64>, id: u64)
    ensures
        resolutions(pending, rs, id) == if pending.contains(id) { 1nat } else { 0nat },
    decreases rs.len(),
{
    if rs.len() > 0 {
        lemma_exactly_one_resolution(pending.remove(rs[0]), rs.skip(1), id);
    }
}

/// A second result frame for an id finds nothing to resolve.
pub proof fn lemma_second_result_ignored(pending: Set<u64>, id: u64)
    ensures
        !resolve_step(resolve_step(pending, id).0, id).1,
        resolve_step(resolve_step(pending, id).0, id).0 == resolve_step(pending, id).0,
{
    assert(pending.remove(id).remove(id) =~= pending.remove(id));
}

impl Correlator {
    /// The ids of the calls awaiting an answer.
    pub closed spec fn pending(&self) -> Set<u64> {
        self.pending@.to_set()
    }

    /// The id that the next call receives.
    pub closed spec fn next_id(&self) -> u64 {
        self.next_id
    }

    /// Pending ids are distinct, were handed out, and ids start at 1.
    pub closed spec fn wf(&self) -> bool {
        &&& self.pending@.no_duplicates()
        &&& self.next_id >= 1
        &&& forall|i: int| 0 <= i < self.pending@.len() ==> #[trigger] self.pending@[i] < self.next_id
    }

    pub fn new() -> (r: Correlator)
        ensures
            r.wf(),
            r.pending() == Set::<u64>::empty(),
            r.next_id() == 1,
    {
        let r = Correlator { next_id: 1, pending: Vec::new() };
        assert(r.pending() =~= Set::<u64>::empty());
        r
    }

    /// Whether a call with this id awaits an answer.
    pub fn is_pending(&self, id: u64) -> (r: bool)
        ensures
            r == self.pending().contains(id),
    {
        self.position(id).is_some()
    }

    fn position(&self, id: u64) -> (r: Option<usize>)
        ensures
            match r {
                Some(i) => i < self.pending@.len() && self.pending@[i as int] == id,
                None => !self.pending().contains(id),
            },
    {
        let mut i: usize = 0;
        while i < self.pending.len()
            invariant
                i <= self.pending@.len(),
                forall|j: int| 0 <= j < i ==> self.pending@[j] != id,
            decreases self.pending@.len() - i,
        {
            if self.pending[i] == id {
                return Some(i);
            }
            i = i + 1;
        }
        None
    }

    /// Starts a call: allocates a fresh id, larger than every id before it,
    /// and registers it as pending. Fails with `IdsExhausted` only when no
    /// id is left.
    pub fn send(&mut self, guid: String, method: String, params: Vec<WireEntry>) -> (r: Result<Request, ConnectionError>)
        requires
            old(self).wf(),
        ensures
            final(self).wf(),
            old(self).next_id() == u64::MAX ==> r == Err::<Request, ConnectionError>(ConnectionError::IdsExhausted)
                && *final(self) == *old(self),
            old(self).next_id() < u64::MAX ==> ({
                let q = r->Ok_0;
                &&& r is Ok
                &&& q.id == old(self).next_id()
                &&& !old(self).pending().contains(q.id)
                &&& q.guid == guid && q.method == method && q.params == params
                &&& final(self).pending() == old(self).pending().insert(q.id)
                &&& final(self).next_id() == old(self).next_id() + 1
            }),
    {
        if self.next_id == u64::MAX {
            return Err(ConnectionError::IdsExhausted);
        }
        let id = self.next_id;
        proof {
            if self.pending@.contains(id) {
                let k = choose|k: int| 0 <= k < self.pending@.len() && self.pending@[k] == id;
                assert(self.pending@[k] < self.next_id);
            }
        }
        self.pending.push(id);
        self.next_id = id + 1;
        proof {
            assert(self.pending@.to_set() =~= old(self).pending@.to_set().insert(id));
        }
        Ok(Request { id, guid, method, params })
    }

    /// Takes a result frame for `id`: resolves the call when it is pending,
    /// and removes it so that it is never resolved again; a frame for an id
    /// that is not pending is ignored and changes nothing.
    pub fn resolve(&mut self, id: u64, outcome: Outcome) -> (r: Option<Completion>)
        requires
            old(self).wf(),
        ensures
            final(self).wf(),
            (final(self).pending(), r is Some) == resolve_step(old(self).pending(), id),
            final(self).next_id() == old(self).next_id(),
            r is Some ==> r->0.id == id && r->0.outcome == outcome,
    {
        match self.position(id) {
            Some(i) => {
                self.remove_at(i);
                Some(Completion { id, outcome })
            },
            None => {
                proof {
                    assert(old(self).pending().remove(id) =~= old(self).pending());
                }
                None
            },
        }
    }

    fn remove_at(&mut self, i: usize)
        requires
            old(self).wf(),
            i < old(self).pending@.len(),
        ensures
            final(self).wf(),
            final(self).pending() == old(self).pending().remove(old(self).pending@[i as int]),
            final(self).next_id() == old(self).next_id(),
    {
        let ghost id = self.pending@[i as int];
        let ghost pre = self.pending@;
        self.pending.remove(i);
        proof {
            assert forall|x: u64| self.pending@.to_set().contains(x) == pre.to_set().remove(id).contains(x) by {
                if self.pending@.contains(x) {
                    let k = choose|k: int| 0 <= k < self.pending@.len() && self.pending@[k] == x;
                    let k2 = if k < i { k } else { k + 1 };
                    assert(pre[k2] == x);
                    assert(k2 != i);
                }
                if pre.contains(x) && x != id {
                    let k = choose|k: int| 0 <= k < pre.len() && pre[k] == x;
                    let k2 = if k < i { k } else { k - 1 };
                    assert(self.pending@[k2] == x);
                }
            }
            assert(self.pending@.to_set() =~= pre.to_set().remove(id));
            assert forall|a: int, b: int| 0 <= a < b < self.pending@.len() implies self.pending@[a] != self.pending@[b] by {
                let a2 = if a < i { a } else { a + 1 };
                let b2 = if b < i { b } else { b + 1 };
                assert(pre[a2] != pre[b2]);
            }
        }
    }

    /// Abandons a call that its caller no longer awaits, so that the table
    /// does not grow with orphans. Returns whether it was pending.
    pub fn cancel(&mut self, id: u64) -> (r: bool)
        requires
            old(self).wf(),
        ensures
            final(self).wf(),
            r == old(self).pending().contains(id),
            final(self).pending() == old(self).pending().remove(id),
            final(self).next_id() == old(self).next_id(),
    {
        self.resolve(id, Outcome::Disconnected).is_some()
    }

    /// The transport closed: resolves every pending call with
    /// `Disconnected`, once each, and leaves nothing pending.
    pub fn disconnect(&mut self) -> (r: Vec<Completion>)
        requires
            old(self).wf(),
        ensures
            final(self).wf(),
            final(self).pending() == Set::<u64>::empty(),
            final(self).next_id() == old(self).next_id(),
            forall|i: int| 0 <= i < r@.len() ==> (#[trigger] r@[i]).outcome is Disconnected,
            forall|i: int, j: int| 0 <= i < j < r@.len() ==> r@[i].id != r@[j].id,
            forall|x: u64| old(self).pending().contains(x) <==> exists|i: int| 0 <= i < r@.len() && #[trigger] r@[i].id == x,
    {
        let mut out: Vec<Completion> = Vec::new();
        let mut i: usize = 0;
        while i < self.pending.len()
            invariant
                i <= self.pending@.len(),
                self.pending@ == old(self).pending@,
                out@.len() == i,
                forall|j: int| 0 <= j < i ==> (#[trigger] out@[j]).outcome is Disconnected && out@[j].id == self.pending@[j],
            decreases self.pending@.len() - i,
        {
            out.push(Completion { id: self.pending[i], outcome: Outcome::Disconnected });
            i = i + 1;
        }
        proof {
            let pre = old(self).pending@;
            assert forall|x: u64| old(self).pending().contains(x) implies exists|i: int| 0 <= i < out@.len() && #[trigger] out@[i].id == x by {
                let k = choose|k: int| 0 <= k < pre.len() && pre[k] == x;
                assert(out@[k].id == x);
            }
            assert forall|x: u64| (exists|i: int| 0 <= i < out@.len() && #[trigger] out@[i].id == x) implies old(self).pending().contains(x) by {
                let k = choose|k: int| 0 <= k < out@.len() && #[trigger] out@[k].id == x;
                assert(pre[k] == x);
            }
        }
        self.pending = Vec::new();
        proof {
            assert(self.pending@.to_set() =~= Set::<u64>::empty());
        }
        out
    }
}

} // verus!
