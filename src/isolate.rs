//! The decisions of the isolate driver: startup data, dispatch, delivery of
//! async responses through the shared queue, and the idle rule. The engine
//! calls and the futures themselves stay with the caller, which hands their
//! outcomes to these functions.
use vstd::prelude::*;
use crate::ops::{Op, OpId, OpRegistry};
use crate::shared_queue::SharedQueue;

verus! {

/// A script used to initialize an isolate.
pub struct Script<'a> {
    pub source: &'a str,
    pub filename: &'a str,
}

/// A startup script held by the isolate until its first use.
pub struct OwnedScript {
    pub source: String,
    pub filename: String,
}

impl OwnedScript {
    pub fn from_script(s: Script) -> (r: OwnedScript)
        ensures
            r.source@ == s.source@,
            r.filename@ == s.filename@,
    {
        OwnedScript { source: s.source.to_owned(), filename: s.filename.to_owned() }
    }
}

/// What initializes an isolate at startup: a script, a snapshot, or
/// nothing at all.
pub enum StartupData<'a> {
    Script(Script<'a>),
    Snapshot(&'static [u8]),
    Nothing,
}

/// Separates startup data into the script to run on first use and the
/// snapshot to load.
pub fn split_startup(d: StartupData) -> (r: (Option<OwnedScript>, Option<&'static [u8]>))
    ensures
        match d {
            StartupData::Script(s) => r.0.is_some() && r.0.unwrap().source@ == s.source@
                && r.0.unwrap().filename@ == s.filename@ && r.1.is_none(),
            StartupData::Snapshot(b) => r.0.is_none() && r.1 == Some(b),
            StartupData::Nothing => r.0.is_none() && r.1.is_none(),
        },
{
    match d {
        StartupData::Script(s) => (Some(OwnedScript::from_script(s)), None),
        StartupData::Snapshot(b) => (None, Some(b)),
        StartupData::Nothing => (None, None),
    }
}

/// Unwraps the result of running JavaScript that must not fail.
pub fn js_check<T, E>(r: Result<T, E>) -> (v: T)
    requires
        r.is_ok(),
    ensures
        r == Ok::<T, E>(v),
{
    match r {
        Ok(v) => v,
        Err(_) => unreached(),
    }
}

/// Why a dispatch from JavaScript is refused; both become a type error in
/// JavaScript.
#[derive(Debug, Clone, Copy, PartialEq, Eq, Structural)]
pub enum DispatchError {
    /// No op is registered under this id.
    UnknownOp(OpId),
    /// JavaScript dispatched before draining the shared queue.
    QueueNotDrained,
}

/// Why a snapshot cannot be taken.
#[derive(Debug, Clone, Copy, PartialEq, Eq, Structural)]
pub enum SnapshotError {
    /// The isolate was not created to be snapshotted.
    NotSnapshotting,
    /// The snapshot has been taken already.
    AlreadyTaken,
}

/// What the dispatch of a handler's op comes to.
pub enum Dispatched<F> {
    /// Returned at once to JavaScript, under the reserved id 0.
    Reply(OpId, Vec<u8>),
    /// Kept in the pending set, labelled with the dispatching op id.
    Pending(OpId, F),
    /// Kept in the set of pending ops that do not keep the isolate alive.
    PendingUnref(OpId, F),
}

/// The outcome of one poll of the isolate.
#[derive(Debug, Clone, Copy, PartialEq, Eq, Structural)]
pub enum PollOutcome {
    /// No ref'ed op is pending: the isolate is idle.
    Ready,
    /// Ops are pending; `wake` asks the caller to poll again soon, because
    /// ops were dispatched during this poll.
    Pending { wake: bool },
}

/// The slot for the JavaScript function that receives async responses.
/// It is set at most once.
pub struct RecvSlot<T> {
    cb: Option<T>,
}

impl<T> RecvSlot<T> {
    pub closed spec fn callback(&self) -> Option<T> {
        self.cb
    }

    pub fn new() -> (r: Self)
        ensures
            r.callback().is_none(),
    {
        RecvSlot { cb: None }
    }

    /// Sets the receiver. A second receiver is handed back as the error and
    /// the first one stays.
    pub fn set(&mut self, cb: T) -> (r: Result<(), T>)
        ensures
            old(self).callback().is_some() ==> r == Err::<(), T>(cb) && final(self).callback()
                == old(self).callback(),
            old(self).callback().is_none() ==> r is Ok && final(self).callback() == Some(cb),
    {
        if self.cb.is_some() {
            Err(cb)
        } else {
            self.cb = Some(cb);
            Ok(())
        }
    }

    pub fn get(&self) -> (r: Option<&T>)
        ensures
            r.is_some() == self.callback().is_some(),
            r.is_some() ==> *r.unwrap() == self.callback().unwrap(),
    {
        match &self.cb {
            Some(c) => Some(c),
            None => None,
        }
    }
}

/// The driver's own state, beside the engine and the pending futures.
pub struct IsolateState {
    /// The bootstrap and startup scripts have not run yet.
    pub needs_init: bool,
    /// Async ops were dispatched since the pending sets were last polled.
    pub have_unpolled_ops: bool,
    /// The isolate owns a snapshot creator.
    pub will_snapshot: bool,
    /// The snapshot has been taken: no more execution.
    pub has_snapshotted: bool,
}

impl IsolateState {
    /// A fresh isolate. One that will be snapshotted cannot load a snapshot.
    pub fn new(will_snapshot: bool, loads_snapshot: bool) -> (r: IsolateState)
        requires
            !(will_snapshot && loads_snapshot),
        ensures
            r.needs_init,
            !r.have_unpolled_ops,
            r.will_snapshot == will_snapshot,
            !r.has_snapshotted,
    {
        IsolateState {
            needs_init: true,
            have_unpolled_ops: false,
            will_snapshot,
            has_snapshotted: false,
        }
    }

    /// Whether init is due now; after this call it never is again.
    pub fn take_init(&mut self) -> (r: bool)
        ensures
            r == old(self).needs_init,
            *final(self) == (IsolateState { needs_init: false, ..*old(self) }),
    {
        let r = self.needs_init;
        self.needs_init = false;
        r
    }

    /// Finds the handler for a dispatch of `op_id` from JavaScript. The id
    /// must be registered, and the queue must have been drained.
    pub fn dispatch_lookup<'r, H>(
        &self,
        registry: &'r OpRegistry<H>,
        queue: &SharedQueue,
        op_id: OpId,
    ) -> (r: Result<&'r H, DispatchError>)
        requires
            queue.wf(),
        ensures
            !(1 <= op_id <= registry.handlers().len()) ==> r == Err::<&H, DispatchError>(
                DispatchError::UnknownOp(op_id),
            ),
            1 <= op_id <= registry.handlers().len() && queue@.len() != 0 ==> r == Err::<
                &H,
                DispatchError,
            >(DispatchError::QueueNotDrained),
            1 <= op_id <= registry.handlers().len() && queue@.len() == 0 ==> r is Ok && *r.unwrap()
                == registry.handlers()[op_id - 1],
            r is Ok ==> queue@.len() == 0,
    {
        match registry.get(op_id) {
            None => Err(DispatchError::UnknownOp(op_id)),
            Some(h) => {
                if queue.size() != 0 {
                    Err(DispatchError::QueueNotDrained)
                } else {
                    Ok(h)
                }
            },
        }
    }

    /// Takes the op that the handler of `op_id` returned. A sync payload is
    /// the reply; a future joins a pending set, labelled with `op_id`.
    pub fn dispatch_result<F>(&mut self, op_id: OpId, op: Op<F>) -> (r: Dispatched<F>)
        ensures
            final(self).needs_init == old(self).needs_init,
            final(self).will_snapshot == old(self).will_snapshot,
            final(self).has_snapshotted == old(self).has_snapshotted,
            match op {
                Op::Sync(b) => r == Dispatched::<F>::Reply(0, b) && final(self).have_unpolled_ops
                    == old(self).have_unpolled_ops,
                Op::Async(f) => r == Dispatched::<F>::Pending(op_id, f)
                    && final(self).have_unpolled_ops,
                Op::AsyncUnref(f) => r == Dispatched::<F>::PendingUnref(op_id, f)
                    && final(self).have_unpolled_ops,
            },
    {
        match op {
            Op::Sync(b) => Dispatched::Reply(0, b),
            Op::Async(f) => {
                self.have_unpolled_ops = true;
                Dispatched::Pending(op_id, f)
            },
            Op::AsyncUnref(f) => {
                self.have_unpolled_ops = true;
                Dispatched::PendingUnref(op_id, f)
            },
        }
    }

    /// Called before the pending sets are polled.
    pub fn begin_drain(&mut self)
        ensures
            *final(self) == (IsolateState { have_unpolled_ops: false, ..*old(self) }),
    {
        self.have_unpolled_ops = false;
    }

    /// The end of a poll: ready when no ref'ed op is pending, whatever the
    /// unref'ed ones do.
    pub fn poll_outcome(&self, pending: usize, pending_unref: usize) -> (r: PollOutcome)
        ensures
            pending == 0 ==> r == PollOutcome::Ready,
            pending != 0 ==> r == (PollOutcome::Pending { wake: self.have_unpolled_ops }),
    {
        if pending == 0 {
            PollOutcome::Ready
        } else {
            PollOutcome::Pending { wake: self.have_unpolled_ops }
        }
    }

    /// Marks the snapshot as taken. Only an isolate made to be snapshotted
    /// takes one, and only once.
    pub fn mark_snapshotted(&mut self) -> (r: Result<(), SnapshotError>)
        ensures
            !old(self).will_snapshot ==> r == Err::<(), SnapshotError>(
                SnapshotError::NotSnapshotting,
            ) && *final(self) == *old(self),
            old(self).will_snapshot && old(self).has_snapshotted ==> r == Err::<(), SnapshotError>(
                SnapshotError::AlreadyTaken,
            ) && *final(self) == *old(self),
            old(self).will_snapshot && !old(self).has_snapshotted ==> r is Ok && *final(self) == (
            IsolateState { has_snapshotted: true, ..*old(self) }),
    {
        if !self.will_snapshot {
            Err(SnapshotError::NotSnapshotting)
        } else if self.has_snapshotted {
            Err(SnapshotError::AlreadyTaken)
        } else {
            self.has_snapshotted = true;
            Ok(())
        }
    }

    /// Whether JavaScript may still run: not after the snapshot.
    pub fn can_execute(&self) -> (r: bool)
        ensures
            r == !self.has_snapshotted,
    {
        !self.has_snapshotted
    }
}

/// Packs one completed async response into the queue. When it does not fit,
/// the queue is left as it was and the response comes back, to be delivered
/// on its own as the overflow response.
pub fn pack_response(queue: &mut SharedQueue, op_id: OpId, payload: Vec<u8>) -> (r: Option<
    (OpId, Vec<u8>),
>)
    requires
        old(queue).wf(),
    ensures
        final(queue).wf(),
        final(queue).capacity() == old(queue).capacity(),
        r.is_none() == (old(queue).records_since_reset() < crate::shared_queue::MAX_RECORDS
            && old(queue).used() + crate::shared_queue::padded_record_len(payload@.len() as int)
            <= old(queue).capacity()),
        r.is_none() ==> final(queue)@ == old(queue)@.push((op_id, payload@)),
        r.is_some() ==> r == Some((op_id, payload)) && *final(queue) == *old(queue),
{
    if queue.push(op_id, payload.as_slice()) {
        None
    } else {
        Some((op_id, payload))
    }
}

/// Promise rejections that no handler has caught yet, keyed by promise
/// identity, oldest first. Each key appears at most once.
pub struct PromiseRejections<V> {
    entries: Vec<(i32, V)>,
}

/// `s` holds an entry under `key`.
pub open spec fn has_key<V>(s: Seq<(i32, V)>, key: i32) -> bool {
    exists|i: int| 0 <= i < s.len() && #[trigger] s[i].0 == key
}

impl<V> PromiseRejections<V> {
    pub closed spec fn entries(&self) -> Seq<(i32, V)> {
        self.entries@
    }

    pub closed spec fn wf(&self) -> bool {
        forall|a: int, b: int|
            0 <= a < b < self.entries@.len() ==> self.entries@[a].0 != self.entries@[b].0
    }

    pub fn new() -> (r: Self)
        ensures
            r.wf(),
            r.entries() == Seq::<(i32, V)>::empty(),
    {
        PromiseRejections { entries: Vec::new() }
    }

    pub fn is_empty(&self) -> (r: bool)
        ensures
            r == (self.entries().len() == 0),
    {
        self.entries.len() == 0
    }

    fn position(&self, key: i32) -> (r: Option<usize>)
        requires
            self.wf(),
        ensures
            r.is_none() == !has_key(self.entries(), key),
            r.is_some() ==> r.unwrap() < self.entries().len() && self.entries()[r.unwrap() as int].0
                == key,
    {
        let mut i: usize = 0;
        while i < self.entries.len()
            invariant
                i <= self.entries@.len(),
                forall|j: int| 0 <= j < i ==> self.entries@[j].0 != key,
            decreases self.entries@.len() - i,
        {
            if self.entries[i].0 == key {
                return Some(i);
            }
            i = i + 1;
        }
        None
    }

    /// Records the rejection of promise `key`; a later one for the same
    /// promise takes the place of the earlier.
    pub fn insert(&mut self, key: i32, value: V)
        requires
            old(self).wf(),
        ensures
            final(self).wf(),
            !has_key(old(self).entries(), key) ==> final(self).entries() == old(self).entries().push(
                (key, value),
            ),
            has_key(old(self).entries(), key) ==> exists|i: int|
                0 <= i < old(self).entries().len() && old(self).entries()[i].0 == key
                    && final(self).entries() == old(self).entries().update(i, (key, value)),
    {
        match self.position(key) {
            Some(i) => {
                self.entries.set(i, (key, value));
                assert(self.entries@ == old(self).entries@.update(i as int, (key, value)));
            },
            None => {
                self.entries.push((key, value));
                assert forall|a: int, b: int| 0 <= a < b < self.entries@.len() implies self.entries@[a].0
                    != self.entries@[b].0 by {
                    if b == self.entries@.len() - 1 {
                        assert(old(self).entries@[a].0 != key);
                    }
                }
            },
        }
    }

    /// A handler was attached to promise `key`: its rejection, if recorded,
    /// is dropped silently and handed back.
    pub fn remove(&mut self, key: i32) -> (r: Option<V>)
        requires
            old(self).wf(),
        ensures
            final(self).wf(),
            !has_key(old(self).entries(), key) ==> r.is_none() && final(self).entries() == old(
                self,
            ).entries(),
            has_key(old(self).entries(), key) ==> exists|i: int|
                0 <= i < old(self).entries().len() && old(self).entries()[i].0 == key && r == Some(
                    old(self).entries()[i].1,
                ) && final(self).entries() == old(self).entries().remove(i),
    {
        match self.position(key) {
            Some(i) => {
                let (_, v) = self.entries.remove(i);
                assert forall|a: int, b: int| 0 <= a < b < self.entries@.len() implies self.entries@[a].0
                    != self.entries@[b].0 by {
                    if a >= i {
                        assert(old(self).entries@[a + 1].0 != old(self).entries@[b + 1].0);
                    } else if b >= i {
                        assert(old(self).entries@[a].0 != old(self).entries@[b + 1].0);
                    }
                }
                Some(v)
            },
            None => None,
        }
    }

    /// Takes the oldest recorded rejection, to be reported as an error.
    pub fn take_next(&mut self) -> (r: Option<(i32, V)>)
        requires
            old(self).wf(),
        ensures
            final(self).wf(),
            old(self).entries().len() == 0 ==> r.is_none() && final(self).entries() == old(
                self,
            ).entries(),
            old(self).entries().len() > 0 ==> r == Some(old(self).entries()[0])
                && final(self).entries() == old(self).entries().drop_first(),
    {
        if self.entries.len() == 0 {
            None
        } else {
            let e = self.entries.remove(0);
            assert(self.entries@ =~= old(self).entries@.drop_first());
            assert forall|a: int, b: int| 0 <= a < b < self.entries@.len() implies self.entries@[a].0
                != self.entries@[b].0 by {
                assert(old(self).entries@[a + 1].0 != old(self).entries@[b + 1].0);
            }
            Some(e)
        }
    }
}

} // verus!
