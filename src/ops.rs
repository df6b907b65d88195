//! The op model and the registry that maps op ids to handlers.
use vstd::prelude::*;

verus! {

/// Identifies a registered op. Id 0 is never assigned: it marks a sync reply.
pub type OpId = u32;

/// What a handler returns: a payload at once, or a future of one. An
/// `AsyncUnref` future does not keep the isolate alive.
pub enum Op<F> {
    Sync(Vec<u8>),
    Async(F),
    AsyncUnref(F),
}

/// The ops registered on an isolate, in registration order. The op at
/// position `k` has id `k + 1`.
pub struct OpRegistry<H> {
    entries: Vec<(String, H)>,
}

impl<H> OpRegistry<H> {
    /// The registered names, in id order.
    pub closed spec fn names(&self) -> Seq<Seq<char>> {
        Seq::new(self.entries@.len(), |k: int| self.entries@[k].0@)
    }

    /// The handlers, in id order.
    pub closed spec fn handlers(&self) -> Seq<H> {
        Seq::new(self.entries@.len(), |k: int| self.entries@[k].1)
    }

    /// No name is registered twice.
    pub closed spec fn wf(&self) -> bool {
        &&& self.entries@.len() < u32::MAX
        &&& forall|a: int, b: int|
            0 <= a < b < self.entries@.len() ==> self.entries@[a].0@ != self.entries@[b].0@
    }

    pub fn new() -> (r: Self)
        ensures
            r.wf(),
            r.names() == Seq::<Seq<char>>::empty(),
            r.handlers() == Seq::<H>::empty(),
    {
        let r = OpRegistry { entries: Vec::new() };
        assert(r.names() =~= Seq::<Seq<char>>::empty());
        assert(r.handlers() =~= Seq::<H>::empty());
        r
    }

    /// The number of registered ops, which is also the largest id.
    pub fn len(&self) -> (r: usize)
        ensures
            r == self.names().len(),
    {
        self.entries.len()
    }

    /// The id of `name`, if it is registered.
    pub fn id_of(&self, name: &str) -> (r: Option<OpId>)
        requires
            self.wf(),
        ensures
            r.is_none() <==> !self.names().contains(name@),
            r.is_some() ==> 1 <= r.unwrap() <= self.names().len() && self.names()[r.unwrap() - 1]
                == name@,
    {
        let key = name.to_owned();
        let mut k: usize = 0;
        while k < self.entries.len()
            invariant
                self.wf(),
                key@ == name@,
                k <= self.entries@.len(),
                forall|j: int| 0 <= j < k ==> self.names()[j] != name@,
            decreases self.entries@.len() - k,
        {
            if self.entries[k].0 == key {
                assert(self.names()[k as int] == name@);
                return Some((k + 1) as u32);
            }
            k = k + 1;
        }
        assert(!self.names().contains(name@));
        None
    }

    /// Registers `handler` under `name` and returns its id, the next one in
    /// order. A name that is already registered is refused with `None`, and
    /// the registry stays as it was.
    pub fn register(&mut self, name: &str, handler: H) -> (r: Option<OpId>)
        requires
            old(self).wf(),
            old(self).names().len() + 1 < u32::MAX,
        ensures
            final(self).wf(),
            r.is_none() <==> old(self).names().contains(name@),
            r.is_none() ==> final(self).names() == old(self).names() && final(self).handlers()
                == old(self).handlers(),
            r.is_some() ==> r.unwrap() == old(self).names().len() + 1 && final(self).names()
                == old(self).names().push(name@) && final(self).handlers()
                == old(self).handlers().push(handler),
    {
        if self.id_of(name).is_some() {
            return None;
        }
        let id = (self.entries.len() + 1) as u32;
        self.entries.push((name.to_owned(), handler));
        assert(self.names() =~= old(self).names().push(name@));
        assert(self.handlers() =~= old(self).handlers().push(handler));
        assert forall|a: int, b: int| 0 <= a < b < self.entries@.len() implies self.entries@[a].0@
            != self.entries@[b].0@ by {
            if b == self.entries@.len() - 1 {
                assert(old(self).names()[a] == self.entries@[a].0@);
            }
        }
        Some(id)
    }

    /// The handler registered under `id`, if any.
    pub fn get(&self, id: OpId) -> (r: Option<&H>)
        ensures
            r.is_some() <==> 1 <= id <= self.handlers().len(),
            r.is_some() ==> *r.unwrap() == self.handlers()[id - 1],
    {
        if id == 0 || id as usize > self.entries.len() {
            None
        } else {
            Some(&self.entries[(id - 1) as usize].1)
        }
    }

    /// The name-to-id table reported to JavaScript, in id order.
    pub fn ops(&self) -> (r: Vec<(String, OpId)>)
        requires
            self.wf(),
        ensures
            r@.len() == self.names().len(),
            forall|k: int| 0 <= k < r@.len() ==> r@[k].0@ == self.names()[k] && r@[k].1 == k + 1,
    {
        let mut r: Vec<(String, OpId)> = Vec::new();
        let mut k: usize = 0;
        while k < self.entries.len()
            invariant
                self.wf(),
                k <= self.entries@.len(),
                r@.len() == k,
                forall|j: int| 0 <= j < k ==> r@[j].0@ == self.names()[j] && r@[j].1 == j + 1,
            decreases self.entries@.len() - k,
        {
            r.push((self.entries[k].0.clone(), (k + 1) as u32));
            k = k + 1;
        }
        r
    }
}

/// Ids are stable: registering, whether it succeeds or is refused, leaves
/// every op that was there under the id it had.
pub proof fn lemma_register_keeps_ids<H>(
    before: &OpRegistry<H>,
    after: &OpRegistry<H>,
    name: Seq<char>,
    handler: H,
)
    requires
        after.names() == before.names() || after.names() == before.names().push(name),
        after.handlers() == before.handlers() || after.handlers() == before.handlers().push(
            handler,
        ),
    ensures
        forall|k: int|
            0 <= k < before.names().len() ==> #[trigger] after.names()[k] == before.names()[k],
        forall|k: int|
            0 <= k < before.handlers().len() ==> #[trigger] after.handlers()[k]
                == before.handlers()[k],
{
}

} // verus!
