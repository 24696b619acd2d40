//! The pool of workers that a handler manages: one worker per connection, each
//! with the handler's data for it.
use vstd::prelude::*;

use crate::seq_util::{first_index, lemma_first_index, lemma_first_index_is, lemma_first_index_none};

verus! {

/// A worker of the pool: its id and the handler's data for it.
pub struct Worker<D> {
    pub id: usize,
    pub data: D,
}

impl<D: DeepView> DeepView for Worker<D> {
    type V = (usize, D::V);

    open spec fn deep_view(&self) -> (usize, D::V) {
        (self.id, self.data.deep_view())
    }
}

impl<D> Worker<D> {
    /// The worker's id.
    pub fn id(&self) -> (r: usize)
        ensures
            r == self.id,
    {
        self.id
    }

    /// The handler's data for this worker.
    pub fn data(&self) -> (r: &D)
        ensures
            *r == self.data,
    {
        &self.data
    }

    /// The handler's data for this worker, to change it.
    pub fn data_mut(&mut self) -> (r: &mut D)
        ensures
            *r == old(self).data,
            final(self).id == old(self).id,
            final(self).data == *final(r),
    {
        &mut self.data
    }
}

/// The predicate "the worker's id is `id`".
pub open spec fn has_id<V>(id: usize) -> spec_fn((usize, V)) -> bool {
    |w: (usize, V)| w.0 == id
}

/// The workers of a handler and the id that the next one gets.
pub struct HandlerContext<D> {
    pub workers: Vec<Worker<D>>,
    pub next_id: usize,
}

/// The ids in `ws` are distinct and all below `next_id`.
pub open spec fn ids_fresh<V>(ws: Seq<(usize, V)>, next_id: nat) -> bool {
    &&& forall|i: int| 0 <= i < ws.len() ==> (#[trigger] ws[i]).0 < next_id
    &&& forall|i: int, j: int| 0 <= i < ws.len() && 0 <= j < ws.len() && i != j ==> ws[i].0 != ws[j].0
}

/// The id that follows `id`, wrapping around after `usize::MAX`.
pub open spec fn next_id_after(id: usize) -> usize {
    if id == usize::MAX {
        0
    } else {
        (id + 1) as usize
    }
}

/// Adding a worker with the next id keeps the ids distinct and below the next
/// one, as long as the next id has not reached `usize::MAX` (there it wraps
/// around to 0); removing a worker keeps them so.
pub proof fn law_ids_stay_fresh<V>(ws: Seq<(usize, V)>, next_id: usize, v: V, k: int)
    requires
        ids_fresh(ws, next_id as nat),
    ensures
        next_id < usize::MAX ==> ids_fresh(ws.push((next_id, v)), next_id_after(next_id) as nat),
        0 <= k < ws.len() ==> ids_fresh(ws.remove(k), next_id as nat),
{
    let p = ws.push((next_id, v));
    assert forall|i: int, j: int| 0 <= i < p.len() && 0 <= j < p.len() && i != j implies p[i].0 != p[j].0 by {
        if i < ws.len() && j < ws.len() {
            assert(p[i] == ws[i] && p[j] == ws[j]);
        } else if i < ws.len() {
            assert(p[i] == ws[i]);
        } else {
            assert(p[j] == ws[j]);
        }
    }
    if 0 <= k < ws.len() {
        let r = ws.remove(k);
        assert forall|i: int, j: int| 0 <= i < r.len() && 0 <= j < r.len() && i != j implies r[i].0 != r[j].0 by {
            let a = if i >= k { i + 1 } else { i };
            let b = if j >= k { j + 1 } else { j };
            assert(r[i] == ws[a] && r[j] == ws[b]);
        }
        assert forall|i: int| 0 <= i < r.len() implies (#[trigger] r[i]).0 < next_id by {
            let a = if i >= k { i + 1 } else { i };
            assert(r[i] == ws[a]);
        }
    }
}

/// Creates an empty pool.
pub fn create_handler<D>() -> (ctx: HandlerContext<D>)
    ensures
        ctx.workers@.len() == 0,
        ctx.next_id == 0,
{
    HandlerContext { workers: Vec::new(), next_id: 0 }
}

impl<D> HandlerContext<D> {
    /// The position of the first worker, in creation order, for which `pred` holds.
    pub fn find_mut<F: Fn(usize, &D) -> bool>(&self, pred: F) -> (r: Option<usize>)
        requires
            forall|i: int|
                0 <= i < self.workers@.len() ==> pred.requires(
                    (self.workers@[i].id, &(#[trigger] self.workers@[i]).data),
                ),
        ensures
            r matches Some(i) ==> i < self.workers@.len() && pred.ensures(
                (self.workers@[i as int].id, &self.workers@[i as int].data),
                true,
            ),
            forall|j: int|
                0 <= j < self.workers@.len() && (r matches Some(i) ==> j < i) ==> pred.ensures(
                    (self.workers@[j].id, &(#[trigger] self.workers@[j]).data),
                    false,
                ),
    {
        let mut i: usize = 0;
        while i < self.workers.len()
            invariant
                i <= self.workers@.len(),
                forall|k: int|
                    0 <= k < self.workers@.len() ==> pred.requires(
                        (self.workers@[k].id, &(#[trigger] self.workers@[k]).data),
                    ),
                forall|j: int|
                    0 <= j < i ==> pred.ensures(
                        (self.workers@[j].id, &(#[trigger] self.workers@[j]).data),
                        false,
                    ),
            decreases self.workers@.len() - i,
        {
            let w = &self.workers[i];
            if pred(w.id, &w.data) {
                return Some(i);
            }
            i += 1;
        }
        None
    }

    /// The position of the worker with id `id`.
    pub fn position(&self, id: usize) -> (r: Option<usize>)
        where D: DeepView
        ensures
            r matches Some(i) ==> i as int == first_index(self.workers.deep_view(), has_id(id)),
            r is None ==> first_index(self.workers.deep_view(), has_id(id)) == -1,
            r matches Some(i) ==> i < self.workers@.len() && self.workers@[i as int].id == id,
    {
        let ghost ws = self.workers.deep_view();
        let mut i: usize = 0;
        while i < self.workers.len()
            invariant
                i <= self.workers@.len(),
                ws == self.workers.deep_view(),
                forall|j: int| 0 <= j < i ==> !has_id::<D::V>(id)(#[trigger] ws[j]),
            decreases self.workers@.len() - i,
        {
            if self.workers[i].id == id {
                proof {
                    lemma_first_index_is(ws, has_id::<D::V>(id), i as int);
                }
                return Some(i);
            }
            i += 1;
        }
        proof {
            lemma_first_index_none(ws, has_id::<D::V>(id));
        }
        None
    }

    /// Adds a worker with `data` and returns its id; the next id wraps around
    /// after `usize::MAX`.
    pub fn create(&mut self, data: D) -> (id: usize)
        ensures
            id == old(self).next_id,
            final(self).next_id == next_id_after(old(self).next_id),
            final(self).workers@ == old(self).workers@.push(Worker { id, data }),
    {
        let id = self.next_id;
        self.next_id = self.next_id.wrapping_add(1);
        self.workers.push(Worker { id, data });
        id
    }

    /// Removes the worker with id `id` and returns its data.
    pub fn remove(&mut self, id: usize) -> (r: Option<D>)
        where D: DeepView
        ensures
            ({
                let i = first_index(old(self).workers.deep_view(), has_id(id));
                &&& i == -1 ==> r is None && final(self).workers@ == old(self).workers@
                &&& i >= 0 ==> r == Some(old(self).workers@[i].data)
                    && final(self).workers@ == old(self).workers@.remove(i)
            }),
            final(self).next_id == old(self).next_id,
    {
        match self.position(id) {
            Some(i) => {
                let w = self.workers.remove(i);
                Some(w.data)
            },
            None => None,
        }
    }
}

/// An event of a worker's connection task to the handler.
#[derive(Debug)]
pub enum WorkerEvent<T> {
    /// The connection of worker `id` closed.
    Closed(usize),
    /// A message of worker `id`.
    User(usize, T),
}

/// A command of the handler to a worker's connection task.
#[derive(Debug)]
pub enum WorkerCommand<T> {
    /// Close the connection.
    Close,
    /// A command for the worker.
    User(T),
}

/// What a connection task does with the next command it receives: it hands a
/// worker command to the worker, and stops on a request to close or when the
/// handler is gone (no command).
pub fn command_to_handle<T>(command: Option<WorkerCommand<T>>) -> (r: Option<T>)
    ensures
        match command {
            Some(WorkerCommand::User(c)) => r == Some(c),
            _ => r is None,
        },
{
    match command {
        Some(WorkerCommand::User(c)) => Some(c),
        _ => None,
    }
}

} // verus!
