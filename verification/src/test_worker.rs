//! Registry of native workers, used to exercise native worker failure recovery.
//!
//! The registry maps each worker's identifier to a handle on that worker.
//! Whether a handle still leads to a worker, and whether that worker has been
//! closed, is found out by the caller's `upgrade` and `is_closed` functions:
//! their outcome depends on the state of the workers, so the contracts below
//! speak of what each call was observed to return.

use std::collections::HashMap;
use vstd::prelude::*;
use vstd::std_specs::hash::spec_keys_iter;
use vstd::std_specs::iter::IteratorSpec;

verus! {

broadcast use vstd::std_specs::hash::group_hash_axioms;

/// Identifier of a worker: the 128-bit value of the worker's UUID. Two
/// identifiers are ordered as the UUIDs they stand for are.
pub type WorkerId = u128;

/// The registered workers, keyed by identifier.
pub struct WorkerRegistry<H> {
    workers: HashMap<WorkerId, H>,
}

impl<H> View for WorkerRegistry<H> {
    type V = Map<WorkerId, H>;

    closed spec fn view(&self) -> Map<WorkerId, H> {
        self.workers@
    }
}

impl<H> WorkerRegistry<H> {
    /// An empty registry.
    pub fn new() -> (registry: Self)
        ensures
            registry@ == Map::<WorkerId, H>::empty(),
    {
        WorkerRegistry { workers: HashMap::new() }
    }
}

/// Registers `worker` under `worker_id`, replacing any handle registered
/// under that identifier before.
pub fn register<H>(registry: &mut WorkerRegistry<H>, worker_id: WorkerId, worker: H)
    ensures
        final(registry)@ == old(registry)@.insert(worker_id, worker),
        forall|gone: spec_fn(H) -> bool| #[trigger]
            call_effect(old(registry)@, RegistryCall::Register(worker_id, worker), final(registry)@, gone),
{
    let _ = registry.workers.insert(worker_id, worker);
}

/// Removes the worker registered under `worker_id`, if any.
pub fn unregister<H>(registry: &mut WorkerRegistry<H>, worker_id: WorkerId)
    ensures
        final(registry)@ == old(registry)@.remove(worker_id),
        forall|gone: spec_fn(H) -> bool| #[trigger]
            call_effect(old(registry)@, RegistryCall::Unregister(worker_id), final(registry)@, gone),
{
    let _ = registry.workers.remove(&worker_id);
}


/// A sequence of identifiers in strictly ascending order: sorted, and with
/// no identifier twice.
spec fn strictly_ascending(ids: Seq<WorkerId>) -> bool {
    forall|i: int, j: int| 0 <= i < j < ids.len() ==> ids[i] < ids[j]
}

/// A call on the registry, as the laws over a history of calls speak of it.
pub enum RegistryCall<H> {
    /// [`register`] of a handle under an identifier.
    Register(WorkerId, H),
    /// [`unregister`] of an identifier.
    Unregister(WorkerId),
    /// [`close_worker`] of an identifier.
    Close(WorkerId),
    /// [`worker_ids`].
    ListIds,
}

/// `call`, made on a registry holding `before`, may leave it holding
/// `after`. `gone` holds of every handle that a probe of [`worker_ids`] saw
/// lead to no open worker.
pub open spec fn call_effect<H>(
    before: Map<WorkerId, H>,
    call: RegistryCall<H>,
    after: Map<WorkerId, H>,
    gone: spec_fn(H) -> bool,
) -> bool {
    match call {
        RegistryCall::Register(id, worker) => after == before.insert(id, worker),
        RegistryCall::Unregister(id) => after == before.remove(id),
        RegistryCall::Close(id) => after == before.remove(id),
        RegistryCall::ListIds => {
            &&& forall|id: WorkerId| #[trigger]
                after.contains_key(id) ==> before.contains_key(id) && after[id] == before[id]
            &&& forall|id: WorkerId|
                before.contains_key(id) && !after.contains_key(id) ==> gone(#[trigger] before[id])
        },
    }
}

/// `call` registers a handle under `id`.
pub open spec fn registers<H>(call: RegistryCall<H>, id: WorkerId) -> bool {
    call matches RegistryCall::Register(x, _) && x == id
}

/// `call` names `id`: it registers, unregisters or closes that identifier.
pub open spec fn names<H>(call: RegistryCall<H>, id: WorkerId) -> bool {
    match call {
        RegistryCall::Register(x, _) => x == id,
        RegistryCall::Unregister(x) => x == id,
        RegistryCall::Close(x) => x == id,
        RegistryCall::ListIds => false,
    }
}

/// `states` are the contents of a registry along the calls `calls`:
/// `calls[i]`, made on `states[i]`, left `states[i + 1]`.
pub open spec fn is_history<H>(
    states: Seq<Map<WorkerId, H>>,
    calls: Seq<RegistryCall<H>>,
    gone: spec_fn(H) -> bool,
) -> bool {
    &&& states.len() == calls.len() + 1
    &&& forall|i: int|
        #![trigger calls[i]]
        0 <= i < calls.len() ==> call_effect(states[i], calls[i], states[i + 1], gone)
}

/// `upgrade` and `is_closed` may be called on `worker`, and `is_closed` on
/// whatever `upgrade` hands back.
pub open spec fn can_probe<H, S, U: Fn(&H) -> Option<S>, C: Fn(&S) -> bool>(
    upgrade: U,
    is_closed: C,
    worker: H,
) -> bool {
    &&& call_requires(upgrade, (&worker,))
    &&& forall|strong: S| #[trigger] call_requires(is_closed, (&strong,))
}

/// The handle `worker` was seen to lead to a worker that is not closed:
/// `upgrade` handed back a worker, and `is_closed` said it was open.
spec fn observed_open<H, S, U: Fn(&H) -> Option<S>, C: Fn(&S) -> bool>(
    upgrade: U,
    is_closed: C,
    worker: H,
) -> bool {
    exists|strong: S|
        #[trigger] call_ensures(upgrade, (&worker,), Some(strong)) && call_ensures(
            is_closed,
            (&strong,),
            false,
        )
}

/// The handle `worker` was seen not to lead to an open worker: either
/// `upgrade` found no worker behind it, or the worker it found was closed.
spec fn observed_gone<H, S, U: Fn(&H) -> Option<S>, C: Fn(&S) -> bool>(
    upgrade: U,
    is_closed: C,
    worker: H,
) -> bool {
    ||| call_ensures(upgrade, (&worker,), None)
    ||| exists|strong: S|
        #[trigger] call_ensures(upgrade, (&worker,), Some(strong)) && call_ensures(
            is_closed,
            (&strong,),
            true,
        )
}

/// Inserts `id` into the strictly ascending `ids` at its place.
fn insert_ascending(ids: &mut Vec<WorkerId>, id: WorkerId)
    requires
        strictly_ascending(old(ids)@),
        !old(ids)@.contains(id),
    ensures
        forall|i: int, j: int| 0 <= i < j < final(ids)@.len() ==> final(ids)@[i] < final(ids)@[j],
        forall|x: WorkerId| #[trigger] final(ids)@.contains(x) <==> (old(ids)@.contains(x) || x == id),
{
    let mut p: usize = 0;
    while p < ids.len() && ids[p] < id
        invariant
            0 <= p <= ids.len(),
            ids@ == old(ids)@,
            forall|j: int| 0 <= j < p ==> ids@[j] < id,
        decreases ids.len() - p,
    {
        p = p + 1;
    }
    proof {
        if p < ids.len() {
            assert(ids@[p as int] != id);
        }
    }
    let ghost before = ids@;
    ids.insert(p, id);
    proof {
        assert forall|x: WorkerId| #[trigger] ids@.contains(x) implies (before.contains(x) || x == id) by {
            let k = choose|k: int| 0 <= k < ids@.len() && ids@[k] == x;
            if k < p {
                assert(before[k] == x);
            } else if k > p {
                assert(before[k - 1] == x);
            }
        }
        assert forall|x: WorkerId| (before.contains(x) || x == id) implies #[trigger] ids@.contains(x) by {
            if x == id {
                assert(ids@[p as int] == x);
            } else {
                let k = choose|k: int| 0 <= k < before.len() && before[k] == x;
                if k < p {
                    assert(ids@[k] == x);
                } else {
                    assert(ids@[k + 1] == x);
                }
            }
        }
    }
}

/// The identifiers registered in `registry`, in no particular order.
fn registered_ids<H>(registry: &WorkerRegistry<H>) -> (ids: Vec<WorkerId>)
    ensures
        ids@.no_duplicates(),
        forall|id: WorkerId| #[trigger] ids@.contains(id) <==> registry@.contains_key(id),
{
    let ghost keys = spec_keys_iter(&registry.workers).remaining();
    let mut ids: Vec<WorkerId> = Vec::new();
    for id in it: registry.workers.keys()
        invariant
            it.seq() == keys,
            ids@.len() == it.index(),
            forall|j: int| 0 <= j < it.index() ==> ids@[j] == *keys[j],
    {
        ids.push(*id);
    }
    assert(ids@ =~= keys.unref());
    ids
}

/// `held` holds a worker found behind the handle registered under `id`.
pub open spec fn holds_id<S>(held: Seq<(WorkerId, S)>, id: WorkerId) -> bool {
    exists|m: int| 0 <= m < held.len() && #[trigger] held[m].0 == id
}

/// What [`worker_ids`] leaves behind, given the answers of its probes: the
/// registry went from `before` to `after`, and `ids` was listed. Every worker
/// kept was seen open, every worker dropped was seen released or closed, and
/// `ids` lists the kept identifiers in ascending order.
pub open spec fn worker_ids_outcome<H, S, U: Fn(&H) -> Option<S>, C: Fn(&S) -> bool>(
    upgrade: U,
    is_closed: C,
    before: Map<WorkerId, H>,
    after: Map<WorkerId, H>,
    ids: Seq<WorkerId>,
) -> bool {
    &&& forall|id: WorkerId| #[trigger]
        after.contains_key(id) ==> {
            &&& before.contains_key(id)
            &&& after[id] == before[id]
            &&& exists|strong: S|
                #[trigger] call_ensures(upgrade, (&before[id],), Some(strong)) && call_ensures(
                    is_closed,
                    (&strong,),
                    false,
                )
        }
    &&& forall|id: WorkerId|
        #![trigger before[id]]
        before.contains_key(id) && !after.contains_key(id) ==> {
            ||| call_ensures(upgrade, (&before[id],), None)
            ||| exists|strong: S|
                #[trigger] call_ensures(upgrade, (&before[id],), Some(strong)) && call_ensures(
                    is_closed,
                    (&strong,),
                    true,
                )
        }
    &&& forall|i: int, j: int| 0 <= i < j < ids.len() ==> ids[i] < ids[j]
    &&& forall|id: WorkerId| #[trigger] ids.contains(id) <==> after.contains_key(id)
}

/// With probes that answer as the functions `up` and `closed` say (the
/// handle `h` upgrades to `up(h)`, and the worker `s` is closed exactly when
/// `closed(s)`), [`worker_ids`] keeps exactly the workers whose handle
/// upgrades to a worker that is not closed, keeps their handles unchanged,
/// and lists exactly their identifiers, in ascending order. A closed or
/// released worker is never listed and is dropped from the registry; an open
/// one is never dropped.
pub proof fn lemma_worker_ids_keeps_exactly_the_open_workers<
    H,
    S,
    U: Fn(&H) -> Option<S>,
    C: Fn(&S) -> bool,
>(
    upgrade: U,
    is_closed: C,
    up: spec_fn(H) -> Option<S>,
    closed: spec_fn(S) -> bool,
    before: Map<WorkerId, H>,
    after: Map<WorkerId, H>,
    ids: Seq<WorkerId>,
)
    requires
        forall|h: H, r: Option<S>| #[trigger] call_ensures(upgrade, (&h,), r) ==> r == up(h),
        forall|s: S, b: bool| #[trigger] call_ensures(is_closed, (&s,), b) ==> b == closed(s),
        worker_ids_outcome(upgrade, is_closed, before, after, ids),
    ensures
        forall|id: WorkerId| #[trigger]
            after.contains_key(id) <==> before.contains_key(id) && (up(before[id]) matches Some(
                strong,
            ) && !closed(strong)),
        forall|id: WorkerId| #[trigger] after.contains_key(id) ==> after[id] == before[id],
        forall|id: WorkerId| #[trigger]
            ids.contains(id) <==> before.contains_key(id) && (up(before[id]) matches Some(strong)
                && !closed(strong)),
        forall|i: int, j: int| 0 <= i < j < ids.len() ==> ids[i] < ids[j],
{
    assert forall|id: WorkerId| #[trigger] after.contains_key(id) <==> before.contains_key(id) && (
    up(before[id]) matches Some(strong) && !closed(strong)) by {
        if after.contains_key(id) {
            let strong = choose|strong: S|
                #[trigger] call_ensures(upgrade, (&before[id],), Some(strong)) && call_ensures(
                    is_closed,
                    (&strong,),
                    false,
                );
            assert(up(before[id]) == Some(strong));
            assert(!closed(strong));
        }
        if before.contains_key(id) && !after.contains_key(id) {
            let h = before[id];
            if call_ensures(upgrade, (&h,), None) {
                assert(up(h) is None);
            } else {
                let strong = choose|strong: S|
                    #[trigger] call_ensures(upgrade, (&h,), Some(strong)) && call_ensures(
                        is_closed,
                        (&strong,),
                        true,
                    );
                assert(up(h) == Some(strong));
                assert(closed(strong));
            }
        }
    }
}

/// Returns live worker identifiers in deterministic order, together with the
/// workers that were found while looking for them.
///
/// Each registered handle is probed once: `upgrade` looks for the worker
/// behind it and `is_closed` tells whether that worker was closed. Handles
/// that lead to no open worker are dropped from the registry; the
/// identifiers of the others are returned in ascending order.
///
/// Every worker that `upgrade` handed back, open or closed, is returned
/// with its identifier, and none is dropped here: the caller lets them go
/// once it no longer holds the registry, so that a worker whose teardown
/// reaches the registry again does not find it held.
pub fn worker_ids<H, S, U: Fn(&H) -> Option<S>, C: Fn(&S) -> bool>(
    registry: &mut WorkerRegistry<H>,
    upgrade: U,
    is_closed: C,
) -> (result: (Vec<WorkerId>, Vec<(WorkerId, S)>))
    requires
        forall|id: WorkerId| #[trigger]
            old(registry)@.contains_key(id) ==> can_probe(upgrade, is_closed, old(registry)@[id]),
    ensures
        forall|id: WorkerId| #[trigger]
            final(registry)@.contains_key(id) ==> {
                &&& old(registry)@.contains_key(id)
                &&& final(registry)@[id] == old(registry)@[id]
                &&& exists|strong: S|
                    #[trigger] call_ensures(upgrade, (&old(registry)@[id],), Some(strong))
                        && call_ensures(is_closed, (&strong,), false)
            },
        forall|id: WorkerId|
            #![trigger old(registry)@[id]]
            old(registry)@.contains_key(id) && !final(registry)@.contains_key(id) ==> {
                ||| call_ensures(upgrade, (&old(registry)@[id],), None)
                ||| exists|strong: S|
                    #[trigger] call_ensures(upgrade, (&old(registry)@[id],), Some(strong))
                        && call_ensures(is_closed, (&strong,), true)
            },
        forall|i: int, j: int|
            0 <= i < j < result.0@.len() ==> result.0@[i] < result.0@[j],
        forall|id: WorkerId| #[trigger]
            result.0@.contains(id) <==> final(registry)@.contains_key(id),
        worker_ids_outcome(upgrade, is_closed, old(registry)@, final(registry)@, result.0@),
        call_effect(
            old(registry)@,
            RegistryCall::ListIds,
            final(registry)@,
            |worker: H|
                call_ensures(upgrade, (&worker,), None) || exists|strong: S|
                    #[trigger] call_ensures(upgrade, (&worker,), Some(strong)) && call_ensures(
                        is_closed,
                        (&strong,),
                        true,
                    ),
        ),
        forall|m: int|
            0 <= m < result.1@.len() ==> {
                let (id, strong) = #[trigger] result.1@[m];
                &&& old(registry)@.contains_key(id)
                &&& call_ensures(upgrade, (&old(registry)@[id],), Some(strong))
            },
        forall|a: int, b: int|
            0 <= a < b < result.1@.len() ==> #[trigger] result.1@[a].0 != #[trigger] result.1@[b].0,
        forall|id: WorkerId|
            old(registry)@.contains_key(id) && !#[trigger] holds_id(result.1@, id) ==> {
                &&& call_ensures(upgrade, (&old(registry)@[id],), None)
                &&& !final(registry)@.contains_key(id)
            },
{
    let ghost before = registry@;
    let keys = registered_ids(registry);
    let mut ids: Vec<WorkerId> = Vec::new();
    let mut held: Vec<(WorkerId, S)> = Vec::new();
    let mut i: usize = 0;
    assert forall|j: int| 0 <= j < keys.len() implies registry@.contains_key(#[trigger] keys@[j]) by {
        assert(keys@.contains(keys@[j]));
    }
    while i < keys.len()
        invariant
            0 <= i <= keys.len(),
            keys@.no_duplicates(),
            forall|id: WorkerId| #[trigger] keys@.contains(id) <==> before.contains_key(id),
            forall|id: WorkerId| #[trigger]
                before.contains_key(id) ==> can_probe(upgrade, is_closed, before[id]),
            forall|id: WorkerId| #[trigger]
                registry@.contains_key(id) ==> before.contains_key(id) && registry@[id]
                    == before[id],
            forall|j: int| i <= j < keys.len() ==> registry@.contains_key(#[trigger] keys@[j]),
            forall|j: int|
                0 <= j < i ==> {
                    &&& registry@.contains_key(#[trigger] keys@[j]) ==> observed_open(
                        upgrade,
                        is_closed,
                        before[keys@[j]],
                    )
                    &&& !registry@.contains_key(keys@[j]) ==> observed_gone(
                        upgrade,
                        is_closed,
                        before[keys@[j]],
                    )
                    &&& !holds_id(held@, keys@[j]) ==> call_ensures(
                        upgrade,
                        (&before[keys@[j]],),
                        None,
                    ) && !registry@.contains_key(keys@[j])
                },
            forall|m: int|
                0 <= m < held@.len() ==> {
                    let (id, strong) = #[trigger] held@[m];
                    &&& before.contains_key(id)
                    &&& call_ensures(upgrade, (&before[id],), Some(strong))
                    &&& keys@.take(i as int).contains(id)
                },
            forall|a: int, b: int|
                0 <= a < b < held@.len() ==> #[trigger] held@[a].0 != #[trigger] held@[b].0,
            strictly_ascending(ids@),
            forall|id: WorkerId| #[trigger]
                ids@.contains(id) <==> registry@.contains_key(id) && keys@.take(i as int).contains(
                    id,
                ),
        decreases keys.len() - i,
    {
        let id = keys[i];
        assert(keys@.contains(id));
        let ghost ids_before = ids@;
        let ghost held_before = held@;
        let ghost registry_before = registry@;
        let open = match registry.workers.get(&id) {
            Some(worker) => match upgrade(worker) {
                Some(strong) => {
                    let closed = is_closed(&strong);
                    held.push((id, strong));
                    !closed
                },
                None => false,
            },
            None => false,
        };
        proof {
            assert(!keys@.take(i as int).contains(id)) by {
                if keys@.take(i as int).contains(id) {
                    let k = choose|k: int| 0 <= k < i && keys@.take(i as int)[k] == id;
                    assert(keys@[k] == keys@[i as int]);
                }
            }
        }
        if open {
            insert_ascending(&mut ids, id);
        } else {
            let _ = registry.workers.remove(&id);
        }
        proof {
            assert forall|j: int| i + 1 <= j < keys.len() implies registry@.contains_key(
                #[trigger] keys@[j],
            ) by {
                assert(keys@[j] != keys@[i as int]);
            }
            assert forall|x: WorkerId| x != id && #[trigger] holds_id(held@, x) implies holds_id(
                held_before,
                x,
            ) by {
                let m = choose|m: int| 0 <= m < held@.len() && #[trigger] held@[m].0 == x;
                assert(held_before[m].0 == x);
            }
            assert forall|x: WorkerId| #[trigger] holds_id(held_before, x) implies holds_id(
                held@,
                x,
            ) by {
                let m = choose|m: int| 0 <= m < held_before.len() && #[trigger] held_before[m].0 == x;
                assert(held@[m].0 == x);
            }
            if held@.len() > held_before.len() {
                assert(held@[held_before.len() as int].0 == id);
                assert(holds_id(held@, id));
            } else {
                assert(held@ == held_before);
                assert(!holds_id(held@, id)) by {
                    if holds_id(held@, id) {
                        let m = choose|m: int| 0 <= m < held@.len() && #[trigger] held@[m].0 == id;
                        assert(keys@.take(i as int).contains(held_before[m].0));
                    }
                }
            }
            assert forall|j: int| 0 <= j < i implies #[trigger] keys@[j] != id by {
                assert(keys@.take(i as int)[j] == keys@[j]);
            }
        }
        let ghost seen_before = keys@.take(i as int);
        i = i + 1;
        proof {
            let seen = keys@.take(i as int);
            assert(seen =~= seen_before.push(id));
            assert forall|x: WorkerId| #[trigger] seen.contains(x) <==> seen_before.contains(x) || x
                == id by {
                if seen.contains(x) {
                    let k = choose|k: int| 0 <= k < seen.len() && seen[k] == x;
                    if k < seen_before.len() {
                        assert(seen_before[k] == x);
                    }
                }
                if seen_before.contains(x) {
                    let k = choose|k: int| 0 <= k < seen_before.len() && seen_before[k] == x;
                    assert(seen[k] == x);
                }
                if x == id {
                    assert(seen[seen_before.len() as int] == x);
                }
            }
            assert forall|x: WorkerId| #[trigger] ids@.contains(x) <==> registry@.contains_key(x)
                && seen.contains(x) by {
                assert(seen.contains(x) <==> seen_before.contains(x) || x == id);
                assert(ids_before.contains(x) <==> registry_before.contains_key(x)
                    && seen_before.contains(x));
            }
            assert forall|m: int| 0 <= m < held@.len() implies #[trigger] seen.contains(
                held@[m].0,
            ) by {
                if m < held_before.len() {
                    assert(held@[m] == held_before[m]);
                    assert(seen_before.contains(held_before[m].0));
                }
            }
            assert forall|a: int, b: int| 0 <= a < b < held@.len() implies #[trigger] held@[a].0
                != #[trigger] held@[b].0 by {
                if b >= held_before.len() {
                    assert(held@[a] == held_before[a]);
                    assert(seen_before.contains(held_before[a].0));
                }
            }
        }
    }
    proof {
        assert(keys@.take(keys.len() as int) =~= keys@);
        assert forall|id: WorkerId|
            #![trigger before[id]]
            before.contains_key(id) && !registry@.contains_key(id) implies {
            ||| call_ensures(upgrade, (&before[id],), None)
            ||| exists|strong: S|
                #[trigger] call_ensures(upgrade, (&before[id],), Some(strong)) && call_ensures(
                    is_closed,
                    (&strong,),
                    true,
                )
        } by {
            assert(keys@.contains(id));
            let j = choose|j: int| 0 <= j < keys.len() && keys@[j] == id;
            assert(observed_gone(upgrade, is_closed, before[keys@[j]]));
        }
        assert forall|id: WorkerId| #[trigger] registry@.contains_key(id) implies observed_open(
            upgrade,
            is_closed,
            before[id],
        ) by {
            assert(keys@.contains(id));
            let j = choose|j: int| 0 <= j < keys.len() && keys@[j] == id;
        }
        assert forall|id: WorkerId|
            before.contains_key(id) && !#[trigger] holds_id(held@, id) implies call_ensures(
            upgrade,
            (&before[id],),
            None,
        ) && !registry@.contains_key(id) by {
            assert(keys@.contains(id));
            let j = choose|j: int| 0 <= j < keys.len() && keys@[j] == id;
        }
    }
    (ids, held)
}

/// What [`close_worker`] found under the identifier it took out of the
/// registry.
pub enum Closing<S> {
    /// No worker was registered under the identifier.
    Unregistered,
    /// The registered handle led to no worker.
    Released,
    /// The worker had been closed already. It is handed back so that the
    /// caller lets it go once it no longer holds the registry.
    AlreadyClosed(S),
    /// The worker is open. The caller closes it once it no longer holds the
    /// registry.
    Open(S),
}

/// Closes the selected worker: takes it out of the registry and tells what
/// was found under `worker_id`.
///
/// The worker registered under `worker_id` is removed whatever happens next.
/// Its handle is then probed once, as in [`worker_ids`]. Any worker found
/// behind it is handed back, not dropped here: the caller closes an open one,
/// and lets a closed one go, only once it no longer holds the registry, so
/// that a worker whose teardown reaches the registry again does not find it
/// held. The selected worker was closed by this call exactly when the
/// outcome is [`Closing::Open`].
pub fn close_worker<H, S, U: Fn(&H) -> Option<S>, C: Fn(&S) -> bool>(
    registry: &mut WorkerRegistry<H>,
    worker_id: WorkerId,
    upgrade: U,
    is_closed: C,
) -> (closing: Closing<S>)
    requires
        old(registry)@.contains_key(worker_id) ==> can_probe(
            upgrade,
            is_closed,
            old(registry)@[worker_id],
        ),
    ensures
        final(registry)@ == old(registry)@.remove(worker_id),
        forall|gone: spec_fn(H) -> bool| #[trigger]
            call_effect(old(registry)@, RegistryCall::Close(worker_id), final(registry)@, gone),
        closing is Unregistered <==> !old(registry)@.contains_key(worker_id),
        closing is Released ==> call_ensures(upgrade, (&old(registry)@[worker_id],), None),
        closing matches Closing::AlreadyClosed(strong) ==> {
            &&& old(registry)@.contains_key(worker_id)
            &&& call_ensures(upgrade, (&old(registry)@[worker_id],), Some(strong))
            &&& call_ensures(is_closed, (&strong,), true)
        },
        closing matches Closing::Open(strong) ==> {
            &&& old(registry)@.contains_key(worker_id)
            &&& call_ensures(upgrade, (&old(registry)@[worker_id],), Some(strong))
            &&& call_ensures(is_closed, (&strong,), false)
        },
{
    let handle = match registry.workers.remove(&worker_id) {
        Some(handle) => handle,
        None => return Closing::Unregistered,
    };
    let strong = match upgrade(&handle) {
        Some(strong) => strong,
        None => return Closing::Released,
    };
    if is_closed(&strong) {
        Closing::AlreadyClosed(strong)
    } else {
        Closing::Open(strong)
    }
}

/// Two strictly ascending sequences that hold the same identifiers are the
/// same sequence: the order in which [`worker_ids`] lists the live workers
/// depends on nothing but which workers are live.
pub proof fn lemma_ascending_ids_are_unique(a: Seq<WorkerId>, b: Seq<WorkerId>)
    requires
        forall|i: int, j: int| 0 <= i < j < a.len() ==> a[i] < a[j],
        forall|i: int, j: int| 0 <= i < j < b.len() ==> b[i] < b[j],
        forall|id: WorkerId| #[trigger] a.contains(id) <==> b.contains(id),
    ensures
        a == b,
    decreases a.len(),
{
    if a.len() == 0 {
        if b.len() > 0 {
            assert(b.contains(b[0]));
            assert(!a.contains(b[0]));
        }
        assert(a =~= b);
    } else if b.len() == 0 {
        assert(a.contains(a[0]));
    } else {
        assert(a.contains(a[0]));
        assert(b.contains(b[0]));
        assert(b.contains(a[0]));
        assert(a.contains(b[0]));
        let i = choose|i: int| 0 <= i < b.len() && b[i] == a[0];
        let j = choose|j: int| 0 <= j < a.len() && a[j] == b[0];
        assert(i == 0) by {
            if i > 0 {
                assert(b[0] < b[i]);
                if j > 0 {
                    assert(a[0] < a[j]);
                }
            }
        }
        let ra = a.drop_first();
        let rb = b.drop_first();
        assert forall|id: WorkerId| #[trigger] ra.contains(id) <==> rb.contains(id) by {
            if ra.contains(id) {
                let k = choose|k: int| 0 <= k < ra.len() && ra[k] == id;
                assert(a[k + 1] == id);
                assert(a.contains(id));
                let m = choose|m: int| 0 <= m < b.len() && b[m] == id;
                assert(a[0] < a[k + 1]);
                if m == 0 {
                    assert(false);
                }
                assert(rb[m - 1] == id);
            }
            if rb.contains(id) {
                let k = choose|k: int| 0 <= k < rb.len() && rb[k] == id;
                assert(b[k + 1] == id);
                assert(b.contains(id));
                assert(a.contains(id));
                let m = choose|m: int| 0 <= m < a.len() && a[m] == id;
                assert(b[0] < b[k + 1]);
                if m == 0 {
                    assert(false);
                }
                assert(ra[m - 1] == id);
            }
        }
        lemma_ascending_ids_are_unique(ra, rb);
        assert(a =~= seq![a[0]] + ra);
        assert(b =~= seq![b[0]] + rb);
    }
}

/// Registering a worker under a fresh identifier and then unregistering that
/// identifier leaves the registry as it was.
pub proof fn lemma_unregister_undoes_register<H>(
    registry: Map<WorkerId, H>,
    worker_id: WorkerId,
    worker: H,
)
    requires
        !registry.contains_key(worker_id),
    ensures
        registry.insert(worker_id, worker).remove(worker_id) == registry,
{
    assert(registry.insert(worker_id, worker).remove(worker_id) =~= registry);
}

/// Registering twice under one identifier keeps only the second handle.
pub proof fn lemma_register_replaces<H>(
    registry: Map<WorkerId, H>,
    worker_id: WorkerId,
    first: H,
    second: H,
)
    ensures
        registry.insert(worker_id, first).insert(worker_id, second) == registry.insert(
            worker_id,
            second,
        ),
{
    assert(registry.insert(worker_id, first).insert(worker_id, second) =~= registry.insert(
        worker_id,
        second,
    ));
}

/// After [`close_worker`], the identifier is no longer registered, whatever
/// the worker's state was: a second `close_worker` of it finds it
/// [`Closing::Unregistered`], and [`worker_ids`] does not list it. The other
/// workers stay as they were.
pub proof fn lemma_closed_worker_is_forgotten<H>(registry: Map<WorkerId, H>, worker_id: WorkerId)
    ensures
        !registry.remove(worker_id).contains_key(worker_id),
        registry.remove(worker_id).remove(worker_id) == registry.remove(worker_id),
        forall|other: WorkerId|
            other != worker_id && #[trigger] registry.contains_key(other) ==> registry.remove(
                worker_id,
            ).contains_key(other) && registry.remove(worker_id)[other] == registry[other],
{
    assert(registry.remove(worker_id).remove(worker_id) =~= registry.remove(worker_id));
}

/// Closing an identifier that is not registered leaves the registry as it
/// was.
pub proof fn lemma_close_of_unknown_changes_nothing<H>(
    registry: Map<WorkerId, H>,
    worker_id: WorkerId,
)
    requires
        !registry.contains_key(worker_id),
    ensures
        registry.remove(worker_id) == registry,
{
    assert(registry.remove(worker_id) =~= registry);
}

/// An identifier that is not registered stays unregistered along any
/// history of calls in which no call registers it: neither [`unregister`],
/// [`close_worker`], [`worker_ids`] nor registering another identifier
/// brings it back. In every state of such a history, `close_worker` of it
/// finds it [`Closing::Unregistered`] and `worker_ids` does not list it.
pub proof fn lemma_absence_persists<H>(
    states: Seq<Map<WorkerId, H>>,
    calls: Seq<RegistryCall<H>>,
    gone: spec_fn(H) -> bool,
    id: WorkerId,
)
    requires
        is_history(states, calls, gone),
        !states[0].contains_key(id),
        forall|i: int| 0 <= i < calls.len() ==> !registers(#[trigger] calls[i], id),
    ensures
        forall|i: int| 0 <= i < states.len() ==> !(#[trigger] states[i]).contains_key(id),
    decreases calls.len(),
{
    if calls.len() > 0 {
        let n = calls.len() - 1;
        let prefix_states = states.drop_last();
        let prefix_calls = calls.drop_last();
        assert forall|i: int| 0 <= i < prefix_calls.len() implies call_effect(
            prefix_states[i],
            #[trigger] prefix_calls[i],
            prefix_states[i + 1],
            gone,
        ) by {
            assert(call_effect(states[i], calls[i], states[i + 1], gone));
        }
        assert forall|i: int| 0 <= i < prefix_calls.len() implies !registers(
            #[trigger] prefix_calls[i],
            id,
        ) by {
            assert(!registers(calls[i], id));
        }
        lemma_absence_persists(prefix_states, prefix_calls, gone, id);
        assert(!prefix_states[n].contains_key(id));
        assert(call_effect(states[n], calls[n], states[n + 1], gone));
        assert(!registers(calls[n], id));
        assert forall|i: int| 0 <= i < states.len() implies !(#[trigger] states[i]).contains_key(
            id,
        ) by {
            if i < n + 1 {
                assert(states[i] == prefix_states[i]);
            }
        }
    }
}

/// A worker registered under `id` stays registered, with the same handle,
/// along any history of calls in which no call names `id` and no probe of
/// [`worker_ids`] saw its handle lead to no open worker. In every state of
/// such a history, `worker_ids` lists it.
pub proof fn lemma_registration_persists<H>(
    states: Seq<Map<WorkerId, H>>,
    calls: Seq<RegistryCall<H>>,
    gone: spec_fn(H) -> bool,
    id: WorkerId,
)
    requires
        is_history(states, calls, gone),
        states[0].contains_key(id),
        !gone(states[0][id]),
        forall|i: int| 0 <= i < calls.len() ==> !names(#[trigger] calls[i], id),
    ensures
        forall|i: int|
            0 <= i < states.len() ==> (#[trigger] states[i]).contains_key(id) && states[i][id]
                == states[0][id],
    decreases calls.len(),
{
    if calls.len() > 0 {
        let n = calls.len() - 1;
        let prefix_states = states.drop_last();
        let prefix_calls = calls.drop_last();
        assert forall|i: int| 0 <= i < prefix_calls.len() implies call_effect(
            prefix_states[i],
            #[trigger] prefix_calls[i],
            prefix_states[i + 1],
            gone,
        ) by {
            assert(call_effect(states[i], calls[i], states[i + 1], gone));
        }
        assert forall|i: int| 0 <= i < prefix_calls.len() implies !names(
            #[trigger] prefix_calls[i],
            id,
        ) by {
            assert(!names(calls[i], id));
        }
        lemma_registration_persists(prefix_states, prefix_calls, gone, id);
        assert(prefix_states[n].contains_key(id) && prefix_states[n][id] == states[0][id]);
        assert(call_effect(states[n], calls[n], states[n + 1], gone));
        assert(!names(calls[n], id));
        assert forall|i: int| 0 <= i < states.len() implies (#[trigger] states[i]).contains_key(id)
            && states[i][id] == states[0][id] by {
            if i < n + 1 {
                assert(states[i] == prefix_states[i]);
            }
        }
    }
}

/// Once [`close_worker`] or [`unregister`] of `id` has returned, `id` stays
/// unregistered until a call registers it again: a second `close_worker` of
/// it finds it [`Closing::Unregistered`], whatever the first one found, and
/// `worker_ids` does not list it.
pub proof fn lemma_forgotten_until_registered_again<H>(
    states: Seq<Map<WorkerId, H>>,
    calls: Seq<RegistryCall<H>>,
    gone: spec_fn(H) -> bool,
    id: WorkerId,
)
    requires
        is_history(states, calls, gone),
        calls.len() > 0,
        calls[0] == RegistryCall::<H>::Close(id) || calls[0] == RegistryCall::<H>::Unregister(id),
        forall|i: int| 1 <= i < calls.len() ==> !registers(#[trigger] calls[i], id),
    ensures
        forall|i: int| 1 <= i < states.len() ==> !(#[trigger] states[i]).contains_key(id),
{
    assert(call_effect(states[0], calls[0], states[1], gone));
    let later_states = states.drop_first();
    let later_calls = calls.drop_first();
    assert forall|i: int| 0 <= i < later_calls.len() implies call_effect(
        later_states[i],
        #[trigger] later_calls[i],
        later_states[i + 1],
        gone,
    ) by {
        assert(call_effect(states[i + 1], calls[i + 1], states[i + 2], gone));
    }
    assert forall|i: int| 0 <= i < later_calls.len() implies !registers(
        #[trigger] later_calls[i],
        id,
    ) by {
        assert(!registers(calls[i + 1], id));
    }
    lemma_absence_persists(later_states, later_calls, gone, id);
    assert forall|i: int| 1 <= i < states.len() implies !(#[trigger] states[i]).contains_key(id) by {
        assert(states[i] == later_states[i - 1]);
    }
}

} // verus!
