//! The dispatch pool: the one owner of the map from connection id to that
//! connection's outbound queue. Membership changes and outbound messages all
//! pass through it, one command at a time, so a message can never be routed
//! to a connection whose disconnection has been handled.

use crate::event::{Event, Origin};
use crate::server::{IResponse, Target};
use std::collections::HashMap;
use vstd::prelude::*;
use vstd::std_specs::hash::spec_keys_iter;
use vstd::std_specs::iter::IteratorSpec;

verus! {

/// A command to the pool, over queue handles of type `H`.
#[derive(Debug)]
pub enum Command<M, H> {
    /// A connection with this queue and id was accepted.
    Connect(H, usize),
    /// A message to deliver.
    Msg(IResponse<M>),
    /// The connection with this id is gone.
    Disconnect(usize),
}

/// What the owner of the queues must do for a command.
#[derive(Debug)]
pub enum Dispatch<M> {
    /// Nothing.
    Nothing,
    /// Enqueue the message for this connection, waiting while its queue is
    /// full; evict the connection if its queue is closed.
    Unicast(M, usize),
    /// Offer a copy of the message to each of these connections without
    /// waiting; evict each one whose queue refuses it.
    Broadcast(M, Vec<usize>),
}

impl<M> Dispatch<M> {
    /// The connections the message goes to.
    pub open spec fn destinations(self) -> Set<usize> {
        match self {
            Dispatch::Nothing => Set::empty(),
            Dispatch::Unicast(_, id) => set![id],
            Dispatch::Broadcast(_, ids) => ids@.to_set(),
        }
    }
}

/// The live connections a message for `target` goes to.
pub open spec fn routes<H>(live: Map<usize, H>, target: Target) -> Set<usize> {
    match target {
        Target::All => live.dom(),
        Target::One(id) => if live.dom().contains(id) {
            set![id]
        } else {
            Set::empty()
        },
    }
}

/// A message for a live connection goes to that connection alone; one for an
/// unknown or evicted id goes nowhere, so no other connection sees it.
pub proof fn unicast_reaches_only_its_target<H>(live: Map<usize, H>, id: usize)
    ensures
        live.dom().contains(id) ==> routes(live, Target::One(id)) == set![id],
        !live.dom().contains(id) ==> routes(live, Target::One(id)) == Set::<usize>::empty(),
{
}

/// A broadcast is offered to every live connection. When the offers to some of
/// them are refused and those are evicted, every other connection stays, with
/// its queue.
pub proof fn broadcast_evicts_only_refusers<H>(live: Map<usize, H>, outcomes: Seq<(usize, bool)>)
    ensures
        routes(live, Target::All) == live.dom(),
        live.remove_keys(refused(outcomes)).dom() == live.dom().difference(refused(outcomes)),
        forall|id: usize|
            live.dom().contains(id) && !refused(outcomes).contains(id) ==> #[trigger] live.remove_keys(
                refused(outcomes),
            )[id] == live[id],
{
    assert(live.remove_keys(refused(outcomes)).dom() =~= live.dom().difference(refused(outcomes)));
}

/// Once a disconnect of connection `x` has been seen, the eviction it calls
/// for leaves no route to `x`: a later message for `x` goes nowhere.
pub proof fn seen_disconnect_stops_unicast<M, H>(live: Map<usize, H>, e: Event<M>, x: usize)
    requires
        e is Disconnect,
    ensures
        e.evicted_by(Origin::Id(x)) == Some(x),
        routes(live.remove(x), Target::One(x)) == Set::<usize>::empty(),
{
}

/// The ids whose offer was refused, among `(id, accepted)` outcomes.
pub open spec fn refused(outcomes: Seq<(usize, bool)>) -> Set<usize> {
    Set::new(|id: usize| exists|i: int| 0 <= i < outcomes.len() && outcomes[i] == (id, false))
}

/// The map of live connections to their queues.
#[derive(Debug)]
pub struct Pool<H> {
    map: HashMap<usize, H>,
}

impl<H> View for Pool<H> {
    type V = Map<usize, H>;

    closed spec fn view(&self) -> Map<usize, H> {
        self.map@
    }
}

impl<H> Pool<H> {
    pub fn new() -> (r: Pool<H>)
        ensures
            r@ == Map::<usize, H>::empty(),
    {
        Pool { map: HashMap::new() }
    }

    /// The queue of a live connection.
    pub fn handle(&self, id: usize) -> (r: Option<&H>)
        ensures
            self@.dom().contains(id) ==> (r matches Some(h) && *h == self@[id]),
            !self@.dom().contains(id) ==> r is None,
    {
        self.map.get(&id)
    }

    /// Ids of the live connections, each once.
    pub fn ids(&self) -> (r: Vec<usize>)
        ensures
            r@.to_set() == self@.dom(),
            r@.no_duplicates(),
    {
        let mut r: Vec<usize> = Vec::new();
        let ghost keys = spec_keys_iter(&self.map).remaining();
        for k in it: self.map.keys()
            invariant
                it.seq() == keys,
                r@ == keys.take(it.index() as int).map_values(|k: &usize| *k),
        {
            r.push(*k);
            assert(r@ =~= keys.take(it.index() + 1).map_values(|k: &usize| *k));
        }
        assert(r@ =~= keys.map_values(|k: &usize| *k));
        assert(keys.unref() =~= keys.map_values(|k: &usize| *k));
        assert(r@.no_duplicates()) by {
            assert forall|i: int, j: int|
                0 <= i < r@.len() && 0 <= j < r@.len() && i != j implies r@[i] != r@[j] by {
                assert(keys[i] != keys[j]);
            }
        }
        r
    }

    /// Registers the queue of connection `id`.
    pub fn connect(&mut self, id: usize, handle: H)
        ensures
            final(self)@ == old(self)@.insert(id, handle),
    {
        self.map.insert(id, handle);
    }

    /// Drops connection `id`, if it is live.
    pub fn disconnect(&mut self, id: usize)
        ensures
            final(self)@ == old(self)@.remove(id),
    {
        self.map.remove(&id);
    }

    /// Settles a unicast: a connection whose queue refused the message is
    /// evicted; otherwise nothing changes.
    pub fn after_unicast(&mut self, id: usize, delivered: bool)
        ensures
            final(self)@ == if delivered {
                old(self)@
            } else {
                old(self)@.remove(id)
            },
    {
        if !delivered {
            self.disconnect(id);
        }
    }

    /// Settles a broadcast from the `(id, accepted)` outcome of each offer:
    /// exactly the connections that refused it are evicted.
    pub fn after_broadcast(&mut self, outcomes: &Vec<(usize, bool)>)
        ensures
            final(self)@ == old(self)@.remove_keys(refused(outcomes@)),
    {
        let mut i: usize = 0;
        while i < outcomes.len()
            invariant
                i <= outcomes@.len(),
                self@ == old(self)@.remove_keys(refused(outcomes@.take(i as int))),
            decreases outcomes@.len() - i,
        {
            let (id, accepted) = outcomes[i];
            self.after_unicast(id, accepted);
            i = i + 1;
            assert(self@ =~= old(self)@.remove_keys(refused(outcomes@.take(i as int)))) by {
                let before = outcomes@.take(i - 1);
                let now = outcomes@.take(i as int);
                assert forall|k: usize| refused(now).contains(k) <==> (refused(before).contains(k)
                    || (k == id && !accepted)) by {
                    if refused(now).contains(k) {
                        let j = choose|j: int| 0 <= j < now.len() && now[j] == (k, false);
                        if j < i - 1 {
                            assert(before[j] == now[j]);
                        }
                    }
                    if refused(before).contains(k) {
                        let j = choose|j: int| 0 <= j < before.len() && before[j] == (k, false);
                        assert(now[j] == before[j]);
                    }
                    if k == id && !accepted {
                        assert(now[i - 1] == (k, false));
                    }
                }
            }
        }
        assert(outcomes@.take(i as int) =~= outcomes@);
    }

    /// Handles one command: membership changes take effect at once; a message
    /// is resolved into the live connections it goes to. A message for every
    /// connection is always a broadcast, never a unicast that could wait.
    pub fn apply<M>(&mut self, cmd: Command<M, H>) -> (r: Dispatch<M>)
        ensures
            match cmd {
                Command::Connect(h, id) => final(self)@ == old(self)@.insert(id, h) && r is Nothing,
                Command::Disconnect(id) => final(self)@ == old(self)@.remove(id) && r is Nothing,
                Command::Msg(res) => {
                    &&& final(self)@ == old(self)@
                    &&& r.destinations() == routes(old(self)@, res.target)
                    &&& res.target is All ==> (r matches Dispatch::Broadcast(m, ids) && m
                        == res.msg && ids@.no_duplicates())
                    &&& res.target is One ==> !(r is Broadcast)
                    &&& r matches Dispatch::Unicast(m, _) ==> m == res.msg
                },
            },
    {
        match cmd {
            Command::Connect(h, id) => {
                self.connect(id, h);
                Dispatch::Nothing
            },
            Command::Disconnect(id) => {
                self.disconnect(id);
                Dispatch::Nothing
            },
            Command::Msg(res) => match res.target {
                Target::All => Dispatch::Broadcast(res.msg, self.ids()),
                Target::One(id) => {
                    if self.map.contains_key(&id) {
                        assert(routes(self@, res.target) =~= set![id]);
                        Dispatch::Unicast(res.msg, id)
                    } else {
                        assert(routes(self@, res.target) =~= Set::<usize>::empty());
                        Dispatch::Nothing
                    }
                },
            },
        }
    }
}

} // verus!
