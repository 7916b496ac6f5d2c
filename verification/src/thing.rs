//! Things: the nodes of a graph.
use crate::connection::Connection;
use crate::model::{unflagged, ThingView};
use crate::proofs::lemma_unflagged_within;
use crate::visit::{
    accepts_all, all_taken, answers_of, first_taken, judges_all, scan_all, scan_first, verdicts_of,
    Do,
};
use crate::things::Things;
use vstd::prelude::*;
use vstd::std_specs::cmp::PartialEqSpec;

verus! {

/// A handle to a node of a graph. It names a thing of the [`Things`]
/// container that created it; copying the handle copies the name, not the
/// thing.
pub struct Thing<T, C> {
    id: usize,
    marker: core::marker::PhantomData<(T, C)>,
}

impl<T, C> View for Thing<T, C> {
    type V = nat;

    /// The number of the thing in its container.
    closed spec fn view(&self) -> nat {
        self.id as nat
    }
}

impl<T, C> Clone for Thing<T, C> {
    /// Another handle to the same thing.
    fn clone(&self) -> (copy: Self)
        ensures
            copy == *self,
    {
        Thing { id: self.id, marker: core::marker::PhantomData }
    }
}

impl<T, C> Copy for Thing<T, C> {

}

/// What a thing holds: its payload, the connections attached to it, and
/// whether it is alive.
pub struct ThingInner<T, C> {
    connections: Vec<Connection<T, C>>,
    data: T,
    is_alive: bool,
}

impl<T, C> View for ThingInner<T, C> {
    type V = ThingView<T, C>;

    closed spec fn view(&self) -> ThingView<T, C> {
        ThingView { data: self.data, links: self.connections@, alive: self.is_alive }
    }
}

impl<T, C> ThingInner<T, C> {
    /// A thing that is alive and has no connections.
    pub fn new(data: T) -> (inner: Self)
        ensures
            inner@ == ThingView::<T, C>::fresh(data),
    {
        ThingInner { connections: Vec::new(), data, is_alive: true }
    }

    /// The payload.
    pub fn get_data(&self) -> (data: &T)
        ensures
            *data == self@.data,
    {
        &self.data
    }

    /// The payload, to be changed in place.
    pub(crate) fn get_data_mut(&mut self) -> (data: &mut T)
        ensures
            *data == old(self)@.data,
            final(self)@ == old(self)@.with_data(*final(data)),
    {
        &mut self.data
    }

    /// The local list.
    pub(crate) fn links(&self) -> (links: &Vec<Connection<T, C>>)
        ensures
            links@ == self@.links,
    {
        &self.connections
    }

    /// Puts `links` in the place of the local list.
    pub(crate) fn set_links(&mut self, links: Vec<Connection<T, C>>)
        ensures
            final(self)@ == old(self)@.with_links(links@),
    {
        self.connections = links;
    }

    /// Adds `connection` at the end of the local list.
    pub(crate) fn connect(&mut self, connection: Connection<T, C>)
        ensures
            final(self)@ == old(self)@.with_link(connection),
    {
        self.connections.push(connection);
    }

    /// Whether the thing is alive.
    pub fn is_alive(&self) -> (alive: bool)
        ensures
            alive == self@.alive,
    {
        self.is_alive
    }

    /// Marks the thing dead. The connections on its list are not touched.
    pub(crate) fn kill(&mut self)
        ensures
            final(self)@ == old(self)@.killed(),
    {
        self.is_alive = false;
    }
}

impl<T, C> Thing<T, C> {
    /// The handle with the number `id`.
    pub(crate) fn from_index(id: usize) -> (thing: Self)
        ensures
            thing@ == id,
    {
        Thing { id, marker: core::marker::PhantomData }
    }

    /// The number of this handle.
    pub(crate) fn index(&self) -> (id: usize)
        ensures
            id == self@,
    {
        self.id
    }

    /// Two handles with the same number are the same handle.
    pub proof fn lemma_same_number(a: Self, b: Self)
        requires
            a@ == b@,
        ensures
            a == b,
    {
    }

    /// Whether two handles name the same thing. This compares identity;
    /// [`Thing::eq`] compares payloads.
    pub fn same_as(&self, other: &Self) -> (same: bool)
        ensures
            same == (*self == *other),
    {
        self.id == other.id
    }

    /// Creates a thing in `graph` without registering it: it is alive, has no
    /// connections, and is on no list of the container.
    pub fn new(graph: &mut Things<T, C>, data: T) -> (thing: Self)
        ensures
            thing@ == old(graph)@.next_thing(),
            final(graph)@ == old(graph)@.with_thing(data),
            old(graph).wf() ==> final(graph).wf(),
            old(graph).wf() && old(graph)@.linked() ==> final(graph)@.linked(),
    {
        proof {
            if graph.wf() {
                graph@.lemma_create_thing_keeps(data);
            }
        }
        graph.push_thing(ThingInner::new(data))
    }

    /// Adds `connection` to the end of this thing's local list. Only the
    /// container's connection factories call this, so that no connection is
    /// ever seen from one of its ends only.
    pub(crate) fn connect(&self, graph: &mut Things<T, C>, connection: Connection<T, C>)
        requires
            old(graph)@.has_thing(*self),
        ensures
            final(graph)@ == old(graph)@.link(*self, connection),
    {
        graph.link(*self, connection);
    }

    /// Provides read-only access to this thing's payload: calls `access` on
    /// it once and returns what it returned.
    pub fn access<R, F: Fn(&T) -> R>(&self, graph: &Things<T, C>, access: F) -> (result: R)
        requires
            graph@.has_thing(*self),
            access.requires((&graph@.thing(*self).data,)),
        ensures
            access.ensures((&graph@.thing(*self).data,), result),
    {
        access(graph.thing_slot(*self).get_data())
    }

    /// Provides mutable access to this thing's payload: calls `access` on it
    /// once and returns what it returned. Nothing but the payload changes.
    pub fn access_mut<R, F: Fn(&mut T) -> R>(
        &self,
        graph: &mut Things<T, C>,
        access: F,
    ) -> (result: R)
        requires
            old(graph)@.has_thing(*self),
            forall|data: &mut T| *data == old(graph)@.thing(*self).data ==> access.requires((data,)),
        ensures
            exists|data: &mut T|
                {
                    &&& *data == old(graph)@.thing(*self).data
                    &&& access.ensures((data,), result)
                    &&& final(graph)@ == old(graph)@.set_thing(
                        *self,
                        old(graph)@.thing(*self).with_data(*final(data)),
                    )
                },
            old(graph).wf() ==> final(graph).wf(),
            old(graph).wf() && old(graph)@.linked() ==> final(graph)@.linked(),
    {
        let result = graph.mutate_thing(*self, access);
        proof {
            if old(graph).wf() {
                let before = old(graph)@;
                assert forall|k: int| 0 <= k < before.thing(*self).links.len() implies before.has_connection(
                    #[trigger] before.thing(*self).links[k],
                ) by {
                    assert(before.has_connection(before.nodes[self@ as int].links[k]));
                }
                before.lemma_set_thing_keeps(*self, graph@.thing(*self));
                assert(graph@ == before.set_thing(*self, graph@.thing(*self)));
            }
        }
        result
    }

    /// Returns whether this thing is still alive (not marked dead).
    pub fn is_alive(&self, graph: &Things<T, C>) -> (alive: bool)
        requires
            graph@.has_thing(*self),
        ensures
            alive == graph@.thing(*self).alive,
    {
        graph.thing_slot(*self).is_alive()
    }

    /// Marks this thing and every connection on its local list as dead.
    ///
    /// Returns the number of items killed: one for this thing, whether or not
    /// it was alive, and one for each connection that was alive before.
    pub(crate) fn kill(&self, graph: &mut Things<T, C>) -> (amount: usize)
        requires
            old(graph).wf(),
            old(graph)@.has_thing(*self),
        ensures
            final(graph)@ == old(graph)@.kill_thing(*self),
            amount == old(graph)@.kill_count(*self),
    {
        let ghost start = graph@;
        let n = graph.thing_slot(*self).links().len();
        let mut amount: usize = 0;
        let mut i: usize = 0;
        proof {
            start.lemma_kill_links_start(*self);
        }
        while i < n
            invariant
                start.wf(),
                start.has_thing(*self),
                n == start.thing(*self).links.len(),
                i <= n,
                graph@ == start.kill_links(*self, i as int),
                start.live_links(*self, i as int).finite(),
                amount == start.live_links(*self, i as int).len(),
                amount <= i,
            decreases n - i,
        {
            let connection = graph.thing_slot(*self).links()[i];
            proof {
                start.lemma_kill_links_step(*self, i as int);
            }
            if graph.connection_slot(connection).is_alive() {
                graph.mark_connection_dead(connection);
                amount += 1;
            }
            i += 1;
        }
        graph.mark_thing_dead(*self);
        if amount == usize::MAX {
            amount
        } else {
            amount + 1
        }
    }

    /// Shows the connections on this thing's local list to `do_for`, in
    /// order, and returns the first value that it takes. Dead connections
    /// are shown too.
    pub fn do_for_a_connection<R, F: Fn(&Connection<T, C>) -> Do<R>>(
        &self,
        graph: &Things<T, C>,
        do_for: F,
    ) -> (found: Option<R>)
        requires
            graph@.has_thing(*self),
            accepts_all(do_for, graph@.thing(*self).links),
        ensures
            first_taken(do_for, graph@.thing(*self).links, found),
    {
        scan_first(graph.thing_slot(*self).links(), do_for)
    }

    /// Shows every connection on this thing's local list to `do_for`, in
    /// order, and returns the values that it takes. Dead connections are
    /// shown too.
    pub fn do_for_all_connections<R, F: Fn(&Connection<T, C>) -> Do<R>>(
        &self,
        graph: &Things<T, C>,
        do_for: F,
    ) -> (found: Vec<R>)
        requires
            graph@.has_thing(*self),
            accepts_all(do_for, graph@.thing(*self).links),
        ensures
            exists|answers: Seq<Do<R>>|
                answers_of(do_for, graph@.thing(*self).links, answers) && found@ == all_taken(
                    answers,
                ),
    {
        scan_all(graph.thing_slot(*self).links(), do_for)
    }

    /// Removes from this thing's local list the connections that `remove`
    /// picks. `remove` is asked about each connection on the list, in order,
    /// in the graph as it is before the call.
    ///
    /// Only this thing's local list changes: no connection is killed, and
    /// neither the other end's list nor the registry is touched.
    pub fn remove_connections<F: Fn(&Things<T, C>, &Connection<T, C>) -> bool>(
        &self,
        graph: &mut Things<T, C>,
        remove: F,
    )
        requires
            old(graph)@.has_thing(*self),
            judges_all(remove, *old(graph), old(graph)@.thing(*self).links),
        ensures
            exists|verdicts: Seq<bool>|
                {
                    &&& verdicts_of(remove, *old(graph), old(graph)@.thing(*self).links, verdicts)
                    &&& final(graph)@ == old(graph)@.set_thing(
                        *self,
                        old(graph)@.thing(*self).with_links(
                            unflagged(old(graph)@.thing(*self).links, verdicts),
                        ),
                    )
                },
            old(graph).wf() ==> final(graph).wf(),
    {
        let mut kept: Vec<Connection<T, C>> = Vec::new();
        let ghost verdicts: Seq<bool> = Seq::empty();
        let ghost links = graph@.thing(*self).links;
        let n = graph.thing_slot(*self).links().len();
        let mut i: usize = 0;
        proof {
            assert(links.take(0) =~= Seq::empty());
        }
        while i < n
            invariant
                i <= n,
                n == links.len(),
                *graph == *old(graph),
                graph@.has_thing(*self),
                links == graph@.thing(*self).links,
                judges_all(remove, *graph, links),
                verdicts_of(remove, *graph, links.take(i as int), verdicts),
                kept@ == unflagged(links.take(i as int), verdicts),
            decreases n - i,
        {
            let connection = graph.thing_slot(*self).links()[i];
            let verdict = remove(&*graph, &connection);
            proof {
                let ghost before = verdicts;
                verdicts = verdicts.push(verdict);
                assert(verdicts.drop_last() =~= before);
                assert(links.take(i + 1).drop_last() =~= links.take(i as int));
                assert forall|j: int| 0 <= j < i + 1 implies remove.ensures(
                    (&*graph, &#[trigger] links.take(i + 1)[j]),
                    verdicts[j],
                ) by {
                    if j < i {
                        assert(links.take(i as int)[j] == links.take(i + 1)[j]);
                    }
                }
            }
            if !verdict {
                kept.push(connection);
            }
            i += 1;
        }
        proof {
            assert(links.take(i as int) =~= links);
            if old(graph).wf() {
                let before = old(graph)@;
                assert forall|k: int| 0 <= k < kept@.len() implies before.has_connection(
                    #[trigger] kept@[k],
                ) by {
                    lemma_unflagged_within(links, verdicts, k);
                    let j = choose|j: int| 0 <= j < links.len() && links[j] == kept@[k];
                    assert(before.has_connection(before.nodes[self@ as int].links[j]));
                }
                before.lemma_set_thing_keeps(*self, before.thing(*self).with_links(kept@));
            }
        }
        graph.set_links(*self, kept);
    }

    /// Removes the dead connections from this thing's local list.
    pub(crate) fn clean(&self, graph: &mut Things<T, C>)
        requires
            old(graph).wf(),
            old(graph)@.has_thing(*self),
        ensures
            final(graph)@ == old(graph)@.set_thing(
                *self,
                old(graph)@.thing(*self).with_links(
                    old(graph)@.live_connections(old(graph)@.thing(*self).links),
                ),
            ),
    {
        let kept = graph.live_connections(graph.thing_slot(*self).links());
        graph.set_links(*self, kept);
    }
}

impl<T: PartialEq, C> Thing<T, C> {
    /// Whether the payloads of two things are equal. Things are equal by
    /// payload, not by identity: see [`Thing::same_as`] for the latter.
    pub fn eq(&self, graph: &Things<T, C>, other: &Self) -> (equal: bool)
        requires
            graph@.has_thing(*self),
            graph@.has_thing(*other),
        ensures
            T::obeys_eq_spec() ==> equal == graph@.same_thing(*self, *other),
    {
        *graph.thing_slot(*self).get_data() == *graph.thing_slot(*other).get_data()
    }

    /// Whether the payload of this thing equals `value`.
    pub fn eq_data(&self, graph: &Things<T, C>, value: &T) -> (equal: bool)
        requires
            graph@.has_thing(*self),
        ensures
            T::obeys_eq_spec() ==> equal == graph@.thing_holds(*self, *value),
    {
        *graph.thing_slot(*self).get_data() == *value
    }
}

impl<T, C: PartialEq> Thing<T, C> {
    /// Tells whether a connection equal to `other` is on this thing's local
    /// list.
    pub fn is_connected_through(
        &self,
        graph: &Things<T, C>,
        other: &Connection<T, C>,
    ) -> (connected: bool)
        requires
            graph.wf(),
            graph@.has_thing(*self),
            graph@.has_connection(*other),
        ensures
            C::obeys_eq_spec() ==> connected == graph@.any_same(
                graph@.thing(*self).links,
                graph@.thing(*self).links.len() as int,
                *other,
            ),
            graph@.thing(*self).links.len() == 0 ==> !connected,
    {
        let links = graph.thing_slot(*self).links();
        let mut i: usize = 0;
        while i < links.len()
            invariant
                i <= links.len(),
                graph.wf(),
                graph@.has_thing(*self),
                graph@.has_connection(*other),
                links@ == graph@.thing(*self).links,
                C::obeys_eq_spec() ==> !graph@.any_same(links@, i as int, *other),
            decreases links.len() - i,
        {
            if links[i].eq(graph, other) {
                return true;
            }
            i += 1;
        }
        false
    }
}

} // verus!
