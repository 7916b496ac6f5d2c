//! The container that owns a graph.
use crate::connection::{Connection, ConnectionInner};
use crate::model::{percentage, ConnectionView, ThingView, ThingsView};
use crate::visit::{
    accepts_all, all_taken, answers_of, first_taken, judge_all, judges_all, scan_all, scan_first,
    verdicts_of, Do,
};
use crate::thing::{Thing, ThingInner};
use vstd::prelude::*;

verus! {

/// A container that owns the things and connections of a graph, keeps the
/// registries of both, and counts what was marked dead.
pub struct Things<T, C> {
    nodes: Vec<ThingInner<T, C>>,
    edges: Vec<ConnectionInner<T, C>>,
    things: Vec<Thing<T, C>>,
    connections: Vec<Connection<T, C>>,
    dead_amount: usize,
}

impl<T, C> View for Things<T, C> {
    type V = ThingsView<T, C>;

    closed spec fn view(&self) -> ThingsView<T, C> {
        ThingsView {
            nodes: Seq::new(self.nodes@.len(), |i: int| self.nodes@[i]@),
            edges: Seq::new(self.edges@.len(), |i: int| self.edges@[i]@),
            things: self.things@,
            connections: self.connections@,
            dead_amount: self.dead_amount as nat,
        }
    }
}

impl<T, C> Things<T, C> {
    /// Every handle held anywhere in the container was created by it.
    pub open spec fn wf(&self) -> bool {
        self@.wf()
    }

    /// Creates a new, empty graph container.
    pub fn new() -> (graph: Things<T, C>)
        ensures
            graph@ == ThingsView::<T, C>::empty(),
            graph.wf(),
    {
        let graph = Things {
            nodes: Vec::new(),
            edges: Vec::new(),
            things: Vec::new(),
            connections: Vec::new(),
            dead_amount: 0,
        };
        assert(graph@.nodes =~= Seq::empty());
        assert(graph@.edges =~= Seq::empty());
        graph
    }

    /// What `thing` holds.
    pub(crate) fn thing_slot(&self, thing: Thing<T, C>) -> (slot: &ThingInner<T, C>)
        requires
            self@.has_thing(thing),
        ensures
            slot@ == self@.thing(thing),
    {
        &self.nodes[thing.index()]
    }

    /// What `connection` holds.
    pub(crate) fn connection_slot(
        &self,
        connection: Connection<T, C>,
    ) -> (slot: &ConnectionInner<T, C>)
        requires
            self@.has_connection(connection),
        ensures
            slot@ == self@.connection(connection),
    {
        &self.edges[connection.index()]
    }

    /// Adds `connection` at the end of the local list of `thing`.
    pub(crate) fn link(&mut self, thing: Thing<T, C>, connection: Connection<T, C>)
        requires
            old(self)@.has_thing(thing),
        ensures
            final(self)@ == old(self)@.link(thing, connection),
    {
        let slot = &mut self.nodes[thing.index()];
        slot.connect(connection);
        assert(self@.nodes =~= old(self)@.link(thing, connection).nodes);
    }

    /// Puts `links` in the place of the local list of `thing`.
    pub(crate) fn set_links(&mut self, thing: Thing<T, C>, links: Vec<Connection<T, C>>)
        requires
            old(self)@.has_thing(thing),
        ensures
            final(self)@ == old(self)@.set_thing(thing, old(self)@.thing(thing).with_links(links@)),
    {
        let slot = &mut self.nodes[thing.index()];
        slot.set_links(links);
        assert(self@.nodes =~= old(self)@.nodes.update(
            thing@ as int,
            old(self)@.thing(thing).with_links(links@),
        ));
    }

    /// Marks `thing` dead. The connections on its list are not touched.
    pub(crate) fn mark_thing_dead(&mut self, thing: Thing<T, C>)
        requires
            old(self)@.has_thing(thing),
        ensures
            final(self)@ == old(self)@.set_thing(thing, old(self)@.thing(thing).killed()),
    {
        let slot = &mut self.nodes[thing.index()];
        slot.kill();
        assert(self@.nodes =~= old(self)@.nodes.update(
            thing@ as int,
            old(self)@.thing(thing).killed(),
        ));
    }

    /// Marks `connection` dead.
    pub(crate) fn mark_connection_dead(&mut self, connection: Connection<T, C>)
        requires
            old(self)@.has_connection(connection),
        ensures
            final(self)@ == old(self)@.kill_connection(connection),
    {
        let slot = &mut self.edges[connection.index()];
        slot.kill();
        assert(self@.edges =~= old(self)@.kill_connection(connection).edges);
    }

    /// Calls `access` once on the payload of `thing`.
    pub(crate) fn mutate_thing<R, F: Fn(&mut T) -> R>(
        &mut self,
        thing: Thing<T, C>,
        access: F,
    ) -> (result: R)
        requires
            old(self)@.has_thing(thing),
            forall|data: &mut T| *data == old(self)@.thing(thing).data ==> access.requires((data,)),
        ensures
            exists|data: &mut T|
                {
                    &&& *data == old(self)@.thing(thing).data
                    &&& access.ensures((data,), result)
                    &&& final(self)@ == old(self)@.set_thing(
                        thing,
                        old(self)@.thing(thing).with_data(*final(data)),
                    )
                },
    {
        let slot = &mut self.nodes[thing.index()];
        let result = access(slot.get_data_mut());
        assert(self@.nodes =~= old(self)@.nodes.update(
            thing@ as int,
            old(self)@.thing(thing).with_data(self@.thing(thing).data),
        ));
        result
    }

    /// Calls `access` once on the payload of `connection`.
    pub(crate) fn mutate_connection<R, F: Fn(&mut C) -> R>(
        &mut self,
        connection: Connection<T, C>,
        access: F,
    ) -> (result: R)
        requires
            old(self)@.has_connection(connection),
            forall|data: &mut C|
                *data == old(self)@.connection(connection).data ==> access.requires((data,)),
        ensures
            exists|data: &mut C|
                {
                    &&& *data == old(self)@.connection(connection).data
                    &&& access.ensures((data,), result)
                    &&& final(self)@ == old(self)@.set_connection(
                        connection,
                        old(self)@.connection(connection).with_data(*final(data)),
                    )
                },
    {
        let slot = &mut self.edges[connection.index()];
        let result = access(slot.get_data_mut());
        assert(self@.edges =~= old(self)@.edges.update(
            connection@ as int,
            old(self)@.connection(connection).with_data(self@.connection(connection).data),
        ));
        result
    }

    /// Takes `inner` in as a new thing, on no list, and returns its handle.
    pub(crate) fn push_thing(&mut self, inner: ThingInner<T, C>) -> (thing: Thing<T, C>)
        ensures
            thing@ == old(self)@.nodes.len(),
            final(self)@ == (ThingsView { nodes: old(self)@.nodes.push(inner@), ..old(self)@ }),
    {
        let id = self.nodes.len();
        self.nodes.push(inner);
        assert(self@.nodes =~= old(self)@.nodes.push(inner@));
        Thing::from_index(id)
    }

    /// Takes `inner` in as a new connection, on no list, and returns its
    /// handle.
    pub(crate) fn push_connection(
        &mut self,
        inner: ConnectionInner<T, C>,
    ) -> (connection: Connection<T, C>)
        ensures
            connection@ == old(self)@.edges.len(),
            final(self)@ == (ThingsView { edges: old(self)@.edges.push(inner@), ..old(self)@ }),
    {
        let id = self.edges.len();
        self.edges.push(inner);
        assert(self@.edges =~= old(self)@.edges.push(inner@));
        Connection::from_index(id)
    }

    /// Adds `amount` to the dead total, which is held at the largest value of
    /// the counter.
    pub(crate) fn count_dead(&mut self, amount: usize)
        ensures
            final(self)@ == old(self)@.count_dead(amount as nat),
    {
        self.dead_amount = match self.dead_amount.checked_add(amount) {
            Some(sum) => sum,
            None => usize::MAX,
        };
    }

    /// The connections of `list` that are alive, in order.
    pub(crate) fn live_connections(
        &self,
        list: &Vec<Connection<T, C>>,
    ) -> (kept: Vec<Connection<T, C>>)
        requires
            forall|k: int| 0 <= k < list@.len() ==> self@.has_connection(#[trigger] list@[k]),
        ensures
            kept@ == self@.live_connections(list@),
    {
        let mut kept: Vec<Connection<T, C>> = Vec::new();
        let mut i: usize = 0;
        proof {
            reveal(Seq::filter);
            assert(list@.take(0) =~= Seq::empty());
        }
        while i < list.len()
            invariant
                i <= list.len(),
                forall|k: int| 0 <= k < list@.len() ==> self@.has_connection(#[trigger] list@[k]),
                kept@ == self@.live_connections(list@.take(i as int)),
            decreases list.len() - i,
        {
            let connection = list[i];
            proof {
                assert(list@.take(i + 1) =~= list@.take(i as int).push(connection));
                list@.take(i as int).lemma_filter_push(
                    connection,
                    crate::model::alive_connection(self@.edges),
                );
            }
            if self.connection_slot(connection).is_alive() {
                kept.push(connection);
            }
            i += 1;
        }
        proof {
            assert(list@.take(i as int) =~= list@);
        }
        kept
    }

    /// The things of `list` that are alive, in order.
    pub(crate) fn live_things(&self, list: &Vec<Thing<T, C>>) -> (kept: Vec<Thing<T, C>>)
        requires
            forall|k: int| 0 <= k < list@.len() ==> self@.has_thing(#[trigger] list@[k]),
        ensures
            kept@ == self@.live_things(list@),
    {
        let mut kept: Vec<Thing<T, C>> = Vec::new();
        let mut i: usize = 0;
        proof {
            reveal(Seq::filter);
            assert(list@.take(0) =~= Seq::empty());
        }
        while i < list.len()
            invariant
                i <= list.len(),
                forall|k: int| 0 <= k < list@.len() ==> self@.has_thing(#[trigger] list@[k]),
                kept@ == self@.live_things(list@.take(i as int)),
            decreases list.len() - i,
        {
            let thing = list[i];
            proof {
                assert(list@.take(i + 1) =~= list@.take(i as int).push(thing));
                list@.take(i as int).lemma_filter_push(thing, crate::model::alive_thing(self@.nodes));
            }
            if self.thing_slot(thing).is_alive() {
                kept.push(thing);
            }
            i += 1;
        }
        proof {
            assert(list@.take(i as int) =~= list@);
        }
        kept
    }

    /// Whether `thing` was created in this container.
    pub fn holds_thing(&self, thing: &Thing<T, C>) -> (held: bool)
        ensures
            held == self@.has_thing(*thing),
    {
        thing.index() < self.nodes.len()
    }

    /// Whether `connection` was created in this container.
    pub fn holds_connection(&self, connection: &Connection<T, C>) -> (held: bool)
        ensures
            held == self@.has_connection(*connection),
    {
        connection.index() < self.edges.len()
    }

    /// The running total of items marked dead since the last compaction.
    pub fn dead_amount(&self) -> (amount: usize)
        ensures
            amount == self@.dead_amount,
    {
        self.dead_amount
    }

    /// The number of registered things.
    pub fn thing_count(&self) -> (count: usize)
        ensures
            count == self@.things.len(),
    {
        self.things.len()
    }

    /// The number of registered connections.
    pub fn connection_count(&self) -> (count: usize)
        ensures
            count == self@.connections.len(),
    {
        self.connections.len()
    }

    /// Creates a new thing with the provided data and registers it. The
    /// thing is alive and has no connections.
    pub fn new_thing(&mut self, data: T) -> (thing: Thing<T, C>)
        ensures
            thing@ == old(self)@.next_thing(),
            final(self)@ == old(self)@.with_thing(data).register_thing(thing),
            final(self)@.thing(thing) == ThingView::<T, C>::fresh(data),
            old(self).wf() ==> final(self).wf(),
            old(self).wf() && old(self)@.linked() ==> final(self)@.linked(),
    {
        let thing = Thing::new(self, data);
        self.things.push(thing);
        proof {
            old(self)@.lemma_new_thing_keeps(data, thing);
        }
        thing
    }

    /// Creates a directed connection from `from` to `to` and registers it:
    /// it is put on the local list of `from`, then on that of `to`, then on
    /// the registry.
    pub fn new_directed_connection(
        &mut self,
        from: Thing<T, C>,
        data: C,
        to: Thing<T, C>,
    ) -> (connection: Connection<T, C>)
        requires
            old(self)@.has_thing(from),
            old(self)@.has_thing(to),
        ensures
            connection@ == old(self)@.next_connection(),
            final(self)@ == old(self)@.with_connection(true, from, data, to).attach(
                from,
                to,
                connection,
            ),
            final(self)@.connection(connection) == ConnectionView::fresh(true, from, data, to),
            old(self).wf() ==> final(self).wf(),
            old(self).wf() && old(self)@.linked() ==> final(self)@.linked(),
            final(self)@.thing(from).links.contains(connection),
            final(self)@.thing(to).links.contains(connection),
            final(self)@.connections.contains(connection),
    {
        let connection = Connection::new_directed(self, from, data, to);
        from.connect(self, connection);
        to.connect(self, connection);
        self.connections.push(connection);
        proof {
            old(self)@.lemma_attach_lists(true, from, data, to, connection);
            if old(self).wf() {
                old(self)@.lemma_attach_keeps(true, from, data, to, connection);
            }
        }
        connection
    }

    /// Creates an undirected connection between the two `things` and
    /// registers it: it is put on the local list of the first, then on that
    /// of the second, then on the registry.
    pub fn new_undirected_connection(
        &mut self,
        things: [Thing<T, C>; 2],
        data: C,
    ) -> (connection: Connection<T, C>)
        requires
            old(self)@.has_thing(things[0]),
            old(self)@.has_thing(things[1]),
        ensures
            connection@ == old(self)@.next_connection(),
            final(self)@ == old(self)@.with_connection(false, things[0], data, things[1]).attach(
                things[0],
                things[1],
                connection,
            ),
            final(self)@.connection(connection) == ConnectionView::fresh(
                false,
                things[0],
                data,
                things[1],
            ),
            old(self).wf() ==> final(self).wf(),
            old(self).wf() && old(self)@.linked() ==> final(self)@.linked(),
            final(self)@.thing(things[0]).links.contains(connection),
            final(self)@.thing(things[1]).links.contains(connection),
            final(self)@.connections.contains(connection),
    {
        let first = things[0];
        let second = things[1];
        let connection = Connection::new_undirected(self, things, data);
        first.connect(self, connection);
        second.connect(self, connection);
        self.connections.push(connection);
        proof {
            old(self)@.lemma_attach_lists(false, first, data, second, connection);
            if old(self).wf() {
                old(self)@.lemma_attach_keeps(false, first, data, second, connection);
            }
        }
        connection
    }

    /// Shows the registered things to `do_for`, in order, and returns the
    /// first value that it takes. Dead things are shown too.
    pub fn do_for_a_thing<R, F: Fn(&Thing<T, C>) -> Do<R>>(&self, do_for: F) -> (found: Option<R>)
        requires
            accepts_all(do_for, self@.things),
        ensures
            first_taken(do_for, self@.things, found),
    {
        scan_first(&self.things, do_for)
    }

    /// Shows every registered thing to `get`, in order, and returns the
    /// values that it takes. Dead things are shown too.
    pub fn do_for_all_things<R, F: Fn(&Thing<T, C>) -> Do<R>>(&self, get: F) -> (found: Vec<R>)
        requires
            accepts_all(get, self@.things),
        ensures
            exists|answers: Seq<Do<R>>|
                answers_of(get, self@.things, answers) && found@ == all_taken(answers),
    {
        scan_all(&self.things, get)
    }

    /// Shows the registered connections to `get`, in order, and returns the
    /// first value that it takes. Dead connections are shown too.
    pub fn do_for_a_connection<R, F: Fn(&Connection<T, C>) -> Do<R>>(
        &self,
        get: F,
    ) -> (found: Option<R>)
        requires
            accepts_all(get, self@.connections),
        ensures
            first_taken(get, self@.connections, found),
    {
        scan_first(&self.connections, get)
    }

    /// Shows every registered connection to `found`, in order, and returns
    /// the values that it takes. Dead connections are shown too.
    pub fn do_for_all_connections<R, F: Fn(&Connection<T, C>) -> Do<R>>(
        &self,
        found: F,
    ) -> (taken: Vec<R>)
        requires
            accepts_all(found, self@.connections),
        ensures
            exists|answers: Seq<Do<R>>|
                answers_of(found, self@.connections, answers) && taken@ == all_taken(answers),
    {
        scan_all(&self.connections, found)
    }

    /// Marks the things that `kill` picks as dead. `kill` is asked about
    /// each registered thing, in order, in the graph as it is before the
    /// call. Then each thing picked goes through the cascade: the
    /// connections on its local list are marked dead, then the thing, and
    /// the number of items that this killed is added to the dead total,
    /// which is held at the largest value of the counter.
    pub fn kill_things<F: Fn(&Things<T, C>, &Thing<T, C>) -> bool>(&mut self, kill: F)
        requires
            old(self).wf(),
            judges_all(kill, *old(self), old(self)@.things),
        ensures
            exists|chosen: Seq<bool>|
                {
                    &&& verdicts_of(kill, *old(self), old(self)@.things, chosen)
                    &&& final(self)@ == old(self)@.kill_things(
                        chosen,
                        old(self)@.things.len() as int,
                    )
                },
            final(self).wf(),
            old(self)@.linked() ==> final(self)@.linked(),
    {
        let ghost start = self@;
        let chosen = judge_all(&*self, &self.things, kill);
        let n = self.things.len();
        let mut i: usize = 0;
        proof {
            start.lemma_kill_things_start(chosen@);
        }
        while i < n
            invariant
                i <= n,
                start.wf(),
                n == start.things.len(),
                chosen@.len() == n,
                self@ == start.kill_things(chosen@, i as int),
            decreases n - i,
        {
            proof {
                start.lemma_kill_things_step(chosen@, i as int);
            }
            if chosen[i] {
                let thing = self.things[i];
                let amount = thing.kill(self);
                self.count_dead(amount);
            }
            i += 1;
        }
        proof {
            start.lemma_kill_things_keeps(chosen@, n as int);
        }
    }

    /// Marks the connections that `kill` picks as dead. `kill` is asked
    /// about each registered connection, in order, in the graph as it is
    /// before the call. The things that a connection joins are not touched.
    /// One is added to the dead total for each connection picked; the total
    /// is held at the largest value of the counter.
    pub fn kill_connections<F: Fn(&Things<T, C>, &Connection<T, C>) -> bool>(&mut self, kill: F)
        requires
            old(self).wf(),
            judges_all(kill, *old(self), old(self)@.connections),
        ensures
            exists|chosen: Seq<bool>|
                {
                    &&& verdicts_of(kill, *old(self), old(self)@.connections, chosen)
                    &&& final(self)@ == old(self)@.kill_connections(
                        chosen,
                        old(self)@.connections.len() as int,
                    )
                },
            final(self).wf(),
            old(self)@.linked() ==> final(self)@.linked(),
    {
        let ghost start = self@;
        let chosen = judge_all(&*self, &self.connections, kill);
        let n = self.connections.len();
        let mut i: usize = 0;
        proof {
            start.lemma_kill_connections_start(chosen@);
        }
        while i < n
            invariant
                i <= n,
                start.wf(),
                n == start.connections.len(),
                chosen@.len() == n,
                self@ == start.kill_connections(chosen@, i as int),
            decreases n - i,
        {
            proof {
                start.lemma_kill_connections_step(chosen@, i as int);
            }
            if chosen[i] {
                let connection = self.connections[i];
                connection.kill(self);
                self.count_dead(1);
            }
            i += 1;
        }
        proof {
            start.lemma_kill_connections_keeps(chosen@, n as int);
        }
    }

    /// Calculates the percentage of dead items relative to the registered
    /// items: the dead total times 100, divided by the number of registered
    /// things and connections, rounded down. Both the product and the
    /// number of registered items are held at the largest value of the
    /// counter.
    ///
    /// Fails on a graph with empty registries, and sets the dead total to
    /// zero when it does.
    pub fn dead_percentage(&mut self) -> (percent: Result<usize, ()>)
        ensures
            match percent {
                Ok(value) => {
                    &&& old(self)@.total() > 0
                    &&& value == percentage(old(self)@.dead_amount, old(self)@.total())
                    &&& final(self)@ == old(self)@
                },
                Err(_) => {
                    &&& old(self)@.total() == 0
                    &&& final(self)@ == old(self)@.with_dead_amount(0)
                },
            },
            old(self).wf() ==> final(self).wf(),
            old(self)@.linked() ==> final(self)@.linked(),
    {
        let total = match self.things.len().checked_add(self.connections.len()) {
            Some(sum) => sum,
            None => usize::MAX,
        };
        if total == 0 {
            self.dead_amount = 0;
            assert(self@ == old(self)@.with_dead_amount(0));
            return Err(());
        }
        let multiplied = match self.dead_amount.checked_mul(100) {
            Some(product) => product,
            None => usize::MAX,
        };
        let divided = multiplied / total;
        Ok(divided)
    }

    /// Removes all dead things and connections: every registered thing that
    /// is alive keeps on its local list the connections that are alive, both
    /// registries keep what is alive, and the dead total is set to zero.
    pub fn clean(&mut self)
        requires
            old(self).wf(),
        ensures
            final(self)@ == old(self)@.clean(),
            final(self).wf(),
            old(self)@.linked() ==> final(self)@.linked(),
    {
        let ghost start = self@;
        proof {
            assert forall|k: int| 0 <= k < self.things@.len() implies self@.has_thing(
                #[trigger] self.things@[k],
            ) by {
                assert(self@.has_thing(self@.things[k]));
            }
            assert forall|k: int| 0 <= k < self.connections@.len() implies self@.has_connection(
                #[trigger] self.connections@[k],
            ) by {
                assert(self@.has_connection(self@.connections[k]));
            }
        }
        let things = self.live_things(&self.things);
        let connections = self.live_connections(&self.connections);
        let n = self.things.len();
        let mut i: usize = 0;
        proof {
            start.lemma_compact_start();
        }
        while i < n
            invariant
                i <= n,
                start.wf(),
                n == start.things.len(),
                self@ == start.compact(i as int),
            decreases n - i,
        {
            let thing = self.things[i];
            proof {
                start.lemma_compact_step(i as int);
            }
            if thing.is_alive(self) {
                thing.clean(self);
            }
            i += 1;
        }
        self.things = things;
        self.connections = connections;
        self.dead_amount = 0;
        proof {
            assert(self@.nodes == start.compact(n as int).nodes);
            assert(self@ == start.clean());
            start.lemma_clean_keeps();
        }
    }
}

} // verus!
