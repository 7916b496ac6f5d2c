//! The mathematical view of a graph and the state changes its operations make.
use crate::connection::{Connection, Direction};
use crate::thing::Thing;
use vstd::prelude::*;
use vstd::std_specs::cmp::PartialEqSpec;

verus! {

/// What a thing holds: its payload, the connections on its local list in the
/// order in which they were attached, and whether it is alive.
pub struct ThingView<T, C> {
    pub data: T,
    pub links: Seq<Connection<T, C>>,
    pub alive: bool,
}

/// What a connection holds. For a directed connection `ends.0` is the source
/// and `ends.1` the target; for an undirected one `ends` is the pair it was
/// created with.
pub struct ConnectionView<T, C> {
    pub directed: bool,
    pub ends: (Thing<T, C>, Thing<T, C>),
    pub data: C,
    pub alive: bool,
}

/// The whole graph: every thing and connection ever created in the container
/// (indexed by the number of its handle), the two registries, and the running
/// total of items marked dead.
pub struct ThingsView<T, C> {
    pub nodes: Seq<ThingView<T, C>>,
    pub edges: Seq<ConnectionView<T, C>>,
    pub things: Seq<Thing<T, C>>,
    pub connections: Seq<Connection<T, C>>,
    pub dead_amount: nat,
}

/// `n`, held at the largest value a counter can take.
pub open spec fn saturated(n: nat) -> nat {
    if n > usize::MAX {
        usize::MAX as nat
    } else {
        n
    }
}

/// The dead percentage of `dead` items among `total` registered ones:
/// `dead * 100` (held at the largest counter value) divided by `total`,
/// rounded down.
pub open spec fn percentage(dead: nat, total: nat) -> nat
    recommends
        total > 0,
{
    saturated(dead * 100) / total
}

/// Some connection of `links` is the one numbered `e`.
pub open spec fn reaches<T, C>(links: Seq<Connection<T, C>>, e: int) -> bool {
    exists|k: int| 0 <= k < links.len() && (#[trigger] links[k])@ == e
}

/// The flags chosen for the first `k` items pick out an item numbered `n`.
pub open spec fn picks<H: View<V = nat>>(items: Seq<H>, chosen: Seq<bool>, k: int, n: int) -> bool {
    exists|i: int| 0 <= i < k && i < items.len() && chosen[i] && (#[trigger] items[i])@ == n
}

/// How many of the flags are set.
pub open spec fn count_set(chosen: Seq<bool>) -> nat {
    chosen.filter(|flag: bool| flag).len()
}

/// The test that a thing was created among `nodes` and is alive.
pub open spec fn alive_thing<T, C>(nodes: Seq<ThingView<T, C>>) -> spec_fn(Thing<T, C>) -> bool {
    |t: Thing<T, C>| t@ < nodes.len() && nodes[t@ as int].alive
}

/// The test that a connection was created among `edges` and is alive.
pub open spec fn alive_connection<T, C>(edges: Seq<ConnectionView<T, C>>) -> spec_fn(
    Connection<T, C>,
) -> bool {
    |c: Connection<T, C>| c@ < edges.len() && edges[c@ as int].alive
}

/// The items whose flag is not set, in order.
pub open spec fn unflagged<A>(items: Seq<A>, flags: Seq<bool>) -> Seq<A>
    decreases items.len(),
{
    if items.len() == 0 || flags.len() != items.len() {
        Seq::empty()
    } else {
        let rest = unflagged(items.drop_last(), flags.drop_last());
        if flags.last() {
            rest
        } else {
            rest.push(items.last())
        }
    }
}


impl<T, C> ThingView<T, C> {
    /// A thing as it is created: alive, with no connections.
    pub open spec fn fresh(data: T) -> Self {
        ThingView { data, links: Seq::empty(), alive: true }
    }

    /// This thing with `c` at the end of its local list.
    pub open spec fn with_link(self, c: Connection<T, C>) -> Self {
        ThingView { links: self.links.push(c), ..self }
    }

    /// This thing with `links` as its local list.
    pub open spec fn with_links(self, links: Seq<Connection<T, C>>) -> Self {
        ThingView { links, ..self }
    }

    /// This thing with `data` as its payload.
    pub open spec fn with_data(self, data: T) -> Self {
        ThingView { data, ..self }
    }

    /// This thing, dead.
    pub open spec fn killed(self) -> Self {
        ThingView { alive: false, ..self }
    }
}

impl<T, C> ConnectionView<T, C> {
    /// A connection as it is created: alive.
    pub open spec fn fresh(
        directed: bool,
        first: Thing<T, C>,
        data: C,
        second: Thing<T, C>,
    ) -> Self {
        ConnectionView { directed, ends: (first, second), data, alive: true }
    }

    /// This connection with `data` as its payload.
    pub open spec fn with_data(self, data: C) -> Self {
        ConnectionView { data, ..self }
    }

    /// This connection, dead.
    pub open spec fn killed(self) -> Self {
        ConnectionView { alive: false, ..self }
    }

    /// `t` is one of the two things this connection was created with.
    pub open spec fn joins(self, t: Thing<T, C>) -> bool {
        self.ends.0 == t || self.ends.1 == t
    }
}

impl<T, C> ThingsView<T, C> {
    /// The graph of a new container.
    pub open spec fn empty() -> Self {
        ThingsView {
            nodes: Seq::empty(),
            edges: Seq::empty(),
            things: Seq::empty(),
            connections: Seq::empty(),
            dead_amount: 0,
        }
    }

    /// `t` was created in this graph.
    pub open spec fn has_thing(self, t: Thing<T, C>) -> bool {
        t@ < self.nodes.len()
    }

    /// `c` was created in this graph.
    pub open spec fn has_connection(self, c: Connection<T, C>) -> bool {
        c@ < self.edges.len()
    }

    /// What `t` holds.
    pub open spec fn thing(self, t: Thing<T, C>) -> ThingView<T, C>
        recommends
            self.has_thing(t),
    {
        self.nodes[t@ as int]
    }

    /// What `c` holds.
    pub open spec fn connection(self, c: Connection<T, C>) -> ConnectionView<T, C>
        recommends
            self.has_connection(c),
    {
        self.edges[c@ as int]
    }

    /// Every handle held anywhere in the graph was created in it, and the
    /// dead total is one that a counter can hold.
    pub open spec fn wf(self) -> bool {
        &&& self.dead_amount <= usize::MAX
        &&& forall|i: int| 0 <= i < self.things.len() ==> self.has_thing(#[trigger] self.things[i])
        &&& forall|i: int|
            0 <= i < self.connections.len() ==> self.has_connection(#[trigger] self.connections[i])
        &&& forall|t: int, k: int|
            0 <= t < self.nodes.len() && 0 <= k < self.nodes[t].links.len()
                ==> self.has_connection(#[trigger] self.nodes[t].links[k])
        &&& forall|e: int|
            0 <= e < self.edges.len() ==> self.has_thing((#[trigger] self.edges[e]).ends.0)
                && self.has_thing(self.edges[e].ends.1)
    }

    /// `after` has the registries of this graph, and every thing has in it
    /// the local list, every connection the ends, that it has in this one.
    /// Payloads, liveness and the dead total may differ.
    pub open spec fn same_shape(self, after: Self) -> bool {
        &&& after.things == self.things
        &&& after.connections == self.connections
        &&& after.nodes.len() == self.nodes.len()
        &&& after.edges.len() == self.edges.len()
        &&& forall|u: int|
            0 <= u < self.nodes.len() ==> (#[trigger] after.nodes[u]).links == self.nodes[u].links
        &&& forall|e: int|
            0 <= e < self.edges.len() ==> (#[trigger] after.edges[e]).ends == self.edges[e].ends
    }

    /// Every registered connection stands on the local lists of both of its
    /// ends.
    pub open spec fn linked(self) -> bool {
        forall|i: int|
            0 <= i < self.connections.len() ==> {
                let c = #[trigger] self.connections[i];
                &&& self.thing(self.connection(c).ends.0).links.contains(c)
                &&& self.thing(self.connection(c).ends.1).links.contains(c)
            }
    }

    /// The number that the next thing created in this graph gets.
    pub open spec fn next_thing(self) -> nat {
        self.nodes.len()
    }

    /// The number that the next connection created in this graph gets.
    pub open spec fn next_connection(self) -> nat {
        self.edges.len()
    }

    /// A thing created with `data`, on no list yet.
    pub open spec fn with_thing(self, data: T) -> Self {
        ThingsView { nodes: self.nodes.push(ThingView::fresh(data)), ..self }
    }

    /// A connection created between `first` and `second` with `data`, on no
    /// list yet.
    pub open spec fn with_connection(
        self,
        directed: bool,
        first: Thing<T, C>,
        data: C,
        second: Thing<T, C>,
    ) -> Self {
        ThingsView {
            edges: self.edges.push(ConnectionView::fresh(directed, first, data, second)),
            ..self
        }
    }

    /// `state` in the place of what `t` holds.
    pub open spec fn set_thing(self, t: Thing<T, C>, state: ThingView<T, C>) -> Self {
        ThingsView { nodes: self.nodes.update(t@ as int, state), ..self }
    }

    /// `state` in the place of what `c` holds.
    pub open spec fn set_connection(
        self,
        c: Connection<T, C>,
        state: ConnectionView<T, C>,
    ) -> Self {
        ThingsView { edges: self.edges.update(c@ as int, state), ..self }
    }

    /// `t` at the end of the registry of things.
    pub open spec fn register_thing(self, t: Thing<T, C>) -> Self {
        ThingsView { things: self.things.push(t), ..self }
    }

    /// `c` at the end of the registry of connections.
    pub open spec fn register_connection(self, c: Connection<T, C>) -> Self {
        ThingsView { connections: self.connections.push(c), ..self }
    }

    /// `c` appended to the local list of `t`.
    pub open spec fn link(self, t: Thing<T, C>, c: Connection<T, C>) -> Self {
        self.set_thing(t, self.thing(t).with_link(c))
    }

    /// The graph after `c`, a connection just created between `first` and
    /// `second`, was put on the local list of `first`, then on that of
    /// `second`, then on the registry.
    pub open spec fn attach(
        self,
        first: Thing<T, C>,
        second: Thing<T, C>,
        c: Connection<T, C>,
    ) -> Self {
        self.link(first, c).link(second, c).register_connection(c)
    }

    /// This graph with `dead_amount` as its dead total.
    pub open spec fn with_dead_amount(self, dead_amount: nat) -> Self {
        ThingsView { dead_amount, ..self }
    }

    /// `n` more items counted as dead, the total held at the largest counter
    /// value.
    pub open spec fn count_dead(self, n: nat) -> Self {
        self.with_dead_amount(saturated(self.dead_amount + n))
    }

    /// `c` marked dead; the things it joins are as they were.
    pub open spec fn kill_connection(self, c: Connection<T, C>) -> Self {
        self.set_connection(c, self.connection(c).killed())
    }

    /// The connections on the first `k` places of the local list of `t`
    /// marked dead.
    pub open spec fn kill_links(self, t: Thing<T, C>, k: int) -> Self {
        ThingsView {
            edges: Seq::new(
                self.edges.len(),
                |e: int|
                    if reaches(self.thing(t).links.take(k), e) {
                        self.edges[e].killed()
                    } else {
                        self.edges[e]
                    },
            ),
            ..self
        }
    }

    /// The cascade: every connection on the local list of `t` marked dead,
    /// then `t` itself.
    pub open spec fn kill_thing(self, t: Thing<T, C>) -> Self {
        let n = self.thing(t).links.len() as int;
        self.kill_links(t, n).set_thing(t, self.thing(t).killed())
    }

    /// The numbers of the connections that are alive and stand on the first
    /// `k` places of the local list of `t`.
    pub open spec fn live_links(self, t: Thing<T, C>, k: int) -> Set<int> {
        Set::new(
            |e: int|
                0 <= e < self.edges.len() && self.edges[e].alive && reaches(
                    self.thing(t).links.take(k),
                    e,
                ),
        )
    }

    /// What the cascade on `t` counts: one for `t` itself and one for each
    /// connection that it found alive, held at the largest counter value.
    pub open spec fn kill_count(self, t: Thing<T, C>) -> nat {
        saturated(1 + self.live_links(t, self.thing(t).links.len() as int).len())
    }

    /// One of the first `k` registered things has its flag set and has the
    /// connection numbered `e` on its local list.
    pub open spec fn dooms(self, chosen: Seq<bool>, k: int, e: int) -> bool {
        exists|i: int|
            0 <= i < k && i < self.things.len() && chosen[i] && reaches(
                self.thing(#[trigger] self.things[i]).links,
                e,
            )
    }

    /// The numbers of the connections that are alive and stand on the local
    /// list of one of the first `k` registered things whose flag is set.
    pub open spec fn fresh_kills(self, chosen: Seq<bool>, k: int) -> Set<int> {
        Set::new(
            |e: int| 0 <= e < self.edges.len() && self.edges[e].alive && self.dooms(chosen, k, e),
        )
    }

    /// The graph after the first `k` registered things were gone through:
    /// each one whose flag is set went through the cascade, and what the
    /// cascades counted was added to the dead total.
    ///
    /// A thing is dead afterwards where it was dead or its flag is set; a
    /// connection, where it was dead or is on the local list of a thing
    /// whose flag is set. The dead total grows by one for each flag set,
    /// whether or not the thing was alive, and by one for each connection
    /// that was alive and is dead now.
    pub open spec fn kill_things(self, chosen: Seq<bool>, k: int) -> Self {
        ThingsView {
            nodes: Seq::new(
                self.nodes.len(),
                |u: int|
                    if picks(self.things, chosen, k, u) {
                        self.nodes[u].killed()
                    } else {
                        self.nodes[u]
                    },
            ),
            edges: Seq::new(
                self.edges.len(),
                |e: int|
                    if self.dooms(chosen, k, e) {
                        self.edges[e].killed()
                    } else {
                        self.edges[e]
                    },
            ),
            dead_amount: saturated(
                self.dead_amount + count_set(chosen.take(k)) + self.fresh_kills(chosen, k).len(),
            ),
            ..self
        }
    }

    /// The graph after the first `k` registered connections were gone
    /// through: each one whose flag is set is dead, and one was added to the
    /// dead total for each.
    pub open spec fn kill_connections(self, chosen: Seq<bool>, k: int) -> Self {
        ThingsView {
            edges: Seq::new(
                self.edges.len(),
                |e: int|
                    if picks(self.connections, chosen, k, e) {
                        self.edges[e].killed()
                    } else {
                        self.edges[e]
                    },
            ),
            dead_amount: saturated(self.dead_amount + count_set(chosen.take(k))),
            ..self
        }
    }

    /// The things of `things` that are alive, in order.
    pub open spec fn live_things(self, things: Seq<Thing<T, C>>) -> Seq<Thing<T, C>> {
        things.filter(alive_thing(self.nodes))
    }

    /// The connections of `connections` that are alive, in order.
    pub open spec fn live_connections(self, connections: Seq<Connection<T, C>>) -> Seq<
        Connection<T, C>,
    > {
        connections.filter(alive_connection(self.edges))
    }

    /// The thing numbered `t` is alive and stands on one of the first `k`
    /// places of the registry.
    pub open spec fn survives(self, t: int, k: int) -> bool {
        &&& 0 <= t < self.nodes.len()
        &&& self.nodes[t].alive
        &&& exists|i: int| 0 <= i < k && i < self.things.len() && (#[trigger] self.things[i])@ == t
    }

    /// The graph after the first `k` registered things were gone through:
    /// each one that is alive keeps on its local list the connections that
    /// are alive.
    pub open spec fn compact(self, k: int) -> Self {
        ThingsView {
            nodes: Seq::new(
                self.nodes.len(),
                |t: int|
                    if self.survives(t, k) {
                        self.nodes[t].with_links(self.live_connections(self.nodes[t].links))
                    } else {
                        self.nodes[t]
                    },
            ),
            ..self
        }
    }

    /// Compaction: every registered thing that is alive keeps on its local
    /// list the connections that are alive, the registries keep what is
    /// alive, and the dead total is zero.
    pub open spec fn clean(self) -> Self {
        ThingsView {
            things: self.live_things(self.things),
            connections: self.live_connections(self.connections),
            dead_amount: 0,
            ..self.compact(self.things.len() as int)
        }
    }

    /// The source of `c` where it is directed.
    pub open spec fn directed_from(self, c: Connection<T, C>) -> Option<Thing<T, C>> {
        if self.connection(c).directed {
            Some(self.connection(c).ends.0)
        } else {
            None
        }
    }

    /// The target of `c` where it is directed.
    pub open spec fn directed_towards(self, c: Connection<T, C>) -> Option<Thing<T, C>> {
        if self.connection(c).directed {
            Some(self.connection(c).ends.1)
        } else {
            None
        }
    }

    /// The number of registered things and connections, held at the largest
    /// counter value.
    pub open spec fn total(self) -> nat {
        saturated(self.things.len() + self.connections.len())
    }
}

impl<T: PartialEq, C> ThingsView<T, C> {
    /// The payload of `a` equals the payload of `b`. This is what equality
    /// of things means: two different things with equal payloads are equal.
    pub open spec fn same_thing(self, a: Thing<T, C>, b: Thing<T, C>) -> bool {
        self.thing(a).data.eq_spec(&self.thing(b).data)
    }

    /// The payload of `a` equals `value`.
    pub open spec fn thing_holds(self, a: Thing<T, C>, value: T) -> bool {
        self.thing(a).data.eq_spec(&value)
    }

    /// One of the ends of `edge` equals `t`.
    pub open spec fn contains(self, edge: ConnectionView<T, C>, t: Thing<T, C>) -> bool {
        self.same_thing(edge.ends.0, t) || self.same_thing(edge.ends.1, t)
    }

    /// The direction of `edge` as seen from `t`: away from `t` where `t`
    /// equals the source, else towards `t` where `t` equals the target.
    /// There is none where `edge` is undirected or `t` equals neither end.
    pub open spec fn direction(self, edge: ConnectionView<T, C>, t: Thing<T, C>) -> Result<
        Direction,
        (),
    > {
        if !edge.directed {
            Err(())
        } else if self.same_thing(t, edge.ends.0) {
            Ok(Direction::AwayFrom)
        } else if self.same_thing(t, edge.ends.1) {
            Ok(Direction::Towards)
        } else {
            Err(())
        }
    }

    /// The end of `edge` opposite to `t`: the second end where `t` equals the
    /// first, else the first where `t` equals the second. There is none
    /// where `t` equals neither.
    pub open spec fn other_end(self, edge: ConnectionView<T, C>, t: Thing<T, C>) -> Result<
        Thing<T, C>,
        (),
    > {
        if self.same_thing(t, edge.ends.0) {
            Ok(edge.ends.1)
        } else if self.same_thing(t, edge.ends.1) {
            Ok(edge.ends.0)
        } else {
            Err(())
        }
    }
}

impl<T, C: PartialEq> ThingsView<T, C> {
    /// The payload of `a` equals the payload of `b`. This is what equality
    /// of connections means.
    pub open spec fn same_connection(self, a: Connection<T, C>, b: Connection<T, C>) -> bool {
        self.connection(a).data.eq_spec(&self.connection(b).data)
    }

    /// The payload of `a` equals `value`.
    pub open spec fn connection_holds(self, a: Connection<T, C>, value: C) -> bool {
        self.connection(a).data.eq_spec(&value)
    }

    /// Some connection on the first `k` places of `links` equals `other`.
    pub open spec fn any_same(
        self,
        links: Seq<Connection<T, C>>,
        k: int,
        other: Connection<T, C>,
    ) -> bool {
        exists|j: int| 0 <= j < k && j < links.len() && self.same_connection(#[trigger] links[j], other)
    }
}

} // verus!
