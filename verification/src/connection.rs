//! Connections: the edges of a graph.
use crate::model::ConnectionView;
use crate::thing::Thing;
use crate::things::Things;
use vstd::prelude::*;
use vstd::std_specs::cmp::PartialEqSpec;

verus! {

/// A handle to an edge of a graph. It names a connection of the [`Things`]
/// container that created it; copying the handle copies the name, not the
/// connection.
pub struct Connection<T, C> {
    id: usize,
    marker: core::marker::PhantomData<(T, C)>,
}

impl<T, C> View for Connection<T, C> {
    type V = nat;

    /// The number of the connection in its container.
    closed spec fn view(&self) -> nat {
        self.id as nat
    }
}

impl<T, C> Clone for Connection<T, C> {
    /// Another handle to the same connection.
    fn clone(&self) -> (copy: Self)
        ensures
            copy == *self,
    {
        Connection { id: self.id, marker: core::marker::PhantomData }
    }
}

impl<T, C> Copy for Connection<T, C> {

}

/// Whether a directed connection points towards a thing or away from it.
#[derive(PartialEq, Eq, Debug, Clone, Copy, Structural)]
pub enum Direction {
    Towards,
    AwayFrom,
}

/// What a connection holds: the things it joins, its payload, and whether it
/// is alive.
pub enum ConnectionInner<T, C> {
    Directed { from: Thing<T, C>, to: Thing<T, C>, data: C, is_alive: bool },
    Undirected { things: [Thing<T, C>; 2], data: C, is_alive: bool },
}

impl<T, C> View for ConnectionInner<T, C> {
    type V = ConnectionView<T, C>;

    open spec fn view(&self) -> ConnectionView<T, C> {
        match *self {
            ConnectionInner::Directed { from, to, data, is_alive } => ConnectionView {
                directed: true,
                ends: (from, to),
                data,
                alive: is_alive,
            },
            ConnectionInner::Undirected { things, data, is_alive } => ConnectionView {
                directed: false,
                ends: (things[0], things[1]),
                data,
                alive: is_alive,
            },
        }
    }
}

impl<T, C> ConnectionInner<T, C> {
    /// A directed connection from `from` to `to`, alive.
    pub(crate) fn new_directed(from: Thing<T, C>, data: C, to: Thing<T, C>) -> (inner: Self)
        ensures
            inner@ == ConnectionView::fresh(true, from, data, to),
    {
        ConnectionInner::Directed { from, to, data, is_alive: true }
    }

    /// An undirected connection between the two `things`, alive.
    pub(crate) fn new_undirected(things: [Thing<T, C>; 2], data: C) -> (inner: Self)
        ensures
            inner@ == ConnectionView::fresh(false, things[0], data, things[1]),
    {
        ConnectionInner::Undirected { things, data, is_alive: true }
    }

    /// The two things joined: source and target, or the pair as it was given.
    pub(crate) fn get_things(&self) -> (things: [Thing<T, C>; 2])
        ensures
            things[0] == self@.ends.0,
            things[1] == self@.ends.1,
    {
        match self {
            ConnectionInner::Directed { from, to, .. } => [*from, *to],
            ConnectionInner::Undirected { things, .. } => [things[0], things[1]],
        }
    }

    /// The payload.
    pub(crate) fn get_data(&self) -> (data: &C)
        ensures
            *data == self@.data,
    {
        match self {
            ConnectionInner::Directed { data, .. } => data,
            ConnectionInner::Undirected { data, .. } => data,
        }
    }

    /// The payload, to be changed in place.
    pub(crate) fn get_data_mut(&mut self) -> (data: &mut C)
        ensures
            *data == old(self)@.data,
            final(self)@ == old(self)@.with_data(*final(data)),
    {
        match self {
            ConnectionInner::Directed { data, .. } => data,
            ConnectionInner::Undirected { data, .. } => data,
        }
    }

    /// Whether the connection is directed.
    pub(crate) fn is_directed(&self) -> (directed: bool)
        ensures
            directed == self@.directed,
    {
        match self {
            ConnectionInner::Directed { .. } => true,
            ConnectionInner::Undirected { .. } => false,
        }
    }

    /// Whether the connection is alive.
    pub(crate) fn is_alive(&self) -> (alive: bool)
        ensures
            alive == self@.alive,
    {
        match self {
            ConnectionInner::Directed { is_alive, .. } => *is_alive,
            ConnectionInner::Undirected { is_alive, .. } => *is_alive,
        }
    }

    /// Marks the connection dead.
    pub(crate) fn kill(&mut self)
        ensures
            final(self)@ == old(self)@.killed(),
    {
        match self {
            ConnectionInner::Directed { is_alive, .. } => {
                *is_alive = false;
            },
            ConnectionInner::Undirected { is_alive, .. } => {
                *is_alive = false;
            },
        }
    }
}

impl<T, C> Connection<T, C> {
    /// The handle with the number `id`.
    pub(crate) fn from_index(id: usize) -> (connection: Self)
        ensures
            connection@ == id,
    {
        Connection { id, marker: core::marker::PhantomData }
    }

    /// The number of this handle.
    pub(crate) fn index(&self) -> (id: usize)
        ensures
            id == self@,
    {
        self.id
    }

    /// Two handles with the same number are the same handle.
    pub proof fn lemma_same_number(a: Self, b: Self)
        requires
            a@ == b@,
        ensures
            a == b,
    {
    }

    /// Whether two handles name the same connection. This compares identity;
    /// [`Connection::eq`] compares payloads.
    pub fn same_as(&self, other: &Self) -> (same: bool)
        ensures
            same == (*self == *other),
    {
        self.id == other.id
    }

    /// Creates a directed connection in `graph` without attaching it: it is
    /// alive, and is on no list of the container or of its ends.
    pub fn new_directed(
        graph: &mut Things<T, C>,
        from: Thing<T, C>,
        data: C,
        to: Thing<T, C>,
    ) -> (connection: Self)
        requires
            old(graph)@.has_thing(from),
            old(graph)@.has_thing(to),
        ensures
            connection@ == old(graph)@.next_connection(),
            final(graph)@ == old(graph)@.with_connection(true, from, data, to),
            old(graph).wf() ==> final(graph).wf(),
            old(graph).wf() && old(graph)@.linked() ==> final(graph)@.linked(),
    {
        proof {
            if graph.wf() {
                graph@.lemma_create_connection_keeps(true, from, data, to);
            }
        }
        graph.push_connection(ConnectionInner::new_directed(from, data, to))
    }

    /// Creates an undirected connection in `graph` without attaching it: it
    /// is alive, and is on no list of the container or of its ends.
    pub fn new_undirected(
        graph: &mut Things<T, C>,
        things: [Thing<T, C>; 2],
        data: C,
    ) -> (connection: Self)
        requires
            old(graph)@.has_thing(things[0]),
            old(graph)@.has_thing(things[1]),
        ensures
            connection@ == old(graph)@.next_connection(),
            final(graph)@ == old(graph)@.with_connection(false, things[0], data, things[1]),
            old(graph).wf() ==> final(graph).wf(),
            old(graph).wf() && old(graph)@.linked() ==> final(graph)@.linked(),
    {
        proof {
            if graph.wf() {
                graph@.lemma_create_connection_keeps(false, things[0], data, things[1]);
            }
        }
        graph.push_connection(ConnectionInner::new_undirected(things, data))
    }

    /// Returns true if this is a directed connection.
    pub fn is_directed(&self, graph: &Things<T, C>) -> (directed: bool)
        requires
            graph@.has_connection(*self),
        ensures
            directed == graph@.connection(*self).directed,
    {
        graph.connection_slot(*self).is_directed()
    }

    /// Returns true if this is an undirected connection.
    pub fn is_undirected(&self, graph: &Things<T, C>) -> (undirected: bool)
        requires
            graph@.has_connection(*self),
        ensures
            undirected == !graph@.connection(*self).directed,
    {
        !graph.connection_slot(*self).is_directed()
    }

    /// Provides read-only access to this connection's payload: calls
    /// `access` on it once and returns what it returned.
    pub fn access<R, F: Fn(&C) -> R>(&self, graph: &Things<T, C>, access: F) -> (result: R)
        requires
            graph@.has_connection(*self),
            access.requires((&graph@.connection(*self).data,)),
        ensures
            access.ensures((&graph@.connection(*self).data,), result),
    {
        access(graph.connection_slot(*self).get_data())
    }

    /// Provides mutable access to this connection's payload: calls `access`
    /// on it once and returns what it returned. Nothing but the payload
    /// changes.
    pub fn access_mut<R, F: Fn(&mut C) -> R>(
        &self,
        graph: &mut Things<T, C>,
        access: F,
    ) -> (result: R)
        requires
            old(graph)@.has_connection(*self),
            forall|data: &mut C|
                *data == old(graph)@.connection(*self).data ==> access.requires((data,)),
        ensures
            exists|data: &mut C|
                {
                    &&& *data == old(graph)@.connection(*self).data
                    &&& access.ensures((data,), result)
                    &&& final(graph)@ == old(graph)@.set_connection(
                        *self,
                        old(graph)@.connection(*self).with_data(*final(data)),
                    )
                },
            old(graph).wf() ==> final(graph).wf(),
            old(graph).wf() && old(graph)@.linked() ==> final(graph)@.linked(),
    {
        let result = graph.mutate_connection(*self, access);
        proof {
            if old(graph).wf() {
                old(graph)@.lemma_set_connection_keeps(*self, graph@.connection(*self));
                assert(graph@ == old(graph)@.set_connection(*self, graph@.connection(*self)));
            }
        }
        result
    }

    /// Returns the two things joined by this connection: source and target
    /// for a directed connection, else the two things in the order in which
    /// they were given at creation.
    pub fn get_things(&self, graph: &Things<T, C>) -> (things: [Thing<T, C>; 2])
        requires
            graph@.has_connection(*self),
        ensures
            things[0] == graph@.connection(*self).ends.0,
            things[1] == graph@.connection(*self).ends.1,
    {
        graph.connection_slot(*self).get_things()
    }

    /// Returns the source of a directed connection, and `None` for an
    /// undirected one.
    pub fn get_directed_from(&self, graph: &Things<T, C>) -> (from: Option<Thing<T, C>>)
        requires
            graph@.has_connection(*self),
        ensures
            from == graph@.directed_from(*self),
    {
        let inner = graph.connection_slot(*self);
        if inner.is_directed() {
            Some(inner.get_things()[0])
        } else {
            None
        }
    }

    /// Returns the target of a directed connection, and `None` for an
    /// undirected one.
    pub fn get_directed_towards(&self, graph: &Things<T, C>) -> (towards: Option<Thing<T, C>>)
        requires
            graph@.has_connection(*self),
        ensures
            towards == graph@.directed_towards(*self),
    {
        let inner = graph.connection_slot(*self);
        if inner.is_directed() {
            Some(inner.get_things()[1])
        } else {
            None
        }
    }

    /// Returns whether this connection is still alive (not marked dead).
    pub fn is_alive(&self, graph: &Things<T, C>) -> (alive: bool)
        requires
            graph@.has_connection(*self),
        ensures
            alive == graph@.connection(*self).alive,
    {
        graph.connection_slot(*self).is_alive()
    }

    /// Marks this connection as dead. The things it joins are not touched.
    pub(crate) fn kill(&self, graph: &mut Things<T, C>)
        requires
            old(graph)@.has_connection(*self),
        ensures
            final(graph)@ == old(graph)@.kill_connection(*self),
    {
        graph.mark_connection_dead(*self);
    }
}

impl<T: PartialEq, C> ConnectionInner<T, C> {
    /// The things this connection joins were created in `graph`.
    pub open spec fn ends_in(&self, graph: &Things<T, C>) -> bool {
        graph@.has_thing(self@.ends.0) && graph@.has_thing(self@.ends.1)
    }

    /// Whether one of the two ends equals `thing`.
    pub(crate) fn contains(&self, graph: &Things<T, C>, thing: &Thing<T, C>) -> (found: bool)
        requires
            self.ends_in(graph),
            graph@.has_thing(*thing),
        ensures
            T::obeys_eq_spec() ==> found == graph@.contains(self@, *thing),
    {
        match self {
            ConnectionInner::Directed { from, to, .. } => {
                if from.eq(graph, thing) || to.eq(graph, thing) {
                    true
                } else {
                    false
                }
            },
            ConnectionInner::Undirected { things, .. } => {
                if things[0].eq(graph, thing) || things[1].eq(graph, thing) {
                    true
                } else {
                    false
                }
            },
        }
    }

    /// The direction as seen from `thing`: away from it where it equals the
    /// source, else towards it where it equals the target.
    pub(crate) fn get_direction_relative_to(
        &self,
        graph: &Things<T, C>,
        thing: &Thing<T, C>,
    ) -> (direction: Result<Direction, ()>)
        requires
            self.ends_in(graph),
            graph@.has_thing(*thing),
        ensures
            T::obeys_eq_spec() ==> direction == graph@.direction(self@, *thing),
            !self@.directed ==> direction is Err,
    {
        match self {
            ConnectionInner::Directed { from, to, .. } => {
                if thing.eq(graph, from) {
                    Ok(Direction::AwayFrom)
                } else if thing.eq(graph, to) {
                    Ok(Direction::Towards)
                } else {
                    Err(())
                }
            },
            _ => Err(()),
        }
    }

    /// Whether the direction as seen from `thing` is away from it.
    pub(crate) fn points_away_from(&self, graph: &Things<T, C>, thing: &Thing<T, C>) -> (away: bool)
        requires
            self.ends_in(graph),
            graph@.has_thing(*thing),
        ensures
            T::obeys_eq_spec() ==> away == (graph@.direction(self@, *thing) == Ok::<Direction, ()>(
                Direction::AwayFrom,
            )),
            !self@.directed ==> !away,
    {
        if let Ok(Direction::AwayFrom) = self.get_direction_relative_to(graph, thing) {
            true
        } else {
            false
        }
    }

    /// Whether the direction as seen from `thing` is towards it.
    pub(crate) fn points_towards(
        &self,
        graph: &Things<T, C>,
        thing: &Thing<T, C>,
    ) -> (towards: bool)
        requires
            self.ends_in(graph),
            graph@.has_thing(*thing),
        ensures
            T::obeys_eq_spec() ==> towards == (graph@.direction(self@, *thing) == Ok::<Direction, ()>(
                Direction::Towards,
            )),
            !self@.directed ==> !towards,
    {
        if let Ok(Direction::Towards) = self.get_direction_relative_to(graph, thing) {
            true
        } else {
            false
        }
    }

    /// The end opposite to `thing`: the second where `thing` equals the first,
    /// else the first where it equals the second.
    pub(crate) fn get_other_thing(
        &self,
        graph: &Things<T, C>,
        thing: &Thing<T, C>,
    ) -> (other: Result<Thing<T, C>, ()>)
        requires
            self.ends_in(graph),
            graph@.has_thing(*thing),
        ensures
            T::obeys_eq_spec() ==> other == graph@.other_end(self@, *thing),
            other is Ok ==> self@.joins(other->Ok_0),
    {
        match self {
            ConnectionInner::Directed { from, to, .. } => {
                if thing.eq(graph, from) {
                    Ok(*to)
                } else if thing.eq(graph, to) {
                    Ok(*from)
                } else {
                    Err(())
                }
            },
            ConnectionInner::Undirected { things, .. } => {
                if thing.eq(graph, &things[0]) {
                    Ok(things[1])
                } else if thing.eq(graph, &things[1]) {
                    Ok(things[0])
                } else {
                    Err(())
                }
            },
        }
    }
}

impl<T: PartialEq, C> Connection<T, C> {
    /// Tells whether a thing is part of this connection: whether one of the
    /// two ends equals `thing`.
    pub fn contains(&self, graph: &Things<T, C>, thing: &Thing<T, C>) -> (found: bool)
        requires
            graph.wf(),
            graph@.has_connection(*self),
            graph@.has_thing(*thing),
        ensures
            T::obeys_eq_spec() ==> found == graph@.contains(graph@.connection(*self), *thing),
    {
        graph.connection_slot(*self).contains(graph, thing)
    }

    /// Reveals whether a thing is the target or the source of this
    /// connection. Fails where the connection is undirected or `thing`
    /// equals neither end.
    pub fn get_direction_relative_to(
        &self,
        graph: &Things<T, C>,
        thing: &Thing<T, C>,
    ) -> (direction: Result<Direction, ()>)
        requires
            graph.wf(),
            graph@.has_connection(*self),
            graph@.has_thing(*thing),
        ensures
            T::obeys_eq_spec() ==> direction == graph@.direction(graph@.connection(*self), *thing),
            !graph@.connection(*self).directed ==> direction is Err,
    {
        graph.connection_slot(*self).get_direction_relative_to(graph, thing)
    }

    /// Whether this connection points away from `thing`.
    pub fn points_away_from(&self, graph: &Things<T, C>, thing: &Thing<T, C>) -> (away: bool)
        requires
            graph.wf(),
            graph@.has_connection(*self),
            graph@.has_thing(*thing),
        ensures
            T::obeys_eq_spec() ==> away == (graph@.direction(graph@.connection(*self), *thing)
                == Ok::<Direction, ()>(Direction::AwayFrom)),
            !graph@.connection(*self).directed ==> !away,
    {
        graph.connection_slot(*self).points_away_from(graph, thing)
    }

    /// Whether this connection points towards `thing`.
    pub fn points_towards(&self, graph: &Things<T, C>, thing: &Thing<T, C>) -> (towards: bool)
        requires
            graph.wf(),
            graph@.has_connection(*self),
            graph@.has_thing(*thing),
        ensures
            T::obeys_eq_spec() ==> towards == (graph@.direction(graph@.connection(*self), *thing)
                == Ok::<Direction, ()>(Direction::Towards)),
            !graph@.connection(*self).directed ==> !towards,
    {
        graph.connection_slot(*self).points_towards(graph, thing)
    }

    /// Finds the thing at the other end of this connection. Fails where
    /// `thing` equals neither end.
    pub fn get_other_thing(
        &self,
        graph: &Things<T, C>,
        thing: &Thing<T, C>,
    ) -> (other: Result<Thing<T, C>, ()>)
        requires
            graph.wf(),
            graph@.has_connection(*self),
            graph@.has_thing(*thing),
        ensures
            T::obeys_eq_spec() ==> other == graph@.other_end(graph@.connection(*self), *thing),
            other is Ok ==> graph@.connection(*self).joins(other->Ok_0),
    {
        graph.connection_slot(*self).get_other_thing(graph, thing)
    }
}

impl<T, C: PartialEq> Connection<T, C> {
    /// Whether the payloads of two connections are equal. Connections are
    /// equal by payload, not by identity: see [`Connection::same_as`] for
    /// the latter.
    pub fn eq(&self, graph: &Things<T, C>, other: &Self) -> (equal: bool)
        requires
            graph@.has_connection(*self),
            graph@.has_connection(*other),
        ensures
            C::obeys_eq_spec() ==> equal == graph@.same_connection(*self, *other),
    {
        *graph.connection_slot(*self).get_data() == *graph.connection_slot(*other).get_data()
    }

    /// Whether the payload of this connection equals `value`.
    pub fn eq_data(&self, graph: &Things<T, C>, value: &C) -> (equal: bool)
        requires
            graph@.has_connection(*self),
        ensures
            C::obeys_eq_spec() ==> equal == graph@.connection_holds(*self, *value),
    {
        *graph.connection_slot(*self).get_data() == *value
    }
}

} // verus!
