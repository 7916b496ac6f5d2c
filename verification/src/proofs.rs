//! Lemmas about the state changes of the model: what each step of a loop
//! over a list does, and what every change keeps.
use crate::connection::Connection;
use crate::model::{
    alive_connection, alive_thing, picks, reaches, unflagged, ConnectionView, ThingView, ThingsView,
};
use crate::thing::Thing;
use vstd::prelude::*;

verus! {

// Lists.

/// A list that holds only items that pass a test is what the test keeps of
/// it.
pub proof fn lemma_filter_all<A>(items: Seq<A>, test: spec_fn(A) -> bool)
    requires
        forall|i: int| 0 <= i < items.len() ==> test(#[trigger] items[i]),
    ensures
        items.filter(test) == items,
    decreases items.len(),
{
    reveal(Seq::filter);
    if items.len() > 0 {
        lemma_filter_all(items.drop_last(), test);
        assert(items.drop_last().push(items.last()) =~= items);
    }
}

/// Keeping what passes a test, twice, keeps what keeping it once does.
pub proof fn lemma_filter_twice<A>(items: Seq<A>, test: spec_fn(A) -> bool)
    ensures
        items.filter(test).filter(test) == items.filter(test),
{
    let kept = items.filter(test);
    assert forall|i: int| 0 <= i < kept.len() implies test(#[trigger] kept[i]) by {
        items.lemma_filter_pred(test, i);
    }
    lemma_filter_all(kept, test);
}

/// What is left of a list after the flagged items were taken out was on the
/// list before.
pub proof fn lemma_unflagged_within<A>(items: Seq<A>, flags: Seq<bool>, k: int)
    requires
        0 <= k < unflagged(items, flags).len(),
    ensures
        items.contains(unflagged(items, flags)[k]),
    decreases items.len(),
{
    if items.len() > 0 && flags.len() == items.len() {
        let rest = unflagged(items.drop_last(), flags.drop_last());
        if k < rest.len() {
            lemma_unflagged_within(items.drop_last(), flags.drop_last(), k);
            let j = choose|j: int|
                0 <= j < items.drop_last().len() && items.drop_last()[j] == rest[k];
            assert(items[j] == rest[k]);
        } else {
            assert(items[items.len() - 1] == items.last());
        }
    }
}

// What keeps a graph valid.

impl<T, C> ThingsView<T, C> {
    /// A graph with the same registries, in which every thing has the local
    /// list and every connection the ends that it has in this one, is as
    /// valid as this one.
    pub proof fn lemma_same_shape_keeps(self, after: Self)
        requires
            self.wf(),
            self.same_shape(after),
            after.dead_amount <= usize::MAX,
        ensures
            after.wf(),
            self.linked() ==> after.linked(),
    {
        assert forall|i: int| 0 <= i < after.things.len() implies after.has_thing(
            #[trigger] after.things[i],
        ) by {
            assert(self.has_thing(self.things[i]));
        }
        assert forall|i: int| 0 <= i < after.connections.len() implies after.has_connection(
            #[trigger] after.connections[i],
        ) by {
            assert(self.has_connection(self.connections[i]));
        }
        assert forall|u: int, k: int|
            0 <= u < after.nodes.len() && 0 <= k < after.nodes[u].links.len()
                implies after.has_connection(#[trigger] after.nodes[u].links[k]) by {
            assert(after.nodes[u].links == self.nodes[u].links);
            assert(self.has_connection(self.nodes[u].links[k]));
        }
        assert forall|e: int| 0 <= e < after.edges.len() implies after.has_thing(
            (#[trigger] after.edges[e]).ends.0,
        ) && after.has_thing(after.edges[e].ends.1) by {
            assert(after.edges[e].ends == self.edges[e].ends);
        }
        if self.linked() {
            assert forall|i: int| 0 <= i < after.connections.len() implies ({
                let c = #[trigger] after.connections[i];
                &&& after.thing(after.connection(c).ends.0).links.contains(c)
                &&& after.thing(after.connection(c).ends.1).links.contains(c)
            }) by {
                let c = self.connections[i];
                assert(self.has_connection(c));
                assert(after.connection(c).ends == self.connection(c).ends);
                let a = self.connection(c).ends.0;
                let b = self.connection(c).ends.1;
                assert(self.has_thing(a) && self.has_thing(b));
                assert(after.thing(a).links == self.thing(a).links);
                assert(after.thing(b).links == self.thing(b).links);
            }
        }
    }

    /// A thing whose local list holds only connections of the graph can take
    /// the place of `t`: every handle in the graph stays valid. Where its
    /// local list is that of `t`, every registered connection stays on the
    /// lists of its ends.
    pub proof fn lemma_set_thing_keeps(self, t: Thing<T, C>, state: ThingView<T, C>)
        requires
            self.wf(),
            self.has_thing(t),
            forall|k: int| 0 <= k < state.links.len() ==> self.has_connection(#[trigger] state.links[k]),
        ensures
            self.set_thing(t, state).wf(),
            self.linked() && state.links == self.thing(t).links ==> self.set_thing(t, state).linked(),
    {
        let after = self.set_thing(t, state);
        assert forall|u: int, k: int|
            0 <= u < after.nodes.len() && 0 <= k < after.nodes[u].links.len()
                implies after.has_connection(#[trigger] after.nodes[u].links[k]) by {
            if u != t@ {
                assert(self.has_connection(self.nodes[u].links[k]));
            }
        }
        assert forall|e: int| 0 <= e < after.edges.len() implies after.has_thing(
            (#[trigger] after.edges[e]).ends.0,
        ) && after.has_thing(after.edges[e].ends.1) by {
            assert(self.has_thing(self.edges[e].ends.0));
        }
        assert forall|i: int| 0 <= i < after.things.len() implies after.has_thing(
            #[trigger] after.things[i],
        ) by {
            assert(self.has_thing(self.things[i]));
        }
        assert forall|i: int| 0 <= i < after.connections.len() implies after.has_connection(
            #[trigger] after.connections[i],
        ) by {
            assert(self.has_connection(self.connections[i]));
        }
        if self.linked() && state.links == self.thing(t).links {
            assert forall|i: int| 0 <= i < after.connections.len() implies ({
                let c = #[trigger] after.connections[i];
                &&& after.thing(after.connection(c).ends.0).links.contains(c)
                &&& after.thing(after.connection(c).ends.1).links.contains(c)
            }) by {
                let c = self.connections[i];
                assert(self.has_connection(c));
                assert(self.has_thing(self.connection(c).ends.0));
                assert(self.has_thing(self.connection(c).ends.1));
                assert(after.thing(self.connection(c).ends.0).links == self.thing(
                    self.connection(c).ends.0,
                ).links);
                assert(after.thing(self.connection(c).ends.1).links == self.thing(
                    self.connection(c).ends.1,
                ).links);
            }
        }
    }

    /// A connection that joins the same things as `c` can take its place:
    /// every handle in the graph stays valid and every registered connection
    /// stays on the lists of its ends.
    pub proof fn lemma_set_connection_keeps(self, c: Connection<T, C>, state: ConnectionView<T, C>)
        requires
            self.wf(),
            self.has_connection(c),
            state.ends == self.connection(c).ends,
        ensures
            self.set_connection(c, state).wf(),
            self.linked() ==> self.set_connection(c, state).linked(),
    {
        self.lemma_same_shape_keeps(self.set_connection(c, state));
    }
}

// Creating.

impl<T, C> ThingsView<T, C> {
    /// A thing that was created but put on no list keeps every handle in the
    /// graph valid and every registered connection on the lists of its ends.
    pub proof fn lemma_create_thing_keeps(self, data: T)
        requires
            self.wf(),
        ensures
            self.with_thing(data).wf(),
            self.linked() ==> self.with_thing(data).linked(),
    {
        let one = self.with_thing(data);
        assert forall|i: int| 0 <= i < one.things.len() implies one.has_thing(
            #[trigger] one.things[i],
        ) by {
            assert(self.has_thing(self.things[i]));
        }
        assert forall|u: int, k: int|
            0 <= u < one.nodes.len() && 0 <= k < one.nodes[u].links.len() implies one.has_connection(
            #[trigger] one.nodes[u].links[k],
        ) by {
            assert(self.has_connection(self.nodes[u].links[k]));
        }
        assert forall|e: int| 0 <= e < one.edges.len() implies one.has_thing(
            (#[trigger] one.edges[e]).ends.0,
        ) && one.has_thing(one.edges[e].ends.1) by {
            assert(self.has_thing(self.edges[e].ends.0));
        }
        if self.linked() {
            assert forall|i: int| 0 <= i < one.connections.len() implies ({
                let c = #[trigger] one.connections[i];
                &&& one.thing(one.connection(c).ends.0).links.contains(c)
                &&& one.thing(one.connection(c).ends.1).links.contains(c)
            }) by {
                let c = self.connections[i];
                assert(self.has_connection(c));
                assert(self.has_thing(self.connection(c).ends.0));
                assert(self.has_thing(self.connection(c).ends.1));
            }
        }
    }

    /// A connection that was created between things of the graph but put on
    /// no list keeps every handle in the graph valid and every registered
    /// connection on the lists of its ends.
    pub proof fn lemma_create_connection_keeps(
        self,
        directed: bool,
        first: Thing<T, C>,
        data: C,
        second: Thing<T, C>,
    )
        requires
            self.wf(),
            self.has_thing(first),
            self.has_thing(second),
        ensures
            self.with_connection(directed, first, data, second).wf(),
            self.linked() ==> self.with_connection(directed, first, data, second).linked(),
    {
        let two = self.with_connection(directed, first, data, second);
        assert forall|i: int| 0 <= i < two.connections.len() implies two.has_connection(
            #[trigger] two.connections[i],
        ) by {
            assert(self.has_connection(self.connections[i]));
        }
        assert forall|u: int, k: int|
            0 <= u < two.nodes.len() && 0 <= k < two.nodes[u].links.len() implies two.has_connection(
            #[trigger] two.nodes[u].links[k],
        ) by {
            assert(self.has_connection(self.nodes[u].links[k]));
        }
        assert forall|e: int| 0 <= e < two.edges.len() implies two.has_thing(
            (#[trigger] two.edges[e]).ends.0,
        ) && two.has_thing(two.edges[e].ends.1) by {
            if e < self.edges.len() {
                assert(self.has_thing(self.edges[e].ends.0));
            }
        }
        if self.linked() {
            assert forall|i: int| 0 <= i < two.connections.len() implies ({
                let c = #[trigger] two.connections[i];
                &&& two.thing(two.connection(c).ends.0).links.contains(c)
                &&& two.thing(two.connection(c).ends.1).links.contains(c)
            }) by {
                let c = self.connections[i];
                assert(self.has_connection(c));
                assert(two.connection(c) == self.connection(c));
            }
        }
    }

    /// A new registered thing keeps every handle in the graph valid and
    /// keeps every registered connection on the lists of its ends.
    pub proof fn lemma_new_thing_keeps(self, data: T, t: Thing<T, C>)
        requires
            t@ == self.next_thing(),
        ensures
            self.with_thing(data).register_thing(t).thing(t) == ThingView::<T, C>::fresh(data),
            self.wf() ==> self.with_thing(data).register_thing(t).wf(),
            self.wf() && self.linked() ==> self.with_thing(data).register_thing(t).linked(),
    {
        let after = self.with_thing(data).register_thing(t);
        if self.wf() {
            assert forall|i: int| 0 <= i < after.things.len() implies after.has_thing(
                #[trigger] after.things[i],
            ) by {
                if i < self.things.len() {
                    assert(self.has_thing(self.things[i]));
                }
            }
            assert forall|i: int| 0 <= i < after.connections.len() implies after.has_connection(
                #[trigger] after.connections[i],
            ) by {
                assert(self.has_connection(self.connections[i]));
            }
            assert forall|u: int, k: int|
                0 <= u < after.nodes.len() && 0 <= k < after.nodes[u].links.len()
                    implies after.has_connection(#[trigger] after.nodes[u].links[k]) by {
                assert(self.has_connection(self.nodes[u].links[k]));
            }
            assert forall|e: int| 0 <= e < after.edges.len() implies after.has_thing(
                (#[trigger] after.edges[e]).ends.0,
            ) && after.has_thing(after.edges[e].ends.1) by {
                assert(self.has_thing(self.edges[e].ends.0));
            }
            if self.linked() {
                assert forall|i: int| 0 <= i < after.connections.len() implies ({
                    let c = #[trigger] after.connections[i];
                    &&& after.thing(after.connection(c).ends.0).links.contains(c)
                    &&& after.thing(after.connection(c).ends.1).links.contains(c)
                }) by {
                    let c = self.connections[i];
                    assert(self.has_connection(c));
                    assert(self.has_thing(self.connection(c).ends.0));
                    assert(self.has_thing(self.connection(c).ends.1));
                }
            }
        }
    }

    /// A connection put on the lists of its two ends and on the registry is
    /// on all three, and holds what it was created with.
    pub proof fn lemma_attach_lists(
        self,
        directed: bool,
        first: Thing<T, C>,
        data: C,
        second: Thing<T, C>,
        c: Connection<T, C>,
    )
        requires
            self.has_thing(first),
            self.has_thing(second),
            c@ == self.next_connection(),
        ensures
            self.with_connection(directed, first, data, second).attach(first, second, c).thing(
                first,
            ).links.contains(c),
            self.with_connection(directed, first, data, second).attach(first, second, c).thing(
                second,
            ).links.contains(c),
            self.with_connection(directed, first, data, second).attach(
                first,
                second,
                c,
            ).connections.contains(c),
            self.with_connection(directed, first, data, second).attach(
                first,
                second,
                c,
            ).connection(c) == ConnectionView::fresh(directed, first, data, second),
    {
        let made = self.with_connection(directed, first, data, second);
        let one = made.link(first, c);
        let two = one.link(second, c);
        let after = two.register_connection(c);
        assert(after == made.attach(first, second, c));
        let n = self.thing(first).links.len() as int;
        assert(one.thing(first).links[n] == c);
        let m = one.thing(second).links.len() as int;
        assert(two.thing(second).links[m] == c);
        assert(two.thing(first).links.contains(c)) by {
            if first@ == second@ {
                assert(two.thing(first).links[m] == c);
            } else {
                assert(two.thing(first).links[n] == c);
            }
        }
        assert(after.connections[self.connections.len() as int] == c);
    }

    /// A connection put on the lists of its two ends and on the registry
    /// keeps every handle in the graph valid, and keeps every registered
    /// connection on the lists of its ends.
    pub proof fn lemma_attach_keeps(
        self,
        directed: bool,
        first: Thing<T, C>,
        data: C,
        second: Thing<T, C>,
        c: Connection<T, C>,
    )
        requires
            self.wf(),
            self.has_thing(first),
            self.has_thing(second),
            c@ == self.next_connection(),
        ensures
            self.with_connection(directed, first, data, second).attach(first, second, c).wf(),
            self.linked() ==> self.with_connection(directed, first, data, second).attach(
                first,
                second,
                c,
            ).linked(),
    {
        let made = self.with_connection(directed, first, data, second);
        let one = made.link(first, c);
        let two = one.link(second, c);
        let after = two.register_connection(c);
        assert(after == made.attach(first, second, c));
        self.lemma_attach_lists(directed, first, data, second, c);
        assert forall|t: int, k: int|
            0 <= t < after.nodes.len() && 0 <= k < after.nodes[t].links.len()
                implies after.has_connection(#[trigger] after.nodes[t].links[k]) by {
            if k < self.nodes[t].links.len() {
                assert(after.nodes[t].links[k] == self.nodes[t].links[k]);
                assert(self.has_connection(self.nodes[t].links[k]));
            } else {
                assert(after.nodes[t].links[k] == c);
            }
        }
        assert forall|e: int| 0 <= e < after.edges.len() implies after.has_thing(
            (#[trigger] after.edges[e]).ends.0,
        ) && after.has_thing(after.edges[e].ends.1) by {
            if e < self.edges.len() {
                assert(after.edges[e] == self.edges[e]);
            }
        }
        assert forall|i: int| 0 <= i < after.connections.len() implies after.has_connection(
            #[trigger] after.connections[i],
        ) by {
            if i < self.connections.len() {
                assert(after.connections[i] == self.connections[i]);
                assert(self.has_connection(self.connections[i]));
            }
        }
        assert forall|i: int| 0 <= i < after.things.len() implies after.has_thing(
            #[trigger] after.things[i],
        ) by {
            assert(self.has_thing(self.things[i]));
        }
        if self.linked() {
            assert forall|i: int| 0 <= i < after.connections.len() implies ({
                let d = #[trigger] after.connections[i];
                &&& after.thing(after.connection(d).ends.0).links.contains(d)
                &&& after.thing(after.connection(d).ends.1).links.contains(d)
            }) by {
                let d = after.connections[i];
                if i < self.connections.len() {
                    assert(d == self.connections[i]);
                    assert(self.has_connection(d));
                    assert(after.connection(d) == self.connection(d));
                    let a = self.connection(d).ends.0;
                    let b = self.connection(d).ends.1;
                    assert(self.has_thing(a) && self.has_thing(b));
                    let ka = choose|ka: int|
                        0 <= ka < self.thing(a).links.len() && self.thing(a).links[ka] == d;
                    assert(after.thing(a).links[ka] == d);
                    let kb = choose|kb: int|
                        0 <= kb < self.thing(b).links.len() && self.thing(b).links[kb] == d;
                    assert(after.thing(b).links[kb] == d);
                } else {
                    assert(d == c);
                    assert(after.connection(c).ends == (first, second));
                }
            }
        }
    }
}

// The cascade on one thing.

impl<T, C> ThingsView<T, C> {
    /// A connection is on the first `k + 1` places of a list exactly when it
    /// is on the first `k` or is the one at place `k`.
    pub proof fn lemma_reaches_step(links: Seq<Connection<T, C>>, k: int, e: int)
        requires
            0 <= k < links.len(),
        ensures
            reaches(links.take(k + 1), e) <==> (reaches(links.take(k), e) || links[k]@ == e),
    {
        if reaches(links.take(k + 1), e) {
            let j = choose|j: int|
                0 <= j < links.take(k + 1).len() && (#[trigger] links.take(k + 1)[j])@ == e;
            if j < k {
                assert(links.take(k)[j]@ == e);
            }
        }
        if reaches(links.take(k), e) {
            let j = choose|j: int| 0 <= j < links.take(k).len() && (#[trigger] links.take(k)[j])@ == e;
            assert(links.take(k + 1)[j]@ == e);
        }
        if links[k]@ == e {
            assert(links.take(k + 1)[k]@ == e);
        }
    }

    /// Before any place of the local list was gone through, nothing has
    /// changed and nothing was found alive.
    pub proof fn lemma_kill_links_start(self, t: Thing<T, C>)
        requires
            self.has_thing(t),
        ensures
            self.kill_links(t, 0) == self,
            self.live_links(t, 0) == Set::<int>::empty(),
    {
        assert(self.kill_links(t, 0).edges =~= self.edges);
        assert(self.live_links(t, 0) =~= Set::<int>::empty());
    }

    /// Going through place `k` of the local list of `t`: the connection
    /// there is marked dead, and it counts as found alive exactly when it is
    /// alive by then.
    pub proof fn lemma_kill_links_step(self, t: Thing<T, C>, k: int)
        requires
            self.wf(),
            self.has_thing(t),
            0 <= k < self.thing(t).links.len(),
            self.live_links(t, k).finite(),
        ensures
            ({
                let c = self.thing(t).links[k];
                let now = self.kill_links(t, k);
                &&& self.kill_links(t, k + 1) == now.kill_connection(c)
                &&& !now.connection(c).alive ==> self.kill_links(t, k + 1) == now
                &&& self.live_links(t, k + 1).finite()
                &&& self.live_links(t, k + 1).len() == self.live_links(t, k).len() + (if now.connection(
                    c,
                ).alive {
                    1nat
                } else {
                    0nat
                })
            }),
    {
        let links = self.thing(t).links;
        let c = links[k];
        let now = self.kill_links(t, k);
        assert(self.has_connection(c));
        assert forall|e: int|
            reaches(links.take(k + 1), e) <==> (reaches(links.take(k), e) || c@ == e) by {
            Self::lemma_reaches_step(links, k, e);
        }
        assert(self.kill_links(t, k + 1).edges =~= now.kill_connection(c).edges);
        if now.connection(c).alive {
            assert(self.live_links(t, k + 1) =~= self.live_links(t, k).insert(c@ as int));
            assert(!self.live_links(t, k).contains(c@ as int));
        } else {
            assert(now.kill_connection(c).edges =~= now.edges);
            assert(self.live_links(t, k + 1) =~= self.live_links(t, k));
        }
    }

    /// The connections that are alive on the local list of a thing are
    /// finitely many.
    pub proof fn lemma_live_links_finite(self, t: Thing<T, C>, k: int)
        ensures
            self.live_links(t, k).finite(),
            self.live_links(t, k).len() <= self.edges.len(),
    {
        let all = vstd::set_lib::set_int_range(0, self.edges.len() as int);
        vstd::set_lib::lemma_int_range(0, self.edges.len() as int);
        assert(self.live_links(t, k).subset_of(all));
        vstd::set_lib::lemma_len_subset(self.live_links(t, k), all);
    }
}

// Going through the registries.

impl<T, C> ThingsView<T, C> {
    /// The connections that going through the registered things finds alive
    /// are finitely many.
    pub proof fn lemma_fresh_kills_finite(self, chosen: Seq<bool>, k: int)
        ensures
            self.fresh_kills(chosen, k).finite(),
            self.fresh_kills(chosen, k).len() <= self.edges.len(),
    {
        let all = vstd::set_lib::set_int_range(0, self.edges.len() as int);
        vstd::set_lib::lemma_int_range(0, self.edges.len() as int);
        assert(self.fresh_kills(chosen, k).subset_of(all));
        vstd::set_lib::lemma_len_subset(self.fresh_kills(chosen, k), all);
    }

    /// Going through the registered things keeps every handle in the graph
    /// valid and keeps every registered connection on the lists of its ends.
    pub proof fn lemma_kill_things_keeps(self, chosen: Seq<bool>, k: int)
        requires
            self.wf(),
        ensures
            self.kill_things(chosen, k).wf(),
            self.linked() ==> self.kill_things(chosen, k).linked(),
    {
        self.lemma_same_shape_keeps(self.kill_things(chosen, k));
    }

    /// Before any registered thing was gone through, nothing has changed.
    pub proof fn lemma_kill_things_start(self, chosen: Seq<bool>)
        requires
            self.wf(),
        ensures
            self.kill_things(chosen, 0) == self,
    {
        reveal(Seq::filter);
        assert(chosen.take(0) =~= Seq::empty());
        assert(self.fresh_kills(chosen, 0) =~= Set::<int>::empty());
        assert(self.kill_things(chosen, 0).nodes =~= self.nodes);
        assert(self.kill_things(chosen, 0).edges =~= self.edges);
    }

    /// Going through place `k` of the registry of things: where its flag is
    /// set, the thing there goes through the cascade and what the cascade
    /// counts is added to the dead total.
    pub proof fn lemma_kill_things_step(self, chosen: Seq<bool>, k: int)
        requires
            self.wf(),
            0 <= k < self.things.len(),
            chosen.len() == self.things.len(),
        ensures
            self.kill_things(chosen, k).wf(),
            self.kill_things(chosen, k).has_thing(self.things[k]),
            self.kill_things(chosen, k + 1) == if chosen[k] {
                self.kill_things(chosen, k).kill_thing(self.things[k]).count_dead(
                    self.kill_things(chosen, k).kill_count(self.things[k]),
                )
            } else {
                self.kill_things(chosen, k)
            },
    {
        let now = self.kill_things(chosen, k);
        let next = self.kill_things(chosen, k + 1);
        let t = self.things[k];
        assert(self.has_thing(t));
        self.lemma_kill_things_keeps(chosen, k);
        let links = self.thing(t).links;
        let n = links.len() as int;
        assert(now.thing(t).links == links);
        assert(links.take(n) =~= links);
        assert(chosen.take(k + 1) =~= chosen.take(k).push(chosen[k]));
        chosen.take(k).lemma_filter_push(chosen[k], |flag: bool| flag);
        assert forall|u: int|
            picks(self.things, chosen, k + 1, u) <==> (picks(self.things, chosen, k, u) || (chosen[k]
                && t@ == u)) by {
            if picks(self.things, chosen, k + 1, u) {
                let i = choose|i: int|
                    0 <= i < k + 1 && i < self.things.len() && chosen[i] && (
                    #[trigger] self.things[i])@ == u;
                if i < k {
                    assert(picks(self.things, chosen, k, u));
                }
            }
            if picks(self.things, chosen, k, u) {
                let i = choose|i: int|
                    0 <= i < k && i < self.things.len() && chosen[i] && (#[trigger] self.things[i])@
                        == u;
                assert(0 <= i < k + 1 && chosen[i] && self.things[i]@ == u);
            }
            if chosen[k] && t@ == u {
                assert(0 <= k < k + 1 && chosen[k] && self.things[k]@ == u);
            }
        }
        assert forall|e: int|
            self.dooms(chosen, k + 1, e) <==> (self.dooms(chosen, k, e) || (chosen[k] && reaches(
                links,
                e,
            ))) by {
            if self.dooms(chosen, k + 1, e) {
                let i = choose|i: int|
                    0 <= i < k + 1 && i < self.things.len() && chosen[i] && reaches(
                        self.thing(#[trigger] self.things[i]).links,
                        e,
                    );
                if i < k {
                    assert(self.dooms(chosen, k, e));
                }
            }
            if self.dooms(chosen, k, e) {
                let i = choose|i: int|
                    0 <= i < k && i < self.things.len() && chosen[i] && reaches(
                        self.thing(#[trigger] self.things[i]).links,
                        e,
                    );
                assert(0 <= i < k + 1 && chosen[i] && reaches(self.thing(self.things[i]).links, e));
            }
            if chosen[k] && reaches(links, e) {
                assert(0 <= k < k + 1 && chosen[k] && reaches(
                    self.thing(self.things[k]).links,
                    e,
                ));
            }
        }
        if chosen[k] {
            let killed = now.kill_thing(t);
            let found = now.live_links(t, n);
            let after = killed.count_dead(now.kill_count(t));
            assert(next.nodes =~= after.nodes);
            assert(next.edges =~= after.edges);
            self.lemma_fresh_kills_finite(chosen, k);
            now.lemma_live_links_finite(t, n);
            assert(self.fresh_kills(chosen, k).disjoint(found));
            assert(self.fresh_kills(chosen, k + 1) =~= self.fresh_kills(chosen, k) + found);
            vstd::set_lib::lemma_set_disjoint_lens(self.fresh_kills(chosen, k), found);
        } else {
            assert(next.nodes =~= now.nodes);
            assert(next.edges =~= now.edges);
            assert(self.fresh_kills(chosen, k + 1) =~= self.fresh_kills(chosen, k));
        }
    }

    /// Marking registered connections dead keeps every handle in the graph
    /// valid and keeps every registered connection on the lists of its ends.
    pub proof fn lemma_kill_connections_keeps(self, chosen: Seq<bool>, k: int)
        requires
            self.wf(),
        ensures
            self.kill_connections(chosen, k).wf(),
            self.linked() ==> self.kill_connections(chosen, k).linked(),
    {
        self.lemma_same_shape_keeps(self.kill_connections(chosen, k));
    }

    /// Before any registered connection was gone through, nothing has
    /// changed.
    pub proof fn lemma_kill_connections_start(self, chosen: Seq<bool>)
        requires
            self.wf(),
        ensures
            self.kill_connections(chosen, 0) == self,
    {
        reveal(Seq::filter);
        assert(chosen.take(0) =~= Seq::empty());
        assert(self.kill_connections(chosen, 0).edges =~= self.edges);
    }

    /// Going through place `k` of the registry of connections: where its
    /// flag is set the connection there is marked dead and counted.
    pub proof fn lemma_kill_connections_step(self, chosen: Seq<bool>, k: int)
        requires
            self.wf(),
            0 <= k < self.connections.len(),
            chosen.len() == self.connections.len(),
        ensures
            self.kill_connections(chosen, k + 1) == if chosen[k] {
                self.kill_connections(chosen, k).kill_connection(self.connections[k]).count_dead(1)
            } else {
                self.kill_connections(chosen, k)
            },
    {
        let now = self.kill_connections(chosen, k);
        let next = self.kill_connections(chosen, k + 1);
        let c = self.connections[k];
        assert(self.has_connection(c));
        assert(chosen.take(k + 1) =~= chosen.take(k).push(chosen[k]));
        chosen.take(k).lemma_filter_push(chosen[k], |flag: bool| flag);
        assert forall|e: int|
            picks(self.connections, chosen, k + 1, e) <==> (picks(self.connections, chosen, k, e) || (
            chosen[k] && c@ == e)) by {
            if picks(self.connections, chosen, k + 1, e) {
                let i = choose|i: int|
                    0 <= i < k + 1 && i < self.connections.len() && chosen[i] && (
                    #[trigger] self.connections[i])@ == e;
                if i < k {
                    assert(picks(self.connections, chosen, k, e));
                }
            }
            if picks(self.connections, chosen, k, e) {
                let i = choose|i: int|
                    0 <= i < k && i < self.connections.len() && chosen[i] && (
                    #[trigger] self.connections[i])@ == e;
                assert(0 <= i < k + 1 && chosen[i] && self.connections[i]@ == e);
            }
            if chosen[k] && c@ == e {
                assert(0 <= k < k + 1 && chosen[k] && self.connections[k]@ == e);
            }
        }
        if chosen[k] {
            assert(next.edges =~= now.kill_connection(c).edges);
        } else {
            assert(next.edges =~= now.edges);
        }
    }
}

// Compaction.

impl<T, C> ThingsView<T, C> {
    /// Before any registered thing was gone through, no list has changed.
    pub proof fn lemma_compact_start(self)
        ensures
            self.compact(0) == self,
    {
        assert(self.compact(0).nodes =~= self.nodes);
    }

    /// Compacting local lists keeps every handle in the graph valid and
    /// keeps every registered connection that is alive on the lists of its
    /// ends.
    pub proof fn lemma_compact_keeps(self, k: int)
        requires
            self.wf(),
        ensures
            self.compact(k).wf(),
            forall|u: int, c: Connection<T, C>|
                0 <= u < self.nodes.len() && self.nodes[u].links.contains(c) && self.has_connection(c)
                    && self.connection(c).alive ==> #[trigger] self.compact(k).nodes[u].links.contains(
                    c,
                ),
    {
        let after = self.compact(k);
        assert forall|u: int, j: int|
            0 <= u < after.nodes.len() && 0 <= j < after.nodes[u].links.len()
                implies after.has_connection(#[trigger] after.nodes[u].links[j]) by {
            if self.survives(u, k) {
                self.nodes[u].links.lemma_filter_pred(alive_connection(self.edges), j);
            } else {
                assert(self.has_connection(self.nodes[u].links[j]));
            }
        }
        assert forall|e: int| 0 <= e < after.edges.len() implies after.has_thing(
            (#[trigger] after.edges[e]).ends.0,
        ) && after.has_thing(after.edges[e].ends.1) by {
            assert(self.has_thing(self.edges[e].ends.0));
        }
        assert forall|i: int| 0 <= i < after.things.len() implies after.has_thing(
            #[trigger] after.things[i],
        ) by {
            assert(self.has_thing(self.things[i]));
        }
        assert forall|i: int| 0 <= i < after.connections.len() implies after.has_connection(
            #[trigger] after.connections[i],
        ) by {
            assert(self.has_connection(self.connections[i]));
        }
        assert forall|u: int, c: Connection<T, C>|
            0 <= u < self.nodes.len() && self.nodes[u].links.contains(c) && self.has_connection(c)
                && self.connection(c).alive implies #[trigger] after.nodes[u].links.contains(c) by {
            if self.survives(u, k) {
                let j = choose|j: int|
                    0 <= j < self.nodes[u].links.len() && self.nodes[u].links[j] == c;
                self.nodes[u].links.lemma_filter_contains(alive_connection(self.edges), j);
            }
        }
    }

    /// Going through place `k` of the registry of things: where the thing
    /// there is alive, its local list keeps the connections that are alive.
    pub proof fn lemma_compact_step(self, k: int)
        requires
            self.wf(),
            0 <= k < self.things.len(),
        ensures
            self.compact(k).wf(),
            self.compact(k).has_thing(self.things[k]),
            self.compact(k).thing(self.things[k]).alive == self.thing(self.things[k]).alive,
            self.compact(k + 1) == if self.thing(self.things[k]).alive {
                self.compact(k).set_thing(
                    self.things[k],
                    self.compact(k).thing(self.things[k]).with_links(
                        self.compact(k).live_connections(self.compact(k).thing(self.things[k]).links),
                    ),
                )
            } else {
                self.compact(k)
            },
    {
        let now = self.compact(k);
        let next = self.compact(k + 1);
        let t = self.things[k];
        assert(self.has_thing(t));
        self.lemma_compact_keeps(k);
        assert forall|u: int| self.survives(u, k + 1) <==> (self.survives(u, k) || (0 <= u
            < self.nodes.len() && self.nodes[u].alive && t@ == u)) by {
            if self.survives(u, k + 1) {
                let i = choose|i: int|
                    0 <= i < k + 1 && i < self.things.len() && (#[trigger] self.things[i])@ == u;
                if i < k {
                    assert(self.survives(u, k));
                }
            }
            if self.survives(u, k) {
                let i = choose|i: int|
                    0 <= i < k && i < self.things.len() && (#[trigger] self.things[i])@ == u;
                assert(0 <= i < k + 1 && self.things[i]@ == u);
            }
            if 0 <= u < self.nodes.len() && self.nodes[u].alive && t@ == u {
                assert(0 <= k < k + 1 && self.things[k]@ == u);
            }
        }
        if self.thing(t).alive {
            lemma_filter_twice(self.thing(t).links, alive_connection(self.edges));
            let set = now.set_thing(
                t,
                now.thing(t).with_links(now.live_connections(now.thing(t).links)),
            );
            assert(next.nodes =~= set.nodes);
        } else {
            assert(next.nodes =~= now.nodes);
        }
    }

    /// Compaction keeps every handle in the graph valid and keeps every
    /// registered connection on the lists of its ends.
    pub proof fn lemma_clean_keeps(self)
        requires
            self.wf(),
        ensures
            self.clean().wf(),
            self.linked() ==> self.clean().linked(),
    {
        let after = self.clean();
        let n = self.things.len() as int;
        self.lemma_compact_keeps(n);
        assert forall|i: int| 0 <= i < after.things.len() implies after.has_thing(
            #[trigger] after.things[i],
        ) by {
            self.things.lemma_filter_pred(alive_thing(self.nodes), i);
        }
        assert forall|i: int| 0 <= i < after.connections.len() implies after.has_connection(
            #[trigger] after.connections[i],
        ) by {
            self.connections.lemma_filter_pred(alive_connection(self.edges), i);
        }
        assert forall|u: int, j: int|
            0 <= u < after.nodes.len() && 0 <= j < after.nodes[u].links.len()
                implies after.has_connection(#[trigger] after.nodes[u].links[j]) by {
            assert(self.compact(n).has_connection(self.compact(n).nodes[u].links[j]));
        }
        assert forall|e: int| 0 <= e < after.edges.len() implies after.has_thing(
            (#[trigger] after.edges[e]).ends.0,
        ) && after.has_thing(after.edges[e].ends.1) by {
            assert(self.has_thing(self.edges[e].ends.0));
        }
        if self.linked() {
            assert forall|i: int| 0 <= i < after.connections.len() implies ({
                let c = #[trigger] after.connections[i];
                &&& after.thing(after.connection(c).ends.0).links.contains(c)
                &&& after.thing(after.connection(c).ends.1).links.contains(c)
            }) by {
                let c = after.connections[i];
                self.connections.lemma_filter_pred(alive_connection(self.edges), i);
                self.connections.lemma_filter_contains_rev(alive_connection(self.edges), c);
                let j = choose|j: int| 0 <= j < self.connections.len() && self.connections[j] == c;
                assert(self.connections[j] == c);
                let a = self.connection(c).ends.0;
                let b = self.connection(c).ends.1;
                assert(self.has_thing(a) && self.has_thing(b));
                assert(self.nodes[a@ as int].links.contains(c));
                assert(self.nodes[b@ as int].links.contains(c));
                assert(self.compact(n).nodes[a@ as int].links.contains(c));
                assert(self.compact(n).nodes[b@ as int].links.contains(c));
            }
        }
    }
}

} // verus!
