//! What holds of every graph, proved from the state changes of the model.
use crate::connection::Connection;
use crate::model::{alive_connection, alive_thing, percentage, picks, saturated, ThingsView};
use crate::proofs::{lemma_filter_all, lemma_filter_twice};
use crate::thing::Thing;
use vstd::prelude::*;

verus! {

/// A thing that was just created and registered is alive, has no
/// connections, and stands at the end of the registry.
pub proof fn lemma_new_thing_is_fresh<T, C>(graph: ThingsView<T, C>, data: T, t: Thing<T, C>)
    requires
        t@ == graph.next_thing(),
    ensures
        graph.with_thing(data).register_thing(t).thing(t).alive,
        graph.with_thing(data).register_thing(t).thing(t).links.len() == 0,
        graph.with_thing(data).register_thing(t).thing(t).data == data,
        graph.with_thing(data).register_thing(t).things.last() == t,
{
}

/// A connection that was just created and attached stands on the local
/// lists of both of its ends and on the registry.
pub proof fn lemma_new_connection_is_attached<T, C>(
    graph: ThingsView<T, C>,
    directed: bool,
    first: Thing<T, C>,
    data: C,
    second: Thing<T, C>,
    c: Connection<T, C>,
)
    requires
        graph.has_thing(first),
        graph.has_thing(second),
        c@ == graph.next_connection(),
    ensures
        graph.with_connection(directed, first, data, second).attach(first, second, c).thing(
            first,
        ).links.contains(c),
        graph.with_connection(directed, first, data, second).attach(first, second, c).thing(
            second,
        ).links.contains(c),
        graph.with_connection(directed, first, data, second).attach(
            first,
            second,
            c,
        ).connections.contains(c),
        graph.with_connection(directed, first, data, second).attach(first, second, c).connection(
            c,
        ).alive,
{
    graph.lemma_attach_lists(directed, first, data, second, c);
}

/// A directed connection gives back what it was created with: its source is
/// the first thing and its target the second.
pub proof fn lemma_directed_round_trip<T, C>(
    graph: ThingsView<T, C>,
    from: Thing<T, C>,
    data: C,
    to: Thing<T, C>,
    c: Connection<T, C>,
)
    requires
        graph.has_thing(from),
        graph.has_thing(to),
        c@ == graph.next_connection(),
    ensures
        graph.with_connection(true, from, data, to).attach(from, to, c).directed_from(c) == Some(
            from,
        ),
        graph.with_connection(true, from, data, to).attach(from, to, c).directed_towards(c)
            == Some(to),
        graph.with_connection(true, from, data, to).attach(from, to, c).connection(c).ends == (
            from,
            to,
        ),
        graph.with_connection(true, from, data, to).attach(from, to, c).connection(c).data == data,
{
    graph.lemma_attach_lists(true, from, data, to, c);
}

/// An undirected connection gives back the two things it was created with,
/// in the order in which they were given, and has neither source nor target.
pub proof fn lemma_undirected_round_trip<T, C>(
    graph: ThingsView<T, C>,
    first: Thing<T, C>,
    data: C,
    second: Thing<T, C>,
    c: Connection<T, C>,
)
    requires
        graph.has_thing(first),
        graph.has_thing(second),
        c@ == graph.next_connection(),
    ensures
        graph.with_connection(false, first, data, second).attach(first, second, c).connection(
            c,
        ).ends == (first, second),
        graph.with_connection(false, first, data, second).attach(first, second, c).directed_from(c)
            == None::<Thing<T, C>>,
        graph.with_connection(false, first, data, second).attach(
            first,
            second,
            c,
        ).directed_towards(c) == None::<Thing<T, C>>,
        graph.with_connection(false, first, data, second).attach(first, second, c).connection(
            c,
        ).data == data,
{
    graph.lemma_attach_lists(false, first, data, second, c);
}

/// After the registered things were gone through, a thing whose flag was set
/// is dead, and so is every connection on its local list. Where every
/// registered connection stands on the lists of its ends, every registered
/// connection that joins the thing is dead.
pub proof fn lemma_kill_things_cascades<T, C>(graph: ThingsView<T, C>, chosen: Seq<bool>, i: int)
    requires
        graph.wf(),
        chosen.len() == graph.things.len(),
        0 <= i < graph.things.len(),
        chosen[i],
    ensures
        !graph.kill_things(chosen, graph.things.len() as int).thing(graph.things[i]).alive,
        forall|c: Connection<T, C>|
            graph.thing(graph.things[i]).links.contains(c) ==> !(#[trigger] graph.kill_things(
                chosen,
                graph.things.len() as int,
            ).connection(c)).alive,
        graph.linked() ==> forall|j: int|
            0 <= j < graph.connections.len() && graph.connection(
                #[trigger] graph.connections[j],
            ).joins(graph.things[i]) ==> !graph.kill_things(
                chosen,
                graph.things.len() as int,
            ).connection(graph.connections[j]).alive,
{
    let n = graph.things.len() as int;
    let after = graph.kill_things(chosen, n);
    let t = graph.things[i];
    assert(graph.has_thing(t));
    assert(picks(graph.things, chosen, n, t@ as int));
    assert forall|c: Connection<T, C>| graph.thing(t).links.contains(c) implies !(
    #[trigger] after.connection(c)).alive by {
        let k = choose|k: int| 0 <= k < graph.thing(t).links.len() && graph.thing(t).links[k] == c;
        assert(graph.has_connection(graph.thing(t).links[k]));
        assert(graph.thing(t).links[k]@ == c@);
        assert(graph.dooms(chosen, n, c@ as int));
    }
    if graph.linked() {
        assert forall|j: int|
            0 <= j < graph.connections.len() && graph.connection(
                #[trigger] graph.connections[j],
            ).joins(t) implies !after.connection(graph.connections[j]).alive by {
            let c = graph.connections[j];
            assert(graph.thing(t).links.contains(c));
        }
    }
}

/// Going through the registered things changes no payload, no local list and
/// no end of a connection. A thing that no flag picks is as it was, and so
/// is a connection that is on the local list of no thing picked.
pub proof fn lemma_kill_things_spares<T, C>(graph: ThingsView<T, C>, chosen: Seq<bool>)
    requires
        graph.wf(),
        chosen.len() == graph.things.len(),
    ensures
        graph.kill_things(chosen, graph.things.len() as int).things == graph.things,
        graph.kill_things(chosen, graph.things.len() as int).connections == graph.connections,
        forall|t: Thing<T, C>|
            graph.has_thing(t) ==> {
                let after = #[trigger] graph.kill_things(chosen, graph.things.len() as int).thing(t);
                &&& after.data == graph.thing(t).data
                &&& after.links == graph.thing(t).links
                &&& !picks(graph.things, chosen, graph.things.len() as int, t@ as int) ==> after
                    == graph.thing(t)
            },
        forall|c: Connection<T, C>|
            graph.has_connection(c) ==> {
                let after = #[trigger] graph.kill_things(
                    chosen,
                    graph.things.len() as int,
                ).connection(c);
                &&& after.data == graph.connection(c).data
                &&& after.ends == graph.connection(c).ends
                &&& after.directed == graph.connection(c).directed
                &&& !graph.dooms(chosen, graph.things.len() as int, c@ as int) ==> after
                    == graph.connection(c)
            },
{
}

/// After the registered connections were gone through, a connection whose
/// flag was set is dead, a connection that no flag picks is as it was, and
/// every thing is as it was.
pub proof fn lemma_kill_connections_marks<T, C>(graph: ThingsView<T, C>, chosen: Seq<bool>)
    requires
        graph.wf(),
        chosen.len() == graph.connections.len(),
    ensures
        graph.kill_connections(chosen, graph.connections.len() as int).nodes == graph.nodes,
        graph.kill_connections(chosen, graph.connections.len() as int).things == graph.things,
        graph.kill_connections(chosen, graph.connections.len() as int).connections
            == graph.connections,
        forall|i: int|
            0 <= i < graph.connections.len() && chosen[i] ==> !graph.kill_connections(
                chosen,
                graph.connections.len() as int,
            ).connection(#[trigger] graph.connections[i]).alive,
        forall|c: Connection<T, C>|
            graph.has_connection(c) && !picks(
                graph.connections,
                chosen,
                graph.connections.len() as int,
                c@ as int,
            ) ==> #[trigger] graph.kill_connections(
                chosen,
                graph.connections.len() as int,
            ).connection(c) == graph.connection(c),
{
    let n = graph.connections.len() as int;
    assert forall|i: int| 0 <= i < graph.connections.len() && chosen[i] implies !graph.kill_connections(
        chosen,
        n,
    ).connection(#[trigger] graph.connections[i]).alive by {
        let c = graph.connections[i];
        assert(graph.has_connection(c));
        assert(picks(graph.connections, chosen, n, c@ as int));
    }
}

/// What is dead stays dead: neither killing nor compaction brings a thing
/// or a connection back to life.
pub proof fn lemma_dead_stays_dead<T, C>(graph: ThingsView<T, C>, chosen: Seq<bool>, k: int)
    ensures
        forall|t: Thing<T, C>|
            graph.has_thing(t) && !graph.thing(t).alive ==> !(#[trigger] graph.kill_things(
                chosen,
                k,
            ).thing(t)).alive,
        forall|t: Thing<T, C>|
            graph.has_thing(t) && !graph.thing(t).alive ==> !(#[trigger] graph.kill_connections(
                chosen,
                k,
            ).thing(t)).alive,
        forall|t: Thing<T, C>|
            graph.has_thing(t) && !graph.thing(t).alive ==> !(#[trigger] graph.clean().thing(
                t,
            )).alive,
        forall|c: Connection<T, C>|
            graph.has_connection(c) && !graph.connection(c).alive ==> !(
            #[trigger] graph.kill_things(chosen, k).connection(c)).alive,
        forall|c: Connection<T, C>|
            graph.has_connection(c) && !graph.connection(c).alive ==> !(
            #[trigger] graph.kill_connections(chosen, k).connection(c)).alive,
        forall|c: Connection<T, C>|
            graph.has_connection(c) && !graph.connection(c).alive ==> !(
            #[trigger] graph.clean().connection(c)).alive,
{
}

/// Compacting twice gives what compacting once gives.
pub proof fn lemma_clean_twice<T, C>(graph: ThingsView<T, C>)
    requires
        graph.wf(),
    ensures
        graph.clean().clean() == graph.clean(),
{
    let once = graph.clean();
    let twice = once.clean();
    let n = graph.things.len() as int;
    let m = once.things.len() as int;
    assert(once.edges == graph.edges);
    // The registries.
    lemma_filter_twice(graph.connections, alive_connection(graph.edges));
    assert forall|i: int| 0 <= i < once.things.len() implies alive_thing(once.nodes)(
        #[trigger] once.things[i],
    ) by {
        graph.things.lemma_filter_pred(alive_thing(graph.nodes), i);
    }
    lemma_filter_all(once.things, alive_thing(once.nodes));
    // The local lists.
    assert forall|t: int| 0 <= t < once.nodes.len() implies #[trigger] twice.nodes[t]
        == once.nodes[t] by {
        if once.survives(t, m) {
            let i = choose|i: int|
                0 <= i < m && i < once.things.len() && (#[trigger] once.things[i])@ == t;
            graph.things.lemma_filter_contains_rev(alive_thing(graph.nodes), once.things[i]);
            let j = choose|j: int| 0 <= j < graph.things.len() && graph.things[j] == once.things[i];
            assert(graph.things[j]@ == t);
            assert(graph.survives(t, n));
            lemma_filter_twice(graph.nodes[t].links, alive_connection(graph.edges));
        }
    }
    assert(twice.nodes =~= once.nodes);
}

/// After compaction the dead total is zero, so the dead percentage of a
/// graph that still has registered items is zero.
pub proof fn lemma_clean_resets<T, C>(graph: ThingsView<T, C>)
    ensures
        graph.clean().dead_amount == 0,
        graph.clean().total() > 0 ==> percentage(graph.clean().dead_amount, graph.clean().total())
            == 0,
{
}

/// Compaction leaves nothing dead on a registry or on the local list of a
/// registered thing that is alive, and drops nothing that is alive.
pub proof fn lemma_clean_keeps_the_living<T, C>(graph: ThingsView<T, C>)
    requires
        graph.wf(),
    ensures
        forall|i: int|
            0 <= i < graph.clean().things.len() ==> graph.thing(
                #[trigger] graph.clean().things[i],
            ).alive,
        forall|i: int|
            0 <= i < graph.clean().connections.len() ==> graph.connection(
                #[trigger] graph.clean().connections[i],
            ).alive,
        forall|i: int|
            0 <= i < graph.things.len() && graph.thing(#[trigger] graph.things[i]).alive
                ==> graph.clean().things.contains(graph.things[i]),
        forall|i: int|
            0 <= i < graph.connections.len() && graph.connection(
                #[trigger] graph.connections[i],
            ).alive ==> graph.clean().connections.contains(graph.connections[i]),
        forall|i: int|
            0 <= i < graph.things.len() && graph.thing(#[trigger] graph.things[i]).alive
                ==> graph.clean().thing(graph.things[i]).links == graph.live_connections(
                graph.thing(graph.things[i]).links,
            ),
{
    let after = graph.clean();
    assert forall|i: int| 0 <= i < after.things.len() implies graph.thing(
        #[trigger] after.things[i],
    ).alive by {
        graph.things.lemma_filter_pred(alive_thing(graph.nodes), i);
    }
    assert forall|i: int| 0 <= i < after.connections.len() implies graph.connection(
        #[trigger] after.connections[i],
    ).alive by {
        graph.connections.lemma_filter_pred(alive_connection(graph.edges), i);
    }
    assert forall|i: int|
        0 <= i < graph.things.len() && graph.thing(
            #[trigger] graph.things[i],
        ).alive implies after.things.contains(graph.things[i]) by {
        assert(graph.has_thing(graph.things[i]));
        graph.things.lemma_filter_contains(alive_thing(graph.nodes), i);
    }
    assert forall|i: int|
        0 <= i < graph.connections.len() && graph.connection(
            #[trigger] graph.connections[i],
        ).alive implies after.connections.contains(graph.connections[i]) by {
        assert(graph.has_connection(graph.connections[i]));
        graph.connections.lemma_filter_contains(alive_connection(graph.edges), i);
    }
    assert forall|i: int|
        0 <= i < graph.things.len() && graph.thing(
            #[trigger] graph.things[i],
        ).alive implies after.thing(graph.things[i]).links == graph.live_connections(
        graph.thing(graph.things[i]).links,
    ) by {
        assert(graph.has_thing(graph.things[i]));
        assert(graph.survives(graph.things[i]@ as int, graph.things.len() as int));
    }
}

/// The dead percentage of a graph with registered items is at most 100
/// exactly when a hundred times the dead total, held at the largest counter
/// value, is less than 101 times the number of registered items. It is so
/// whenever the dead total is no more than that number.
pub proof fn lemma_percentage_range(dead: nat, total: nat)
    requires
        total > 0,
    ensures
        percentage(dead, total) <= 100 <==> saturated(dead * 100) < 101 * total,
        dead <= total ==> percentage(dead, total) <= 100,
        dead == 0 ==> percentage(dead, total) == 0,
{
    let scaled = saturated(dead * 100);
    assert(scaled / total <= 100 <==> scaled < 101 * total) by (nonlinear_arith)
        requires
            total > 0,
            scaled >= 0,
    ;
    if dead <= total {
        assert(dead * 100 <= total * 100) by (nonlinear_arith)
            requires
                dead <= total,
        ;
        assert(scaled <= dead * 100);
    }
}

} // verus!
