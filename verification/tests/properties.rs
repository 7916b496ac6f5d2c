use connect_things::visit::{judge_all, scan_all, scan_first};
use connect_things::{Connection, Direction, Do, Thing, ThingInner, Things};

fn names(graph: &Things<&'static str, &'static str>) -> Vec<&'static str> {
    graph.do_for_all_things(|thing| Do::Take(thing.access(graph, |data| *data)))
}

fn labels(graph: &Things<&'static str, &'static str>) -> Vec<&'static str> {
    graph.do_for_all_connections(|connection| Do::Take(connection.access(graph, |data| *data)))
}

fn local_labels(
    graph: &Things<&'static str, &'static str>,
    thing: &Thing<&'static str, &'static str>,
) -> Vec<&'static str> {
    thing.do_for_all_connections(graph, |connection| {
        Do::Take(connection.access(graph, |data| *data))
    })
}

#[test]
fn new_container_is_empty() {
    let mut graph = Things::<u32, u32>::new();
    assert_eq!(graph.thing_count(), 0);
    assert_eq!(graph.connection_count(), 0);
    assert_eq!(graph.dead_amount(), 0);
    assert_eq!(graph.dead_percentage(), Err(()));
}

#[test]
fn new_thing_is_alive_and_unconnected() {
    let mut graph = Things::<&str, &str>::new();
    let thing = graph.new_thing("solo");
    assert!(thing.is_alive(&graph));
    assert_eq!(local_labels(&graph, &thing).len(), 0);
    assert_eq!(thing.access(&graph, |data| *data), "solo");
    assert_eq!(names(&graph), vec!["solo"]);
    assert_eq!(graph.thing_count(), 1);
}

#[test]
fn new_connections_are_on_both_lists_and_the_registry() {
    let mut graph = Things::<&str, &str>::new();
    let a = graph.new_thing("a");
    let b = graph.new_thing("b");
    let directed = graph.new_directed_connection(a, "to", b);
    let undirected = graph.new_undirected_connection([b, a], "with");

    for connection in [directed, undirected] {
        for end in [a, b] {
            let hits = end.do_for_all_connections(&graph, |c| {
                if c.same_as(&connection) {
                    Do::Take(())
                } else {
                    Do::Nothing
                }
            });
            assert_eq!(hits.len(), 1);
        }
        let registered = graph.do_for_all_connections(|c| {
            if c.same_as(&connection) {
                Do::Take(())
            } else {
                Do::Nothing
            }
        });
        assert_eq!(registered.len(), 1);
        assert!(connection.is_alive(&graph));
    }
    assert_eq!(local_labels(&graph, &a), vec!["to", "with"]);
    assert_eq!(local_labels(&graph, &b), vec!["to", "with"]);
    assert_eq!(labels(&graph), vec!["to", "with"]);
}

#[test]
fn directed_round_trip() {
    let mut graph = Things::<&str, &str>::new();
    let a = graph.new_thing("a");
    let b = graph.new_thing("b");
    let connection = graph.new_directed_connection(a, "data", b);
    assert!(connection.get_directed_from(&graph).unwrap().same_as(&a));
    assert!(connection.get_directed_towards(&graph).unwrap().same_as(&b));
    let ends = connection.get_things(&graph);
    assert!(ends[0].same_as(&a));
    assert!(ends[1].same_as(&b));
    assert_eq!(connection.access(&graph, |data| *data), "data");
}

#[test]
fn undirected_round_trip() {
    let mut graph = Things::<&str, &str>::new();
    let a = graph.new_thing("a");
    let b = graph.new_thing("b");
    let connection = graph.new_undirected_connection([b, a], "data");
    let ends = connection.get_things(&graph);
    assert!(ends[0].same_as(&b));
    assert!(ends[1].same_as(&a));
    assert!(connection.get_directed_from(&graph).is_none());
    assert!(connection.get_directed_towards(&graph).is_none());
}

#[test]
fn killing_alice_kills_follows_and_spares_bob() {
    let mut graph = Things::<&str, &str>::new();
    let alice = graph.new_thing("Alice");
    let bob = graph.new_thing("Bob");
    let follows = graph.new_directed_connection(alice, "follows", bob);

    graph.kill_things(|graph, thing| thing.eq_data(graph, &"Alice"));

    assert!(!alice.is_alive(&graph));
    assert!(bob.is_alive(&graph));
    assert!(!follows.is_alive(&graph));
    // Nothing has left any list yet.
    assert_eq!(names(&graph), vec!["Alice", "Bob"]);
    assert_eq!(labels(&graph), vec!["follows"]);
    assert_eq!(local_labels(&graph, &bob), vec!["follows"]);
    assert_eq!(graph.dead_amount(), 2);

    graph.clean();

    assert_eq!(local_labels(&graph, &bob).len(), 0);
    assert_eq!(labels(&graph).len(), 0);
    assert_eq!(names(&graph), vec!["Bob"]);
    assert_eq!(graph.dead_amount(), 0);
    assert!(bob.is_alive(&graph));
}

#[test]
fn empty_graph_has_no_dead_percentage() {
    let mut graph = Things::<&str, &str>::new();
    assert_eq!(graph.dead_percentage(), Err(()));
    assert_eq!(graph.dead_amount(), 0);
}

#[test]
fn killing_the_middle_of_a_chain_counts_three() {
    let mut graph = Things::<&str, &str>::new();
    let a = graph.new_thing("A");
    let b = graph.new_thing("B");
    let c = graph.new_thing("C");
    let ab = graph.new_directed_connection(a, "ab", b);
    let bc = graph.new_directed_connection(b, "bc", c);

    graph.kill_things(|graph, thing| thing.eq_data(graph, &"B"));

    assert_eq!(graph.dead_amount(), 3);
    // 3 * 100 / (3 things + 2 connections) = 60.
    assert_eq!(graph.dead_percentage(), Ok(60));
    assert!(a.is_alive(&graph));
    assert!(!b.is_alive(&graph));
    assert!(c.is_alive(&graph));
    assert!(!ab.is_alive(&graph));
    assert!(!bc.is_alive(&graph));
}

#[test]
fn dead_percentage_rounds_down() {
    let mut graph = Things::<u32, u32>::new();
    let a = graph.new_thing(1);
    let b = graph.new_thing(2);
    let _c = graph.new_thing(3);
    graph.new_directed_connection(a, 10, b);
    graph.new_directed_connection(a, 11, b);
    graph.new_directed_connection(a, 12, b);
    graph.new_directed_connection(b, 13, a);
    // One dead connection among seven items: 100 / 7 = 14.
    graph.kill_connections(|graph, connection| connection.eq_data(graph, &13));
    assert_eq!(graph.dead_amount(), 1);
    assert_eq!(graph.dead_percentage(), Ok(14));
    // Two more: 300 / 7 = 42.
    graph.kill_connections(|graph, connection| {
        connection.access(graph, |data| *data == 10 || *data == 11)
    });
    assert_eq!(graph.dead_amount(), 3);
    assert_eq!(graph.dead_percentage(), Ok(42));
}

#[test]
fn dead_percentage_can_exceed_hundred_when_kills_repeat() {
    let mut graph = Things::<u32, u32>::new();
    let only = graph.new_thing(1);
    graph.kill_things(|_, _| true);
    assert_eq!(graph.dead_amount(), 1);
    assert_eq!(graph.dead_percentage(), Ok(100));
    // Killing a dead thing counts it again.
    graph.kill_things(|_, _| true);
    assert_eq!(graph.dead_amount(), 2);
    assert_eq!(graph.dead_percentage(), Ok(200));
    assert!(!only.is_alive(&graph));
}

#[test]
fn dead_percentage_stays_in_range_without_repeats() {
    let mut graph = Things::<u32, u32>::new();
    let a = graph.new_thing(1);
    let b = graph.new_thing(2);
    graph.new_undirected_connection([a, b], 3);
    assert_eq!(graph.dead_percentage(), Ok(0));
    graph.kill_things(|graph, thing| thing.eq_data(graph, &1));
    assert_eq!(graph.dead_percentage(), Ok(66));
    graph.kill_things(|graph, thing| thing.eq_data(graph, &2));
    assert_eq!(graph.dead_amount(), 3);
    assert_eq!(graph.dead_percentage(), Ok(100));
}

#[test]
fn clean_twice_is_clean_once() {
    let mut graph = Things::<&str, &str>::new();
    let a = graph.new_thing("a");
    let b = graph.new_thing("b");
    let c = graph.new_thing("c");
    graph.new_directed_connection(a, "ab", b);
    graph.new_directed_connection(b, "bc", c);
    graph.new_undirected_connection([a, c], "ac");
    graph.kill_things(|graph, thing| thing.eq_data(graph, &"b"));

    graph.clean();
    let things_once = names(&graph);
    let connections_once = labels(&graph);
    let a_once = local_labels(&graph, &a);
    let c_once = local_labels(&graph, &c);
    assert_eq!(graph.dead_percentage(), Ok(0));

    graph.clean();
    assert_eq!(names(&graph), things_once);
    assert_eq!(labels(&graph), connections_once);
    assert_eq!(local_labels(&graph, &a), a_once);
    assert_eq!(local_labels(&graph, &c), c_once);
    assert_eq!(graph.dead_percentage(), Ok(0));

    assert_eq!(things_once, vec!["a", "c"]);
    assert_eq!(connections_once, vec!["ac"]);
    assert_eq!(a_once, vec!["ac"]);
    assert_eq!(c_once, vec!["ac"]);
}

#[test]
fn clean_of_everything_leaves_an_empty_graph() {
    let mut graph = Things::<u32, u32>::new();
    let a = graph.new_thing(1);
    graph.new_directed_connection(a, 2, a);
    graph.kill_things(|_, _| true);
    graph.clean();
    assert_eq!(graph.thing_count(), 0);
    assert_eq!(graph.connection_count(), 0);
    assert_eq!(graph.dead_percentage(), Err(()));
    // The handle still names the thing, which keeps its payload and its list.
    assert_eq!(a.access(&graph, |data| *data), 1);
    assert!(!a.is_alive(&graph));
    assert_eq!(a.do_for_all_connections(&graph, |_| Do::Take(())).len(), 2);
}

#[test]
fn kill_connections_spares_the_things() {
    let mut graph = Things::<&str, &str>::new();
    let a = graph.new_thing("a");
    let b = graph.new_thing("b");
    let keep = graph.new_directed_connection(a, "keep", b);
    let drop = graph.new_directed_connection(a, "drop", b);

    graph.kill_connections(|graph, connection| connection.eq_data(graph, &"drop"));

    assert!(a.is_alive(&graph));
    assert!(b.is_alive(&graph));
    assert!(keep.is_alive(&graph));
    assert!(!drop.is_alive(&graph));
    assert_eq!(graph.dead_amount(), 1);

    graph.clean();
    assert_eq!(labels(&graph), vec!["keep"]);
    assert_eq!(local_labels(&graph, &a), vec!["keep"]);
    assert_eq!(local_labels(&graph, &b), vec!["keep"]);
    assert_eq!(names(&graph), vec!["a", "b"]);
}

#[test]
fn a_connection_killed_before_its_end_is_counted_once_by_the_cascade() {
    let mut graph = Things::<&str, &str>::new();
    let a = graph.new_thing("a");
    let b = graph.new_thing("b");
    graph.new_directed_connection(a, "ab", b);
    graph.kill_connections(|_, _| true);
    assert_eq!(graph.dead_amount(), 1);
    // The cascade finds the connection dead and counts only the thing.
    graph.kill_things(|graph, thing| thing.eq_data(graph, &"a"));
    assert_eq!(graph.dead_amount(), 2);
}

#[test]
fn a_connection_between_two_killed_things_is_counted_once() {
    let mut graph = Things::<&str, &str>::new();
    let a = graph.new_thing("a");
    let b = graph.new_thing("b");
    graph.new_directed_connection(a, "ab", b);
    graph.kill_things(|_, _| true);
    assert_eq!(graph.dead_amount(), 3);
}

#[test]
fn a_loop_is_on_the_list_twice_and_counted_once() {
    let mut graph = Things::<&str, &str>::new();
    let a = graph.new_thing("a");
    let around = graph.new_directed_connection(a, "around", a);
    assert_eq!(local_labels(&graph, &a), vec!["around", "around"]);
    graph.kill_things(|_, _| true);
    assert_eq!(graph.dead_amount(), 2);
    assert!(!around.is_alive(&graph));
}

#[test]
fn the_kill_predicate_sees_the_graph_as_it_was() {
    let mut graph = Things::<&str, &str>::new();
    let a = graph.new_thing("a");
    let b = graph.new_thing("b");
    let ab = graph.new_directed_connection(a, "ab", b);
    // Pick the things that have a live connection: both, though killing the
    // first kills the connection of the second.
    graph.kill_things(|graph, thing| {
        thing
            .do_for_a_connection(graph, |connection| {
                if connection.is_alive(graph) {
                    Do::Take(())
                } else {
                    Do::Nothing
                }
            })
            .is_some()
    });
    assert!(!a.is_alive(&graph));
    assert!(!b.is_alive(&graph));
    assert!(!ab.is_alive(&graph));
    assert_eq!(graph.dead_amount(), 3);
}

#[test]
fn dead_items_stay_visible_until_clean() {
    let mut graph = Things::<&str, &str>::new();
    let a = graph.new_thing("a");
    let b = graph.new_thing("b");
    graph.new_directed_connection(a, "ab", b);
    graph.kill_things(|graph, thing| thing.eq_data(graph, &"a"));
    assert_eq!(names(&graph), vec!["a", "b"]);
    assert_eq!(labels(&graph), vec!["ab"]);
    assert_eq!(local_labels(&graph, &a), vec!["ab"]);
    assert_eq!(local_labels(&graph, &b), vec!["ab"]);
    let live: Vec<&str> = graph.do_for_all_things(|thing| {
        if thing.is_alive(&graph) {
            Do::Take(thing.access(&graph, |data| *data))
        } else {
            Do::Nothing
        }
    });
    assert_eq!(live, vec!["b"]);
}

#[test]
fn first_match_stops_at_the_first_take() {
    let mut graph = Things::<u32, u32>::new();
    let a = graph.new_thing(1);
    let b = graph.new_thing(2);
    let c = graph.new_thing(3);
    graph.new_directed_connection(a, 10, b);
    graph.new_directed_connection(a, 20, c);
    graph.new_directed_connection(a, 30, c);

    let seen = std::cell::Cell::new(0);
    let found = graph.do_for_a_thing(|thing| {
        seen.set(seen.get() + 1);
        thing.access(&graph, |data| if *data >= 2 { Do::Take(*data) } else { Do::Nothing })
    });
    assert_eq!(found, Some(2));
    assert_eq!(seen.get(), 2);

    let found = graph.do_for_a_connection(|connection| {
        connection.access(&graph, |data| if *data > 10 { Do::Take(*data) } else { Do::Nothing })
    });
    assert_eq!(found, Some(20));

    let found = a.do_for_a_connection(&graph, |connection| {
        connection.access(&graph, |data| if *data > 20 { Do::Take(*data) } else { Do::Nothing })
    });
    assert_eq!(found, Some(30));

    let none = graph.do_for_a_thing(|_| Do::<u32>::Nothing);
    assert_eq!(none, None);
    let none = b.do_for_a_connection(&graph, |connection| {
        connection.access(&graph, |data| if *data > 20 { Do::Take(*data) } else { Do::Nothing })
    });
    assert_eq!(none, None);
}

#[test]
fn all_matches_come_in_order() {
    let mut graph = Things::<u32, u32>::new();
    let a = graph.new_thing(5);
    let b = graph.new_thing(6);
    let c = graph.new_thing(7);
    graph.new_directed_connection(a, 1, b);
    graph.new_directed_connection(c, 2, a);
    graph.new_directed_connection(b, 3, c);
    let odd = graph.do_for_all_things(|thing| {
        thing.access(&graph, |data| if *data % 2 == 1 { Do::Take(*data * 2) } else { Do::Nothing })
    });
    assert_eq!(odd, vec![10, 14]);
    let all = graph.do_for_all_connections(|c| Do::Take(c.access(&graph, |data| *data)));
    assert_eq!(all, vec![1, 2, 3]);
    let of_a = a.do_for_all_connections(&graph, |c| Do::Take(c.access(&graph, |data| *data)));
    assert_eq!(of_a, vec![1, 2]);
}

#[test]
fn scans_over_plain_lists() {
    let items = vec![3, 8, 5, 10];
    let even = |item: &i32| if *item % 2 == 0 { Do::Take(*item + 1) } else { Do::Nothing };
    assert_eq!(scan_first(&items, even), Some(9));
    assert_eq!(scan_all(&items, even), vec![9, 11]);
    assert_eq!(scan_first(&Vec::<i32>::new(), even), None);
    assert_eq!(scan_all(&vec![1, 3], even), Vec::<i32>::new());
    let limit = 6;
    assert_eq!(
        judge_all(&limit, &items, |limit: &i32, item: &i32| item > limit),
        vec![false, true, false, true]
    );
}

#[test]
fn directions_are_relative_to_the_thing() {
    let mut graph = Things::<&str, &str>::new();
    let apples = graph.new_thing("Apples");
    let oranges = graph.new_thing("Oranges");
    let pears = graph.new_thing("Pears");
    let comparison = graph.new_directed_connection(apples, "compare_to", oranges);
    let pair = graph.new_undirected_connection([apples, oranges], "pair");

    assert_eq!(comparison.get_direction_relative_to(&graph, &apples), Ok(Direction::AwayFrom));
    assert_eq!(comparison.get_direction_relative_to(&graph, &oranges), Ok(Direction::Towards));
    assert_eq!(comparison.get_direction_relative_to(&graph, &pears), Err(()));
    assert_eq!(pair.get_direction_relative_to(&graph, &apples), Err(()));

    assert!(comparison.points_away_from(&graph, &apples));
    assert!(!comparison.points_away_from(&graph, &oranges));
    assert!(comparison.points_towards(&graph, &oranges));
    assert!(!comparison.points_towards(&graph, &apples));
    assert!(!comparison.points_towards(&graph, &pears));
    assert!(!pair.points_away_from(&graph, &apples));
    assert!(!pair.points_towards(&graph, &oranges));
}

#[test]
fn a_loop_points_away_from_its_thing() {
    let mut graph = Things::<&str, &str>::new();
    let a = graph.new_thing("a");
    let around = graph.new_directed_connection(a, "around", a);
    assert_eq!(around.get_direction_relative_to(&graph, &a), Ok(Direction::AwayFrom));
    assert!(around.get_other_thing(&graph, &a).unwrap().same_as(&a));
}

#[test]
fn the_other_end_of_a_connection() {
    let mut graph = Things::<&str, &str>::new();
    let a = graph.new_thing("a");
    let b = graph.new_thing("b");
    let c = graph.new_thing("c");
    let directed = graph.new_directed_connection(a, "ab", b);
    let undirected = graph.new_undirected_connection([a, b], "a-b");
    for connection in [directed, undirected] {
        assert!(connection.get_other_thing(&graph, &a).unwrap().same_as(&b));
        assert!(connection.get_other_thing(&graph, &b).unwrap().same_as(&a));
        assert!(connection.get_other_thing(&graph, &c).is_err());
        assert!(connection.contains(&graph, &a));
        assert!(connection.contains(&graph, &b));
        assert!(!connection.contains(&graph, &c));
    }
}

#[test]
fn things_are_equal_by_payload() {
    let mut graph = Things::<&str, &str>::new();
    let a = graph.new_thing("twin");
    let b = graph.new_thing("twin");
    let c = graph.new_thing("other");
    assert!(a.eq(&graph, &b));
    assert!(!a.same_as(&b));
    assert!(a.same_as(&a.clone()));
    assert!(!a.eq(&graph, &c));
    assert!(a.eq_data(&graph, &"twin"));
    assert!(!a.eq_data(&graph, &"other"));

    // A connection of one twin counts the other as its end.
    let ac = graph.new_directed_connection(a, "ac", c);
    assert!(ac.contains(&graph, &b));
    assert_eq!(ac.get_direction_relative_to(&graph, &b), Ok(Direction::AwayFrom));
    assert!(ac.get_other_thing(&graph, &b).unwrap().same_as(&c));
}

#[test]
fn connections_are_equal_by_payload() {
    let mut graph = Things::<&str, &str>::new();
    let a = graph.new_thing("a");
    let b = graph.new_thing("b");
    let c = graph.new_thing("c");
    let ab = graph.new_directed_connection(a, "likes", b);
    let bc = graph.new_directed_connection(b, "likes", c);
    let ca = graph.new_directed_connection(c, "knows", a);
    assert!(ab.eq(&graph, &bc));
    assert!(!ab.same_as(&bc));
    assert!(!ab.eq(&graph, &ca));
    assert!(ab.eq_data(&graph, &"likes"));
    assert!(!ab.eq_data(&graph, &"knows"));

    assert!(a.is_connected_through(&graph, &ab));
    assert!(a.is_connected_through(&graph, &ca));
    // `bc` is not on the list of `a`, but a connection equal to it is.
    assert!(a.is_connected_through(&graph, &bc));
    assert!(!b.is_connected_through(&graph, &ca));
}

#[test]
fn access_mut_changes_only_the_payload() {
    let mut graph = Things::<String, u32>::new();
    let a = graph.new_thing("Alice".to_string());
    let b = graph.new_thing("Bob".to_string());
    let ab = graph.new_directed_connection(a, 1, b);

    let old = a.access_mut(&mut graph, |name| std::mem::replace(name, "Carol".to_string()));
    assert_eq!(old, "Alice");
    assert_eq!(a.access(&graph, |name| name.clone()), "Carol");
    assert_eq!(b.access(&graph, |name| name.clone()), "Bob");
    assert!(a.is_alive(&graph));
    assert_eq!(a.do_for_all_connections(&graph, |_| Do::Take(())).len(), 1);

    let doubled = ab.access_mut(&mut graph, |weight| {
        *weight *= 2;
        *weight
    });
    assert_eq!(doubled, 2);
    assert_eq!(ab.access(&graph, |weight| *weight), 2);
    assert!(ab.is_alive(&graph));
    assert!(ab.get_directed_from(&graph).unwrap().same_as(&a));
    assert_eq!(graph.dead_amount(), 0);
}

#[test]
fn remove_connections_touches_one_list_only() {
    let mut graph = Things::<&str, &str>::new();
    let a = graph.new_thing("a");
    let b = graph.new_thing("b");
    let first = graph.new_directed_connection(a, "first", b);
    graph.new_directed_connection(a, "second", b);
    graph.new_directed_connection(b, "third", a);

    a.remove_connections(&mut graph, |graph, connection| {
        connection.access(graph, |data| *data != "second")
    });

    assert_eq!(local_labels(&graph, &a), vec!["second"]);
    assert_eq!(local_labels(&graph, &b), vec!["first", "second", "third"]);
    assert_eq!(labels(&graph), vec!["first", "second", "third"]);
    assert!(first.is_alive(&graph));
    assert_eq!(graph.dead_amount(), 0);

    // The cascade goes by the local list: what was removed from it is spared.
    graph.kill_things(|graph, thing| thing.eq_data(graph, &"a"));
    assert!(first.is_alive(&graph));
    assert_eq!(graph.dead_amount(), 2);
}

#[test]
fn things_and_connections_can_be_created_unregistered() {
    let mut graph = Things::<&str, &str>::new();
    let a = graph.new_thing("a");
    let loose = Thing::new(&mut graph, "loose");
    assert!(loose.is_alive(&graph));
    assert_eq!(loose.access(&graph, |data| *data), "loose");
    assert_eq!(names(&graph), vec!["a"]);

    let directed = Connection::new_directed(&mut graph, a, "dangling", loose);
    let undirected = Connection::new_undirected(&mut graph, [loose, a], "hanging");
    assert!(directed.is_directed(&graph));
    assert!(undirected.is_undirected(&graph));
    assert!(directed.is_alive(&graph));
    assert!(directed.get_directed_towards(&graph).unwrap().same_as(&loose));
    assert!(undirected.get_things(&graph)[0].same_as(&loose));
    assert_eq!(labels(&graph).len(), 0);
    assert_eq!(local_labels(&graph, &a).len(), 0);
    assert_eq!(local_labels(&graph, &loose).len(), 0);

    // What is on no registry is neither killed nor dropped with the rest.
    graph.kill_things(|_, _| true);
    graph.clean();
    assert!(loose.is_alive(&graph));
    assert!(directed.is_alive(&graph));
    assert_eq!(graph.thing_count(), 0);
}

#[test]
fn a_container_knows_its_handles() {
    let mut small = Things::<u32, u32>::new();
    let mut large = Things::<u32, u32>::new();
    let s = small.new_thing(0);
    large.new_thing(0);
    let l = large.new_thing(1);
    let ls = large.new_directed_connection(l, 5, l);
    assert!(small.holds_thing(&s));
    assert!(large.holds_thing(&l));
    assert!(!small.holds_thing(&l));
    assert!(large.holds_connection(&ls));
    assert!(!small.holds_connection(&ls));
}

#[test]
fn a_bare_thing_record() {
    let inner = ThingInner::<&str, &str>::new("payload");
    assert_eq!(*inner.get_data(), "payload");
    assert!(inner.is_alive());
}

#[test]
fn clean_keeps_the_order_of_what_is_alive() {
    let mut graph = Things::<u32, u32>::new();
    let mut things = Vec::new();
    for i in 0..6 {
        things.push(graph.new_thing(i));
    }
    for i in 0..5 {
        graph.new_directed_connection(things[i], (i * 10) as u32, things[i + 1]);
    }
    graph.kill_things(|graph, thing| thing.access(graph, |data| *data == 1 || *data == 4));
    // Things 1 and 4 and the connections 0, 10, 30, 40.
    assert_eq!(graph.dead_amount(), 6);
    assert_eq!(graph.dead_percentage(), Ok(54));
    graph.clean();
    let left = graph.do_for_all_things(|t| Do::Take(t.access(&graph, |data| *data)));
    assert_eq!(left, vec![0, 2, 3, 5]);
    let left = graph.do_for_all_connections(|c| Do::Take(c.access(&graph, |data| *data)));
    assert_eq!(left, vec![20]);
    let of_two = things[2].do_for_all_connections(&graph, |c| Do::Take(c.access(&graph, |d| *d)));
    assert_eq!(of_two, vec![20]);
    let of_zero = things[0].do_for_all_connections(&graph, |c| Do::Take(c.access(&graph, |d| *d)));
    assert_eq!(of_zero.len(), 0);
    assert_eq!(graph.dead_percentage(), Ok(0));
}
