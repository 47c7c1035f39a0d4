//! The route graph as a sequence of city views, and what each operation on it does.
use crate::city::CityView;
use crate::direction::{Direction, opposite};
use vstd::prelude::*;

verus! {

/// Some city of `rs` is called `n`.
pub open spec fn live(rs: Seq<CityView>, n: Seq<char>) -> bool {
    exists|i: int| 0 <= i < rs.len() && (#[trigger] rs[i]).name == n
}

/// No two cities share a name.
pub open spec fn names_unique(rs: Seq<CityView>) -> bool {
    forall|i: int, j: int|
        0 <= i < rs.len() && 0 <= j < rs.len() && (#[trigger] rs[i]).name == (#[trigger] rs[j]).name
            ==> i == j
}

/// Every road leads to a city of the graph.
pub open spec fn closed(rs: Seq<CityView>) -> bool {
    forall|i: int, d: Direction|
        0 <= i < rs.len() && (#[trigger] rs[i].route(d)) is Some ==> live(rs, rs[i].route(d)->0)
}

/// Every road has its way back: a road from `a` in direction `d` to `b`
/// comes with a road from `b` in the opposite direction to `a`.
pub open spec fn symmetric(rs: Seq<CityView>) -> bool {
    forall|i: int, j: int, d: Direction|
        0 <= i < rs.len() && 0 <= j < rs.len() && (#[trigger] rs[i].route(d)) == Some(
            (#[trigger] rs[j]).name,
        ) ==> rs[j].route(opposite(d)) == Some(rs[i].name)
}

pub open spec fn registry_wf(rs: Seq<CityView>) -> bool {
    &&& names_unique(rs)
    &&& closed(rs)
    &&& symmetric(rs)
}

/// The graph with a city called `n` in it: unchanged if there is one,
/// else with a new city without roads at the end.
pub open spec fn with_city(rs: Seq<CityView>, n: Seq<char>) -> Seq<CityView> {
    if live(rs, n) {
        rs
    } else {
        rs.push(CityView::empty(n))
    }
}

/// A road from `x` in direction `d` would replace one to another city.
pub open spec fn blocked(rs: Seq<CityView>, x: Seq<char>, d: Direction, y: Seq<char>) -> bool {
    exists|i: int|
        0 <= i < rs.len() && (#[trigger] rs[i]).name == x && rs[i].route(d) is Some && rs[i].route(d)
            != Some(y)
}

/// Linking `x` to `y` in direction `d` fails: either end already has a road
/// in that slot to a third city.
pub open spec fn link_conflict(rs: Seq<CityView>, x: Seq<char>, d: Direction, y: Seq<char>) -> bool {
    blocked(rs, x, d, y) || blocked(rs, y, opposite(d), x)
}

/// One city after the two-way road between `x` (direction `d`) and `y` is laid.
pub open spec fn linked_city(c: CityView, x: Seq<char>, d: Direction, y: Seq<char>) -> CityView {
    let c1 = if c.name == x {
        c.with_route(d, Some(y))
    } else {
        c
    };
    if c1.name == y {
        c1.with_route(opposite(d), Some(x))
    } else {
        c1
    }
}

/// The graph after the two-way road is laid (with `y` added if new).
/// Only meaningful where `x` is a city and no conflict stands.
pub open spec fn linked(rs: Seq<CityView>, x: Seq<char>, d: Direction, y: Seq<char>) -> Seq<CityView> {
    let r1 = with_city(rs, y);
    Seq::new(r1.len(), |i: int| linked_city(r1[i], x, d, y))
}

/// The graph without the city `n` and without any road that led to it.
pub open spec fn destroyed(rs: Seq<CityView>, n: Seq<char>) -> Seq<CityView>
    decreases rs.len(),
{
    if rs.len() == 0 {
        rs
    } else {
        let rest = destroyed(rs.drop_last(), n);
        if rs.last().name == n {
            rest
        } else {
            rest.push(rs.last().pruned(n))
        }
    }
}

/// What is in `destroyed(rs, n)`: each other city, pruned, in the same order.
pub proof fn lemma_destroyed_members(rs: Seq<CityView>, n: Seq<char>)
    ensures
        forall|k: int|
            0 <= k < destroyed(rs, n).len() ==> exists|i: int|
                0 <= i < rs.len() && rs[i].name != n && #[trigger] destroyed(rs, n)[k] == rs[i].pruned(n),
        forall|i: int|
            0 <= i < rs.len() && rs[i].name != n ==> exists|k: int|
                0 <= k < destroyed(rs, n).len() && #[trigger] destroyed(rs, n)[k] == (#[trigger] rs[i]).pruned(n),
        destroyed(rs, n).len() <= rs.len(),
    decreases rs.len(),
{
    if rs.len() > 0 {
        let rest = rs.drop_last();
        lemma_destroyed_members(rest, n);
        let out = destroyed(rs, n);
        assert forall|k: int| 0 <= k < out.len() implies exists|i: int|
            0 <= i < rs.len() && rs[i].name != n && #[trigger] out[k] == rs[i].pruned(n) by {
            if k < destroyed(rest, n).len() {
                let i = choose|i: int|
                    0 <= i < rest.len() && rest[i].name != n && #[trigger] destroyed(rest, n)[k]
                        == rest[i].pruned(n);
                assert(rs[i] == rest[i]);
            } else {
                assert(out[k] == rs[rs.len() - 1].pruned(n));
            }
        }
        assert forall|i: int| 0 <= i < rs.len() && rs[i].name != n implies exists|k: int|
            0 <= k < out.len() && #[trigger] out[k] == (#[trigger] rs[i]).pruned(n) by {
            if i < rest.len() {
                assert(rest[i] == rs[i]);
                let k = choose|k: int|
                    0 <= k < destroyed(rest, n).len() && #[trigger] destroyed(rest, n)[k] == (
                    #[trigger] rest[i]).pruned(n);
                assert(out[k] == destroyed(rest, n)[k]);
            } else {
                assert(out[out.len() - 1] == rs[i].pruned(n));
            }
        }
    }
}

/// Destroying `n` leaves no city called `n` and no road leading to it; every
/// other city stays.
pub proof fn lemma_destroy_removes(rs: Seq<CityView>, n: Seq<char>)
    ensures
        !live(destroyed(rs, n), n),
        forall|m: Seq<char>| m != n ==> (live(destroyed(rs, n), m) <==> live(rs, m)),
        forall|k: int, d: Direction|
            0 <= k < destroyed(rs, n).len() ==> #[trigger] destroyed(rs, n)[k].route(d) != Some(n),
{
    lemma_destroyed_members(rs, n);
    let out = destroyed(rs, n);
    assert forall|k: int, d: Direction| 0 <= k < out.len() implies #[trigger] out[k].route(d) != Some(n) by {
        let i = choose|i: int| 0 <= i < rs.len() && rs[i].name != n && #[trigger] out[k] == rs[i].pruned(n);
        match d {
            Direction::North => {},
            Direction::South => {},
            Direction::East => {},
            Direction::West => {},
        }
    }
    assert forall|m: Seq<char>| m != n implies (live(out, m) <==> live(rs, m)) by {
        if live(out, m) {
            let k = choose|k: int| 0 <= k < out.len() && (#[trigger] out[k]).name == m;
            let i = choose|i: int| 0 <= i < rs.len() && rs[i].name != n && #[trigger] out[k] == rs[i].pruned(n);
            assert(rs[i].name == m);
        }
        if live(rs, m) {
            let i = choose|i: int| 0 <= i < rs.len() && (#[trigger] rs[i]).name == m;
            let k = choose|k: int| 0 <= k < out.len() && #[trigger] out[k] == (#[trigger] rs[i]).pruned(n);
            assert(out[k].name == m);
        }
    }
    if live(out, n) {
        let k = choose|k: int| 0 <= k < out.len() && (#[trigger] out[k]).name == n;
        let i = choose|i: int| 0 <= i < rs.len() && rs[i].name != n && #[trigger] out[k] == rs[i].pruned(n);
    }
}

/// Destroying a city keeps names unique.
proof fn lemma_destroyed_unique(rs: Seq<CityView>, n: Seq<char>)
    requires
        names_unique(rs),
    ensures
        names_unique(destroyed(rs, n)),
    decreases rs.len(),
{
    if rs.len() > 0 {
        let rest = rs.drop_last();
        assert(names_unique(rest)) by {
            assert forall|i: int, j: int|
                0 <= i < rest.len() && 0 <= j < rest.len() && (#[trigger] rest[i]).name == (#[trigger] rest[j]).name
                implies i == j by {
                assert(rest[i] == rs[i] && rest[j] == rs[j]);
            }
        }
        lemma_destroyed_unique(rest, n);
        lemma_destroyed_members(rest, n);
        let sub = destroyed(rest, n);
        if rs.last().name != n {
            let out = destroyed(rs, n);
            assert forall|i: int, j: int|
                0 <= i < out.len() && 0 <= j < out.len() && (#[trigger] out[i]).name == (#[trigger] out[j]).name
                implies i == j by {
                if i < sub.len() && j == sub.len() {
                    let a = choose|a: int| 0 <= a < rest.len() && rest[a].name != n && #[trigger] sub[i] == rest[a].pruned(n);
                    assert(rs[a] == rest[a]);
                    assert(rs[a].name == rs[rs.len() - 1].name);
                }
                if j < sub.len() && i == sub.len() {
                    let a = choose|a: int| 0 <= a < rest.len() && rest[a].name != n && #[trigger] sub[j] == rest[a].pruned(n);
                    assert(rs[a] == rest[a]);
                    assert(rs[a].name == rs[rs.len() - 1].name);
                }
                if i < sub.len() && j < sub.len() {
                    assert(sub[i] == out[i] && sub[j] == out[j]);
                }
            }
        }
    }
}

/// Destroying a city keeps the graph well formed.
pub proof fn lemma_destroyed_wf(rs: Seq<CityView>, n: Seq<char>)
    requires
        registry_wf(rs),
    ensures
        registry_wf(destroyed(rs, n)),
{
    lemma_destroyed_unique(rs, n);
    lemma_destroyed_members(rs, n);
    lemma_destroy_removes(rs, n);
    let out = destroyed(rs, n);
    assert forall|k: int, d: Direction| 0 <= k < out.len() && (#[trigger] out[k].route(d)) is Some implies live(
        out,
        out[k].route(d)->0,
    ) by {
        let i = choose|i: int| 0 <= i < rs.len() && rs[i].name != n && #[trigger] out[k] == rs[i].pruned(n);
        assert(rs[i].route(d) == out[k].route(d)) by {
            match d {
                Direction::North => {},
                Direction::South => {},
                Direction::East => {},
                Direction::West => {},
            }
        }
        assert(live(rs, rs[i].route(d)->0));
    }
    assert forall|k: int, l: int, d: Direction|
        0 <= k < out.len() && 0 <= l < out.len() && (#[trigger] out[k].route(d)) == Some((#[trigger] out[l]).name)
        implies out[l].route(opposite(d)) == Some(out[k].name) by {
        let i = choose|i: int| 0 <= i < rs.len() && rs[i].name != n && #[trigger] out[k] == rs[i].pruned(n);
        let j = choose|j: int| 0 <= j < rs.len() && rs[j].name != n && #[trigger] out[l] == rs[j].pruned(n);
        assert(rs[i].route(d) == out[k].route(d)) by {
            match d {
                Direction::North => {},
                Direction::South => {},
                Direction::East => {},
                Direction::West => {},
            }
        }
        assert(rs[j].route(opposite(d)) == Some(rs[i].name));
        assert(out[l].route(opposite(d)) == rs[j].route(opposite(d))) by {
            match d {
                Direction::North => {},
                Direction::South => {},
                Direction::East => {},
                Direction::West => {},
            }
        }
    }
}

/// Adding a city keeps the graph well formed.
pub proof fn lemma_with_city_wf(rs: Seq<CityView>, n: Seq<char>)
    requires
        registry_wf(rs),
    ensures
        registry_wf(with_city(rs, n)),
        live(with_city(rs, n), n),
        forall|m: Seq<char>| live(rs, m) ==> live(with_city(rs, n), m),
        forall|i: int| 0 <= i < rs.len() ==> with_city(rs, n)[i] == rs[i],
{
    let r1 = with_city(rs, n);
    if !live(rs, n) {
        assert(r1[rs.len() as int].name == n);
        assert forall|m: Seq<char>| live(rs, m) implies live(r1, m) by {
            let i = choose|i: int| 0 <= i < rs.len() && (#[trigger] rs[i]).name == m;
            assert(r1[i] == rs[i]);
        }
        assert forall|i: int, d: Direction| 0 <= i < r1.len() && (#[trigger] r1[i].route(d)) is Some implies live(
            r1,
            r1[i].route(d)->0,
        ) by {
            assert(i < rs.len());
            assert(r1[i] == rs[i]);
            assert(live(rs, rs[i].route(d)->0));
        }
        assert forall|i: int, j: int, d: Direction|
            0 <= i < r1.len() && 0 <= j < r1.len() && (#[trigger] r1[i].route(d)) == Some((#[trigger] r1[j]).name)
            implies r1[j].route(opposite(d)) == Some(r1[i].name) by {
            assert(i < rs.len());
            let m = r1[i].route(d)->0;
            assert(live(rs, m));
            let k = choose|k: int| 0 <= k < rs.len() && (#[trigger] rs[k]).name == m;
            if j == rs.len() {
                assert(r1[k] == rs[k]);
            }
        }
    }
}

/// Laying a two-way road where no conflict stands keeps the graph well formed.
pub proof fn lemma_linked_wf(rs: Seq<CityView>, x: Seq<char>, d: Direction, y: Seq<char>)
    requires
        registry_wf(rs),
        live(rs, x),
        !link_conflict(rs, x, d, y),
    ensures
        registry_wf(linked(rs, x, d, y)),
        forall|m: Seq<char>| live(linked(rs, x, d, y), m) <==> live(with_city(rs, y), m),
{
    lemma_with_city_wf(rs, y);
    let r1 = with_city(rs, y);
    let r2 = linked(rs, x, d, y);
    assert(!blocked(r1, x, d, y)) by {
        if blocked(r1, x, d, y) {
            let i = choose|i: int| 0 <= i < r1.len() && (#[trigger] r1[i]).name == x && r1[i].route(d) is Some && r1[i].route(d) != Some(y);
            if i < rs.len() {
                assert(r1[i] == rs[i]);
            }
        }
    }
    assert(!blocked(r1, y, opposite(d), x)) by {
        if blocked(r1, y, opposite(d), x) {
            let i = choose|i: int| 0 <= i < r1.len() && (#[trigger] r1[i]).name == y && r1[i].route(opposite(d)) is Some && r1[i].route(opposite(d)) != Some(x);
            if i < rs.len() {
                assert(r1[i] == rs[i]);
            }
        }
    }
    assert forall|i: int| 0 <= i < r2.len() implies (#[trigger] r2[i]).name == r1[i].name by {
        match d {
            Direction::North => {},
            Direction::South => {},
            Direction::East => {},
            Direction::West => {},
        }
    }
    assert forall|m: Seq<char>| live(r2, m) <==> live(r1, m) by {
        if live(r2, m) {
            let i = choose|i: int| 0 <= i < r2.len() && (#[trigger] r2[i]).name == m;
            assert(r1[i].name == m);
        }
        if live(r1, m) {
            let i = choose|i: int| 0 <= i < r1.len() && (#[trigger] r1[i]).name == m;
            assert(r2[i].name == m);
        }
    }
    assert(live(r1, x));
    assert forall|i: int, j: int|
        0 <= i < r2.len() && 0 <= j < r2.len() && (#[trigger] r2[i]).name == (#[trigger] r2[j]).name implies i == j by {
        assert(r1[i].name == r1[j].name);
    }
    assert forall|i: int, e: Direction| 0 <= i < r2.len() && (#[trigger] r2[i].route(e)) is Some implies live(
        r2,
        r2[i].route(e)->0,
    ) by {
        assert(r2[i].name == r1[i].name);
        if r2[i].route(e) != r1[i].route(e) {
            match d {
                Direction::North => {},
                Direction::South => {},
                Direction::East => {},
                Direction::West => {},
            }
            assert(r2[i].route(e) == Some(y) || r2[i].route(e) == Some(x)) by {
                match e {
                    Direction::North => {},
                    Direction::South => {},
                    Direction::East => {},
                    Direction::West => {},
                }
            }
        } else {
            assert(live(r1, r1[i].route(e)->0));
        }
    }
    assert forall|i: int, j: int, e: Direction|
        0 <= i < r2.len() && 0 <= j < r2.len() && (#[trigger] r2[i].route(e)) == Some((#[trigger] r2[j]).name)
        implies r2[j].route(opposite(e)) == Some(r2[i].name) by {
        assert(r2[i].name == r1[i].name);
        assert(r2[j].name == r1[j].name);
        match d {
            Direction::North => {},
            Direction::South => {},
            Direction::East => {},
            Direction::West => {},
        }
        match e {
            Direction::North => {},
            Direction::South => {},
            Direction::East => {},
            Direction::West => {},
        }
        if r1[i].route(e) == r2[i].route(e) && !(r1[i].name == x && e == d) && !(r1[i].name == y && e == opposite(d)) {
            assert(r1[j].route(opposite(e)) == Some(r1[i].name));
        }
    }
}

} // verus!
