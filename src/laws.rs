//! Facts about the simulation that span several operations.
use crate::alien::Alien;
use crate::error::AppError;
use crate::city::CityView;
use crate::direction::{opposite, Direction};
use crate::registry::{lemma_destroy_removes, lemma_linked_wf, lemma_with_city_wf, link_conflict, linked, live, registry_wf, destroyed, with_city};
use crate::text::{
    direction_named, free_of, is_sep, lemma_split_pair, lemma_split_plain, non_empty, split_by, words, BLANKS, EQUALS, LINES,
};
use crate::world::{
    after_collision, city_named, crowded_names, destroyed_all, exits, lemma_crowded_names, lemma_destroyed_all,
    lemma_exit_is_route, load_line, load_lines, load_text, load_token, load_tokens, moves_to, occupants, same_but_death,
};
use vstd::prelude::*;

verus! {

/// An alien that still moves, in a city without roads, becomes trapped
/// where it stands in the movement phase.
pub proof fn lemma_isolated_traps(a: Alien, b: Alien, g: Seq<CityView>, pick: int)
    requires
        a.active(),
        city_named(g, a.current_city@).is_isolated(),
        moves_to(a, b, g, pick),
    ensures
        b.is_trapped,
        !b.active(),
        b.current_city == a.current_city,
{
    assert(exits(city_named(g, a.current_city@)).len() == 0);
}

/// An alien that no longer moves stays where it is through any later
/// movement phase and any later collision phase.
pub proof fn lemma_stopped_stays(a: Alien, b: Alien, c: Alien, g: Seq<CityView>, pick: int, h: Seq<CityView>, aliens: Seq<Alien>)
    requires
        !a.active(),
        moves_to(a, b, g, pick),
        same_but_death(c, b),
        c.is_dead == after_collision(b, h, aliens),
    ensures
        b == a,
        c.current_city == a.current_city,
        !c.active(),
{
}

/// Where two or more moving aliens meet in a live city at the start of a
/// collision phase, that city is destroyed and every alien standing there
/// dies.
pub proof fn lemma_crowded_city_falls(g: Seq<CityView>, aliens: Seq<Alien>, n: Seq<char>)
    requires
        registry_wf(g),
        live(g, n),
        occupants(aliens, n) >= 2,
    ensures
        !live(destroyed_all(g, crowded_names(g, aliens)), n),
        forall|j: int| 0 <= j < aliens.len() && (#[trigger] aliens[j]).current_city@ == n ==> after_collision(aliens[j], g, aliens),
{
    lemma_crowded_names(g, aliens, n);
    lemma_destroyed_all(g, crowded_names(g, aliens));
}

/// No road leads into a city without roads: in a well-formed graph every
/// road has its way back.
pub proof fn lemma_isolated_unreachable(g: Seq<CityView>, n: Seq<char>)
    requires
        registry_wf(g),
        live(g, n),
        city_named(g, n).is_isolated(),
    ensures
        forall|i: int, d: Direction| 0 <= i < g.len() ==> #[trigger] g[i].route(d) != Some(n),
{
    let k = choose|k: int| 0 <= k < g.len() && (#[trigger] g[k]).name == n;
    assert forall|i: int, d: Direction| 0 <= i < g.len() implies #[trigger] g[i].route(d) != Some(n) by {
        if g[i].route(d) == Some(n) {
            assert(g[i].route(d) == Some(g[k].name));
            assert(g[k].route(opposite(d)) == Some(g[i].name));
            match opposite(d) {
                Direction::North => {},
                Direction::South => {},
                Direction::East => {},
                Direction::West => {},
            }
        }
    }
}

/// A city without roads never receives a moving alien from elsewhere.
pub proof fn lemma_isolated_never_entered(g: Seq<CityView>, n: Seq<char>, a: Alien, b: Alien, pick: int)
    requires
        registry_wf(g),
        live(g, n),
        city_named(g, n).is_isolated(),
        a.active(),
        live(g, a.current_city@),
        a.current_city@ != n,
        moves_to(a, b, g, pick),
    ensures
        b.current_city@ != n,
{
    lemma_isolated_unreachable(g, n);
    let c = city_named(g, a.current_city@);
    let ways = exits(c);
    if ways.len() > 0 {
        let k = pick % (ways.len() as int);
        lemma_exit_is_route(c, k);
        let d = choose|d: Direction| #[trigger] c.route(d) == Some(exits(c)[k]);
        let i = choose|i: int| 0 <= i < g.len() && (#[trigger] g[i]).name == a.current_city@;
        assert(g[i].route(d) == c.route(d));
    }
}

/// Destroying a city never gives another city a road: a city without
/// roads stays without roads.
pub proof fn lemma_isolated_stays_isolated(g: Seq<CityView>, n: Seq<char>, gone: Seq<char>)
    requires
        registry_wf(g),
        live(g, n),
        city_named(g, n).is_isolated(),
        n != gone,
    ensures
        live(destroyed(g, gone), n),
        city_named(destroyed(g, gone), n).is_isolated(),
{
    crate::registry::lemma_destroyed_members(g, gone);
    lemma_destroy_removes(g, gone);
    let out = destroyed(g, gone);
    let k = choose|k: int| 0 <= k < out.len() && (#[trigger] out[k]).name == n;
    let i = choose|i: int| 0 <= i < g.len() && g[i].name != gone && #[trigger] out[k] == g[i].pruned(gone);
    let j = choose|j: int| 0 <= j < g.len() && (#[trigger] g[j]).name == n;
    assert(i == j);
}

/// After a route token `d=y` of city `x` loads, the road from `x` in
/// direction `d` leads to `y`, the road from `y` in the opposite direction
/// leads back to `x`, and both cities are live.
pub proof fn lemma_route_token_links(rs: Seq<CityView>, x: Seq<char>, w: Seq<char>)
    requires
        registry_wf(rs),
        live(rs, x),
        split_by(w, EQUALS).len() == 2,
        load_token(rs, x, w) is Ok,
    ensures
        ({
            let y = split_by(w, EQUALS)[1];
            let d = direction_named(split_by(w, EQUALS)[0])->0;
            let g = load_token(rs, x, w)->Ok_0;
            &&& live(g, x)
            &&& live(g, y)
            &&& city_named(g, x).route(d) == Some(y)
            &&& city_named(g, y).route(opposite(d)) == Some(x)
        }),
{
    let y = split_by(w, EQUALS)[1];
    let d = direction_named(split_by(w, EQUALS)[0])->0;
    lemma_with_city_wf(rs, y);
    lemma_linked_wf(rs, x, d, y);
    let r1 = with_city(rs, y);
    let g = linked(rs, x, d, y);
    assert(live(g, x) && live(g, y));
    let ix = choose|i: int| 0 <= i < g.len() && (#[trigger] g[i]).name == x;
    let iy = choose|i: int| 0 <= i < g.len() && (#[trigger] g[i]).name == y;
    assert(g[ix].route(d) == Some(y)) by {
        match d {
            Direction::North => {},
            Direction::South => {},
            Direction::East => {},
            Direction::West => {},
        }
    }
    assert(g[iy].route(opposite(d)) == Some(x)) by {
        match d {
            Direction::North => {},
            Direction::South => {},
            Direction::East => {},
            Direction::West => {},
        }
    }
}

/// Every city of `a` is in `b`, with every road it had.
pub open spec fn routes_kept(a: Seq<CityView>, b: Seq<CityView>) -> bool {
    &&& forall|m: Seq<char>| live(a, m) ==> live(b, m)
    &&& forall|i: int, j: int, d: Direction|
        #![trigger a[i].route(d), b[j]]
        0 <= i < a.len() && 0 <= j < b.len() && b[j].name == a[i].name && a[i].route(d) is Some
            ==> b[j].route(d) == a[i].route(d)
}

/// A route token of `x` holds in `g`: if `w` is `d=y`, the two-way road
/// between `x` and `y` is there and both cities are live.
pub open spec fn token_holds(g: Seq<CityView>, x: Seq<char>, w: Seq<char>) -> bool {
    let parts = split_by(w, EQUALS);
    parts.len() == 2 ==> {
        let d = direction_named(parts[0])->0;
        let y = parts[1];
        &&& live(g, x)
        &&& live(g, y)
        &&& city_named(g, x).route(d) == Some(y)
        &&& city_named(g, y).route(opposite(d)) == Some(x)
    }
}

proof fn lemma_kept_trans(a: Seq<CityView>, b: Seq<CityView>, c: Seq<CityView>)
    requires
        routes_kept(a, b),
        routes_kept(b, c),
    ensures
        routes_kept(a, c),
{
    assert forall|i: int, j: int, d: Direction|
        #![trigger a[i].route(d), c[j]]
        0 <= i < a.len() && 0 <= j < c.len() && c[j].name == a[i].name && a[i].route(d) is Some
        implies c[j].route(d) == a[i].route(d) by {
        assert(live(a, a[i].name));
        let k = choose|k: int| 0 <= k < b.len() && (#[trigger] b[k]).name == a[i].name;
        assert(b[k].route(d) == a[i].route(d));
        assert(c[j].route(d) == b[k].route(d));
    }
}

proof fn lemma_kept_token(a: Seq<CityView>, b: Seq<CityView>, x: Seq<char>, w: Seq<char>)
    requires
        routes_kept(a, b),
        token_holds(a, x, w),
    ensures
        token_holds(b, x, w),
{
    let parts = split_by(w, EQUALS);
    if parts.len() == 2 {
        let d = direction_named(parts[0])->0;
        let y = parts[1];
        let ix = choose|i: int| 0 <= i < a.len() && (#[trigger] a[i]).name == x;
        let iy = choose|i: int| 0 <= i < a.len() && (#[trigger] a[i]).name == y;
        let jx = choose|i: int| 0 <= i < b.len() && (#[trigger] b[i]).name == x;
        let jy = choose|i: int| 0 <= i < b.len() && (#[trigger] b[i]).name == y;
        assert(b[jx].route(d) == a[ix].route(d));
        assert(b[jy].route(opposite(d)) == a[iy].route(opposite(d)));
    }
}

proof fn lemma_with_city_kept(rs: Seq<CityView>, n: Seq<char>)
    requires
        registry_wf(rs),
    ensures
        routes_kept(rs, with_city(rs, n)),
{
    lemma_with_city_wf(rs, n);
    let r1 = with_city(rs, n);
    assert forall|i: int, j: int, d: Direction|
        #![trigger rs[i].route(d), r1[j]]
        0 <= i < rs.len() && 0 <= j < r1.len() && r1[j].name == rs[i].name && rs[i].route(d) is Some
        implies r1[j].route(d) == rs[i].route(d) by {
        if j < rs.len() {
            assert(r1[j] == rs[j]);
        } else {
            assert(live(rs, n));
        }
    }
}

/// Loading one word keeps every city and road, and keeps the graph well formed.
proof fn lemma_token_kept(rs: Seq<CityView>, x: Seq<char>, w: Seq<char>)
    requires
        registry_wf(rs),
        live(rs, x),
        load_token(rs, x, w) is Ok,
    ensures
        registry_wf(load_token(rs, x, w)->Ok_0),
        routes_kept(rs, load_token(rs, x, w)->Ok_0),
        token_holds(load_token(rs, x, w)->Ok_0, x, w),
{
    let parts = split_by(w, EQUALS);
    let g = load_token(rs, x, w)->Ok_0;
    if parts.len() != 2 {
        assert(g == rs);
    } else {
        let d = direction_named(parts[0])->0;
        let y = parts[1];
        lemma_route_token_links(rs, x, w);
        lemma_with_city_wf(rs, y);
        lemma_linked_wf(rs, x, d, y);
        let r1 = with_city(rs, y);
        assert forall|i: int, j: int, e: Direction|
            #![trigger rs[i].route(e), g[j]]
            0 <= i < rs.len() && 0 <= j < g.len() && g[j].name == rs[i].name && rs[i].route(e) is Some
            implies g[j].route(e) == rs[i].route(e) by {
            assert(r1[i] == rs[i]);
            assert(g[i].name == rs[i].name) by {
                match d {
                    Direction::North => {},
                    Direction::South => {},
                    Direction::East => {},
                    Direction::West => {},
                }
            }
            assert(j == i);
            if rs[i].name == x && e == d {
                assert(!(rs[i].route(d) is Some && rs[i].route(d) != Some(y)));
            }
            if rs[i].name == y && e == opposite(d) {
                assert(!(rs[i].route(opposite(d)) is Some && rs[i].route(opposite(d)) != Some(x)));
            }
            match d {
                Direction::North => {},
                Direction::South => {},
                Direction::East => {},
                Direction::West => {},
            }
            match e {
                Direction::North => {},
                Direction::South => {},
                Direction::East => {},
                Direction::West => {},
            }
        }
        assert forall|m: Seq<char>| live(rs, m) implies live(g, m) by {}
    }
}

/// Loading a run of words keeps every city and road, and each route token
/// among them holds afterwards.
proof fn lemma_tokens_hold(rs: Seq<CityView>, x: Seq<char>, ws: Seq<Seq<char>>)
    requires
        registry_wf(rs),
        live(rs, x),
        load_tokens(rs, x, ws) is Ok,
    ensures
        registry_wf(load_tokens(rs, x, ws)->Ok_0),
        routes_kept(rs, load_tokens(rs, x, ws)->Ok_0),
        forall|t: int| 0 <= t < ws.len() ==> token_holds(load_tokens(rs, x, ws)->Ok_0, x, #[trigger] ws[t]),
    decreases ws.len(),
{
    let g = load_tokens(rs, x, ws)->Ok_0;
    if ws.len() == 0 {
        assert(g == rs);
    } else {
        let pre = ws.drop_last();
        lemma_tokens_hold(rs, x, pre);
        let mid = load_tokens(rs, x, pre)->Ok_0;
        lemma_token_kept(mid, x, ws.last());
        lemma_kept_trans(rs, mid, g);
        assert forall|t: int| 0 <= t < ws.len() implies token_holds(g, x, #[trigger] ws[t]) by {
            if t < pre.len() {
                assert(pre[t] == ws[t]);
                lemma_kept_token(mid, g, x, ws[t]);
            }
        }
    }
}

/// Loading a run of lines keeps every city and road, and each route token
/// of each line holds afterwards.
proof fn lemma_lines_hold(rs: Seq<CityView>, ls: Seq<Seq<char>>)
    requires
        registry_wf(rs),
        load_lines(rs, ls) is Ok,
    ensures
        registry_wf(load_lines(rs, ls)->Ok_0),
        routes_kept(rs, load_lines(rs, ls)->Ok_0),
        forall|l: int, t: int|
            0 <= l < ls.len() && 1 <= t < words(#[trigger] ls[l]).len() ==> token_holds(
                load_lines(rs, ls)->Ok_0,
                words(ls[l])[0],
                #[trigger] words(ls[l])[t],
            ),
    decreases ls.len(),
{
    let g = load_lines(rs, ls)->Ok_0;
    if ls.len() == 0 {
        assert(g == rs);
    } else {
        let pre = ls.drop_last();
        lemma_lines_hold(rs, pre);
        let mid = load_lines(rs, pre)->Ok_0;
        let ws = words(ls.last());
        if ws.len() == 0 {
            assert(g == mid);
        } else {
            let x = ws[0];
            let toks = ws.subrange(1, ws.len() as int);
            lemma_with_city_wf(mid, x);
            lemma_with_city_kept(mid, x);
            lemma_tokens_hold(with_city(mid, x), x, toks);
            lemma_kept_trans(mid, with_city(mid, x), g);
            assert forall|t: int| 1 <= t < ws.len() implies token_holds(g, x, #[trigger] ws[t]) by {
                assert(toks[t - 1] == ws[t]);
            }
        }
        lemma_kept_trans(rs, mid, g);
        assert forall|l: int, t: int|
            0 <= l < ls.len() && 1 <= t < words(#[trigger] ls[l]).len() implies token_holds(
                g,
                words(ls[l])[0],
                #[trigger] words(ls[l])[t],
            ) by {
            if l < pre.len() {
                assert(pre[l] == ls[l]);
                lemma_kept_token(mid, g, words(ls[l])[0], words(ls[l])[t]);
            } else {
                assert(ls[l] == ls.last());
            }
        }
    }
}

/// After a map text loads without error, every route token `d=y` on the
/// line of city `x` holds: the road from `x` in direction `d` leads to `y`,
/// the road from `y` in the opposite direction leads back to `x`, and both
/// cities are live. Nothing loaded earlier is lost either.
pub proof fn lemma_loaded_routes_hold(rs: Seq<CityView>, text: Seq<char>)
    requires
        registry_wf(rs),
        load_text(rs, text) is Ok,
    ensures
        routes_kept(rs, load_text(rs, text)->Ok_0),
        forall|l: int, t: int|
            0 <= l < split_by(text, LINES).len() && 1 <= t < words(#[trigger] split_by(text, LINES)[l]).len()
                ==> token_holds(
                load_text(rs, text)->Ok_0,
                words(split_by(text, LINES)[l])[0],
                #[trigger] words(split_by(text, LINES)[l])[t],
            ),
{
    lemma_lines_hold(rs, split_by(text, LINES));
}

/// Loading the one-line map `x d=y` into an empty graph, where `d` names a
/// direction and `x`, `y` are different names without blanks, line breaks
/// (and, for `y`, `=`), succeeds. Afterwards both cities are live, the road
/// from `x` in direction `d` leads to `y`, and the road from `y` in the
/// opposite direction leads back to `x`.
pub proof fn lemma_single_route_line(x: Seq<char>, a: Seq<char>, y: Seq<char>)
    requires
        x.len() > 0,
        free_of(x, BLANKS),
        free_of(x, LINES),
        free_of(a, BLANKS),
        free_of(a, LINES),
        free_of(a, EQUALS),
        free_of(y, BLANKS),
        free_of(y, LINES),
        free_of(y, EQUALS),
        x != y,
        direction_named(a) is Some,
    ensures
        ({
            let text = x + seq![' '] + (a + seq!['='] + y);
            let d = direction_named(a)->0;
            &&& load_text(Seq::empty(), text) is Ok
            &&& live(load_text(Seq::empty(), text)->Ok_0, x)
            &&& live(load_text(Seq::empty(), text)->Ok_0, y)
            &&& city_named(load_text(Seq::empty(), text)->Ok_0, x).route(d) == Some(y)
            &&& city_named(load_text(Seq::empty(), text)->Ok_0, y).route(opposite(d)) == Some(x)
        }),
{
    let t = a + seq!['='] + y;
    let text = x + seq![' '] + t;
    let d = direction_named(a)->0;
    assert(free_of(t, BLANKS)) by {
        assert forall|i: int| 0 <= i < t.len() implies !is_sep(#[trigger] t[i], BLANKS) by {
            if i < a.len() {
                assert(t[i] == a[i]);
            } else if i > a.len() {
                assert(t[i] == y[i - a.len() - 1]);
            }
        }
    }
    assert(free_of(text, LINES)) by {
        assert forall|i: int| 0 <= i < text.len() implies !is_sep(#[trigger] text[i], LINES) by {
            if i < x.len() {
                assert(text[i] == x[i]);
            } else if i > x.len() {
                let k = i - x.len() - 1;
                assert(text[i] == t[k]);
                if k < a.len() {
                    assert(t[k] == a[k]);
                } else if k > a.len() {
                    assert(t[k] == y[k - a.len() - 1]);
                }
            }
        }
    }
    lemma_split_plain(text, LINES);
    lemma_split_pair(x, ' ', t, BLANKS);
    lemma_split_pair(a, '=', y, EQUALS);
    let ps = seq![x, t];
    assert(ps.drop_last() =~= seq![x]);
    assert(seq![x].drop_last() =~= Seq::<Seq<char>>::empty());
    assert(non_empty(seq![x]) == seq![x]) by {
        assert(seq![x].last() == x);
        assert(non_empty(Seq::<Seq<char>>::empty()) == Seq::<Seq<char>>::empty());
        assert(Seq::<Seq<char>>::empty().push(x) =~= seq![x]);
    }
    assert(non_empty(ps) =~= ps);
    assert(words(text) == ps);
    assert(ps.subrange(1, 2) =~= seq![t]);
    assert(seq![t].drop_last() =~= Seq::<Seq<char>>::empty());
    assert(seq![text].drop_last() =~= Seq::<Seq<char>>::empty());
    let r0 = with_city(Seq::empty(), x);
    assert(registry_wf(Seq::<CityView>::empty()));
    lemma_with_city_wf(Seq::empty(), x);
    assert(!live(Seq::<CityView>::empty(), x));
    assert(r0 =~= seq![CityView::empty(x)]);
    assert(!link_conflict(r0, x, d, y)) by {
        match d {
            Direction::North => {},
            Direction::South => {},
            Direction::East => {},
            Direction::West => {},
        }
    }
    assert(seq![t].last() == t);
    assert(load_tokens(r0, x, Seq::<Seq<char>>::empty()) == Ok::<Seq<CityView>, AppError>(r0));
    assert(load_tokens(r0, x, seq![t]) == load_token(r0, x, t));
    assert(seq![text].last() == text);
    assert(load_lines(Seq::<CityView>::empty(), Seq::<Seq<char>>::empty()) == Ok::<Seq<CityView>, AppError>(Seq::<CityView>::empty()));
    assert(load_lines(Seq::<CityView>::empty(), seq![text]) == load_line(Seq::<CityView>::empty(), text));
    assert(ps[0] == x);
    assert(load_line(Seq::<CityView>::empty(), text) == load_tokens(r0, x, seq![t]));
    assert(load_text(Seq::empty(), text) == load_token(r0, x, t));
    lemma_route_token_links(r0, x, t);
}

} // verus!
