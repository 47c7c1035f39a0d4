use crate::alien::Alien;
use crate::city::{City, CityView};
use crate::direction::{Direction, opposite};
use crate::error::AppError;
use crate::naming::{alien_name, name_for};
use crate::text::{direction_named, direction_of, keep_non_empty, split, split_by, words, EQUALS, BLANKS, LINES};
use crate::text::chars_of;
use crate::registry::{
    blocked, destroyed, lemma_destroy_removes, lemma_destroyed_wf, lemma_linked_wf, lemma_with_city_wf, link_conflict, linked, live,
    registry_wf, with_city,
};
use vstd::prelude::*;

verus! {

/// How many aliens that still move stand in the city called `n`.
pub open spec fn occupants(aliens: Seq<Alien>, n: Seq<char>) -> nat
    decreases aliens.len(),
{
    if aliens.len() == 0 {
        0
    } else {
        occupants(aliens.drop_last(), n) + if aliens.last().active() && aliens.last().current_city@ == n {
            1nat
        } else {
            0nat
        }
    }
}

/// The names of the cities of `g`, in order, where two or more moving aliens meet.
pub open spec fn crowded_names(g: Seq<CityView>, aliens: Seq<Alien>) -> Seq<Seq<char>>
    decreases g.len(),
{
    if g.len() == 0 {
        Seq::empty()
    } else {
        let rest = crowded_names(g.drop_last(), aliens);
        if occupants(aliens, g.last().name) >= 2 {
            rest.push(g.last().name)
        } else {
            rest
        }
    }
}

/// The graph after each city of `ns` is destroyed in turn.
pub open spec fn destroyed_all(g: Seq<CityView>, ns: Seq<Seq<char>>) -> Seq<CityView>
    decreases ns.len(),
{
    if ns.len() == 0 {
        g
    } else {
        destroyed(destroyed_all(g, ns.drop_last()), ns.last())
    }
}

/// An alien after a collision: dead if it stood in a crowded city.
pub open spec fn after_collision(a: Alien, g: Seq<CityView>, aliens: Seq<Alien>) -> bool {
    a.is_dead || (live(g, a.current_city@) && occupants(aliens, a.current_city@) >= 2)
}

/// Two aliens that differ at most in whether they are dead.
pub open spec fn same_but_death(a: Alien, b: Alien) -> bool {
    &&& a.name == b.name
    &&& a.current_city == b.current_city
    &&& a.is_trapped == b.is_trapped
}

/// Occupancy of `n` depends only on the aliens that stand there and move.
pub proof fn lemma_occupants_agree(a0: Seq<Alien>, a1: Seq<Alien>, n: Seq<char>)
    requires
        a0.len() == a1.len(),
        forall|j: int|
            0 <= j < a0.len() ==> ((#[trigger] a0[j]).active() && a0[j].current_city@ == n) == (
            a1[j].active() && a1[j].current_city@ == n),
    ensures
        occupants(a0, n) == occupants(a1, n),
    decreases a0.len(),
{
    if a0.len() > 0 {
        let b0 = a0.drop_last();
        let b1 = a1.drop_last();
        assert forall|j: int| 0 <= j < b0.len() implies ((#[trigger] b0[j]).active() && b0[j].current_city@ == n) == (
            b1[j].active() && b1[j].current_city@ == n) by {
            assert(b0[j] == a0[j] && b1[j] == a1[j]);
        }
        lemma_occupants_agree(b0, b1, n);
        assert(a0[a0.len() - 1] == a0.last());
    }
}

/// A name is among the crowded ones exactly when its city is live and crowded.
pub proof fn lemma_crowded_names(g: Seq<CityView>, aliens: Seq<Alien>, m: Seq<char>)
    ensures
        crowded_names(g, aliens).contains(m) <==> (live(g, m) && occupants(aliens, m) >= 2),
    decreases g.len(),
{
    if g.len() > 0 {
        let rest = g.drop_last();
        lemma_crowded_names(rest, aliens, m);
        let cr = crowded_names(rest, aliens);
        if live(g, m) && occupants(aliens, m) >= 2 {
            let i = choose|i: int| 0 <= i < g.len() && (#[trigger] g[i]).name == m;
            if i < rest.len() {
                assert(rest[i] == g[i]);
                let k = choose|k: int| 0 <= k < cr.len() && cr[k] == m;
                if occupants(aliens, g.last().name) >= 2 {
                    assert(cr.push(g.last().name)[k] == m);
                }
            } else {
                assert(cr.push(g.last().name)[cr.len() as int] == m);
            }
        }
        if crowded_names(g, aliens).contains(m) {
            let out = crowded_names(g, aliens);
            let k = choose|k: int| 0 <= k < out.len() && out[k] == m;
            if k < cr.len() {
                assert(cr[k] == m);
                let i = choose|i: int| 0 <= i < rest.len() && (#[trigger] rest[i]).name == m;
                assert(g[i] == rest[i]);
            } else {
                assert(g[g.len() - 1].name == m);
            }
        }
    }
}

/// Destroying several cities keeps the graph well formed and leaves live
/// exactly the cities that were live and not destroyed.
pub proof fn lemma_destroyed_all(g: Seq<CityView>, ns: Seq<Seq<char>>)
    requires
        registry_wf(g),
    ensures
        registry_wf(destroyed_all(g, ns)),
        forall|m: Seq<char>| live(destroyed_all(g, ns), m) <==> (live(g, m) && !ns.contains(m)),
    decreases ns.len(),
{
    if ns.len() > 0 {
        let rest = ns.drop_last();
        lemma_destroyed_all(g, rest);
        let mid = destroyed_all(g, rest);
        lemma_destroyed_wf(mid, ns.last());
        lemma_destroy_removes(mid, ns.last());
        assert forall|m: Seq<char>| live(destroyed_all(g, ns), m) <==> (live(g, m) && !ns.contains(m)) by {
            if ns.contains(m) && m != ns.last() {
                let k = choose|k: int| 0 <= k < ns.len() && ns[k] == m;
                assert(rest[k] == m);
            }
            if rest.contains(m) {
                let k = choose|k: int| 0 <= k < rest.len() && rest[k] == m;
                assert(ns[k] == m);
            }
            if m == ns.last() {
                assert(ns[ns.len() - 1] == m);
            }
        }
    }
}

/// The destination of an optional road, as a sequence of zero or one names.
pub open spec fn slot_seq(o: Option<Seq<char>>) -> Seq<Seq<char>> {
    match o {
        Some(n) => seq![n],
        None => Seq::empty(),
    }
}

/// Where the roads of a city lead, in the order north, south, east, west.
pub open spec fn exits(c: CityView) -> Seq<Seq<char>> {
    slot_seq(c.north) + slot_seq(c.south) + slot_seq(c.east) + slot_seq(c.west)
}

/// The city of `g` called `n` (meaningful where it is live).
pub open spec fn city_named(g: Seq<CityView>, n: Seq<char>) -> CityView {
    g[choose|i: int| 0 <= i < g.len() && (#[trigger] g[i]).name == n]
}

/// One alien's movement, from `a` to `b`, in the graph `g`, given a drawn
/// number `pick`. An alien that no longer moves stays as it is. One in a
/// city without roads becomes trapped where it stands. Any other takes the
/// road at position `pick % k` among the `k` roads of its city.
pub open spec fn moves_to(a: Alien, b: Alien, g: Seq<CityView>, pick: int) -> bool {
    if !a.active() {
        b == a
    } else {
        let ways = exits(city_named(g, a.current_city@));
        &&& b.name == a.name
        &&& b.is_dead == a.is_dead
        &&& if ways.len() == 0 {
            b.is_trapped && b.current_city == a.current_city
        } else {
            !b.is_trapped && b.current_city@ == ways[pick % (ways.len() as int)]
        }
    }
}

/// `b` is what `a` can become in one movement phase, whatever number is drawn.
pub open spec fn may_move_to(a: Alien, b: Alien, g: Seq<CityView>) -> bool {
    exists|pick: int| 0 <= pick && #[trigger] moves_to(a, b, g, pick)
}

pub open spec fn pick_mod(pick: int, k: int) -> int {
    pick % k
}

/// Each exit of a city is the destination of one of its roads.
pub proof fn lemma_exit_is_route(c: CityView, k: int)
    requires
        0 <= k < exits(c).len(),
    ensures
        exists|d: Direction| #[trigger] c.route(d) == Some(exits(c)[k]),
{
    let n = slot_seq(c.north);
    let s = slot_seq(c.south);
    let e = slot_seq(c.east);
    let w = slot_seq(c.west);
    assert(exits(c) == n + s + e + w);
    if k < n.len() {
        assert(c.route(Direction::North) == Some(exits(c)[k]));
    } else if k < n.len() + s.len() {
        assert(c.route(Direction::South) == Some(exits(c)[k]));
    } else if k < n.len() + s.len() + e.len() {
        assert(c.route(Direction::East) == Some(exits(c)[k]));
    } else {
        assert(c.route(Direction::West) == Some(exits(c)[k]));
    }
}

/// One word after a line's city name: a route token `direction=destination`
/// lays a two-way road to whatever follows the `=`; a word that is not one
/// (no `=`, or more than one) is skipped; an unknown direction, or a road
/// that would replace another, is an error.
pub open spec fn load_token(rs: Seq<CityView>, city: Seq<char>, w: Seq<char>) -> Result<Seq<CityView>, AppError> {
    let parts = split_by(w, EQUALS);
    if parts.len() != 2 {
        Ok(rs)
    } else {
        match direction_named(parts[0]) {
            None => Err(AppError::WrongDirection),
            Some(d) => if link_conflict(rs, city, d, parts[1]) {
                Err(AppError::RouteAlreadyExists)
            } else {
                Ok(linked(rs, city, d, parts[1]))
            },
        }
    }
}

/// The route tokens `ws` of `city`, in order, up to the first error.
pub open spec fn load_tokens(rs: Seq<CityView>, city: Seq<char>, ws: Seq<Seq<char>>) -> Result<Seq<CityView>, AppError>
    decreases ws.len(),
{
    if ws.len() == 0 {
        Ok(rs)
    } else {
        match load_tokens(rs, city, ws.drop_last()) {
            Ok(r) => load_token(r, city, ws.last()),
            Err(e) => Err(e),
        }
    }
}

/// One line: its first word names a city, registered if new; the other
/// words are its route tokens. A line without words changes nothing.
pub open spec fn load_line(rs: Seq<CityView>, line: Seq<char>) -> Result<Seq<CityView>, AppError> {
    let ws = words(line);
    if ws.len() == 0 {
        Ok(rs)
    } else {
        load_tokens(with_city(rs, ws[0]), ws[0], ws.subrange(1, ws.len() as int))
    }
}

/// The lines `ls`, in order, up to the first error.
pub open spec fn load_lines(rs: Seq<CityView>, ls: Seq<Seq<char>>) -> Result<Seq<CityView>, AppError>
    decreases ls.len(),
{
    if ls.len() == 0 {
        Ok(rs)
    } else {
        match load_lines(rs, ls.drop_last()) {
            Ok(r) => load_line(r, ls.last()),
            Err(e) => Err(e),
        }
    }
}

/// The graph after loading a whole map text, or its first error.
pub open spec fn load_text(rs: Seq<CityView>, text: Seq<char>) -> Result<Seq<CityView>, AppError> {
    load_lines(rs, split_by(text, LINES))
}

/// An error among the first tokens is the error of all of them.
proof fn lemma_tokens_error(rs: Seq<CityView>, city: Seq<char>, ws: Seq<Seq<char>>, k: int)
    requires
        0 <= k <= ws.len(),
        load_tokens(rs, city, ws.take(k)) is Err,
    ensures
        load_tokens(rs, city, ws) == load_tokens(rs, city, ws.take(k)),
    decreases ws.len() - k,
{
    if k < ws.len() {
        assert(ws.take(k + 1).drop_last() =~= ws.take(k));
        lemma_tokens_error(rs, city, ws, k + 1);
    } else {
        assert(ws.take(k) =~= ws);
    }
}

/// An error among the first lines is the error of all of them.
proof fn lemma_lines_error(rs: Seq<CityView>, ls: Seq<Seq<char>>, k: int)
    requires
        0 <= k <= ls.len(),
        load_lines(rs, ls.take(k)) is Err,
    ensures
        load_lines(rs, ls) == load_lines(rs, ls.take(k)),
    decreases ls.len() - k,
{
    if k < ls.len() {
        assert(ls.take(k + 1).drop_last() =~= ls.take(k));
        lemma_lines_error(rs, ls, k + 1);
    } else {
        assert(ls.take(k) =~= ls);
    }
}

/// Relies on String's FromIterator<char>: the string holds the characters in order.
#[verifier::external_body]
fn string_of(v: &Vec<char>) -> (r: String)
    ensures
        r@ == v@,
{
    v.iter().collect()
}

/// The name of a direction as the map text writes it.
pub open spec fn direction_word(d: Direction) -> Seq<char> {
    match d {
        Direction::North => seq!['n', 'o', 'r', 't', 'h'],
        Direction::South => seq!['s', 'o', 'u', 't', 'h'],
        Direction::East => seq!['e', 'a', 's', 't'],
        Direction::West => seq!['w', 'e', 's', 't'],
    }
}

/// ` direction=destination` for a road, nothing for no road.
pub open spec fn route_text(d: Direction, o: Option<Seq<char>>) -> Seq<char> {
    match o {
        Some(n) => seq![' '] + direction_word(d) + seq!['='] + n,
        None => Seq::empty(),
    }
}

/// One city as a line of map text: its name, then its roads in the order
/// north, south, east, west.
pub open spec fn city_line(c: CityView) -> Seq<char> {
    c.name + route_text(Direction::North, c.north) + route_text(Direction::South, c.south) + route_text(
        Direction::East,
        c.east,
    ) + route_text(Direction::West, c.west) + seq!['\n']
}

/// The whole graph as map text, one line per city, in order.
pub open spec fn map_text(g: Seq<CityView>) -> Seq<char>
    decreases g.len(),
{
    if g.len() == 0 {
        Seq::empty()
    } else {
        map_text(g.drop_last()) + city_line(g.last())
    }
}

fn direction_text(d: Direction) -> (r: &'static str)
    ensures
        r@ == direction_word(d),
{
    proof {
        reveal_strlit("north");
        reveal_strlit("south");
        reveal_strlit("east");
        reveal_strlit("west");
    }
    let r = match d {
        Direction::North => "north",
        Direction::South => "south",
        Direction::East => "east",
        Direction::West => "west",
    };
    assert(r@ =~= direction_word(d));
    r
}

/// Relies on rand::random::<usize>: a number drawn from the thread-local
/// generator. Nothing is promised of it.
#[verifier::external_body]
fn random_usize() -> usize {
    rand::random::<usize>()
}

/// The name of a direction as the report writes it.
pub open spec fn direction_label(d: Direction) -> Seq<char> {
    match d {
        Direction::North => seq!['N', 'o', 'r', 't', 'h'],
        Direction::South => seq!['S', 'o', 'u', 't', 'h'],
        Direction::East => seq!['E', 'a', 's', 't'],
        Direction::West => seq!['W', 'e', 's', 't'],
    }
}

/// `  Direction -> destination` and a line break for a road, nothing for no road.
pub open spec fn report_route(d: Direction, o: Option<Seq<char>>) -> Seq<char> {
    match o {
        Some(n) => seq![' ', ' '] + direction_label(d) + seq![' ', '-', '>', ' '] + n + seq!['\n'],
        None => Seq::empty(),
    }
}

/// One city in the report: a line `name:`, then one line per road in the
/// order north, south, east, west.
pub open spec fn report_city(c: CityView) -> Seq<char> {
    c.name + seq![':', '\n'] + report_route(Direction::North, c.north) + report_route(Direction::South, c.south)
        + report_route(Direction::East, c.east) + report_route(Direction::West, c.west)
}

/// The report of the whole graph, city by city, in order.
pub open spec fn report(g: Seq<CityView>) -> Seq<char>
    decreases g.len(),
{
    if g.len() == 0 {
        Seq::empty()
    } else {
        report(g.drop_last()) + report_city(g.last())
    }
}

fn direction_label_text(d: Direction) -> (r: &'static str)
    ensures
        r@ == direction_label(d),
{
    proof {
        reveal_strlit("North");
        reveal_strlit("South");
        reveal_strlit("East");
        reveal_strlit("West");
    }
    let r = match d {
        Direction::North => "North",
        Direction::South => "South",
        Direction::East => "East",
        Direction::West => "West",
    };
    assert(r@ =~= direction_label(d));
    r
}

/// `count` numbers drawn at random.
fn draw_numbers(count: usize) -> (r: Vec<usize>)
    ensures
        r@.len() == count,
{
    let mut r: Vec<usize> = Vec::new();
    let mut i: usize = 0;
    while i < count
        invariant
            i <= count,
            r@.len() == i,
        decreases count - i,
    {
        r.push(random_usize());
        i = i + 1;
    }
    r
}

/// The whole state of one invasion: the live cities with their roads, and
/// every alien that was ever spawned.
#[derive(Debug)]
pub struct World {
    pub cities: Vec<City>,
    pub aliens: Vec<Alien>,
}

impl World {
    /// The route graph, one view per live city, in insertion order.
    pub open spec fn graph(&self) -> Seq<CityView> {
        Seq::new(self.cities@.len(), |i: int| self.cities@[i]@)
    }

    /// Every alien that still moves stands in a live city.
    pub open spec fn aliens_placed(&self) -> bool {
        forall|j: int|
            0 <= j < self.aliens@.len() && (#[trigger] self.aliens@[j]).active() ==> live(
                self.graph(),
                self.aliens@[j].current_city@,
            )
    }

    pub open spec fn wf(&self) -> bool {
        &&& registry_wf(self.graph())
        &&& self.aliens_placed()
    }

    pub fn new() -> (r: World)
        ensures
            r.wf(),
            r.graph() == Seq::<CityView>::empty(),
            r.aliens@ == Seq::<Alien>::empty(),
    {
        let r = World { cities: Vec::new(), aliens: Vec::new() };
        assert(r.graph() =~= Seq::<CityView>::empty());
        r
    }

    /// The position of the city called `name`, if it is live.
    pub fn find_city(&self, name: &String) -> (r: Option<usize>)
        ensures
            r is Some <==> live(self.graph(), name@),
            r is Some ==> r->0 < self.cities@.len() && self.graph()[r->0 as int].name == name@,
    {
        let mut i: usize = 0;
        while i < self.cities.len()
            invariant
                i <= self.cities@.len(),
                forall|k: int| 0 <= k < i ==> (#[trigger] self.graph()[k]).name != name@,
            decreases self.cities@.len() - i,
        {
            if self.cities[i].name == *name {
                return Some(i);
            }
            i = i + 1;
        }
        None
    }

    /// Registers a city without roads, unless one of that name is live.
    pub fn add_city(&mut self, name: &String)
        requires
            old(self).wf(),
        ensures
            final(self).wf(),
            final(self).graph() == with_city(old(self).graph(), name@),
            final(self).aliens == old(self).aliens,
    {
        if self.find_city(name).is_none() {
            self.cities.push(City::new(name.clone()));
            assert(self.graph() =~= old(self).graph().push(CityView::empty(name@)));
            assert forall|m: Seq<char>| live(old(self).graph(), m) implies live(self.graph(), m) by {
                let i = choose|i: int| 0 <= i < old(self).graph().len() && (#[trigger] old(self).graph()[i]).name == m;
                assert(self.graph()[i] == old(self).graph()[i]);
            }
        }
    }

    /// How many aliens that still move stand in the city called `name`.
    pub fn count_occupants(&self, name: &String) -> (r: usize)
        ensures
            r == occupants(self.aliens@, name@),
    {
        let mut count: usize = 0;
        let mut j: usize = 0;
        while j < self.aliens.len()
            invariant
                j <= self.aliens@.len(),
                count == occupants(self.aliens@.take(j as int), name@),
                count <= j,
            decreases self.aliens@.len() - j,
        {
            assert(self.aliens@.take(j as int + 1).drop_last() =~= self.aliens@.take(j as int));
            if self.aliens[j].is_active() && self.aliens[j].current_city == *name {
                count = count + 1;
            }
            j = j + 1;
        }
        assert(self.aliens@.take(j as int) =~= self.aliens@);
        count
    }

    /// The names of the live cities, in order.
    pub fn city_names(&self) -> (r: Vec<String>)
        ensures
            r@.len() == self.cities@.len(),
            forall|i: int| 0 <= i < r@.len() ==> (#[trigger] r@[i])@ == self.graph()[i].name,
    {
        let mut r: Vec<String> = Vec::new();
        let mut i: usize = 0;
        while i < self.cities.len()
            invariant
                i <= self.cities@.len(),
                r@.len() == i,
                forall|k: int| 0 <= k < i ==> (#[trigger] r@[k])@ == self.graph()[k].name,
            decreases self.cities@.len() - i,
        {
            r.push(self.cities[i].name.clone());
            i = i + 1;
        }
        r
    }

    /// Marks dead every moving or resting alien that stands in the city called `name`.
    fn kill_in(&mut self, name: &String)
        ensures
            final(self).cities == old(self).cities,
            final(self).aliens@.len() == old(self).aliens@.len(),
            forall|j: int| 0 <= j < old(self).aliens@.len() ==> same_but_death(#[trigger] final(self).aliens@[j], old(self).aliens@[j])
                && final(self).aliens@[j].is_dead == (old(self).aliens@[j].is_dead || old(self).aliens@[j].current_city@ == name@),
    {
        let mut j: usize = 0;
        while j < self.aliens.len()
            invariant
                j <= self.aliens@.len(),
                self.cities == old(self).cities,
                self.aliens@.len() == old(self).aliens@.len(),
                forall|i: int| j <= i < self.aliens@.len() ==> #[trigger] self.aliens@[i] == old(self).aliens@[i],
                forall|i: int| 0 <= i < j ==> same_but_death(#[trigger] self.aliens@[i], old(self).aliens@[i])
                    && self.aliens@[i].is_dead == (old(self).aliens@[i].is_dead || old(self).aliens@[i].current_city@ == name@),
            decreases self.aliens@.len() - j,
        {
            if self.aliens[j].current_city == *name {
                self.aliens[j].is_dead = true;
            }
            j = j + 1;
        }
    }

    /// The collision phase. Every live city where two or more moving aliens
    /// meet is destroyed, and every alien standing there dies. All such cities
    /// are found, whatever their place in the list.
    pub fn collide(&mut self)
        requires
            old(self).wf(),
        ensures
            final(self).wf(),
            final(self).graph() == destroyed_all(old(self).graph(), crowded_names(old(self).graph(), old(self).aliens@)),
            final(self).aliens@.len() == old(self).aliens@.len(),
            forall|j: int| 0 <= j < old(self).aliens@.len() ==> same_but_death(#[trigger] final(self).aliens@[j], old(self).aliens@[j])
                && final(self).aliens@[j].is_dead == after_collision(old(self).aliens@[j], old(self).graph(), old(self).aliens@),
    {
        let ghost g0 = self.graph();
        let ghost a0 = self.aliens@;
        let names = self.city_names();
        let mut k: usize = 0;
        while k < names.len()
            invariant
                k <= names@.len(),
                names@.len() == g0.len(),
                forall|i: int| 0 <= i < names@.len() ==> (#[trigger] names@[i])@ == g0[i].name,
                registry_wf(g0),
                registry_wf(self.graph()),
                self.graph() == destroyed_all(g0, crowded_names(g0.take(k as int), a0)),
                self.aliens@.len() == a0.len(),
                forall|j: int| 0 <= j < a0.len() ==> same_but_death(#[trigger] self.aliens@[j], a0[j])
                    && self.aliens@[j].is_dead == (a0[j].is_dead || crowded_names(g0.take(k as int), a0).contains(a0[j].current_city@)),
            decreases names@.len() - k,
        {
            let ghost pre = crowded_names(g0.take(k as int), a0);
            assert(g0.take(k as int + 1).drop_last() =~= g0.take(k as int));
            assert(g0.take(k as int + 1).last() == g0[k as int]);
            proof {
                assert forall|j: int| 0 <= j < a0.len() implies ((#[trigger] a0[j]).active() && a0[j].current_city@ == g0[k as int].name) == (
                    self.aliens@[j].active() && self.aliens@[j].current_city@ == g0[k as int].name) by {
                    if pre.contains(a0[j].current_city@) && a0[j].current_city@ == g0[k as int].name {
                        lemma_crowded_names(g0.take(k as int), a0, g0[k as int].name);
                        let i = choose|i: int| 0 <= i < g0.take(k as int).len() && (#[trigger] g0.take(k as int)[i]).name == g0[k as int].name;
                        assert(g0[i] == g0.take(k as int)[i]);
                    }
                }
                lemma_occupants_agree(a0, self.aliens@, g0[k as int].name);
            }
            let c = self.count_occupants(&names[k]);
            if c >= 2 {
                self.kill_in(&names[k]);
                self.destroy_city(&names[k]);
                assert forall|m: Seq<char>| pre.push(g0[k as int].name).contains(m) <==> (pre.contains(m) || m == g0[k as int].name) by {
                    if pre.contains(m) {
                        let i = choose|i: int| 0 <= i < pre.len() && pre[i] == m;
                        assert(pre.push(g0[k as int].name)[i] == m);
                    }
                    if m == g0[k as int].name {
                        assert(pre.push(g0[k as int].name)[pre.len() as int] == m);
                    }
                    if pre.push(g0[k as int].name).contains(m) {
                        let i = choose|i: int| 0 <= i < pre.len() + 1 && pre.push(g0[k as int].name)[i] == m;
                        if i < pre.len() {
                            assert(pre[i] == m);
                        }
                    }
                }
                assert(crowded_names(g0.take(k as int + 1), a0).drop_last() == pre);
            }
            k = k + 1;
        }
        assert(g0.take(k as int) =~= g0);
        proof {
            lemma_destroyed_all(g0, crowded_names(g0, a0));
            assert forall|j: int| 0 <= j < a0.len() implies (#[trigger] self.aliens@[j]).is_dead == after_collision(a0[j], g0, a0) by {
                lemma_crowded_names(g0, a0, a0[j].current_city@);
            }
            assert forall|j: int| 0 <= j < self.aliens@.len() && (#[trigger] self.aliens@[j]).active() implies live(
                self.graph(), self.aliens@[j].current_city@) by {
                assert(a0[j].active());
                lemma_crowded_names(g0, a0, a0[j].current_city@);
            }
        }
    }

    /// Where the roads of the city at position `i` lead, north, south, east, west.
    pub fn exits_of(&self, i: usize) -> (r: Vec<String>)
        requires
            i < self.cities@.len(),
        ensures
            r@.len() == exits(self.graph()[i as int]).len(),
            forall|k: int| 0 <= k < r@.len() ==> (#[trigger] r@[k])@ == exits(self.graph()[i as int])[k],
    {
        let ghost c = self.graph()[i as int];
        let mut r: Vec<String> = Vec::new();
        let ds = [Direction::North, Direction::South, Direction::East, Direction::West];
        let ghost parts = seq![slot_seq(c.north), slot_seq(c.south), slot_seq(c.east), slot_seq(c.west)];
        let mut t: usize = 0;
        while t < 4
            invariant
                t <= 4,
                ds@ == seq![Direction::North, Direction::South, Direction::East, Direction::West],
                i < self.cities@.len(),
                c == self.graph()[i as int],
                parts == seq![slot_seq(c.north), slot_seq(c.south), slot_seq(c.east), slot_seq(c.west)],
                Seq::new(r@.len(), |k: int| r@[k]@) == parts.take(t as int).fold_left(Seq::<Seq<char>>::empty(), |acc: Seq<Seq<char>>, p: Seq<Seq<char>>| acc + p),
            decreases 4 - t,
        {
            let d = ds[t];
            assert(parts[t as int] == slot_seq(c.route(d)));
            assert(parts.take(t as int + 1).drop_last() =~= parts.take(t as int));
            match self.cities[i].route(d) {
                Some(n) => {
                    r.push(n);
                },
                None => {},
            }
            assert(Seq::new(r@.len(), |k: int| r@[k]@) =~= parts.take(t as int + 1).fold_left(Seq::<Seq<char>>::empty(), |acc: Seq<Seq<char>>, p: Seq<Seq<char>>| acc + p));
            t = t + 1;
        }
        assert(parts.take(4) =~= parts);
        reveal_with_fuel(Seq::fold_left, 5);
        assert(Seq::new(r@.len(), |k: int| r@[k]@) =~= exits(c));
        r
    }

    /// The movement phase, given one drawn number per alien: each alien that
    /// still moves either becomes trapped, if its city has no roads, or takes
    /// the road that its number picks. The cities do not change.
    pub fn move_aliens(&mut self, picks: &Vec<usize>)
        requires
            old(self).wf(),
            picks@.len() == old(self).aliens@.len(),
        ensures
            final(self).wf(),
            final(self).cities == old(self).cities,
            final(self).aliens@.len() == old(self).aliens@.len(),
            forall|j: int| 0 <= j < old(self).aliens@.len() ==> moves_to(old(self).aliens@[j], #[trigger] final(self).aliens@[j], old(self).graph(), picks@[j] as int),
    {
        let ghost a0 = self.aliens@;
        let ghost g = self.graph();
        let mut j: usize = 0;
        while j < self.aliens.len()
            invariant
                j <= self.aliens@.len(),
                self.aliens@.len() == a0.len(),
                picks@.len() == a0.len(),
                self.cities == old(self).cities,
                g == self.graph(),
                registry_wf(g),
                old(self).aliens_placed(),
                a0 == old(self).aliens@,
                forall|i: int| j <= i < a0.len() ==> #[trigger] self.aliens@[i] == a0[i],
                forall|i: int| 0 <= i < j ==> moves_to(a0[i], #[trigger] self.aliens@[i], g, picks@[i] as int),
            decreases a0.len() - j,
        {
            if self.aliens[j].is_active() {
                let ghost a = a0[j as int];
                assert(live(g, a.current_city@));
                let h = self.find_city(&self.aliens[j].current_city).unwrap();
                assert(city_named(g, a.current_city@) == g[h as int]);
                let ways = self.exits_of(h);
                if ways.len() == 0 {
                    self.aliens[j].is_trapped = true;
                } else {
                    let k = picks[j] % ways.len();
                    self.aliens[j].current_city = ways[k].clone();
                }
            }
            j = j + 1;
        }
        proof {
            assert forall|i: int| 0 <= i < self.aliens@.len() && (#[trigger] self.aliens@[i]).active() implies live(
                g, self.aliens@[i].current_city@) by {
                assert(moves_to(a0[i], self.aliens@[i], g, picks@[i] as int));
                let a = a0[i];
                assert(live(g, a.current_city@));
                let c = city_named(g, a.current_city@);
                let ways = exits(c);
                if ways.len() > 0 {
                    let hi = choose|h: int| 0 <= h < g.len() && (#[trigger] g[h]).name == a.current_city@;
                    lemma_exit_is_route(c, pick_mod(picks@[i] as int, ways.len() as int));
                    let d = choose|d: Direction| #[trigger] c.route(d) == Some(ways[pick_mod(picks@[i] as int, ways.len() as int)]);
                    assert(g[hi].route(d) is Some);
                }
            }
        }
    }

    /// Places one new alien per drawn number: the alien at position `p` is
    /// named `A` followed by `p` in decimal and stands in the live city at
    /// position `pick % n`, where `n` is the number of live cities. With no
    /// live city there is nowhere to stand, and no alien is placed.
    pub fn spawn_aliens_at(&mut self, picks: &Vec<usize>)
        requires
            old(self).wf(),
            old(self).aliens@.len() + picks@.len() <= usize::MAX,
        ensures
            final(self).wf(),
            final(self).cities == old(self).cities,
            old(self).cities@.len() == 0 ==> final(self).aliens == old(self).aliens,
            old(self).cities@.len() > 0 ==> {
                &&& final(self).aliens@.len() == old(self).aliens@.len() + picks@.len()
                &&& final(self).aliens@.take(old(self).aliens@.len() as int) == old(self).aliens@
                &&& forall|i: int| 0 <= i < picks@.len() ==> {
                    let a = #[trigger] final(self).aliens@[old(self).aliens@.len() + i];
                    &&& a.name@ == alien_name((old(self).aliens@.len() + i) as nat)
                    &&& a.current_city@ == old(self).graph()[picks@[i] as int % old(self).cities@.len() as int].name
                    &&& !a.is_trapped
                    &&& !a.is_dead
                }
            },
    {
        let n = self.cities.len();
        if n == 0 {
            return;
        }
        let ghost a0 = self.aliens@;
        let base = self.aliens.len();
        let mut i: usize = 0;
        while i < picks.len()
            invariant
                i <= picks@.len(),
                n == self.cities@.len(),
                n > 0,
                base == a0.len(),
                base + picks@.len() <= usize::MAX,
                self.cities == old(self).cities,
                a0 == old(self).aliens@,
                old(self).wf(),
                self.aliens@.len() == base + i,
                self.aliens@.take(base as int) == a0,
                forall|k: int| 0 <= k < i ==> {
                    let a = #[trigger] self.aliens@[base + k];
                    &&& a.name@ == alien_name((base + k) as nat)
                    &&& a.current_city@ == old(self).graph()[picks@[k] as int % n as int].name
                    &&& !a.is_trapped
                    &&& !a.is_dead
                },
            decreases picks@.len() - i,
        {
            let at = picks[i] % n;
            let name = name_for(base + i);
            let alien = Alien::new(name.as_str(), self.cities[at].name.as_str());
            let ghost before = self.aliens@;
            self.aliens.push(alien);
            assert(self.aliens@.take(base as int) =~= before.take(base as int));
            assert(self.aliens@[base + i as int] == alien);
            assert forall|k: int| 0 <= k < i implies #[trigger] self.aliens@[base + k] == before[base + k] by {}
            i = i + 1;
        }
        proof {
            assert forall|j: int| 0 <= j < self.aliens@.len() && (#[trigger] self.aliens@[j]).active() implies live(
                self.graph(), self.aliens@[j].current_city@) by {
                if j < base {
                    assert(self.aliens@[j] == self.aliens@.take(base as int)[j]);
                } else {
                    let k = j - base;
                    assert(self.aliens@[base + k] == self.aliens@[j]);
                    let at = picks@[k] as int % n as int;
                    assert(self.graph()[at].name == self.aliens@[j].current_city@);
                }
            }
        }
    }

    /// Spawns `count` aliens, each on a live city drawn at random.
    pub fn spawn_aliens(&mut self, count: usize)
        requires
            old(self).wf(),
            old(self).aliens@.len() + count <= usize::MAX,
        ensures
            final(self).wf(),
            final(self).cities == old(self).cities,
            old(self).cities@.len() == 0 ==> final(self).aliens == old(self).aliens,
            old(self).cities@.len() > 0 ==> {
                &&& final(self).aliens@.len() == old(self).aliens@.len() + count
                &&& final(self).aliens@.take(old(self).aliens@.len() as int) == old(self).aliens@
                &&& forall|i: int| 0 <= i < count ==> {
                    let a = #[trigger] final(self).aliens@[old(self).aliens@.len() + i];
                    &&& a.name@ == alien_name((old(self).aliens@.len() + i) as nat)
                    &&& live(old(self).graph(), a.current_city@)
                    &&& a.active()
                }
            },
    {
        let picks = draw_numbers(count);
        self.spawn_aliens_at(&picks);
        proof {
            if old(self).cities@.len() > 0 {
                assert forall|i: int| 0 <= i < count implies live(old(self).graph(),
                    (#[trigger] self.aliens@[old(self).aliens@.len() + i]).current_city@) by {
                    let at = picks@[i] as int % old(self).cities@.len() as int;
                    assert(old(self).graph()[at].name == self.aliens@[old(self).aliens@.len() + i].current_city@);
                }
            }
        }
    }

    /// One day of the invasion's movement: every alien that still moves
    /// takes a road drawn at random, or becomes trapped if there is none.
    pub fn day_and_night(&mut self)
        requires
            old(self).wf(),
        ensures
            final(self).wf(),
            final(self).cities == old(self).cities,
            final(self).aliens@.len() == old(self).aliens@.len(),
            forall|j: int| 0 <= j < old(self).aliens@.len() ==> may_move_to(old(self).aliens@[j], #[trigger] final(self).aliens@[j], old(self).graph()),
    {
        let picks = draw_numbers(self.aliens.len());
        self.move_aliens(&picks);
        assert forall|j: int| 0 <= j < old(self).aliens@.len() implies may_move_to(old(self).aliens@[j], #[trigger] self.aliens@[j], old(self).graph()) by {
            let p: usize = picks@[j];
            assert(moves_to(old(self).aliens@[j], self.aliens@[j], old(self).graph(), p as int));
        }
    }

    /// The invasion is over: no alien moves any more, or no city is left.
    pub fn is_over(&self) -> (r: bool)
        ensures
            r == (self.cities@.len() == 0 || forall|j: int| 0 <= j < self.aliens@.len() ==> !(#[trigger] self.aliens@[j]).active()),
    {
        if self.cities.len() == 0 {
            return true;
        }
        let mut j: usize = 0;
        while j < self.aliens.len()
            invariant
                j <= self.aliens@.len(),
                self.cities@.len() > 0,
                forall|i: int| 0 <= i < j ==> !(#[trigger] self.aliens@[i]).active(),
            decreases self.aliens@.len() - j,
        {
            if self.aliens[j].is_active() {
                assert(self.aliens@[j as int].active());
                return false;
            }
            j = j + 1;
        }
        true
    }

    fn load_word(&mut self, city: &String, w: &Vec<char>) -> (r: Result<(), AppError>)
        requires
            old(self).wf(),
            live(old(self).graph(), city@),
        ensures
            final(self).wf(),
            final(self).aliens == old(self).aliens,
            match load_token(old(self).graph(), city@, w@) {
                Ok(g) => r is Ok && final(self).graph() == g,
                Err(e) => r == Err::<(), AppError>(e),
            },
    {
        let parts = split(w, EQUALS);
        let ghost ps = parts@.map_values(|v: Vec<char>| v@);
        if parts.len() != 2 {
            return Ok(());
        }
        assert(ps[0] == parts@[0]@ && ps[1] == parts@[1]@);
        match direction_of(&parts[0]) {
            None => Err(AppError::WrongDirection),
            Some(d) => {
                let dest = string_of(&parts[1]);
                self.link(city, d, &dest)
            },
        }
    }

    fn load_one_line(&mut self, line: &Vec<char>) -> (r: Result<(), AppError>)
        requires
            old(self).wf(),
        ensures
            final(self).wf(),
            final(self).aliens == old(self).aliens,
            match load_line(old(self).graph(), line@) {
                Ok(g) => r is Ok && final(self).graph() == g,
                Err(e) => r == Err::<(), AppError>(e),
            },
    {
        let pieces = split(line, BLANKS);
        let ws = keep_non_empty(&pieces);
        let ghost wv = ws@.map_values(|v: Vec<char>| v@);
        assert(wv == words(line@));
        if ws.len() == 0 {
            return Ok(());
        }
        assert(wv[0] == ws@[0]@);
        let city = string_of(&ws[0]);
        proof {
            lemma_with_city_wf(self.graph(), city@);
        }
        self.add_city(&city);
        let ghost g1 = self.graph();
        let ghost toks = wv.subrange(1, wv.len() as int);
        let mut k: usize = 1;
        while k < ws.len()
            invariant
                1 <= k <= ws@.len(),
                wv == ws@.map_values(|v: Vec<char>| v@),
                toks == wv.subrange(1, wv.len() as int),
                city@ == wv[0],
                live(g1, city@),
                g1 == with_city(old(self).graph(), wv[0]),
                wv == words(line@),
                wv.len() > 0,
                self.wf(),
                self.aliens == old(self).aliens,
                load_tokens(g1, city@, toks.take(k - 1)) == Ok::<Seq<CityView>, AppError>(self.graph()),
                forall|m: Seq<char>| live(g1, m) ==> live(self.graph(), m),
            decreases ws@.len() - k,
        {
            assert(toks.take(k as int).drop_last() =~= toks.take(k - 1));
            assert(toks.take(k as int).last() == ws@[k as int]@);
            let ghost before = self.graph();
            proof {
                lemma_with_city_wf(before, city@);
            }
            let r = self.load_word(&city, &ws[k]);
            assert(load_tokens(g1, city@, toks.take(k as int)) == load_token(before, city@, ws@[k as int]@));
            if r.is_err() {
                proof {
                    lemma_tokens_error(g1, city@, toks, k as int);
                    assert(g1 == with_city(old(self).graph(), wv[0]));
                    assert(load_tokens(g1, city@, toks) == load_line(old(self).graph(), line@));
                }
                return r;
            }
            proof {
                let t = ws@[k as int]@;
                let parts = split_by(t, EQUALS);
                if parts.len() == 2 {
                    let d = direction_named(parts[0])->0;
                    lemma_linked_wf(before, city@, d, parts[1]);
                    lemma_with_city_wf(before, parts[1]);
                }
            }
            k = k + 1;
        }
        assert(toks.take(k - 1) =~= toks);
        Ok(())
    }

    /// Loads a map text into the graph: one city per line, its name first,
    /// then route tokens `direction=destination` separated by blanks. Each
    /// route token lays a two-way road and registers its destination. Words
    /// that are not route tokens are skipped. The first unknown direction, or
    /// road that would replace another, stops the load with that error.
    pub fn load_map(&mut self, file: String) -> (r: Result<(), AppError>)
        requires
            old(self).wf(),
        ensures
            final(self).wf(),
            final(self).aliens == old(self).aliens,
            match load_text(old(self).graph(), file@) {
                Ok(g) => r is Ok && final(self).graph() == g,
                Err(e) => r == Err::<(), AppError>(e),
            },
    {
        let ghost g0 = self.graph();
        let text = chars_of(file.as_str());
        let lines = split(&text, LINES);
        let ghost ls = lines@.map_values(|v: Vec<char>| v@);
        let mut i: usize = 0;
        while i < lines.len()
            invariant
                i <= lines@.len(),
                ls == lines@.map_values(|v: Vec<char>| v@),
                ls == split_by(file@, LINES),
                g0 == old(self).graph(),
                self.wf(),
                self.aliens == old(self).aliens,
                load_lines(g0, ls.take(i as int)) == Ok::<Seq<CityView>, AppError>(self.graph()),
            decreases lines@.len() - i,
        {
            assert(ls.take(i as int + 1).drop_last() =~= ls.take(i as int));
            assert(ls.take(i as int + 1).last() == lines@[i as int]@);
            let ghost before = self.graph();
            let r = self.load_one_line(&lines[i]);
            assert(load_lines(g0, ls.take(i as int + 1)) == load_line(before, lines@[i as int]@));
            if r.is_err() {
                proof {
                    lemma_lines_error(g0, ls, i as int + 1);
                    assert(load_lines(g0, ls) == load_text(old(self).graph(), file@));
                }
                return r;
            }
            i = i + 1;
        }
        assert(ls.take(i as int) =~= ls);
        Ok(())
    }

    fn append_route(out: &mut String, d: Direction, o: &Option<String>)
        ensures
            final(out)@ == old(out)@ + route_text(d, crate::city::opt_view(*o)),
    {
        proof {
            reveal_strlit(" ");
            reveal_strlit("=");
        }
        match o {
            Some(n) => {
                out.append(" ");
                out.append(direction_text(d));
                out.append("=");
                out.append(n.as_str());
                assert(final(out)@ =~= old(out)@ + route_text(d, crate::city::opt_view(*o)));
            },
            None => {
                assert(old(out)@ + route_text(d, crate::city::opt_view(*o)) =~= old(out)@);
            },
        }
    }

    /// The map as text in the format that `load_map` reads: one line per
    /// live city, its name followed by its roads, north, south, east, west.
    pub fn map_file_text(&self) -> (r: String)
        ensures
            r@ == map_text(self.graph()),
    {
        let mut out = String::new();
        let mut i: usize = 0;
        while i < self.cities.len()
            invariant
                i <= self.cities@.len(),
                out@ == map_text(self.graph().take(i as int)),
            decreases self.cities@.len() - i,
        {
            assert(self.graph().take(i as int + 1).drop_last() =~= self.graph().take(i as int));
            let c = &self.cities[i];
            let ghost before = out@;
            let ghost v = self.graph()[i as int];
            assert(v == c@);
            out.append(c.name.as_str());
            assert(out@ =~= before + v.name);
            World::append_route(&mut out, Direction::North, &c.north);
            assert(out@ =~= before + (v.name + route_text(Direction::North, v.north)));
            World::append_route(&mut out, Direction::South, &c.south);
            assert(out@ =~= before + (v.name + route_text(Direction::North, v.north) + route_text(Direction::South, v.south)));
            World::append_route(&mut out, Direction::East, &c.east);
            assert(out@ =~= before + (v.name + route_text(Direction::North, v.north) + route_text(Direction::South, v.south)
                + route_text(Direction::East, v.east)));
            World::append_route(&mut out, Direction::West, &c.west);
            assert(out@ =~= before + (v.name + route_text(Direction::North, v.north) + route_text(Direction::South, v.south)
                + route_text(Direction::East, v.east) + route_text(Direction::West, v.west)));
            let nl = "\n";
            proof {
                reveal_strlit("\n");
            }
            assert(nl@ =~= seq!['\n']);
            out.append(nl);
            assert(out@ =~= before + city_line(v));
            i = i + 1;
        }
        assert(self.graph().take(i as int) =~= self.graph());
        out
    }

    fn append_report_route(out: &mut String, d: Direction, o: &Option<String>)
        ensures
            final(out)@ == old(out)@ + report_route(d, crate::city::opt_view(*o)),
    {
        proof {
            reveal_strlit("  ");
            reveal_strlit(" -> ");
            reveal_strlit("\n");
        }
        match o {
            Some(n) => {
                out.append("  ");
                out.append(direction_label_text(d));
                out.append(" -> ");
                out.append(n.as_str());
                out.append("\n");
                assert(final(out)@ =~= old(out)@ + report_route(d, crate::city::opt_view(*o)));
            },
            None => {
                assert(old(out)@ + report_route(d, crate::city::opt_view(*o)) =~= old(out)@);
            },
        }
    }

    /// A report of the map: for each live city a line `name:`, then one
    /// line `  Direction -> destination` per road, north, south, east, west.
    pub fn render_map(&self) -> (r: String)
        ensures
            r@ == report(self.graph()),
    {
        let mut out = String::new();
        let mut i: usize = 0;
        while i < self.cities.len()
            invariant
                i <= self.cities@.len(),
                out@ == report(self.graph().take(i as int)),
            decreases self.cities@.len() - i,
        {
            assert(self.graph().take(i as int + 1).drop_last() =~= self.graph().take(i as int));
            let c = &self.cities[i];
            let ghost before = out@;
            let ghost v = self.graph()[i as int];
            assert(v == c@);
            let head = ":\n";
            proof {
                reveal_strlit(":\n");
            }
            assert(head@ =~= seq![':', '\n']);
            out.append(c.name.as_str());
            out.append(head);
            assert(out@ =~= before + (v.name + seq![':', '\n']));
            World::append_report_route(&mut out, Direction::North, &c.north);
            assert(out@ =~= before + (v.name + seq![':', '\n'] + report_route(Direction::North, v.north)));
            World::append_report_route(&mut out, Direction::South, &c.south);
            assert(out@ =~= before + (v.name + seq![':', '\n'] + report_route(Direction::North, v.north)
                + report_route(Direction::South, v.south)));
            World::append_report_route(&mut out, Direction::East, &c.east);
            assert(out@ =~= before + (v.name + seq![':', '\n'] + report_route(Direction::North, v.north)
                + report_route(Direction::South, v.south) + report_route(Direction::East, v.east)));
            World::append_report_route(&mut out, Direction::West, &c.west);
            assert(out@ =~= before + report_city(v));
            i = i + 1;
        }
        assert(self.graph().take(i as int) =~= self.graph());
        out
    }

    /// Removes the city called `city_name` and every road that led to it.
    /// The aliens are left as they are.
    pub fn destroy_city(&mut self, city_name: &String)
        requires
            registry_wf(old(self).graph()),
        ensures
            final(self).graph() == destroyed(old(self).graph(), city_name@),
            registry_wf(final(self).graph()),
            final(self).aliens == old(self).aliens,
    {
        let ghost g = self.graph();
        let mut out: Vec<City> = Vec::new();
        let mut i: usize = 0;
        while i < self.cities.len()
            invariant
                i <= self.cities@.len(),
                g == self.graph(),
                Seq::new(out@.len(), |k: int| out@[k]@) == destroyed(g.take(i as int), city_name@),
            decreases self.cities@.len() - i,
        {
            assert(g.take(i as int + 1).drop_last() =~= g.take(i as int));
            if !(self.cities[i].name == *city_name) {
                let mut c = self.cities[i].copy();
                c.prune(city_name);
                out.push(c);
                assert(Seq::new(out@.len(), |k: int| out@[k]@) =~= destroyed(g.take(i as int), city_name@).push(g[i as int].pruned(city_name@)));
            }
            i = i + 1;
        }
        assert(g.take(i as int) =~= g);
        self.cities = out;
        proof {
            lemma_destroyed_wf(g, city_name@);
        }
    }

    /// Lays a two-way road: from `from` in `direction` to `to`, and from `to`
    /// in the opposite direction back to `from`. `to` is registered if new.
    /// Laying a road that is already there changes nothing. If either end
    /// already has a road in that slot to a third city, nothing changes and
    /// the result is `RouteAlreadyExists`.
    pub fn link(&mut self, from: &String, direction: Direction, to: &String) -> (r: Result<(), AppError>)
        requires
            old(self).wf(),
            live(old(self).graph(), from@),
        ensures
            final(self).wf(),
            final(self).aliens == old(self).aliens,
            r is Err <==> link_conflict(old(self).graph(), from@, direction, to@),
            r is Err ==> r == Err::<(), AppError>(AppError::RouteAlreadyExists) && final(self).graph() == old(self).graph(),
            r is Ok ==> final(self).graph() == linked(old(self).graph(), from@, direction, to@),
    {
        let ghost g = self.graph();
        let back = direction.get_opposite();
        let ix = self.find_city(from).unwrap();
        if self.cities[ix].conflicts(direction, to) {
            assert(link_conflict(g, from@, direction, to@)) by {
                assert(g[ix as int] == self.cities@[ix as int]@);
            }
            return Err(AppError::RouteAlreadyExists);
        }
        match self.find_city(to) {
            Some(iy) => {
                if self.cities[iy].conflicts(back, from) {
                    assert(blocked(g, to@, opposite(direction), from@)) by {
                        assert(g[iy as int] == self.cities@[iy as int]@);
                    }
                    return Err(AppError::RouteAlreadyExists);
                }
            },
            None => {},
        }
        assert(!link_conflict(g, from@, direction, to@)) by {
            if blocked(g, from@, direction, to@) {
                let i = choose|i: int| 0 <= i < g.len() && (#[trigger] g[i]).name == from@ && g[i].route(direction) is Some && g[i].route(direction) != Some(to@);
            }
            if blocked(g, to@, opposite(direction), from@) {
                let i = choose|i: int| 0 <= i < g.len() && (#[trigger] g[i]).name == to@ && g[i].route(opposite(direction)) is Some && g[i].route(opposite(direction)) != Some(from@);
            }
        }
        proof {
            lemma_with_city_wf(g, to@);
            lemma_linked_wf(g, from@, direction, to@);
        }
        self.add_city(to);
        let ghost g1 = self.graph();
        let iy = self.find_city(to).unwrap();
        assert(g1[ix as int] == g[ix as int]);
        let _ = self.cities[ix].set_destinations(direction, to);
        let ghost g2 = self.graph();
        assert(g2 =~= g1.update(ix as int, g1[ix as int].with_route(direction, Some(to@))));
        assert(g2[iy as int].route(back) is None || g2[iy as int].route(back) == Some(from@)) by {
            if ix != iy {
                assert(g2[iy as int] == g1[iy as int]);
                if (iy as int) < g.len() {
                    assert(g1[iy as int] == g[iy as int]);
                }
            } else {
                match direction {
                    Direction::North => {},
                    Direction::South => {},
                    Direction::East => {},
                    Direction::West => {},
                }
            }
        }
        let _ = self.cities[iy].set_destinations(back, from);
        assert(self.graph() =~= g2.update(iy as int, g2[iy as int].with_route(back, Some(from@))));
        assert(self.graph() =~= linked(g, from@, direction, to@)) by {
            assert forall|i: int| 0 <= i < g1.len() implies #[trigger] self.graph()[i] == linked(g, from@, direction, to@)[i] by {
                assert(g1[i].name == from@ ==> i == ix);
                assert(g1[i].name == to@ ==> i == iy);
                match direction {
                    Direction::North => {},
                    Direction::South => {},
                    Direction::East => {},
                    Direction::West => {},
                }
            }
        }
        proof {
            assert forall|j: int| 0 <= j < self.aliens@.len() && (#[trigger] self.aliens@[j]).active() implies live(
                self.graph(), self.aliens@[j].current_city@) by {
                assert(live(g, self.aliens@[j].current_city@));
            }
        }
        Ok(())
    }
}

} // verus!
