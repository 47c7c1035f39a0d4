use crate::direction::Direction;
use crate::error::AppError;
use vstd::prelude::*;

verus! {

/// What a city is, as far as the route graph is concerned: its name and,
/// for each direction, the name of the city a road leads to, if any.
pub struct CityView {
    pub name: Seq<char>,
    pub north: Option<Seq<char>>,
    pub south: Option<Seq<char>>,
    pub east: Option<Seq<char>>,
    pub west: Option<Seq<char>>,
}

impl CityView {
    /// A city with the given name and no roads.
    pub open spec fn empty(name: Seq<char>) -> CityView {
        CityView { name, north: None, south: None, east: None, west: None }
    }

    pub open spec fn route(self, d: Direction) -> Option<Seq<char>> {
        match d {
            Direction::North => self.north,
            Direction::South => self.south,
            Direction::East => self.east,
            Direction::West => self.west,
        }
    }

    /// The same city with the road in direction `d` replaced by `to`.
    pub open spec fn with_route(self, d: Direction, to: Option<Seq<char>>) -> CityView {
        match d {
            Direction::North => CityView { north: to, ..self },
            Direction::South => CityView { south: to, ..self },
            Direction::East => CityView { east: to, ..self },
            Direction::West => CityView { west: to, ..self },
        }
    }

    /// No road leaves this city.
    pub open spec fn is_isolated(self) -> bool {
        &&& self.north is None
        &&& self.south is None
        &&& self.east is None
        &&& self.west is None
    }

    /// The same city with every road that leads to `gone` removed.
    pub open spec fn pruned(self, gone: Seq<char>) -> CityView {
        CityView {
            name: self.name,
            north: prune_slot(self.north, gone),
            south: prune_slot(self.south, gone),
            east: prune_slot(self.east, gone),
            west: prune_slot(self.west, gone),
        }
    }
}

pub open spec fn prune_slot(slot: Option<Seq<char>>, gone: Seq<char>) -> Option<Seq<char>> {
    if slot == Some(gone) {
        None
    } else {
        slot
    }
}

pub open spec fn opt_view(o: Option<String>) -> Option<Seq<char>> {
    match o {
        Some(s) => Some(s@),
        None => None,
    }
}

/// A named city and the roads that leave it, one at most per direction.
#[derive(Debug, Clone)]
pub struct City {
    pub name: String,
    pub is_destroyed: bool,
    pub north: Option<String>,
    pub south: Option<String>,
    pub east: Option<String>,
    pub west: Option<String>,
}

impl View for City {
    type V = CityView;

    open spec fn view(&self) -> CityView {
        CityView {
            name: self.name@,
            north: opt_view(self.north),
            south: opt_view(self.south),
            east: opt_view(self.east),
            west: opt_view(self.west),
        }
    }
}

/// A copy of an optional name, with the same text.
fn copy_slot(o: &Option<String>) -> (r: Option<String>)
    ensures
        opt_view(r) == opt_view(*o),
{
    match o {
        Some(s) => Some(s.clone()),
        None => None,
    }
}

/// Whether an optional name is present and differs from `to`.
fn slot_conflicts(o: &Option<String>, to: &String) -> (r: bool)
    ensures
        r == (opt_view(*o) is Some && opt_view(*o) != Some(to@)),
{
    match o {
        Some(s) => !(*s == *to),
        None => false,
    }
}

impl City {
    pub fn new(name: String) -> (r: City)
        ensures
            r@ == CityView::empty(name@),
            !r.is_destroyed,
    {
        City { name, is_destroyed: false, north: None, south: None, east: None, west: None }
    }

    /// The destination of the road in direction `d`, if any.
    pub fn route(&self, d: Direction) -> (r: Option<String>)
        ensures
            opt_view(r) == self@.route(d),
    {
        match d {
            Direction::North => copy_slot(&self.north),
            Direction::South => copy_slot(&self.south),
            Direction::East => copy_slot(&self.east),
            Direction::West => copy_slot(&self.west),
        }
    }

    /// Whether setting the road in direction `d` to `to` would replace a
    /// road that leads somewhere else.
    pub fn conflicts(&self, d: Direction, to: &String) -> (r: bool)
        ensures
            r == (self@.route(d) is Some && self@.route(d) != Some(to@)),
    {
        match d {
            Direction::North => slot_conflicts(&self.north, to),
            Direction::South => slot_conflicts(&self.south, to),
            Direction::East => slot_conflicts(&self.east, to),
            Direction::West => slot_conflicts(&self.west, to),
        }
    }

    /// Lays a road from this city in `direction` to `destination`.
    /// Laying a road that is already there changes nothing; a road in that
    /// direction to another city is an error and leaves the city as it was.
    pub fn set_destinations(&mut self, direction: Direction, destination: &String) -> (r: Result<(), AppError>)
        ensures
            final(self).is_destroyed == old(self).is_destroyed,
            old(self)@.route(direction) is Some && old(self)@.route(direction) != Some(destination@)
                ==> r == Err::<(), AppError>(AppError::RouteAlreadyExists) && final(self)@ == old(self)@,
            !(old(self)@.route(direction) is Some && old(self)@.route(direction) != Some(destination@))
                ==> r is Ok && final(self)@ == old(self)@.with_route(direction, Some(destination@)),
    {
        if self.conflicts(direction, destination) {
            return Err(AppError::RouteAlreadyExists);
        }
        let to = Some(destination.clone());
        match direction {
            Direction::North => self.north = to,
            Direction::South => self.south = to,
            Direction::East => self.east = to,
            Direction::West => self.west = to,
        }
        Ok(())
    }

    /// Removes the road in direction `d` if it leads to `gone`.
    fn prune_route(&mut self, d: Direction, gone: &String)
        ensures
            final(self).is_destroyed == old(self).is_destroyed,
            final(self)@ == old(self)@.with_route(d, prune_slot(old(self)@.route(d), gone@)),
    {
        let hit = match d {
            Direction::North => match &self.north { Some(s) => *s == *gone, None => false },
            Direction::South => match &self.south { Some(s) => *s == *gone, None => false },
            Direction::East => match &self.east { Some(s) => *s == *gone, None => false },
            Direction::West => match &self.west { Some(s) => *s == *gone, None => false },
        };
        if hit {
            match d {
                Direction::North => self.north = None,
                Direction::South => self.south = None,
                Direction::East => self.east = None,
                Direction::West => self.west = None,
            }
        }
    }

    /// Removes every road of this city that leads to `gone`.
    pub fn prune(&mut self, gone: &String)
        ensures
            final(self).is_destroyed == old(self).is_destroyed,
            final(self)@ == old(self)@.pruned(gone@),
    {
        self.prune_route(Direction::North, gone);
        self.prune_route(Direction::South, gone);
        self.prune_route(Direction::East, gone);
        self.prune_route(Direction::West, gone);
    }

    /// A copy of this city with the same name, roads and state.
    pub fn copy(&self) -> (r: City)
        ensures
            r@ == self@,
            r.is_destroyed == self.is_destroyed,
    {
        City {
            name: self.name.clone(),
            is_destroyed: self.is_destroyed,
            north: copy_slot(&self.north),
            south: copy_slot(&self.south),
            east: copy_slot(&self.east),
            west: copy_slot(&self.west),
        }
    }

    /// Marks the city destroyed and removes all of its roads.
    pub fn destroy_self(&mut self)
        ensures
            final(self).is_destroyed,
            final(self)@ == CityView::empty(old(self)@.name),
    {
        self.is_destroyed = true;
        self.north = None;
        self.south = None;
        self.east = None;
        self.west = None;
    }
}

} // verus!
