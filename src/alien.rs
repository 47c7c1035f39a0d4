use vstd::prelude::*;

verus! {

/// An invader: its name, the city it stands in, and its two terminal states.
#[derive(Debug, Clone)]
pub struct Alien {
    pub name: String,
    pub current_city: String,
    pub is_trapped: bool,
    pub is_dead: bool,
}

impl Alien {
    pub fn new(name: &str, current_city: &str) -> (r: Alien)
        ensures
            r.name@ == name@,
            r.current_city@ == current_city@,
            !r.is_trapped,
            !r.is_dead,
    {
        Alien {
            name: name.to_owned(),
            current_city: current_city.to_owned(),
            is_trapped: false,
            is_dead: false,
        }
    }

    /// Neither dead nor trapped: the alien still moves.
    pub open spec fn active(&self) -> bool {
        !self.is_dead && !self.is_trapped
    }

    pub fn is_active(&self) -> (r: bool)
        ensures
            r == self.active(),
    {
        !self.is_dead && !self.is_trapped
    }
}

} // verus!
