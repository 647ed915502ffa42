use vstd::prelude::*;

use crate::grid::Position;

verus! {

/// Sex of an animal.  Owls carry a sex but no rule reads it.
#[derive(Clone, Copy, Debug, PartialEq, Eq, Structural)]
pub enum Sex {
    Male,
    Female,
}

/// A mouse.  `ticks_since_last_eaten` drives both the hunger override in the
/// movement rules and the starvation cull.
pub struct Mouse {
    pub id: String,
    pub age: u32,
    pub speed: u32,
    pub father: Option<String>,
    pub mother: Option<String>,
    pub location: Position,
    pub ticks_since_last_eaten: u32,
    pub sex: Sex,
}

/// An owl.  Owls die only of old age and never starve.
pub struct Owl {
    pub id: String,
    pub age: u32,
    pub speed: u32,
    pub father: Option<String>,
    pub mother: Option<String>,
    pub location: Position,
    pub ticks_since_last_eaten: u32,
    pub sex: Sex,
}

impl Mouse {
    pub fn new(
        id: String,
        age: u32,
        speed: u32,
        father: Option<String>,
        mother: Option<String>,
        location: Position,
        sex: Sex,
    ) -> (m: Mouse)
        ensures
            m.id == id,
            m.age == age,
            m.speed == speed,
            m.father == father,
            m.mother == mother,
            m.location == location,
            m.ticks_since_last_eaten == 0,
            m.sex == sex,
    {
        Mouse { id, age, speed, father, mother, location, ticks_since_last_eaten: 0, sex }
    }

    /// Board symbol for this mouse, colored by sex.
    pub fn symbol(&self) -> (r: &'static str)
        ensures
            self.sex == Sex::Female ==> r@ == "\x1b[35mM\x1b[0m"@,
            self.sex == Sex::Male ==> r@ == "\x1b[34mM\x1b[0m"@,
    {
        match self.sex {
            Sex::Female => "\x1b[35mM\x1b[0m",
            Sex::Male => "\x1b[34mM\x1b[0m",
        }
    }
}

impl Owl {
    pub fn new(
        id: String,
        age: u32,
        speed: u32,
        father: Option<String>,
        mother: Option<String>,
        location: Position,
        sex: Sex,
    ) -> (o: Owl)
        ensures
            o.id == id,
            o.age == age,
            o.speed == speed,
            o.father == father,
            o.mother == mother,
            o.location == location,
            o.ticks_since_last_eaten == 0,
            o.sex == sex,
    {
        Owl { id, age, speed, father, mother, location, ticks_since_last_eaten: 0, sex }
    }

    /// Board symbol for an owl.
    pub fn symbol(&self) -> (r: &'static str)
        ensures
            r@ == "\x1b[31mO\x1b[0m"@,
    {
        "\x1b[31mO\x1b[0m"
    }
}

/// An exact copy of an optional id.
fn clone_opt_string(o: &Option<String>) -> (r: Option<String>)
    ensures
        r == *o,
{
    match o {
        Option::Some(s) => Option::Some(s.clone()),
        Option::None => Option::None,
    }
}

impl Mouse {
    /// An exact copy.
    pub fn duplicate(&self) -> (r: Mouse)
        ensures
            r == *self,
    {
        Mouse {
            id: self.id.clone(),
            age: self.age,
            speed: self.speed,
            father: clone_opt_string(&self.father),
            mother: clone_opt_string(&self.mother),
            location: (self.location.0, self.location.1),
            ticks_since_last_eaten: self.ticks_since_last_eaten,
            sex: self.sex,
        }
    }
}

impl Owl {
    /// An exact copy.
    pub fn duplicate(&self) -> (r: Owl)
        ensures
            r == *self,
    {
        Owl {
            id: self.id.clone(),
            age: self.age,
            speed: self.speed,
            father: clone_opt_string(&self.father),
            mother: clone_opt_string(&self.mother),
            location: (self.location.0, self.location.1),
            ticks_since_last_eaten: self.ticks_since_last_eaten,
            sex: self.sex,
        }
    }
}

} // verus!
