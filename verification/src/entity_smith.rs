use vstd::prelude::*;

verus! {

/// A component that carries no data, used to tag entities.
pub struct Marker;

/// A name given to an entity.
pub struct Name(String);

impl Name {
    /// A name made of `name`.
    pub fn new(name: String) -> (n: Name)
        ensures
            n@ == name@,
    {
        Name(name)
    }

    /// The text of the name.
    pub closed spec fn view(&self) -> Seq<char> {
        self.0@
    }

    /// The name as it is displayed: its text.
    pub fn to_string(&self) -> (s: String)
        ensures
            s@ == self@,
    {
        self.0.clone()
    }
}

} // verus!
