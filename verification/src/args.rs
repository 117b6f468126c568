//! The arguments that a command was given.

use crate::text;
use vstd::hash_map::StringHashMap;
use vstd::prelude::*;

verus! {

/// The arguments of a command, as they were given: the values of each, by its name.
pub struct Matches {
    values: StringHashMap<Vec<String>>,
}

impl View for Matches {
    type V = Map<Seq<char>, Seq<Seq<char>>>;

    closed spec fn view(&self) -> Map<Seq<char>, Seq<Seq<char>>> {
        self.values@.map_values(|list: Vec<String>| text::texts(list@))
    }
}

/// The first value of an argument.
pub open spec fn one_value(given: Map<Seq<char>, Seq<Seq<char>>>, name: Seq<char>) -> Option<
    Seq<char>,
> {
    if given.contains_key(name) && given[name].len() > 0 {
        Some(given[name][0])
    } else {
        None
    }
}

/// All values of an argument.
pub open spec fn all_values(given: Map<Seq<char>, Seq<Seq<char>>>, name: Seq<char>) -> Option<
    Seq<Seq<char>>,
> {
    if given.contains_key(name) {
        Some(given[name])
    } else {
        None
    }
}

impl Matches {
    /// No arguments.
    pub fn new() -> (r: Matches)
        ensures
            r@ == Map::<Seq<char>, Seq<Seq<char>>>::empty(),
    {
        let r = Matches { values: StringHashMap::new() };
        proof {
            assert(r@ =~= Map::<Seq<char>, Seq<Seq<char>>>::empty());
        }
        r
    }

    /// Sets the values of an argument.
    pub fn set(&mut self, name: String, values: Vec<String>)
        ensures
            final(self)@ == old(self)@.insert(name@, text::texts(values@)),
    {
        let ghost before = self@;
        let ghost key = name@;
        let ghost list = text::texts(values@);
        self.values.insert(name, values);
        proof {
            assert(self@ =~= before.insert(key, list));
        }
    }

    /// The first value of an argument.
    pub fn get_one(&self, name: &str) -> (r: Option<&str>)
        ensures
            text::text_of(r) == one_value(self@, name@),
    {
        match self.values.get(name) {
            Some(list) => if list.len() > 0 {
                Some(list[0].as_str())
            } else {
                None
            },
            None => None,
        }
    }

    /// All values of an argument.
    pub fn get_many(&self, name: &str) -> (r: Option<&Vec<String>>)
        ensures
            match r {
                Some(list) => all_values(self@, name@) == Some(text::texts(list@)),
                None => all_values(self@, name@) is None,
            },
    {
        self.values.get(name)
    }
}

} // verus!
