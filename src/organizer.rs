use vstd::prelude::*;

use crate::organizer::object::Object;

pub mod info;
pub mod object;

verus! {

/// The objects of a project, each with its parsed events.
#[derive(Debug)]
pub struct YoyogayProject {
    pub objects: Vec<Object>,
}

} // verus!
