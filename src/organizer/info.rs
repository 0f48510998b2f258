use vstd::prelude::*;

use crate::parser::types::YoyogayType;
use std::collections::HashMap;

verus! {

/// What is known of a project's functions, by name.
pub struct ProjectInfo {
    pub functions: HashMap<String, YoyogayFunction>,
}

pub struct YoyogayFunction {
    pub params: Vec<YoyogayParameter>,
    pub return_type: YoyogayType,
}

pub struct YoyogayParameter {
    pub name: String,
    pub param_type: YoyogayType,
}

} // verus!
