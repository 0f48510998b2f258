use vstd::prelude::*;

pub mod compiler;

verus! {

/// A project laid out for the game engine: objects with their event code,
/// and scripts.
#[derive(Debug)]
pub struct GameMakerProject {
    pub objects: Vec<GameMakerObject>,
    pub scripts: Vec<GameMakerScript>,
}

#[derive(Debug)]
pub struct GameMakerObject {
    pub name: String,
    pub info: String,
    pub create: Option<String>,
    pub step: Option<String>,
    pub clean_up: Option<String>,
    pub draw: Option<String>,
    pub draw_gui: Option<String>,
}

#[derive(Debug)]
pub struct GameMakerScript {
    pub name: String,
    pub src: String,
    pub info: String,
}

impl GameMakerObject {
    pub fn new(
        name: String,
        info: String,
        create: Option<String>,
        step: Option<String>,
        clean_up: Option<String>,
        draw: Option<String>,
        draw_gui: Option<String>,
    ) -> (r: GameMakerObject)
        ensures
            r == (GameMakerObject { name, info, create, step, clean_up, draw, draw_gui }),
    {
        GameMakerObject { name, info, create, step, clean_up, draw, draw_gui }
    }
}

impl GameMakerScript {
    pub fn new(name: String, src: String, info: String) -> (r: GameMakerScript)
        ensures
            r == (GameMakerScript { name, src, info }),
    {
        GameMakerScript { name, src, info }
    }
}

} // verus!
