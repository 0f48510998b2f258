use vstd::prelude::*;

use crate::gamemaker::{GameMakerObject, GameMakerProject};
use crate::organizer::object::{Event, Object};
use crate::organizer::YoyogayProject;

verus! {

pub open spec fn source_of(e: Option<Event>) -> Option<Seq<char>> {
    match e {
        Some(ev) => Some(ev.src@),
        None => None,
    }
}

pub open spec fn text_of(s: Option<String>) -> Option<Seq<char>> {
    match s {
        Some(t) => Some(t@),
        None => None,
    }
}

/// The engine object for `obj`: same name, an empty description, and each
/// event's source text.
pub open spec fn translates(g: GameMakerObject, obj: Object) -> bool {
    &&& g.name@ == obj.id@
    &&& g.info@ == "{}"@
    &&& text_of(g.create) == source_of(obj.create)
    &&& text_of(g.step) == source_of(obj.step)
    &&& text_of(g.draw) == source_of(obj.draw)
    &&& text_of(g.draw_gui) == source_of(obj.draw_gui)
    &&& text_of(g.clean_up) == source_of(obj.clean_up)
}

fn source_text(e: &Option<Event>) -> (r: Option<String>)
    ensures
        text_of(r) == source_of(*e),
{
    match e {
        Some(ev) => Some(ev.src.clone()),
        None => None,
    }
}

impl GameMakerProject {
    /// One engine object per object of `yoyogay_project`, in order, and no scripts.
    pub fn new_from_yoyogay_project(yoyogay_project: &YoyogayProject) -> (r: GameMakerProject)
        ensures
            r.objects@.len() == yoyogay_project.objects@.len(),
            forall|i: int|
                0 <= i < r.objects@.len() ==> translates(#[trigger] r.objects@[i], yoyogay_project.objects@[i]),
            r.scripts@.len() == 0,
    {
        let mut objects: Vec<GameMakerObject> = Vec::new();
        let mut i: usize = 0;
        while i < yoyogay_project.objects.len()
            invariant
                i <= yoyogay_project.objects@.len(),
                objects@.len() == i,
                forall|j: int| 0 <= j < i ==> translates(#[trigger] objects@[j], yoyogay_project.objects@[j]),
            decreases yoyogay_project.objects@.len() - i,
        {
            let obj = &yoyogay_project.objects[i];
            let info = "{}".to_owned();
            let g = GameMakerObject::new(
                obj.id.clone(),
                info,
                source_text(&obj.create),
                source_text(&obj.step),
                source_text(&obj.clean_up),
                source_text(&obj.draw),
                source_text(&obj.draw_gui),
            );
            objects.push(g);
            i = i + 1;
        }
        GameMakerProject { objects, scripts: Vec::new() }
    }
}

} // verus!
