use vstd::prelude::*;

pub mod ast;
pub mod gamemaker;
pub mod laws;
pub mod organizer;
pub mod parser;
pub mod render;
pub mod spans;
pub mod text_data;
pub mod tokenizer;

verus! {

/// Moving a value into a box.
pub trait Boxxable: Sized {
    fn to_box(self) -> (r: Box<Self>)
        ensures
            *r == self,
    {
        Box::new(self)
    }
}

impl<T> Boxxable for T {

}

} // verus!
