use crate::memory::Heap;
use crate::memory::Ref;
use crate::text::append;
use vstd::prelude::*;

verus! {

/// An object that lives on the heap. Strings are the only kind.
///
/// `==` on objects is that of their handles: it compares places, not
/// texts. [`crate::value::Value::equals`] compares objects as the language
/// does, by their texts.
#[derive(Clone, Copy, PartialEq, Eq, Structural, Debug)]
pub enum Obj {
    LString(Ref),
}

impl Obj {
    /// The handle of the string that this object is.
    pub open spec fn handle(self) -> Ref {
        match self {
            Obj::LString(r) => r,
        }
    }

    /// The object as a listing of code shows it: a string between double
    /// quotes.
    pub open spec fn quoted(self, objects: Seq<Seq<u8>>) -> Seq<u8> {
        seq!['"' as u8] + objects[self.handle().index as int] + seq!['"' as u8]
    }

    /// The text of the object as a listing of code shows it.
    pub fn print_obj(&self, heap: &Heap) -> (text: Vec<u8>)
        requires
            heap.holds(self.handle()),
        ensures
            text@ == self.quoted(heap.objects()),
    {
        match self {
            Obj::LString(s) => {
                let mut text: Vec<u8> = Vec::new();
                text.push('"' as u8);
                append(&mut text, s.obj(heap).as_slice());
                text.push('"' as u8);
                assert(text@ =~= self.quoted(heap.objects()));
                text
            },
        }
    }
}

} // verus!
