//! Slot descriptors: the named, typed ports through which nodes
//! declare their data dependencies.

use vstd::prelude::*;

verus! {

/// The type tag carried by a slot, used to check that a data binding
/// connects compatible ports.
#[derive(Clone, Copy, Debug, PartialEq, Eq, Structural)]
pub enum DataKind {
    Texture,
    Buffer,
    Sampler,
}

/// One named input or output port on a node.
#[derive(Clone, Debug)]
pub struct SlotDescriptor {
    pub name: String,
    pub kind: DataKind,
}

/// Mathematical image of a slot descriptor.
#[verifier::ext_equal]
pub ghost struct SlotModel {
    pub name: Seq<char>,
    pub kind: DataKind,
}

impl View for SlotDescriptor {
    type V = SlotModel;

    open spec fn view(&self) -> SlotModel {
        SlotModel { name: self.name@, kind: self.kind }
    }
}

impl SlotDescriptor {
    /// Builds a descriptor for a port called `name` carrying `kind`.
    pub fn new(name: &str, kind: DataKind) -> (r: SlotDescriptor)
        ensures
            r@ == (SlotModel { name: name@, kind }),
    {
        SlotDescriptor { name: name.to_owned(), kind }
    }
}

/// How a caller refers to a slot of a node: by position in the node's
/// slot list, or by the slot's name.  Both forms resolve to the same
/// descriptor.
#[derive(Clone, Debug)]
pub enum SlotLabel {
    Index(usize),
    Name(String),
}

/// Mathematical image of a slot label.
pub ghost enum SlotLabelModel {
    Index(usize),
    Name(Seq<char>),
}

impl View for SlotLabel {
    type V = SlotLabelModel;

    open spec fn view(&self) -> SlotLabelModel {
        match *self {
            SlotLabel::Index(i) => SlotLabelModel::Index(i),
            SlotLabel::Name(n) => SlotLabelModel::Name(n@),
        }
    }
}

impl SlotLabel {
    /// Refers to a slot by its name.
    pub fn named(name: &str) -> (r: SlotLabel)
        ensures
            r@ == SlotLabelModel::Name(name@),
    {
        SlotLabel::Name(name.to_owned())
    }
}

} // verus!
