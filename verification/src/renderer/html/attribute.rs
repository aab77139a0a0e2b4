//! An attribute of a start tag.

use vstd::prelude::*;

verus! {

/// An attribute, as sequences of characters.
pub struct AttributeView {
    pub name: Seq<char>,
    pub value: Seq<char>,
}

/// An attribute of a start tag: a name and a value.
#[derive(Debug, PartialEq, Eq)]
pub struct Attribute {
    name: String,
    value: String,
}

impl View for Attribute {
    type V = AttributeView;

    closed spec fn view(&self) -> AttributeView {
        AttributeView { name: self.name@, value: self.value@ }
    }
}

impl Clone for Attribute {
    fn clone(&self) -> (copy: Self)
        ensures
            copy == *self,
    {
        Attribute { name: self.name.clone(), value: self.value.clone() }
    }
}

impl Attribute {
    /// The attribute of the given name and value.
    pub fn new(name: String, value: String) -> (attribute: Self)
        ensures
            attribute@ == (AttributeView { name: name@, value: value@ }),
    {
        Self { name, value }
    }

    /// The attribute's name.
    pub fn name(&self) -> (s: String)
        ensures
            s@ == self@.name,
    {
        self.name.clone()
    }

    /// The attribute's value.
    pub fn value(&self) -> (s: String)
        ensures
            s@ == self@.value,
    {
        self.value.clone()
    }
}

/// The attributes of a list, each as sequences of characters.
pub open spec fn attribute_views(attributes: Seq<Attribute>) -> Seq<AttributeView> {
    Seq::new(attributes.len(), |i: int| attributes[i]@)
}

} // verus!
