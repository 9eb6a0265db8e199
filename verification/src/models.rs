//! The record that travels from a CSV row to a published message.

use vstd::prelude::*;

verus! {

/// One row of an input file.
///
/// In the input the three columns are labelled `Id`, `Name` and `Age`; in a
/// published message the fields are called `id`, `name` and `age`.
#[derive(Debug, PartialEq, Eq)]
pub struct Person {
    pub id: u64,
    pub first_name: String,
    pub age: u8,
}

/// The mathematical value of a [`Person`].
pub ghost struct PersonModel {
    pub id: u64,
    pub first_name: Seq<char>,
    pub age: u8,
}

impl View for Person {
    type V = PersonModel;

    open spec fn view(&self) -> PersonModel {
        PersonModel { id: self.id, first_name: self.first_name@, age: self.age }
    }
}

impl DeepView for Person {
    type V = PersonModel;

    open spec fn deep_view(&self) -> PersonModel {
        self@
    }
}

} // verus!
