//! Values of classes.

use crate::runtime::instance::copy_members;
use crate::runtime::instance::members_view;
use crate::runtime::instance::Instance;
use vstd::prelude::*;

verus! {

/// A value of a class: the class by its number, and the values of its
/// dependencies by name.
#[derive(Debug)]
pub struct ClassInstance {
    pub class: usize,
    pub dependencies: Vec<(String, Instance)>,
}

impl ClassInstance {
    pub fn new(class: usize, dependencies: Vec<(String, Instance)>) -> (r: Self)
        ensures
            r.class == class,
            r.dependencies == dependencies,
    {
        Self { class, dependencies }
    }

    /// The number of the class.
    pub fn class(&self) -> (r: usize)
        ensures
            r == self.class,
    {
        self.class
    }

    /// A copy of the dependencies.
    pub fn dependencies(&self) -> (r: Vec<(String, Instance)>)
        ensures
            members_view(r@) == members_view(self.dependencies@),
    {
        copy_members(&self.dependencies)
    }
}

} // verus!
