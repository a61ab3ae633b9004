//! Memories: the values of variables and the contents of arrays.

use vstd::prelude::*;
use crate::names::{NameMap, copy_ints};

verus! {

/// What a memory denotes: the value of each variable and the contents of
/// each array.
pub type MemoryModel = (Map<Seq<char>, i64>, Map<Seq<char>, Seq<i64>>);

/// The values of variables and the contents of arrays.
#[derive(Debug)]
pub struct Memory {
    variables: NameMap<i64>,
    arrays: NameMap<Vec<i64>>,
}

impl View for Memory {
    type V = MemoryModel;

    closed spec fn view(&self) -> MemoryModel {
        (self.variables@, self.arrays@)
    }
}

impl Memory {
    /// Each variable and each array has one entry.
    pub closed spec fn wf(&self) -> bool {
        self.variables.wf() && self.arrays.wf()
    }

    /// The variables, in the order in which they were first set.
    pub closed spec fn variables_spec(&self) -> NameMap<i64> {
        self.variables
    }

    /// The arrays, in the order in which they were first set.
    pub closed spec fn arrays_spec(&self) -> NameMap<Vec<i64>> {
        self.arrays
    }

    /// The empty memory.
    pub fn new() -> (r: Memory)
        ensures
            r.wf(),
            r@.0 == Map::<Seq<char>, i64>::empty(),
            r@.1 == Map::<Seq<char>, Seq<i64>>::empty(),
    {
        Memory { variables: NameMap::new(), arrays: NameMap::new() }
    }

    /// The variables.
    pub fn variables(&self) -> (r: &NameMap<i64>)
        ensures
            *r == self.variables_spec(),
    {
        &self.variables
    }

    /// The arrays.
    pub fn arrays(&self) -> (r: &NameMap<Vec<i64>>)
        ensures
            *r == self.arrays_spec(),
    {
        &self.arrays
    }

    /// Sets the variable `name` to `value`.
    pub fn set_variable(&mut self, name: String, value: i64)
        requires
            old(self).wf(),
        ensures
            final(self).wf(),
            final(self)@ == (old(self)@.0.insert(name@, value), old(self)@.1),
    {
        self.variables.insert(name, value);
    }

    /// Sets the contents of the array `name` to `values`.
    pub fn set_array(&mut self, name: String, values: Vec<i64>)
        requires
            old(self).wf(),
        ensures
            final(self).wf(),
            final(self)@ == (old(self)@.0, old(self)@.1.insert(name@, values@)),
    {
        self.arrays.insert(name, values);
    }

    /// The value of the variable `name`.
    pub fn variable(&self, name: &str) -> (r: Option<i64>)
        requires
            self.wf(),
        ensures
            r == (if self@.0.contains_key(name@) {
                Some(self@.0[name@])
            } else {
                None
            }),
    {
        match self.variables.get(name) {
            Some(v) => Some(*v),
            None => None,
        }
    }

    /// The contents of the array `name`.
    pub fn array(&self, name: &str) -> (r: Option<&Vec<i64>>)
        requires
            self.wf(),
        ensures
            match r {
                Some(v) => self@.1.contains_key(name@) && self@.1[name@] == v@,
                None => !self@.1.contains_key(name@),
            },
    {
        self.arrays.get(name)
    }

    /// A copy of the memory.
    pub fn copy(&self) -> (r: Memory)
        requires
            self.wf(),
        ensures
            r.wf(),
            r@ == self@,
    {
        Memory { variables: self.variables.copy(), arrays: self.arrays.copy() }
    }

    /// Whether both memories hold the same variables and arrays with the
    /// same values, whatever the order in which they were set.
    pub fn same_as(&self, other: &Memory) -> (r: bool)
        requires
            self.wf(),
            other.wf(),
        ensures
            r == (self@ == other@),
    {
        let v = self.variables.same_as(&other.variables);
        let a = self.arrays.same_as(&other.arrays);
        v && a
    }

    /// Sets element `index` of the array `name`, which must exist and
    /// hold that index.
    pub fn set_element(&mut self, name: &str, index: usize, value: i64)
        requires
            old(self).wf(),
            old(self)@.1.contains_key(name@),
            index < old(self)@.1[name@].len(),
        ensures
            final(self).wf(),
            final(self)@ == (
                old(self)@.0,
                old(self)@.1.insert(name@, old(self)@.1[name@].update(index as int, value)),
            ),
    {
        let mut values = match self.arrays.get(name) {
            Some(v) => copy_ints(v),
            None => Vec::new(),
        };
        values.set(index, value);
        let key = name.to_string();
        self.arrays.insert(key, values);
    }
}

} // verus!
