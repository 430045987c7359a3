use crate::method::{method_edited, MethodEdit};
use crate::parse_structures::{ClassProperty, Method, PrivateMethodId, PrivateVarId, Variable};
use vstd::prelude::*;

verus! {

/// Per-document private semantic state (methods, properties, variables).
///
/// This is used for private members that should not be shared across classes globally.
#[derive(Debug)]
pub struct LocalSemanticModel {
    pub methods: Vec<Method>,
    pub properties: Vec<ClassProperty>,
    pub variables: Vec<Variable>,
    pub active: bool,
}

impl LocalSemanticModel {
    /// Creates a new, empty `LocalSemanticModel` with `active` set to `true`.
    pub fn new() -> (r: Self)
        ensures
            r.methods@.len() == 0,
            r.properties@.len() == 0,
            r.variables@.len() == 0,
            r.active,
    {
        LocalSemanticModel {
            methods: Vec::new(),
            properties: Vec::new(),
            variables: Vec::new(),
            active: true,
        }
    }

    /// Clears all stored methods/properties/variables and marks the model as inactive.
    pub fn clear(&mut self)
        ensures
            final(self).methods@.len() == 0,
            final(self).properties@.len() == 0,
            final(self).variables@.len() == 0,
            !final(self).active,
    {
        self.methods.clear();
        self.properties.clear();
        self.variables.clear();
        self.active = false;
    }

    /// Adds a new private/local variable to this model and returns its `PrivateVarId`,
    /// the index of the variable in `variables`.
    pub fn new_variable(&mut self, variable: Variable) -> (id: PrivateVarId)
        ensures
            id.0 == old(self).variables@.len(),
            final(self).variables@ == old(self).variables@.push(variable),
            final(self).methods@ == old(self).methods@,
            final(self).properties@ == old(self).properties@,
            final(self).active == old(self).active,
    {
        let id = PrivateVarId(self.variables.len());
        self.variables.push(variable);
        id
    }

    /// Adds a new private/local method to this model and returns its `PrivateMethodId`,
    /// the index of the method in `methods`.
    pub fn new_method(&mut self, method: Method) -> (id: PrivateMethodId)
        ensures
            id.0 == old(self).methods@.len(),
            final(self).methods@ == old(self).methods@.push(method),
            final(self).variables@ == old(self).variables@,
            final(self).properties@ == old(self).properties@,
            final(self).active == old(self).active,
    {
        let id = PrivateMethodId(self.methods.len());
        self.methods.push(method);
        id
    }

    /// Returns the private/local method at `private_method_id`, or `None` if the index is out
    /// of bounds.
    pub fn get_method(&self, private_method_id: usize) -> (r: Option<&Method>)
        ensures
            match r {
                Some(m) => private_method_id < self.methods@.len() && *m
                    == self.methods@[private_method_id as int],
                None => private_method_id >= self.methods@.len(),
            },
    {
        if private_method_id < self.methods.len() {
            Some(&self.methods[private_method_id])
        } else {
            None
        }
    }
}


impl LocalSemanticModel {
    /// Applies `e` to the method at `index`; returns `false`, changing nothing, when the index
    /// is out of bounds.
    pub fn edit_method(&mut self, index: usize, e: MethodEdit) -> (done: bool)
        ensures
            done == (index < old(self).methods@.len()),
            final(self).methods@.len() == old(self).methods@.len(),
            done ==> method_edited(old(self).methods@[index as int], final(self).methods@[index as int], e),
            forall|j: int|
                0 <= j < old(self).methods@.len() && j != index ==> #[trigger] final(self).methods@[j]
                    == old(self).methods@[j],
            final(self).variables == old(self).variables,
            final(self).properties == old(self).properties,
            final(self).active == old(self).active,
    {
        if index >= self.methods.len() {
            return false;
        }
        let mut m = self.methods.remove(index);
        m.apply_edit(e);
        self.methods.insert(index, m);
        true
    }
}

} // verus!
