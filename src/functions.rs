//! The catalog of functions that a model may choose from.
use crate::json::clone_json;
use vstd::prelude::*;

verus! {

/// One callable function: its name, a description in words, and the JSON
/// schema of its parameters.
pub struct Function {
    pub name: String,
    pub description: String,
    pub parameters: serde_json::Value,
}

impl Function {
    pub fn new(name: String, description: String, parameters: serde_json::Value) -> (r: Function)
        ensures
            r.name@ == name@,
            r.description@ == description@,
            r.parameters == parameters,
    {
        Function { name, description, parameters }
    }

    /// A copy of this function: the same name, description and parameters.
    pub fn duplicate(&self) -> (r: Function)
        ensures
            r.name@ == self.name@,
            r.description@ == self.description@,
            r.parameters == self.parameters,
    {
        Function {
            name: self.name.clone(),
            description: self.description.clone(),
            parameters: clone_json(&self.parameters),
        }
    }
}

/// An ordered catalog of functions; the order is the order of presentation.
pub struct Functions(pub Vec<Function>);

/// Two catalogs agree entry by entry: the same names, descriptions and
/// parameters, in the same order.
pub open spec fn same_entries(a: Seq<Function>, b: Seq<Function>) -> bool {
    &&& a.len() == b.len()
    &&& forall|i: int|
        0 <= i < a.len() ==> #[trigger] a[i].name@ == b[i].name@ && a[i].description@
            == b[i].description@ && a[i].parameters == b[i].parameters
}

impl Functions {
    pub fn new(list: Vec<Function>) -> (r: Functions)
        ensures
            r.0@ == list@,
    {
        Functions(list)
    }

    pub fn len(&self) -> (r: usize)
        ensures
            r == self.0@.len(),
    {
        self.0.len()
    }

    /// A copy of the catalog, in the same order.
    pub fn functions(&self) -> (r: Vec<Function>)
        ensures
            same_entries(r@, self.0@),
    {
        let mut out: Vec<Function> = Vec::new();
        let mut i: usize = 0;
        while i < self.0.len()
            invariant
                i <= self.0@.len(),
                same_entries(out@, self.0@.subrange(0, i as int)),
            decreases self.0@.len() - i,
        {
            out.push(self.0[i].duplicate());
            i = i + 1;
        }
        proof {
            assert(self.0@.subrange(0, i as int) =~= self.0@);
        }
        out
    }
}

} // verus!
