use vstd::prelude::*;

verus! {

/// An author as the local store holds it. `id` is the identity key and
/// `username` the handle.
#[derive(Debug, PartialEq, Eq)]
pub struct Model {
    pub id: i64,
    pub username: String,
    pub name: String,
    pub description: String,
}

impl Clone for Model {
    fn clone(&self) -> (copy: Self)
        ensures
            copy == *self,
    {
        Model {
            id: self.id,
            username: self.username.clone(),
            name: self.name.clone(),
            description: self.description.clone(),
        }
    }
}

} // verus!
