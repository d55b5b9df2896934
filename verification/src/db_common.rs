//! Capability contracts shared by every persistable record type: where its
//! instances live in the store, and how to derive the filter that locates an
//! existing document for update purposes.

use vstd::prelude::*;

verus! {

/// Declares the database and collection a record type's instances live in.
pub trait CollectionPath {
    /// The database the record type's collection lives in.
    const DATABASE: &'static str = "mydb";

    /// The collection the record type's instances live in.
    const COLLECTION: &'static str;
}

/// Derives, from an instance, a new instance holding only the fields that
/// locate an existing document for update purposes; every other field is
/// left empty.
pub trait KeyFrom: View + Sized {
    /// The derived key, as a mathematical value.
    spec fn spec_key(&self) -> Self::V;

    /// Return a new instance holding only the key fields of `self`.
    fn get_key(&self) -> (r: Self)
        ensures
            r@ == self.spec_key(),
    ;
}

} // verus!
