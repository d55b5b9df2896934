//! The `Binding` entity: an association between a thing-identifier and a
//! location-identifier, stamped with a schema version.
//!
//! One structural type serves two purposes: a fully-populated instance is a
//! record to store, and a partially-populated instance (some fields empty) is
//! a filter that matches documents on its populated fields only. Equality is
//! the wildcard relation: a field pair constrains equality only when both
//! sides are populated.

use vstd::prelude::*;
use vstd::string::StringExecFns;

verus! {

/// Schema version stamped on every newly constructed record.
pub const SCHEMA_VERSION: &'static str = "1.0.0";

/// Mathematical value of a `Binding`: the persisted identifier as its raw
/// bytes (absent until the store assigns one), and the three string fields
/// as character sequences.
#[verifier::ext_equal]
pub struct BindingView {
    pub id: Option<Seq<u8>>,
    pub thing_id: Seq<char>,
    pub location: Seq<char>,
    pub version: Seq<char>,
}

/// An association between a thing and a location. The persisted identifier
/// is assigned by the store on first write and is held here as its raw
/// bytes; the application never fabricates one.
pub struct Binding {
    pub id: Option<Vec<u8>>,
    pub thing_id: String,
    pub location: String,
    pub version: String,
}

impl View for Binding {
    type V = BindingView;

    open spec fn view(&self) -> BindingView {
        BindingView {
            id: match self.id {
                Option::Some(b) => Option::Some(b@),
                Option::None => Option::None,
            },
            thing_id: self.thing_id@,
            location: self.location@,
            version: self.version@,
        }
    }
}

/// The view a freshly constructed record has: both identifiers populated,
/// the current schema version stamped, no persisted identifier yet.
pub open spec fn new_binding_view(thing_id: Seq<char>, location: Seq<char>) -> BindingView {
    BindingView { id: None, thing_id, location, version: SCHEMA_VERSION@ }
}

/// The view of a filter that matches on the thing-identifier alone.
pub open spec fn filter_by_thing_view(thing_id: Seq<char>) -> BindingView {
    BindingView { id: None, thing_id, location: Seq::empty(), version: Seq::empty() }
}

/// The view of a filter that matches on the location alone.
pub open spec fn filter_by_location_view(location: Seq<char>) -> BindingView {
    BindingView { id: None, thing_id: Seq::empty(), location, version: Seq::empty() }
}

impl Binding {
    /// Standard initialization of a new binding.
    pub fn new(thing_id: &String, location: &String) -> (r: Self)
        ensures
            r@ == new_binding_view(thing_id@, location@),
    {
        let r = Binding {
            id: None,
            thing_id: thing_id.clone(),
            location: location.clone(),
            version: String::from_str(SCHEMA_VERSION),
        };
        proof {
            assert(r@ =~= new_binding_view(thing_id@, location@));
        }
        r
    }

    /// Return a `Binding` that can be used for filtering entries by a
    /// particular thing-identifier.
    pub fn filter_by_thing(thing_id: &String) -> (r: Self)
        ensures
            r@ == filter_by_thing_view(thing_id@),
    {
        let r = Binding {
            id: None,
            thing_id: thing_id.clone(),
            location: String::new(),
            version: String::new(),
        };
        proof {
            assert(r@ =~= filter_by_thing_view(thing_id@));
        }
        r
    }

    /// Return a `Binding` that can be used for filtering entries by a
    /// particular location.
    pub fn filter_by_location(location: &String) -> (r: Self)
        ensures
            r@ == filter_by_location_view(location@),
    {
        let r = Binding {
            id: None,
            thing_id: String::new(),
            location: location.clone(),
            version: String::new(),
        };
        proof {
            assert(r@ =~= filter_by_location_view(location@));
        }
        r
    }
}

/// The wildcard equality relation: each of the persisted identifier, the
/// thing-identifier and the location constrains equality only when both
/// sides are populated. The schema version never takes part.
pub open spec fn wildcard_eq(a: BindingView, b: BindingView) -> bool {
    &&& (a.id is None || b.id is None || a.id == b.id)
    &&& (a.thing_id.len() == 0 || b.thing_id.len() == 0 || a.thing_id == b.thing_id)
    &&& (a.location.len() == 0 || b.location.len() == 0 || a.location == b.location)
}

/// Byte-for-byte comparison of two persisted identifiers.
pub(crate) fn bytes_eq(a: &Vec<u8>, b: &Vec<u8>) -> (r: bool)
    ensures
        r == (a@ == b@),
{
    if a.len() != b.len() {
        return false;
    }
    let mut i: usize = 0;
    while i < a.len()
        invariant
            i <= a.len(),
            a@.len() == b@.len(),
            forall|j: int| 0 <= j < i ==> a@[j] == b@[j],
        decreases a.len() - i,
    {
        if a[i] != b[i] {
            return false;
        }
        i = i + 1;
    }
    proof {
        assert(a@ =~= b@);
    }
    true
}

impl PartialEq for Binding {
    /// Only compare a field pair when both sides are populated.
    fn eq(&self, other: &Self) -> (r: bool) {
        let id_ok = match (&self.id, &other.id) {
            (Some(a), Some(b)) => bytes_eq(a, b),
            _ => true,
        };
        id_ok && (self.thing_id.as_str().is_empty() || other.thing_id.as_str().is_empty()
            || self.thing_id == other.thing_id) && (self.location.as_str().is_empty()
            || other.location.as_str().is_empty() || self.location == other.location)
    }
}

impl vstd::std_specs::cmp::PartialEqSpecImpl for Binding {
    open spec fn obeys_eq_spec() -> bool {
        true
    }

    open spec fn eq_spec(&self, other: &Binding) -> bool {
        wildcard_eq(self@, other@)
    }
}

/// The derived lookup key of a record: the thing-identifier alone locates
/// an existing document for update purposes.
pub open spec fn key_of(v: BindingView) -> BindingView {
    filter_by_thing_view(v.thing_id)
}

impl crate::db_common::KeyFrom for Binding {
    open spec fn spec_key(&self) -> BindingView {
        key_of(self@)
    }

    fn get_key(&self) -> (r: Self) {
        Self::filter_by_thing(&self.thing_id)
    }
}

impl crate::db_common::CollectionPath for Binding {
    const COLLECTION: &'static str = "bindings";
}

impl Binding {
    /// Get a key object: the filter that locates `other`'s document.
    pub fn get_key(other: &Self) -> (r: Self)
        ensures
            r@ == key_of(other@),
    {
        Self::filter_by_thing(&other.thing_id)
    }
}

/// Wildcard equality law: two instances that agree on every field pair where
/// both sides are populated are equal under the wildcard relation, however
/// many fields either side leaves empty.
pub proof fn lemma_wildcard_eq_of_agreement(a: BindingView, b: BindingView)
    requires
        a.id is Some && b.id is Some ==> a.id == b.id,
        a.thing_id.len() > 0 && b.thing_id.len() > 0 ==> a.thing_id == b.thing_id,
        a.location.len() > 0 && b.location.len() > 0 ==> a.location == b.location,
    ensures
        wildcard_eq(a, b),
{
}

/// Key derivation is idempotent: deriving a key from an already key-only
/// instance yields that instance back.
pub proof fn lemma_key_derivation_idempotent(v: BindingView)
    ensures
        key_of(key_of(v)) == key_of(v),
{
    assert(key_of(key_of(v)) =~= key_of(v));
}

} // verus!

