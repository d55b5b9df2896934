//! The wire document a `Binding` is stored as.
//!
//! Field-omission rule: a string field that is empty is omitted from the
//! document entirely, never written as an empty string. This is load-bearing
//! for the wildcard-filter behaviour: an omitted field cannot over-constrain
//! a filter query. The persisted identifier is likewise omitted when absent.

use vstd::prelude::*;
use crate::binding::{Binding, BindingView};

verus! {

/// Mathematical value of a document: each field either present with its
/// value or absent.
#[verifier::ext_equal]
pub struct BindingDocView {
    pub id: Option<Seq<u8>>,
    pub thing_id: Option<Seq<char>>,
    pub location: Option<Seq<char>>,
    pub version: Option<Seq<char>>,
}

/// A `Binding` in its stored shape: only populated fields are present.
pub struct BindingDoc {
    pub id: Option<Vec<u8>>,
    pub thing_id: Option<String>,
    pub location: Option<String>,
    pub version: Option<String>,
}

impl View for BindingDoc {
    type V = BindingDocView;

    open spec fn view(&self) -> BindingDocView {
        BindingDocView {
            id: match self.id {
                Option::Some(b) => Option::Some(b@),
                Option::None => Option::None,
            },
            thing_id: match self.thing_id {
                Option::Some(s) => Option::Some(s@),
                Option::None => Option::None,
            },
            location: match self.location {
                Option::Some(s) => Option::Some(s@),
                Option::None => Option::None,
            },
            version: match self.version {
                Option::Some(s) => Option::Some(s@),
                Option::None => Option::None,
            },
        }
    }
}

/// The document a record serializes to: empty string fields and an absent
/// persisted identifier are omitted.
pub open spec fn doc_of(v: BindingView) -> BindingDocView {
    BindingDocView {
        id: v.id,
        thing_id: if v.thing_id.len() == 0 {
            None
        } else {
            Some(v.thing_id)
        },
        location: if v.location.len() == 0 {
            None
        } else {
            Some(v.location)
        },
        version: if v.version.len() == 0 {
            None
        } else {
            Some(v.version)
        },
    }
}

/// The record a document deserializes to: an absent field becomes the empty
/// value.
pub open spec fn binding_of_doc(d: BindingDocView) -> BindingView {
    BindingView {
        id: d.id,
        thing_id: match d.thing_id {
            Some(s) => s,
            None => Seq::empty(),
        },
        location: match d.location {
            Some(s) => s,
            None => Seq::empty(),
        },
        version: match d.version {
            Some(s) => s,
            None => Seq::empty(),
        },
    }
}

/// Byte-for-byte copy of a persisted identifier.
pub(crate) fn copy_bytes(a: &Vec<u8>) -> (r: Vec<u8>)
    ensures
        r@ == a@,
{
    let mut r: Vec<u8> = Vec::new();
    let mut i: usize = 0;
    while i < a.len()
        invariant
            i <= a.len(),
            r@ == a@.subrange(0, i as int),
        decreases a.len() - i,
    {
        r.push(a[i]);
        proof {
            assert(r@ =~= a@.subrange(0, i + 1));
        }
        i = i + 1;
    }
    proof {
        assert(r@ =~= a@);
    }
    r
}

/// Serialize a record to its stored shape, omitting empty fields.
pub fn to_doc(b: &Binding) -> (d: BindingDoc)
    ensures
        d@ == doc_of(b@),
{
    let d = BindingDoc {
        id: match &b.id {
            Some(bytes) => Some(copy_bytes(bytes)),
            None => None,
        },
        thing_id: if b.thing_id.as_str().is_empty() {
            None
        } else {
            Some(b.thing_id.clone())
        },
        location: if b.location.as_str().is_empty() {
            None
        } else {
            Some(b.location.clone())
        },
        version: if b.version.as_str().is_empty() {
            None
        } else {
            Some(b.version.clone())
        },
    };
    proof {
        assert(d@ =~= doc_of(b@));
    }
    d
}

/// Deserialize a stored document back to a record; absent fields come back
/// empty.
pub fn from_doc(d: &BindingDoc) -> (b: Binding)
    ensures
        b@ == binding_of_doc(d@),
{
    let b = Binding {
        id: match &d.id {
            Some(bytes) => Some(copy_bytes(bytes)),
            None => None,
        },
        thing_id: match &d.thing_id {
            Some(s) => s.clone(),
            None => String::new(),
        },
        location: match &d.location {
            Some(s) => s.clone(),
            None => String::new(),
        },
        version: match &d.version {
            Some(s) => s.clone(),
            None => String::new(),
        },
    };
    proof {
        assert(b@ =~= binding_of_doc(d@));
    }
    b
}

/// An exact copy of a document.
pub fn clone_doc(d: &BindingDoc) -> (r: BindingDoc)
    ensures
        r@ == d@,
{
    let r = BindingDoc {
        id: match &d.id {
            Some(bytes) => Some(copy_bytes(bytes)),
            None => None,
        },
        thing_id: match &d.thing_id {
            Some(s) => Some(s.clone()),
            None => None,
        },
        location: match &d.location {
            Some(s) => Some(s.clone()),
            None => None,
        },
        version: match &d.version {
            Some(s) => Some(s.clone()),
            None => None,
        },
    };
    proof {
        assert(r@ =~= d@);
    }
    r
}

/// Round trip: serializing a record and deserializing the document yields
/// exactly the record it came from, empty fields and all.
pub proof fn lemma_round_trip(v: BindingView)
    ensures
        binding_of_doc(doc_of(v)) == v,
{
    assert(binding_of_doc(doc_of(v)) =~= v);
}

/// Field omission: a record with an empty location serializes to a document
/// with no location field at all.
pub proof fn lemma_field_omission(v: BindingView)
    requires
        v.location.len() == 0,
    ensures
        doc_of(v).location is None,
{
}

} // verus!
