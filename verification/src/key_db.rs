//! Value types of the barcode signature key database.
//!
//! The database itself is loaded from XML and its keys verify signatures;
//! that work happens outside this library. These are the plain values the
//! outer frame hands around: a detached signature in either of its two wire
//! shapes, a product-owner entry, and an owned XML qualified name.

use vstd::prelude::*;

verus! {

/// A barcode signature: either raw DSA components or a DER-encoded blob.
#[derive(Clone, Debug, PartialEq, Eq)]
pub enum Signature {
    Dsa { r: Vec<u8>, s: Vec<u8> },
    Asn1(Vec<u8>),
}

/// One product owner a key is allowed to sign for.
#[derive(Clone, Debug, PartialEq, Eq)]
pub struct ProductOwnerCode {
    pub code: u16,  // 0000-9999
    pub name: String,
}

/// An XML qualified name that owns its parts.
#[derive(Clone, Debug, PartialEq, Eq)]
pub struct OwnedQName {
    pub namespace: Option<String>,
    pub local_name: String,
}

impl OwnedQName {
    pub fn new(namespace: Option<String>, local_name: String) -> (r: Self)
        ensures
            r.namespace == namespace,
            r.local_name == local_name,
    {
        Self { namespace, local_name }
    }
}

} // verus!
