//! The storage service's answer to an upload.
//!
//! The service reports a stored blob either as newly created or as already
//! certified; in both shapes the blob identifier sits in the same place.
//! The transport layer fills this type in; the logic of picking the
//! identifier out is here.

use vstd::prelude::*;

verus! {

/// The innermost object carrying the blob identifier.
pub struct BlobObject {
    /// The identifier under which the ciphertext can be fetched.
    pub blob_id: String,
}

/// One stored blob, however the service classified it.
pub struct WalrusBlob {
    /// The blob's object description.
    pub blob_object: BlobObject,
}

/// The upload answer: at most one of the two fields is filled in practice,
/// but the identifier is accepted from either, the newly created one first.
pub struct WalrusResponse {
    /// Set when the service stored the blob for the first time.
    pub newly_created: Option<WalrusBlob>,
    /// Set when the service already held a certified copy.
    pub already_certified: Option<WalrusBlob>,
}

impl WalrusResponse {
    /// The identifier this response carries: from the newly created entry
    /// when there is one, else from the already certified entry.
    pub open spec fn spec_blob_id(&self) -> Option<Seq<char>> {
        if self.newly_created is Some {
            Some(self.newly_created->0.blob_object.blob_id@)
        } else if self.already_certified is Some {
            Some(self.already_certified->0.blob_object.blob_id@)
        } else {
            None
        }
    }

    /// The blob identifier, if the response carries one.
    pub fn get_blob_id(&self) -> (r: Option<String>)
        ensures
            r is Some <==> self.spec_blob_id() is Some,
            r matches Some(id) ==> Some(id@) == self.spec_blob_id(),
    {
        if let Some(created) = &self.newly_created {
            Some(created.blob_object.blob_id.clone())
        } else if let Some(certified) = &self.already_certified {
            Some(certified.blob_object.blob_id.clone())
        } else {
            None
        }
    }
}

} // verus!
