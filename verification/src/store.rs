use vstd::prelude::*;

use crate::codec::text_block_of;
use crate::errors::StateError;
use crate::errors::StoreError;

verus! {

/// The content address the store assigns to a block: the serialized CID built
/// from the Blake2b-256 digest of the bytes under the record codec. Content
/// addressing makes it a pure function of the bytes, the same on every host.
pub uninterp spec fn address_of(b: Seq<u8>) -> Seq<u8>;

/// Relies on fvm_sdk::sself::root: reads the current root CID from the host,
/// failing when the actor has no state registered yet. The CID is returned in
/// its serialized byte form.
#[verifier::external_body]
pub(crate) fn load_root() -> (r: Result<Vec<u8>, StoreError>) {
    match fvm_sdk::sself::root() {
        Ok(c) => Ok(c.to_bytes()),
        Err(_) => Err(StoreError::RootUnavailable),
    }
}

/// Relies on fvm_sdk::ipld::get: fetches the block stored under the given
/// serialized CID. The store is content-addressed: a block fetched under a
/// record address — one that some bytes hash to — carries bytes whose own
/// address is that address, since the host stores blocks under their digest
/// and never mutates them. Of addresses in any other form nothing is said.
#[verifier::external_body]
pub(crate) fn get(addr: &Vec<u8>) -> (r: Result<Vec<u8>, StoreError>)
    ensures
        (exists|d: Seq<u8>| addr@ == address_of(d)) ==> (r matches Ok(b) ==> address_of(b@)
            == addr@),
{
    let cid = match cid::Cid::try_from(addr.as_slice()) {
        Ok(c) => c,
        Err(_) => {
            return Err(StoreError::BlockNotFound);
        },
    };
    match fvm_sdk::ipld::get(&cid) {
        Ok(b) => Ok(b),
        Err(_) => Err(StoreError::BlockNotFound),
    }
}

/// Relies on fvm_sdk::ipld::put and fvm_sdk::sself::set_root, as one step:
/// writes the block, whose CID the host computes as the Blake2b-256 digest of
/// the bytes under the record codec — a function of the bytes alone, here
/// named `address_of` — and then advances the root pointer to exactly that
/// just-linked CID, the only root the host is guaranteed to accept within
/// this invocation. On success the returned address is the new root.
#[verifier::external_body]
pub(crate) fn put_and_set_root(data: &Vec<u8>) -> (r: Result<Vec<u8>, StoreError>)
    ensures
        r matches Ok(a) ==> a@ == address_of(data@),
        r matches Err(e) ==> e == StoreError::StoreWriteError || e == StoreError::RootUpdateError,
{
    let code = fvm_shared::crypto::hash::SupportedHashes::Blake2b256 as u64;
    let cid = match fvm_sdk::ipld::put(code, 32, fvm_ipld_encoding::DAG_CBOR, data.as_slice()) {
        Ok(c) => c,
        Err(_) => {
            return Err(StoreError::StoreWriteError);
        },
    };
    match fvm_sdk::sself::set_root(&cid) {
        Ok(()) => Ok(cid.to_bytes()),
        Err(_) => Err(StoreError::RootUpdateError),
    }
}

/// Relies on fvm_ipld_encoding::to_vec on a string: it writes exactly one
/// text block — the shortest-form header, then the UTF-8 bytes — and cannot
/// fail on it beyond running out of memory, so ASCII input (valid UTF-8 by
/// construction) is promised to succeed. Invalid UTF-8 is rejected here
/// before the call.
#[verifier::external_body]
pub(crate) fn encode_text(bytes: &Vec<u8>) -> (r: Result<Vec<u8>, StateError>)
    ensures
        r matches Ok(v) ==> v@ == text_block_of(bytes@),
        (forall|i: int| 0 <= i < bytes@.len() ==> bytes@[i] < 128) ==> r is Ok,
{
    let text = match std::string::String::from_utf8(bytes.clone()) {
        Ok(t) => t,
        Err(_) => {
            return Err(StateError::SerializationError);
        },
    };
    match fvm_ipld_encoding::to_vec(&text) {
        Ok(v) => Ok(v),
        Err(_) => Err(StateError::SerializationError),
    }
}

} // verus!
