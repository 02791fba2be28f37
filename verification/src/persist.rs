use vstd::prelude::*;

use crate::codec::lemma_parse_canonical;
use crate::codec::spec_encode;
use crate::errors::StateError;
use crate::errors::StoreError;
use crate::state::State;
use crate::store;
use crate::store::address_of;

verus! {

impl State {
    /// Read the current root address, fetch its block, and decode it. The
    /// only way a transition may begin.
    pub fn load() -> (r: Result<State, StateError>)
        ensures
            r matches Ok(s) ==> s@.bounded(),
            r matches Err(e) ==> e == StateError::NoState || e == StateError::CorruptState,
    {
        let root = match store::load_root() {
            Ok(a) => a,
            Err(_) => {
                return Err(StateError::NoState);
            },
        };
        let bytes = match store::get(&root) {
            Ok(b) => b,
            Err(_) => {
                return Err(StateError::CorruptState);
            },
        };
        let s = match State::decode(&bytes) {
            Ok(s) => s,
            Err(e) => {
                return Err(e);
            },
        };
        proof {
            lemma_parse_canonical(bytes@);
        }
        Ok(s)
    }

    /// Serialize canonically, write the block, and advance the root pointer;
    /// the returned address is the content address of the encoding. Until
    /// `set_root` succeeds nothing observable changes, so a failed save
    /// leaves the previous snapshot current.
    pub fn save(&self) -> (r: Result<Vec<u8>, StateError>)
        ensures
            r matches Ok(a) ==> self@.bounded() && a@ == address_of(spec_encode(self@)),
            !self@.bounded() ==> r == Err::<Vec<u8>, StateError>(StateError::SerializationError),
            self@.bounded() ==> (r matches Err(e) ==> e == StateError::StoreWriteError || e
                == StateError::RootUpdateError),
    {
        if self.tower1.len() > 255 || self.tower2.len() > 255 || self.tower3.len() > 255 {
            return Err(StateError::SerializationError);
        }
        let bytes = self.encode();
        match store::put_and_set_root(&bytes) {
            Ok(a) => Ok(a),
            Err(StoreError::RootUpdateError) => Err(StateError::RootUpdateError),
            Err(_) => Err(StateError::StoreWriteError),
        }
    }
}

} // verus!
