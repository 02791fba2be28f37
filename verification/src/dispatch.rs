use vstd::prelude::*;

use crate::errors::StateError;
use crate::render::spec_render;
use crate::state::State;
use crate::state::Towers;
use crate::state::valid_id;
use crate::store::address_of;
use crate::codec::spec_encode;

verus! {

/// The distinguished system-initializer identity; only it may construct.
pub const INIT_ACTOR_ADDR: u64 = 1;

/// How many discs the initializer stacks up.
pub const DISC_COUNT: u8 = 5;

/// The closed method set of the dispatch table, with an explicit case for
/// anything else.
#[derive(Clone, Copy, Debug, PartialEq, Eq, Structural)]
pub enum Method {
    Constructor,
    Inspect,
    ApplyMove,
    Unknown,
}

/// Map the host's numeric method identifier onto the closed method set.
pub fn method_of(num: u64) -> (r: Method)
    ensures
        num == 1 ==> r == Method::Constructor,
        num == 2 ==> r == Method::Inspect,
        num == 3 ==> r == Method::ApplyMove,
        num == 0 || num > 3 ==> r == Method::Unknown,
{
    if num == 1 {
        Method::Constructor
    } else if num == 2 {
        Method::Inspect
    } else if num == 3 {
        Method::ApplyMove
    } else {
        Method::Unknown
    }
}

/// The two stack identifiers an apply-move call carries: one ASCII digit
/// each, in the first two parameter bytes.
pub open spec fn spec_move_params(b: Seq<u8>) -> Option<(u8, u8)> {
    if b.len() >= 2 && 48 <= b[0] <= 57 && 48 <= b[1] <= 57 {
        Some((((b[0] - 48) as u8), ((b[1] - 48) as u8)))
    } else {
        None
    }
}

/// Decode an apply-move call's parameters, rejecting anything that is not
/// two ASCII digits.
pub fn parse_move_params(params: &Vec<u8>) -> (r: Result<(u8, u8), StateError>)
    ensures
        spec_move_params(params@) matches Some(p) ==> r == Ok::<(u8, u8), StateError>(p),
        spec_move_params(params@) is None ==> r == Err::<(u8, u8), StateError>(
            StateError::InvalidStackId,
        ),
{
    if params.len() < 2 {
        return Err(StateError::InvalidStackId);
    }
    let a = params[0];
    let b = params[1];
    if a < 48 || a > 57 || b < 48 || b > 57 {
        return Err(StateError::InvalidStackId);
    }
    Ok((a - 48, b - 48))
}

/// Initialize (method 1): allowed only for the system initializer. Persists
/// the canonical initial layout — overwriting whatever was current — and
/// returns its content address, the same on every run.
pub fn constructor(caller: u64) -> (r: Result<Vec<u8>, StateError>)
    ensures
        caller != INIT_ACTOR_ADDR ==> r == Err::<Vec<u8>, StateError>(StateError::Forbidden),
        r matches Ok(a) ==> caller == INIT_ACTOR_ADDR && a@ == address_of(
            spec_encode(Towers::initial(DISC_COUNT)),
        ),
        caller == INIT_ACTOR_ADDR ==> (r matches Err(e) ==> e == StateError::StoreWriteError || e
            == StateError::RootUpdateError),
{
    if caller != INIT_ACTOR_ADDR {
        return Err(StateError::Forbidden);
    }
    let state = State::new(DISC_COUNT);
    state.save()
}

/// The inspect payload for a given state: its rendered dump, packed as the
/// wire's text block. Never fails: the dump is ASCII, which the text
/// encoding always accepts.
pub fn inspect_bytes(state: &State) -> (r: Result<Vec<u8>, StateError>)
    ensures
        r matches Ok(v) && v@ == crate::codec::text_block_of(spec_render(state@)),
{
    let dump = state.render();
    proof {
        crate::render::lemma_render_ascii(state@);
    }
    match crate::store::encode_text(&dump) {
        Ok(v) => Ok(v),
        Err(e) => {
            proof {
                assert(false);
            }
            Err(e)
        },
    }
}

/// Inspect (method 2): load the current state and return its rendered dump,
/// packed as the wire's text block. Read-only: fails exactly as loading
/// does, and persists nothing.
pub fn get() -> (r: Result<Vec<u8>, StateError>)
    ensures
        r matches Ok(v) ==> exists|t: Towers|
            t.bounded() && v@ == crate::codec::text_block_of(spec_render(t)),
        r matches Err(e) ==> e == StateError::NoState || e == StateError::CorruptState,
{
    let state = match State::load() {
        Ok(s) => s,
        Err(e) => {
            return Err(e);
        },
    };
    inspect_bytes(&state)
}

/// Apply-move (method 3): decode the parameters, load the current state,
/// validate and apply the move, persist the result, and return the rendered
/// new state. A rejected move persists nothing.
pub fn move_disc(params: Vec<u8>) -> (r: Result<Vec<u8>, StateError>)
    ensures
        spec_move_params(params@) is None ==> r == Err::<Vec<u8>, StateError>(
            StateError::InvalidStackId,
        ),
        spec_move_params(params@) matches Some(p) ==> ((valid_id(p.0) && valid_id(p.1)) ==> r
            != Err::<Vec<u8>, StateError>(StateError::InvalidStackId)),
        r matches Err(e) ==> e == StateError::InvalidStackId || e == StateError::IllegalMove || e
            == StateError::NoState || e == StateError::CorruptState || e
            == StateError::SerializationError || e == StateError::StoreWriteError || e
            == StateError::RootUpdateError,
        r matches Ok(v) ==> spec_move_params(params@) matches Some(p) && exists|pre: Towers|
            pre.bounded() && valid_id(p.0) && valid_id(p.1) && pre.legal(p.0, p.1) && v@
                == crate::codec::text_block_of(spec_render(pre.do_move(p.0, p.1))),
{
    let (from, to) = match parse_move_params(&params) {
        Ok(p) => p,
        Err(e) => {
            return Err(e);
        },
    };
    let mut state = match State::load() {
        Ok(s) => s,
        Err(e) => {
            return Err(e);
        },
    };
    let ghost pre = state@;
    match state.move_disc(from, to) {
        Ok(()) => (),
        Err(e) => {
            return Err(e);
        },
    }
    match state.save() {
        Ok(_) => (),
        Err(e) => {
            return Err(e);
        },
    }
    match inspect_bytes(&state) {
        Ok(v) => {
            proof {
                assert(state@ == pre.do_move(from, to));
                assert(pre.bounded() && valid_id(from) && valid_id(to) && pre.legal(from, to)
                    && v@ == crate::codec::text_block_of(spec_render(pre.do_move(from, to))));
            }
            Ok(v)
        },
        Err(e) => {
            proof {
                assert(false);
            }
            Err(e)
        },
    }
}

} // verus!
