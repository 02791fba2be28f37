//! A minimal deterministic state-machine actor: three ordered stacks of
//! discs, persisted as one content-addressed record whose root address the
//! host keeps between invocations.

pub mod codec;
pub mod dispatch;
pub mod errors;
pub mod persist;
pub mod render;
pub mod state;
pub mod store;

pub use dispatch::constructor;
pub use dispatch::get;
pub use dispatch::inspect_bytes;
pub use dispatch::method_of;
pub use dispatch::move_disc;
pub use dispatch::parse_move_params;
pub use dispatch::Method;
pub use errors::StateError;
pub use errors::StoreError;
pub use state::State;
pub use state::Towers;
