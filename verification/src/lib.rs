//! Configuration model and rewrite planning for an attribute that turns one
//! program unit into synchronous and asynchronous variants.
//!
//! The crate holds the decisions only: how a flat directive list becomes a
//! configuration, how a configuration is inherited by its variants, how an
//! identifier is renamed for a mode, which structural edits a unit receives,
//! and which decorated copies a unit expands into. Reading and printing of
//! program syntax is left to the caller.
use vstd::prelude::*;

pub mod text;
pub mod error;
pub mod mode;
pub mod directive;
pub mod attribute;
pub mod table;
pub mod ident;
pub mod model;
pub mod params;
pub mod unit;
pub mod tokens;
pub mod macros;
pub mod rule_round_trip;
pub mod round_trip;
pub mod well_formed;

verus! {

/// Prefix under which the attributes of this crate are written when a
/// configuration names no other.
pub fn default_crate_name() -> (name: &'static str)
    ensures
        name@ == "maybe_async_cfg"@,
{
    "maybe_async_cfg"
}

/// Name of the attribute that a decorated copy uses to ask for its rewrite.
pub fn macro_maybe_name() -> (name: &'static str)
    ensures
        name@ == "maybe"@,
{
    "maybe"
}

} // verus!
