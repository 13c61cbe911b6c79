//! rime's verified core: the state, arithmetic and bookkeeping behind a small
//! component kit — theme choice and palette tokens, the theme registry's name
//! table, menu and tab-strip models, grid selections and column names, bit
//! bands, and the fixed-capacity secret buffer behind the password field.
use vstd::prelude::*;

pub mod secret;
pub mod secure_input;
pub mod tabs;
pub mod text;
pub mod grid;
pub mod registry;
pub mod theme;
pub mod menu;
pub mod bit_grid;
pub mod popover;
pub mod autocomplete;
pub mod table;

verus! {

} // verus!
