//! A single shared record holding a growing list of submitted links, each with
//! an up-vote and a down-vote counter.
//!
//! The record is created once, then only grows by appends and changes by votes.
//! Its serialized form must fit a storage area whose size is fixed when the
//! record is created.

pub mod record;
pub mod layout;
pub mod program;
pub mod laws;

pub use record::{Identity, ItemStruct, BaseAccount, Direction, WallError};
pub use layout::{ACCOUNT_SPACE, DISCRIMINATOR_LEN, CAPACITY, HEADER_LEN, ENTRY_FIXED_LEN};
pub use program::{start_stuff_off, add_gif, vote, gmi_vote, ngmi_vote};
