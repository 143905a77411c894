//! Desktop cats that chase the cursor, and the relay that lets them meet.

use vstd::prelude::*;

pub mod cat;
pub mod cat_laws;
pub mod clock;
pub mod config;
pub mod cursor;
pub mod herd;
pub mod herd_laws;
pub mod lists;
pub mod lobby;
pub mod lobby_laws;
pub mod pace;
pub mod paint;
pub mod protocol;
pub mod relay;
pub mod relay_laws;
pub mod rng;
pub mod room;
pub mod room_laws;
pub mod sanitize;
pub mod seats;
pub mod session;
pub mod settings;
pub mod sprite;
pub mod text;

verus! {

} // verus!
