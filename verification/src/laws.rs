//! What holds of the library as a whole: laws over the calls of its functions and
//! what they give back, for every input.

pub mod resuming;
pub mod remote;
pub mod settings;
pub mod words;
pub mod adding;
pub mod queue;
pub mod torrents;
pub mod transfers;
pub mod answers;
pub mod places;
pub mod records;
pub mod preferences;
pub mod protocol;
pub mod terminal;
pub mod figures;
pub mod tables;
pub mod upkeep;
