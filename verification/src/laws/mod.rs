//! What the operations are for, said of their inputs and results themselves: of statuses, maps,
//! numbers and texts, and of how several calls relate.

pub mod adopting;
pub mod amounts;
pub mod answers;
pub mod commands;
pub mod endpoints;
pub mod following;
pub mod frames;
pub mod limits;
pub mod listings;
pub mod lookups;
pub mod ordering;
pub mod output;
pub mod places;
pub mod recovering;
pub mod restarting;
pub mod shares;
pub mod starting;
pub mod statuses;
pub mod stopping;
pub mod supervising;
pub mod surroundings;
pub mod texts;
pub mod wording;
