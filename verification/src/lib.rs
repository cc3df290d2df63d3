//! Verified core of the porkchop trajectory-search tool: the table of solar
//! system bodies that a search may depart from or arrive at, the start
//! epoch of a search, taken from a calendar date, and the metadata record
//! written beside the trajectory data.
pub mod bodies;
pub mod epoch;
pub mod metadata;
