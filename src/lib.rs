//! Backfills the `dexId` field of card records from records that already
//! carry it, matched by their English display name.

pub mod text;
pub mod record;
pub mod normalize;
pub mod index;
pub mod patch;
pub mod corpus;
pub mod laws;
