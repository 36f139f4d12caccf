//! Gossip: SWIM events and the membership view they maintain.

pub mod membership;
pub mod swim;
