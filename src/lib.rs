mod address;
pub mod laws;
pub mod motes;
mod outside;

pub use address::Address;
pub use motes::{Mote, MoteView, Motes};
