//! ActivityPub: the objects rendered and the signing of requests.
pub mod types;
pub mod render;
pub mod signature;
pub mod deliver;
