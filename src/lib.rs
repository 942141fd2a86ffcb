//! Security and transport core of a peer-to-peer dead drop: identities kept
//! under a password, authenticated encryption of messages and of files in
//! chunks, threshold splitting of file keys, and the bookkeeping of the
//! messaging actor.
pub mod crypto;
pub mod dead_drop;
pub mod error;
pub mod messaging;
pub mod primitives;
pub mod shares;
pub mod stream;
