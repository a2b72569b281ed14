//! Tailsfer core: the wire formats, validation rules and transfer state
//! machines of a LAN file-transfer tool, with their contracts proved by Verus.

pub mod bytes;
pub mod compress;
pub mod crypto;
pub mod digest;
pub mod identity;
pub mod receiver;
pub mod rendezvous;
pub mod sender;
mod random;
pub mod text;
pub mod transfer;
pub mod transport;
