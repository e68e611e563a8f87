//! Core logic of a `pass` extension that keeps the password store inside an
//! encrypted disk image (a "tomb").

pub mod crypto;
pub mod gpg;
pub mod plist;
pub mod store;
pub mod text;
pub mod timer;
pub mod tomb;
