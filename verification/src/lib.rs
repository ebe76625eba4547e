//! A Web Key Directory: the token of an address, a store of certificates
//! that is kept in step with a directory of key files, and the sanitising of
//! a certificate before it is served.

pub mod cert;
pub mod encoder;
pub mod error;
pub mod evaluate;
mod index;
pub mod model;
pub mod provider;
pub mod sanitize;
pub mod store;
pub mod table;
pub mod text;
pub mod watcher;
