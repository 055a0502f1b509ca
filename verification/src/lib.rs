//! Random sorting of files into numbered folders, with the archive and
//! text logic that goes with it, each function with a contract and each law
//! with its proof.
pub mod archive;
pub mod base64;
pub mod lock;
pub mod path;
pub mod plan;
pub mod random;
pub mod scan;
pub mod sequential;
pub mod settings;
pub mod text;
