//! Verified core of a container runtime: container identities, manifests
//! with their validation rules, repositories of signed packages, and the
//! runtime configuration.

pub mod config;
pub mod container;
pub mod decimal;
pub mod error;
pub mod frame;
pub mod launch;
pub mod manifest;
pub mod mount;
pub mod name;
pub mod repository;
pub mod seccomp;
pub mod state;
pub mod text;
pub mod version;
