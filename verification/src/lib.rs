//! Pure logic of a mod-pack manager: pack manifests and their diffs, the
//! steps and byte ranges that patch a client's copy, index entries and
//! checksums, launch presets, deployment script templates, build planning
//! and the in-memory model of a client repository.
pub mod text;
pub mod paths;
pub mod launch;
pub mod templating;
pub mod manifest;
pub mod pack_diff;
pub mod models;
pub mod handle;
pub mod sync;
pub mod server;
pub mod publish;
pub mod entries;
pub mod state;
pub mod media;
pub mod download;
pub mod patch;
pub mod layout;
