//! A verified core for running several isolated copies of a desktop
//! application side by side: an instance registry with self-healing index
//! handling, heuristic process classification over one process snapshot,
//! root-process resolution, instance/process binding, and a bounded
//! graceful-then-forceful shutdown controller.

pub mod cmdline;
pub mod context;
pub mod errors;
pub mod lifecycle;
pub mod model;
pub mod process;
pub mod registry;
pub mod text;
