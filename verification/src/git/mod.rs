pub mod clock;
pub mod commit;
pub mod graph;
pub mod lanes;
pub mod laws;
pub mod oid;
pub mod repo;
