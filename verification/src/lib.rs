//! A minimal in-memory directed-graph container: typed node and edge
//! handles over a configurable integer index width, generic node and edge
//! payloads, and incremental construction from edge lists with automatic
//! node materialization.

pub mod graph;
