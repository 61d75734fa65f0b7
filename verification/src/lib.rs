//! A small generic-algebra library: capability traits for algebraic
//! structures (groups, rings, fields, Euclidean domains), the Euclidean and
//! extended Euclidean algorithms generic over any Euclidean domain, and
//! concrete modular-arithmetic and machine-integer instances.

pub mod algebra;
pub mod euclid;
pub mod std_impls;
