//! Plain value types shared by the whole store: property values, edge
//! directions, and the flat vertex / edge records handed across the
//! iterator boundary.

use vstd::prelude::*;

verus! {

/// A property value: a tagged sum of the five wire shapes.
///
/// Floating-point payloads are carried as their raw IEEE 754 bit
/// pattern (`u64`), so that equality of two values is equality of their
/// representations; the boundary layer converts to and from `f64`.
#[derive(Debug)]
pub enum Prop {
    Str(String),
    I64(i64),
    U64(u64),
    F64(u64),
    Bool(bool),
}

impl Clone for Prop {
    fn clone(&self) -> (res: Self)
        ensures
            res == self,
    {
        match self {
            Prop::Str(s) => Prop::Str(s.clone()),
            Prop::I64(x) => Prop::I64(*x),
            Prop::U64(x) => Prop::U64(*x),
            Prop::F64(x) => Prop::F64(*x),
            Prop::Bool(x) => Prop::Bool(*x),
        }
    }
}

impl PartialEq for Prop {
    fn eq(&self, other: &Self) -> (r: bool) {
        match (self, other) {
            (Prop::Str(a), Prop::Str(b)) => *a == *b,
            (Prop::I64(a), Prop::I64(b)) => *a == *b,
            (Prop::U64(a), Prop::U64(b)) => *a == *b,
            (Prop::F64(a), Prop::F64(b)) => *a == *b,
            (Prop::Bool(a), Prop::Bool(b)) => *a == *b,
            _ => false,
        }
    }
}

impl vstd::std_specs::cmp::PartialEqSpecImpl for Prop {
    open spec fn obeys_eq_spec() -> bool {
        true
    }

    open spec fn eq_spec(&self, other: &Self) -> bool {
        match (*self, *other) {
            (Prop::Str(a), Prop::Str(b)) => a@ == b@,
            (Prop::I64(a), Prop::I64(b)) => a == b,
            (Prop::U64(a), Prop::U64(b)) => a == b,
            (Prop::F64(a), Prop::F64(b)) => a == b,
            (Prop::Bool(a), Prop::Bool(b)) => a == b,
            _ => false,
        }
    }
}

impl Eq for Prop {}

/// Which adjacency chains a traversal reads: outbound, inbound, or both.
#[derive(Debug, Clone, Copy, PartialEq, Eq, Structural)]
pub enum Direction {
    OUT,
    IN,
    BOTH,
}

/// A flat edge event record: one timestamped adjacency entry.
#[derive(Debug, Clone, Copy, PartialEq, Eq, Structural)]
pub struct TEdge {
    pub src: u64,
    pub dst: u64,
    pub t: Option<i64>,
    pub is_remote: bool,
}

/// A flat vertex record: the externally supplied 64-bit global id.
#[derive(Debug, Clone, Copy, PartialEq, Eq, Structural)]
pub struct TVertex {
    pub g_id: u64,
}

} // verus!
