//! Operations with their dependencies.

use crate::clock::LogicalClock;
use crate::ident::{is_random_uuid, ReplicaId, Uuid};
use vstd::prelude::*;

verus! {

/// An operation that can be applied to a CRDT.
#[derive(Debug, Clone)]
pub struct Operation<T> {
    /// Unique operation ID
    pub id: Uuid,
    /// Replica that created the operation
    pub replica: ReplicaId,
    /// Logical timestamp
    pub timestamp: LogicalClock,
    /// The actual operation data
    pub data: T,
    /// Dependencies (operations this depends on)
    pub deps: Vec<Uuid>,
}

impl<T> Operation<T> {
    /// Create a new operation under a random id, without dependencies.
    pub fn new(replica: ReplicaId, timestamp: LogicalClock, data: T) -> (operation: Operation<T>)
        ensures
            is_random_uuid(operation.id.bits),
            operation.replica == replica,
            operation.timestamp == timestamp,
            operation.data == data,
            operation.deps@ == Seq::<Uuid>::empty(),
    {
        Operation { id: Uuid::new_v4(), replica, timestamp, data, deps: Vec::new() }
    }

    /// Add a dependency.
    pub fn with_dep(self, dep: Uuid) -> (operation: Operation<T>)
        ensures
            operation.id == self.id,
            operation.replica == self.replica,
            operation.timestamp == self.timestamp,
            operation.data == self.data,
            operation.deps@ == self.deps@.push(dep),
    {
        let mut operation = self;
        operation.deps.push(dep);
        operation
    }

    /// Add multiple dependencies, in their order.
    pub fn with_deps(self, deps: Vec<Uuid>) -> (operation: Operation<T>)
        ensures
            operation.id == self.id,
            operation.replica == self.replica,
            operation.timestamp == self.timestamp,
            operation.data == self.data,
            operation.deps@ == self.deps@ + deps@,
    {
        let mut operation = self;
        let mut deps = deps;
        operation.deps.append(&mut deps);
        operation
    }
}

} // verus!
