//! What a transaction wants to do to a key.

use vstd::prelude::*;
use crate::txn_types::key::Key;
use crate::txn_types::lock::LockType;

verus! {

/// A change that a transaction asks for, as a mathematical value.
pub enum MutationView {
    Put(Seq<u8>, Seq<u8>),
    Delete(Seq<u8>),
    Lock(Seq<u8>),
    Insert(Seq<u8>, Seq<u8>),
}

impl MutationView {
    pub open spec fn key(self) -> Seq<u8> {
        match self {
            MutationView::Put(key, _) => key,
            MutationView::Delete(key) => key,
            MutationView::Lock(key) => key,
            MutationView::Insert(key, _) => key,
        }
    }

    /// The value to store, if the change stores one.
    pub open spec fn value(self) -> Option<Seq<u8>> {
        match self {
            MutationView::Put(_, value) => Some(value),
            MutationView::Insert(_, value) => Some(value),
            _ => None,
        }
    }

    /// Whether the change asks that the key does not exist yet.
    pub open spec fn should_not_exist(self) -> bool {
        self is Insert
    }

    /// The kind of lock that stands for the change until it is committed.
    pub open spec fn lock_type(self) -> LockType {
        match self {
            MutationView::Put(_, _) => LockType::Put,
            MutationView::Delete(_) => LockType::Delete,
            MutationView::Lock(_) => LockType::Lock,
            MutationView::Insert(_, _) => LockType::Put,
        }
    }
}

/// A change that a transaction asks for.
#[derive(Debug)]
pub enum Mutation {
    /// Store a value under the key.
    Put(Key, Vec<u8>),
    /// Remove the key.
    Delete(Key),
    /// Lock the key without changing it.
    Lock(Key),
    /// Store a value under a key that must not exist yet.
    Insert(Key, Vec<u8>),
}

impl View for Mutation {
    type V = MutationView;

    open spec fn view(&self) -> MutationView {
        match self {
            Mutation::Put(key, value) => MutationView::Put(key@, value@),
            Mutation::Delete(key) => MutationView::Delete(key@),
            Mutation::Lock(key) => MutationView::Lock(key@),
            Mutation::Insert(key, value) => MutationView::Insert(key@, value@),
        }
    }
}

impl Mutation {
    /// Whether the change asks that the key does not exist yet.
    pub fn should_not_exists(&self) -> (r: bool)
        ensures
            r == self@.should_not_exist(),
    {
        match self {
            Mutation::Insert(_, _) => true,
            _ => false,
        }
    }

    /// The kind of lock that stands for the change until it is committed.
    pub fn lock_type(&self) -> (r: LockType)
        ensures
            r == self@.lock_type(),
    {
        match self {
            Mutation::Put(_, _) => LockType::Put,
            Mutation::Delete(_) => LockType::Delete,
            Mutation::Lock(_) => LockType::Lock,
            Mutation::Insert(_, _) => LockType::Put,
        }
    }

    /// The key and the value to store, if any.
    pub fn into_key_value(self) -> (r: (Key, Option<Vec<u8>>))
        ensures
            r.0@ == self@.key(),
            crate::txn_types::bytes::opt_view(r.1) == self@.value(),
    {
        match self {
            Mutation::Put(key, value) => (key, Some(value)),
            Mutation::Delete(key) => (key, None),
            Mutation::Lock(key) => (key, None),
            Mutation::Insert(key, value) => (key, Some(value)),
        }
    }
}

} // verus!
