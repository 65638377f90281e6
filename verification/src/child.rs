//! The leaf entity: a child owns nothing and holds a non-owning
//! back-reference to the parent that owns it. It serializes itself with the
//! back-reference resolved to a plain id, never by recursing into the parent.

use vstd::prelude::*;

use crate::digits::append_dec;
use crate::errors::{Error, ErrorView};
use crate::wire;

verus! {

/// Flat transfer shape for a child read from a document: the child's own id
/// and the declared id of its parent, both plain integers. It exists so that
/// child data can be read before any owning structure or back-reference is
/// possible; it structurally cannot carry a nested parent object.
#[derive(Debug)]
pub struct ChildDTO {
    pub id: u64,
    pub parent_id: u64,
}

/// A child's non-owning back-reference to its parent. `Unset` is the explicit
/// unresolved state: it holds during the brief construction window before the
/// owning parent exists, and again after the owner has been released.
/// Resolving an `Unset` reference fails explicitly; it never yields stale
/// data.
#[derive(Clone, Copy, Debug, PartialEq, Eq, Structural)]
pub enum ParentRef {
    Unset,
    Linked(u64),
}

/// The leaf entity. Its id is immutable after construction; its
/// back-reference is patched exactly once, by the owning parent's
/// construction.
#[derive(Debug)]
pub struct Child {
    pub id: u64,
    pub parent: ParentRef,
}

impl Child {
    /// What following the back-reference yields: the owner's id, or a
    /// dangling-reference failure when the reference is unset.
    pub open spec fn spec_resolve(self) -> Result<u64, ErrorView> {
        match self.parent {
            ParentRef::Unset => Err(ErrorView::DanglingReference),
            ParentRef::Linked(pid) => Ok(pid),
        }
    }

    /// What serializing this child yields: its document with the parent
    /// resolved to a scalar id, or a dangling-reference failure.
    pub open spec fn spec_serialize(self) -> Result<Seq<char>, ErrorView> {
        match self.parent {
            ParentRef::Unset => Err(ErrorView::DanglingReference),
            ParentRef::Linked(pid) => Ok(wire::child_doc(self.id, pid)),
        }
    }

    /// Follows the non-owning back-reference to the owning parent's id.
    pub fn resolve_parent(&self) -> (r: Result<u64, Error>)
        ensures
            r matches Ok(pid) ==> self.spec_resolve() == Ok::<u64, ErrorView>(pid),
            r matches Err(e) ==> self.spec_resolve() == Err::<u64, ErrorView>(e@),
    {
        match self.parent {
            ParentRef::Unset => Err(Error::DanglingReference),
            ParentRef::Linked(pid) => Ok(pid),
        }
    }

    /// Serializes this child as `{"id":<id>,"parent":<parent id>}`, resolving
    /// the back-reference to a scalar id so that the emitted document never
    /// recurses into the parent. Fails with a dangling-reference error when
    /// the back-reference does not resolve; it never substitutes a default id.
    pub fn serialize(&self) -> (r: Result<String, Error>)
        ensures
            r matches Ok(out) ==> self.spec_serialize() == Ok::<Seq<char>, ErrorView>(out@),
            r matches Err(e) ==> self.spec_serialize() == Err::<Seq<char>, ErrorView>(e@),
    {
        match self.parent {
            ParentRef::Unset => Err(Error::DanglingReference),
            ParentRef::Linked(pid) => {
                let mut out = String::new();
                out.append("{");
                out.append("\"id\":");
                append_dec(&mut out, self.id);
                out.append(",");
                out.append("\"parent\":");
                append_dec(&mut out, pid);
                out.append("}");
                proof {
                    assert(out@ =~= wire::child_doc(self.id, pid));
                }
                Ok(out)
            },
        }
    }
}

} // verus!
