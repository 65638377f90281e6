//! The root entity: a parent exclusively owns one child, serializes the pair
//! as a nested tree, and is reconstructed from a flat document by a
//! build-then-link protocol that restores the child's back-reference and
//! validates the cross-declared ids.

use vstd::prelude::*;

use crate::child::{Child, ChildDTO, ParentRef};
use crate::digits::{append_dec, parse_u64_at};
use crate::errors::{Error, ErrorView, FieldName};
use crate::wire;
use crate::wire::{expect_lit, parse_key};

verus! {

/// The error for an unrecognized or unreadable field name at position `k`.
fn unknown_at(s: &str, k: usize) -> (e: Error)
    requires
        k <= s@.len(),
    ensures
        e@ == wire::unknown_err(s@, k as int),
{
    match parse_key(s, k) {
        Some((name, _end)) => Error::UnknownField(name),
        None => Error::Syntax,
    }
}

/// Reads the tail of a child object once both of its fields are collected.
fn child_tail(s: &str, m: usize, idc: u64, pid: u64) -> (r: Result<(ChildDTO, usize), Error>)
    requires
        m <= s@.len(),
    ensures
        r matches Ok((dto, j)) ==> m < j <= s@.len() && wire::spec_child_tail(
            s@,
            m as int,
            idc,
            pid,
        ) == Ok::<(ChildDTO, int), ErrorView>((dto, j as int)),
        r matches Err(e) ==> wire::spec_child_tail(s@, m as int, idc, pid) == Err::<
            (ChildDTO, int),
            ErrorView,
        >(e@),
{
    proof {
        reveal_strlit("}");
        reveal_strlit(",");
    }
    let _slen: usize = s.unicode_len();
    if expect_lit(s, m, "}") {
        Ok((ChildDTO { id: idc, parent_id: pid }, m + 1))
    } else if expect_lit(s, m, ",") {
        if expect_lit(s, m + 1, "\"id\"") {
            Err(Error::DuplicateField(FieldName::Id))
        } else if expect_lit(s, m + 1, "\"parent_id\"") || expect_lit(s, m + 1, "\"parent\"") {
            Err(Error::DuplicateField(FieldName::ParentId))
        } else {
            Err(unknown_at(s, m + 1))
        }
    } else {
        Err(Error::Syntax)
    }
}

/// Reads the rest of a child object whose back-reference field came first,
/// its number starting at `n`.
fn child_parent_first(s: &str, n: usize) -> (r: Result<(ChildDTO, usize), Error>)
    requires
        n <= s@.len(),
    ensures
        r matches Ok((dto, j)) ==> n < j <= s@.len() && wire::spec_parse_child_parent_first(
            s@,
            n as int,
        ) == Ok::<(ChildDTO, int), ErrorView>((dto, j as int)),
        r matches Err(e) ==> wire::spec_parse_child_parent_first(s@, n as int) == Err::<
            (ChildDTO, int),
            ErrorView,
        >(e@),
{
    proof {
        reveal_strlit(",\"id\":");
        reveal_strlit(",\"id\"");
        reveal_strlit("}");
        reveal_strlit(",");
    }
    let _slen: usize = s.unicode_len();
    let (pid, k) = match parse_u64_at(s, n) {
        None => {
            return Err(Error::Syntax);
        },
        Some(p) => p,
    };
    if expect_lit(s, k, ",\"id\":") {
        let (idc, m) = match parse_u64_at(s, k + 6) {
            None => {
                return Err(Error::Syntax);
            },
            Some(p) => p,
        };
        child_tail(s, m, idc, pid)
    } else if expect_lit(s, k, ",\"parent_id\"") || expect_lit(s, k, ",\"parent\"") {
        Err(Error::DuplicateField(FieldName::ParentId))
    } else if expect_lit(s, k, ",\"id\"") {
        Err(Error::Syntax)
    } else if expect_lit(s, k, "}") {
        Err(Error::MissingField(FieldName::Id))
    } else if expect_lit(s, k, ",") {
        Err(unknown_at(s, k + 1))
    } else {
        Err(Error::Syntax)
    }
}

/// Reads a complete child object starting at position `i`; recognizes exactly
/// what [`wire::spec_parse_child`] describes.
#[verifier::rlimit(100)]
fn parse_child_at(s: &str, i: usize) -> (r: Result<(ChildDTO, usize), Error>)
    requires
        i <= s@.len(),
    ensures
        r matches Ok((dto, j)) ==> i < j <= s@.len() && wire::spec_parse_child(s@, i as int)
            == Ok::<(ChildDTO, int), ErrorView>((dto, j as int)),
        r matches Err(e) ==> wire::spec_parse_child(s@, i as int) == Err::<
            (ChildDTO, int),
            ErrorView,
        >(e@),
{
    proof {
        reveal_strlit("{");
        reveal_strlit("}");
        reveal_strlit(",");
        reveal_strlit("\"id\":");
        reveal_strlit("\"parent_id\":");
        reveal_strlit("\"parent\":");
        reveal_strlit(",\"parent_id\":");
        reveal_strlit(",\"parent\":");
        reveal_strlit(",\"id\"");
    }
    let _slen: usize = s.unicode_len();
    if !expect_lit(s, i, "{") {
        return Err(Error::Syntax);
    }
    if expect_lit(s, i + 1, "\"id\":") {
        let (idc, k) = match parse_u64_at(s, i + 6) {
            None => {
                return Err(Error::Syntax);
            },
            Some(p) => p,
        };
        if expect_lit(s, k, ",\"parent_id\":") {
            let (pid, m) = match parse_u64_at(s, k + 13) {
                None => {
                    return Err(Error::Syntax);
                },
                Some(p) => p,
            };
            child_tail(s, m, idc, pid)
        } else if expect_lit(s, k, ",\"parent\":") {
            let (pid, m) = match parse_u64_at(s, k + 10) {
                None => {
                    return Err(Error::Syntax);
                },
                Some(p) => p,
            };
            child_tail(s, m, idc, pid)
        } else if expect_lit(s, k, ",\"id\"") {
            Err(Error::DuplicateField(FieldName::Id))
        } else if expect_lit(s, k, ",\"parent_id\"") || expect_lit(s, k, ",\"parent\"") {
            Err(Error::Syntax)
        } else if expect_lit(s, k, "}") {
            Err(Error::MissingField(FieldName::ParentId))
        } else if expect_lit(s, k, ",") {
            Err(unknown_at(s, k + 1))
        } else {
            Err(Error::Syntax)
        }
    } else if expect_lit(s, i + 1, "\"parent_id\":") {
        child_parent_first(s, i + 13)
    } else if expect_lit(s, i + 1, "\"parent\":") {
        child_parent_first(s, i + 10)
    } else if expect_lit(s, i + 1, "\"id\"") || expect_lit(s, i + 1, "\"parent_id\"")
        || expect_lit(s, i + 1, "\"parent\"") {
        Err(Error::Syntax)
    } else if expect_lit(s, i + 1, "}") {
        Err(Error::MissingField(FieldName::Id))
    } else {
        Err(unknown_at(s, i + 1))
    }
}

/// Closes a parent document once both of its fields are collected: validates
/// integrity at the brace, builds the pair, and only then requires the end of
/// the input.
fn parent_close(s: &str, j: usize, idp: u64, dto: ChildDTO) -> (r: Result<Parent, Error>)
    requires
        j <= s@.len(),
    ensures
        r matches Ok(p) ==> p.wf() && wire::spec_parent_close(s@, j as int, idp, dto) == Ok::<
            (u64, u64),
            ErrorView,
        >((p.id, p.child.id)),
        r matches Err(e) ==> wire::spec_parent_close(s@, j as int, idp, dto) == Err::<
            (u64, u64),
            ErrorView,
        >(e@),
{
    proof {
        reveal_strlit("}");
        reveal_strlit(",");
    }
    let _slen: usize = s.unicode_len();
    if expect_lit(s, j, "}") {
        match Parent::assemble(Some(idp), Some(dto)) {
            Err(e) => Err(e),
            Ok(p) => {
                let len = s.unicode_len();
                if j + 1 == len {
                    Ok(p)
                } else {
                    Err(Error::Syntax)
                }
            },
        }
    } else if expect_lit(s, j, ",") {
        if expect_lit(s, j + 1, "\"id\"") {
            Err(Error::DuplicateField(FieldName::Id))
        } else if expect_lit(s, j + 1, "\"child\"") {
            Err(Error::DuplicateField(FieldName::Child))
        } else {
            Err(unknown_at(s, j + 1))
        }
    } else {
        Err(Error::Syntax)
    }
}

/// The root entity. It holds the only owning reference to its child; the
/// child's back-reference observes the parent without owning it, so releasing
/// the parent tears the pair down deterministically.
#[derive(Debug)]
pub struct Parent {
    pub id: u64,
    pub child: Child,
}

impl Parent {
    /// Well-formedness (the ownership invariant): the owned child's
    /// back-reference resolves to exactly this parent.
    pub open spec fn wf(self) -> bool {
        self.child.parent == ParentRef::Linked(self.id)
    }

    /// What serializing this parent yields: its id with the fully nested
    /// child document, or the child's own dangling-reference failure.
    pub open spec fn spec_serialize(self) -> Result<Seq<char>, ErrorView> {
        match self.child.parent {
            ParentRef::Unset => Err(ErrorView::DanglingReference),
            ParentRef::Linked(pid) => Ok(
                wire::parent_doc_seq(self.id, wire::child_doc(self.child.id, pid), false),
            ),
        }
    }

    /// The child left behind when this parent is released: same id, and a
    /// back-reference that no longer resolves.
    pub open spec fn spec_release(self) -> Child {
        Child { id: self.child.id, parent: ParentRef::Unset }
    }

    /// Constructs a linked pair directly, in the only order that can close
    /// the cycle: the child is built with its back-reference explicitly
    /// unset, the parent is built owning that child, and the back-reference
    /// is then patched in place to the new parent.
    pub fn new_pair(id: u64, child_id: u64) -> (p: Parent)
        ensures
            p.wf(),
            p.id == id,
            p.child.id == child_id,
    {
        let child = Child { id: child_id, parent: ParentRef::Unset };
        let mut p = Parent { id, child };
        p.child.parent = ParentRef::Linked(p.id);
        p
    }

    /// Releases the owning edge: the parent is destroyed and the surviving
    /// child's back-reference is explicitly unresolved from here on, so that
    /// observing it fails rather than yielding stale data.
    pub fn release(self) -> (c: Child)
        ensures
            c == self.spec_release(),
    {
        Child { id: self.child.id, parent: ParentRef::Unset }
    }

    /// Serializes this parent as `{"id":<id>,"child":<child document>}`, the
    /// child fully nested via its own serialization. The only failure is a
    /// child whose back-reference does not resolve, which cannot occur for a
    /// well-formed pair.
    pub fn serialize(&self) -> (r: Result<String, Error>)
        ensures
            r matches Ok(out) ==> self.spec_serialize() == Ok::<Seq<char>, ErrorView>(out@),
            r matches Err(e) ==> self.spec_serialize() == Err::<Seq<char>, ErrorView>(e@),
            self.wf() ==> (r matches Ok(out) && out@ == wire::parent_doc(self.id, self.child.id)),
    {
        let child_json = match self.child.serialize() {
            Ok(cj) => cj,
            Err(e) => {
                return Err(e);
            },
        };
        let mut out = String::new();
        out.append("{\"id\":");
        append_dec(&mut out, self.id);
        out.append(",\"child\":");
        out.append(child_json.as_str());
        out.append("}");
        proof {
            let pid = self.child.parent->Linked_0;
            assert(out@ =~= wire::parent_doc_seq(
                self.id,
                wire::child_doc(self.child.id, pid),
                false,
            ));
        }
        Ok(out)
    }

    /// What finalizing a field-driven parse yields, given which of the two
    /// recognized fields were collected: a missing-field failure naming the
    /// first absent field, an integrity failure when the child's declared
    /// parent id disagrees with the parent's own id, and the pair of ids
    /// otherwise.
    pub open spec fn spec_assemble(id: Option<u64>, child: Option<ChildDTO>) -> Result<
        (u64, u64),
        ErrorView,
    > {
        match id {
            None => Err(ErrorView::MissingField(FieldName::Id)),
            Some(idp) => match child {
                None => Err(ErrorView::MissingField(FieldName::Child)),
                Some(dto) => if dto.parent_id != idp {
                    Err(ErrorView::IntegrityMismatch)
                } else {
                    Ok((idp, dto.id))
                },
            },
        }
    }

    /// The validation-and-linking gate at the end of deserialization: both
    /// fields must have been collected and the child's declared parent id
    /// must equal the parent's own id; only then is the pair constructed,
    /// child first with an unset back-reference, then the owning parent, then
    /// the in-place patch that closes the cycle. On any failure no partial
    /// pair escapes.
    pub fn assemble(id: Option<u64>, child: Option<ChildDTO>) -> (r: Result<Parent, Error>)
        ensures
            r matches Ok(p) ==> p.wf() && Self::spec_assemble(id, child) == Ok::<
                (u64, u64),
                ErrorView,
            >((p.id, p.child.id)),
            r matches Err(e) ==> Self::spec_assemble(id, child) == Err::<(u64, u64), ErrorView>(
                e@,
            ),
    {
        let idp = match id {
            None => {
                return Err(Error::MissingField(FieldName::Id));
            },
            Some(v) => v,
        };
        let dto = match child {
            None => {
                return Err(Error::MissingField(FieldName::Child));
            },
            Some(d) => d,
        };
        if dto.parent_id != idp {
            return Err(Error::IntegrityMismatch);
        }
        let new_child = Child { id: dto.id, parent: ParentRef::Unset };
        let mut parent = Parent { id: idp, child: new_child };
        parent.child.parent = ParentRef::Linked(parent.id);
        Ok(parent)
    }

    /// Deserializes a parent document: a field-driven parse over the
    /// unordered field set `{id, child}`, the child read as its flat transfer
    /// shape, followed by the validation-and-linking gate. Yields a fully
    /// linked, well-formed pair, or the document's first failure; the result
    /// is exactly what [`wire::spec_parse`] states. At that model,
    /// [`wire::lemma_parse_input_doc`] proves that every accepted input
    /// document — in either field order — is parsed to precisely its declared
    /// ids (or refused for an integrity mismatch), and
    /// [`wire::lemma_parse_sound`] proves the converse: nothing else is ever
    /// accepted.
    #[verifier::rlimit(100)]
    pub fn deserialize(s: &str) -> (r: Result<Parent, Error>)
        ensures
            r matches Ok(p) ==> p.wf() && wire::spec_parse(s@) == Ok::<(u64, u64), ErrorView>(
                (p.id, p.child.id),
            ),
            r matches Ok(p) ==> wire::is_input_doc(s@, p.id, p.child.id, p.id),
            r matches Err(e) ==> wire::spec_parse(s@) == Err::<(u64, u64), ErrorView>(e@),
    {
        proof {
            reveal_strlit("{");
            reveal_strlit("}");
            reveal_strlit(",");
            reveal_strlit("\"id\":");
            reveal_strlit("\"child\":");
            reveal_strlit(",\"child\":");
            reveal_strlit(",\"id\":");
        }
        let _slen: usize = s.unicode_len();
        if !expect_lit(s, 0, "{") {
            return Err(Error::Syntax);
        }
        if expect_lit(s, 1, "\"id\":") {
            let (idp, i) = match parse_u64_at(s, 6) {
                None => {
                    return Err(Error::Syntax);
                },
                Some(p) => p,
            };
            if expect_lit(s, i, ",\"child\":") {
                let (dto, j) = match parse_child_at(s, i + 9) {
                    Err(e) => {
                        return Err(e);
                    },
                    Ok(p) => p,
                };
                let r = parent_close(s, j, idp, dto);
                proof {
                    if r is Ok {
                        let p = r->Ok_0;
                        wire::lemma_parse_sound(s@, p.id, p.child.id);
                    }
                }
                r
            } else if expect_lit(s, i, ",\"id\"") {
                Err(Error::DuplicateField(FieldName::Id))
            } else if expect_lit(s, i, ",\"child\"") {
                Err(Error::Syntax)
            } else if expect_lit(s, i, "}") {
                Err(Error::MissingField(FieldName::Child))
            } else if expect_lit(s, i, ",") {
                Err(unknown_at(s, i + 1))
            } else {
                Err(Error::Syntax)
            }
        } else if expect_lit(s, 1, "\"child\":") {
            let (dto, k) = match parse_child_at(s, 9) {
                Err(e) => {
                    return Err(e);
                },
                Ok(p) => p,
            };
            if expect_lit(s, k, ",\"id\":") {
                let (idp, m) = match parse_u64_at(s, k + 6) {
                    None => {
                        return Err(Error::Syntax);
                    },
                    Some(p) => p,
                };
                let r = parent_close(s, m, idp, dto);
                proof {
                    if r is Ok {
                        let p = r->Ok_0;
                        wire::lemma_parse_sound(s@, p.id, p.child.id);
                    }
                }
                r
            } else if expect_lit(s, k, ",\"child\"") {
                Err(Error::DuplicateField(FieldName::Child))
            } else if expect_lit(s, k, ",\"id\"") {
                Err(Error::Syntax)
            } else if expect_lit(s, k, "}") {
                Err(Error::MissingField(FieldName::Id))
            } else if expect_lit(s, k, ",") {
                Err(unknown_at(s, k + 1))
            } else {
                Err(Error::Syntax)
            }
        } else if expect_lit(s, 1, "\"id\"") || expect_lit(s, 1, "\"child\"") {
            Err(Error::Syntax)
        } else if expect_lit(s, 1, "}") {
            Err(Error::MissingField(FieldName::Id))
        } else {
            Err(unknown_at(s, 1))
        }
    }
}

/// Round-trip identity: every well-formed pair serializes to its canonical
/// document, and that document deserializes back to exactly the same parent
/// and child ids. Together with [`Parent::deserialize`]'s contract — a parsed
/// pair is well-formed, so its back-reference resolves to the reconstructed
/// parent — serializing a pair and deserializing the result reproduces it.
pub proof fn lemma_round_trip(p: Parent)
    requires
        p.wf(),
    ensures
        p.spec_serialize() == Ok::<Seq<char>, ErrorView>(wire::parent_doc(p.id, p.child.id)),
        wire::spec_parse(wire::parent_doc(p.id, p.child.id)) == Ok::<(u64, u64), ErrorView>(
            (p.id, p.child.id),
        ),
{
    wire::lemma_round_trip_doc(p.id, p.child.id);
}

/// Back-reference resolution: for as long as a parent owns its child, the
/// child's back-reference resolves to exactly that parent's id.
pub proof fn lemma_back_reference(p: Parent)
    requires
        p.wf(),
    ensures
        p.child.spec_resolve() == Ok::<u64, ErrorView>(p.id),
{
}

/// Dangling detection: once the owning parent has been released, the
/// surviving child neither resolves nor serializes; both fail with a
/// dangling-reference error rather than yielding a default or stale id.
pub proof fn lemma_dangling_after_release(p: Parent)
    ensures
        p.spec_release().spec_resolve() == Err::<u64, ErrorView>(ErrorView::DanglingReference),
        p.spec_release().spec_serialize() == Err::<Seq<char>, ErrorView>(
            ErrorView::DanglingReference,
        ),
{
}

} // verus!
