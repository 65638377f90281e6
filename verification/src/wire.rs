//! The flat text wire format: document shapes as sequences of characters,
//! plus the small executable scanners (literal match, quoted key, decimal
//! number) that the deserializer is built from.
//!
//! A parent document is `{"id":<u64>,"child":<child object>}`; the nested
//! child object carries the child's id and the declared id of its parent as
//! plain integers (`{"id":<u64>,"parent_id":<u64>}`). Field order is
//! insignificant on input, and the back-reference field of the child object
//! is accepted under either its input name `parent_id` or the name `parent`
//! that serialization emits, so that every document this library writes is
//! also accepted back.

use vstd::prelude::*;

use crate::child::ChildDTO;
use crate::digits::{dec_of, is_digit, spec_parse_num};
use crate::errors::{ErrorView, FieldName};

verus! {

/// `lit` occurs in `s` starting at position `i`.
pub open spec fn starts_lit(s: Seq<char>, i: int, lit: Seq<char>) -> bool {
    0 <= i && i + lit.len() <= s.len() && s.subrange(i, i + lit.len() as int) == lit
}

/// The first position at or after `j` holding character `c`.
pub open spec fn find_char(s: Seq<char>, j: int, c: char) -> Option<int>
    decreases s.len() - j,
{
    if !(0 <= j < s.len()) {
        None
    } else if s[j] == c {
        Some(j)
    } else {
        find_char(s, j + 1, c)
    }
}

/// An occurrence of `c` at `j`, with none earlier, pins down [`find_char`].
pub proof fn lemma_find_char_pins(s: Seq<char>, start: int, j: int, c: char)
    requires
        0 <= start <= j < s.len(),
        s[j] == c,
        forall|m: int| start <= m < j ==> s[m] != c,
    ensures
        find_char(s, start, c) == Some(j),
    decreases j - start,
{
    if start < j {
        lemma_find_char_pins(s, start + 1, j, c);
    }
}

/// If `c` occurs nowhere at or after `start`, [`find_char`] yields nothing.
pub proof fn lemma_find_char_none(s: Seq<char>, start: int, c: char)
    requires
        0 <= start <= s.len(),
        forall|m: int| start <= m < s.len() ==> s[m] != c,
    ensures
        find_char(s, start, c) is None,
    decreases s.len() - start,
{
    if start < s.len() {
        lemma_find_char_none(s, start + 1, c);
    }
}

/// What a quoted field name at position `i` denotes: the name (without its
/// quotes) and the position one past the closing quote.
pub open spec fn spec_key(s: Seq<char>, i: int) -> Option<(Seq<char>, int)> {
    if 0 <= i < s.len() && s[i] == '"' {
        match find_char(s, i + 1, '"') {
            Some(q) => Some((s.subrange(i + 1, q), q + 1)),
            None => None,
        }
    } else {
        None
    }
}

/// The error for an unrecognized field at position `i`: the field's name if
/// one can be read there, otherwise a syntax failure.
pub open spec fn unknown_err(s: Seq<char>, i: int) -> ErrorView {
    match spec_key(s, i) {
        Some((name, _)) => ErrorView::UnknownField(name),
        None => ErrorView::Syntax,
    }
}

/// The nested child object denoting child id `idc` with declared parent id
/// `pid`, in one of its four accepted spellings: either field may come first,
/// and the back-reference field may be named `parent_id` or `parent`.
pub open spec fn child_obj_seq(idc: u64, pid: u64, parent_first: bool, alias: bool) -> Seq<char> {
    let fid = "\"id\":"@ + dec_of(idc as nat);
    let fpar = (if alias {
        "\"parent\":"@
    } else {
        "\"parent_id\":"@
    }) + dec_of(pid as nat);
    if parent_first {
        "{"@ + fpar + ","@ + fid + "}"@
    } else {
        "{"@ + fid + ","@ + fpar + "}"@
    }
}

/// `c` is a child object denoting `(idc, pid)` in some accepted spelling.
pub open spec fn is_child_obj(c: Seq<char>, idc: u64, pid: u64) -> bool {
    exists|parent_first: bool, alias: bool|
        c == child_obj_seq(idc, pid, parent_first, alias)
}

/// The parent document with own id `idp` and nested child object `c`, with
/// either field first.
pub open spec fn parent_doc_seq(idp: u64, c: Seq<char>, child_first: bool) -> Seq<char> {
    if child_first {
        "{\"child\":"@ + c + ",\"id\":"@ + dec_of(idp as nat) + "}"@
    } else {
        "{\"id\":"@ + dec_of(idp as nat) + ",\"child\":"@ + c + "}"@
    }
}

/// `s` is an accepted parent document declaring parent id `idp`, child id
/// `idc`, and `pid` as the child's declared parent id. Integrity (`pid ==
/// idp`) is deliberately not part of the shape: deserialization validates it
/// separately.
pub open spec fn is_input_doc(s: Seq<char>, idp: u64, idc: u64, pid: u64) -> bool {
    exists|c: Seq<char>, child_first: bool|
        is_child_obj(c, idc, pid) && s == parent_doc_seq(idp, c, child_first)
}

/// The canonical serialized form of a child: its id, then its parent resolved
/// to a scalar id under the output field name `parent`.
pub open spec fn child_doc(idc: u64, pid: u64) -> Seq<char> {
    child_obj_seq(idc, pid, false, true)
}

/// The canonical serialized form of a linked pair: the parent's id, then the
/// fully nested child document.
pub open spec fn parent_doc(idp: u64, idc: u64) -> Seq<char> {
    parent_doc_seq(idp, child_doc(idc, idp), false)
}

/// What reading the tail of a child object yields once both of its fields
/// have been collected, at position `m`: the finished transfer value one past
/// the closing brace, or the error for whatever stands there instead.
pub open spec fn spec_child_tail(s: Seq<char>, m: int, idc: u64, pid: u64) -> Result<
    (ChildDTO, int),
    ErrorView,
> {
    if starts_lit(s, m, "}"@) {
        Ok((ChildDTO { id: idc, parent_id: pid }, m + 1))
    } else if starts_lit(s, m, ","@) {
        Err(spec_child_extra(s, m + 1))
    } else {
        Err(ErrorView::Syntax)
    }
}

/// The error for a third field inside a child object, whose two recognized
/// fields are both already collected: a repeated field (the back-reference
/// slot under either of its accepted names), an unknown one, or broken text.
pub open spec fn spec_child_extra(s: Seq<char>, k: int) -> ErrorView {
    if starts_lit(s, k, "\"id\""@) {
        ErrorView::DuplicateField(FieldName::Id)
    } else if starts_lit(s, k, "\"parent_id\""@) || starts_lit(s, k, "\"parent\""@) {
        ErrorView::DuplicateField(FieldName::ParentId)
    } else {
        unknown_err(s, k)
    }
}

/// What reading a child object at position `i` yields: the transfer value and
/// the position one past its closing brace, or the first failure in
/// encounter order. Each recognized field is accepted at most once (the
/// back-reference field under either accepted name, sharing one slot), a
/// field outside the recognized set fails with its name, and a field still
/// absent at the closing brace fails as missing, the child's own id checked
/// first.
pub open spec fn spec_parse_child(s: Seq<char>, i: int) -> Result<(ChildDTO, int), ErrorView> {
    if !starts_lit(s, i, "{"@) {
        Err(ErrorView::Syntax)
    } else if starts_lit(s, i + 1, "\"id\":"@) {
        match spec_parse_num(s, i + 6) {
            None => Err(ErrorView::Syntax),
            Some((idc, k)) => spec_parse_child_id_first(s, idc, k),
        }
    } else if starts_lit(s, i + 1, "\"parent_id\":"@) {
        spec_parse_child_parent_first(s, i + 13)
    } else if starts_lit(s, i + 1, "\"parent\":"@) {
        spec_parse_child_parent_first(s, i + 10)
    } else if starts_lit(s, i + 1, "\"id\""@) || starts_lit(s, i + 1, "\"parent_id\""@)
        || starts_lit(s, i + 1, "\"parent\""@) {
        Err(ErrorView::Syntax)
    } else if starts_lit(s, i + 1, "}"@) {
        Err(ErrorView::MissingField(FieldName::Id))
    } else {
        Err(unknown_err(s, i + 1))
    }
}

/// The rest of a child object whose own id came first, its value `idc`
/// already read, continuing at position `k`.
pub open spec fn spec_parse_child_id_first(s: Seq<char>, idc: u64, k: int) -> Result<
    (ChildDTO, int),
    ErrorView,
> {
    if starts_lit(s, k, ",\"parent_id\":"@) {
        match spec_parse_num(s, k + 13) {
            None => Err(ErrorView::Syntax),
            Some((pid, m)) => spec_child_tail(s, m, idc, pid),
        }
    } else if starts_lit(s, k, ",\"parent\":"@) {
        match spec_parse_num(s, k + 10) {
            None => Err(ErrorView::Syntax),
            Some((pid, m)) => spec_child_tail(s, m, idc, pid),
        }
    } else if starts_lit(s, k, ",\"id\""@) {
        Err(ErrorView::DuplicateField(FieldName::Id))
    } else if starts_lit(s, k, ",\"parent_id\""@) || starts_lit(s, k, ",\"parent\""@) {
        Err(ErrorView::Syntax)
    } else if starts_lit(s, k, "}"@) {
        Err(ErrorView::MissingField(FieldName::ParentId))
    } else if starts_lit(s, k, ","@) {
        Err(unknown_err(s, k + 1))
    } else {
        Err(ErrorView::Syntax)
    }
}

/// The rest of a child object whose back-reference field came first, its
/// number starting at `n`.
pub open spec fn spec_parse_child_parent_first(s: Seq<char>, n: int) -> Result<
    (ChildDTO, int),
    ErrorView,
> {
    match spec_parse_num(s, n) {
        None => Err(ErrorView::Syntax),
        Some((pid, k)) => if starts_lit(s, k, ",\"id\":"@) {
            match spec_parse_num(s, k + 6) {
                None => Err(ErrorView::Syntax),
                Some((idc, m)) => spec_child_tail(s, m, idc, pid),
            }
        } else if starts_lit(s, k, ",\"parent_id\""@) || starts_lit(s, k, ",\"parent\""@) {
            Err(ErrorView::DuplicateField(FieldName::ParentId))
        } else if starts_lit(s, k, ",\"id\""@) {
            Err(ErrorView::Syntax)
        } else if starts_lit(s, k, "}"@) {
            Err(ErrorView::MissingField(FieldName::Id))
        } else if starts_lit(s, k, ","@) {
            Err(unknown_err(s, k + 1))
        } else {
            Err(ErrorView::Syntax)
        },
    }
}

/// What closing a parent document yields once both of its fields have been
/// collected, at position `j`: integrity is validated at the closing brace
/// (before anything after the document is even considered), then the
/// document must end; a third field instead of the brace is a duplicate or
/// unknown field.
pub open spec fn spec_parent_close(s: Seq<char>, j: int, idp: u64, dto: ChildDTO) -> Result<
    (u64, u64),
    ErrorView,
> {
    if starts_lit(s, j, "}"@) {
        if dto.parent_id != idp {
            Err(ErrorView::IntegrityMismatch)
        } else if j + 1 == s.len() {
            Ok((idp, dto.id))
        } else {
            Err(ErrorView::Syntax)
        }
    } else if starts_lit(s, j, ","@) {
        Err(spec_parent_extra(s, j + 1))
    } else {
        Err(ErrorView::Syntax)
    }
}

/// The error for a third field in a parent document whose two recognized
/// fields are both already collected.
pub open spec fn spec_parent_extra(s: Seq<char>, k: int) -> ErrorView {
    if starts_lit(s, k, "\"id\""@) {
        ErrorView::DuplicateField(FieldName::Id)
    } else if starts_lit(s, k, "\"child\""@) {
        ErrorView::DuplicateField(FieldName::Child)
    } else {
        unknown_err(s, k)
    }
}

/// What deserializing a parent document yields: the declared parent and child
/// ids of a well-formed, integrity-checked document, or its first failure in
/// encounter order. This is the complete mathematical model of
/// deserialization: a field-driven parse over the unordered field set
/// `{id, child}`, each field accepted at most once, unknown fields rejected
/// by name, missing fields reported at the closing brace (`id` first), the
/// cross-declared ids validated before any result is produced, and nothing
/// permitted after the document.
pub open spec fn spec_parse(s: Seq<char>) -> Result<(u64, u64), ErrorView> {
    if !starts_lit(s, 0, "{"@) {
        Err(ErrorView::Syntax)
    } else if starts_lit(s, 1, "\"id\":"@) {
        match spec_parse_num(s, 6) {
            None => Err(ErrorView::Syntax),
            Some((idp, i)) => spec_parse_id_first(s, idp, i),
        }
    } else if starts_lit(s, 1, "\"child\":"@) {
        match spec_parse_child(s, 9) {
            Err(e) => Err(e),
            Ok((dto, k)) => spec_parse_child_field_first(s, dto, k),
        }
    } else if starts_lit(s, 1, "\"id\""@) || starts_lit(s, 1, "\"child\""@) {
        Err(ErrorView::Syntax)
    } else if starts_lit(s, 1, "}"@) {
        Err(ErrorView::MissingField(FieldName::Id))
    } else {
        Err(unknown_err(s, 1))
    }
}

/// The rest of a parent document whose own id came first, its value `idp`
/// already read, continuing at position `i`.
pub open spec fn spec_parse_id_first(s: Seq<char>, idp: u64, i: int) -> Result<
    (u64, u64),
    ErrorView,
> {
    if starts_lit(s, i, ",\"child\":"@) {
        match spec_parse_child(s, i + 9) {
            Err(e) => Err(e),
            Ok((dto, j)) => spec_parent_close(s, j, idp, dto),
        }
    } else if starts_lit(s, i, ",\"id\""@) {
        Err(ErrorView::DuplicateField(FieldName::Id))
    } else if starts_lit(s, i, ",\"child\""@) {
        Err(ErrorView::Syntax)
    } else if starts_lit(s, i, "}"@) {
        Err(ErrorView::MissingField(FieldName::Child))
    } else if starts_lit(s, i, ","@) {
        Err(unknown_err(s, i + 1))
    } else {
        Err(ErrorView::Syntax)
    }
}

/// The rest of a parent document whose child field came first, its transfer
/// value already read, continuing at position `k`.
pub open spec fn spec_parse_child_field_first(s: Seq<char>, dto: ChildDTO, k: int) -> Result<
    (u64, u64),
    ErrorView,
> {
    if starts_lit(s, k, ",\"id\":"@) {
        match spec_parse_num(s, k + 6) {
            None => Err(ErrorView::Syntax),
            Some((idp, m)) => spec_parent_close(s, m, idp, dto),
        }
    } else if starts_lit(s, k, ",\"child\""@) {
        Err(ErrorView::DuplicateField(FieldName::Child))
    } else if starts_lit(s, k, ",\"id\""@) {
        Err(ErrorView::Syntax)
    } else if starts_lit(s, k, "}"@) {
        Err(ErrorView::MissingField(FieldName::Id))
    } else if starts_lit(s, k, ","@) {
        Err(unknown_err(s, k + 1))
    } else {
        Err(ErrorView::Syntax)
    }
}

/// A literal sitting inside `c` also sits inside any string that contains `c`
/// as a block.
pub proof fn lemma_starts_lit_nested(s: Seq<char>, c: Seq<char>, i: int, off: int, lit: Seq<char>)
    requires
        0 <= i,
        i + c.len() <= s.len(),
        s.subrange(i, i + c.len() as int) == c,
        0 <= off,
        off + lit.len() <= c.len(),
        c.subrange(off, off + lit.len() as int) == lit,
    ensures
        starts_lit(s, i + off, lit),
        s.subrange(i + off, i + off + lit.len() as int) == lit,
{
    assert forall|t: int| 0 <= t < lit.len() implies s.subrange(
        i + off,
        i + off + lit.len() as int,
    )[t] == lit[t] by {
        assert(c[off + t] == s.subrange(i, i + c.len() as int)[off + t]);
        assert(lit[t] == c.subrange(off, off + lit.len() as int)[t]);
    }
    assert(s.subrange(i + off, i + off + lit.len() as int) =~= lit);
}

/// The length of a child object: its fixed characters plus its two numbers.
pub proof fn lemma_child_obj_len(idc: u64, pid: u64, parent_first: bool, alias: bool)
    ensures
        child_obj_seq(idc, pid, parent_first, alias).len() == (if alias {
            17int
        } else {
            20int
        }) + dec_of(idc as nat).len() + dec_of(pid as nat).len(),
        child_obj_seq(idc, pid, parent_first, alias).len() >= 19,
{
    reveal_strlit("{");
    reveal_strlit("}");
    reveal_strlit(",");
    reveal_strlit("\"id\":");
    reveal_strlit("\"parent_id\":");
    reveal_strlit("\"parent\":");
    crate::digits::lemma_dec_of_digits(idc as nat);
    crate::digits::lemma_dec_of_digits(pid as nat);
}

/// A child object embedded in a larger string, in any of its four accepted
/// spellings, is read back as exactly the ids it denotes, consuming exactly
/// its own characters.
#[verifier::rlimit(100)]
pub proof fn lemma_parse_child_obj(
    s: Seq<char>,
    i: int,
    idc: u64,
    pid: u64,
    parent_first: bool,
    alias: bool,
)
    requires
        0 <= i,
        i + child_obj_seq(idc, pid, parent_first, alias).len() <= s.len(),
        s.subrange(i, i + child_obj_seq(idc, pid, parent_first, alias).len() as int)
            == child_obj_seq(idc, pid, parent_first, alias),
    ensures
        spec_parse_child(s, i) == Ok::<(ChildDTO, int), ErrorView>(
            (
                ChildDTO { id: idc, parent_id: pid },
                i + child_obj_seq(idc, pid, parent_first, alias).len() as int,
            ),
        ),
{
    reveal_strlit("{");
    reveal_strlit("}");
    reveal_strlit(",");
    reveal_strlit("\"id\":");
    reveal_strlit("\"parent_id\":");
    reveal_strlit("\"parent\":");
    reveal_strlit(",\"parent_id\":");
    reveal_strlit(",\"parent\":");
    reveal_strlit(",\"id\":");
    let c = child_obj_seq(idc, pid, parent_first, alias);
    let d1 = dec_of(idc as nat).len() as int;
    let d2 = dec_of(pid as nat).len() as int;
    crate::digits::lemma_dec_of_digits(idc as nat);
    crate::digits::lemma_dec_of_digits(pid as nat);
    assert(!is_digit(','));
    assert(!is_digit('}'));
    assert(c.subrange(0, 1) =~= "{"@);
    lemma_starts_lit_nested(s, c, i, 0, "{"@);
    if !parent_first {
        assert(c.subrange(1, 6) =~= "\"id\":"@);
        lemma_starts_lit_nested(s, c, i, 1, "\"id\":"@);
        assert(c.subrange(6, 6 + d1) =~= dec_of(idc as nat));
        lemma_starts_lit_nested(s, c, i, 6, dec_of(idc as nat));
        assert(s[i + 6 + d1] == ',') by {
            assert(c[6 + d1] == ',');
            assert(c[6 + d1] == s.subrange(i, i + c.len() as int)[6 + d1]);
        }
        crate::digits::lemma_parse_num_at(s, i + 6, idc);
        let k = i + 6 + d1;
        if !alias {
            assert(c.subrange(6 + d1, 19 + d1) =~= ",\"parent_id\":"@);
            lemma_starts_lit_nested(s, c, i, 6 + d1, ",\"parent_id\":"@);
            assert(c.subrange(19 + d1, 19 + d1 + d2) =~= dec_of(pid as nat));
            lemma_starts_lit_nested(s, c, i, 19 + d1, dec_of(pid as nat));
            assert(s[i + 19 + d1 + d2] == '}') by {
                assert(c[19 + d1 + d2] == '}');
                assert(c[19 + d1 + d2] == s.subrange(i, i + c.len() as int)[19 + d1 + d2]);
            }
            crate::digits::lemma_parse_num_at(s, k + 13, pid);
            assert(c.subrange(19 + d1 + d2, 20 + d1 + d2) =~= "}"@);
            lemma_starts_lit_nested(s, c, i, 19 + d1 + d2, "}"@);
            assert(c.len() == 20 + d1 + d2);
        } else {
            assert(c.subrange(6 + d1, 16 + d1) =~= ",\"parent\":"@);
            lemma_starts_lit_nested(s, c, i, 6 + d1, ",\"parent\":"@);
            assert(s[k + 8] == '"') by {
                let lit = ",\"parent\":"@;
                assert(s.subrange(k, k + 10)[8] == lit[8]);
            }
            assert(!starts_lit(s, k, ",\"parent_id\":"@)) by {
                if starts_lit(s, k, ",\"parent_id\":"@) {
                    assert(s.subrange(k, k + 13)[8] == ",\"parent_id\":"@[8]);
                }
            }
            assert(c.subrange(16 + d1, 16 + d1 + d2) =~= dec_of(pid as nat));
            lemma_starts_lit_nested(s, c, i, 16 + d1, dec_of(pid as nat));
            assert(s[i + 16 + d1 + d2] == '}') by {
                assert(c[16 + d1 + d2] == '}');
                assert(c[16 + d1 + d2] == s.subrange(i, i + c.len() as int)[16 + d1 + d2]);
            }
            crate::digits::lemma_parse_num_at(s, k + 10, pid);
            assert(c.subrange(16 + d1 + d2, 17 + d1 + d2) =~= "}"@);
            lemma_starts_lit_nested(s, c, i, 16 + d1 + d2, "}"@);
            assert(c.len() == 17 + d1 + d2);
        }
    } else {
        if !alias {
            assert(c.subrange(1, 13) =~= "\"parent_id\":"@);
            lemma_starts_lit_nested(s, c, i, 1, "\"parent_id\":"@);
            assert(s[i + 2] == 'p') by {
                let lit = "\"parent_id\":"@;
                assert(s.subrange(i + 1, i + 13)[1] == lit[1]);
            }
            assert(!starts_lit(s, i + 1, "\"id\":"@)) by {
                if starts_lit(s, i + 1, "\"id\":"@) {
                    assert(s.subrange(i + 1, i + 6)[1] == "\"id\":"@[1]);
                }
            }
            assert(c.subrange(13, 13 + d2) =~= dec_of(pid as nat));
            lemma_starts_lit_nested(s, c, i, 13, dec_of(pid as nat));
            assert(s[i + 13 + d2] == ',') by {
                assert(c[13 + d2] == ',');
                assert(c[13 + d2] == s.subrange(i, i + c.len() as int)[13 + d2]);
            }
            crate::digits::lemma_parse_num_at(s, i + 13, pid);
            let k = i + 13 + d2;
            assert(c.subrange(13 + d2, 19 + d2) =~= ",\"id\":"@);
            lemma_starts_lit_nested(s, c, i, 13 + d2, ",\"id\":"@);
            assert(c.subrange(19 + d2, 19 + d2 + d1) =~= dec_of(idc as nat));
            lemma_starts_lit_nested(s, c, i, 19 + d2, dec_of(idc as nat));
            assert(s[i + 19 + d2 + d1] == '}') by {
                assert(c[19 + d2 + d1] == '}');
                assert(c[19 + d2 + d1] == s.subrange(i, i + c.len() as int)[19 + d2 + d1]);
            }
            crate::digits::lemma_parse_num_at(s, k + 6, idc);
            assert(c.subrange(19 + d2 + d1, 20 + d2 + d1) =~= "}"@);
            lemma_starts_lit_nested(s, c, i, 19 + d2 + d1, "}"@);
            assert(c.len() == 20 + d1 + d2);
        } else {
            assert(c.subrange(1, 10) =~= "\"parent\":"@);
            lemma_starts_lit_nested(s, c, i, 1, "\"parent\":"@);
            assert(s[i + 2] == 'p') by {
                let lit = "\"parent\":"@;
                assert(s.subrange(i + 1, i + 10)[1] == lit[1]);
            }
            assert(!starts_lit(s, i + 1, "\"id\":"@)) by {
                if starts_lit(s, i + 1, "\"id\":"@) {
                    assert(s.subrange(i + 1, i + 6)[1] == "\"id\":"@[1]);
                }
            }
            assert(s[i + 8] == '"') by {
                let lit = "\"parent\":"@;
                assert(s.subrange(i + 1, i + 10)[7] == lit[7]);
            }
            assert(!starts_lit(s, i + 1, "\"parent_id\":"@)) by {
                if starts_lit(s, i + 1, "\"parent_id\":"@) {
                    assert(s.subrange(i + 1, i + 13)[7] == "\"parent_id\":"@[7]);
                }
            }
            assert(c.subrange(10, 10 + d2) =~= dec_of(pid as nat));
            lemma_starts_lit_nested(s, c, i, 10, dec_of(pid as nat));
            assert(s[i + 10 + d2] == ',') by {
                assert(c[10 + d2] == ',');
                assert(c[10 + d2] == s.subrange(i, i + c.len() as int)[10 + d2]);
            }
            crate::digits::lemma_parse_num_at(s, i + 10, pid);
            let k = i + 10 + d2;
            assert(c.subrange(10 + d2, 16 + d2) =~= ",\"id\":"@);
            lemma_starts_lit_nested(s, c, i, 10 + d2, ",\"id\":"@);
            assert(c.subrange(16 + d2, 16 + d2 + d1) =~= dec_of(idc as nat));
            lemma_starts_lit_nested(s, c, i, 16 + d2, dec_of(idc as nat));
            assert(s[i + 16 + d2 + d1] == '}') by {
                assert(c[16 + d2 + d1] == '}');
                assert(c[16 + d2 + d1] == s.subrange(i, i + c.len() as int)[16 + d2 + d1]);
            }
            crate::digits::lemma_parse_num_at(s, k + 6, idc);
            assert(c.subrange(16 + d2 + d1, 17 + d2 + d1) =~= "}"@);
            lemma_starts_lit_nested(s, c, i, 16 + d2 + d1, "}"@);
            assert(c.len() == 17 + d1 + d2);
        }
    }
}

/// Every accepted input document parses to exactly the ids it declares — in
/// either field order, with either spelling of the child's back-reference
/// field — provided its cross-declared ids agree; when they disagree, parsing
/// fails with the integrity error and nothing else.
#[verifier::rlimit(100)]
#[verifier::spinoff_prover]
proof fn lemma_doc_id_prefix(s: Seq<char>, idp: u64, c: Seq<char>)
    requires
        s == parent_doc_seq(idp, c, false),
        c.len() >= 1,
    ensures
        starts_lit(s, 0, "{"@),
        starts_lit(s, 1, "\"id\":"@),
        spec_parse_num(s, 6) == Some((idp, 6 + dec_of(idp as nat).len() as int)),
        starts_lit(s, 6 + dec_of(idp as nat).len() as int, ",\"child\":"@),
        s.subrange(
            15 + dec_of(idp as nat).len() as int,
            15 + dec_of(idp as nat).len() as int + c.len() as int,
        ) == c,
        starts_lit(s, 15 + dec_of(idp as nat).len() as int + c.len() as int, "}"@),
        s.len() == 16 + dec_of(idp as nat).len() + c.len(),
{
    reveal_strlit("{");
    reveal_strlit("}");
    reveal_strlit(",");
    reveal_strlit("\"id\":");
    reveal_strlit("{\"id\":");
    reveal_strlit(",\"child\":");
    let dp = dec_of(idp as nat).len() as int;
    let cl = c.len() as int;
    crate::digits::lemma_dec_of_digits(idp as nat);
    assert(!is_digit(','));
    assert(s.len() == 16 + dp + cl);
    assert(starts_lit(s, 0, "{"@)) by {
        assert(s.subrange(0, 1) =~= "{"@);
    }
    assert(starts_lit(s, 1, "\"id\":"@)) by {
        assert(s.subrange(1, 6) =~= "\"id\":"@);
    }
    assert(s.subrange(6, 6 + dp) =~= dec_of(idp as nat));
    assert(s[6 + dp] == ',');
    crate::digits::lemma_parse_num_at(s, 6, idp);
    assert(starts_lit(s, 6 + dp, ",\"child\":"@)) by {
        assert(s.subrange(6 + dp, 15 + dp) =~= ",\"child\":"@);
    }
    assert(s.subrange(15 + dp, 15 + dp + cl) =~= c);
    assert(starts_lit(s, 15 + dp + cl, "}"@)) by {
        assert(s.subrange(15 + dp + cl, 16 + dp + cl) =~= "}"@);
    }
}

#[verifier::rlimit(100)]
#[verifier::spinoff_prover]
proof fn lemma_parse_doc_id_first(s: Seq<char>, idp: u64, idc: u64, pid: u64, c: Seq<char>)
    requires
        is_child_obj(c, idc, pid),
        s == parent_doc_seq(idp, c, false),
    ensures
        spec_parse(s) == if pid == idp {
            Ok::<(u64, u64), ErrorView>((idp, idc))
        } else {
            Err::<(u64, u64), ErrorView>(ErrorView::IntegrityMismatch)
        },
{
    let (pf, al) = choose|pf: bool, al: bool| c == child_obj_seq(idc, pid, pf, al);
    let dp = dec_of(idp as nat).len() as int;
    let cl = c.len() as int;
    lemma_child_obj_len(idc, pid, pf, al);
    lemma_doc_id_prefix(s, idp, c);
    lemma_parse_child_obj(s, 15 + dp, idc, pid, pf, al);
    let i2 = 6 + dp;
    let j = 15 + dp + cl;
    let dto = ChildDTO { id: idc, parent_id: pid };
    assert(spec_parse_child(s, 15 + dp) == Ok::<(ChildDTO, int), ErrorView>((dto, j)));
    assert(spec_parent_close(s, j, idp, dto) == if pid == idp {
        Ok::<(u64, u64), ErrorView>((idp, idc))
    } else {
        Err::<(u64, u64), ErrorView>(ErrorView::IntegrityMismatch)
    });
    assert(spec_parse_id_first(s, idp, i2) == spec_parent_close(s, j, idp, dto));
    assert(spec_parse(s) == spec_parse_id_first(s, idp, i2));
}

#[verifier::rlimit(100)]
#[verifier::spinoff_prover]
proof fn lemma_parse_doc_child_first(s: Seq<char>, idp: u64, idc: u64, pid: u64, c: Seq<char>)
    requires
        is_child_obj(c, idc, pid),
        s == parent_doc_seq(idp, c, true),
    ensures
        spec_parse(s) == if pid == idp {
            Ok::<(u64, u64), ErrorView>((idp, idc))
        } else {
            Err::<(u64, u64), ErrorView>(ErrorView::IntegrityMismatch)
        },
{
    reveal_strlit("{");
    reveal_strlit("}");
    reveal_strlit(",");
    reveal_strlit("\"id\":");
    reveal_strlit("\"child\":");
    reveal_strlit("{\"child\":");
    reveal_strlit(",\"id\":");
    let (pf, al) = choose|pf: bool, al: bool| c == child_obj_seq(idc, pid, pf, al);
    let dp = dec_of(idp as nat).len() as int;
    let cl = c.len() as int;
    crate::digits::lemma_dec_of_digits(idp as nat);
    assert(!is_digit('}'));
    lemma_child_obj_len(idc, pid, pf, al);
    assert(s.len() == 16 + dp + cl);
    assert(starts_lit(s, 0, "{"@)) by {
        assert(s.subrange(0, 1) =~= "{"@);
    }
    assert(s[2] == 'c');
    assert(!starts_lit(s, 1, "\"id\":"@)) by {
        if starts_lit(s, 1, "\"id\":"@) {
            assert(s.subrange(1, 6)[1] == "\"id\":"@[1]);
        }
    }
    assert(starts_lit(s, 1, "\"child\":"@)) by {
        assert(s.subrange(1, 9) =~= "\"child\":"@);
    }
    assert(s.subrange(9, 9 + cl) =~= c);
    lemma_parse_child_obj(s, 9, idc, pid, pf, al);
    let k = 9 + cl;
    let dto = ChildDTO { id: idc, parent_id: pid };
    assert(spec_parse_child(s, 9) == Ok::<(ChildDTO, int), ErrorView>((dto, k)));
    assert(starts_lit(s, k, ",\"id\":"@)) by {
        assert(s.subrange(k, k + 6) =~= ",\"id\":"@);
    }
    assert(s.subrange(k + 6, k + 6 + dp) =~= dec_of(idp as nat));
    assert(s[k + 6 + dp] == '}');
    crate::digits::lemma_parse_num_at(s, k + 6, idp);
    assert(starts_lit(s, k + 6 + dp, "}"@)) by {
        assert(s.subrange(k + 6 + dp, k + 7 + dp) =~= "}"@);
    }
    assert(k + 7 + dp == s.len());
    assert(spec_parse_child_field_first(s, dto, k) == spec_parent_close(s, k + 6 + dp, idp, dto));
}

pub proof fn lemma_parse_input_doc(s: Seq<char>, idp: u64, idc: u64, pid: u64)
    requires
        is_input_doc(s, idp, idc, pid),
    ensures
        spec_parse(s) == if pid == idp {
            Ok::<(u64, u64), ErrorView>((idp, idc))
        } else {
            Err::<(u64, u64), ErrorView>(ErrorView::IntegrityMismatch)
        },
{
    let (c, child_first) = choose|c: Seq<char>, child_first: bool|
        is_child_obj(c, idc, pid) && s == parent_doc_seq(idp, c, child_first);
    if child_first {
        lemma_parse_doc_child_first(s, idp, idc, pid, c);
    } else {
        lemma_parse_doc_id_first(s, idp, idc, pid, c);
    }
}

/// The canonical serialized document of a pair is itself an accepted input
/// document, and parses back to the very ids it was produced from.
pub proof fn lemma_round_trip_doc(idp: u64, idc: u64)
    ensures
        is_input_doc(parent_doc(idp, idc), idp, idc, idp),
        spec_parse(parent_doc(idp, idc)) == Ok::<(u64, u64), ErrorView>((idp, idc)),
{
    let c = child_doc(idc, idp);
    assert(is_child_obj(c, idc, idp)) by {
        assert(c == child_obj_seq(idc, idp, false, true));
    }
    assert(is_input_doc(parent_doc(idp, idc), idp, idc, idp)) by {
        assert(is_child_obj(c, idc, idp) && parent_doc(idp, idc) == parent_doc_seq(
            idp,
            c,
            false,
        ));
    }
    lemma_parse_input_doc(parent_doc(idp, idc), idp, idc, idp);
}

/// A block equality on a subrange, spelled out character by character.
proof fn lemma_block_chars(s: Seq<char>, a: int, b: int, blk: Seq<char>)
    requires
        0 <= a,
        a + blk.len() == b <= s.len(),
        s.subrange(a, b) == blk,
    ensures
        forall|x: int| a <= x < b ==> s[x] == blk[x - a],
{
    assert forall|x: int| a <= x < b implies s[x] == blk[x - a] by {
        assert(s.subrange(a, b)[x - a] == blk[x - a]);
    }
}

/// Inverse of the back-reference-first reading: what it accepts from `n` on
/// is exactly a back-reference number, an id field, and the closing brace.
#[verifier::rlimit(100)]
#[verifier::spinoff_prover]
proof fn lemma_child_parent_first_inv(s: Seq<char>, n: int, dto: ChildDTO, j: int)
    requires
        0 <= n <= s.len(),
        spec_parse_child_parent_first(s, n) == Ok::<(ChildDTO, int), ErrorView>((dto, j)),
    ensures
        n < j <= s.len(),
        s.subrange(n, j) == dec_of(dto.parent_id as nat) + ",\"id\":"@ + dec_of(dto.id as nat)
            + "}"@,
{
    reveal_strlit(",\"id\":");
    reveal_strlit("}");
    let n1 = spec_parse_num(s, n);
    assert(n1 is Some);
    let (pid, k) = n1->Some_0;
    crate::digits::lemma_parse_num_inv(s, n, pid, k);
    assert(starts_lit(s, k, ",\"id\":"@));
    let n2 = spec_parse_num(s, k + 6);
    assert(n2 is Some);
    let (idc, m) = n2->Some_0;
    crate::digits::lemma_parse_num_inv(s, k + 6, idc, m);
    assert(starts_lit(s, m, "}"@));
    assert(dto == ChildDTO { id: idc, parent_id: pid });
    assert(j == m + 1);
    lemma_block_chars(s, n, k, dec_of(pid as nat));
    lemma_block_chars(s, k, k + 6, ",\"id\":"@);
    lemma_block_chars(s, k + 6, m, dec_of(idc as nat));
    lemma_block_chars(s, m, m + 1, "}"@);
    assert(s.subrange(n, j) =~= dec_of(pid as nat) + ",\"id\":"@ + dec_of(idc as nat) + "}"@);
}

/// Inverse of child-object reading when the child's own id came first.
#[verifier::rlimit(100)]
#[verifier::spinoff_prover]
proof fn lemma_child_inv_id_first(s: Seq<char>, i: int, dto: ChildDTO, j: int)
    requires
        0 <= i <= s.len(),
        spec_parse_child(s, i) == Ok::<(ChildDTO, int), ErrorView>((dto, j)),
        starts_lit(s, i + 1, "\"id\":"@),
    ensures
        i < j <= s.len(),
        is_child_obj(s.subrange(i, j), dto.id, dto.parent_id),
{
    reveal_strlit("{");
    reveal_strlit("}");
    reveal_strlit(",");
    reveal_strlit("\"id\":");
    reveal_strlit("\"parent_id\":");
    reveal_strlit("\"parent\":");
    reveal_strlit(",\"parent_id\":");
    reveal_strlit(",\"parent\":");
    assert(starts_lit(s, i, "{"@));
    lemma_block_chars(s, i, i + 1, "{"@);
    let n1 = spec_parse_num(s, i + 6);
    assert(n1 is Some);
    let (idc, k) = n1->Some_0;
    crate::digits::lemma_parse_num_inv(s, i + 6, idc, k);
    lemma_block_chars(s, i + 1, i + 6, "\"id\":"@);
    lemma_block_chars(s, i + 6, k, dec_of(idc as nat));
    if starts_lit(s, k, ",\"parent_id\":"@) {
        let n2 = spec_parse_num(s, k + 13);
        assert(n2 is Some);
        let (pid, m) = n2->Some_0;
        crate::digits::lemma_parse_num_inv(s, k + 13, pid, m);
        assert(starts_lit(s, m, "}"@));
        assert(dto == ChildDTO { id: idc, parent_id: pid });
        assert(j == m + 1);
        lemma_block_chars(s, k, k + 13, ",\"parent_id\":"@);
        lemma_block_chars(s, k + 13, m, dec_of(pid as nat));
        lemma_block_chars(s, m, m + 1, "}"@);
        assert(s.subrange(i, j) =~= child_obj_seq(idc, pid, false, false));
    } else {
        assert(starts_lit(s, k, ",\"parent\":"@));
        let n2 = spec_parse_num(s, k + 10);
        assert(n2 is Some);
        let (pid, m) = n2->Some_0;
        crate::digits::lemma_parse_num_inv(s, k + 10, pid, m);
        assert(starts_lit(s, m, "}"@));
        assert(dto == ChildDTO { id: idc, parent_id: pid });
        assert(j == m + 1);
        lemma_block_chars(s, k, k + 10, ",\"parent\":"@);
        lemma_block_chars(s, k + 10, m, dec_of(pid as nat));
        lemma_block_chars(s, m, m + 1, "}"@);
        assert(s.subrange(i, j) =~= child_obj_seq(idc, pid, false, true));
    }
}

/// Inverse of child-object reading when the back-reference field came first,
/// under either of its accepted names.
#[verifier::rlimit(100)]
#[verifier::spinoff_prover]
proof fn lemma_child_inv_parent_first(s: Seq<char>, i: int, dto: ChildDTO, j: int, alias: bool)
    requires
        0 <= i <= s.len(),
        spec_parse_child(s, i) == Ok::<(ChildDTO, int), ErrorView>((dto, j)),
        !starts_lit(s, i + 1, "\"id\":"@),
        alias <==> !starts_lit(s, i + 1, "\"parent_id\":"@),
    ensures
        i < j <= s.len(),
        is_child_obj(s.subrange(i, j), dto.id, dto.parent_id),
{
    reveal_strlit("{");
    reveal_strlit("}");
    reveal_strlit(",");
    reveal_strlit("\"id\":");
    reveal_strlit("\"parent_id\":");
    reveal_strlit("\"parent\":");
    reveal_strlit(",\"id\":");
    assert(starts_lit(s, i, "{"@));
    lemma_block_chars(s, i, i + 1, "{"@);
    let rest = dec_of(dto.parent_id as nat) + ",\"id\":"@ + dec_of(dto.id as nat) + "}"@;
    if !alias {
        lemma_child_parent_first_inv(s, i + 13, dto, j);
        lemma_block_chars(s, i + 1, i + 13, "\"parent_id\":"@);
        lemma_block_chars(s, i + 13, j, rest);
        let flat = "{"@ + "\"parent_id\":"@ + rest;
        assert(child_obj_seq(dto.id, dto.parent_id, true, false) =~= flat);
        assert(s.subrange(i, j) =~= flat);
        assert(s.subrange(i, j) == child_obj_seq(dto.id, dto.parent_id, true, false));
    } else {
        assert(starts_lit(s, i + 1, "\"parent\":"@));
        lemma_child_parent_first_inv(s, i + 10, dto, j);
        lemma_block_chars(s, i + 1, i + 10, "\"parent\":"@);
        lemma_block_chars(s, i + 10, j, rest);
        let flat = "{"@ + "\"parent\":"@ + rest;
        assert(child_obj_seq(dto.id, dto.parent_id, true, true) =~= flat);
        assert(s.subrange(i, j) =~= flat);
        assert(s.subrange(i, j) == child_obj_seq(dto.id, dto.parent_id, true, true));
    }
}

/// Inverse of child-object reading: whatever it accepts sits on exactly the
/// consumed range and is a child object denoting the returned ids.
pub proof fn lemma_parse_child_inv(s: Seq<char>, i: int, dto: ChildDTO, j: int)
    requires
        0 <= i <= s.len(),
        spec_parse_child(s, i) == Ok::<(ChildDTO, int), ErrorView>((dto, j)),
    ensures
        i < j <= s.len(),
        is_child_obj(s.subrange(i, j), dto.id, dto.parent_id),
{
    if starts_lit(s, i + 1, "\"id\":"@) {
        lemma_child_inv_id_first(s, i, dto, j);
    } else if starts_lit(s, i + 1, "\"parent_id\":"@) {
        lemma_child_inv_parent_first(s, i, dto, j, false);
    } else {
        lemma_child_inv_parent_first(s, i, dto, j, true);
    }
}

/// Unwinds an accepting parse whose id field came first into the facts it
/// must have established along the way.
#[verifier::rlimit(100)]
#[verifier::spinoff_prover]
proof fn lemma_sound_steps_id_first(s: Seq<char>, idp: u64, idc: u64) -> (r: (ChildDTO, int, int))
    requires
        spec_parse(s) == Ok::<(u64, u64), ErrorView>((idp, idc)),
        starts_lit(s, 1, "\"id\":"@),
    ensures
        spec_parse_num(s, 6) == Some((idp, r.1)),
        starts_lit(s, 0, "{"@),
        starts_lit(s, r.1, ",\"child\":"@),
        spec_parse_child(s, r.1 + 9) == Ok::<(ChildDTO, int), ErrorView>((r.0, r.2)),
        r.0.id == idc,
        r.0.parent_id == idp,
        starts_lit(s, r.2, "}"@),
        r.2 + 1 == s.len(),
{
    assert(starts_lit(s, 0, "{"@));
    let n1 = spec_parse_num(s, 6);
    assert(n1 is Some);
    let (idp0, i) = n1->Some_0;
    assert(starts_lit(s, i, ",\"child\":"@));
    let pc = spec_parse_child(s, i + 9);
    assert(pc is Ok);
    let (dto, j) = pc->Ok_0;
    assert(starts_lit(s, j, "}"@));
    assert(idp0 == idp && dto.id == idc && dto.parent_id == idp);
    assert(j + 1 == s.len());
    (dto, i, j)
}

/// Assembles the document shape from the facts of an accepting id-first parse.
#[verifier::rlimit(100)]
#[verifier::spinoff_prover]
proof fn lemma_sound_assemble_id_first(s: Seq<char>, idp: u64, idc: u64, dto: ChildDTO, i: int, j: int)
    requires
        starts_lit(s, 0, "{"@),
        starts_lit(s, 1, "\"id\":"@),
        spec_parse_num(s, 6) == Some((idp, i)),
        starts_lit(s, i, ",\"child\":"@),
        spec_parse_child(s, i + 9) == Ok::<(ChildDTO, int), ErrorView>((dto, j)),
        dto.id == idc,
        dto.parent_id == idp,
        starts_lit(s, j, "}"@),
        j + 1 == s.len(),
    ensures
        is_input_doc(s, idp, idc, idp),
{
    reveal_strlit("{");
    reveal_strlit("}");
    reveal_strlit("\"id\":");
    reveal_strlit("{\"id\":");
    reveal_strlit(",\"child\":");
    crate::digits::lemma_parse_num_inv(s, 6, idp, i);
    lemma_parse_child_inv(s, i + 9, dto, j);
    let c = s.subrange(i + 9, j);
    lemma_block_chars(s, 0, 1, "{"@);
    lemma_block_chars(s, 1, 6, "\"id\":"@);
    lemma_block_chars(s, 6, i, dec_of(idp as nat));
    lemma_block_chars(s, i, i + 9, ",\"child\":"@);
    lemma_block_chars(s, i + 9, j, c);
    lemma_block_chars(s, j, j + 1, "}"@);
    assert(s =~= parent_doc_seq(idp, c, false));
    assert(is_input_doc(s, idp, idc, idp)) by {
        assert(is_child_obj(c, idc, idp) && s == parent_doc_seq(idp, c, false));
    }
}

/// Unwinds an accepting parse whose child field came first into the facts it
/// must have established along the way.
#[verifier::rlimit(100)]
#[verifier::spinoff_prover]
proof fn lemma_sound_steps_child_first(s: Seq<char>, idp: u64, idc: u64) -> (r: (ChildDTO, int, int))
    requires
        spec_parse(s) == Ok::<(u64, u64), ErrorView>((idp, idc)),
        !starts_lit(s, 1, "\"id\":"@),
    ensures
        starts_lit(s, 0, "{"@),
        starts_lit(s, 1, "\"child\":"@),
        spec_parse_child(s, 9) == Ok::<(ChildDTO, int), ErrorView>((r.0, r.1)),
        starts_lit(s, r.1, ",\"id\":"@),
        spec_parse_num(s, r.1 + 6) == Some((idp, r.2)),
        r.0.id == idc,
        r.0.parent_id == idp,
        starts_lit(s, r.2, "}"@),
        r.2 + 1 == s.len(),
{
    assert(starts_lit(s, 0, "{"@));
    assert(starts_lit(s, 1, "\"child\":"@));
    let pc = spec_parse_child(s, 9);
    assert(pc is Ok);
    let (dto, k) = pc->Ok_0;
    assert(starts_lit(s, k, ",\"id\":"@));
    let n1 = spec_parse_num(s, k + 6);
    assert(n1 is Some);
    let (idp0, m) = n1->Some_0;
    assert(starts_lit(s, m, "}"@));
    assert(idp0 == idp && dto.id == idc && dto.parent_id == idp);
    assert(m + 1 == s.len());
    (dto, k, m)
}

/// Assembles the document shape from the facts of an accepting child-first
/// parse.
#[verifier::rlimit(100)]
#[verifier::spinoff_prover]
proof fn lemma_sound_assemble_child_first(s: Seq<char>, idp: u64, idc: u64, dto: ChildDTO, k: int, m: int)
    requires
        starts_lit(s, 0, "{"@),
        starts_lit(s, 1, "\"child\":"@),
        spec_parse_child(s, 9) == Ok::<(ChildDTO, int), ErrorView>((dto, k)),
        starts_lit(s, k, ",\"id\":"@),
        spec_parse_num(s, k + 6) == Some((idp, m)),
        dto.id == idc,
        dto.parent_id == idp,
        starts_lit(s, m, "}"@),
        m + 1 == s.len(),
    ensures
        is_input_doc(s, idp, idc, idp),
{
    reveal_strlit("{");
    reveal_strlit("}");
    reveal_strlit("\"child\":");
    reveal_strlit("{\"child\":");
    reveal_strlit(",\"id\":");
    lemma_parse_child_inv(s, 9, dto, k);
    let c = s.subrange(9, k);
    crate::digits::lemma_parse_num_inv(s, k + 6, idp, m);
    lemma_block_chars(s, 0, 1, "{"@);
    lemma_block_chars(s, 1, 9, "\"child\":"@);
    lemma_block_chars(s, 9, k, c);
    lemma_block_chars(s, k, k + 6, ",\"id\":"@);
    lemma_block_chars(s, k + 6, m, dec_of(idp as nat));
    lemma_block_chars(s, m, m + 1, "}"@);
    assert(s =~= parent_doc_seq(idp, c, true));
    assert(is_input_doc(s, idp, idc, idp)) by {
        assert(is_child_obj(c, idc, idp) && s == parent_doc_seq(idp, c, true));
    }
}

/// Soundness of parsing: any document that deserialization accepts is an
/// accepted input document declaring exactly the returned ids, its child's
/// declared parent id in agreement with the parent's own.
pub proof fn lemma_parse_sound(s: Seq<char>, idp: u64, idc: u64)
    requires
        spec_parse(s) == Ok::<(u64, u64), ErrorView>((idp, idc)),
    ensures
        is_input_doc(s, idp, idc, idp),
{
    if starts_lit(s, 1, "\"id\":"@) {
        let (dto, i, j) = lemma_sound_steps_id_first(s, idp, idc);
        lemma_sound_assemble_id_first(s, idp, idc, dto, i, j);
    } else {
        let (dto, k, m) = lemma_sound_steps_child_first(s, idp, idc);
        lemma_sound_assemble_child_first(s, idp, idc, dto, k, m);
    }
}

/// Whether the literal `lit` occurs in `s` at character position `i`.
pub fn expect_lit(s: &str, i: usize, lit: &str) -> (r: bool)
    requires
        i <= s@.len(),
    ensures
        r == starts_lit(s@, i as int, lit@),
{
    let n = lit.unicode_len();
    let len = s.unicode_len();
    if n > len - i {
        return false;
    }
    let mut k: usize = 0;
    while k < n
        invariant
            k <= n,
            i + n <= len,
            len == s@.len(),
            n == lit@.len(),
            forall|m: int| 0 <= m < k ==> s@[i + m] == lit@[m],
        decreases n - k,
    {
        if s.get_char(i + k) != lit.get_char(k) {
            proof {
                assert(!starts_lit(s@, i as int, lit@)) by {
                    if starts_lit(s@, i as int, lit@) {
                        let sub = s@.subrange(i as int, i + lit@.len() as int);
                        assert(sub[k as int] == lit@[k as int]);
                    }
                }
            }
            return false;
        }
        k = k + 1;
    }
    proof {
        assert(s@.subrange(i as int, i + lit@.len() as int) =~= lit@);
    }
    true
}

/// Reads the quoted field name starting at position `i`, returning the name
/// and the position one past its closing quote; recognizes exactly what
/// [`spec_key`] describes.
pub fn parse_key(s: &str, i: usize) -> (r: Option<(String, usize)>)
    requires
        i <= s@.len(),
    ensures
        r matches Some((name, j)) ==> i + 2 <= j <= s@.len() && spec_key(s@, i as int) == Some(
            (name@, j as int),
        ),
        r is None ==> spec_key(s@, i as int) is None,
{
    let len = s.unicode_len();
    if i == len {
        return None;
    }
    if s.get_char(i) != '"' {
        return None;
    }
    let mut j = i + 1;
    loop
        invariant
            i + 1 <= j <= len,
            len == s@.len(),
            s@[i as int] == '"',
            forall|m: int| i + 1 <= m < j ==> s@[m] != '"',
        ensures
            i + 1 <= j < len,
            s@[j as int] == '"',
            find_char(s@, i as int + 1, '"') == Some(j as int),
        decreases len - j,
    {
        if j == len {
            proof {
                lemma_find_char_none(s@, i as int + 1, '"');
            }
            return None;
        }
        if s.get_char(j) == '"' {
            proof {
                lemma_find_char_pins(s@, i as int + 1, j as int, '"');
            }
            break;
        }
        j = j + 1;
    }
    let sub = s.substring_char(i + 1, j);
    Some((String::from_str(sub), j + 1))
}

} // verus!
