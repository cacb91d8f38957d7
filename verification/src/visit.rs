//! The occurrence visitor: one depth-first traversal of a parsed file that
//! yields, in source order, every identifier occurrence together with its
//! definition/reference classification.
//!
//! An occurrence is a definition site only for: a constant's name, the name of
//! a top-level enum/struct/union, the declared name in a top-level type-alias
//! declaration, and every enum member name (wherever the enum body occurs).
//! Every other occurrence — struct/union member names, named type references,
//! identifiers used inside values — is a reference site.

use vstd::prelude::*;

use crate::ast::{
    CaseSpec, Declaration, Definition, EnumAssign, EnumBody, Identifier, Specification,
    StructBody, TypeSpecifier, UnionBody, Value,
};

verus! {

/// One identifier occurrence: the name, its byte span, and whether it is a
/// definition site.
#[derive(Debug)]
pub struct Occurrence {
    pub name: String,
    pub start: usize,
    pub end: usize,
    pub is_defn: bool,
}

/// The mathematical shape of an occurrence.
pub ghost struct Occ {
    pub name: Seq<char>,
    pub start: int,
    pub end: int,
    pub is_defn: bool,
}

impl View for Occurrence {
    type V = Occ;

    open spec fn view(&self) -> Occ {
        Occ {
            name: self.name@,
            start: self.start as int,
            end: self.end as int,
            is_defn: self.is_defn,
        }
    }
}

pub open spec fn occs_view(s: Seq<Occurrence>) -> Seq<Occ> {
    s.map_values(|o: Occurrence| o@)
}

pub open spec fn occ_of(id: Identifier, is_defn: bool) -> Occ {
    Occ { name: id.id@, start: id.start as int, end: id.end as int, is_defn }
}

/// Occurrences contributed by one value: an identifier use is a reference.
pub open spec fn val_occs(v: Value) -> Seq<Occ> {
    match v {
        Value::Id(id) => seq![occ_of(id, false)],
        Value::Const(_) => seq![],
    }
}

pub open spec fn opt_val_occs(v: Option<Value>) -> Seq<Occ> {
    match v {
        Option::Some(val) => val_occs(val),
        Option::None => seq![],
    }
}

pub open spec fn vals_occs(s: Seq<Value>) -> Seq<Occ>
    decreases s.len(),
{
    if s.len() == 0 {
        seq![]
    } else {
        vals_occs(s.subrange(0, s.len() - 1)) + val_occs(s[s.len() - 1])
    }
}

/// An enum member: the member name is always a definition site.
pub open spec fn assign_occs(a: EnumAssign) -> Seq<Occ> {
    seq![occ_of(a.id, true)] + val_occs(a.val)
}

pub open spec fn assigns_occs(s: Seq<EnumAssign>) -> Seq<Occ>
    decreases s.len(),
{
    if s.len() == 0 {
        seq![]
    } else {
        assigns_occs(s.subrange(0, s.len() - 1)) + assign_occs(s[s.len() - 1])
    }
}

pub open spec fn enum_occs(b: EnumBody) -> Seq<Occ> {
    assigns_occs(b.body@)
}

/// Occurrences of one declaration. `in_defn` tells whether the declared name
/// itself is a definition site (true only directly under a top-level type
/// alias); member declarations inside struct/union bodies pass false.
pub open spec fn decl_occs(d: Declaration, in_defn: bool) -> Seq<Occ>
    decreases d,
{
    match d {
        Declaration::Normal { ty, id } => type_occs(ty) + seq![occ_of(id, in_defn)],
        Declaration::FixedArr { ty, id, size } => type_occs(ty) + seq![occ_of(id, in_defn)]
            + val_occs(size),
        Declaration::VarArr { ty, id, size } => type_occs(ty) + seq![occ_of(id, in_defn)]
            + opt_val_occs(size),
        Declaration::FixedOpaque { id, size } => seq![occ_of(id, in_defn)] + val_occs(size),
        Declaration::VarOpaque { id, size } => seq![occ_of(id, in_defn)] + opt_val_occs(size),
        Declaration::String { id, size } => seq![occ_of(id, in_defn)] + opt_val_occs(size),
        Declaration::Optional { ty, id } => type_occs(ty) + seq![occ_of(id, in_defn)],
        Declaration::VOID => seq![],
    }
}

pub open spec fn type_occs(t: TypeSpecifier) -> Seq<Occ>
    decreases t,
{
    match t {
        TypeSpecifier::BuiltIn(_) => seq![],
        TypeSpecifier::Enum(b) => enum_occs(b),
        TypeSpecifier::Struct(b) => struct_occs(b),
        TypeSpecifier::Union(b) => union_occs(b),
        TypeSpecifier::Ident(id) => seq![occ_of(id, false)],
    }
}

pub open spec fn struct_occs(b: StructBody) -> Seq<Occ>
    decreases b,
{
    decls_occs(b.body@)
}

pub open spec fn decls_occs(ds: Seq<Declaration>) -> Seq<Occ>
    decreases ds,
{
    if ds.len() == 0 {
        seq![]
    } else {
        decls_occs(ds.subrange(0, ds.len() - 1)) + decl_occs(ds[ds.len() - 1], false)
    }
}

pub open spec fn union_occs(u: UnionBody) -> Seq<Occ>
    decreases u,
{
    decl_occs(*u.discriminant, false) + cases_occs(u.cases@) + (match u.default {
        Option::Some(d) => decl_occs(*d, false),
        Option::None => seq![],
    })
}

pub open spec fn case_occs(c: CaseSpec) -> Seq<Occ>
    decreases c,
{
    vals_occs(c.values@) + decl_occs(c.decl, false)
}

pub open spec fn cases_occs(cs: Seq<CaseSpec>) -> Seq<Occ>
    decreases cs,
{
    if cs.len() == 0 {
        seq![]
    } else {
        cases_occs(cs.subrange(0, cs.len() - 1)) + case_occs(cs[cs.len() - 1])
    }
}

/// Occurrences of one top-level definition.
pub open spec fn defn_occs(d: Definition) -> Seq<Occ> {
    match d {
        Definition::Constant { id, .. } => seq![occ_of(id, true)],
        Definition::TypeDef(decl) => decl_occs(decl, true),
        Definition::Enum { id, body } => seq![occ_of(id, true)] + enum_occs(body),
        Definition::Struct { id, body } => seq![occ_of(id, true)] + struct_occs(body),
        Definition::Union { id, body } => seq![occ_of(id, true)] + union_occs(body),
    }
}

pub open spec fn defns_occs(ds: Seq<Definition>) -> Seq<Occ>
    decreases ds.len(),
{
    if ds.len() == 0 {
        seq![]
    } else {
        defns_occs(ds.subrange(0, ds.len() - 1)) + defn_occs(ds[ds.len() - 1])
    }
}

/// Every occurrence of one parsed file, in traversal (source) order.
pub open spec fn specification_occs(s: Specification) -> Seq<Occ> {
    defns_occs(s.defns@)
}

proof fn lemma_occs_view_push(s: Seq<Occurrence>, o: Occurrence)
    ensures
        occs_view(s.push(o)) == occs_view(s).push(o@),
{
    assert(occs_view(s.push(o)) =~= occs_view(s).push(o@));
}

fn push_occ(out: &mut Vec<Occurrence>, id: &Identifier, is_defn: bool)
    ensures
        occs_view(final(out)@) == occs_view(old(out)@) + seq![occ_of(*id, is_defn)],
{
    let o = Occurrence { name: id.id.clone(), start: id.start, end: id.end, is_defn };
    proof {
        assert(o@ == occ_of(*id, is_defn));
    }
    out.push(o);
    proof {
        lemma_occs_view_push(old(out)@, o);
        assert(occs_view(old(out)@).push(o@) =~= occs_view(old(out)@) + seq![occ_of(
            *id,
            is_defn,
        )]);
    }
}

/// Visit every occurrence of a parsed file, appending them in source order.
pub fn visit_identifiers(s: &Specification, out: &mut Vec<Occurrence>)
    ensures
        occs_view(final(out)@) == occs_view(old(out)@) + specification_occs(*s),
{
    for i in 0..s.defns.len()
        invariant
            occs_view(out@) == occs_view(old(out)@) + defns_occs(s.defns@.subrange(0, i as int)),
    {
        visit_identifiers_defn(&s.defns[i], out);
        proof {
            assert(s.defns@.subrange(0, i + 1 as int).subrange(0, i as int) =~= s.defns@.subrange(
                0,
                i as int,
            ));
            assert(occs_view(old(out)@) + defns_occs(s.defns@.subrange(0, i as int)) + defn_occs(
                s.defns@[i as int],
            ) =~= occs_view(old(out)@) + defns_occs(s.defns@.subrange(0, i + 1 as int)));
        }
    }
    proof {
        assert(s.defns@.subrange(0, s.defns@.len() as int) =~= s.defns@);
    }
}

pub fn visit_identifiers_defn(defn: &Definition, out: &mut Vec<Occurrence>)
    ensures
        occs_view(final(out)@) == occs_view(old(out)@) + defn_occs(*defn),
{
    match defn {
        Definition::Constant { id, .. } => {
            push_occ(out, id, true);
        },
        Definition::TypeDef(decl) => {
            visit_identifiers_decl(decl, true, out);
        },
        Definition::Enum { id, body } => {
            push_occ(out, id, true);
            visit_identifiers_enum(body, out);
            proof {
                assert(occs_view(old(out)@) + seq![occ_of(*id, true)] + enum_occs(*body)
                    =~= occs_view(old(out)@) + (seq![occ_of(*id, true)] + enum_occs(*body)));
            }
        },
        Definition::Struct { id, body } => {
            push_occ(out, id, true);
            visit_identifiers_struct(body, out);
            proof {
                assert(occs_view(old(out)@) + seq![occ_of(*id, true)] + struct_occs(*body)
                    =~= occs_view(old(out)@) + (seq![occ_of(*id, true)] + struct_occs(*body)));
            }
        },
        Definition::Union { id, body } => {
            push_occ(out, id, true);
            visit_identifiers_union(body, out);
            proof {
                assert(occs_view(old(out)@) + seq![occ_of(*id, true)] + union_occs(*body)
                    =~= occs_view(old(out)@) + (seq![occ_of(*id, true)] + union_occs(*body)));
            }
        },
    }
}

pub fn visit_identifiers_decl(decl: &Declaration, in_defn: bool, out: &mut Vec<Occurrence>)
    ensures
        occs_view(final(out)@) == occs_view(old(out)@) + decl_occs(*decl, in_defn),
    decreases *decl,
{
    match decl {
        Declaration::Normal { ty, id } => {
            visit_identifiers_type(ty, out);
            push_occ(out, id, in_defn);
            proof {
                assert(occs_view(old(out)@) + type_occs(*ty) + seq![occ_of(*id, in_defn)]
                    =~= occs_view(old(out)@) + (type_occs(*ty) + seq![occ_of(*id, in_defn)]));
            }
        },
        Declaration::Optional { ty, id } => {
            visit_identifiers_type(ty, out);
            push_occ(out, id, in_defn);
            proof {
                assert(occs_view(old(out)@) + type_occs(*ty) + seq![occ_of(*id, in_defn)]
                    =~= occs_view(old(out)@) + (type_occs(*ty) + seq![occ_of(*id, in_defn)]));
            }
        },
        Declaration::FixedArr { ty, id, size } => {
            visit_identifiers_type(ty, out);
            push_occ(out, id, in_defn);
            visit_identifiers_val(size, out);
            proof {
                assert(occs_view(old(out)@) + type_occs(*ty) + seq![occ_of(*id, in_defn)]
                    + val_occs(*size) =~= occs_view(old(out)@) + (type_occs(*ty) + seq![occ_of(
                    *id,
                    in_defn,
                )] + val_occs(*size)));
            }
        },
        Declaration::VarArr { ty, id, size } => {
            visit_identifiers_type(ty, out);
            push_occ(out, id, in_defn);
            if let Some(size) = size {
                visit_identifiers_val(size, out);
            }
            proof {
                assert(occs_view(old(out)@) + type_occs(*ty) + seq![occ_of(*id, in_defn)]
                    + opt_val_occs(*size) =~= occs_view(old(out)@) + (type_occs(*ty) + seq![occ_of(
                    *id,
                    in_defn,
                )] + opt_val_occs(*size)));
            }
        },
        Declaration::FixedOpaque { id, size } => {
            push_occ(out, id, in_defn);
            visit_identifiers_val(size, out);
            proof {
                assert(occs_view(old(out)@) + seq![occ_of(*id, in_defn)] + val_occs(*size)
                    =~= occs_view(old(out)@) + (seq![occ_of(*id, in_defn)] + val_occs(*size)));
            }
        },
        Declaration::VarOpaque { id, size } => {
            push_occ(out, id, in_defn);
            if let Some(size) = size {
                visit_identifiers_val(size, out);
            }
            proof {
                assert(occs_view(old(out)@) + seq![occ_of(*id, in_defn)] + opt_val_occs(*size)
                    =~= occs_view(old(out)@) + (seq![occ_of(*id, in_defn)] + opt_val_occs(*size)));
            }
        },
        Declaration::String { id, size } => {
            push_occ(out, id, in_defn);
            if let Some(size) = size {
                visit_identifiers_val(size, out);
            }
            proof {
                assert(occs_view(old(out)@) + seq![occ_of(*id, in_defn)] + opt_val_occs(*size)
                    =~= occs_view(old(out)@) + (seq![occ_of(*id, in_defn)] + opt_val_occs(*size)));
            }
        },
        Declaration::VOID => {
            proof {
                assert(occs_view(old(out)@) + decl_occs(*decl, in_defn) =~= occs_view(old(out)@));
            }
        },
    }
}

pub fn visit_identifiers_enum(body: &EnumBody, out: &mut Vec<Occurrence>)
    ensures
        occs_view(final(out)@) == occs_view(old(out)@) + enum_occs(*body),
{
    for i in 0..body.body.len()
        invariant
            occs_view(out@) == occs_view(old(out)@) + assigns_occs(
                body.body@.subrange(0, i as int),
            ),
    {
        push_occ(out, &body.body[i].id, true);
        visit_identifiers_val(&body.body[i].val, out);
        proof {
            let pre = body.body@.subrange(0, i as int);
            let a = body.body@[i as int];
            assert(occs_view(old(out)@) + assigns_occs(pre) + seq![occ_of(a.id, true)] + val_occs(
                a.val,
            ) =~= occs_view(old(out)@) + (assigns_occs(pre) + assign_occs(a)));
            assert(body.body@.subrange(0, i + 1 as int).subrange(0, i as int) =~= pre);
        }
    }
    proof {
        assert(body.body@.subrange(0, body.body@.len() as int) =~= body.body@);
    }
}

pub fn visit_identifiers_struct(body: &StructBody, out: &mut Vec<Occurrence>)
    ensures
        occs_view(final(out)@) == occs_view(old(out)@) + struct_occs(*body),
    decreases *body,
{
    for i in 0..body.body.len()
        invariant
            occs_view(out@) == occs_view(old(out)@) + decls_occs(body.body@.subrange(0, i as int)),
    {
        visit_identifiers_decl(&body.body[i], false, out);
        proof {
            assert(body.body@.subrange(0, i + 1 as int).subrange(0, i as int) =~= body.body@
                .subrange(0, i as int));
            assert(occs_view(old(out)@) + decls_occs(body.body@.subrange(0, i as int)) + decl_occs(
                body.body@[i as int],
                false,
            ) =~= occs_view(old(out)@) + decls_occs(body.body@.subrange(0, i + 1 as int)));
        }
    }
    proof {
        assert(body.body@.subrange(0, body.body@.len() as int) =~= body.body@);
    }
}

pub fn visit_identifiers_union(body: &UnionBody, out: &mut Vec<Occurrence>)
    ensures
        occs_view(final(out)@) == occs_view(old(out)@) + union_occs(*body),
    decreases *body,
{
    visit_identifiers_decl(&body.discriminant, false, out);
    for i in 0..body.cases.len()
        invariant
            occs_view(out@) == occs_view(old(out)@) + decl_occs(*body.discriminant, false)
                + cases_occs(body.cases@.subrange(0, i as int)),
    {
        let ghost pre = occs_view(old(out)@) + decl_occs(*body.discriminant, false) + cases_occs(
            body.cases@.subrange(0, i as int),
        );
        let case_i = &body.cases[i];
        for j in 0..case_i.values.len()
            invariant
                0 <= i < body.cases@.len(),
                case_i == body.cases@[i as int],
                occs_view(out@) == pre + vals_occs(
                    body.cases@[i as int].values@.subrange(0, j as int),
                ),
        {
            visit_identifiers_val(&case_i.values[j], out);
            proof {
                let vs = body.cases@[i as int].values@;
                assert(vs.subrange(0, j + 1 as int).subrange(0, j as int) =~= vs.subrange(
                    0,
                    j as int,
                ));
                assert(pre + vals_occs(vs.subrange(0, j as int)) + val_occs(vs[j as int]) =~= pre
                    + vals_occs(vs.subrange(0, j + 1 as int)));
            }
        }
        visit_identifiers_decl(&case_i.decl, false, out);
        proof {
            let c = body.cases@[i as int];
            assert(c.values@.subrange(0, c.values@.len() as int) =~= c.values@);
            assert(pre + vals_occs(c.values@) + decl_occs(c.decl, false) =~= pre + case_occs(c));
            assert(body.cases@.subrange(0, i + 1 as int).subrange(0, i as int) =~= body.cases@
                .subrange(0, i as int));
            assert(occs_view(old(out)@) + decl_occs(*body.discriminant, false) + cases_occs(
                body.cases@.subrange(0, i as int),
            ) + case_occs(c) =~= occs_view(old(out)@) + decl_occs(*body.discriminant, false)
                + cases_occs(body.cases@.subrange(0, i + 1 as int)));
        }
    }
    proof {
        assert(body.cases@.subrange(0, body.cases@.len() as int) =~= body.cases@);
    }
    if let Some(d) = &body.default {
        visit_identifiers_decl(d, false, out);
    }
    proof {
        assert(occs_view(out@) =~= occs_view(old(out)@) + union_occs(*body));
    }
}

pub fn visit_identifiers_val(val: &Value, out: &mut Vec<Occurrence>)
    ensures
        occs_view(final(out)@) == occs_view(old(out)@) + val_occs(*val),
{
    match val {
        Value::Id(id) => {
            push_occ(out, id, false);
        },
        Value::Const(_) => {
            proof {
                assert(occs_view(old(out)@) + val_occs(*val) =~= occs_view(old(out)@));
            }
        },
    }
}

pub fn visit_identifiers_type(body: &TypeSpecifier, out: &mut Vec<Occurrence>)
    ensures
        occs_view(final(out)@) == occs_view(old(out)@) + type_occs(*body),
    decreases *body,
{
    match body {
        TypeSpecifier::BuiltIn(_) => {
            proof {
                assert(occs_view(old(out)@) + type_occs(*body) =~= occs_view(old(out)@));
            }
        },
        TypeSpecifier::Enum(b) => visit_identifiers_enum(b, out),
        TypeSpecifier::Struct(b) => visit_identifiers_struct(b, out),
        TypeSpecifier::Union(b) => visit_identifiers_union(b, out),
        TypeSpecifier::Ident(id) => push_occ(out, id, false),
    }
}

} // verus!
