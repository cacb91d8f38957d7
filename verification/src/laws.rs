//! The library's general guarantees, stated and proved over the occurrence
//! model and the index tables: span containment for cursor queries, the
//! definition/reference partition, last-write-wins for definitions, and the
//! determinism of indexing.

use vstd::prelude::*;

use crate::ast::{Declaration, Identifier, StructBody};
use crate::index::{
    defn_additions, defns_get, ident_at_spec, lemma_ident_at_found, occ_loc, ref_additions,
    refs_list, DefnV, FileV, IndexStore, RefV, TokenV,
};
use crate::visit::{decl_occs, decls_occs, occ_of, struct_occs, Occ};

verus! {

/// Token spans on one line never touch: each token ends strictly before the
/// next one starts.
pub open spec fn pairwise_disjoint(toks: Seq<TokenV>) -> bool {
    forall|i: int, j: int| 0 <= i < j < toks.len() ==> toks[i].end < toks[j].start
}

/// Span containment: on a line whose recorded token spans are well formed and
/// pairwise disjoint, every column within a token's span (inclusive of both
/// ends) resolves to exactly that token's name.
pub proof fn lemma_span_containment(toks: Seq<TokenV>, i: int, c: int)
    requires
        forall|k: int| 0 <= k < toks.len() ==> (#[trigger] toks[k]).start <= toks[k].end,
        pairwise_disjoint(toks),
        0 <= i < toks.len(),
        toks[i].start <= c <= toks[i].end,
    ensures
        ident_at_spec(toks, c) == Option::Some(toks[i].val),
{
    assert forall|k: int| i < k < toks.len() implies toks[k].start > c by {
        assert(toks[i].end < toks[k].start);
    }
    lemma_ident_at_found(toks, c, i);
}

/// Span containment, outside: a column outside every recorded span on the
/// line resolves to nothing.
pub proof fn lemma_outside_spans(toks: Seq<TokenV>, c: int)
    requires
        forall|k: int|
            0 <= k < toks.len() ==> !((#[trigger] toks[k]).start <= c && c <= toks[k].end),
    ensures
        ident_at_spec(toks, c) is None,
    decreases toks.len(),
{
    if toks.len() > 0 {
        if toks[toks.len() - 1].start <= c {
            assert(!(c <= toks[toks.len() - 1].end));
        } else {
            lemma_outside_spans(toks.subrange(0, toks.len() - 1), c);
        }
    }
}

/// Span containment, end to end: in a store whose lookup for a file yields
/// the tables `index_file` builds from occurrences `occs` over text `t`, a
/// cursor query on an occurrence's line, at any column within its span (ends
/// included), returns that occurrence's name — provided the spans recorded on
/// that line are pairwise disjoint.
pub proof fn lemma_indexed_span_containment(
    s: IndexStore,
    f: Seq<char>,
    t: Seq<u8>,
    occs: Seq<Occ>,
    k: int,
    c: int,
)
    requires
        crate::index::files_get(s.files(), f) == Option::Some(
            crate::index::file_lines(t, occs),
        ),
        crate::index::occs_wf(occs, t.len() as int),
        0 <= k < occs.len(),
        crate::index::occ_scol(t, occs[k]) <= c <= crate::index::occ_ecol(t, occs[k]),
        pairwise_disjoint(
            crate::index::file_line_tokens(t, occs, crate::index::occ_line(t, occs[k])),
        ),
    ensures
        crate::index::spec_ident_at(s, f, crate::index::occ_line(t, occs[k]), c)
            == Option::Some(occs[k].name),
{
    let line = crate::index::occ_line(t, occs[k]);
    let gl = crate::index::group_lines(t, occs);
    let sl = crate::index::sort_lines(gl);
    crate::index::lemma_group_lines_contains(t, occs, k);
    let j = crate::index::line_index_of(gl, line);
    assert forall|m: int| 0 <= m < sl.len() implies sl[m].line == gl[m].line by {}
    crate::index::lemma_line_index_of_same_lines(sl, gl, line);
    crate::index::lemma_lines_get_via_index(sl, line);
    let toks = sl[j].tokens;
    assert(toks == crate::index::sort_tokens(gl[j].tokens));
    crate::index::lemma_sort_tokens_contains(gl[j].tokens, crate::index::occ_token(t, occs[k]));
    let i = choose|i: int|
        0 <= i < toks.len() && toks[i] == crate::index::occ_token(t, occs[k]);
    assert forall|w: int| 0 <= w < toks.len() implies (#[trigger] toks[w]).start
        <= toks[w].end by {
        assert(crate::index::sort_tokens(gl[j].tokens).contains(toks[w]));
        crate::index::lemma_sort_tokens_contains(gl[j].tokens, toks[w]);
        let wi = choose|wi: int|
            0 <= wi < gl[j].tokens.len() && gl[j].tokens[wi] == toks[w];
        crate::index::lemma_group_lines_tokens_from_occs(t, occs, j, wi);
        let m = choose|m: int|
            0 <= m < occs.len() && gl[j].tokens[wi] == crate::index::occ_token(
                t,
                #[trigger] occs[m],
            );
        assert(occs[m].start <= occs[m].end);
    }
    lemma_span_containment(toks, i, c);
}

/// Span containment, end to end, outside: in the same store, a cursor query
/// on a line at a column outside the span of every occurrence resolving to
/// that line returns nothing.
pub proof fn lemma_indexed_outside_spans(
    s: IndexStore,
    f: Seq<char>,
    t: Seq<u8>,
    occs: Seq<Occ>,
    line: int,
    c: int,
)
    requires
        crate::index::files_get(s.files(), f) == Option::Some(
            crate::index::file_lines(t, occs),
        ),
        forall|m: int|
            0 <= m < occs.len() && crate::index::occ_line(t, #[trigger] occs[m]) == line ==> !(
            crate::index::occ_scol(t, occs[m]) <= c && c <= crate::index::occ_ecol(t, occs[m])),
    ensures
        crate::index::spec_ident_at(s, f, line, c) is None,
{
    let gl = crate::index::group_lines(t, occs);
    let sl = crate::index::sort_lines(gl);
    assert forall|m: int| 0 <= m < sl.len() implies sl[m].line == gl[m].line by {}
    crate::index::lemma_line_index_of_same_lines(sl, gl, line);
    crate::index::lemma_lines_get_via_index(sl, line);
    crate::index::lemma_line_index_of_props(gl, line);
    let j = crate::index::line_index_of(gl, line);
    if j >= 0 {
        let toks = sl[j].tokens;
        assert(toks == crate::index::sort_tokens(gl[j].tokens));
        assert forall|w: int|
            0 <= w < toks.len() implies !((#[trigger] toks[w]).start <= c && c
            <= toks[w].end) by {
            assert(crate::index::sort_tokens(gl[j].tokens).contains(toks[w]));
            crate::index::lemma_sort_tokens_contains(gl[j].tokens, toks[w]);
            let wi = choose|wi: int|
                0 <= wi < gl[j].tokens.len() && gl[j].tokens[wi] == toks[w];
            crate::index::lemma_group_lines_tokens_from_occs(t, occs, j, wi);
            let m = choose|m: int|
                0 <= m < occs.len() && gl[j].tokens[wi] == crate::index::occ_token(
                    t,
                    #[trigger] occs[m],
                ) && crate::index::occ_line(t, occs[m]) == gl[j].line;
            assert(crate::index::occ_line(t, occs[m]) == line);
        }
        lemma_outside_spans(toks, c);
    }
}

/// Whether a declaration declares a name of its own (every variant but void).
pub open spec fn has_declared_id(d: Declaration) -> bool {
    !(d is VOID)
}

/// The name a declaration declares.
pub open spec fn declared_id(d: Declaration) -> Identifier {
    match d {
        Declaration::Normal { id, .. } => id,
        Declaration::FixedArr { id, .. } => id,
        Declaration::VarArr { id, .. } => id,
        Declaration::FixedOpaque { id, .. } => id,
        Declaration::VarOpaque { id, .. } => id,
        Declaration::String { id, .. } => id,
        Declaration::Optional { id, .. } => id,
        Declaration::VOID => arbitrary(),
    }
}

proof fn lemma_decl_occ_is_reference(d: Declaration)
    requires
        has_declared_id(d),
    ensures
        decl_occs(d, false).contains(occ_of(declared_id(d), false)),
{
    let o = occ_of(declared_id(d), false);
    match d {
        Declaration::Normal { ty, id } => {
            assert(decl_occs(d, false)[crate::visit::type_occs(ty).len() as int] == o);
        },
        Declaration::FixedArr { ty, id, size } => {
            assert(decl_occs(d, false)[crate::visit::type_occs(ty).len() as int] == o);
        },
        Declaration::VarArr { ty, id, size } => {
            assert(decl_occs(d, false)[crate::visit::type_occs(ty).len() as int] == o);
        },
        Declaration::FixedOpaque { id, size } => {
            assert(decl_occs(d, false)[0] == o);
        },
        Declaration::VarOpaque { id, size } => {
            assert(decl_occs(d, false)[0] == o);
        },
        Declaration::String { id, size } => {
            assert(decl_occs(d, false)[0] == o);
        },
        Declaration::Optional { ty, id } => {
            assert(decl_occs(d, false)[crate::visit::type_occs(ty).len() as int] == o);
        },
        Declaration::VOID => {},
    }
}

proof fn lemma_decls_occs_contains(ds: Seq<Declaration>, i: int, o: Occ)
    requires
        0 <= i < ds.len(),
        decl_occs(ds[i], false).contains(o),
    ensures
        decls_occs(ds).contains(o),
    decreases ds.len(),
{
    let front = ds.subrange(0, ds.len() - 1);
    if i == ds.len() - 1 {
        let k = choose|k: int|
            0 <= k < decl_occs(ds[i], false).len() && decl_occs(ds[i], false)[k] == o;
        assert(decls_occs(ds)[decls_occs(front).len() + k] == o);
    } else {
        assert(front[i] == ds[i]);
        lemma_decls_occs_contains(front, i, o);
        let k = choose|k: int| 0 <= k < decls_occs(front).len() && decls_occs(front)[k] == o;
        assert(decls_occs(ds)[k] == o);
    }
}

/// Definition/reference partition, visitor side: a member declaration inside
/// a struct body records its own name as a reference occurrence — even though
/// it defines nothing, and even if no definition of that name exists.
pub proof fn lemma_struct_member_is_reference(b: StructBody, i: int)
    requires
        0 <= i < b.body@.len(),
        has_declared_id(b.body@[i]),
    ensures
        struct_occs(b).contains(occ_of(declared_id(b.body@[i]), false)),
{
    lemma_decl_occ_is_reference(b.body@[i]);
    lemma_decls_occs_contains(b.body@, i, occ_of(declared_id(b.body@[i]), false));
}

/// Definition/reference partition, index side: a file whose occurrences of a
/// name are all reference sites never changes what the definition table
/// answers for that name.
pub proof fn lemma_refs_never_define(
    defns: Seq<DefnV>,
    f: Seq<char>,
    t: Seq<u8>,
    occs: Seq<Occ>,
    n: Seq<char>,
)
    requires
        forall|k: int| 0 <= k < occs.len() ==> ((#[trigger] occs[k]).name == n ==> !occs[k].is_defn),
    ensures
        defns_get(defns + defn_additions(f, t, occs), n) == defns_get(defns, n),
    decreases occs.len(),
{
    if occs.len() == 0 {
        assert(defns + defn_additions(f, t, occs) =~= defns);
    } else {
        let front = occs.subrange(0, occs.len() - 1);
        lemma_refs_never_define(defns, f, t, front, n);
        let whole = defns + defn_additions(f, t, occs);
        if occs[occs.len() - 1].is_defn {
            assert(occs[occs.len() - 1].name != n);
            assert(whole.subrange(0, whole.len() - 1) =~= defns + defn_additions(f, t, front));
            assert(whole[whole.len() - 1].name != n);
        } else {
            assert(whole =~= defns + defn_additions(f, t, front));
        }
    }
}

/// Every reference-site occurrence of a file is recorded in the reference
/// table under its own name.
pub proof fn lemma_reference_recorded(
    refs: Seq<RefV>,
    f: Seq<char>,
    t: Seq<u8>,
    occs: Seq<Occ>,
    k: int,
)
    requires
        0 <= k < occs.len(),
        !occs[k].is_defn,
    ensures
        refs_list(refs + ref_additions(f, t, occs), occs[k].name).contains(occ_loc(f, t, occs[k])),
    decreases occs.len(),
{
    let n = occs[k].name;
    let front = occs.subrange(0, occs.len() - 1);
    let whole = refs + ref_additions(f, t, occs);
    if k == occs.len() - 1 {
        assert(whole.subrange(0, whole.len() - 1) =~= refs + ref_additions(f, t, front));
        assert(whole[whole.len() - 1] == RefV { name: n, loc: occ_loc(f, t, occs[k]) });
        let rl = refs_list(whole, n);
        assert(rl[rl.len() - 1] == occ_loc(f, t, occs[k]));
    } else {
        assert(front[k] == occs[k]);
        lemma_reference_recorded(refs, f, t, front, k);
        let prevwhole = refs + ref_additions(f, t, front);
        let prevlist = refs_list(prevwhole, n);
        let m = choose|m: int| 0 <= m < prevlist.len() && prevlist[m] == occ_loc(f, t, occs[k]);
        if occs[occs.len() - 1].is_defn {
            assert(whole =~= prevwhole);
            assert(refs_list(whole, n)[m] == occ_loc(f, t, occs[k]));
        } else {
            assert(whole.subrange(0, whole.len() - 1) =~= prevwhole);
            assert(refs_list(whole, n)[m] == occ_loc(f, t, occs[k]));
        }
    }
}

/// The index of the last definition-site occurrence of a name in a file.
pub open spec fn last_defn_index(occs: Seq<Occ>, n: Seq<char>) -> int
    decreases occs.len(),
{
    if occs.len() == 0 {
        -1
    } else if occs[occs.len() - 1].is_defn && occs[occs.len() - 1].name == n {
        occs.len() - 1
    } else {
        last_defn_index(occs.subrange(0, occs.len() - 1), n)
    }
}

/// Last write wins: once a file with a definition site for a name is indexed,
/// the definition table answers with the location of the last such occurrence
/// of that file, whatever any earlier file recorded for the name.
pub proof fn lemma_last_write_wins(
    defns: Seq<DefnV>,
    f: Seq<char>,
    t: Seq<u8>,
    occs: Seq<Occ>,
    n: Seq<char>,
)
    requires
        exists|k: int|
            0 <= k < occs.len() && (#[trigger] occs[k]).is_defn && occs[k].name == n,
    ensures
        ({
            let j = last_defn_index(occs, n);
            &&& 0 <= j < occs.len()
            &&& occs[j].is_defn
            &&& occs[j].name == n
            &&& defns_get(defns + defn_additions(f, t, occs), n) == Option::Some(
                occ_loc(f, t, occs[j]),
            )
        }),
    decreases occs.len(),
{
    let last = occs[occs.len() - 1];
    let front = occs.subrange(0, occs.len() - 1);
    let whole = defns + defn_additions(f, t, occs);
    if last.is_defn && last.name == n {
        assert(whole[whole.len() - 1] == DefnV { name: n, loc: occ_loc(f, t, last) });
    } else {
        let k = choose|k: int|
            0 <= k < occs.len() && (#[trigger] occs[k]).is_defn && occs[k].name == n;
        assert(k < occs.len() - 1);
        assert(front[k] == occs[k]);
        lemma_last_write_wins(defns, f, t, front, n);
        let j = last_defn_index(front, n);
        assert(front[j] == occs[j]);
        if last.is_defn {
            assert(whole.subrange(0, whole.len() - 1) =~= defns + defn_additions(f, t, front));
            assert(whole[whole.len() - 1].name != n);
        } else {
            assert(whole =~= defns + defn_additions(f, t, front));
        }
    }
}

/// Idempotence of indexing: the tables that indexing yields are a function of
/// the prior tables and the indexed input alone, so rebuilding from equal
/// starting tables with the same file, text and occurrences reproduces
/// identical tables.
pub proof fn lemma_reindex_identical(
    s1: IndexStore,
    s2: IndexStore,
    e1: IndexStore,
    e2: IndexStore,
    f: Seq<char>,
    t: Seq<u8>,
    occs: Seq<Occ>,
)
    requires
        s1.defns() == s2.defns(),
        s1.refs() == s2.refs(),
        s1.files() == s2.files(),
        e1.defns() == s1.defns() + defn_additions(f, t, occs),
        e2.defns() == s2.defns() + defn_additions(f, t, occs),
        e1.refs() == s1.refs() + ref_additions(f, t, occs),
        e2.refs() == s2.refs() + ref_additions(f, t, occs),
        e1.files() == s1.files().push(
            FileV { file: f, lines: crate::index::file_lines(t, occs) },
        ),
        e2.files() == s2.files().push(
            FileV { file: f, lines: crate::index::file_lines(t, occs) },
        ),
    ensures
        e1.defns() == e2.defns(),
        e1.refs() == e2.refs(),
        e1.files() == e2.files(),
{
}

} // verus!
