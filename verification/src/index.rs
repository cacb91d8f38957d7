//! The index store and query engine: three tables built from each indexed
//! file's occurrences — per-file per-line token lists (sorted by start
//! column), a global name-to-definition map where the last write wins, and a
//! global name-to-references list — plus the point queries over them.

use vstd::prelude::*;

use crate::ast::Specification;
use crate::position::{
    line_col_of, line_of_starts, line_starts, line_starts_spec, lemma_line_starts_props,
    starts_view,
};
use crate::visit::{occs_view, specification_occs, visit_identifiers, Occ, Occurrence};

verus! {

/// One identifier occurrence on a line: start column, end column, name.
#[derive(Debug, PartialEq)]
pub struct Token {
    pub start: usize,
    pub end: usize,
    pub val: String,
}

/// The mathematical shape of a token.
pub ghost struct TokenV {
    pub start: int,
    pub end: int,
    pub val: Seq<char>,
}

impl View for Token {
    type V = TokenV;

    open spec fn view(&self) -> TokenV {
        TokenV { start: self.start as int, end: self.end as int, val: self.val@ }
    }
}

/// A file identity plus a line/column range.
#[derive(Debug, PartialEq)]
pub struct Location {
    pub file: String,
    pub start_line: usize,
    pub start_col: usize,
    pub end_line: usize,
    pub end_col: usize,
}

/// The mathematical shape of a location.
pub ghost struct LocV {
    pub file: Seq<char>,
    pub start_line: int,
    pub start_col: int,
    pub end_line: int,
    pub end_col: int,
}

impl View for Location {
    type V = LocV;

    open spec fn view(&self) -> LocV {
        LocV {
            file: self.file@,
            start_line: self.start_line as int,
            start_col: self.start_col as int,
            end_line: self.end_line as int,
            end_col: self.end_col as int,
        }
    }
}

/// The token list of one line of one file.
#[derive(Debug, PartialEq)]
pub struct LineTokens {
    pub line: usize,
    pub tokens: Vec<Token>,
}

#[verifier::ext_equal]
pub ghost struct LineV {
    pub line: int,
    pub tokens: Seq<TokenV>,
}

impl View for LineTokens {
    type V = LineV;

    open spec fn view(&self) -> LineV {
        LineV { line: self.line as int, tokens: tokens_view(self.tokens@) }
    }
}

/// The per-line token lists of one file.
#[derive(Debug, PartialEq)]
pub struct FileTokens {
    pub file: String,
    pub lines: Vec<LineTokens>,
}

#[verifier::ext_equal]
pub ghost struct FileV {
    pub file: Seq<char>,
    pub lines: Seq<LineV>,
}

impl View for FileTokens {
    type V = FileV;

    open spec fn view(&self) -> FileV {
        FileV { file: self.file@, lines: lines_view(self.lines@) }
    }
}

/// One recorded definition site: the table keeps the last entry per name.
#[derive(Debug, PartialEq)]
pub struct DefnEntry {
    pub name: String,
    pub loc: Location,
}

pub ghost struct DefnV {
    pub name: Seq<char>,
    pub loc: LocV,
}

impl View for DefnEntry {
    type V = DefnV;

    open spec fn view(&self) -> DefnV {
        DefnV { name: self.name@, loc: self.loc@ }
    }
}

/// One recorded reference site.
#[derive(Debug, PartialEq)]
pub struct RefEntry {
    pub name: String,
    pub loc: Location,
}

pub ghost struct RefV {
    pub name: Seq<char>,
    pub loc: LocV,
}

impl View for RefEntry {
    type V = RefV;

    open spec fn view(&self) -> RefV {
        RefV { name: self.name@, loc: self.loc@ }
    }
}

pub open spec fn tokens_view(s: Seq<Token>) -> Seq<TokenV> {
    s.map_values(|t: Token| t@)
}

pub open spec fn lines_view(s: Seq<LineTokens>) -> Seq<LineV> {
    s.map_values(|l: LineTokens| l@)
}

pub open spec fn files_view(s: Seq<FileTokens>) -> Seq<FileV> {
    s.map_values(|f: FileTokens| f@)
}

pub open spec fn defns_view(s: Seq<DefnEntry>) -> Seq<DefnV> {
    s.map_values(|d: DefnEntry| d@)
}

pub open spec fn refs_view(s: Seq<RefEntry>) -> Seq<RefV> {
    s.map_values(|r: RefEntry| r@)
}

pub open spec fn locs_view(s: Seq<Location>) -> Seq<LocV> {
    s.map_values(|l: Location| l@)
}

/// The definition location recorded for a name: the last entry wins.
pub open spec fn defns_get(s: Seq<DefnV>, n: Seq<char>) -> Option<LocV>
    decreases s.len(),
{
    if s.len() == 0 {
        Option::None
    } else if s[s.len() - 1].name == n {
        Option::Some(s[s.len() - 1].loc)
    } else {
        defns_get(s.subrange(0, s.len() - 1), n)
    }
}

/// Every reference location recorded for a name, in recording order.
pub open spec fn refs_list(s: Seq<RefV>, n: Seq<char>) -> Seq<LocV>
    decreases s.len(),
{
    if s.len() == 0 {
        seq![]
    } else {
        refs_list(s.subrange(0, s.len() - 1), n) + (if s[s.len() - 1].name == n {
            seq![s[s.len() - 1].loc]
        } else {
            seq![]
        })
    }
}

/// The per-line token lists recorded for a file: the last entry wins.
pub open spec fn files_get(s: Seq<FileV>, f: Seq<char>) -> Option<Seq<LineV>>
    decreases s.len(),
{
    if s.len() == 0 {
        Option::None
    } else if s[s.len() - 1].file == f {
        Option::Some(s[s.len() - 1].lines)
    } else {
        files_get(s.subrange(0, s.len() - 1), f)
    }
}

/// The token list recorded for a line: the last entry wins (entries are
/// unique by construction).
pub open spec fn lines_get(s: Seq<LineV>, line: int) -> Option<Seq<TokenV>>
    decreases s.len(),
{
    if s.len() == 0 {
        Option::None
    } else if s[s.len() - 1].line == line {
        Option::Some(s[s.len() - 1].tokens)
    } else {
        lines_get(s.subrange(0, s.len() - 1), line)
    }
}

/// The 0-based line index of an occurrence: the count of newline bytes before
/// its start offset.
pub open spec fn occ_line(t: Seq<u8>, o: Occ) -> int {
    line_of_starts(line_starts_spec(t), o.start)
}

/// The byte column of an occurrence's start within its line.
pub open spec fn occ_scol(t: Seq<u8>, o: Occ) -> int {
    o.start - line_starts_spec(t)[occ_line(t, o)]
}

/// The byte column of an occurrence's end, relative to the start's line.
pub open spec fn occ_ecol(t: Seq<u8>, o: Occ) -> int {
    o.end - line_starts_spec(t)[occ_line(t, o)]
}

pub open spec fn occ_token(t: Seq<u8>, o: Occ) -> TokenV {
    TokenV { start: occ_scol(t, o), end: occ_ecol(t, o), val: o.name }
}

pub open spec fn occ_loc(f: Seq<char>, t: Seq<u8>, o: Occ) -> LocV {
    LocV {
        file: f,
        start_line: occ_line(t, o),
        start_col: occ_scol(t, o),
        end_line: occ_line(t, o),
        end_col: occ_ecol(t, o),
    }
}

/// The definition entries one file contributes: its definition-site
/// occurrences, in traversal order.
pub open spec fn defn_additions(f: Seq<char>, t: Seq<u8>, occs: Seq<Occ>) -> Seq<DefnV>
    decreases occs.len(),
{
    if occs.len() == 0 {
        seq![]
    } else {
        defn_additions(f, t, occs.subrange(0, occs.len() - 1)) + (if occs[occs.len()
            - 1].is_defn {
            seq![DefnV { name: occs[occs.len() - 1].name, loc: occ_loc(f, t, occs[occs.len() - 1]) }]
        } else {
            seq![]
        })
    }
}

/// The reference entries one file contributes: its reference-site
/// occurrences, in traversal order.
pub open spec fn ref_additions(f: Seq<char>, t: Seq<u8>, occs: Seq<Occ>) -> Seq<RefV>
    decreases occs.len(),
{
    if occs.len() == 0 {
        seq![]
    } else {
        ref_additions(f, t, occs.subrange(0, occs.len() - 1)) + (if !occs[occs.len()
            - 1].is_defn {
            seq![RefV { name: occs[occs.len() - 1].name, loc: occ_loc(f, t, occs[occs.len() - 1]) }]
        } else {
            seq![]
        })
    }
}

/// The index of the last line entry with the given line number, or -1.
pub open spec fn line_index_of(ls: Seq<LineV>, line: int) -> int
    decreases ls.len(),
{
    if ls.len() == 0 {
        -1
    } else if ls[ls.len() - 1].line == line {
        ls.len() - 1
    } else {
        line_index_of(ls.subrange(0, ls.len() - 1), line)
    }
}

/// Group a file's occurrences into per-line token lists, in the order the
/// lines are first seen, appending each token to its line in traversal order.
pub open spec fn group_lines(t: Seq<u8>, occs: Seq<Occ>) -> Seq<LineV>
    decreases occs.len(),
{
    if occs.len() == 0 {
        seq![]
    } else {
        let prev = group_lines(t, occs.subrange(0, occs.len() - 1));
        let o = occs[occs.len() - 1];
        let ln = occ_line(t, o);
        let j = line_index_of(prev, ln);
        if j >= 0 {
            prev.update(j, LineV { line: ln, tokens: prev[j].tokens.push(occ_token(t, o)) })
        } else {
            prev.push(LineV { line: ln, tokens: seq![occ_token(t, o)] })
        }
    }
}

/// Stable insertion of a token into a list sorted by start column: the token
/// goes after every token whose start does not exceed its own.
pub open spec fn insert_token(s: Seq<TokenV>, tk: TokenV) -> Seq<TokenV>
    decreases s.len(),
{
    if s.len() == 0 {
        seq![tk]
    } else if s[s.len() - 1].start <= tk.start {
        s.push(tk)
    } else {
        insert_token(s.subrange(0, s.len() - 1), tk).push(s[s.len() - 1])
    }
}

/// Stable insertion sort of a token list by start column.
pub open spec fn sort_tokens(s: Seq<TokenV>) -> Seq<TokenV>
    decreases s.len(),
{
    if s.len() == 0 {
        seq![]
    } else {
        insert_token(sort_tokens(s.subrange(0, s.len() - 1)), s[s.len() - 1])
    }
}

pub open spec fn sort_lines(ls: Seq<LineV>) -> Seq<LineV> {
    ls.map_values(|l: LineV| LineV { line: l.line, tokens: sort_tokens(l.tokens) })
}

/// The per-line token lists one file contributes: its occurrences grouped by
/// line, each line sorted by start column.
pub open spec fn file_lines(t: Seq<u8>, occs: Seq<Occ>) -> Seq<LineV> {
    sort_lines(group_lines(t, occs))
}

pub open spec fn sorted_by_start(s: Seq<TokenV>) -> bool {
    forall|i: int, j: int| 0 <= i < j < s.len() ==> s[i].start <= s[j].start
}

/// Every occurrence span is well formed: non-negative, start at most end, and
/// within the file's byte length.
pub open spec fn occs_wf(occs: Seq<Occ>, len: int) -> bool {
    forall|k: int|
        0 <= k < occs.len() ==> 0 <= #[trigger] occs[k].start && occs[k].start <= occs[k].end
            && occs[k].end <= len
}

/// The three lookup tables. Entries only accumulate; lookups resolve names,
/// files and lines to the most recently recorded entry.
#[derive(Debug, PartialEq)]
pub struct IndexStore {
    pub identifiers: Vec<FileTokens>,
    pub referenced_locs: Vec<RefEntry>,
    pub defn_locs: Vec<DefnEntry>,
}

impl IndexStore {
    pub open spec fn files(self) -> Seq<FileV> {
        files_view(self.identifiers@)
    }

    pub open spec fn defns(self) -> Seq<DefnV> {
        defns_view(self.defn_locs@)
    }

    pub open spec fn refs(self) -> Seq<RefV> {
        refs_view(self.referenced_locs@)
    }

    /// Every stored line's token list is sorted by start column.
    pub open spec fn wf(self) -> bool {
        forall|i: int, j: int|
            0 <= i < self.files().len() && 0 <= j < self.files()[i].lines.len()
                ==> sorted_by_start(#[trigger] self.files()[i].lines[j].tokens)
    }

    /// An empty store.
    pub fn new() -> (r: IndexStore)
        ensures
            r.files() == Seq::<FileV>::empty(),
            r.defns() == Seq::<DefnV>::empty(),
            r.refs() == Seq::<RefV>::empty(),
            r.wf(),
    {
        let r = IndexStore {
            identifiers: Vec::new(),
            referenced_locs: Vec::new(),
            defn_locs: Vec::new(),
        };
        proof {
            assert(r.files() =~= Seq::<FileV>::empty());
            assert(r.defns() =~= Seq::<DefnV>::empty());
            assert(r.refs() =~= Seq::<RefV>::empty());
        }
        r
    }
}

fn clone_token(t: &Token) -> (r: Token)
    ensures
        r == *t,
{
    Token { start: t.start, end: t.end, val: t.val.clone() }
}

proof fn lemma_insert_token_at(s: Seq<TokenV>, tk: TokenV, pos: int)
    requires
        0 <= pos <= s.len(),
        forall|m: int| pos <= m < s.len() ==> s[m].start > tk.start,
        pos > 0 ==> s[pos - 1].start <= tk.start,
    ensures
        insert_token(s, tk) == s.insert(pos, tk),
    decreases s.len(),
{
    if s.len() == 0 {
        assert(insert_token(s, tk) =~= s.insert(0, tk));
    } else if s[s.len() - 1].start <= tk.start {
        assert(pos == s.len()) by {
            if pos < s.len() {
                assert(s[s.len() - 1].start > tk.start);
            }
        }
        assert(s.push(tk) =~= s.insert(pos, tk));
    } else {
        let front = s.subrange(0, s.len() - 1);
        assert(pos < s.len());
        lemma_insert_token_at(front, tk, pos);
        assert(front.insert(pos, tk).push(s[s.len() - 1]) =~= s.insert(pos, tk));
    }
}

proof fn lemma_insert_token_contains(s: Seq<TokenV>, tk: TokenV, x: TokenV)
    ensures
        insert_token(s, tk).contains(x) <==> (s.contains(x) || x == tk),
    decreases s.len(),
{
    if s.len() == 0 {
        assert(insert_token(s, tk) == seq![tk]);
        assert(seq![tk][0] == tk);
    } else if s[s.len() - 1].start <= tk.start {
        assert(s.push(tk).contains(x) <==> (s.contains(x) || x == tk)) by {
            if s.push(tk).contains(x) {
                let i = choose|i: int| 0 <= i < s.push(tk).len() && s.push(tk)[i] == x;
                if i < s.len() {
                    assert(s[i] == x);
                } else {
                    assert(x == tk);
                }
            }
            if s.contains(x) {
                let i = choose|i: int| 0 <= i < s.len() && s[i] == x;
                assert(s.push(tk)[i] == x);
            }
            if x == tk {
                assert(s.push(tk)[s.len() as int] == x);
            }
        }
    } else {
        let front = s.subrange(0, s.len() - 1);
        lemma_insert_token_contains(front, tk, x);
        let r0 = insert_token(front, tk);
        let last = s[s.len() - 1];
        assert(r0.push(last).contains(x) <==> (r0.contains(x) || x == last)) by {
            if r0.push(last).contains(x) {
                let i = choose|i: int| 0 <= i < r0.push(last).len() && r0.push(last)[i] == x;
                if i < r0.len() {
                    assert(r0[i] == x);
                }
            }
            if r0.contains(x) {
                let i = choose|i: int| 0 <= i < r0.len() && r0[i] == x;
                assert(r0.push(last)[i] == x);
            }
            if x == last {
                assert(r0.push(last)[r0.len() as int] == x);
            }
        }
        assert(s.contains(x) <==> (front.contains(x) || x == last)) by {
            if s.contains(x) {
                let i = choose|i: int| 0 <= i < s.len() && s[i] == x;
                if i < s.len() - 1 {
                    assert(front[i] == x);
                }
            }
            if front.contains(x) {
                let i = choose|i: int| 0 <= i < front.len() && front[i] == x;
                assert(s[i] == x);
            }
            if x == last {
                assert(s[s.len() - 1] == x);
            }
        }
    }
}

proof fn lemma_insert_token_sorted(s: Seq<TokenV>, tk: TokenV)
    requires
        sorted_by_start(s),
    ensures
        sorted_by_start(insert_token(s, tk)),
    decreases s.len(),
{
    if s.len() == 0 {
    } else if s[s.len() - 1].start <= tk.start {
        let r = s.push(tk);
        assert forall|i: int, j: int| 0 <= i < j < r.len() implies r[i].start <= r[j].start by {
            if j == r.len() - 1 {
                assert(r[i] == s[i]);
                if i < s.len() - 1 {
                    assert(s[i].start <= s[s.len() - 1].start);
                }
            }
        }
    } else {
        let front = s.subrange(0, s.len() - 1);
        assert(sorted_by_start(front));
        lemma_insert_token_sorted(front, tk);
        let r0 = insert_token(front, tk);
        let last = s[s.len() - 1];
        let r = r0.push(last);
        assert forall|i: int, j: int| 0 <= i < j < r.len() implies r[i].start <= r[j].start by {
            if j == r.len() - 1 {
                assert(r0.contains(r0[i])) by {
                    assert(0 <= i < r0.len());
                }
                lemma_insert_token_contains(front, tk, r0[i]);
                if front.contains(r0[i]) {
                    let m = choose|m: int| 0 <= m < front.len() && front[m] == r0[i];
                    assert(s[m].start <= last.start);
                } else {
                    assert(r0[i] == tk);
                }
            }
        }
    }
}

/// Every sorted line holds exactly the tokens it was built from: sorting
/// neither loses nor invents a token.
pub proof fn lemma_sort_tokens_contains(s: Seq<TokenV>, x: TokenV)
    ensures
        sort_tokens(s).contains(x) <==> s.contains(x),
    decreases s.len(),
{
    if s.len() > 0 {
        let front = s.subrange(0, s.len() - 1);
        let last = s[s.len() - 1];
        lemma_sort_tokens_contains(front, x);
        lemma_insert_token_contains(sort_tokens(front), last, x);
        assert(s.contains(x) <==> (front.contains(x) || x == last)) by {
            if s.contains(x) {
                let i = choose|i: int| 0 <= i < s.len() && s[i] == x;
                if i < s.len() - 1 {
                    assert(front[i] == x);
                }
            }
            if front.contains(x) {
                let i = choose|i: int| 0 <= i < front.len() && front[i] == x;
                assert(s[i] == x);
            }
            if x == last {
                assert(s[s.len() - 1] == x);
            }
        }
    }
}

/// A sorted line is sorted by start column.
pub proof fn lemma_sort_tokens_sorted(s: Seq<TokenV>)
    ensures
        sorted_by_start(sort_tokens(s)),
    decreases s.len(),
{
    if s.len() > 0 {
        let front = s.subrange(0, s.len() - 1);
        lemma_sort_tokens_sorted(front);
        lemma_insert_token_sorted(sort_tokens(front), s[s.len() - 1]);
    }
}

proof fn lemma_line_index_of_found(ls: Seq<LineV>, line: int, j: int)
    requires
        0 <= j < ls.len(),
        ls[j].line == line,
        forall|k: int| j < k < ls.len() ==> ls[k].line != line,
    ensures
        line_index_of(ls, line) == j,
    decreases ls.len(),
{
    if ls[ls.len() - 1].line == line {
        assert(j == ls.len() - 1);
    } else {
        let front = ls.subrange(0, ls.len() - 1);
        assert(j < ls.len() - 1);
        lemma_line_index_of_found(front, line, j);
    }
}

proof fn lemma_line_index_of_absent(ls: Seq<LineV>, line: int)
    requires
        forall|k: int| 0 <= k < ls.len() ==> ls[k].line != line,
    ensures
        line_index_of(ls, line) == -1,
    decreases ls.len(),
{
    if ls.len() > 0 {
        lemma_line_index_of_absent(ls.subrange(0, ls.len() - 1), line);
    }
}

/// The sorted token list a file's contribution records for one line.
pub open spec fn file_line_tokens(t: Seq<u8>, occs: Seq<Occ>, line: int) -> Seq<TokenV> {
    match lines_get(file_lines(t, occs), line) {
        Option::Some(toks) => toks,
        Option::None => seq![],
    }
}

pub proof fn lemma_line_index_of_props(ls: Seq<LineV>, line: int)
    ensures
        line_index_of(ls, line) == -1 || (0 <= line_index_of(ls, line) < ls.len() && ls[
            line_index_of(ls, line)
        ].line == line),
    decreases ls.len(),
{
    if ls.len() > 0 && ls[ls.len() - 1].line != line {
        lemma_line_index_of_props(ls.subrange(0, ls.len() - 1), line);
    }
}

pub proof fn lemma_line_index_of_same_lines(a: Seq<LineV>, b: Seq<LineV>, line: int)
    requires
        a.len() == b.len(),
        forall|m: int| 0 <= m < a.len() ==> a[m].line == b[m].line,
    ensures
        line_index_of(a, line) == line_index_of(b, line),
    decreases a.len(),
{
    if a.len() > 0 && a[a.len() - 1].line != line {
        lemma_line_index_of_same_lines(
            a.subrange(0, a.len() - 1),
            b.subrange(0, b.len() - 1),
            line,
        );
    }
}

pub proof fn lemma_lines_get_via_index(ls: Seq<LineV>, line: int)
    ensures
        line_index_of(ls, line) == -1 ==> lines_get(ls, line) is None,
        line_index_of(ls, line) >= 0 ==> lines_get(ls, line) == Option::Some(
            ls[line_index_of(ls, line)].tokens,
        ),
    decreases ls.len(),
{
    lemma_line_index_of_props(ls, line);
    if ls.len() > 0 && ls[ls.len() - 1].line != line {
        lemma_lines_get_via_index(ls.subrange(0, ls.len() - 1), line);
        lemma_line_index_of_props(ls.subrange(0, ls.len() - 1), line);
    }
}

/// Every occurrence of a file is recorded as a token in the file's grouped
/// per-line lists, on the line its start offset resolves to.
pub proof fn lemma_group_lines_contains(t: Seq<u8>, occs: Seq<Occ>, k: int)
    requires
        0 <= k < occs.len(),
    ensures
        ({
            let gl = group_lines(t, occs);
            let j = line_index_of(gl, occ_line(t, occs[k]));
            &&& 0 <= j < gl.len()
            &&& gl[j].line == occ_line(t, occs[k])
            &&& gl[j].tokens.contains(occ_token(t, occs[k]))
        }),
    decreases occs.len(),
{
    let gl = group_lines(t, occs);
    let front = occs.subrange(0, occs.len() - 1);
    let fgl = group_lines(t, front);
    let last = occs[occs.len() - 1];
    let lnl = occ_line(t, last);
    let ju = line_index_of(fgl, lnl);
    lemma_line_index_of_props(fgl, lnl);
    if k == occs.len() - 1 {
        if ju >= 0 {
            assert forall|m: int| 0 <= m < gl.len() implies gl[m].line == fgl[m].line by {}
            lemma_line_index_of_same_lines(gl, fgl, lnl);
            assert(gl[ju].tokens == fgl[ju].tokens.push(occ_token(t, last)));
            assert(gl[ju].tokens[gl[ju].tokens.len() - 1] == occ_token(t, last));
        } else {
            assert(gl[gl.len() - 1].line == lnl);
            assert(gl[gl.len() - 1].tokens[0] == occ_token(t, last));
        }
    } else {
        assert(front[k] == occs[k]);
        lemma_group_lines_contains(t, front, k);
        let lnk = occ_line(t, occs[k]);
        let j0 = line_index_of(fgl, lnk);
        if ju >= 0 {
            assert forall|m: int| 0 <= m < gl.len() implies gl[m].line == fgl[m].line by {}
            lemma_line_index_of_same_lines(gl, fgl, lnk);
            if j0 == ju {
                let w = choose|w: int|
                    0 <= w < fgl[j0].tokens.len() && fgl[j0].tokens[w] == occ_token(t, occs[k]);
                assert(gl[j0].tokens[w] == occ_token(t, occs[k]));
            } else {
                assert(gl[j0] == fgl[j0]);
            }
        } else {
            assert(lnl != lnk);
            assert(gl.subrange(0, gl.len() - 1) =~= fgl);
            assert(line_index_of(gl, lnk) == j0);
            assert(gl[j0] == fgl[j0]);
        }
    }
}

/// Every token in a file's grouped per-line lists is the token of one of the
/// file's occurrences: grouping invents nothing.
pub proof fn lemma_group_lines_tokens_from_occs(t: Seq<u8>, occs: Seq<Occ>, j: int, i: int)
    requires
        0 <= j < group_lines(t, occs).len(),
        0 <= i < group_lines(t, occs)[j].tokens.len(),
    ensures
        exists|m: int|
            0 <= m < occs.len() && group_lines(t, occs)[j].tokens[i] == occ_token(
                t,
                #[trigger] occs[m],
            ) && occ_line(t, occs[m]) == group_lines(t, occs)[j].line,
    decreases occs.len(),
{
    let gl = group_lines(t, occs);
    let front = occs.subrange(0, occs.len() - 1);
    let fgl = group_lines(t, front);
    let last = occs[occs.len() - 1];
    let lnl = occ_line(t, last);
    let ju = line_index_of(fgl, lnl);
    lemma_line_index_of_props(fgl, lnl);
    if ju >= 0 {
        if j == ju && i == gl[j].tokens.len() - 1 {
            assert(gl[j].tokens == fgl[ju].tokens.push(occ_token(t, last)));
            assert(gl[j].line == fgl[ju].line);
            assert(gl[j].tokens[i] == occ_token(t, occs[occs.len() - 1]) && occ_line(
                t,
                occs[occs.len() - 1],
            ) == gl[j].line);
        } else {
            if j == ju {
                assert(gl[j].tokens == fgl[ju].tokens.push(occ_token(t, last)));
                assert(gl[j].tokens[i] == fgl[j].tokens[i]);
                assert(gl[j].line == fgl[j].line);
            } else {
                assert(gl[j] == fgl[j]);
            }
            lemma_group_lines_tokens_from_occs(t, front, j, i);
            let m = choose|m: int|
                0 <= m < front.len() && fgl[j].tokens[i] == occ_token(t, #[trigger] front[m])
                    && occ_line(t, front[m]) == fgl[j].line;
            assert(front[m] == occs[m]);
            assert(gl[j].tokens[i] == occ_token(t, occs[m]) && occ_line(t, occs[m])
                == gl[j].line);
        }
    } else {
        if j == gl.len() - 1 {
            assert(gl[j].tokens =~= seq![occ_token(t, last)]);
            assert(gl[j].line == lnl);
            assert(gl[j].tokens[i] == occ_token(t, occs[occs.len() - 1]) && occ_line(
                t,
                occs[occs.len() - 1],
            ) == gl[j].line);
        } else {
            assert(gl[j] == fgl[j]);
            lemma_group_lines_tokens_from_occs(t, front, j, i);
            let m = choose|m: int|
                0 <= m < front.len() && fgl[j].tokens[i] == occ_token(t, #[trigger] front[m])
                    && occ_line(t, front[m]) == fgl[j].line;
            assert(front[m] == occs[m]);
            assert(gl[j].tokens[i] == occ_token(t, occs[m]) && occ_line(t, occs[m])
                == gl[j].line);
        }
    }
}

/// Stable insertion sort of one line's tokens by start column.
fn sort_tokens_exec(src: &Vec<Token>) -> (r: Vec<Token>)
    ensures
        tokens_view(r@) == sort_tokens(tokens_view(src@)),
{
    let ghost sv = tokens_view(src@);
    let mut r: Vec<Token> = Vec::new();
    proof {
        assert(sv.subrange(0, 0) =~= Seq::<TokenV>::empty());
        assert(tokens_view(r@) =~= sort_tokens(sv.subrange(0, 0)));
    }
    for k in 0..src.len()
        invariant
            sv == tokens_view(src@),
            tokens_view(r@) == sort_tokens(sv.subrange(0, k as int)),
    {
        let t = &src[k];
        let mut pos: usize = r.len();
        while pos > 0
            invariant
                pos <= r@.len(),
                forall|m: int| pos <= m < r@.len() ==> r@[m].start > t.start,
            ensures
                pos <= r@.len(),
                forall|m: int| pos <= m < r@.len() ==> r@[m].start > t.start,
                pos > 0 ==> r@[pos - 1].start <= t.start,
            decreases pos,
        {
            if r[pos - 1].start <= t.start {
                break;
            }
            pos -= 1;
        }
        let ghost rv = tokens_view(r@);
        let tc = clone_token(t);
        r.insert(pos, tc);
        proof {
            assert forall|m: int| pos as int <= m < rv.len() implies rv[m].start
                > t@.start by {};
            if pos > 0 {
                assert(rv[pos as int - 1].start <= t@.start);
            }
            lemma_insert_token_at(rv, t@, pos as int);
            assert(tokens_view(r@) =~= rv.insert(pos as int, t@));
            let p1 = sv.subrange(0, k + 1 as int);
            assert(p1.subrange(0, k as int) =~= sv.subrange(0, k as int));
            assert(p1[k as int] == sv[k as int]);
            assert(sv[k as int] == t@);
            assert(tokens_view(r@) == sort_tokens(p1));
        }
    }
    proof {
        assert(sv.subrange(0, sv.len() as int) =~= sv);
    }
    r
}

impl IndexStore {
    /// Index one parsed file: classify every occurrence, convert byte spans
    /// to line/column locations, and merge the results into the three tables.
    /// Definition sites update the definition table (a later entry for the
    /// same name wins every lookup), reference sites append to the reference
    /// table, and every occurrence contributes a token to the file's per-line
    /// lists, which are then sorted by start column.
    pub fn index_file(&mut self, file: &String, text: &Vec<u8>, parsed: &Specification)
        requires
            old(self).wf(),
            occs_wf(specification_occs(*parsed), text@.len() as int),
        ensures
            final(self).wf(),
            final(self).defns() == old(self).defns() + defn_additions(
                file@,
                text@,
                specification_occs(*parsed),
            ),
            final(self).refs() == old(self).refs() + ref_additions(
                file@,
                text@,
                specification_occs(*parsed),
            ),
            final(self).files() == old(self).files().push(
                FileV { file: file@, lines: file_lines(text@, specification_occs(*parsed)) },
            ),
    {
        let ghost all = specification_occs(*parsed);
        let ghost defns0 = old(self).defns();
        let ghost refs0 = old(self).refs();
        let mut occs: Vec<Occurrence> = Vec::new();
        visit_identifiers(parsed, &mut occs);
        let starts = line_starts(text);
        proof {
            lemma_line_starts_props(text@);
            assert(starts_view(starts@)[0] == starts@[0] as int);
            assert forall|i: int, j: int|
                0 <= i < j < starts@.len() implies starts@[i] < starts@[j] by {
                assert(starts_view(starts@)[i] == starts@[i] as int);
                assert(starts_view(starts@)[j] == starts@[j] as int);
            }
        }
        let mut lines: Vec<LineTokens> = Vec::new();
        proof {
            assert(all.subrange(0, 0) =~= Seq::<Occ>::empty());
            assert(lines_view(lines@) =~= group_lines(text@, all.subrange(0, 0)));
            assert(defns_view(self.defn_locs@) =~= defns0 + defn_additions(
                file@,
                text@,
                all.subrange(0, 0),
            ));
            assert(refs_view(self.referenced_locs@) =~= refs0 + ref_additions(
                file@,
                text@,
                all.subrange(0, 0),
            ));
        }
        for k in 0..occs.len()
            invariant
                occs_view(occs@) == all,
                occs_wf(all, text@.len() as int),
                starts_view(starts@) == line_starts_spec(text@),
                starts@.len() >= 1,
                starts@[0] == 0,
                forall|i: int, j: int| 0 <= i < j < starts@.len() ==> starts@[i] < starts@[j],
                lines_view(lines@) == group_lines(text@, all.subrange(0, k as int)),
                defns_view(self.defn_locs@) == defns0 + defn_additions(
                    file@,
                    text@,
                    all.subrange(0, k as int),
                ),
                refs_view(self.referenced_locs@) == refs0 + ref_additions(
                    file@,
                    text@,
                    all.subrange(0, k as int),
                ),
                self.identifiers == old(self).identifiers,
        {
            let oref = &occs[k];
            let ghost osp = all[k as int];
            proof {
                assert(occs_view(occs@)[k as int] == occs@[k as int]@);
                assert(osp == oref@);
            }
            let (ln, sc) = line_col_of(&starts, oref.start);
            proof {
                assert(starts_view(starts@)[ln as int] == starts@[ln as int] as int);
                assert(ln as int == occ_line(text@, osp));
                assert(sc as int == occ_scol(text@, osp));
            }
            let base = starts[ln];
            let ec = oref.end - base;
            proof {
                assert(ec as int == occ_ecol(text@, osp));
            }
            let loc = Location {
                file: file.clone(),
                start_line: ln,
                start_col: sc,
                end_line: ln,
                end_col: ec,
            };
            let tok = Token { start: sc, end: ec, val: oref.name.clone() };
            proof {
                assert(loc@ == occ_loc(file@, text@, osp));
                assert(tok@ == occ_token(text@, osp));
            }
            let ghost prevlines = lines@;
            let mut j: usize = lines.len();
            while j > 0
                invariant
                    j <= lines@.len(),
                    lines@ == prevlines,
                    forall|m: int| j <= m < lines@.len() ==> lines@[m].line != ln,
                ensures
                    j <= lines@.len(),
                    lines@ == prevlines,
                    forall|m: int| j <= m < lines@.len() ==> lines@[m].line != ln,
                    j > 0 ==> lines@[j - 1].line == ln,
                decreases j,
            {
                if lines[j - 1].line == ln {
                    break ;
                }
                j -= 1;
            }
            let ghost gprev = lines_view(prevlines);
            let ghost tokv = occ_token(text@, osp);
            if j > 0 {
                let mut entry = lines.remove(j - 1);
                let ghost e0 = entry;
                entry.tokens.push(tok);
                let ghost entryv = entry@;
                lines.insert(j - 1, entry);
                proof {
                    assert forall|m: int|
                        j as int - 1 < m < gprev.len() implies gprev[m].line != ln as int by {
                        assert(gprev[m] == prevlines[m]@);
                    }
                    assert(gprev[j as int - 1] == prevlines[j as int - 1]@);
                    lemma_line_index_of_found(gprev, ln as int, j as int - 1);
                    assert(e0 == prevlines[j as int - 1]);
                    assert(entryv.tokens =~= tokens_view(e0.tokens@).push(tokv));
                    assert(entryv =~~= LineV {
                        line: ln as int,
                        tokens: gprev[j as int - 1].tokens.push(tokv),
                    });
                    assert forall|m: int|
                        0 <= m < lines@.len() implies lines_view(lines@)[m] == gprev.update(
                        j as int - 1,
                        entryv,
                    )[m] by {
                        assert(lines_view(lines@)[m] == lines@[m]@);
                        if m < j as int - 1 {
                            assert(lines@[m] == prevlines[m]);
                        } else if m == j as int - 1 {
                            assert(lines@[m]@ == entryv);
                        } else {
                            assert(lines@[m] == prevlines[m]);
                        }
                    }
                    assert(lines_view(lines@) =~= gprev.update(j as int - 1, entryv));
                }
            } else {
                let mut tv: Vec<Token> = Vec::new();
                tv.push(tok);
                proof {
                    assert(tokens_view(tv@) =~= seq![tokv]);
                }
                lines.push(LineTokens { line: ln, tokens: tv });
                proof {
                    assert forall|m: int|
                        0 <= m < gprev.len() implies gprev[m].line != ln as int by {
                        assert(gprev[m] == prevlines[m]@);
                    }
                    lemma_line_index_of_absent(gprev, ln as int);
                    assert(lines@[lines@.len() - 1]@ =~~= LineV {
                        line: ln as int,
                        tokens: seq![tokv],
                    });
                    assert(lines_view(lines@) =~= gprev.push(
                        LineV { line: ln as int, tokens: seq![tokv] },
                    ));
                }
            }
            let ghost dprev = defns_view(self.defn_locs@);
            let ghost rprev = refs_view(self.referenced_locs@);
            if oref.is_defn {
                let de = DefnEntry { name: oref.name.clone(), loc };
                proof {
                    assert(de@ == DefnV { name: osp.name, loc: occ_loc(file@, text@, osp) });
                }
                let ghost dev = de@;
                self.defn_locs.push(de);
                proof {
                    assert(defns_view(self.defn_locs@) =~= dprev + seq![dev]);
                    assert(refs_view(self.referenced_locs@) == rprev);
                }
            } else {
                let re = RefEntry { name: oref.name.clone(), loc };
                proof {
                    assert(re@ == RefV { name: osp.name, loc: occ_loc(file@, text@, osp) });
                }
                let ghost rev = re@;
                self.referenced_locs.push(re);
                proof {
                    assert(refs_view(self.referenced_locs@) =~= rprev + seq![rev]);
                    assert(defns_view(self.defn_locs@) == dprev);
                }
            }
            proof {
                let pre = all.subrange(0, k as int);
                let pre1 = all.subrange(0, k + 1 as int);
                assert(pre1.subrange(0, pre1.len() - 1) =~= pre);
                assert(pre1[pre1.len() - 1] == osp);
                assert(lines_view(lines@) == group_lines(text@, pre1));
                assert(defns_view(self.defn_locs@) =~= defns0 + defn_additions(
                    file@,
                    text@,
                    pre1,
                ));
                assert(refs_view(self.referenced_locs@) =~= refs0 + ref_additions(
                    file@,
                    text@,
                    pre1,
                ));
            }
        }
        proof {
            assert(all.subrange(0, occs@.len() as int) =~= all);
        }
        let mut sorted_lines: Vec<LineTokens> = Vec::new();
        for si in 0..lines.len()
            invariant
                lines_view(lines@) == group_lines(text@, all),
                sorted_lines@.len() == si,
                forall|m: int|
                    0 <= m < si as int ==> lines_view(sorted_lines@)[m] == sort_lines(
                        lines_view(lines@),
                    )[m],
                defns_view(self.defn_locs@) == defns0 + defn_additions(file@, text@, all),
                refs_view(self.referenced_locs@) == refs0 + ref_additions(file@, text@, all),
                self.identifiers == old(self).identifiers,
        {
            let lt = &lines[si];
            let st = sort_tokens_exec(&lt.tokens);
            let ghost before = sorted_lines@;
            sorted_lines.push(LineTokens { line: lt.line, tokens: st });
            proof {
                let lv = lines_view(lines@);
                assert(lv[si as int] == lines@[si as int]@);
                assert(sorted_lines@[si as int]@.tokens == sort_tokens(lv[si as int].tokens));
                assert(lines_view(sorted_lines@)[si as int] =~~= sort_lines(lv)[si as int]);
                assert forall|m: int|
                    0 <= m < si as int implies lines_view(sorted_lines@)[m] == sort_lines(lv)[m] by {
                    assert(sorted_lines@[m] == before[m]);
                    assert(lines_view(before)[m] == sort_lines(lv)[m]);
                }
            }
        }
        proof {
            assert(lines_view(sorted_lines@) =~= sort_lines(group_lines(text@, all)));
        }
        let ft = FileTokens { file: file.clone(), lines: sorted_lines };
        proof {
            assert(ft@ == FileV { file: file@, lines: file_lines(text@, all) });
        }
        let ghost ftv = ft@;
        let ghost files0 = files_view(old(self).identifiers@);
        self.identifiers.push(ft);
        proof {
            assert(files_view(self.identifiers@) =~= files0.push(ftv));
            let newfiles = files_view(self.identifiers@);
            assert forall|i: int, j: int|
                0 <= i < newfiles.len() && 0 <= j < newfiles[i].lines.len()
                    implies sorted_by_start(#[trigger] newfiles[i].lines[j].tokens) by {
                if i < files0.len() {
                    assert(newfiles[i] == files0[i]);
                    assert(old(self).wf());
                    assert(sorted_by_start(old(self).files()[i].lines[j].tokens));
                } else {
                    assert(newfiles[i] == ftv);
                    assert(ftv.lines[j] == sort_lines(group_lines(text@, all))[j]);
                    lemma_sort_tokens_sorted(group_lines(text@, all)[j].tokens);
                }
            }
        }
    }
}

fn clone_location(l: &Location) -> (r: Location)
    ensures
        r == *l,
{
    Location {
        file: l.file.clone(),
        start_line: l.start_line,
        start_col: l.start_col,
        end_line: l.end_line,
        end_col: l.end_col,
    }
}

/// The result of a cursor query within one line's token list: the name of the
/// last token whose start column is at most the queried column, provided the
/// column also lies at or before that token's end column.
pub open spec fn ident_at_spec(toks: Seq<TokenV>, c: int) -> Option<Seq<char>>
    decreases toks.len(),
{
    if toks.len() == 0 {
        Option::None
    } else if toks[toks.len() - 1].start <= c {
        if c <= toks[toks.len() - 1].end {
            Option::Some(toks[toks.len() - 1].val)
        } else {
            Option::None
        }
    } else {
        ident_at_spec(toks.subrange(0, toks.len() - 1), c)
    }
}

/// The full cursor query: resolve the file, then the line, then the column.
pub open spec fn spec_ident_at(s: IndexStore, f: Seq<char>, line: int, c: int) -> Option<
    Seq<char>,
> {
    match files_get(s.files(), f) {
        Option::Some(lines) => match lines_get(lines, line) {
            Option::Some(toks) => ident_at_spec(toks, c),
            Option::None => Option::None,
        },
        Option::None => Option::None,
    }
}

pub open spec fn defn_loc_seq(o: Option<LocV>) -> Seq<LocV> {
    match o {
        Option::Some(l) => seq![l],
        Option::None => seq![],
    }
}

pub proof fn lemma_defns_get_found(s: Seq<DefnV>, n: Seq<char>, j: int)
    requires
        0 <= j < s.len(),
        s[j].name == n,
        forall|k: int| j < k < s.len() ==> s[k].name != n,
    ensures
        defns_get(s, n) == Option::Some(s[j].loc),
    decreases s.len(),
{
    if s[s.len() - 1].name == n {
        assert(j == s.len() - 1);
    } else {
        assert(j < s.len() - 1);
        lemma_defns_get_found(s.subrange(0, s.len() - 1), n, j);
    }
}

pub proof fn lemma_defns_get_absent(s: Seq<DefnV>, n: Seq<char>)
    requires
        forall|k: int| 0 <= k < s.len() ==> s[k].name != n,
    ensures
        defns_get(s, n) is None,
    decreases s.len(),
{
    if s.len() > 0 {
        lemma_defns_get_absent(s.subrange(0, s.len() - 1), n);
    }
}

pub proof fn lemma_files_get_found(s: Seq<FileV>, f: Seq<char>, j: int)
    requires
        0 <= j < s.len(),
        s[j].file == f,
        forall|k: int| j < k < s.len() ==> s[k].file != f,
    ensures
        files_get(s, f) == Option::Some(s[j].lines),
    decreases s.len(),
{
    if s[s.len() - 1].file == f {
        assert(j == s.len() - 1);
    } else {
        assert(j < s.len() - 1);
        lemma_files_get_found(s.subrange(0, s.len() - 1), f, j);
    }
}

pub proof fn lemma_files_get_absent(s: Seq<FileV>, f: Seq<char>)
    requires
        forall|k: int| 0 <= k < s.len() ==> s[k].file != f,
    ensures
        files_get(s, f) is None,
    decreases s.len(),
{
    if s.len() > 0 {
        lemma_files_get_absent(s.subrange(0, s.len() - 1), f);
    }
}

pub proof fn lemma_lines_get_found(s: Seq<LineV>, line: int, j: int)
    requires
        0 <= j < s.len(),
        s[j].line == line,
        forall|k: int| j < k < s.len() ==> s[k].line != line,
    ensures
        lines_get(s, line) == Option::Some(s[j].tokens),
    decreases s.len(),
{
    if s[s.len() - 1].line == line {
        assert(j == s.len() - 1);
    } else {
        assert(j < s.len() - 1);
        lemma_lines_get_found(s.subrange(0, s.len() - 1), line, j);
    }
}

pub proof fn lemma_lines_get_absent(s: Seq<LineV>, line: int)
    requires
        forall|k: int| 0 <= k < s.len() ==> s[k].line != line,
    ensures
        lines_get(s, line) is None,
    decreases s.len(),
{
    if s.len() > 0 {
        lemma_lines_get_absent(s.subrange(0, s.len() - 1), line);
    }
}

/// The cursor query returns the token with the greatest start column not
/// exceeding the queried column, when the column reaches its end column.
pub proof fn lemma_ident_at_found(toks: Seq<TokenV>, c: int, j: int)
    requires
        0 <= j < toks.len(),
        toks[j].start <= c,
        forall|k: int| j < k < toks.len() ==> toks[k].start > c,
    ensures
        ident_at_spec(toks, c) == (if c <= toks[j].end {
            Option::Some(toks[j].val)
        } else {
            Option::None
        }),
    decreases toks.len(),
{
    if j == toks.len() - 1 {
    } else {
        assert(toks[toks.len() - 1].start > c);
        lemma_ident_at_found(toks.subrange(0, toks.len() - 1), c, j);
    }
}

pub proof fn lemma_ident_at_none(toks: Seq<TokenV>, c: int)
    requires
        forall|k: int| 0 <= k < toks.len() ==> toks[k].start > c,
    ensures
        ident_at_spec(toks, c) is None,
    decreases toks.len(),
{
    if toks.len() > 0 {
        lemma_ident_at_none(toks.subrange(0, toks.len() - 1), c);
    }
}

impl IndexStore {
    /// The name of the identifier under the cursor: the token on that line
    /// with the greatest start column not exceeding the queried column, if the
    /// column lies within its span (inclusive of both ends); otherwise, or for
    /// an unknown file or line, nothing.
    pub fn get_ident_at(&self, file: &String, line: usize, character: usize) -> (r: Option<
        String,
    >)
        requires
            self.wf(),
        ensures
            match r {
                Option::Some(name) => spec_ident_at(*self, file@, line as int, character as int)
                    == Option::Some(name@),
                Option::None => spec_ident_at(*self, file@, line as int, character as int) is None,
            },
    {
        let mut fi: usize = self.identifiers.len();
        while fi > 0
            invariant
                fi <= self.identifiers@.len(),
                forall|m: int|
                    fi <= m < self.identifiers@.len() ==> self.identifiers@[m].file@ != file@,
            ensures
                fi <= self.identifiers@.len(),
                forall|m: int|
                    fi <= m < self.identifiers@.len() ==> self.identifiers@[m].file@ != file@,
                fi > 0 ==> self.identifiers@[fi - 1].file@ == file@,
            decreases fi,
        {
            if self.identifiers[fi - 1].file == *file {
                break ;
            }
            fi -= 1;
        }
        if fi == 0 {
            proof {
                assert forall|m: int|
                    0 <= m < self.files().len() implies self.files()[m].file != file@ by {
                    assert(self.files()[m] == self.identifiers@[m]@);
                }
                lemma_files_get_absent(self.files(), file@);
            }
            return Option::None;
        }
        let fe = &self.identifiers[fi - 1];
        proof {
            assert forall|m: int|
                fi as int - 1 < m < self.files().len() implies self.files()[m].file != file@ by {
                assert(self.files()[m] == self.identifiers@[m]@);
            }
            assert(self.files()[fi as int - 1] == self.identifiers@[fi as int - 1]@);
            lemma_files_get_found(self.files(), file@, fi as int - 1);
        }
        let ghost flines = self.files()[fi as int - 1].lines;
        let mut li: usize = fe.lines.len();
        while li > 0
            invariant
                li <= fe.lines@.len(),
                forall|m: int| li <= m < fe.lines@.len() ==> fe.lines@[m].line != line,
            ensures
                li <= fe.lines@.len(),
                forall|m: int| li <= m < fe.lines@.len() ==> fe.lines@[m].line != line,
                li > 0 ==> fe.lines@[li - 1].line == line,
            decreases li,
        {
            if fe.lines[li - 1].line == line {
                break ;
            }
            li -= 1;
        }
        proof {
            assert(flines =~= lines_view(fe.lines@));
        }
        if li == 0 {
            proof {
                assert forall|m: int| 0 <= m < flines.len() implies flines[m].line != line as int by {
                    assert(flines[m] == fe.lines@[m]@);
                }
                lemma_lines_get_absent(flines, line as int);
            }
            return Option::None;
        }
        let toks = &fe.lines[li - 1].tokens;
        let ghost tv = tokens_view(toks@);
        proof {
            assert forall|m: int|
                li as int - 1 < m < flines.len() implies flines[m].line != line as int by {
                assert(flines[m] == fe.lines@[m]@);
            }
            assert(flines[li as int - 1] == fe.lines@[li as int - 1]@);
            lemma_lines_get_found(flines, line as int, li as int - 1);
            assert(lines_get(flines, line as int) == Option::Some(tv));
            assert(sorted_by_start(tv)) by {
                assert(self.files()[fi as int - 1].lines[li as int - 1].tokens == tv);
            }
            assert forall|i: int, j: int|
                0 <= i < j < toks@.len() implies toks@[i].start <= toks@[j].start by {
                assert(tv[i] == toks@[i]@);
                assert(tv[j] == toks@[j]@);
            }
        }
        let mut lo: usize = 0;
        let mut hi: usize = toks.len();
        while lo < hi
            invariant
                lo <= hi <= toks@.len(),
                forall|m: int| 0 <= m < lo ==> toks@[m].start <= character,
                forall|m: int| hi <= m < toks@.len() ==> toks@[m].start > character,
                forall|i: int, j: int| 0 <= i < j < toks@.len() ==> toks@[i].start <= toks@[j].start,
            decreases hi - lo,
        {
            let mid = lo + (hi - lo) / 2;
            if toks[mid].start <= character {
                lo = mid + 1;
            } else {
                hi = mid;
            }
        }
        if lo == 0 {
            proof {
                assert forall|k: int| 0 <= k < tv.len() implies tv[k].start > character as int by {
                    assert(tv[k] == toks@[k]@);
                }
                lemma_ident_at_none(tv, character as int);
            }
            Option::None
        } else {
            let t = &toks[lo - 1];
            proof {
                assert forall|k: int|
                    lo as int - 1 < k < tv.len() implies tv[k].start > character as int by {
                    assert(tv[k] == toks@[k]@);
                }
                assert(tv[lo as int - 1] == toks@[lo as int - 1]@);
                lemma_ident_at_found(tv, character as int, lo as int - 1);
            }
            if character <= t.end {
                Option::Some(t.val.clone())
            } else {
                Option::None
            }
        }
    }

    /// Where a name is defined: the location of the last definition site
    /// indexed under that name, or nothing if none was.
    pub fn definition_of(&self, name: &String) -> (r: Option<Location>)
        ensures
            match r {
                Option::Some(loc) => defns_get(self.defns(), name@) == Option::Some(loc@),
                Option::None => defns_get(self.defns(), name@) is None,
            },
    {
        let mut i: usize = self.defn_locs.len();
        while i > 0
            invariant
                i <= self.defn_locs@.len(),
                forall|m: int| i <= m < self.defn_locs@.len() ==> self.defn_locs@[m].name@ != name@,
            ensures
                i <= self.defn_locs@.len(),
                forall|m: int| i <= m < self.defn_locs@.len() ==> self.defn_locs@[m].name@ != name@,
                i > 0 ==> self.defn_locs@[i - 1].name@ == name@,
            decreases i,
        {
            if self.defn_locs[i - 1].name == *name {
                break ;
            }
            i -= 1;
        }
        if i == 0 {
            proof {
                assert forall|m: int|
                    0 <= m < self.defns().len() implies self.defns()[m].name != name@ by {
                    assert(self.defns()[m] == self.defn_locs@[m]@);
                }
                lemma_defns_get_absent(self.defns(), name@);
            }
            Option::None
        } else {
            proof {
                assert forall|m: int|
                    i as int - 1 < m < self.defns().len() implies self.defns()[m].name != name@ by {
                    assert(self.defns()[m] == self.defn_locs@[m]@);
                }
                assert(self.defns()[i as int - 1] == self.defn_locs@[i as int - 1]@);
                lemma_defns_get_found(self.defns(), name@, i as int - 1);
            }
            Option::Some(clone_location(&self.defn_locs[i - 1].loc))
        }
    }

    /// Every reference location recorded for a name, in recording order, or
    /// nothing if the name has no recorded reference (even a defined name
    /// yields nothing when it was never referenced). With
    /// `include_declaration`, the definition's location, if any, is appended.
    pub fn references_of(&self, name: &String, include_declaration: bool) -> (r: Option<
        Vec<Location>,
    >)
        ensures
            match r {
                Option::Some(locs) => refs_list(self.refs(), name@).len() > 0 && locs_view(locs@)
                    == refs_list(self.refs(), name@) + (if include_declaration {
                    defn_loc_seq(defns_get(self.defns(), name@))
                } else {
                    seq![]
                }),
                Option::None => refs_list(self.refs(), name@).len() == 0,
            },
    {
        let mut acc: Vec<Location> = Vec::new();
        proof {
            assert(self.refs().subrange(0, 0) =~= Seq::<RefV>::empty());
            assert(locs_view(acc@) =~= refs_list(self.refs().subrange(0, 0), name@));
        }
        for i in 0..self.referenced_locs.len()
            invariant
                locs_view(acc@) == refs_list(self.refs().subrange(0, i as int), name@),
        {
            let e = &self.referenced_locs[i];
            let ghost pre = self.refs().subrange(0, i as int);
            let ghost pre1 = self.refs().subrange(0, i + 1 as int);
            let matched = e.name == *name;
            if matched {
                acc.push(clone_location(&e.loc));
            }
            proof {
                assert(pre1.subrange(0, pre1.len() - 1) =~= pre);
                assert(pre1[pre1.len() - 1] == self.refs()[i as int]);
                assert(self.refs()[i as int] == self.referenced_locs@[i as int]@);
                if matched {
                    assert(locs_view(acc@) =~= refs_list(pre, name@) + seq![e.loc@]);
                } else {
                    assert(refs_list(pre1, name@) =~= refs_list(pre, name@));
                }
                assert(locs_view(acc@) == refs_list(pre1, name@));
            }
        }
        proof {
            assert(self.refs().subrange(0, self.refs().len() as int) =~= self.refs());
        }
        if acc.len() == 0 {
            proof {
                assert(locs_view(acc@).len() == acc@.len());
            }
            Option::None
        } else {
            let ghost base = refs_list(self.refs(), name@);
            if include_declaration {
                match self.definition_of(name) {
                    Option::Some(loc) => {
                        let ghost l = loc@;
                        acc.push(loc);
                        proof {
                            assert(locs_view(acc@) =~= base + seq![l]);
                            assert(defn_loc_seq(defns_get(self.defns(), name@)) == seq![l]);
                        }
                    },
                    Option::None => {
                        proof {
                            assert(defn_loc_seq(defns_get(self.defns(), name@))
                                =~= Seq::<LocV>::empty());
                            assert(locs_view(acc@) =~= base + defn_loc_seq(
                                defns_get(self.defns(), name@),
                            ));
                        }
                    },
                }
            } else {
                proof {
                    assert(locs_view(acc@) =~= base + Seq::<LocV>::empty());
                }
            }
            Option::Some(acc)
        }
    }
}

} // verus!
