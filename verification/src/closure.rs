//! The closure builder: a step machine that discovers the transitive
//! dependency set of an entry file. The machine decides everything —
//! which file to read next, which import literals its tokens resolve to,
//! which candidates are validated, which diagnostics are owed — while the
//! caller only performs the reads it asks for and hands back their
//! outcome. A path enters the work list at most once, so the traversal
//! terminates on any finite file set, cyclic imports included.
use vstd::prelude::*;

use crate::lex::lua_tokens;
use crate::lex::tokenize;
use crate::lex::LexErrorKind;
use crate::lex::LexFailureView;
use crate::paths::is_lua_path;
use crate::paths::join_path;
use crate::paths::join_path_spec;
use crate::paths::normalize_path;
use crate::paths::normalize_spec;
use crate::paths::has_lua_extension;
use crate::scan::scan_imports;
use crate::scan::scan_spec;
use crate::token::filter_comments;
use crate::token::semantic_tokens;
use crate::token::TokenView;

verus! {

/// The import primitive this analysis looks for.
pub open spec fn require_name() -> Seq<char> {
    seq!['r', 'e', 'q', 'u', 'i', 'r', 'e']
}

/// A non-fatal note about an import that was skipped or rejected: the run
/// goes on without the import.
#[derive(Debug)]
pub enum Diagnostic {
    /// A call site of the import primitive did not use exactly one
    /// string-literal argument, so it may hide an import.
    UnsupportedCall { importer: String },
    /// A resolved candidate could not be read; `error` is the reader's own
    /// description of why.
    UnreadableImport { importer: String, candidate: String, error: String },
    /// A resolved candidate does not carry the required `.lua` extension.
    WrongExtension { importer: String, candidate: String },
}

/// Mathematical image of a `Diagnostic`.
pub ghost enum DiagView {
    UnsupportedCall { importer: Seq<char> },
    UnreadableImport { importer: Seq<char>, candidate: Seq<char>, error: Seq<char> },
    WrongExtension { importer: Seq<char>, candidate: Seq<char> },
}

impl View for Diagnostic {
    type V = DiagView;

    open spec fn view(&self) -> DiagView {
        match self {
            Diagnostic::UnsupportedCall { importer } => DiagView::UnsupportedCall {
                importer: importer@,
            },
            Diagnostic::UnreadableImport { importer, candidate, error } => DiagView::UnreadableImport {
                importer: importer@,
                candidate: candidate@,
                error: error@,
            },
            Diagnostic::WrongExtension { importer, candidate } => DiagView::WrongExtension {
                importer: importer@,
                candidate: candidate@,
            },
        }
    }
}

impl DeepView for Diagnostic {
    type V = DiagView;

    open spec fn deep_view(&self) -> DiagView {
        self@
    }
}

/// A condition that aborts the whole closure computation.
#[derive(Debug)]
pub enum FatalError {
    /// The entry file itself could not be read.
    EntryUnreadable { error: String },
    /// The entry file does not carry the required `.lua` extension.
    EntryNotLua { path: String },
    /// The lexer failed on a visited file: the file set is not well formed.
    LexerFailed { file: String, kind: LexErrorKind, input: String },
    /// A visited file's token stream ended inside an import call's open
    /// argument list.
    TruncatedCall { file: String },
}

/// Mathematical image of a `FatalError`.
pub ghost enum FatalView {
    EntryUnreadable { error: Seq<char> },
    EntryNotLua { path: Seq<char> },
    LexerFailed { file: Seq<char>, kind: LexErrorKind, input: Seq<char> },
    TruncatedCall { file: Seq<char> },
}

impl View for FatalError {
    type V = FatalView;

    open spec fn view(&self) -> FatalView {
        match self {
            FatalError::EntryUnreadable { error } => FatalView::EntryUnreadable { error: error@ },
            FatalError::EntryNotLua { path } => FatalView::EntryNotLua { path: path@ },
            FatalError::LexerFailed { file, kind, input } => FatalView::LexerFailed {
                file: file@,
                kind: *kind,
                input: input@,
            },
            FatalError::TruncatedCall { file } => FatalView::TruncatedCall { file: file@ },
        }
    }
}

impl DeepView for FatalError {
    type V = FatalView;

    open spec fn deep_view(&self) -> FatalView {
        self@
    }
}

/// A read the machine has asked for and not yet been answered on: the
/// candidate path to read, the file whose import produced it, and whether
/// it is the entry file (whose failures are fatal rather than diagnosed).
pub struct PendingRead {
    pub importer: String,
    pub path: String,
    pub is_entry: bool,
}

/// Mathematical image of a `PendingRead`.
pub ghost struct PendingView {
    pub importer: Seq<char>,
    pub path: Seq<char>,
    pub is_entry: bool,
}

impl View for PendingRead {
    type V = PendingView;

    open spec fn view(&self) -> PendingView {
        PendingView { importer: self.importer@, path: self.path@, is_entry: self.is_entry }
    }
}

impl DeepView for PendingRead {
    type V = PendingView;

    open spec fn deep_view(&self) -> PendingView {
        self@
    }
}

/// The whole state of a closure computation, as the contracts speak of it.
pub ghost struct BuilderView {
    /// Scheduled reads not yet answered; the last is the one the machine
    /// asks for next, so the traversal is depth-first.
    pub pending: Seq<PendingView>,
    /// Every canonical path ever scheduled, in scheduling order.
    pub visited: Seq<Seq<char>>,
    /// Every path whose read was answered, in answer order.
    pub processed: Seq<Seq<char>>,
    /// The validated imports discovered so far, in discovery order; the
    /// entry file itself is not among them.
    pub deps: Seq<Seq<char>>,
    /// The diagnostics collected so far, in the order they arose.
    pub diags: Seq<DiagView>,
    /// The fatal condition that ended the run, if one did.
    pub fatal: Option<FatalView>,
}

/// The state a fresh computation starts in: the entry file, under its
/// canonical path, is scheduled and nothing else is known.
pub open spec fn init_spec(entry: Seq<char>) -> BuilderView {
    let norm = normalize_spec(entry);
    BuilderView {
        pending: seq![PendingView { importer: norm, path: norm, is_entry: true }],
        visited: seq![norm],
        processed: Seq::empty(),
        deps: Seq::empty(),
        diags: Seq::empty(),
        fatal: None,
    }
}

/// The read the machine asks for next: the most recently scheduled
/// unanswered read (depth first), unless the run has ended fatally or no
/// work is left.
pub open spec fn next_request(s: BuilderView) -> Option<Seq<char>> {
    if s.fatal is Some || s.pending.len() == 0 {
        None
    } else {
        Some(s.pending.last().path)
    }
}

/// The state after the top pending read is answered, before the answer
/// itself is acted on: the read moves from pending to processed.
pub open spec fn popped(s: BuilderView) -> BuilderView {
    BuilderView {
        pending: s.pending.drop_last(),
        visited: s.visited,
        processed: s.processed.push(s.pending.last().path),
        deps: s.deps,
        diags: s.diags,
        fatal: s.fatal,
    }
}

/// `s` with one more diagnostic.
pub open spec fn with_diag(s: BuilderView, d: DiagView) -> BuilderView {
    BuilderView {
        pending: s.pending,
        visited: s.visited,
        processed: s.processed,
        deps: s.deps,
        diags: s.diags.push(d),
        fatal: s.fatal,
    }
}

/// `s` ended by the fatal condition `f`.
pub open spec fn with_fatal(s: BuilderView, f: FatalView) -> BuilderView {
    BuilderView {
        pending: s.pending,
        visited: s.visited,
        processed: s.processed,
        deps: s.deps,
        diags: s.diags,
        fatal: Some(f),
    }
}

/// `s` with `path` appended to the dependency set.
pub open spec fn with_dep(s: BuilderView, path: Seq<char>) -> BuilderView {
    BuilderView {
        pending: s.pending,
        visited: s.visited,
        processed: s.processed,
        deps: s.deps.push(path),
        diags: s.diags,
        fatal: s.fatal,
    }
}

/// `s` with `n` notes that call sites in `importer` were skipped.
pub open spec fn with_skip_diags(s: BuilderView, importer: Seq<char>, n: nat) -> BuilderView {
    BuilderView {
        pending: s.pending,
        visited: s.visited,
        processed: s.processed,
        deps: s.deps,
        diags: s.diags + Seq::new(n, |k: int| DiagView::UnsupportedCall { importer }),
        fatal: s.fatal,
    }
}

/// `s` with the candidate `cand`, imported by `importer`, scheduled for
/// reading — unless that canonical path was ever scheduled before, in
/// which case nothing changes: a visited path is never read or expanded a
/// second time.
pub open spec fn scheduled(s: BuilderView, importer: Seq<char>, cand: Seq<char>) -> BuilderView {
    if s.visited.contains(cand) {
        s
    } else {
        BuilderView {
            pending: s.pending.push(PendingView { importer, path: cand, is_entry: false }),
            visited: s.visited.push(cand),
            processed: s.processed,
            deps: s.deps,
            diags: s.diags,
            fatal: s.fatal,
        }
    }
}

/// Every literal of `lits`, resolved against `importer`'s directory,
/// brought to canonical form and scheduled, the last literal first: the
/// work list is a stack, so the call site encountered first is then the
/// one explored first.
pub open spec fn schedule_all(s: BuilderView, importer: Seq<char>, lits: Seq<Seq<char>>) -> BuilderView
    decreases lits.len(),
{
    if lits.len() == 0 {
        s
    } else {
        schedule_all(
            scheduled(s, importer, normalize_spec(join_path_spec(importer, lits.last()))),
            importer,
            lits.drop_last(),
        )
    }
}

/// The machine's whole step on a read that failed: the entry file's read
/// failure ends the run; any other is one diagnostic, and the candidate
/// never enters the dependency set.
pub open spec fn step_read_error(s: BuilderView, error: Seq<char>) -> BuilderView {
    let p = s.pending.last();
    let s1 = popped(s);
    if p.is_entry {
        with_fatal(s1, FatalView::EntryUnreadable { error })
    } else {
        with_diag(
            s1,
            DiagView::UnreadableImport { importer: p.importer, candidate: p.path, error },
        )
    }
}

/// The machine's whole step on a read that succeeded, given what
/// tokenizing the file came to. The file must carry the required
/// extension (fatally for the entry file, with a diagnostic otherwise);
/// a validated non-entry file joins the dependency set; a lexer failure
/// or a truncated call ends the run; otherwise every skipped call site is
/// diagnosed and every resolved literal is scheduled, already-visited
/// paths excepted.
pub open spec fn step_source(
    s: BuilderView,
    lexed: Result<Seq<TokenView>, LexFailureView>,
) -> BuilderView {
    let p = s.pending.last();
    let s1 = popped(s);
    if !is_lua_path(p.path) {
        if p.is_entry {
            with_fatal(s1, FatalView::EntryNotLua { path: p.path })
        } else {
            with_diag(s1, DiagView::WrongExtension { importer: p.importer, candidate: p.path })
        }
    } else {
        let s2 = if p.is_entry {
            s1
        } else {
            with_dep(s1, p.path)
        };
        match lexed {
            Err(e) => with_fatal(
                s2,
                FatalView::LexerFailed { file: p.path, kind: e.kind, input: e.input },
            ),
            Ok(raw) => {
                let sc = scan_spec(semantic_tokens(raw), require_name());
                if sc.truncated {
                    with_fatal(s2, FatalView::TruncatedCall { file: p.path })
                } else {
                    schedule_all(with_skip_diags(s2, p.path, sc.skipped), p.path, sc.literals)
                }
            },
        }
    }
}

/// No element of `s` repeats.
pub open spec fn distinct_seq(s: Seq<Seq<char>>) -> bool {
    forall|i: int, j: int| 0 <= i < j < s.len() ==> s[i] != s[j]
}

/// The paths of the scheduled reads, in scheduling order.
pub open spec fn pending_paths(s: BuilderView) -> Seq<Seq<char>> {
    s.pending.map_values(|p: PendingView| p.path)
}

/// What holds of every state a closure computation can reach: no canonical
/// path is ever scheduled, answered, or recorded as a dependency twice,
/// every scheduled or answered path was scheduled through `visited` first,
/// and no path is both answered and still waiting to be read. Together
/// these pin the traversal's shape: each file is read at most once, so the
/// run terminates on any finite file set, however cyclic its imports.
pub open spec fn wf(s: BuilderView) -> bool {
    &&& distinct_seq(s.visited)
    &&& distinct_seq(pending_paths(s))
    &&& distinct_seq(s.processed)
    &&& distinct_seq(s.deps)
    &&& forall|i: int| 0 <= i < s.pending.len() ==> s.visited.contains(#[trigger] s.pending[i].path)
    &&& forall|i: int| 0 <= i < s.processed.len() ==> s.visited.contains(#[trigger] s.processed[i])
    &&& forall|i: int| 0 <= i < s.deps.len() ==> s.processed.contains(#[trigger] s.deps[i])
    &&& forall|i: int, j: int|
        0 <= i < s.pending.len() && 0 <= j < s.processed.len() ==> s.pending[i].path != s.processed[j]
}

/// A fresh computation is well formed.
pub proof fn lemma_init_wf(entry: Seq<char>)
    ensures
        wf(init_spec(entry)),
{
    let s = init_spec(entry);
    assert(pending_paths(s) =~= seq![normalize_spec(entry)]);
    assert(s.visited[0] == normalize_spec(entry));
}

/// Scheduling one candidate keeps the state well formed and never touches
/// what was answered already.
proof fn lemma_scheduled_preserves_wf(s: BuilderView, importer: Seq<char>, cand: Seq<char>)
    requires
        wf(s),
    ensures
        wf(scheduled(s, importer, cand)),
        scheduled(s, importer, cand).processed == s.processed,
        scheduled(s, importer, cand).deps == s.deps,
{
    let t = scheduled(s, importer, cand);
    if !s.visited.contains(cand) {
        assert(pending_paths(t) =~= pending_paths(s).push(cand));
        assert forall|i: int| 0 <= i < t.pending.len() implies t.visited.contains(
            #[trigger] t.pending[i].path,
        ) by {
            if i < s.pending.len() {
                let w = choose|w: int| 0 <= w < s.visited.len() && s.visited[w] == s.pending[i].path;
                assert(t.visited[w] == t.pending[i].path);
            } else {
                assert(t.visited[s.visited.len() as int] == cand);
            }
        }
        assert forall|i: int| 0 <= i < t.processed.len() implies t.visited.contains(
            #[trigger] t.processed[i],
        ) by {
            let w = choose|w: int| 0 <= w < s.visited.len() && s.visited[w] == s.processed[i];
            assert(t.visited[w] == t.processed[i]);
        }
        assert forall|i: int, j: int|
            0 <= i < t.pending.len() && 0 <= j < t.processed.len() implies t.pending[i].path
            != t.processed[j] by {
            if i == s.pending.len() {
                assert(t.visited.contains(t.processed[j]));
                if cand == s.processed[j] {
                    let w = choose|w: int|
                        0 <= w < s.visited.len() && s.visited[w] == s.processed[j];
                    assert(s.visited.contains(cand));
                }
            }
        }
        assert forall|i: int, j: int| 0 <= i < j < pending_paths(t).len() implies pending_paths(
            t,
        )[i] != pending_paths(t)[j] by {
            if j == s.pending.len() {
                if pending_paths(s)[i] == cand {
                    let w = choose|w: int|
                        0 <= w < s.visited.len() && s.visited[w] == s.pending[i].path;
                    assert(s.visited.contains(cand));
                }
            }
        }
    }
}

/// Scheduling any list of literals keeps the state well formed.
proof fn lemma_schedule_all_preserves_wf(s: BuilderView, importer: Seq<char>, lits: Seq<Seq<char>>)
    requires
        wf(s),
    ensures
        wf(schedule_all(s, importer, lits)),
        schedule_all(s, importer, lits).processed == s.processed,
        schedule_all(s, importer, lits).deps == s.deps,
    decreases lits.len(),
{
    if lits.len() > 0 {
        lemma_scheduled_preserves_wf(
            s,
            importer,
            normalize_spec(join_path_spec(importer, lits.last())),
        );
        lemma_schedule_all_preserves_wf(
            scheduled(s, importer, normalize_spec(join_path_spec(importer, lits.last()))),
            importer,
            lits.drop_last(),
        );
    }
}

/// Answering the top read keeps the state well formed: the answered path
/// moves from the work list to the answered list, where it can never
/// appear twice.
proof fn lemma_popped_preserves_wf(s: BuilderView)
    requires
        wf(s),
        s.pending.len() > 0,
    ensures
        wf(popped(s)),
        !s.processed.contains(s.pending.last().path),
{
    let t = popped(s);
    let last = s.pending.len() - 1;
    let p = s.pending.last().path;
    if s.processed.contains(p) {
        let j = choose|j: int| 0 <= j < s.processed.len() && s.processed[j] == p;
        assert(s.pending[last].path != s.processed[j]);
    }
    assert forall|i: int, j: int| 0 <= i < j < t.processed.len() implies t.processed[i]
        != t.processed[j] by {
        if j == s.processed.len() {
            assert(t.processed[i] == s.processed[i]);
            if s.processed[i] == p {
                assert(s.processed.contains(p));
            }
        }
    }
    assert forall|i: int| 0 <= i < t.processed.len() implies t.visited.contains(
        #[trigger] t.processed[i],
    ) by {
        if i < s.processed.len() {
            assert(t.processed[i] == s.processed[i]);
        } else {
            assert(t.processed[i] == s.pending[last].path);
        }
    }
    assert forall|i: int| 0 <= i < t.deps.len() implies t.processed.contains(
        #[trigger] t.deps[i],
    ) by {
        let w = choose|w: int| 0 <= w < s.processed.len() && s.processed[w] == s.deps[i];
        assert(t.processed[w] == t.deps[i]);
    }
    assert(pending_paths(t) =~= pending_paths(s).drop_last());
    assert forall|i: int, j: int| 0 <= i < j < pending_paths(t).len() implies pending_paths(
        t,
    )[i] != pending_paths(t)[j] by {
        assert(pending_paths(s)[i] == pending_paths(t)[i]);
        assert(pending_paths(s)[j] == pending_paths(t)[j]);
    }
    assert forall|i: int| 0 <= i < t.pending.len() implies t.visited.contains(
        #[trigger] t.pending[i].path,
    ) by {
        assert(t.pending[i] == s.pending[i]);
    }
    assert forall|i: int, j: int|
        0 <= i < t.pending.len() && 0 <= j < t.processed.len() implies t.pending[i].path
        != t.processed[j] by {
        assert(t.pending[i] == s.pending[i]);
        if j == s.processed.len() {
            assert(pending_paths(s)[i] == s.pending[i].path);
            assert(pending_paths(s)[last] == p);
        }
    }
}

/// A read that fails keeps the machine well formed.
pub proof fn lemma_step_read_error_preserves_wf(s: BuilderView, error: Seq<char>)
    requires
        wf(s),
        next_request(s) is Some,
    ensures
        wf(step_read_error(s, error)),
{
    lemma_popped_preserves_wf(s);
}

/// A read that succeeds keeps the machine well formed, whatever the lexer
/// returned for the file.
pub proof fn lemma_step_source_preserves_wf(
    s: BuilderView,
    lexed: Result<Seq<TokenView>, LexFailureView>,
)
    requires
        wf(s),
        next_request(s) is Some,
    ensures
        wf(step_source(s, lexed)),
{
    let p = s.pending.last();
    lemma_popped_preserves_wf(s);
    let s1 = popped(s);
    if is_lua_path(p.path) {
        let s2 = if p.is_entry {
            s1
        } else {
            with_dep(s1, p.path)
        };
        assert(wf(s2)) by {
            if !p.is_entry {
                assert(s1.processed[s.processed.len() as int] == p.path);
                assert forall|i: int, j: int| 0 <= i < j < s2.deps.len() implies s2.deps[i]
                    != s2.deps[j] by {
                    if j == s1.deps.len() {
                        assert(s1.processed.contains(s1.deps[i]));
                        if s1.deps[i] == p.path {
                            let w = choose|w: int|
                                0 <= w < s.deps.len() && s.deps[w] == s1.deps[i];
                            assert(s.processed.contains(p.path));
                        }
                    }
                }
            }
        }
        match lexed {
            Err(_) => {},
            Ok(raw) => {
                let sc = scan_spec(semantic_tokens(raw), require_name());
                if !sc.truncated {
                    lemma_schedule_all_preserves_wf(
                        with_skip_diags(s2, p.path, sc.skipped),
                        p.path,
                        sc.literals,
                    );
                }
            },
        }
    }
}

/// No file is ever read twice: the read the machine asks for next is never
/// one it was already answered on. With every answer moving one more
/// distinct path into `processed`, a run over any finite file set ends —
/// cyclic imports merely find their target already visited.
pub proof fn lemma_no_reread(s: BuilderView)
    requires
        wf(s),
        next_request(s) is Some,
    ensures
        !s.processed.contains(next_request(s)->Some_0),
{
    lemma_popped_preserves_wf(s);
}

/// The dependency set never holds the same canonical path twice, and every
/// entry of it is a file that was actually read and validated.
pub proof fn lemma_deps_distinct(s: BuilderView)
    requires
        wf(s),
    ensures
        distinct_seq(s.deps),
        forall|i: int| 0 <= i < s.deps.len() ==> s.processed.contains(#[trigger] s.deps[i]),
{
}

/// The machine is deterministic: what it does next is a function of its
/// state and of the answer it is given, nothing else. Two runs over the
/// same immutable file set are answered identically at every step, so they
/// end with the same dependency set, the same diagnostics and the same
/// outcome.
pub proof fn lemma_closure_deterministic(
    a: BuilderView,
    b: BuilderView,
    lexed: Result<Seq<TokenView>, LexFailureView>,
    error: Seq<char>,
)
    requires
        a == b,
    ensures
        next_request(a) == next_request(b),
        step_source(a, lexed) == step_source(b, lexed),
        step_read_error(a, error) == step_read_error(b, error),
{
}

/// Whether `v` holds the string `x`.
fn contains_string(v: &Vec<String>, x: &String) -> (r: bool)
    ensures
        r == v.deep_view().contains(x@),
{
    let mut i: usize = 0;
    while i < v.len()
        invariant
            i <= v.len(),
            forall|m: int| 0 <= m < i ==> v.deep_view()[m] != x@,
        decreases v.len() - i,
    {
        if v[i] == *x {
            assert(v.deep_view()[i as int] == x@);
            return true;
        }
        i = i + 1;
    }
    false
}

/// A closure computation in progress. Create one with [`ClosureBuilder::new`],
/// then, while [`ClosureBuilder::next_path`] names a file, read that file and
/// answer with [`ClosureBuilder::supply_source`] or
/// [`ClosureBuilder::supply_read_error`]; when no read is left the dependency
/// set and the diagnostics are complete.
pub struct ClosureBuilder {
    pending: Vec<PendingRead>,
    visited: Vec<String>,
    processed: Vec<String>,
    deps: Vec<String>,
    diags: Vec<Diagnostic>,
    fatal: Option<FatalError>,
}

impl View for ClosureBuilder {
    type V = BuilderView;

    closed spec fn view(&self) -> BuilderView {
        BuilderView {
            pending: self.pending.deep_view(),
            visited: self.visited.deep_view(),
            processed: self.processed.deep_view(),
            deps: self.deps.deep_view(),
            diags: self.diags.deep_view(),
            fatal: self.fatal.deep_view(),
        }
    }
}

impl ClosureBuilder {
    /// Starts a closure computation at the given entry file path.
    pub fn new(entry: String) -> (r: ClosureBuilder)
        ensures
            r@ == init_spec(entry@),
            wf(r@),
    {
        proof {
            lemma_init_wf(entry@);
        }
        let norm = normalize_path(entry.as_str());
        let importer = norm.clone();
        let first_visit = norm.clone();
        let r = ClosureBuilder {
            pending: vec![PendingRead { importer, path: norm, is_entry: true }],
            visited: vec![first_visit],
            processed: vec![],
            deps: vec![],
            diags: vec![],
            fatal: None,
        };
        proof {
            assert(r@.pending =~= init_spec(entry@).pending);
            assert(r@.visited =~= init_spec(entry@).visited);
            assert(r@.processed =~= init_spec(entry@).processed);
            assert(r@.deps =~= init_spec(entry@).deps);
            assert(r@.diags =~= init_spec(entry@).diags);
        }
        r
    }

    /// The path of the file the machine needs read next, or `None` when
    /// the run is over (completed or ended fatally).
    pub fn next_path(&self) -> (r: Option<String>)
        ensures
            match r {
                Some(p) => next_request(self@) == Some(p@),
                None => next_request(self@) is None,
            },
    {
        if self.fatal.is_some() || self.pending.len() == 0 {
            None
        } else {
            Some(self.pending[self.pending.len() - 1].path.clone())
        }
    }

    /// Answers the pending read with the reader's error: fatal for the
    /// entry file, one diagnostic for any other candidate.
    pub fn supply_read_error(&mut self, error: String)
        requires
            next_request(old(self)@) is Some,
        ensures
            final(self)@ == step_read_error(old(self)@, error@),
            wf(old(self)@) ==> wf(final(self)@),
    {
        proof {
            if wf(old(self)@) {
                lemma_step_read_error_preserves_wf(old(self)@, error@);
            }
        }
        let p = match self.pending.pop() {
            Some(p) => p,
            None => {
                proof {
                    assert(false);
                }
                PendingRead { importer: String::new(), path: String::new(), is_entry: false }
            },
        };
        proof {
            assert(self.pending.deep_view() =~= old(self)@.pending.drop_last());
            assert(p@ == old(self)@.pending.last());
        }
        self.processed.push(p.path.clone());
        proof {
            assert(self.processed.deep_view() =~= old(self)@.processed.push(
                old(self)@.pending.last().path,
            ));
        }
        if p.is_entry {
            self.fatal = Some(FatalError::EntryUnreadable { error });
        } else {
            self.diags.push(
                Diagnostic::UnreadableImport { importer: p.importer, candidate: p.path, error },
            );
            proof {
                assert(self.diags.deep_view() =~= old(self)@.diags.push(
                    DiagView::UnreadableImport {
                        importer: old(self)@.pending.last().importer,
                        candidate: old(self)@.pending.last().path,
                        error: error@,
                    },
                ));
            }
        }
    }

    /// Answers the pending read with the file's content. The machine does
    /// all the rest itself: it validates the extension, tokenizes the
    /// text, drops comments, scans for import call sites, resolves their
    /// literals against the file's directory, and schedules every newly
    /// seen candidate for reading.
    pub fn supply_source(&mut self, source: &str)
        requires
            next_request(old(self)@) is Some,
        ensures
            final(self)@ == step_source(old(self)@, lua_tokens(source@)),
            wf(old(self)@) ==> wf(final(self)@),
    {
        proof {
            if wf(old(self)@) {
                lemma_step_source_preserves_wf(old(self)@, lua_tokens(source@));
            }
        }
        let ghost s0 = old(self)@;
        let p = match self.pending.pop() {
            Some(p) => p,
            None => {
                proof {
                    assert(false);
                }
                PendingRead { importer: String::new(), path: String::new(), is_entry: false }
            },
        };
        proof {
            assert(self.pending.deep_view() =~= s0.pending.drop_last());
            assert(p@ == s0.pending.last());
        }
        self.processed.push(p.path.clone());
        proof {
            assert(self.processed.deep_view() =~= s0.processed.push(s0.pending.last().path));
            assert(self@ == popped(s0));
        }
        let ghost s1 = popped(s0);
        if !has_lua_extension(p.path.as_str()) {
            if p.is_entry {
                self.fatal = Some(FatalError::EntryNotLua { path: p.path });
            } else {
                self.diags.push(
                    Diagnostic::WrongExtension { importer: p.importer, candidate: p.path },
                );
                proof {
                    assert(self.diags.deep_view() =~= s1.diags.push(
                        DiagView::WrongExtension {
                            importer: s0.pending.last().importer,
                            candidate: s0.pending.last().path,
                        },
                    ));
                }
            }
            return ;
        }
        if !p.is_entry {
            self.deps.push(p.path.clone());
            proof {
                assert(self.deps.deep_view() =~= s1.deps.push(s0.pending.last().path));
            }
        }
        let ghost s2 = if s0.pending.last().is_entry {
            s1
        } else {
            with_dep(s1, s0.pending.last().path)
        };
        proof {
            assert(self@ == s2);
        }
        match tokenize(source) {
            Err(e) => {
                self.fatal = Some(
                    FatalError::LexerFailed { file: p.path, kind: e.kind, input: e.input },
                );
            },
            Ok(raw) => {
                let ghost rawv = raw.deep_view();
                proof {
                    assert(lua_tokens(source@) == Ok::<Seq<TokenView>, LexFailureView>(rawv));
                }
                let toks = filter_comments(&raw);
                proof {
                    reveal_strlit("require");
                    assert("require"@ =~= require_name());
                }
                let ghost sc = scan_spec(semantic_tokens(rawv), require_name());
                match scan_imports(&toks, "require") {
                    Err(_) => {
                        self.fatal = Some(FatalError::TruncatedCall { file: p.path });
                    },
                    Ok(res) => {
                        let ghost importer = s0.pending.last().path;
                        let mut k: usize = 0;
                        while k < res.skipped
                            invariant
                                k <= res.skipped,
                                res.skipped == sc.skipped,
                                importer == p.path@,
                                self@ == with_skip_diags(s2, importer, k as nat),
                            decreases res.skipped - k,
                        {
                            let ghost before = self@.diags;
                            self.diags.push(Diagnostic::UnsupportedCall { importer: p.path.clone() });
                            k = k + 1;
                            proof {
                                assert(self.diags.deep_view() =~= before.push(
                                    DiagView::UnsupportedCall { importer },
                                ));
                                assert(s2.diags + Seq::new(
                                    k as nat,
                                    |m: int| DiagView::UnsupportedCall { importer },
                                ) =~= before.push(DiagView::UnsupportedCall { importer }));
                            }
                        }
                        let ghost s3 = with_skip_diags(s2, importer, sc.skipped);
                        proof {
                            assert(self@ == s3);
                            assert(sc.literals.take(res.literals.len() as int) =~= sc.literals);
                        }
                        let mut idx: usize = res.literals.len();
                        while idx > 0
                            invariant
                                idx <= res.literals.len(),
                                res.literals.deep_view() == sc.literals,
                                importer == p.path@,
                                schedule_all(self@, importer, sc.literals.take(idx as int))
                                    == schedule_all(s3, importer, sc.literals),
                            decreases idx,
                        {
                            idx = idx - 1;
                            let ghost here = self@;
                            let ghost lits_here = sc.literals.take(idx + 1);
                            proof {
                                assert(lits_here.last() == sc.literals[idx as int]);
                                assert(lits_here.drop_last() =~= sc.literals.take(idx as int));
                            }
                            let joined = join_path(p.path.as_str(), res.literals[idx].as_str());
                            let cand = normalize_path(joined.as_str());
                            proof {
                                assert(res.literals.deep_view()[idx as int]
                                    == res.literals@[idx as int]@);
                                assert(cand@ == normalize_spec(
                                    join_path_spec(importer, lits_here.last()),
                                ));
                            }
                            if !contains_string(&self.visited, &cand) {
                                let ghost vis = self.visited.deep_view();
                                let ghost pen = self.pending.deep_view();
                                let queued = PendingRead {
                                    importer: p.path.clone(),
                                    path: cand.clone(),
                                    is_entry: false,
                                };
                                self.visited.push(cand);
                                self.pending.push(queued);
                                proof {
                                    assert(self.visited.deep_view() =~= vis.push(
                                        normalize_spec(join_path_spec(importer, lits_here.last())),
                                    ));
                                    assert(self.pending.deep_view() =~= pen.push(
                                        PendingView {
                                            importer,
                                            path: normalize_spec(
                                                join_path_spec(importer, lits_here.last()),
                                            ),
                                            is_entry: false,
                                        },
                                    ));
                                    assert(self@ == scheduled(
                                        here,
                                        importer,
                                        normalize_spec(join_path_spec(importer, lits_here.last())),
                                    ));
                                }
                            } else {
                                proof {
                                    assert(self@ == scheduled(
                                        here,
                                        importer,
                                        normalize_spec(join_path_spec(importer, lits_here.last())),
                                    ));
                                }
                            }
                        }
                        proof {
                            assert(sc.literals.take(0) =~= Seq::<Seq<char>>::empty());
                            assert(schedule_all(self@, importer, sc.literals.take(0)) == self@);
                        }
                    },
                }
            },
        }
    }

    /// The validated imports discovered so far, in discovery order; the
    /// entry file is not among them. Complete once `next_path` is `None`
    /// and no fatal condition arose.
    pub fn dependencies(&self) -> (r: &Vec<String>)
        ensures
            r.deep_view() == self@.deps,
    {
        &self.deps
    }

    /// The diagnostics collected so far, in the order they arose.
    pub fn diagnostics(&self) -> (r: &Vec<Diagnostic>)
        ensures
            r.deep_view() == self@.diags,
    {
        &self.diags
    }

    /// The fatal condition that ended the run, if one did.
    pub fn fatal_error(&self) -> (r: &Option<FatalError>)
        ensures
            r.deep_view() == self@.fatal,
    {
        &self.fatal
    }
}

} // verus!
