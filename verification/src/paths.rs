//! Path arithmetic on plain strings: the directory prefix of an importing
//! file, joining an import literal onto it, and the required-extension check.
//! All import literals are taken relative to the importing file; an empty
//! directory prefix stands for the process's relative root.
use vstd::prelude::*;

verus! {

/// The directory part of a path: everything up to and including the last
/// `/`, or the empty sequence when the path has no `/` at all.
pub open spec fn dir_prefix(path: Seq<char>) -> Seq<char>
    decreases path.len(),
{
    if path.len() == 0 {
        Seq::empty()
    } else if path[path.len() - 1] == '/' {
        path
    } else {
        dir_prefix(path.drop_last())
    }
}

/// Where an import literal found in `importer` points: the literal joined
/// onto the importing file's directory.
pub open spec fn join_path_spec(importer: Seq<char>, literal: Seq<char>) -> Seq<char> {
    dir_prefix(importer) + literal
}

/// The file-name part of a path: everything after the last `/`.
pub open spec fn file_name_spec(path: Seq<char>) -> Seq<char> {
    path.subrange(dir_prefix(path).len() as int, path.len() as int)
}

/// The required source extension, with its leading dot.
pub open spec fn lua_suffix() -> Seq<char> {
    seq!['.', 'l', 'u', 'a']
}

/// Whether a path carries the required `.lua` extension: its file name ends
/// in `.lua` and has at least one character before that dot (a bare `.lua`
/// is a hidden file without an extension).
pub open spec fn is_lua_path(path: Seq<char>) -> bool {
    let name = file_name_spec(path);
    name.len() >= 5 && name.subrange(name.len() - 4, name.len() as int) == lua_suffix()
}

/// Whether the path is absolute: anchored at the filesystem root.
pub open spec fn is_absolute(path: Seq<char>) -> bool {
    path.len() > 0 && path[0] == '/'
}

/// One segment folded onto the stack of path segments kept so far: empty
/// segments and `.` are dropped, `..` pops the innermost kept segment when
/// there is one to pop (at the root of an absolute path there is nothing
/// above to name, so it is dropped; at the head of a relative path it is
/// kept), and any other segment is kept.
pub open spec fn fold_segment(stack: Seq<Seq<char>>, seg: Seq<char>, absolute: bool) -> Seq<
    Seq<char>,
> {
    if seg.len() == 0 || seg == seq!['.'] {
        stack
    } else if seg == seq!['.', '.'] {
        if stack.len() > 0 && stack.last() != seq!['.', '.'] {
            stack.drop_last()
        } else if absolute {
            stack
        } else {
            stack.push(seg)
        }
    } else {
        stack.push(seg)
    }
}

/// The normalized segments of `path` from index `i` on, given the segments
/// kept so far and the characters of the segment being read.
pub open spec fn norm_segments(
    path: Seq<char>,
    i: int,
    stack: Seq<Seq<char>>,
    cur: Seq<char>,
    absolute: bool,
) -> Seq<Seq<char>>
    decreases path.len() - i,
{
    if i < 0 || i >= path.len() {
        fold_segment(stack, cur, absolute)
    } else if path[i] == '/' {
        norm_segments(path, i + 1, fold_segment(stack, cur, absolute), Seq::empty(), absolute)
    } else {
        norm_segments(path, i + 1, stack, cur.push(path[i]), absolute)
    }
}

/// The segments from index `k` on, glued back together with `/`.
pub open spec fn join_segments(segs: Seq<Seq<char>>, k: int) -> Seq<char>
    decreases segs.len() - k,
{
    if k < 0 || k >= segs.len() {
        Seq::empty()
    } else if k == segs.len() - 1 {
        segs[k]
    } else {
        segs[k] + seq!['/'] + join_segments(segs, k + 1)
    }
}

/// The canonical form of a path, obtained lexically: `.` segments, empty
/// segments from doubled separators and resolvable `..` segments are
/// folded away, and an absolute path keeps its leading `/`. This is the
/// key the traversal uses, so that one file reached by differently spelled
/// relative paths counts once.
pub open spec fn normalize_spec(path: Seq<char>) -> Seq<char> {
    let first = if is_absolute(path) {
        1int
    } else {
        0int
    };
    let segs = norm_segments(path, first, Seq::empty(), Seq::empty(), is_absolute(path));
    if is_absolute(path) {
        seq!['/'] + join_segments(segs, 0)
    } else {
        join_segments(segs, 0)
    }
}

/// Whether the string is exactly the segment `..`.
fn is_dot_dot(s: &str) -> (r: bool)
    ensures
        r == (s@ == seq!['.', '.']),
{
    let r = s.unicode_len() == 2 && s.get_char(0) == '.' && s.get_char(1) == '.';
    proof {
        if r {
            assert(s@ =~= seq!['.', '.']);
        } else {
            assert(!(s@ =~= seq!['.', '.']));
        }
    }
    r
}

/// Folds one segment onto the executable segment stack, as `fold_segment`
/// says.
fn fold_segment_exec(stack: &mut Vec<String>, seg: &str, absolute: bool)
    ensures
        final(stack).deep_view() == fold_segment(old(stack).deep_view(), seg@, absolute),
{
    let n = seg.unicode_len();
    let is_dot = n == 1 && seg.get_char(0) == '.';
    proof {
        if is_dot {
            assert(seg@ =~= seq!['.']);
        } else {
            assert(!(seg@ =~= seq!['.']));
        }
    }
    if n == 0 || is_dot {
        return ;
    }
    if is_dot_dot(seg) {
        let top_is_dot_dot = stack.len() > 0 && is_dot_dot(stack[stack.len() - 1].as_str());
        if stack.len() > 0 && !top_is_dot_dot {
            let ghost before = stack.deep_view();
            stack.pop();
            proof {
                assert(stack.deep_view() =~= before.drop_last());
            }
            return ;
        }
        if absolute {
            return ;
        }
    }
    let ghost before = stack.deep_view();
    stack.push(String::from_str(seg));
    proof {
        assert(stack.deep_view() =~= before.push(seg@));
    }
}

/// Normalizes a path lexically, as `normalize_spec` says.
pub fn normalize_path(path: &str) -> (r: String)
    ensures
        r@ == normalize_spec(path@),
{
    let n = path.unicode_len();
    let absolute = n > 0 && path.get_char(0) == '/';
    let first: usize = if absolute {
        1
    } else {
        0
    };
    let ghost whole = norm_segments(path@, first as int, Seq::empty(), Seq::empty(), absolute);
    let mut stack: Vec<String> = Vec::new();
    let mut seg_start: usize = first;
    let mut i: usize = first;
    proof {
        assert(stack.deep_view() =~= Seq::<Seq<char>>::empty());
        assert(path@.subrange(first as int, first as int) =~= Seq::<char>::empty());
    }
    while i < n
        invariant
            n == path@.len(),
            first <= seg_start <= i <= n,
            absolute == is_absolute(path@),
            whole == norm_segments(
                path@,
                i as int,
                stack.deep_view(),
                path@.subrange(seg_start as int, i as int),
                absolute,
            ),
        decreases n - i,
    {
        if path.get_char(i) == '/' {
            fold_segment_exec(&mut stack, path.substring_char(seg_start, i), absolute);
            seg_start = i + 1;
            proof {
                assert(path@.subrange(seg_start as int, i + 1) =~= Seq::<char>::empty());
            }
        } else {
            proof {
                assert(path@.subrange(seg_start as int, i + 1) =~= path@.subrange(
                    seg_start as int,
                    i as int,
                ).push(path@[i as int]));
            }
        }
        i = i + 1;
    }
    fold_segment_exec(&mut stack, path.substring_char(seg_start, n), absolute);
    let ghost segs = stack.deep_view();
    proof {
        assert(segs == whole);
    }
    let mut out = String::new();
    if absolute {
        out.append("/");
        proof {
            reveal_strlit("/");
            assert(out@ =~= seq!['/']);
        }
    }
    let ghost base = out@;
    let mut k: usize = 0;
    while k < stack.len()
        invariant
            segs == stack.deep_view(),
            k <= stack.len(),
            base + join_segments(segs, 0) == out@ + join_segments(segs, k as int),
        decreases stack.len() - k,
    {
        out.append(stack[k].as_str());
        if k + 1 < stack.len() {
            out.append("/");
            proof {
                reveal_strlit("/");
                assert("/"@ =~= seq!['/']);
            }
        }
        k = k + 1;
    }
    proof {
        assert(base + join_segments(segs, 0) =~= out@ + join_segments(segs, segs.len() as int));
        assert(out@ + join_segments(segs, segs.len() as int) =~= out@);
        assert(out@ =~= normalize_spec(path@));
    }
    out
}

/// The length of `dir_prefix` is pinned by the position right after the
/// last `/` of the path (`k == 0` when there is no `/`).
proof fn lemma_dir_prefix_at(path: Seq<char>, k: int)
    requires
        0 <= k <= path.len(),
        k > 0 ==> path[k - 1] == '/',
        forall|m: int| k <= m < path.len() ==> path[m] != '/',
    ensures
        dir_prefix(path) =~= path.subrange(0, k),
    decreases path.len(),
{
    if path.len() == 0 {
    } else if path[path.len() - 1] == '/' {
        assert(k == path.len());
    } else {
        assert(k < path.len());
        lemma_dir_prefix_at(path.drop_last(), k);
        assert(path.drop_last().subrange(0, k) =~= path.subrange(0, k));
    }
}

/// Index right after the last `/` of `s`, or `0` when `s` has none; this is
/// exactly the length of `dir_prefix(s@)`.
fn dir_prefix_len(s: &str) -> (k: usize)
    ensures
        k == dir_prefix(s@).len(),
        dir_prefix(s@) =~= s@.subrange(0, k as int),
        k <= s@.len(),
{
    let n = s.unicode_len();
    let mut k: usize = 0;
    let mut i: usize = 0;
    while i < n
        invariant
            n == s@.len(),
            i <= n,
            k <= i,
            k > 0 ==> s@[k - 1] == '/',
            forall|m: int| k <= m < i ==> s@[m] != '/',
        decreases n - i,
    {
        if s.get_char(i) == '/' {
            k = i + 1;
        }
        i = i + 1;
    }
    proof {
        lemma_dir_prefix_at(s@, k as int);
    }
    k
}

/// Joins an import literal onto the directory of the importing file.
pub fn join_path(importer: &str, literal: &str) -> (r: String)
    ensures
        r@ == join_path_spec(importer@, literal@),
{
    let k = dir_prefix_len(importer);
    let mut out = String::from_str(importer.substring_char(0, k));
    out.append(literal);
    out
}

/// Whether the path's file name carries the required `.lua` extension.
pub fn has_lua_extension(path: &str) -> (r: bool)
    ensures
        r == is_lua_path(path@),
{
    let n = path.unicode_len();
    let k = dir_prefix_len(path);
    if n - k < 5 {
        return false;
    }
    let r = path.get_char(n - 4) == '.' && path.get_char(n - 3) == 'l'
        && path.get_char(n - 2) == 'u' && path.get_char(n - 1) == 'a';
    proof {
        let name = file_name_spec(path@);
        assert(name.len() == n - k);
        if r {
            assert(name.subrange(name.len() - 4, name.len() as int) =~= lua_suffix());
        } else {
            assert(!(name.subrange(name.len() - 4, name.len() as int) =~= lua_suffix()));
        }
    }
    r
}

} // verus!
