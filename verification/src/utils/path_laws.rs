//! What holds of the paths of weight files and of their order.

use crate::utils::path;
use crate::utils::path::{file_label_of, join_path, path_key_of, text_key_of};
use crate::utils::text_laws::{first_difference, in_dictionary_order};
use vstd::prelude::*;

verus! {

/// The name of a file or a directory: not empty, without slashes, and neither a dot nor two.
pub open spec fn is_name(f: Seq<char>) -> bool {
    &&& f.len() > 0
    &&& forall|i: int| 0 <= i < f.len() ==> #[trigger] f[i] != '/'
    &&& f != seq!['.']
    &&& f != seq!['.', '.']
}

/// An absolute file stands for itself. Any other comes behind its directory, with one slash between
/// them, unless the directory ends in one or has no name.
pub proof fn law_join(dir: &str, file: &str, r: String)
    requires
        call_ensures(join_path, (dir, file), r),
    ensures
        file@.len() > 0 && file@[0] == '/' ==> r@ == file@,
        !(file@.len() > 0 && file@[0] == '/') ==> {
            let between = r@.len() - dir@.len() - file@.len();
            &&& forall|i: int| 0 <= i < dir@.len() ==> #[trigger] r@[i] == dir@[i]
            &&& forall|i: int|
                0 <= i < file@.len() ==> r@[r@.len() - file@.len() + i] == #[trigger] file@[i]
            &&& between == 0 <==> dir@.len() == 0 || dir@.last() == '/'
            &&& between == 0 || (between == 1 && r@[dir@.len() as int] == '/')
        },
{
}

/// Two paths with a slash between them.
pub open spec fn below(s: Seq<char>, t: Seq<char>) -> Seq<char> {
    s + seq!['/'] + t
}

proof fn lemma_component_end(s: Seq<char>, start: int)
    requires
        0 <= start <= s.len(),
    ensures
        start <= path::component_end(s, start) <= s.len(),
        forall|i: int| start <= i < path::component_end(s, start) ==> #[trigger] s[i] != '/',
        path::component_end(s, start) < s.len() ==> s[path::component_end(s, start)] == '/',
    decreases s.len() - start,
{
    if start < s.len() && s[start] != '/' {
        lemma_component_end(s, start + 1);
    }
}

proof fn lemma_end_is(s: Seq<char>, start: int, end: int)
    requires
        0 <= start <= end <= s.len(),
        forall|i: int| start <= i < end ==> #[trigger] s[i] != '/',
        end < s.len() ==> s[end] == '/',
    ensures
        path::component_end(s, start) == end,
    decreases end - start,
{
    if start < end {
        assert(s[start] != '/');
        lemma_end_is(s, start + 1, end);
    }
}

/// The components from a place on do not depend on what comes before it.
proof fn lemma_shift(s: Seq<char>, t: Seq<char>, start: int, leading: bool)
    requires
        0 <= start <= t.len(),
    ensures
        path::components_key(s + t, s.len() + start, leading) == path::components_key(
            t,
            start,
            leading,
        ),
    decreases t.len() - start,
{
    let u = s + t;
    let n = s.len() as int;
    lemma_component_end(t, start);
    let end = path::component_end(t, start);
    assert forall|i: int| n + start <= i < n + end implies #[trigger] u[i] != '/' by {
        assert(u[i] == t[i - n]);
    }
    if end < t.len() {
        assert(u[n + end] == t[end]);
    }
    lemma_end_is(u, n + start, n + end);
    assert(u.subrange(n + start, n + end) =~= t.subrange(start, end));
    if end < t.len() {
        lemma_shift(s, t, end + 1, false);
    }
}

/// The components of two paths with a slash between them are those of both.
proof fn lemma_below(s: Seq<char>, t: Seq<char>, start: int, leading: bool)
    requires
        0 <= start <= s.len(),
    ensures
        path::components_key(below(s, t), start, leading) == path::components_key(s, start, leading)
            + path::components_key(t, 0, false),
    decreases s.len() - start,
{
    let u = below(s, t);
    let n = s.len() as int;
    lemma_component_end(s, start);
    let end = path::component_end(s, start);
    assert forall|i: int| start <= i < end implies #[trigger] u[i] != '/' by {
        assert(u[i] == s[i]);
    }
    assert(end < n ==> u[end] == s[end]);
    assert(u[n] == '/');
    lemma_end_is(u, start, end);
    assert(u.subrange(start, end) =~= s.subrange(start, end));
    if end < n {
        lemma_below(s, t, end + 1, false);
        assert(path::components_key(u, start, leading) =~= path::components_key(s, start, leading)
            + path::components_key(t, 0, false));
    } else {
        let head = s + seq!['/'];
        assert(u =~= head + t);
        lemma_shift(head, t, 0, false);
        assert(head.len() == n + 1);
        assert(s.subrange(start, end) =~= s.subrange(start, n));
    }
}

proof fn lemma_key_below(s: Seq<char>, t: Seq<char>)
    requires
        s.len() > 0,
    ensures
        path::path_key(below(s, t)) == path::path_key(s) + path::components_key(t, 0, false),
{
    let u = below(s, t);
    assert(u[0] == s[0]);
    lemma_below(s, t, 0, s[0] != '/');
    assert(path::path_key(u) =~= path::path_key(s) + path::components_key(t, 0, false));
}

/// The numbers of a name: one for each character, and one that ends it.
pub open spec fn name_key(f: Seq<char>) -> Seq<u32> {
    f.map_values(|c: char| (c as u32 + 4) as u32).push(0u32)
}

proof fn lemma_name(f: Seq<char>, leading: bool)
    requires
        is_name(f),
    ensures
        path::components_key(f, 0, leading) == name_key(f),
{
    lemma_end_is(f, 0, f.len() as int);
    assert(f.subrange(0, f.len() as int) =~= f);
}

proof fn lemma_empty_key(leading: bool)
    ensures
        path::components_key(Seq::<char>::empty(), 0, leading) == Seq::<u32>::empty(),
{
    let none = Seq::<char>::empty();
    lemma_end_is(none, 0, 0);
    assert(none.subrange(0, 0) =~= none);
}

/// Slashes more than one, and dots between slashes, make no difference to a path, nor does a slash
/// at its end.
pub proof fn law_idle_parts(s: Seq<char>, t: Seq<char>)
    requires
        s.len() > 0,
    ensures
        path::same_path(below(s, Seq::empty()), s),
        path::same_path(below(s, seq!['/'] + t), below(s, t)),
        path::same_path(below(s, seq!['.', '/'] + t), below(s, t)),
        path::same_path(below(s, seq!['.']), s),
{
    let none = Seq::<char>::empty();
    lemma_empty_key(false);
    lemma_key_below(s, none);
    lemma_key_below(s, t);
    assert(path::path_key(s) + Seq::<u32>::empty() =~= path::path_key(s));
    let slash = seq!['/'] + t;
    assert(slash =~= below(none, t));
    lemma_key_below(s, slash);
    lemma_below(none, t, 0, false);
    assert(Seq::<u32>::empty() + path::components_key(t, 0, false) =~= path::components_key(
        t,
        0,
        false,
    ));
    let dot = seq!['.'];
    lemma_end_is(dot, 0, 1);
    assert(dot.subrange(0, 1) =~= dot);
    assert(path::components_key(dot, 0, false) =~= Seq::<u32>::empty());
    lemma_key_below(s, dot);
    let dotted = seq!['.', '/'] + t;
    assert(dotted =~= below(dot, t));
    lemma_key_below(s, dotted);
    lemma_below(dot, t, 0, false);
}

proof fn lemma_common_start(p: Seq<u32>, a: Seq<u32>, b: Seq<u32>)
    ensures
        in_dictionary_order(p + a, p + b) <==> in_dictionary_order(a, b),
{
    let n = p.len() as int;
    if in_dictionary_order(a, b) {
        let k = choose|k: int| #[trigger] first_difference(a, b, k);
        assert forall|i: int| 0 <= i < n + k implies #[trigger] (p + a)[i] == (p + b)[i] by {
            if i >= n {
                assert(a[i - n] == b[i - n]);
            }
        }
        assert(first_difference(p + a, p + b, n + k));
    }
    if in_dictionary_order(p + a, p + b) {
        let k = choose|k: int| #[trigger] first_difference(p + a, p + b, k);
        if k < n {
            assert((p + a)[k] == p[k] && (p + b)[k] == p[k]);
        }
        assert forall|i: int| 0 <= i < k - n implies #[trigger] a[i] == b[i] by {
            assert((p + a)[i + n] == (p + b)[i + n]);
        }
        assert(first_difference(a, b, k - n));
    }
}

/// A text as the numbers of its characters.
pub open spec fn code_points(f: Seq<char>) -> Seq<u32> {
    Seq::new(f.len(), |i: int| f[i] as u32)
}

proof fn lemma_char(c: char)
    ensures
        (c as u32 + 4) as u32 == c as u32 + 4,
{
    vstd::utf8::char_is_scalar(c);
}

proof fn lemma_name_order(f: Seq<char>, g: Seq<char>)
    ensures
        in_dictionary_order(name_key(f), name_key(g)) <==> in_dictionary_order(
            code_points(f),
            code_points(g),
        ),
{
    let (a, b) = (name_key(f), name_key(g));
    let (x, y) = (code_points(f), code_points(g));
    assert forall|i: int| 0 <= i < f.len() implies #[trigger] a[i] == x[i] + 4 by {
        lemma_char(f[i]);
    }
    assert forall|i: int| 0 <= i < g.len() implies #[trigger] b[i] == y[i] + 4 by {
        lemma_char(g[i]);
    }
    if in_dictionary_order(x, y) {
        let k = choose|k: int| #[trigger] first_difference(x, y, k);
        assert forall|i: int| 0 <= i < k implies #[trigger] a[i] == b[i] by {
            assert(x[i] == y[i]);
            assert(b[i] == y[i] + 4);
        }
        if k == x.len() && k == y.len() {
            assert(a[k] == 0 && b[k] == 0);
            assert forall|i: int| 0 <= i < k + 1 implies #[trigger] a[i] == b[i] by {}
            assert(first_difference(a, b, k + 1));
        } else if k == x.len() {
            assert(a[k] == 0 && b[k] == y[k] + 4);
            assert(first_difference(a, b, k));
        } else {
            assert(a[k] == x[k] + 4 && b[k] == y[k] + 4);
            assert(first_difference(a, b, k));
        }
    }
    if in_dictionary_order(a, b) {
        let k = choose|k: int| #[trigger] first_difference(a, b, k);
        if k > f.len() {
            assert(a[f.len() as int] == b[f.len() as int]);
            if f.len() < g.len() {
                assert(b[f.len() as int] == y[f.len() as int] + 4);
            }
            assert forall|i: int| 0 <= i < f.len() implies #[trigger] x[i] == y[i] by {
                assert(a[i] == b[i]);
                assert(a[i] == x[i] + 4);
                if i < g.len() {
                    assert(b[i] == y[i] + 4);
                }
            }
            assert(first_difference(x, y, f.len() as int));
        } else {
            assert forall|i: int| 0 <= i < k implies #[trigger] x[i] == y[i] by {
                assert(a[i] == b[i]);
                assert(a[i] == x[i] + 4);
                if i < g.len() {
                    assert(b[i] == y[i] + 4);
                } else {
                    assert(b[i] == 0);
                }
            }
            assert(k < b.len() && a[k] < b[k]);
            if k < g.len() {
                assert(b[k] == y[k] + 4);
            } else {
                assert(b[k] == 0);
            }
            if k < f.len() {
                assert(a[k] == x[k] + 4);
            }
            assert(first_difference(x, y, k));
        }
    }
}

/// Files in one directory come in the order of their names, character by character.
pub proof fn law_files_by_name(dir: Seq<char>, f: Seq<char>, g: Seq<char>)
    requires
        dir.len() > 0,
        is_name(f),
        is_name(g),
    ensures
        in_dictionary_order(path::path_key(below(dir, f)), path::path_key(below(dir, g)))
            <==> in_dictionary_order(code_points(f), code_points(g)),
        path::same_path(below(dir, f), below(dir, g)) ==> f == g,
{
    lemma_key_below(dir, f);
    lemma_key_below(dir, g);
    lemma_name(f, false);
    lemma_name(g, false);
    lemma_common_start(path::path_key(dir), name_key(f), name_key(g));
    lemma_name_order(f, g);
    if path::same_path(below(dir, f), below(dir, g)) {
        let p = path::path_key(dir);
        let (a, b) = (p + name_key(f), p + name_key(g));
        assert(a.len() == b.len());
        assert(f.len() == g.len());
        assert forall|i: int| 0 <= i < f.len() implies f[i] == g[i] by {
            assert(a[p.len() + i] == b[p.len() + i]);
            assert(a[p.len() + i] == name_key(f)[i]);
            assert(b[p.len() + i] == name_key(g)[i]);
            lemma_char(f[i]);
            lemma_char(g[i]);
            vstd::utf8::char_u32_cast(f[i], f[i] as u32);
            vstd::utf8::char_u32_cast(g[i], g[i] as u32);
        }
        assert(f =~= g);
    }
}

/// A directory comes before what is in it, and everything in it before a directory or file whose
/// name only starts with its name.
pub proof fn law_directory_first(dir: Seq<char>, a: Seq<char>, b: Seq<char>, t: Seq<char>)
    requires
        dir.len() > 0,
        is_name(a),
        is_name(b),
        a.len() < b.len(),
        b.take(a.len() as int) == a,
    ensures
        in_dictionary_order(path::path_key(dir), path::path_key(below(dir, t))),
        in_dictionary_order(
            path::path_key(below(below(dir, a), t)),
            path::path_key(below(dir, b)),
        ),
{
    lemma_key_below(dir, t);
    assert(first_difference(
        path::path_key(dir),
        path::path_key(below(dir, t)),
        path::path_key(dir).len() as int,
    ));
    lemma_key_below(dir, a);
    lemma_key_below(dir, b);
    lemma_key_below(below(dir, a), t);
    lemma_name(a, false);
    lemma_name(b, false);
    let p = path::path_key(dir);
    let x = p + name_key(a) + path::components_key(t, 0, false);
    let y = p + name_key(b);
    let k = (p.len() + a.len()) as int;
    assert forall|i: int| 0 <= i < k implies #[trigger] x[i] == y[i] by {
        if i >= p.len() {
            assert(b.take(a.len() as int)[i - p.len()] == a[i - p.len()]);
        }
    }
    lemma_char(b[a.len() as int]);
    assert(x[k] == 0);
    assert(y[k] == name_key(b)[a.len() as int]);
    assert(first_difference(x, y, k));
}

/// Absolute paths come before others; of these, those that start with a dot come first, then those
/// that start in the parent directory, then those that start with a name.
pub proof fn law_kinds_of_paths(a: Seq<char>, b: Seq<char>, c: Seq<char>, f: Seq<char>)
    requires
        a.len() > 0 && a[0] == '/',
        is_name(f),
    ensures
        ({
            let root = path::path_key(a);
            let here = path::path_key(below(seq!['.'], b));
            let up = path::path_key(below(seq!['.', '.'], c));
            let name = path::path_key(f);
            &&& in_dictionary_order(root, here)
            &&& in_dictionary_order(here, up)
            &&& in_dictionary_order(up, name)
            &&& !in_dictionary_order(here, root)
            &&& !in_dictionary_order(up, here)
            &&& !in_dictionary_order(name, up)
        }),
{
    let dot = seq!['.'];
    let dots = seq!['.', '.'];
    lemma_key_below(dot, b);
    lemma_key_below(dots, c);
    lemma_end_is(dot, 0, 1);
    lemma_end_is(dots, 0, 2);
    assert(dot.subrange(0, 1) =~= dot);
    assert(dots.subrange(0, 2) =~= dots);
    assert(dots != dot) by {
        assert(dots.len() != dot.len());
    }
    assert(path::components_key(dot, 0, true) == seq![2u32, 0u32]);
    assert(path::components_key(dots, 0, true) == seq![3u32, 0u32]);
    lemma_name(f, true);
    assert(f[0] != '/');
    lemma_char(f[0]);
    let root = path::path_key(a);
    let here = path::path_key(below(dot, b));
    let up = path::path_key(below(dots, c));
    let name = path::path_key(f);
    assert(root[0] == 1 && here[0] == 2 && up[0] == 3 && name[0] >= 4);
    lemma_first_decides(root, here);
    lemma_first_decides(here, up);
    lemma_first_decides(up, name);
}

proof fn lemma_first_decides(a: Seq<u32>, b: Seq<u32>)
    requires
        a.len() > 0,
        b.len() > 0,
        a[0] < b[0],
    ensures
        in_dictionary_order(a, b),
        !in_dictionary_order(b, a),
{
    assert(first_difference(a, b, 0));
    if in_dictionary_order(b, a) {
        let k = choose|k: int| #[trigger] first_difference(b, a, k);
        if k > 0 {
            assert(b[0] == a[0]);
        }
    }
}

/// Paths and names are sorted by these keys.
pub proof fn law_keys(s: &str, path_key: Vec<u32>, text_key: Vec<u32>)
    requires
        call_ensures(path_key_of, (s,), path_key),
        call_ensures(text_key_of, (s,), text_key),
    ensures
        path_key@ == path::path_key(s@),
        text_key@ == code_points(s@),
{
    assert(text_key@ =~= code_points(s@));
}

proof fn lemma_component_start(s: Seq<char>, start: int, end: int)
    requires
        0 <= start <= end <= s.len(),
        forall|i: int| start <= i < end ==> #[trigger] s[i] != '/',
        start > 0 ==> s[start - 1] == '/',
    ensures
        path::component_start(s, end) == start,
    decreases end - start,
{
    if start < end {
        assert(s[end - 1] != '/');
        lemma_component_start(s, start, end - 1);
    }
}

proof fn lemma_component_start_bounds(s: Seq<char>, end: int)
    requires
        0 <= end <= s.len(),
    ensures
        0 <= path::component_start(s, end) <= end,
    decreases end,
{
    if end > 0 && s[end - 1] != '/' {
        lemma_component_start_bounds(s, end - 1);
    }
}

proof fn lemma_start_of_prefix(s: Seq<char>, t: Seq<char>, end: int)
    requires
        0 <= end <= s.len(),
    ensures
        path::component_start(s + t, end) == path::component_start(s, end),
    decreases end,
{
    if end > 0 {
        assert((s + t)[end - 1] == s[end - 1]);
        if s[end - 1] != '/' {
            lemma_start_of_prefix(s, t, end - 1);
        }
    }
}

proof fn lemma_name_of_prefix(s: Seq<char>, t: Seq<char>, end: int)
    requires
        0 <= end <= s.len(),
    ensures
        path::file_name(s + t, end) == path::file_name(s, end),
    decreases end,
{
    lemma_start_of_prefix(s, t, end);
    lemma_component_start_bounds(s, end);
    let start = path::component_start(s, end);
    assert((s + t).subrange(start, end) =~= s.subrange(start, end));
    if 0 < start {
        lemma_name_of_prefix(s, t, start - 1);
    }
}

/// The name of the file that a path leads to is the last one in it. A slash or a dot behind it
/// makes no difference, and a path to a parent directory leads to no name.
pub proof fn law_file_label(dir: Seq<char>, f: Seq<char>)
    requires
        is_name(f),
    ensures
        path::file_label(f) == f,
        path::file_label(below(dir, f)) == f,
        path::file_label(below(below(dir, f), Seq::empty())) == f,
        path::file_label(below(below(dir, f), seq!['.'])) == f,
        path::file_label(below(dir, seq!['.', '.'])) == Seq::<char>::empty(),
{
    lemma_component_start(f, 0, f.len() as int);
    assert(f.subrange(0, f.len() as int) =~= f);
    let s = below(dir, f);
    let n = s.len() as int;
    let at = (dir.len() + 1) as int;
    assert forall|i: int| at <= i < n implies #[trigger] s[i] != '/' by {
        assert(s[i] == f[i - at]);
    }
    lemma_component_start(s, at, n);
    assert(s.subrange(at, n) =~= f);
    let none = Seq::<char>::empty();
    let slash = seq!['/'];
    let a = below(s, none);
    assert(a =~= s + slash);
    lemma_component_start(a, n + 1, n + 1);
    assert(a.subrange(n + 1, n + 1).len() == 0);
    lemma_name_of_prefix(s, slash, n);
    let dot = seq!['.'];
    let b = below(s, dot);
    lemma_component_start(b, n + 1, n + 2);
    assert(b.subrange(n + 1, n + 2) =~= dot);
    assert(b =~= s + (slash + dot));
    lemma_name_of_prefix(s, slash + dot, n);
    let dots = seq!['.', '.'];
    let c = below(dir, dots);
    let m = c.len() as int;
    assert forall|i: int| at <= i < m implies #[trigger] c[i] != '/' by {
        assert(c[i] == dots[i - at]);
    }
    lemma_component_start(c, at, m);
    assert(c.subrange(at, m) =~= dots);
    assert(dots != dot) by {
        assert(dots.len() != dot.len());
    }
}

/// What is told of a file is its name.
pub proof fn law_file_label_told(s: &str, dir: Seq<char>, f: Seq<char>, r: String)
    requires
        call_ensures(file_label_of, (s,), r),
        is_name(f),
        s@ == f || s@ == below(dir, f),
    ensures
        r@ == f,
{
    law_file_label(dir, f);
}

} // verus!
