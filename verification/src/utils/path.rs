//! Paths of weight files: joining them to a directory and putting them in order.
//!
//! A path is read as Unix reads it: components between slashes, where repeated slashes and
//! dots that do not lead the path count for nothing.

use crate::utils::text::{chars_of, joined};
use vstd::prelude::*;
use vstd::string::*;

verus! {

/// The path of `file` seen from `dir`: an absolute file stands for itself.
pub open spec fn join_spec(dir: Seq<char>, file: Seq<char>) -> Seq<char> {
    if file.len() > 0 && file[0] == '/' {
        file
    } else if dir.len() == 0 || dir.last() == '/' {
        dir + file
    } else {
        dir.push('/') + file
    }
}

/// The end of the component that starts at `start`: the next slash, or the end of the path.
pub open spec fn component_end(s: Seq<char>, start: int) -> int
    decreases s.len() - start,
{
    if start < 0 || start >= s.len() || s[start] == '/' {
        start
    } else {
        component_end(s, start + 1)
    }
}

/// One component as numbers that sort as the component does: a leading dot, then the parent
/// directory, then names by their characters. A zero ends the component and sorts before
/// anything that a longer name goes on with.
pub open spec fn component_key(c: Seq<char>, leading: bool) -> Seq<u32> {
    if c.len() == 0 {
        Seq::empty()
    } else if c == seq!['.'] {
        if leading {
            seq![2u32, 0u32]
        } else {
            Seq::empty()
        }
    } else if c == seq!['.', '.'] {
        seq![3u32, 0u32]
    } else {
        c.map_values(|x: char| (x as u32 + 4) as u32).push(0u32)
    }
}

/// The components from position `start` on, one after the other.
pub open spec fn components_key(s: Seq<char>, start: int, leading: bool) -> Seq<u32>
    decreases s.len() - start,
{
    let end = component_end(s, start);
    if 0 <= start <= end < s.len() {
        component_key(s.subrange(start, end), leading) + components_key(s, end + 1, false)
    } else if 0 <= start <= s.len() {
        component_key(s.subrange(start, s.len() as int), leading)
    } else {
        Seq::empty()
    }
}

/// A path as numbers that sort as its components do. The root comes before everything.
pub open spec fn path_key(s: Seq<char>) -> Seq<u32> {
    if s.len() > 0 && s[0] == '/' {
        seq![1u32] + components_key(s, 0, false)
    } else {
        components_key(s, 0, true)
    }
}

/// Two paths with the same components.
pub open spec fn same_path(a: Seq<char>, b: Seq<char>) -> bool {
    path_key(a) == path_key(b)
}

/// A text as numbers that sort as the text does: its code points.
pub open spec fn text_key(s: Seq<char>) -> Seq<u32> {
    s.map_values(|c: char| c as u32)
}

/// Joins a file to a directory.
pub fn join_path(dir: &str, file: &str) -> (r: String)
    ensures
        r@ == join_spec(dir@, file@),
{
    let d = chars_of(dir);
    let f = chars_of(file);
    if f.len() > 0 && f[0] == '/' {
        file.to_owned()
    } else if d.len() == 0 || d[d.len() - 1] == '/' {
        joined(dir, file)
    } else {
        proof {
            reveal_strlit("/");
            assert(dir@ + "/"@ =~= dir@.push('/'));
        }
        let with_slash = joined(dir, "/");
        joined(with_slash.as_str(), file)
    }
}

fn push_component(key: &mut Vec<u32>, s: &Vec<char>, start: usize, end: usize, leading: bool)
    requires
        start <= end <= s@.len(),
    ensures
        final(key)@ == old(key)@ + component_key(s@.subrange(start as int, end as int), leading),
{
    let ghost c = s@.subrange(start as int, end as int);
    if start == end {
        assert(key@ =~= old(key)@ + component_key(c, leading));
    } else if end - start == 1 && s[start] == '.' {
        assert(c =~= seq!['.']);
        if leading {
            key.push(2);
            key.push(0);
        }
        assert(key@ =~= old(key)@ + component_key(c, leading));
    } else if end - start == 2 && s[start] == '.' && s[start + 1] == '.' {
        assert(c =~= seq!['.', '.']);
        key.push(3);
        key.push(0);
        assert(key@ =~= old(key)@ + component_key(c, leading));
    } else {
        proof {
            assert(c.len() == end - start);
            if c == seq!['.'] {
                assert(c[0] == '.');
            }
            if c == seq!['.', '.'] {
                assert(c[0] == '.' && c[1] == '.');
            }
        }
        let mut i: usize = start;
        while i < end
            invariant
                start <= i <= end <= s@.len(),
                key@ == old(key)@ + s@.subrange(start as int, i as int).map_values(
                    |x: char| (x as u32 + 4) as u32,
                ),
            decreases end - i,
        {
            let c: char = s[i];
            proof {
                vstd::utf8::char_is_scalar(c);
            }
            key.push(c as u32 + 4);
            i = i + 1;
            assert(key@ =~= old(key)@ + s@.subrange(start as int, i as int).map_values(
                |x: char| (x as u32 + 4) as u32,
            ));
        }
        key.push(0);
        assert(key@ =~= old(key)@ + component_key(c, leading));
    }
}

/// Computes the key by which a path is ordered and found again.
pub fn path_key_of(path: &str) -> (r: Vec<u32>)
    ensures
        r@ == path_key(path@),
{
    let s = chars_of(path);
    let mut key: Vec<u32> = Vec::new();
    let mut leading = true;
    if s.len() > 0 && s[0] == '/' {
        key.push(1);
        leading = false;
    }
    let ghost total = path_key(path@);
    let mut start: usize = 0;
    let mut end: usize = 0;
    assert(key@ + components_key(s@, 0, leading) =~= total);
    while end < s.len()
        invariant
            start <= end <= s@.len(),
            forall|k: int| start <= k < end ==> s@[k] != '/',
            component_end(s@, start as int) == component_end(s@, end as int),
            key@ + components_key(s@, start as int, leading) == total,
        decreases s@.len() - end,
    {
        if s[end] == '/' {
            let ghost before = key@;
            let ghost was_leading = leading;
            push_component(&mut key, &s, start, end, leading);
            assert(before + components_key(s@, start as int, was_leading) =~= key@ + components_key(
                s@,
                end + 1,
                false,
            ));
            end = end + 1;
            start = end;
            leading = false;
        } else {
            end = end + 1;
        }
    }
    push_component(&mut key, &s, start, end, leading);
    key
}

/// The start of the component that ends at `end`.
pub open spec fn component_start(s: Seq<char>, end: int) -> int
    decreases end,
{
    if end <= 0 || end > s.len() || s[end - 1] == '/' {
        end
    } else {
        component_start(s, end - 1)
    }
}

/// The last component of the first `end` characters of a path, if it is a name: it is neither
/// the root, the parent directory nor a dot that leads the path.
pub open spec fn file_name(s: Seq<char>, end: int) -> Option<Seq<char>>
    decreases end,
{
    let start = component_start(s, end);
    let last = s.subrange(start, end);
    if last.len() == 0 || last == seq!['.'] {
        if 0 < start <= end {
            file_name(s, start - 1)
        } else {
            None
        }
    } else if last == seq!['.', '.'] {
        None
    } else {
        Some(last)
    }
}

/// The name of the file that a path leads to, or nothing where it leads to none.
pub open spec fn file_label(s: Seq<char>) -> Seq<char> {
    match file_name(s, s.len() as int) {
        Some(name) => name,
        None => Seq::empty(),
    }
}

/// Takes the name of the file that a path leads to.
pub fn file_label_of(path: &str) -> (r: String)
    ensures
        r@ == file_label(path@),
{
    let s = chars_of(path);
    let mut end: usize = s.len();
    loop
        invariant
            end <= s@.len(),
            s@ == path@,
            file_name(s@, end as int) == file_name(s@, s@.len() as int),
        decreases end,
    {
        let mut start: usize = end;
        while start > 0 && s[start - 1] != '/'
            invariant
                start <= end <= s@.len(),
                component_start(s@, start as int) == component_start(s@, end as int),
            decreases start,
        {
            start = start - 1;
        }
        let ghost last = s@.subrange(start as int, end as int);
        if start == end || (end - start == 1 && s[start] == '.') {
            assert(last.len() == 0 || last =~= seq!['.']);
            if start == 0 {
                return path.substring_char(0, 0).to_owned();
            }
            end = start - 1;
        } else {
            proof {
                if last == seq!['.'] {
                    assert(last[0] == '.');
                }
                if last == seq!['.', '.'] {
                    assert(last[0] == '.' && last[1] == '.');
                }
            }
            if end - start == 2 && s[start] == '.' && s[start + 1] == '.' {
                assert(last =~= seq!['.', '.']);
                assert(last != seq!['.']) by {
                    assert(last.len() == 2 && seq!['.'].len() == 1);
                }
                assert(path@.subrange(0, 0) =~= Seq::empty());
                return path.substring_char(0, 0).to_owned();
            }
            return path.substring_char(start, end).to_owned();
        }
    }
}

/// Computes the key by which a text is ordered.
pub fn text_key_of(s: &str) -> (r: Vec<u32>)
    ensures
        r@ == text_key(s@),
{
    let chars = chars_of(s);
    let mut r: Vec<u32> = Vec::new();
    let mut i: usize = 0;
    while i < chars.len()
        invariant
            i <= chars@.len(),
            r@ == chars@.take(i as int).map_values(|c: char| c as u32),
        decreases chars@.len() - i,
    {
        r.push(chars[i] as u32);
        i = i + 1;
        assert(r@ =~= chars@.take(i as int).map_values(|c: char| c as u32));
    }
    assert(chars@.take(i as int) =~= s@);
    r
}

/// Texts are told apart by their keys.
pub proof fn lemma_text_key_injective(a: Seq<char>, b: Seq<char>)
    requires
        text_key(a) == text_key(b),
    ensures
        a == b,
{
    assert(text_key(a).len() == a.len() && text_key(b).len() == b.len());
    assert forall|i: int| 0 <= i < a.len() implies a[i] == b[i] by {
        vstd::utf8::char_u32_cast(a[i], a[i] as u32);
        vstd::utf8::char_u32_cast(b[i], b[i] as u32);
        assert(text_key(a)[i] == a[i] as u32);
        assert(text_key(b)[i] == b[i] as u32);
    }
    assert(a =~= b);
}

/// Compares two keys for equality.
pub fn same_key(a: &Vec<u32>, b: &Vec<u32>) -> (r: bool)
    ensures
        r == (a@ == b@),
{
    if a.len() != b.len() {
        return false;
    }
    let mut i: usize = 0;
    while i < a.len()
        invariant
            i <= a@.len(),
            a@.len() == b@.len(),
            forall|k: int| 0 <= k < i ==> a@[k] == b@[k],
        decreases a@.len() - i,
    {
        if a[i] != b[i] {
            return false;
        }
        i = i + 1;
    }
    assert(a@ =~= b@);
    true
}

} // verus!
