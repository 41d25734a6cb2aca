//! Paths as text.
//!
//! A path is a string whose segments are separated by `/`. Two paths are the
//! same path exactly when they are the same string: nothing here resolves
//! `.`, `..` or repeated separators.

use vstd::prelude::*;
use vstd::string::StringExecFns;
use vstd::string::StrSliceExecFns;
use crate::text::chars_of;

verus! {

/// `base` as the text that stands in front of the name of one of its entries.
pub open spec fn dir_prefix(base: Seq<char>) -> Seq<char> {
    if base.len() == 0 || base.last() == '/' {
        base
    } else {
        base + seq!['/']
    }
}

/// `child` seen from `base`: an absolute `child` stands for itself, any
/// other is put behind `base`, with one separator between the two.
pub open spec fn join_spec(base: Seq<char>, child: Seq<char>) -> Seq<char> {
    if child.len() > 0 && child[0] == '/' {
        child
    } else {
        dir_prefix(base) + child
    }
}

/// `s` without the separators that it starts with.
pub open spec fn trim_spec(s: Seq<char>) -> Seq<char>
    decreases s.len(),
{
    if s.len() > 0 && s[0] == '/' {
        trim_spec(s.drop_first())
    } else {
        s
    }
}

/// Whether the segment `..` starts at place `i` of `s`.
pub open spec fn parent_segment_at(s: Seq<char>, i: int) -> bool {
    &&& 0 <= i
    &&& i + 2 <= s.len()
    &&& s[i] == '.'
    &&& s[i + 1] == '.'
    &&& (i == 0 || s[i - 1] == '/')
    &&& (i + 2 == s.len() || s[i + 2] == '/')
}

/// Whether one of the segments of `s` is `..`.
pub open spec fn has_parent_segment(s: Seq<char>) -> bool {
    exists|i: int| parent_segment_at(s, i)
}

/// Whether `rel` can be followed from a directory without leaving it: it is
/// not absolute and none of its segments is `..`.
pub open spec fn stays_below(rel: Seq<char>) -> bool {
    (rel.len() == 0 || rel[0] != '/') && !has_parent_segment(rel)
}

/// Whether `path` names something in the subtree of `root`.
pub open spec fn within(root: Seq<char>, path: Seq<char>) -> bool {
    exists|rel: Seq<char>| stays_below(rel) && path == #[trigger] join_spec(root, rel)
}

/// Whether `name` can be the name of one entry of a directory.
pub open spec fn is_name(name: Seq<char>) -> bool {
    name.len() > 0 && !name.contains('/')
}

/// The name under which `path` is an entry of the directory `parent`, if it
/// is one.
pub open spec fn child_name_spec(parent: Seq<char>, path: Seq<char>) -> Option<Seq<char>> {
    let pre = dir_prefix(parent);
    if pre.len() < path.len() && pre.is_prefix_of(path) && is_name(path.skip(pre.len() as int)) {
        Some(path.skip(pre.len() as int))
    } else {
        None
    }
}

/// `path` is the entry `name` of `parent` exactly when joining the two gives
/// `path`.
pub proof fn lemma_child_name(parent: Seq<char>, path: Seq<char>, name: Seq<char>)
    ensures
        child_name_spec(parent, path) == Some(name) <==> (is_name(name) && path == join_spec(
            parent,
            name,
        )),
{
    let pre = dir_prefix(parent);
    if is_name(name) && path == join_spec(parent, name) {
        assert(name[0] != '/') by {
            if name[0] == '/' {
                assert(name.contains('/'));
            }
        }
        assert(path == pre + name);
        assert(path.skip(pre.len() as int) =~= name);
        assert(pre.is_prefix_of(path));
    }
    if child_name_spec(parent, path) == Some(name) {
        assert(name == path.skip(pre.len() as int));
        assert(name[0] != '/') by {
            if name[0] == '/' {
                assert(name.contains('/'));
            }
        }
        assert(path =~= pre + name);
    }
}

/// A path that was joined from a relative text without `..` lies within the
/// directory it was joined to.
pub proof fn lemma_join_within(root: Seq<char>, rel: Seq<char>)
    requires
        stays_below(rel),
    ensures
        within(root, join_spec(root, rel)),
{
}

/// What is left of a text after its leading separators does not start with
/// one, and is a tail of the text.
pub proof fn lemma_trim(s: Seq<char>)
    ensures
        trim_spec(s).len() == 0 || trim_spec(s)[0] != '/',
        trim_spec(s).len() <= s.len(),
        trim_spec(s) == s.skip(s.len() - trim_spec(s).len()),
        forall|i: int| 0 <= i < s.len() - trim_spec(s).len() ==> s[i] == '/',
    decreases s.len(),
{
    if s.len() > 0 && s[0] == '/' {
        let t = s.drop_first();
        lemma_trim(t);
        let k = t.len() - trim_spec(t).len();
        assert(t.skip(k) =~= s.skip(k + 1));
        assert forall|i: int| 0 <= i < s.len() - trim_spec(s).len() implies s[i] == '/' by {
            if i > 0 {
                assert(t[i - 1] == s[i]);
            }
        }
    } else {
        assert(s.skip(0) =~= s);
    }
}

/// `base` joined with `child`.
pub fn join(base: &str, child: &str) -> (r: String)
    ensures
        r@ == join_spec(base@, child@),
{
    let b = chars_of(base);
    let c = chars_of(child);
    if c.len() > 0 && c[0] == '/' {
        child.to_owned()
    } else if b.len() == 0 || b[b.len() - 1] == '/' {
        String::from_str(base).concat(child)
    } else {
        proof {
            reveal_strlit("/");
            assert("/"@ =~= seq!['/']);
        }
        String::from_str(base).concat("/").concat(child)
    }
}

/// `s` without the separators that it starts with.
pub fn trim_leading_slashes(s: &str) -> (r: &str)
    ensures
        r@ == trim_spec(s@),
{
    let c = chars_of(s);
    let n = c.len();
    let mut k: usize = 0;
    assert(s@.skip(0) =~= s@);
    while k < n && c[k] == '/'
        invariant
            k <= n,
            n == c@.len(),
            c@ == s@,
            trim_spec(s@) == trim_spec(s@.skip(k as int)),
        decreases n - k,
    {
        proof {
            let t = s@.skip(k as int);
            assert(t[0] == '/');
            assert(t.drop_first() =~= s@.skip(k + 1));
        }
        k += 1;
    }
    proof {
        let t = s@.skip(k as int);
        assert(t.len() == 0 || t[0] != '/');
        assert(trim_spec(t) == t);
        assert(s@.subrange(k as int, n as int) =~= t);
    }
    s.substring_char(k, n)
}

/// Whether one of the segments of `s` is `..`.
pub fn contains_parent_segment(s: &str) -> (b: bool)
    ensures
        b == has_parent_segment(s@),
{
    let c = chars_of(s);
    let n = c.len();
    if n < 2 {
        return false;
    }
    let mut i: usize = 0;
    while i + 1 < n
        invariant
            n == c@.len(),
            c@ == s@,
            n >= 2,
            i <= n - 1,
            forall|j: int| 0 <= j < i ==> !parent_segment_at(s@, j),
        decreases n - i,
    {
        if c[i] == '.' && c[i + 1] == '.' && (i == 0 || c[i - 1] == '/') && (i + 2 == n || c[i + 2]
            == '/') {
            assert(parent_segment_at(s@, i as int));
            return true;
        }
        i += 1;
    }
    false
}

/// The name under which `path` is an entry of the directory `parent`, if it
/// is one.
pub fn child_name(parent: &str, path: &str) -> (r: Option<String>)
    ensures
        match r {
            Some(name) => child_name_spec(parent@, path@) == Some(name@),
            None => child_name_spec(parent@, path@) is None,
        },
{
    let pre_string = join(parent, "");
    proof {
        reveal_strlit("");
        assert(""@ =~= Seq::<char>::empty());
        assert(pre_string@ =~= dir_prefix(parent@));
    }
    let pre = chars_of(pre_string.as_str());
    let p = chars_of(path);
    let m = pre.len();
    let n = p.len();
    if m >= n {
        return None;
    }
    let mut i: usize = 0;
    while i < m
        invariant
            i <= m,
            m < n,
            m == pre@.len(),
            n == p@.len(),
            p@ == path@,
            pre@ == dir_prefix(parent@),
            forall|j: int| 0 <= j < i ==> pre@[j] == p@[j],
        decreases m - i,
    {
        if pre[i] != p[i] {
            assert(!pre@.is_prefix_of(p@)) by {
                if pre@.is_prefix_of(p@) {
                    assert(pre@ == p@.subrange(0, m as int));
                    assert(p@.subrange(0, m as int)[i as int] == p@[i as int]);
                }
            }
            return None;
        }
        i += 1;
    }
    assert(pre@ =~= p@.subrange(0, m as int));
    assert(pre@.is_prefix_of(p@));
    let mut k: usize = m;
    while k < n
        invariant
            m <= k <= n,
            m < n,
            n == p@.len(),
            m == pre@.len(),
            p@ == path@,
            pre@ == dir_prefix(parent@),
            forall|j: int| m <= j < k ==> p@[j] != '/',
        decreases n - k,
    {
        if p[k] == '/' {
            assert(p@.skip(m as int)[k - m] == '/');
            assert(p@.skip(m as int).contains('/'));
            return None;
        }
        k += 1;
    }
    proof {
        let name = p@.skip(m as int);
        assert(!name.contains('/')) by {
            if name.contains('/') {
                let j = choose|j: int| 0 <= j < name.len() && name[j] == '/';
                assert(p@[m + j] == '/');
            }
        }
        assert(p@.subrange(m as int, n as int) =~= name);
    }
    Some(String::from_str(path.substring_char(m, n)))
}

} // verus!
