//! Naming a project after its directory path.

use vstd::prelude::*;

verus! {

/// The path read left to right: the non-empty components finished so far
/// and the component being read.
pub open spec fn scan_components(s: Seq<char>) -> (Seq<Seq<char>>, Seq<char>)
    decreases s.len(),
{
    if s.len() == 0 {
        (Seq::empty(), Seq::empty())
    } else {
        let (done, cur) = scan_components(s.drop_last());
        if s.last() == '/' {
            (if cur.len() > 0 { done.push(cur) } else { done }, Seq::empty())
        } else {
            (done, cur.push(s.last()))
        }
    }
}

/// The components of a path split at `/`, empty ones dropped.
pub open spec fn components(s: Seq<char>) -> Seq<Seq<char>> {
    let (done, cur) = scan_components(s);
    if cur.len() > 0 {
        done.push(cur)
    } else {
        done
    }
}

/// A directory under which projects are usually kept.
pub open spec fn is_marker(c: Seq<char>) -> bool {
    c == "Github"@ || c == "github"@ || c == "Projects"@ || c == "projects"@ || c == "code"@ || c == "Code"@
        || c == "dev"@ || c == "Development"@ || c == "src"@ || c == "repos"@
}

/// A directory name that says nothing about the project.
pub open spec fn is_boring(c: Seq<char>) -> bool {
    c == "src"@ || c == "scripts"@ || c == "lib"@ || c == "bin"@ || c == "dist"@ || c == "build"@ || c == "out"@
        || c == "target"@
}

/// The first position at or after `i` holding a marker that has a component after it.
pub open spec fn marker_from(cs: Seq<Seq<char>>, i: int) -> int
    decreases cs.len() - i,
{
    if i >= cs.len() {
        cs.len() as int
    } else if is_marker(cs[i]) && i + 1 < cs.len() {
        i
    } else {
        marker_from(cs, i + 1)
    }
}

/// The last position before `i` holding a component that is not boring, or -1.
pub open spec fn interesting_before(cs: Seq<Seq<char>>, i: int) -> int
    decreases i,
{
    if i <= 0 {
        -1
    } else if !is_boring(cs[i - 1]) {
        i - 1
    } else {
        interesting_before(cs, i - 1)
    }
}

/// The project name of a path: the component after the first marker that
/// has one; else the last component that is not boring; else the last
/// component; `Unknown` for a path with no components.
pub open spec fn project_name_of(path: Seq<char>) -> Seq<char> {
    let cs = components(path);
    let m = marker_from(cs, 0);
    let b = interesting_before(cs, cs.len() as int);
    if m < cs.len() {
        cs[m + 1]
    } else if b >= 0 {
        cs[b]
    } else if cs.len() > 0 {
        cs.last()
    } else {
        "Unknown"@
    }
}

/// The components of `path`.
pub fn split_components(path: &str) -> (r: Vec<String>)
    ensures
        r@.len() == components(path@).len(),
        forall|i: int| 0 <= i < r@.len() ==> (#[trigger] r@[i])@ == components(path@)[i],
{
    let cs = crate::text::chars_of(path);
    let n = cs.len();
    let mut out: Vec<String> = Vec::new();
    let mut start: usize = 0;
    let mut i: usize = 0;
    while i < n
        invariant
            cs@ == path@,
            n == cs.len(),
            start <= i <= n,
            scan_components(path@.take(i as int)).0.len() == out@.len(),
            forall|k: int| 0 <= k < out@.len() ==> (#[trigger] out@[k])@ == scan_components(path@.take(i as int)).0[k],
            scan_components(path@.take(i as int)).1 == path@.subrange(start as int, i as int),
        decreases n - i,
    {
        assert(path@.take(i + 1).drop_last() =~= path@.take(i as int));
        if cs[i] == '/' {
            if start < i {
                let part = path.substring_char(start, i);
                out.push(String::from_str(part));
            }
            start = i + 1;
        } else {
            assert(path@.subrange(start as int, i as int).push(cs@[i as int]) =~= path@.subrange(start as int, i + 1));
        }
        i = i + 1;
    }
    assert(path@.take(n as int) =~= path@);
    if start < n {
        let part = path.substring_char(start, n);
        out.push(String::from_str(part));
    }
    out
}

/// Whether `c` is one of the project markers.
fn marker(c: &str) -> (r: bool)
    ensures
        r == is_marker(c@),
{
    let s = String::from_str(c);
    let a = String::from_str("Github");
    let b = String::from_str("github");
    let d = String::from_str("Projects");
    let e = String::from_str("projects");
    let f = String::from_str("code");
    let g = String::from_str("Code");
    let h = String::from_str("dev");
    let i = String::from_str("Development");
    let j = String::from_str("src");
    let k = String::from_str("repos");
    s == a || s == b || s == d || s == e || s == f || s == g || s == h || s == i || s == j || s == k
}

/// Whether `c` is one of the boring subdirectory names.
fn boring(c: &str) -> (r: bool)
    ensures
        r == is_boring(c@),
{
    let s = String::from_str(c);
    let a = String::from_str("src");
    let b = String::from_str("scripts");
    let d = String::from_str("lib");
    let e = String::from_str("bin");
    let f = String::from_str("dist");
    let g = String::from_str("build");
    let h = String::from_str("out");
    let i = String::from_str("target");
    s == a || s == b || s == d || s == e || s == f || s == g || s == h || s == i
}

/// The project name of a directory path.
pub fn extract_project_name(project_path: &str) -> (r: String)
    ensures
        r@ == project_name_of(project_path@),
{
    let cs = split_components(project_path);
    let ghost v = components(project_path@);
    let n = cs.len();
    let mut i: usize = 0;
    while i < n
        invariant
            n == cs@.len() == v.len(),
            v == components(project_path@),
            forall|k: int| 0 <= k < n ==> (#[trigger] cs@[k])@ == v[k],
            i <= n,
            marker_from(v, 0) == marker_from(v, i as int),
        decreases n - i,
    {
        if marker(cs[i].as_str()) && i + 1 < n {
            assert(marker_from(v, i as int) == i);
            return cs[i + 1].clone();
        }
        i = i + 1;
    }
    let mut j: usize = n;
    while j > 0
        invariant
            n == cs@.len() == v.len(),
            v == components(project_path@),
            forall|k: int| 0 <= k < n ==> (#[trigger] cs@[k])@ == v[k],
            j <= n,
            interesting_before(v, n as int) == interesting_before(v, j as int),
            marker_from(v, 0) == n,
        decreases j,
    {
        if !boring(cs[j - 1].as_str()) {
            assert(interesting_before(v, j as int) == j - 1);
            return cs[j - 1].clone();
        }
        j = j - 1;
    }
    if n > 0 {
        cs[n - 1].clone()
    } else {
        String::from_str("Unknown")
    }
}

} // verus!
