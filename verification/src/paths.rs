//! Unix file paths as character sequences: the file name, stem and extension
//! of a path, replacing the file name, and comparing paths by components, as
//! `std::path::Path` does them.

use vstd::prelude::*;
use crate::text::{copy_range, chars_equal};

verus! {

/// The start of the path segment that ends at `e`: the position right after
/// the last `'/'` before `e`, or 0.
pub open spec fn segment_start(p: Seq<char>, e: int) -> int
    decreases e,
{
    if e <= 0 {
        0
    } else if p[e - 1] == '/' {
        e
    } else {
        segment_start(p, e - 1)
    }
}

pub proof fn lemma_segment_start(p: Seq<char>, e: int)
    requires
        0 <= e <= p.len(),
    ensures
        0 <= segment_start(p, e) <= e,
        segment_start(p, e) > 0 ==> p[segment_start(p, e) - 1] == '/',
        forall|k: int| segment_start(p, e) <= k < e ==> p[k] != '/',
    decreases e,
{
    if e > 0 && p[e - 1] != '/' {
        lemma_segment_start(p, e - 1);
    }
}

/// The single-dot segment `.`.
pub open spec fn dot() -> Seq<char> {
    seq!['.']
}

/// The parent segment `..`.
pub open spec fn dot_dot() -> Seq<char> {
    seq!['.', '.']
}

/// Where the file name of `p[0..e]` lies in `p`: the last segment that is
/// neither empty nor `.`; none when there is no such segment or it is `..`.
pub open spec fn file_name_range_upto(p: Seq<char>, e: int) -> Option<(int, int)>
    decreases e,
{
    if e <= 0 || e > p.len() {
        None
    } else {
        let s = segment_start(p, e);
        proof {
            lemma_segment_start(p, e);
        }
        if s == e {
            file_name_range_upto(p, e - 1)
        } else if p.subrange(s, e) == dot() {
            if s == 0 {
                None
            } else {
                file_name_range_upto(p, s - 1)
            }
        } else if p.subrange(s, e) == dot_dot() {
            None
        } else {
            Some((s, e))
        }
    }
}

/// Where the file name of `p` lies in `p` (`Path::file_name`).
pub open spec fn file_name_range(p: Seq<char>) -> Option<(int, int)> {
    file_name_range_upto(p, p.len() as int)
}

/// The file name of `p` (`Path::file_name`).
pub open spec fn file_name(p: Seq<char>) -> Option<Seq<char>> {
    match file_name_range(p) {
        Some((s, e)) => Some(p.subrange(s, e)),
        None => None,
    }
}

/// The index of the last `c` in `s[0..e]`, or -1.
pub open spec fn last_index_of(s: Seq<char>, c: char, e: int) -> int
    decreases e,
{
    if e <= 0 {
        -1
    } else if s[e - 1] == c {
        e - 1
    } else {
        last_index_of(s, c, e - 1)
    }
}

pub proof fn lemma_last_index_of(s: Seq<char>, c: char, e: int)
    requires
        0 <= e <= s.len(),
    ensures
        -1 <= last_index_of(s, c, e) < e,
        last_index_of(s, c, e) >= 0 ==> s[last_index_of(s, c, e)] == c,
        forall|k: int| last_index_of(s, c, e) < k < e ==> s[k] != c,
    decreases e,
{
    if e > 0 && s[e - 1] != c {
        lemma_last_index_of(s, c, e - 1);
    }
}

/// The extension of a file name: what follows its last `.`, unless that dot
/// is the first character or there is none.
pub open spec fn name_extension(name: Seq<char>) -> Option<Seq<char>> {
    let d = last_index_of(name, '.', name.len() as int);
    if d <= 0 {
        None
    } else {
        Some(name.subrange(d + 1, name.len() as int))
    }
}

/// The stem of a file name: the name without its extension and the dot before it.
pub open spec fn name_stem(name: Seq<char>) -> Seq<char> {
    let d = last_index_of(name, '.', name.len() as int);
    if d <= 0 {
        name
    } else {
        name.subrange(0, d)
    }
}

/// The extension of the path (`Path::extension`).
pub open spec fn path_extension(p: Seq<char>) -> Option<Seq<char>> {
    match file_name(p) {
        Some(name) => name_extension(name),
        None => None,
    }
}

/// The stem of the path (`Path::file_stem`).
pub open spec fn path_stem(p: Seq<char>) -> Option<Seq<char>> {
    match file_name(p) {
        Some(name) => Some(name_stem(name)),
        None => None,
    }
}

/// `q` without trailing separators and trailing `.` segments, keeping a
/// leading `/` and a leading `.` segment (what is left of a path once its
/// last component has been cut off).
pub open spec fn trim_tail(q: Seq<char>) -> Seq<char>
    decreases q.len(),
{
    if q.len() == 0 {
        q
    } else if q.last() == '/' {
        if q.len() == 1 {
            q
        } else {
            trim_tail(q.drop_last())
        }
    } else {
        let s = segment_start(q, q.len() as int);
        proof {
            lemma_segment_start(q, q.len() as int);
        }
        if s > 0 && q.subrange(s, q.len() as int) == dot() {
            trim_tail(q.subrange(0, s))
        } else {
            q
        }
    }
}

/// `name` pushed onto `base` as a new last component (`PathBuf::push`).
pub open spec fn push_component(base: Seq<char>, name: Seq<char>) -> Seq<char> {
    if name.len() > 0 && name[0] == '/' {
        name
    } else if base.len() > 0 && base.last() != '/' {
        base.push('/') + name
    } else {
        base + name
    }
}

/// `p` with its file name replaced by `name` (`Path::with_file_name`).
pub open spec fn with_file_name(p: Seq<char>, name: Seq<char>) -> Seq<char> {
    let base = match file_name_range(p) {
        Some((s, _)) => trim_tail(p.subrange(0, s)),
        None => p,
    };
    push_component(base, name)
}

/// The segments of `p[0..e]` that are neither empty nor `.`.
pub open spec fn normal_segments_upto(p: Seq<char>, e: int) -> Seq<Seq<char>>
    decreases e,
{
    if e <= 0 || e > p.len() {
        Seq::empty()
    } else {
        let s = segment_start(p, e);
        proof {
            lemma_segment_start(p, e);
        }
        let rest = if s > 0 {
            normal_segments_upto(p, s - 1)
        } else {
            Seq::empty()
        };
        let seg = p.subrange(s, e);
        if seg.len() == 0 || seg == dot() {
            rest
        } else {
            rest.push(seg)
        }
    }
}

/// The path starts at the root.
pub open spec fn has_root(p: Seq<char>) -> bool {
    p.len() > 0 && p[0] == '/'
}

/// The relative path starts with the current directory `.`.
pub open spec fn has_cur_dir(p: Seq<char>) -> bool {
    !has_root(p) && p.len() > 0 && p[0] == '.' && (p.len() == 1 || p[1] == '/')
}

/// Two paths have the same components (`Path`'s `==`).
pub open spec fn same_components(a: Seq<char>, b: Seq<char>) -> bool {
    &&& has_root(a) == has_root(b)
    &&& has_cur_dir(a) == has_cur_dir(b)
    &&& normal_segments_upto(a, a.len() as int) == normal_segments_upto(b, b.len() as int)
}

/// A path with a file name has that name as its last normal segment; a path
/// without one has no normal segment or ends in `..`.
pub proof fn lemma_file_name_is_last_segment(p: Seq<char>, e: int)
    requires
        0 <= e <= p.len(),
    ensures
        file_name_range_upto(p, e) matches Some((s, t)) ==> {
            &&& 0 <= s < t <= e
            &&& forall|k: int| s <= k < t ==> p[k] != '/'
            &&& normal_segments_upto(p, e).len() > 0
            &&& normal_segments_upto(p, e).last() == p.subrange(s, t)
        },
        file_name_range_upto(p, e) is None ==> (normal_segments_upto(p, e).len() == 0
            || normal_segments_upto(p, e).last() == dot_dot()),
    decreases e,
{
    if e > 0 {
        let s = segment_start(p, e);
        lemma_segment_start(p, e);
        if s == e {
            lemma_file_name_is_last_segment(p, e - 1);
        } else if p.subrange(s, e) == dot() {
            if s > 0 {
                lemma_file_name_is_last_segment(p, s - 1);
            }
        }
    }
}

/// A name without `/` that is neither empty nor `.`, pushed onto a path,
/// is the last normal segment of the result.
pub proof fn lemma_pushed_name_is_last_segment(base: Seq<char>, name: Seq<char>)
    requires
        name.len() > 0,
        forall|k: int| 0 <= k < name.len() ==> name[k] != '/',
        name != dot(),
    ensures
        normal_segments_upto(push_component(base, name), push_component(base, name).len() as int).len() > 0,
        normal_segments_upto(push_component(base, name), push_component(base, name).len() as int).last() == name,
{
    let q = push_component(base, name);
    let e = q.len() as int;
    let b = e - name.len();
    assert(q.subrange(b, e) =~= name);
    assert(b > 0 ==> q[b - 1] == '/');
    assert(forall|k: int| b <= k < e ==> q[k] == name[k - b]);
    lemma_segment_start(q, e);
    let s = segment_start(q, e);
    if s < b {
        assert(q[b - 1] != '/');
    }
    if s > b {
        assert(q[s - 1] == name[s - 1 - b]);
    }
    assert(s == b);
}

fn segment_start_of(p: &[char], e: usize) -> (s: usize)
    requires
        e <= p@.len(),
    ensures
        s == segment_start(p@, e as int),
{
    let mut s = e;
    while s > 0 && p[s - 1] != '/'
        invariant
            s <= e <= p@.len(),
            segment_start(p@, e as int) == segment_start(p@, s as int),
        decreases s,
    {
        s = s - 1;
    }
    s
}

fn is_dot(p: &[char], s: usize, e: usize) -> (b: bool)
    requires
        s <= e <= p@.len(),
    ensures
        b == (p@.subrange(s as int, e as int) == dot()),
{
    let r = e - s == 1 && p[s] == '.';
    proof {
        assert(dot().len() == 1 && dot()[0] == '.');
        if r {
            assert(p@.subrange(s as int, e as int) =~= dot());
        } else if e - s == 1 {
            assert(p@.subrange(s as int, e as int)[0] != dot()[0]);
        }
    }
    r
}

fn is_dot_dot(p: &[char], s: usize, e: usize) -> (b: bool)
    requires
        s <= e <= p@.len(),
    ensures
        b == (p@.subrange(s as int, e as int) == dot_dot()),
{
    let r = e - s == 2 && p[s] == '.' && p[s + 1] == '.';
    proof {
        assert(dot_dot().len() == 2 && dot_dot()[0] == '.' && dot_dot()[1] == '.');
        if r {
            assert(p@.subrange(s as int, e as int) =~= dot_dot());
        } else if e - s == 2 {
            if p[s as int] != '.' {
                assert(p@.subrange(s as int, e as int)[0] != dot_dot()[0]);
            } else {
                assert(p@.subrange(s as int, e as int)[1] != dot_dot()[1]);
            }
        }
    }
    r
}

/// Where the file name of `p` lies in `p`.
pub fn find_file_name(p: &[char]) -> (r: Option<(usize, usize)>)
    ensures
        r matches Some((s, e)) ==> file_name_range(p@) == Some((s as int, e as int)) && s < e
            <= p@.len(),
        r is None ==> file_name_range(p@) is None,
{
    let mut e = p.len();
    loop
        invariant
            e <= p@.len(),
            file_name_range(p@) == file_name_range_upto(p@, e as int),
        decreases e,
    {
        if e == 0 {
            return None;
        }
        let s = segment_start_of(p, e);
        proof {
            lemma_segment_start(p@, e as int);
        }
        if s == e {
            e = e - 1;
        } else if is_dot(p, s, e) {
            if s == 0 {
                return None;
            }
            e = s - 1;
        } else if is_dot_dot(p, s, e) {
            return None;
        } else {
            return Some((s, e));
        }
    }
}

/// The index of the last `c` in `s`, if any.
fn find_last(s: &[char], c: char) -> (r: Option<usize>)
    ensures
        r matches Some(d) ==> last_index_of(s@, c, s@.len() as int) == d as int,
        r is None ==> last_index_of(s@, c, s@.len() as int) == -1,
{
    let mut e = s.len();
    while e > 0 && s[e - 1] != c
        invariant
            e <= s@.len(),
            last_index_of(s@, c, s@.len() as int) == last_index_of(s@, c, e as int),
        decreases e,
    {
        e = e - 1;
    }
    if e == 0 {
        None
    } else {
        Some(e - 1)
    }
}

/// The extension of the path `p` (`Path::extension`).
pub fn extension_of(p: &[char]) -> (r: Option<Vec<char>>)
    ensures
        r.deep_view() == path_extension(p@),
{
    match find_file_name(p) {
        None => None,
        Some((s, e)) => {
            let name = copy_range(p, s, e);
            match find_last(&name, '.') {
                Some(d) => {
                    if d == 0 {
                        None
                    } else {
                        proof {
                            lemma_last_index_of(name@, '.', name@.len() as int);
                        }
                        let ext = copy_range(&name, d + 1, name.len());
                        assert(ext.deep_view() =~= ext@);
                        Some(ext)
                    }
                },
                None => None,
            }
        },
    }
}

/// The stem of the path `p` (`Path::file_stem`).
pub fn stem_of(p: &[char]) -> (r: Option<Vec<char>>)
    ensures
        r.deep_view() == path_stem(p@),
{
    match find_file_name(p) {
        None => None,
        Some((s, e)) => {
            let name = copy_range(p, s, e);
            let stem = match find_last(&name, '.') {
                Some(d) => {
                    if d == 0 {
                        name
                    } else {
                        proof {
                            lemma_last_index_of(name@, '.', name@.len() as int);
                        }
                        copy_range(&name, 0, d)
                    }
                },
                None => name,
            };
            assert(stem.deep_view() =~= stem@);
            Some(stem)
        },
    }
}

/// `trim_tail(p[0..e])`, as a length.
fn trim_tail_len(p: &[char], e: usize) -> (n: usize)
    requires
        e <= p@.len(),
    ensures
        n <= e,
        p@.subrange(0, n as int) == trim_tail(p@.subrange(0, e as int)),
{
    let mut n = e;
    loop
        invariant
            n <= e <= p@.len(),
            trim_tail(p@.subrange(0, e as int)) == trim_tail(p@.subrange(0, n as int)),
        decreases n,
    {
        let ghost q = p@.subrange(0, n as int);
        if n == 0 {
            return n;
        }
        if p[n - 1] == '/' {
            if n == 1 {
                return n;
            }
            assert(q.drop_last() =~= p@.subrange(0, n - 1));
            n = n - 1;
        } else {
            let s = segment_start_of(p, n);
            proof {
                lemma_segment_start(p@, n as int);
                assert(segment_start(q, n as int) == s) by {
                    lemma_segment_start_prefix(p@, n as int, n as int);
                }
                assert(q.subrange(s as int, n as int) =~= p@.subrange(s as int, n as int));
                assert(q.subrange(0, s as int) =~= p@.subrange(0, s as int));
            }
            if s > 0 && is_dot(p, s, n) {
                n = s;
            } else {
                return n;
            }
        }
    }
}

/// `segment_start` looks only at the characters before its end.
proof fn lemma_segment_start_prefix(p: Seq<char>, n: int, e: int)
    requires
        0 <= e <= n <= p.len(),
    ensures
        segment_start(p.subrange(0, n), e) == segment_start(p, e),
    decreases e,
{
    if e > 0 {
        assert(p.subrange(0, n)[e - 1] == p[e - 1]);
        if p[e - 1] != '/' {
            lemma_segment_start_prefix(p, n, e - 1);
        }
    }
}

/// `name` pushed onto the characters `base` as a new last component.
fn push_component_chars(base: &mut Vec<char>, name: &[char])
    ensures
        final(base)@ == push_component(old(base)@, name@),
{
    if name.len() > 0 && name[0] == '/' {
        *base = copy_range(name, 0, name.len());
        assert(name@.subrange(0, name@.len() as int) =~= name@);
        return;
    }
    if base.len() > 0 && base[base.len() - 1] != '/' {
        base.push('/');
    }
    let ghost mid = base@;
    let mut i: usize = 0;
    while i < name.len()
        invariant
            i <= name@.len(),
            base@ == mid + name@.subrange(0, i as int),
        decreases name.len() - i,
    {
        base.push(name[i]);
        assert(name@.subrange(0, i + 1) =~= name@.subrange(0, i as int).push(name@[i as int]));
        i = i + 1;
    }
    assert(name@.subrange(0, name@.len() as int) =~= name@);
}

/// `p` with its file name replaced by `name` (`Path::with_file_name`).
pub fn replace_file_name(p: &[char], name: &[char]) -> (r: Vec<char>)
    ensures
        r@ == with_file_name(p@, name@),
{
    let mut base = match find_file_name(p) {
        Some((s, _)) => {
            let n = trim_tail_len(p, s);
            copy_range(p, 0, n)
        },
        None => {
            let b = copy_range(p, 0, p.len());
            assert(p@.subrange(0, p@.len() as int) =~= p@);
            b
        },
    };
    push_component_chars(&mut base, name);
    base
}

/// The segments of `p` that are neither empty nor `.`, in order.
fn normal_segments(p: &[char]) -> (r: Vec<Vec<char>>)
    ensures
        r.deep_view() == normal_segments_upto(p@, p@.len() as int),
{
    let mut rev: Vec<Vec<char>> = Vec::new();
    let mut e = p.len();
    let ghost mut acc: Seq<Seq<char>> = Seq::empty();
    loop
        invariant
            e <= p@.len(),
            normal_segments_upto(p@, p@.len() as int) == normal_segments_upto(p@, e as int)
                + acc,
            rev@.len() == acc.len(),
            forall|k: int|
                0 <= k < acc.len() ==> (#[trigger] rev@[k])@ == acc[acc.len() - 1 - k],
        ensures
            e == 0,
            normal_segments_upto(p@, p@.len() as int) == normal_segments_upto(p@, e as int)
                + acc,
            rev@.len() == acc.len(),
            forall|k: int|
                0 <= k < acc.len() ==> (#[trigger] rev@[k])@ == acc[acc.len() - 1 - k],
        decreases e,
    {
        if e == 0 {
            break;
        }
        let s = segment_start_of(p, e);
        proof {
            lemma_segment_start(p@, e as int);
        }
        let ghost rest = if s > 0 {
            normal_segments_upto(p@, s - 1)
        } else {
            Seq::empty()
        };
        if !(s == e || is_dot(p, s, e)) {
            let seg = copy_range(p, s, e);
            proof {
                assert(normal_segments_upto(p@, e as int) == rest.push(seg@));
                assert(rest.push(seg@) + acc =~= rest + (seq![seg@] + acc));
                acc = seq![seg@] + acc;
            }
            rev.push(seg);
        }
        if s == 0 {
            assert(normal_segments_upto(p@, 0) =~= Seq::<Seq<char>>::empty());
            assert(rest =~= normal_segments_upto(p@, 0));
            e = 0;
        } else {
            e = s - 1;
        }
    }
    assert(normal_segments_upto(p@, 0) =~= Seq::<Seq<char>>::empty());
    let mut r: Vec<Vec<char>> = Vec::new();
    let mut k = rev.len();
    while k > 0
        invariant
            k <= rev@.len(),
            rev@.len() == acc.len(),
            forall|j: int| 0 <= j < acc.len() ==> (#[trigger] rev@[j])@ == acc[acc.len() - 1 - j],
            r@.len() == acc.len() - k,
            forall|j: int| 0 <= j < r@.len() ==> (#[trigger] r@[j])@ == acc[j],
        decreases k,
    {
        k = k - 1;
        let seg = copy_range(&rev[k], 0, rev[k].len());
        assert(rev@[k as int]@.subrange(0, rev@[k as int]@.len() as int) =~= rev@[k as int]@);
        r.push(seg);
    }
    assert forall|j: int| 0 <= j < r@.len() implies r@[j].deep_view() == acc[j] by {
        assert(r@[j].deep_view() =~= r@[j]@);
    }
    assert(r.deep_view() =~= acc);
    assert(normal_segments_upto(p@, p@.len() as int) =~= acc);
    r
}

/// Whether `a` and `b` name the same path, component by component (`Path`'s `==`).
pub fn same_path(a: &[char], b: &[char]) -> (r: bool)
    ensures
        r == same_components(a@, b@),
{
    let root_a = a.len() > 0 && a[0] == '/';
    let root_b = b.len() > 0 && b[0] == '/';
    let cur_a = !root_a && a.len() > 0 && a[0] == '.' && (a.len() == 1 || a[1] == '/');
    let cur_b = !root_b && b.len() > 0 && b[0] == '.' && (b.len() == 1 || b[1] == '/');
    if root_a != root_b || cur_a != cur_b {
        return false;
    }
    let sa = normal_segments(a);
    let sb = normal_segments(b);
    if sa.len() != sb.len() {
        assert(sa.deep_view().len() != sb.deep_view().len());
        return false;
    }
    let mut i: usize = 0;
    while i < sa.len()
        invariant
            i <= sa@.len(),
            sa@.len() == sb@.len(),
            sa.deep_view() == normal_segments_upto(a@, a@.len() as int),
            sb.deep_view() == normal_segments_upto(b@, b@.len() as int),
            forall|k: int| 0 <= k < i ==> sa.deep_view()[k] == sb.deep_view()[k],
        decreases sa.len() - i,
    {
        assert(sa@[i as int].deep_view() =~= sa@[i as int]@);
        assert(sb@[i as int].deep_view() =~= sb@[i as int]@);
        assert(sa.deep_view()[i as int] == sa@[i as int]@);
        assert(sb.deep_view()[i as int] == sb@[i as int]@);
        if !chars_equal(&sa[i], &sb[i]) {
            assert(sa.deep_view()[i as int] != sb.deep_view()[i as int]);
            return false;
        }
        i = i + 1;
    }
    assert(sa.deep_view() =~= sb.deep_view());
    true
}

/// The components of a path, as `Path::components` yields them: the root
/// directory (written `/`), a leading current directory (written `.`), then
/// the segments that are neither empty nor `.`.
pub open spec fn components(p: Seq<char>) -> Seq<Seq<char>> {
    (if has_root(p) {
        seq![seq!['/']]
    } else {
        Seq::empty()
    }) + (if has_cur_dir(p) {
        seq![dot()]
    } else {
        Seq::empty()
    }) + normal_segments_upto(p, p.len() as int)
}

/// `p` starts with `base`, component by component (`Path::starts_with`).
pub open spec fn path_starts_with(p: Seq<char>, base: Seq<char>) -> bool {
    components(base).is_prefix_of(components(p))
}

/// The components of `p`.
fn components_of(p: &[char]) -> (r: Vec<Vec<char>>)
    ensures
        r.deep_view() == components(p@),
{
    let mut r: Vec<Vec<char>> = Vec::new();
    let root = p.len() > 0 && p[0] == '/';
    let cur = !root && p.len() > 0 && p[0] == '.' && (p.len() == 1 || p[1] == '/');
    assert(root == has_root(p@));
    assert(cur == has_cur_dir(p@));
    if root {
        let slash = vec!['/'];
        assert(slash.deep_view() =~= seq!['/']);
        r.push(slash);
        assert(r.deep_view() =~= seq![seq!['/']]);
    }
    if cur {
        let d = vec!['.'];
        assert(d.deep_view() =~= dot());
        let ghost before = r.deep_view();
        r.push(d);
        assert(r.deep_view() =~= before.push(dot()));
    }
    let ghost head = r.deep_view();
    assert(head =~= (if has_root(p@) {
        seq![seq!['/']]
    } else {
        Seq::empty()
    }) + (if has_cur_dir(p@) {
        seq![dot()]
    } else {
        Seq::empty()
    }));
    let segs = normal_segments(p);
    let mut i: usize = 0;
    while i < segs.len()
        invariant
            i <= segs@.len(),
            segs.deep_view() == normal_segments_upto(p@, p@.len() as int),
            r.deep_view() == head + segs.deep_view().take(i as int),
        decreases segs.len() - i,
    {
        let ghost before = r.deep_view();
        let seg = copy_range(&segs[i], 0, segs[i].len());
        assert(seg@ =~= segs@[i as int]@);
        assert(segs.deep_view()[i as int] == segs@[i as int]@);
        r.push(seg);
        assert(r.deep_view() =~= before.push(seg@));
        assert(segs.deep_view().take(i + 1) =~= segs.deep_view().take(i as int).push(seg@));
        i = i + 1;
    }
    assert(segs.deep_view().take(segs@.len() as int) =~= segs.deep_view());
    r
}

/// Whether the path `p` lies within `base`: `p` starts with `base`,
/// component by component.
pub fn path_within(p: &str, base: &str) -> (b: bool)
    ensures
        b == path_starts_with(p@, base@),
{
    let cp = components_of(&crate::text::chars_of(p));
    let cb = components_of(&crate::text::chars_of(base));
    if cb.len() > cp.len() {
        assert(cb.deep_view().len() > cp.deep_view().len());
        return false;
    }
    let mut i: usize = 0;
    while i < cb.len()
        invariant
            i <= cb@.len(),
            cb@.len() <= cp@.len(),
            cp.deep_view() == components(p@),
            cb.deep_view() == components(base@),
            forall|k: int| 0 <= k < i ==> cb.deep_view()[k] == cp.deep_view()[k],
        decreases cb.len() - i,
    {
        assert(cb.deep_view()[i as int] == cb@[i as int]@);
        assert(cp.deep_view()[i as int] == cp@[i as int]@);
        if !chars_equal(&cb[i], &cp[i]) {
            assert(cb.deep_view()[i as int] != cp.deep_view()[i as int]);
            return false;
        }
        i = i + 1;
    }
    assert(cb.deep_view() =~= cp.deep_view().take(cb.deep_view().len() as int));
    true
}

} // verus!
