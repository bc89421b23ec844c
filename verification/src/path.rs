//! Paths as byte strings.
//!
//! A path is a sequence of bytes. `/` separates its components; empty
//! components and components that are a lone `.` name nothing, except that a
//! `.` at the very start stands for the current directory.

use vstd::prelude::*;

verus! {

/// The byte `/`, which separates the components of a path.
pub const SEPARATOR: u8 = 0x2f;

/// The byte `.`, which begins an extension; alone, it names the current
/// directory.
pub const DOT: u8 = 0x2e;

/// How many leading bytes of the first `n` bytes of `p` are its anchor: a
/// root `/`, or a `.` that stands for the current directory. Either 0 or 1.
pub open spec fn anchor(p: Seq<u8>, n: int) -> int {
    if n > 0 && (p[0] == SEPARATOR || (p[0] == DOT && (n == 1 || p[1] == SEPARATOR))) {
        1
    } else {
        0
    }
}

/// The length that is left of the first `n` bytes of `p` once the trailing
/// separators and the trailing `.` components are taken off. The anchor is
/// never taken off.
pub open spec fn trimmed(p: Seq<u8>, n: int) -> int
    decreases n,
{
    if n <= anchor(p, n) {
        n
    } else if p[n - 1] == SEPARATOR {
        trimmed(p, n - 1)
    } else if p[n - 1] == DOT && n - 2 >= anchor(p, n) && p[n - 2] == SEPARATOR {
        trimmed(p, n - 2)
    } else if p[n - 1] == DOT && n - 1 == anchor(p, n) {
        trimmed(p, n - 1)
    } else {
        n
    }
}

/// Where the component that ends at `end` begins, when nothing before `lo`
/// belongs to a component: just behind the last separator in `lo..end`, or
/// `lo` if there is none.
pub open spec fn component_start(p: Seq<u8>, lo: int, end: int) -> int
    decreases end - lo,
{
    if end <= lo || p[end - 1] == SEPARATOR {
        end
    } else {
        component_start(p, lo, end - 1)
    }
}

/// The last component of `p`, if it is a name: not the root, not `.` and not
/// `..`.
pub open spec fn spec_file_name(p: Seq<u8>) -> Option<Seq<u8>> {
    let end = trimmed(p, p.len() as int);
    let lo = anchor(p, end);
    let name = p.subrange(component_start(p, lo, end), end);
    if end <= lo || name == seq![DOT, DOT] {
        None
    } else {
        Some(name)
    }
}

/// The path without its last component. A root and the empty path have no
/// parent; the parent of a single relative component is the empty path.
pub open spec fn spec_parent(p: Seq<u8>) -> Option<Seq<u8>> {
    let end = trimmed(p, p.len() as int);
    let lo = anchor(p, end);
    if end <= lo {
        if lo == 1 && p[0] == DOT {
            Some(Seq::empty())
        } else {
            None
        }
    } else {
        let start = component_start(p, lo, end);
        let cut = if start > lo {
            start - 1
        } else {
            start
        };
        Some(p.take(trimmed(p, cut)))
    }
}

/// The index of the last `.` in `name`, or -1 if it holds none.
pub open spec fn last_dot(name: Seq<u8>) -> int
    decreases name.len(),
{
    if name.len() == 0 {
        -1
    } else if name.last() == DOT {
        name.len() - 1
    } else {
        last_dot(name.drop_last())
    }
}

/// A file name without its extension: what stands before its last `.`. A
/// name that holds no `.`, or only the one it begins with, is its own stem.
pub open spec fn spec_stem(name: Seq<u8>) -> Seq<u8> {
    if last_dot(name) > 0 {
        name.take(last_dot(name))
    } else {
        name
    }
}

/// The stem of the last component of `p`, if that component is a name.
pub open spec fn spec_file_stem(p: Seq<u8>) -> Option<Seq<u8>> {
    match spec_file_name(p) {
        Some(name) => Some(spec_stem(name)),
        None => None,
    }
}

/// `tail` placed under `base`. A `tail` that begins at the root replaces
/// `base`; otherwise one separator is put between the two unless `base` is
/// empty or already ends in one.
pub open spec fn spec_join(base: Seq<u8>, tail: Seq<u8>) -> Seq<u8> {
    if tail.len() > 0 && tail[0] == SEPARATOR {
        tail
    } else if base.len() > 0 && base.last() != SEPARATOR {
        base.push(SEPARATOR) + tail
    } else {
        base + tail
    }
}

fn anchor_len(p: &[u8], n: usize) -> (r: usize)
    requires
        n <= p@.len(),
    ensures
        r == anchor(p@, n as int),
{
    if n > 0 && (p[0] == SEPARATOR || (p[0] == DOT && (n == 1 || p[1] == SEPARATOR))) {
        1
    } else {
        0
    }
}

fn trimmed_len(p: &[u8], n: usize) -> (r: usize)
    requires
        n <= p@.len(),
    ensures
        r == trimmed(p@, n as int),
        r <= n,
{
    let mut j: usize = n;
    loop
        invariant
            j <= n <= p@.len(),
            trimmed(p@, j as int) == trimmed(p@, n as int),
        decreases j,
    {
        let lo: usize = anchor_len(p, j);
        if j <= lo {
            return j;
        }
        if p[j - 1] == SEPARATOR {
            j = j - 1;
        } else if p[j - 1] == DOT && j >= lo + 2 && p[j - 2] == SEPARATOR {
            j = j - 2;
        } else if p[j - 1] == DOT && j - 1 == lo {
            j = j - 1;
        } else {
            return j;
        }
    }
}

fn component_start_at(p: &[u8], lo: usize, end: usize) -> (r: usize)
    requires
        lo <= end <= p@.len(),
    ensures
        r == component_start(p@, lo as int, end as int),
        lo <= r <= end,
{
    let mut j: usize = end;
    while j > lo && p[j - 1] != SEPARATOR
        invariant
            lo <= j <= end <= p@.len(),
            component_start(p@, lo as int, j as int) == component_start(p@, lo as int, end as int),
        decreases j,
    {
        j = j - 1;
    }
    j
}

/// Copies the bytes `from..to` of `p`.
pub(crate) fn copy_range(p: &[u8], from: usize, to: usize) -> (v: Vec<u8>)
    requires
        from <= to <= p@.len(),
    ensures
        v@ == p@.subrange(from as int, to as int),
{
    let mut v: Vec<u8> = Vec::new();
    let mut i: usize = from;
    while i < to
        invariant
            from <= i <= to <= p@.len(),
            v@ == p@.subrange(from as int, i as int),
        decreases to - i,
    {
        v.push(p[i]);
        i = i + 1;
    }
    v
}

/// The last component of `path`, if it is a name.
///
/// `None` for the empty path, for a root, and for a path that ends in `.` or
/// `..`. Trailing separators are ignored: the file name of `a/b/` is `b`.
pub fn file_name(path: &[u8]) -> (r: Option<Vec<u8>>)
    ensures
        r is Some == spec_file_name(path@) is Some,
        r is Some ==> r->0@ == spec_file_name(path@)->0,
{
    let end: usize = trimmed_len(path, path.len());
    let lo: usize = anchor_len(path, end);
    if end <= lo {
        return None;
    }
    let start: usize = component_start_at(path, lo, end);
    if end - start == 2 && path[start] == DOT && path[start + 1] == DOT {
        assert(path@.subrange(start as int, end as int) =~= seq![DOT, DOT]);
        return None;
    }
    assert(path@.subrange(start as int, end as int) != seq![DOT, DOT]) by {
        let name = path@.subrange(start as int, end as int);
        if name == seq![DOT, DOT] {
            assert(name.len() == 2);
            assert(name[0] == DOT && name[1] == DOT);
        }
    }
    Some(copy_range(path, start, end))
}

/// The path without its last component.
///
/// `None` for the empty path and for a root. The parent of a single relative
/// component, and of `.`, is the empty path.
pub fn parent(path: &[u8]) -> (r: Option<Vec<u8>>)
    ensures
        r is Some == spec_parent(path@) is Some,
        r is Some ==> r->0@ == spec_parent(path@)->0,
{
    let end: usize = trimmed_len(path, path.len());
    let lo: usize = anchor_len(path, end);
    if end <= lo {
        if lo == 1 && path[0] == DOT {
            return Some(Vec::new());
        }
        return None;
    }
    let start: usize = component_start_at(path, lo, end);
    let cut: usize = if start > lo {
        start - 1
    } else {
        start
    };
    let keep: usize = trimmed_len(path, cut);
    Some(copy_range(path, 0, keep))
}

/// How many bytes of `name` make up its stem.
pub(crate) fn stem_len(name: &[u8]) -> (r: usize)
    ensures
        r <= name@.len(),
        name@.take(r as int) == spec_stem(name@),
{
    let mut j: usize = name.len();
    assert(name@.take(j as int) =~= name@);
    while j > 0 && name[j - 1] != DOT
        invariant
            j <= name@.len(),
            last_dot(name@.take(j as int)) == last_dot(name@),
        decreases j,
    {
        assert(name@.take(j as int).drop_last() =~= name@.take(j - 1));
        j = j - 1;
    }
    assert(last_dot(name@) == j - 1);
    if j > 1 {
        j - 1
    } else {
        name.len()
    }
}

/// The stem of the last component of `path`, if that component is a name:
/// the name without its extension.
pub fn file_stem(path: &[u8]) -> (r: Option<Vec<u8>>)
    ensures
        r is Some == spec_file_stem(path@) is Some,
        r is Some ==> r->0@ == spec_file_stem(path@)->0,
{
    match file_name(path) {
        Some(name) => {
            let n: usize = stem_len(name.as_slice());
            Some(copy_range(name.as_slice(), 0, n))
        },
        None => None,
    }
}

/// `tail` placed under `base`.
///
/// A `tail` that begins at the root replaces `base`. Otherwise the two are
/// put together, with one separator between them unless `base` is empty or
/// already ends in one.
pub fn join(base: &[u8], tail: &[u8]) -> (r: Vec<u8>)
    ensures
        r@ == spec_join(base@, tail@),
{
    if tail.len() > 0 && tail[0] == SEPARATOR {
        let r = copy_range(tail, 0, tail.len());
        assert(tail@.subrange(0, tail@.len() as int) =~= tail@);
        return r;
    }
    let mut r: Vec<u8> = copy_range(base, 0, base.len());
    assert(base@.subrange(0, base@.len() as int) =~= base@);
    if base.len() > 0 && base[base.len() - 1] != SEPARATOR {
        r.push(SEPARATOR);
    }
    let ghost head = r@;
    let mut i: usize = 0;
    while i < tail.len()
        invariant
            i <= tail@.len(),
            r@ == head + tail@.take(i as int),
        decreases tail@.len() - i,
    {
        r.push(tail[i]);
        assert(tail@.take(i + 1) =~= tail@.take(i as int).push(tail@[i as int]));
        assert(r@ =~= head + tail@.take(i + 1));
        i = i + 1;
    }
    assert(tail@.take(tail@.len() as int) =~= tail@);
    r
}

/// Whether `name` can name an entry of a directory: it is not empty, holds
/// no separator, and is neither `.` nor `..`.
pub open spec fn is_name(name: Seq<u8>) -> bool {
    &&& name.len() > 0
    &&& forall|i: int| 0 <= i < name.len() ==> name[i] != SEPARATOR
    &&& name != seq![DOT]
    &&& name != seq![DOT, DOT]
}

/// Whether nothing is taken off the end of `p` when it is trimmed.
pub open spec fn is_trimmed(p: Seq<u8>) -> bool {
    trimmed(p, p.len() as int) == p.len()
}

/// Trimming looks only at the bytes it is given.
pub proof fn lemma_trimmed_of_prefix(p: Seq<u8>, q: Seq<u8>, n: int)
    requires
        0 <= n <= p.len(),
        n <= q.len(),
        forall|i: int| 0 <= i < n ==> p[i] == q[i],
    ensures
        trimmed(p, n) == trimmed(q, n),
    decreases n,
{
    if n <= anchor(p, n) {
    } else if p[n - 1] == SEPARATOR {
        lemma_trimmed_of_prefix(p, q, n - 1);
    } else if p[n - 1] == DOT && n - 2 >= anchor(p, n) && p[n - 2] == SEPARATOR {
        lemma_trimmed_of_prefix(p, q, n - 2);
    } else if p[n - 1] == DOT && n - 1 == anchor(p, n) {
        lemma_trimmed_of_prefix(p, q, n - 1);
    }
}

/// Trimming shortens, and trimming twice is trimming once.
pub proof fn lemma_trimmed_twice(p: Seq<u8>, n: int)
    requires
        0 <= n <= p.len(),
    ensures
        0 <= trimmed(p, n) <= n,
        trimmed(p, trimmed(p, n)) == trimmed(p, n),
    decreases n,
{
    if n <= anchor(p, n) {
    } else if p[n - 1] == SEPARATOR {
        lemma_trimmed_twice(p, n - 1);
    } else if p[n - 1] == DOT && n - 2 >= anchor(p, n) && p[n - 2] == SEPARATOR {
        lemma_trimmed_twice(p, n - 2);
    } else if p[n - 1] == DOT && n - 1 == anchor(p, n) {
        lemma_trimmed_twice(p, n - 1);
    }
}

/// The last `.` of a name, if it has one, is one of its bytes.
pub proof fn lemma_last_dot(name: Seq<u8>)
    ensures
        -1 <= last_dot(name) < name.len(),
        last_dot(name) >= 0 ==> name[last_dot(name)] == DOT,
    decreases name.len(),
{
    if name.len() > 0 && name.last() != DOT {
        lemma_last_dot(name.drop_last());
    }
}

/// Where trimming takes nothing off, the path ends in a component that is
/// neither empty nor a lone `.`, unless only its anchor is left.
pub proof fn lemma_trimmed_end(p: Seq<u8>, n: int)
    requires
        0 <= n <= p.len(),
        trimmed(p, n) == n,
        n > anchor(p, n),
    ensures
        p[n - 1] != SEPARATOR,
        !(p[n - 1] == DOT && n - 2 >= anchor(p, n) && p[n - 2] == SEPARATOR),
        !(p[n - 1] == DOT && n - 1 == anchor(p, n)),
{
    lemma_trimmed_twice(p, n - 1);
    if n >= 2 {
        lemma_trimmed_twice(p, n - 2);
    }
}

/// A component begins where its run of bytes that are no separators begins.
pub proof fn lemma_component_start_of_run(p: Seq<u8>, lo: int, start: int, end: int)
    requires
        0 <= lo <= start <= end <= p.len(),
        forall|i: int| start <= i < end ==> p[i] != SEPARATOR,
        start == lo || p[start - 1] == SEPARATOR,
    ensures
        component_start(p, lo, end) == start,
    decreases end - start,
{
    if start < end {
        lemma_component_start_of_run(p, lo, start, end - 1);
    }
}

/// Between the start of a component and its end stands no separator.
pub proof fn lemma_component_is_run(p: Seq<u8>, lo: int, end: int)
    requires
        0 <= lo <= end <= p.len(),
    ensures
        lo <= component_start(p, lo, end) <= end,
        forall|i: int| component_start(p, lo, end) <= i < end ==> p[i] != SEPARATOR,
        component_start(p, lo, end) == lo || p[component_start(p, lo, end) - 1] == SEPARATOR,
    decreases end - lo,
{
    if end <= lo || p[end - 1] == SEPARATOR {
    } else {
        lemma_component_is_run(p, lo, end - 1);
    }
}

/// A file name is a name, and a path that has one has a parent.
pub proof fn lemma_file_name_is_name(p: Seq<u8>)
    requires
        spec_file_name(p) is Some,
    ensures
        is_name(spec_file_name(p)->0),
        spec_parent(p) is Some,
{
    let end = trimmed(p, p.len() as int);
    lemma_trimmed_twice(p, p.len() as int);
    let lo = anchor(p, end);
    lemma_component_is_run(p, lo, end);
    let start = component_start(p, lo, end);
    let name = p.subrange(start, end);
    lemma_trimmed_end(p, end);
    assert(start < end);
    if name == seq![DOT] {
        assert(name.len() == 1);
        assert(p[end - 1] == name[0]);
        assert(start == end - 1);
    }
}

/// The parent of a path is trimmed.
pub proof fn lemma_parent_is_trimmed(p: Seq<u8>)
    requires
        spec_parent(p) is Some,
    ensures
        is_trimmed(spec_parent(p)->0),
{
    let end = trimmed(p, p.len() as int);
    lemma_trimmed_twice(p, p.len() as int);
    let lo = anchor(p, end);
    if end <= lo {
    } else {
        lemma_component_is_run(p, lo, end);
        let start = component_start(p, lo, end);
        let cut = if start > lo {
            start - 1
        } else {
            start
        };
        lemma_trimmed_twice(p, cut);
        let keep = trimmed(p, cut);
        lemma_trimmed_of_prefix(p, p.take(keep), keep);
    }
}

/// A name placed under a directory is the file name of the result, and the
/// parent of the result is that directory, trimmed.
pub proof fn lemma_join_name(base: Seq<u8>, name: Seq<u8>)
    requires
        is_name(name),
    ensures
        spec_file_name(spec_join(base, name)) == Some(name),
        spec_parent(spec_join(base, name)) == Some(base.take(trimmed(base, base.len() as int))),
{
    let q = spec_join(base, name);
    let head = q.len() - name.len();
    let n = q.len() as int;
    assert(name[0] != SEPARATOR);
    assert(forall|i: int| head <= i < n ==> q[i] == name[i - head]);
    assert(forall|i: int| 0 <= i < base.len() ==> q[i] == base[i]);
    assert(head == 0 || q[head - 1] == SEPARATOR);
    // Nothing is trimmed off the end: the last component is a name.
    assert(trimmed(q, n) == n) by {
        if name.len() == 1 {
            assert(name[0] != DOT) by {
                if name[0] == DOT {
                    assert(name =~= seq![DOT]);
                }
            }
        } else {
            assert(q[n - 2] == name[name.len() - 2]);
        }
    }
    let lo = anchor(q, n);
    assert(lo <= head) by {
        if head == 0 && lo == 1 {
            if name.len() == 1 {
                assert(name =~= seq![DOT]);
            } else {
                assert(q[1] == name[1]);
            }
        }
    }
    lemma_component_start_of_run(q, lo, head, n);
    assert(q.subrange(head, n) =~= name);
    // The parent is what is left of `base`.
    let cut = if head > lo {
        head - 1
    } else {
        head
    };
    lemma_trimmed_twice(base, base.len() as int);
    if head > lo {
        if head == base.len() + 1 {
            lemma_trimmed_of_prefix(q, base, base.len() as int);
        } else {
            assert(head == base.len());
            assert(base.last() == SEPARATOR);
            lemma_trimmed_of_prefix(q, base, base.len() - 1);
            assert(anchor(base, base.len() as int) == anchor(q, n)) by {
                if base.len() == 1 {
                    assert(q[1] == name[0]);
                }
            }
        }
    } else {
        if head == 1 {
            assert(head == base.len());
            lemma_trimmed_of_prefix(q, base, 1);
        } else {
            assert(base.len() == 0);
        }
    }
    assert(q.take(trimmed(q, cut)) =~= base.take(trimmed(base, base.len() as int)));
}

} // verus!
