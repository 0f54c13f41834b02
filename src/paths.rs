//! Containment of one absolute path in another, and joining path segments.
use vstd::prelude::*;
use path_absolutize::Absolutize;
use crate::error::ErrorKind;

verus! {

/// `root` is a leading part of `child`, ending at a separator or at the end of `child`:
/// `child` is `root` itself or lies below it, component by component.
pub open spec fn within(child: Seq<char>, root: Seq<char>) -> bool {
    &&& root.len() <= child.len()
    &&& child.subrange(0, root.len() as int) == root
    &&& (root.len() == 0 || child.len() == root.len() || root.last() == '/' || child[root.len() as int] == '/')
}

/// `base` and `name` joined with one separator; an absolute `name` replaces `base`.
pub open spec fn join_spec(base: Seq<char>, name: Seq<char>) -> Seq<char> {
    if name.len() > 0 && name[0] == '/' {
        name
    } else if base.len() == 0 || base.last() == '/' {
        base + name
    } else {
        base + seq!['/'] + name
    }
}

/// Succeeds exactly when `child` lies within `root`; both are taken as given
/// (absolute, canonical forms: the caller resolves them).
pub fn check_within(child: &str, root: &str) -> (r: Result<(), ErrorKind>)
    ensures
        r is Ok <==> within(child@, root@),
        r is Err ==> r == Err::<(), ErrorKind>(ErrorKind::PermissionDenied),
{
    let lc = child.unicode_len();
    let lr = root.unicode_len();
    if lr > lc {
        return Err(ErrorKind::PermissionDenied);
    }
    let mut i: usize = 0;
    while i < lr
        invariant
            lc == child@.len(),
            lr == root@.len(),
            lr <= lc,
            i <= lr,
            child@.subrange(0, i as int) == root@.subrange(0, i as int),
        decreases lr - i,
    {
        if child.get_char(i) != root.get_char(i) {
            proof {
                assert(child@.subrange(0, lr as int)[i as int] != root@[i as int]);
            }
            return Err(ErrorKind::PermissionDenied);
        }
        proof {
            assert(child@.subrange(0, i + 1) =~= child@.subrange(0, i as int).push(child@[i as int]));
            assert(root@.subrange(0, i + 1) =~= root@.subrange(0, i as int).push(root@[i as int]));
        }
        i = i + 1;
    }
    proof {
        assert(root@.subrange(0, lr as int) =~= root@);
    }
    if lr == 0 || lc == lr || root.get_char(lr - 1) == '/' || child.get_char(lr) == '/' {
        Ok(())
    } else {
        Err(ErrorKind::PermissionDenied)
    }
}

/// Joins `name` onto `base` as a path.
pub fn join(base: &str, name: &str) -> (r: String)
    ensures
        r@ == join_spec(base@, name@),
{
    let ln = name.unicode_len();
    let lb = base.unicode_len();
    if ln > 0 && name.get_char(0) == '/' {
        return String::from_str(name);
    }
    let mut r = String::from_str(base);
    if !(lb == 0 || base.get_char(lb - 1) == '/') {
        r.append("/");
        proof {
            reveal_strlit("/");
        }
    }
    r.append(name);
    r
}

/// Relies on path_absolutize's `Absolutize::absolutize`: the absolute, dot-free form of
/// a path, against the current working directory. The result depends on that directory,
/// so nothing is stated of it.
#[verifier::external_body]
fn absolutize(p: &str) -> (r: Option<String>) {
    std::path::Path::new(p).absolutize().ok().map(|a| a.to_string_lossy().into_owned())
}

/// The absolute, dot-free form of `p`, against the current working directory.
pub fn absolute(p: &str) -> (r: Result<String, ErrorKind>)
    ensures
        r is Err ==> r == Err::<String, ErrorKind>(ErrorKind::PathResolution),
{
    match absolutize(p) {
        Some(a) => Ok(a),
        None => Err(ErrorKind::PathResolution),
    }
}

/// Succeeds when the absolute form of `child` lies within the absolute form of
/// `parent_dir`; a path with no absolute form is an error.
pub fn ensure_within(child: &str, parent_dir: &str) -> (r: Result<(), ErrorKind>)
    ensures
        r is Err ==> r == Err::<(), ErrorKind>(ErrorKind::PermissionDenied) || r == Err::<(), ErrorKind>(
            ErrorKind::PathResolution,
        ),
{
    let child_abs = absolute(child)?;
    let parent_abs = absolute(parent_dir)?;
    check_within(child_abs.as_str(), parent_abs.as_str())
}


/// A path segment: non-empty, with no separator.
pub open spec fn segment(s: Seq<char>) -> bool {
    s.len() > 0 && forall|i: int| 0 <= i < s.len() ==> #[trigger] s[i] != '/'
}

/// A traversal out of a directory is refused: with `root` the directory `p/n`, a path
/// that leaves it through `..` into a sibling `p/m` (such as `p/etc/passwd` reached as
/// `../etc/passwd`), whatever follows the sibling, is never within `root`.
pub proof fn lemma_traversal_rejected(p: Seq<char>, n: Seq<char>, m: Seq<char>, tail: Seq<char>)
    requires
        segment(n),
        segment(m),
        m != n,
        tail.len() == 0 || tail[0] == '/',
    ensures
        !within(p + seq!['/'] + m + tail, p + seq!['/'] + n),
{
    let root = p + seq!['/'] + n;
    let child = p + seq!['/'] + m + tail;
    let o = p.len() as int + 1;
    if within(child, root) {
        let l = root.len() as int;
        assert(child.subrange(0, l)[o + n.len() as int - 1] == root[o + n.len() as int - 1]);
        if n.len() < m.len() {
            assert(child[l] == m[n.len() as int]);
            assert(root.last() == n[n.len() - 1]);
        } else if n.len() == m.len() {
            assert forall|i: int| 0 <= i < n.len() implies n[i] == m[i] by {
                assert(child.subrange(0, l)[o + i] == root[o + i]);
            }
            assert(n =~= m);
        } else {
            assert(tail.len() > 0);
            assert(child.subrange(0, l)[o + m.len() as int] == root[o + m.len() as int]);
            assert(child[o + m.len() as int] == tail[0]);
            assert(root[o + m.len() as int] == n[m.len() as int]);
        }
    }
}

} // verus!
