//! Path resolution: the security boundary of the server.
//!
//! A request path is first rejected syntactically (no `..`, no leading
//! separator, no backslash), then joined onto the root textually.  The
//! caller canonicalizes the joined path and the root through the
//! filesystem and hands both back; the final decision compares the
//! canonical forms and refuses any target that is not the root or a
//! descendant of it.

use vstd::prelude::*;

use crate::errors::ServeError;

verus! {

/// Two consecutive dots occur somewhere in the string.
pub open spec fn has_dotdot(s: Seq<char>) -> bool {
    exists|i: int| 0 <= i && i + 1 < s.len() && #[trigger] s[i] == '.' && s[i + 1] == '.'
}

/// A backslash occurs somewhere in the string.
pub open spec fn has_backslash(s: Seq<char>) -> bool {
    exists|i: int| 0 <= i < s.len() && s[i] == '\\'
}

/// The string would be interpreted as an absolute path.
pub open spec fn starts_with_separator(s: Seq<char>) -> bool {
    s.len() > 0 && s[0] == '/'
}

/// The syntactic acceptance condition on a raw request path: it must
/// be relative, free of `..`, and free of backslashes.
pub open spec fn valid_request_path(s: Seq<char>) -> bool {
    !has_dotdot(s) && !starts_with_separator(s) && !has_backslash(s)
}

/// Law: a request path with a `..` occurrence or a leading separator
/// is never accepted by the syntactic check.
pub proof fn lemma_traversal_syntax_rejected(s: Seq<char>)
    requires
        has_dotdot(s) || starts_with_separator(s),
    ensures
        !valid_request_path(s),
{
}

/// Syntactic validation of a raw request path, performed before any
/// filesystem access.  Accepts exactly the strings that
/// [`valid_request_path`] accepts; every rejection is
/// `InvalidRequestPath`.
pub fn validate_request_path(s: &str) -> (r: Result<(), ServeError>)
    ensures
        r is Ok <==> valid_request_path(s@),
        r is Err ==> r->Err_0 == ServeError::InvalidRequestPath,
{
    let n = s.unicode_len();
    if n > 0 && s.get_char(0) == '/' {
        return Err(ServeError::InvalidRequestPath);
    }
    let mut i: usize = 0;
    let mut prev_dot: bool = false;
    while i < n
        invariant
            i <= n,
            n == s@.len(),
            !starts_with_separator(s@),
            forall|j: int| 0 <= j < i ==> s@[j] != '\\',
            forall|j: int| 0 <= j && j + 1 < i ==> !(#[trigger] s@[j] == '.' && s@[j + 1] == '.'),
            prev_dot <==> (i > 0 && s@[i - 1] == '.'),
        decreases n - i,
    {
        let c = s.get_char(i);
        if c == '\\' {
            assert(has_backslash(s@));
            return Err(ServeError::InvalidRequestPath);
        }
        if prev_dot && c == '.' {
            assert(s@[i - 1] == '.' && s@[i as int] == '.');
            assert(has_dotdot(s@));
            return Err(ServeError::InvalidRequestPath);
        }
        prev_dot = c == '.';
        i = i + 1;
    }
    Ok(())
}

/// The candidate, in canonical form, is the canonical root itself or a
/// descendant of it.  Canonical absolute paths never end in a
/// separator, with the sole exception of the filesystem root.
pub open spec fn canonical_within(root: Seq<char>, target: Seq<char>) -> bool {
    ||| target == root
    ||| (root.len() > 0 && root.last() == '/' && root.len() <= target.len()
        && target.subrange(0, root.len() as int) == root)
    ||| (root.len() < target.len() && target.subrange(0, root.len() as int) == root
        && target[root.len() as int] == '/')
}

/// Compares a canonical target against a canonical root, component
/// aligned: the target must equal the root or continue it right at a
/// separator.
pub fn path_within_root(root: &str, target: &str) -> (r: bool)
    ensures
        r == canonical_within(root@, target@),
{
    let rl = root.unicode_len();
    let tl = target.unicode_len();
    if rl > tl {
        assert(!canonical_within(root@, target@));
        return false;
    }
    let mut i: usize = 0;
    while i < rl
        invariant
            i <= rl,
            rl == root@.len(),
            tl == target@.len(),
            rl <= tl,
            forall|j: int| 0 <= j < i ==> root@[j] == target@[j],
        decreases rl - i,
    {
        if root.get_char(i) != target.get_char(i) {
            assert(target@.subrange(0, rl as int)[i as int] != root@[i as int]);
            assert(target@.subrange(0, rl as int) != root@);
            assert(target@ != root@) by {
                if target@ == root@ {
                    assert(target@.subrange(0, rl as int) =~= root@);
                }
            }
            return false;
        }
        i = i + 1;
    }
    assert(target@.subrange(0, rl as int) =~= root@);
    if rl == tl {
        assert(target@ =~= root@);
        true
    } else {
        if rl > 0 && root.get_char(rl - 1) == '/' {
            assert(root@.last() == '/');
            true
        } else if target.get_char(rl) == '/' {
            true
        } else {
            assert(target@ != root@) by {
                if target@ == root@ {
                    assert(target@.len() == root@.len());
                }
            }
            false
        }
    }
}

/// The textual join of a validated relative request path onto the
/// root: the root itself for an empty request, otherwise the two parts
/// with exactly one separator between them.
pub open spec fn joined_path(root: Seq<char>, requested: Seq<char>) -> Seq<char> {
    if requested.len() == 0 {
        root
    } else if root.len() > 0 && root.last() == '/' {
        root + requested
    } else {
        root + seq!['/'] + requested
    }
}

/// Joins a relative request path onto the root directory, textually.
/// The filesystem is not consulted; the caller canonicalizes the
/// result afterwards.
pub fn join_request_path(root: &str, requested: &str) -> (r: String)
    ensures
        r@ == joined_path(root@, requested@),
{
    if requested.unicode_len() == 0 {
        return String::from_str(root);
    }
    let mut r = String::from_str(root);
    let rl = root.unicode_len();
    if !(rl > 0 && root.get_char(rl - 1) == '/') {
        r.append("/");
        proof {
            reveal_strlit("/");
            assert("/"@ =~= seq!['/']);
        }
    }
    r.append(requested);
    proof {
        if root@.len() > 0 && root@.last() == '/' {
            assert(r@ =~= root@ + requested@);
        } else {
            assert(r@ =~= root@ + seq!['/'] + requested@);
        }
    }
    r
}

/// Law: the textual join smuggles no `..` in.  Where the root holds
/// no `..` pair and the request passed the syntactic check, the
/// joined path holds no `..` pair either: the separator placed
/// between the two parts can complete no pair across the boundary.
pub proof fn lemma_join_introduces_no_dotdot(root: Seq<char>, requested: Seq<char>)
    requires
        !has_dotdot(root),
        valid_request_path(requested),
    ensures
        !has_dotdot(joined_path(root, requested)),
{
    let j = joined_path(root, requested);
    if requested.len() == 0 {
    } else if root.len() > 0 && root.last() == '/' {
        assert forall|i: int| 0 <= i && i + 1 < j.len() implies !(#[trigger] j[i] == '.' && j[i
            + 1] == '.') by {
            if i + 1 < root.len() {
                assert(j[i] == root[i] && j[i + 1] == root[i + 1]);
            } else if i + 1 == root.len() {
                assert(j[i] == root[root.len() - 1]);
            } else {
                assert(j[i] == requested[i - root.len()]);
                assert(j[i + 1] == requested[i + 1 - root.len()]);
            }
        }
    } else {
        let rl = root.len() as int;
        assert forall|i: int| 0 <= i && i + 1 < j.len() implies !(#[trigger] j[i] == '.' && j[i
            + 1] == '.') by {
            if i + 1 < rl {
                assert(j[i] == root[i] && j[i + 1] == root[i + 1]);
            } else if i + 1 == rl || i == rl {
                assert(j[rl] == '/');
            } else {
                assert(j[i] == requested[i - rl - 1]);
                assert(j[i + 1] == requested[i - rl]);
            }
        }
    }
}

/// Law: the empty request path is valid and resolves to the root
/// itself.
pub proof fn lemma_empty_request_is_root(root: Seq<char>)
    ensures
        valid_request_path(Seq::<char>::empty()),
        joined_path(root, Seq::<char>::empty()) == root,
{
}

/// The non-empty segments of a relative path, in order: the maximal
/// runs of characters between separators.
pub open spec fn spec_segments(s: Seq<char>) -> Seq<Seq<char>>
    decreases s.len(),
{
    if s.len() == 0 {
        Seq::empty()
    } else if s.last() == '/' {
        spec_segments(s.drop_last())
    } else if s.len() >= 2 && s[s.len() - 2] != '/' {
        let rest = spec_segments(s.drop_last());
        rest.update(rest.len() - 1, rest.last().push(s.last()))
    } else {
        spec_segments(s.drop_last()).push(seq![s.last()])
    }
}

/// Splits a request path into its non-empty segments, the pieces a
/// breadcrumb walks through.
pub fn path_segments(s: &str) -> (r: Vec<String>)
    ensures
        r@.map_values(|x: String| x@) == spec_segments(s@),
{
    let n = s.unicode_len();
    let mut done: Vec<String> = Vec::new();
    let mut cur = String::new();
    let mut i: usize = 0;
    while i < n
        invariant
            i <= n,
            n == s@.len(),
            cur@.len() == 0 ==> done@.map_values(|x: String| x@) == spec_segments(
                s@.subrange(0, i as int),
            ) && (i == 0 || s@[i - 1] == '/'),
            cur@.len() > 0 ==> done@.map_values(|x: String| x@).push(cur@) == spec_segments(
                s@.subrange(0, i as int),
            ) && i > 0 && s@[i - 1] != '/',
        decreases n - i,
    {
        let ghost p = s@.subrange(0, i as int);
        let ghost p2 = s@.subrange(0, i + 1);
        proof {
            assert(p2.drop_last() =~= p);
        }
        let c = s.get_char(i);
        if c == '/' {
            if cur.unicode_len() > 0 {
                let ghost dv = done@.map_values(|x: String| x@);
                let ghost cv = cur@;
                done.push(cur);
                cur = String::new();
                proof {
                    assert(done@.map_values(|x: String| x@) =~= dv.push(cv));
                }
            }
        } else {
            if cur.unicode_len() == 0 {
                cur.append(s.substring_char(i, i + 1));
                proof {
                    assert(s@.subrange(i as int, i + 1) =~= seq![s@[i as int]]);
                    assert(cur@ =~= seq![s@[i as int]]);
                    if p2.len() >= 2 {
                        assert(p2[p2.len() - 2] == s@[i - 1]);
                    }
                    assert(spec_segments(p2) == spec_segments(p).push(seq![s@[i as int]]));
                }
            } else {
                let ghost cv = cur@;
                cur.append(s.substring_char(i, i + 1));
                proof {
                    assert(s@.subrange(i as int, i + 1) =~= seq![s@[i as int]]);
                    assert(cur@ =~= cv.push(s@[i as int]));
                    assert(p2.len() >= 2);
                    assert(p2[p2.len() - 2] == s@[i - 1]);
                    let rest = spec_segments(p);
                    let dv = done@.map_values(|x: String| x@);
                    assert(rest == dv.push(cv));
                    assert(rest.last() == cv);
                    assert(rest.len() == dv.len() + 1);
                    assert(spec_segments(p2) == rest.update(rest.len() - 1, cv.push(s@[i as int])));
                    assert(rest.update(rest.len() - 1, cv.push(s@[i as int])) =~= dv.push(
                        cv.push(s@[i as int]),
                    ));
                }
            }
        }
        i = i + 1;
    }
    if cur.unicode_len() > 0 {
        let ghost dv = done@.map_values(|x: String| x@);
        let ghost cv = cur@;
        done.push(cur);
        proof {
            assert(done@.map_values(|x: String| x@) =~= dv.push(cv));
        }
    }
    proof {
        assert(s@.subrange(0, n as int) =~= s@);
    }
    done
}

/// The resolution decision on the canonicalization outcomes, exactly
/// as the server reports them: a root that cannot be canonicalized is
/// an internal failure, a candidate that cannot be canonicalized is
/// absent, and a canonical candidate outside the canonical root is a
/// refused traversal.
pub fn resolve_decision(canon_root: Option<&str>, canon_target: Option<&str>) -> (r: Result<
    (),
    ServeError,
>)
    ensures
        canon_root is None ==> r == Err::<(), ServeError>(ServeError::IoFailure),
        canon_root is Some && canon_target is None ==> r == Err::<(), ServeError>(
            ServeError::NotFound,
        ),
        canon_root is Some && canon_target is Some ==> r == (if canonical_within(
            canon_root->0@,
            canon_target->0@,
        ) {
            Ok::<(), ServeError>(())
        } else {
            Err::<(), ServeError>(ServeError::TraversalRejected)
        }),
{
    match (canon_root, canon_target) {
        (None, _) => Err(ServeError::IoFailure),
        (Some(_), None) => Err(ServeError::NotFound),
        (Some(ro), Some(ta)) => {
            if path_within_root(ro, ta) {
                Ok(())
            } else {
                Err(ServeError::TraversalRejected)
            }
        },
    }
}

} // verus!
