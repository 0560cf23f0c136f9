//! Directory listings: one transient row per child, ordered
//! deterministically with directories first and case-insensitive
//! names ascending within each group.  The caller enumerates the
//! directory and hands the rows over as plain values; the ordering is
//! established here and must not be re-sorted downstream.

use vstd::prelude::*;

verus! {

/// One child of a listed directory: UTF-8 name, size in bytes (0 for
/// a directory), last-modified time in seconds since the Unix epoch
/// where the filesystem reports one, and the directory flag.
#[derive(Debug)]
pub struct FileRow {
    pub name: String,
    pub size: u64,
    pub modified: Option<u64>,
    pub is_dir: bool,
}

impl FileRow {
    /// A row reports a size of exactly 0 for a directory.
    pub open spec fn wf(self) -> bool {
        self.is_dir ==> self.size == 0
    }

    /// Builds a row from what the caller read of one child, forcing
    /// the size of a directory to 0.
    pub fn new(name: String, size: u64, modified: Option<u64>, is_dir: bool) -> (r: FileRow)
        ensures
            r.wf(),
            r.name@ == name@,
            r.modified == modified,
            r.is_dir == is_dir,
            !is_dir ==> r.size == size,
    {
        FileRow { name, size: if is_dir { 0 } else { size }, modified, is_dir }
    }
}

/// The lowercase form of a string, as `str::to_lowercase` computes
/// it.  The mapping depends on the characters alone.
pub uninterp spec fn lower_of(s: Seq<char>) -> Seq<char>;

/// Relies on `str::to_lowercase`: the result is a function of the
/// characters of the input alone, here named [`lower_of`].
#[verifier::external_body]
fn to_lowercase(s: &str) -> (r: String)
    ensures
        r@ == lower_of(s@),
{
    s.to_lowercase()
}

/// Lexicographic order on character sequences by code point, the
/// order `str` comparison uses.
pub open spec fn lex_le(a: Seq<char>, b: Seq<char>) -> bool
    decreases a.len(),
{
    if a.len() == 0 {
        true
    } else if b.len() == 0 {
        false
    } else if (a[0] as int) == (b[0] as int) {
        lex_le(a.drop_first(), b.drop_first())
    } else {
        (a[0] as int) < (b[0] as int)
    }
}

/// Any two character sequences are ordered one way or the other.
pub proof fn lemma_lex_le_total(a: Seq<char>, b: Seq<char>)
    ensures
        lex_le(a, b) || lex_le(b, a),
    decreases a.len(),
{
    if a.len() == 0 || b.len() == 0 {
    } else if (a[0] as int) == (b[0] as int) {
        lemma_lex_le_total(a.drop_first(), b.drop_first());
    }
}

/// The lexicographic order is transitive.
pub proof fn lemma_lex_le_trans(a: Seq<char>, b: Seq<char>, c: Seq<char>)
    requires
        lex_le(a, b),
        lex_le(b, c),
    ensures
        lex_le(a, c),
    decreases a.len(),
{
    if a.len() == 0 {
    } else {
        if (a[0] as int) == (b[0] as int) && (b[0] as int) == (c[0] as int) {
            lemma_lex_le_trans(a.drop_first(), b.drop_first(), c.drop_first());
        }
    }
}

/// Comparing two sequences that agree on their first `i` characters
/// is comparing what remains of each.
proof fn lemma_lex_le_skip(a: Seq<char>, b: Seq<char>, i: int)
    requires
        0 <= i <= a.len(),
        i <= b.len(),
        forall|j: int| 0 <= j < i ==> (#[trigger] a[j] as int) == (b[j] as int),
    ensures
        lex_le(a, b) == lex_le(a.skip(i), b.skip(i)),
    decreases i,
{
    if i == 0 {
        assert(a.skip(0) =~= a);
        assert(b.skip(0) =~= b);
    } else {
        assert(a.drop_first().skip(i - 1) =~= a.skip(i));
        assert(b.drop_first().skip(i - 1) =~= b.skip(i));
        lemma_lex_le_skip(a.drop_first(), b.drop_first(), i - 1);
    }
}

/// Compares two strings lexicographically by code point.
fn lex_le_str(a: &str, b: &str) -> (r: bool)
    ensures
        r == lex_le(a@, b@),
{
    let al = a.unicode_len();
    let bl = b.unicode_len();
    let m = if al <= bl {
        al
    } else {
        bl
    };
    let mut i: usize = 0;
    while i < m
        invariant
            i <= m,
            al == a@.len(),
            bl == b@.len(),
            m == if al <= bl {
                al
            } else {
                bl
            },
            forall|j: int| 0 <= j < i ==> (#[trigger] a@[j] as int) == (b@[j] as int),
        decreases m - i,
    {
        let ca = a.get_char(i) as u32;
        let cb = b.get_char(i) as u32;
        if ca != cb {
            proof {
                lemma_lex_le_skip(a@, b@, i as int);
                assert(a@.skip(i as int)[0] == a@[i as int]);
                assert(b@.skip(i as int)[0] == b@[i as int]);
            }
            return ca < cb;
        }
        i = i + 1;
    }
    proof {
        lemma_lex_le_skip(a@, b@, m as int);
        if al <= bl {
            assert(a@.skip(m as int).len() == 0);
        } else {
            assert(b@.skip(m as int).len() == 0);
            assert(a@.skip(m as int).len() > 0);
        }
    }
    al <= bl
}

/// Law: the lexicographic order is antisymmetric, so the listing
/// order is deterministic up to rows whose lowercase names coincide.
pub proof fn lemma_lex_le_antisymmetric(a: Seq<char>, b: Seq<char>)
    requires
        lex_le(a, b),
        lex_le(b, a),
    ensures
        a == b,
    decreases a.len(),
{
    if a.len() == 0 {
        assert(b.len() == 0);
        assert(a =~= b);
    } else {
        assert(b.len() > 0);
        assert((a[0] as int) == (b[0] as int));
        assert(a[0] == b[0]);
        let a1 = a.drop_first();
        let b1 = b.drop_first();
        assert(lex_le(a1, b1));
        assert(lex_le(b1, a1));
        lemma_lex_le_antisymmetric(a1, b1);
        assert(a1 == b1);
        assert(a.len() == a1.len() + 1);
        assert(b.len() == b1.len() + 1);
        assert(a =~= b) by {
            assert forall|i: int| 0 <= i < a.len() implies a[i] == b[i] by {
                if i > 0 {
                    assert(a[i] == a1[i - 1]);
                    assert(b[i] == b1[i - 1]);
                }
            }
        }
    }
}

/// The listing order: directories before files; within each group,
/// the lowercase forms of the names ascending.
pub open spec fn row_le(a: FileRow, b: FileRow) -> bool {
    if a.is_dir != b.is_dir {
        a.is_dir
    } else {
        lex_le(lower_of(a.name@), lower_of(b.name@))
    }
}

/// Any two rows are ordered one way or the other.
pub proof fn lemma_row_le_total(a: FileRow, b: FileRow)
    ensures
        row_le(a, b) || row_le(b, a),
{
    if a.is_dir == b.is_dir {
        lemma_lex_le_total(lower_of(a.name@), lower_of(b.name@));
    }
}

/// The listing order is transitive.
pub proof fn lemma_row_le_trans(a: FileRow, b: FileRow, c: FileRow)
    requires
        row_le(a, b),
        row_le(b, c),
    ensures
        row_le(a, c),
{
    if a.is_dir == b.is_dir && b.is_dir == c.is_dir {
        lemma_lex_le_trans(
            lower_of(a.name@),
            lower_of(b.name@),
            lower_of(c.name@),
        );
    }
}

/// Compares two rows in the listing order.
fn row_le_exec(a: &FileRow, b: &FileRow) -> (r: bool)
    ensures
        r == row_le(*a, *b),
{
    if a.is_dir != b.is_dir {
        a.is_dir
    } else {
        let la = to_lowercase(a.name.as_str());
        let lb = to_lowercase(b.name.as_str());
        lex_le_str(la.as_str(), lb.as_str())
    }
}

/// The rows stand in the listing order.
pub open spec fn rows_sorted(s: Seq<FileRow>) -> bool {
    forall|p: int, q: int| 0 <= p < q < s.len() ==> #[trigger] row_le(s[p], s[q])
}

/// Law: in an ordered listing every directory stands before every
/// file; no file precedes any directory.
pub proof fn lemma_directories_before_files(s: Seq<FileRow>, p: int, q: int)
    requires
        rows_sorted(s),
        0 <= p < s.len(),
        0 <= q < s.len(),
        !s[p].is_dir,
        s[q].is_dir,
    ensures
        q < p,
{
    if p < q {
        assert(row_le(s[p], s[q]));
    }
}

/// Sorts the rows of a listing: directories first, then
/// case-insensitive name order.  The result holds exactly the rows
/// that went in.
pub fn sort_rows(rows: Vec<FileRow>) -> (r: Vec<FileRow>)
    ensures
        rows_sorted(r@),
        r@.to_multiset() == rows@.to_multiset(),
        r@.len() == rows@.len(),
        forall|k: int| 0 <= k < r@.len() ==> #[trigger] rows@.contains(r@[k]),
{
    broadcast use vstd::seq_lib::group_to_multiset_ensures;

    let mut v = rows;
    if v.len() <= 1 {
        proof {
            assert forall|k: int| 0 <= k < v@.len() implies #[trigger] v@.contains(v@[k]) by {}
        }
        return v;
    }
    let ghost orig = v@;
    let mut i: usize = 1;
    while i < v.len()
        invariant
            1 <= i <= v@.len(),
            v@.len() == orig.len(),
            v@.to_multiset() == orig.to_multiset(),
            rows_sorted(v@.subrange(0, i as int)),
        decreases v@.len() - i,
    {
        proof {
            assert forall|p: int, q: int| 0 <= p < q <= i && q != i implies #[trigger] row_le(
                v@[p],
                v@[q],
            ) by {
                assert(v@.subrange(0, i as int)[p] == v@[p]);
                assert(v@.subrange(0, i as int)[q] == v@[q]);
                assert(row_le(v@.subrange(0, i as int)[p], v@.subrange(0, i as int)[q]));
            }
        }
        let mut j: usize = i;
        while j > 0 && !row_le_exec(&v[j - 1], &v[j])
            invariant
                j <= i < v@.len(),
                v@.len() == orig.len(),
                v@.to_multiset() == orig.to_multiset(),
                forall|p: int, q: int|
                    0 <= p < q <= i && q != j ==> #[trigger] row_le(v@[p], v@[q]),
                forall|q: int| j < q <= i ==> #[trigger] row_le(v@[j as int], v@[q]),
            decreases j,
        {
            proof {
                lemma_row_le_total(v@[j - 1], v@[j as int]);
            }
            let ghost before = v@;
            let x = v.remove(j - 1);
            v.insert(j, x);
            proof {
                broadcast use vstd::multiset::group_multiset_axioms;

                let x = before[j - 1];
                assert(v@ =~= before.remove(j - 1).insert(j as int, x));
                vstd::seq_lib::to_multiset_remove(before, j - 1);
                vstd::seq_lib::to_multiset_insert(before.remove(j - 1), j as int, x);
                assert(before.remove(j - 1).to_multiset() == before.to_multiset().remove(x));
                assert(v@.to_multiset() == before.remove(j - 1).to_multiset().insert(x));
                assert(before.contains(x)) by {
                    assert(before[j - 1] == x);
                }
                vstd::seq_lib::to_multiset_contains(before, x);
                assert(before.to_multiset().count(x) > 0);
                assert(before.to_multiset().remove(x).insert(x) =~= before.to_multiset());
                assert(v@.to_multiset() == before.to_multiset());
            }
            j = j - 1;
        }
        proof {
            assert forall|p: int, q: int| 0 <= p < q <= i implies #[trigger] row_le(
                v@[p],
                v@[q],
            ) by {
                if q == j {
                    assert(row_le(v@[j - 1], v@[j as int]));
                    if p < j - 1 {
                        assert(row_le(v@[p], v@[j - 1]));
                        lemma_row_le_trans(v@[p], v@[j - 1], v@[j as int]);
                    }
                }
            }
            assert(rows_sorted(v@.subrange(0, i + 1))) by {
                assert forall|p: int, q: int|
                    0 <= p < q < v@.subrange(0, i + 1).len() implies #[trigger] row_le(
                    v@.subrange(0, i + 1)[p],
                    v@.subrange(0, i + 1)[q],
                ) by {
                    assert(v@.subrange(0, i + 1)[p] == v@[p]);
                    assert(v@.subrange(0, i + 1)[q] == v@[q]);
                }
            }
        }
        i = i + 1;
    }
    proof {
        assert(v@.subrange(0, v@.len() as int) =~= v@);
        assert forall|k: int| 0 <= k < v@.len() implies #[trigger] orig.contains(v@[k]) by {
            assert(v@.contains(v@[k]));
            vstd::seq_lib::to_multiset_contains(v@, v@[k]);
            vstd::seq_lib::to_multiset_contains(orig, v@[k]);
        }
    }
    v
}

/// An ordered sequence of rows together with the request path it was
/// produced for; constructed per request and discarded after
/// rendering.
pub struct Listing {
    pub entries: Vec<FileRow>,
    pub request_path: String,
}

impl Listing {
    /// A listing is well formed when its rows stand in the listing
    /// order.
    pub open spec fn wf(self) -> bool {
        rows_sorted(self.entries@)
    }

    /// Builds the listing for a directory from the rows the caller
    /// enumerated, establishing the order and keeping every row.
    pub fn new(rows: Vec<FileRow>, request_path: String) -> (r: Listing)
        ensures
            r.wf(),
            r.entries@.to_multiset() == rows@.to_multiset(),
            r.entries@.len() == rows@.len(),
            forall|k: int| 0 <= k < r.entries@.len() ==> #[trigger] rows@.contains(r.entries@[k]),
            r.request_path@ == request_path@,
    {
        Listing { entries: sort_rows(rows), request_path }
    }
}

} // verus!
