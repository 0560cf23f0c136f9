//! Download metadata: the content type, the suggested filename and
//! the disposition header value of a file about to be streamed.  The
//! caller opens the file and performs a zero-length probe read; the
//! outcome of both decides here whether the transfer is committed.

use vstd::prelude::*;

use crate::errors::ServeError;

verus! {

/// The best-effort MIME type guessed from a path's extension, with a
/// generic binary type as the fallback.  The guess is a table lookup,
/// a function of the path alone.
pub uninterp spec fn mime_of(path: Seq<char>) -> Seq<char>;

/// Relies on `mime_guess::from_path` and
/// `MimeGuess::first_or_octet_stream`: a static table lookup on the
/// path's extension, a function of the path alone, named [`mime_of`];
/// an unknown extension falls back to `application/octet-stream`.
#[verifier::external_body]
fn guess_mime(path: &str) -> (r: String)
    ensures
        r@ == mime_of(path@),
{
    mime_guess::from_path(path).first_or_octet_stream().to_string()
}

/// What stands after the last separator of a path; empty for a path
/// that ends in a separator.
pub open spec fn last_segment(s: Seq<char>) -> Seq<char>
    decreases s.len(),
{
    if s.len() == 0 {
        s
    } else if s.last() == '/' {
        Seq::empty()
    } else {
        last_segment(s.drop_last()).push(s.last())
    }
}

/// The name offered to the client's save dialog: the final segment of
/// the resolved path, never the raw request string; a fixed fallback
/// where the path has no final segment.
pub open spec fn spec_suggested_filename(s: Seq<char>) -> Seq<char> {
    if last_segment(s).len() == 0 {
        "download"@
    } else {
        last_segment(s)
    }
}

/// Law: what stands after the last separator holds no separator
/// itself.
pub proof fn lemma_last_segment_no_separator(s: Seq<char>, j: int)
    requires
        0 <= j < last_segment(s).len(),
    ensures
        last_segment(s)[j] != '/',
    decreases s.len(),
{
    if s.len() == 0 {
    } else if s.last() == '/' {
    } else {
        if j < last_segment(s).len() - 1 {
            lemma_last_segment_no_separator(s.drop_last(), j);
        }
    }
}

/// Law: the suggested filename is never empty.
pub proof fn lemma_suggested_filename_nonempty(s: Seq<char>)
    ensures
        spec_suggested_filename(s).len() > 0,
{
    if last_segment(s).len() == 0 {
        reveal_strlit("download");
    }
}

/// Law: the suggested filename never carries a separator, so the
/// disposition header can leak no path structure.
pub proof fn lemma_suggested_filename_no_separator(s: Seq<char>, j: int)
    requires
        0 <= j < spec_suggested_filename(s).len(),
    ensures
        spec_suggested_filename(s)[j] != '/',
{
    if last_segment(s).len() == 0 {
        reveal_strlit("download");
        assert(spec_suggested_filename(s) =~= "download"@);
        assert("download"@[j] != '/');
    } else {
        lemma_last_segment_no_separator(s, j);
    }
}

/// A suffix that holds no separator and starts right after one (or at
/// the start of the path) is the last segment.
proof fn lemma_last_segment_suffix(s: Seq<char>, k: int)
    requires
        0 <= k <= s.len(),
        forall|j: int| k <= j < s.len() ==> s[j] != '/',
        k == 0 || s[k - 1] == '/',
    ensures
        last_segment(s) == s.subrange(k, s.len() as int),
    decreases s.len(),
{
    let n = s.len() as int;
    if n == 0 {
        assert(s.subrange(0, 0) =~= s);
    } else if s.last() == '/' {
        assert(k == n);
        assert(s.subrange(n, n) =~= Seq::<char>::empty());
    } else {
        assert(k < n);
        lemma_last_segment_suffix(s.drop_last(), k);
        assert(s.drop_last().subrange(k, n - 1) =~= s.subrange(k, n - 1));
        assert(s.subrange(k, n - 1).push(s.last()) =~= s.subrange(k, n));
    }
}

/// Extracts the suggested filename from a resolved path.
pub fn suggested_filename(path: &str) -> (r: String)
    ensures
        r@ == spec_suggested_filename(path@),
{
    let n = path.unicode_len();
    let mut k: usize = n;
    while k > 0 && path.get_char(k - 1) != '/'
        invariant
            k <= n,
            n == path@.len(),
            forall|j: int| k <= j < n ==> path@[j] != '/',
        decreases k,
    {
        k = k - 1;
    }
    proof {
        lemma_last_segment_suffix(path@, k as int);
    }
    if k == n {
        String::from_str("download")
    } else {
        String::from_str(path.substring_char(k, n))
    }
}

/// The value of the disposition header for an attachment with the
/// given filename.
pub open spec fn spec_disposition(name: Seq<char>) -> Seq<char> {
    "attachment; filename=\""@ + name + "\""@
}

/// Builds the disposition header value for a suggested filename.
pub fn content_disposition(filename: &str) -> (r: String)
    ensures
        r@ == spec_disposition(filename@),
{
    let mut r = String::from_str("attachment; filename=\"");
    r.append(filename);
    r.append("\"");
    r
}

/// Everything the transport needs besides the bytes themselves.
pub struct DownloadInfo {
    pub mime: String,
    pub filename: String,
    pub disposition: String,
}

/// The metadata of a committed download is exactly determined by the
/// canonical path.
pub open spec fn download_info_ok(info: DownloadInfo, canon_path: Seq<char>) -> bool {
    &&& info.mime@ == mime_of(canon_path)
    &&& info.filename@ == spec_suggested_filename(canon_path)
    &&& info.disposition@ == spec_disposition(spec_suggested_filename(canon_path))
}

/// Decides a download from the outcome of opening the resolved file
/// and of the zero-length probe read, and computes its metadata.  A
/// file that could not be opened is reported absent; one that opened
/// but failed the probe is an internal failure; otherwise the
/// transfer is committed with its exact metadata.
pub fn prepare_download(canon_path: &str, opened: bool, probe_ok: bool) -> (r: Result<
    DownloadInfo,
    ServeError,
>)
    ensures
        !opened ==> r == Err::<DownloadInfo, ServeError>(ServeError::NotFound),
        opened && !probe_ok ==> r == Err::<DownloadInfo, ServeError>(ServeError::IoFailure),
        opened && probe_ok ==> r is Ok && download_info_ok(r->Ok_0, canon_path@),
{
    if !opened {
        return Err(ServeError::NotFound);
    }
    if !probe_ok {
        return Err(ServeError::IoFailure);
    }
    let filename = suggested_filename(canon_path);
    let disposition = content_disposition(filename.as_str());
    let mime = guess_mime(canon_path);
    Ok(DownloadInfo { mime, filename, disposition })
}

} // verus!
