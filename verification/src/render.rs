//! The computational side of the listing presenter: template
//! placeholder substitution, link-path encoding, breadcrumb and row
//! markup.  The transport and the template files stay with the
//! caller; every string handed back here is pinned by its contract.

use vstd::prelude::*;

use crate::listing::FileRow;
use crate::resolve::{path_segments, spec_segments};
use crate::text::{
    bytes_to_human_size, encode_path_segment, escape_seq, html_escape, percent_encoded,
    spec_human_size,
};
use vstd::utf8::encode_utf8;

verus! {

/// A path segment as it stands inside a generated link: the
/// percent-encoded form of its UTF-8 bytes.
pub open spec fn seg_encoded(seg: Seq<char>) -> Seq<char> {
    percent_encoded(encode_utf8(seg))
}

/// Encoded segments joined by separators, the relative path a link
/// carries.
pub open spec fn enc_join(segs: Seq<Seq<char>>) -> Seq<char>
    decreases segs.len(),
{
    if segs.len() == 0 {
        Seq::empty()
    } else if segs.len() == 1 {
        seg_encoded(segs[0])
    } else {
        enc_join(segs.drop_last()) + seq!['/'] + seg_encoded(segs.last())
    }
}

/// Joins the first `upto` segments, each percent-encoded, with
/// separators.
fn join_encoded_prefix(parts: &Vec<String>, upto: usize) -> (r: String)
    requires
        upto <= parts@.len(),
    ensures
        r@ == enc_join(parts@.map_values(|x: String| x@).subrange(0, upto as int)),
{
    let ghost mv = parts@.map_values(|x: String| x@);
    let mut r = String::new();
    let mut i: usize = 0;
    proof {
        assert(mv.subrange(0, 0) =~= Seq::<Seq<char>>::empty());
    }
    while i < upto
        invariant
            i <= upto,
            upto <= parts@.len(),
            mv == parts@.map_values(|x: String| x@),
            r@ == enc_join(mv.subrange(0, i as int)),
        decreases upto - i,
    {
        let e = encode_path_segment(parts[i].as_str());
        proof {
            assert(mv[i as int] == parts@[i as int]@);
            assert(e@ == seg_encoded(mv[i as int]));
            assert(mv.subrange(0, i + 1).drop_last() =~= mv.subrange(0, i as int));
            assert(mv.subrange(0, i + 1).last() == mv[i as int]);
        }
        if i > 0 {
            r.append("/");
            proof {
                reveal_strlit("/");
                assert("/"@ =~= seq!['/']);
            }
        } else {
            proof {
                assert(mv.subrange(0, 1).len() == 1);
            }
        }
        r.append(e.as_str());
        i = i + 1;
    }
    r
}

/// Every non-overlapping occurrence of `p` in `s`, found left to
/// right, replaced by `w`.
pub open spec fn spec_replace(s: Seq<char>, p: Seq<char>, w: Seq<char>) -> Seq<char>
    decreases s.len(),
{
    if p.len() == 0 || s.len() == 0 {
        s
    } else if s.len() >= p.len() && s.subrange(0, p.len() as int) == p {
        w + spec_replace(s.skip(p.len() as int), p, w)
    } else {
        seq![s[0]] + spec_replace(s.drop_first(), p, w)
    }
}

/// Whether `pat` stands in `hay` at position `i`.
fn occurs_at(hay: &str, pat: &str, i: usize) -> (b: bool)
    requires
        i + pat@.len() <= hay@.len(),
        hay@.len() <= usize::MAX,
    ensures
        b == (hay@.subrange(i as int, i + pat@.len()) == pat@),
{
    let m = pat.unicode_len();
    let mut k: usize = 0;
    while k < m
        invariant
            k <= m,
            m == pat@.len(),
            i + m <= hay@.len(),
            hay@.len() <= usize::MAX,
            forall|j: int| 0 <= j < k ==> hay@[i + j] == pat@[j],
        decreases m - k,
    {
        if hay.get_char(i + k) != pat.get_char(k) {
            assert(hay@.subrange(i as int, i + pat@.len())[k as int] != pat@[k as int]);
            return false;
        }
        k = k + 1;
    }
    assert(hay@.subrange(i as int, i + pat@.len()) =~= pat@);
    true
}

/// Replaces every occurrence of `pat` in `hay` with `with`, left to
/// right and without overlap, exactly as [`spec_replace`] describes.
pub fn replace_all(hay: &str, pat: &str, with: &str) -> (r: String)
    ensures
        r@ == spec_replace(hay@, pat@, with@),
{
    let n = hay.unicode_len();
    let m = pat.unicode_len();
    if m == 0 {
        return String::from_str(hay);
    }
    let mut r = String::new();
    let mut i: usize = 0;
    proof {
        assert(hay@.skip(0) =~= hay@);
        assert(Seq::<char>::empty() + spec_replace(hay@, pat@, with@) =~= spec_replace(
            hay@,
            pat@,
            with@,
        ));
    }
    while i < n
        invariant
            i <= n,
            n == hay@.len(),
            m == pat@.len(),
            m > 0,
            r@ + spec_replace(hay@.skip(i as int), pat@, with@) == spec_replace(
                hay@,
                pat@,
                with@,
            ),
        decreases n - i,
    {
        let ghost rem = hay@.skip(i as int);
        let ghost r0 = r@;
        proof {
            assert(rem.len() == n - i);
        }
        if m <= n - i && occurs_at(hay, pat, i) {
            r.append(with);
            proof {
                assert(rem.subrange(0, m as int) =~= hay@.subrange(i as int, i + m));
                assert(rem.skip(m as int) =~= hay@.skip(i + m));
                assert(spec_replace(rem, pat@, with@) == with@ + spec_replace(
                    hay@.skip(i + m),
                    pat@,
                    with@,
                ));
                assert(r@ + spec_replace(hay@.skip(i + m), pat@, with@) =~= r0 + (with@
                    + spec_replace(hay@.skip(i + m), pat@, with@)));
            }
            i = i + m;
        } else {
            r.append(hay.substring_char(i, i + 1));
            proof {
                assert(hay@.subrange(i as int, i + 1) =~= seq![hay@[i as int]]);
                if i + m <= n as int {
                    assert(rem.subrange(0, m as int) =~= hay@.subrange(i as int, i + m));
                    assert(rem.subrange(0, m as int) != pat@);
                }
                assert(rem[0] == hay@[i as int]);
                assert(rem.drop_first() =~= hay@.skip(i + 1));
                assert(spec_replace(rem, pat@, with@) == seq![hay@[i as int]] + spec_replace(
                    hay@.skip(i + 1),
                    pat@,
                    with@,
                ));
                assert(r@ + spec_replace(hay@.skip(i + 1), pat@, with@) =~= r0 + (seq![
                    hay@[i as int],
                ] + spec_replace(hay@.skip(i + 1), pat@, with@)));
            }
            i = i + 1;
        }
    }
    proof {
        assert(hay@.skip(n as int).len() == 0);
        assert(r@ + spec_replace(hay@.skip(n as int), pat@, with@) =~= r@);
    }
    r
}

/// The breadcrumb items from segment `i` on: each preceded by a
/// separator, each but the last a link to its own prefix of the path,
/// the last plain text.  Every name is entity-escaped, every link
/// path percent-encoded.
pub open spec fn spec_breadcrumb_items(segs: Seq<Seq<char>>, i: int) -> Seq<char>
    decreases segs.len() - i,
    when 0 <= i <= segs.len()
{
    if i >= segs.len() {
        Seq::empty()
    } else {
        " / "@ + (if i == segs.len() - 1 {
            escape_seq(segs[i])
        } else {
            "<a href=\"/browse/"@ + enc_join(segs.subrange(0, i + 1)) + "\">"@ + escape_seq(
                segs[i],
            ) + "</a>"@
        }) + spec_breadcrumb_items(segs, i + 1)
    }
}

/// The whole breadcrumb: the home link, then one item per segment.
pub open spec fn spec_breadcrumb(segs: Seq<Seq<char>>) -> Seq<char> {
    "<a href=\"/\">Home</a>"@ + spec_breadcrumb_items(segs, 0)
}

/// Renders the breadcrumb navigation for a request path.
pub fn breadcrumb_html(current_path: &str) -> (r: String)
    ensures
        r@ == spec_breadcrumb(spec_segments(current_path@)),
{
    let parts = path_segments(current_path);
    let ghost segs = spec_segments(current_path@);
    let ghost mv = parts@.map_values(|x: String| x@);
    proof {
        assert(mv == segs);
    }
    let mut r = String::from_str("<a href=\"/\">Home</a>");
    let ghost whole = spec_breadcrumb(segs);
    let mut i: usize = 0;
    while i < parts.len()
        invariant
            i <= parts@.len(),
            mv == parts@.map_values(|x: String| x@),
            mv == segs,
            whole == spec_breadcrumb(segs),
            whole == r@ + spec_breadcrumb_items(segs, i as int),
        decreases parts@.len() - i,
    {
        let ghost r0 = r@;
        r.append(" / ");
        proof {
            assert(mv[i as int] == parts@[i as int]@);
        }
        if i == parts.len() - 1 {
            let escaped = html_escape(parts[i].as_str());
            r.append(escaped.as_str());
            proof {
                assert(r@ =~= r0 + (" / "@ + escape_seq(segs[i as int])));
            }
        } else {
            r.append("<a href=\"/browse/");
            let link = join_encoded_prefix(&parts, i + 1);
            r.append(link.as_str());
            r.append("\">");
            let escaped = html_escape(parts[i].as_str());
            r.append(escaped.as_str());
            r.append("</a>");
            proof {
                assert(r@ =~= r0 + (" / "@ + ("<a href=\"/browse/"@ + enc_join(
                    segs.subrange(0, i + 1),
                ) + "\">"@ + escape_seq(segs[i as int]) + "</a>"@)));
            }
        }
        i = i + 1;
    }
    r
}

/// What the back button renders to, as a function of the request
/// path.
pub open spec fn back_button_view(cp: Seq<char>) -> Seq<char> {
    if cp.len() == 0 {
        Seq::empty()
    } else {
        "<p><a class=\"btn btn-secondary\" href=\""@ + (if spec_segments(cp).len() <= 1 {
            "/"@
        } else {
            "/browse/"@ + enc_join(spec_segments(cp).drop_last())
        }) + "\">\u{2190} Back</a></p>"@
    }
}

/// Renders the back-navigation button: absent at the root, a link to
/// the parent path below it.
pub fn back_button_html(current_path: &str) -> (r: String)
    ensures
        r@ == back_button_view(current_path@),
{
    if current_path.unicode_len() == 0 {
        return String::new();
    }
    let parts = path_segments(current_path);
    let ghost segs = spec_segments(current_path@);
    let mut r = String::from_str("<p><a class=\"btn btn-secondary\" href=\"");
    if parts.len() <= 1 {
        r.append("/");
    } else {
        r.append("/browse/");
        let link = join_encoded_prefix(&parts, parts.len() - 1);
        r.append(link.as_str());
        proof {
            let mv = parts@.map_values(|x: String| x@);
            assert(mv.subrange(0, mv.len() - 1) =~= segs.drop_last());
        }
    }
    r.append("\">\u{2190} Back</a></p>");
    r
}

/// The relative path a row's link carries: the request path's
/// segments and the row's name, each percent-encoded.
pub open spec fn spec_row_link_path(cp: Seq<char>, name: Seq<char>) -> Seq<char> {
    if spec_segments(cp).len() == 0 {
        seg_encoded(name)
    } else {
        enc_join(spec_segments(cp)) + seq!['/'] + seg_encoded(name)
    }
}

/// One table row of the listing: icon and escaped name, the
/// human-readable size (a dash for a directory), the caller-rendered
/// date, and the browse or download link.
pub open spec fn spec_row_html(row: FileRow, cp: Seq<char>, date: Seq<char>) -> Seq<char> {
    "<tr>\n  <td class=\"truncate\">"@ + (if row.is_dir {
        "\u{1F4C1} "@
    } else {
        "\u{1F4C4} "@
    }) + escape_seq(row.name@) + "</td>\n  <td>"@ + (if row.is_dir {
        "-"@
    } else {
        spec_human_size(row.size)
    }) + "</td>\n  <td>"@ + date + "</td>\n  <td><a class=\"btn\"href=\"/"@ + (if row.is_dir {
        "browse/"@
    } else {
        "download/"@
    }) + spec_row_link_path(cp, row.name@) + "\">"@ + (if row.is_dir {
        "Open"@
    } else {
        "Download"@
    }) + "<a></td>\n</tr>"@
}

/// Renders one row of the listing.  The date string is rendered by
/// the caller (it depends on the machine's time zone) and is passed
/// through unchanged.
pub fn render_row(row: &FileRow, current_path: &str, date_str: &str) -> (r: String)
    ensures
        r@ == spec_row_html(*row, current_path@, date_str@),
{
    let mut r = String::from_str("<tr>\n  <td class=\"truncate\">");
    if row.is_dir {
        r.append("\u{1F4C1} ");
    } else {
        r.append("\u{1F4C4} ");
    }
    let escaped = html_escape(row.name.as_str());
    r.append(escaped.as_str());
    r.append("</td>\n  <td>");
    if row.is_dir {
        r.append("-");
    } else {
        let size_str = bytes_to_human_size(row.size);
        r.append(size_str.as_str());
    }
    r.append("</td>\n  <td>");
    r.append(date_str);
    r.append("</td>\n  <td><a class=\"btn\"href=\"/");
    if row.is_dir {
        r.append("browse/");
    } else {
        r.append("download/");
    }
    let parts = path_segments(current_path);
    let ghost segs = spec_segments(current_path@);
    if parts.len() == 0 {
        let e = encode_path_segment(row.name.as_str());
        r.append(e.as_str());
    } else {
        let link = join_encoded_prefix(&parts, parts.len());
        r.append(link.as_str());
        r.append("/");
        let e = encode_path_segment(row.name.as_str());
        r.append(e.as_str());
        proof {
            reveal_strlit("/");
            assert("/"@ =~= seq!['/']);
            let mv = parts@.map_values(|x: String| x@);
            assert(mv.subrange(0, mv.len() as int) =~= segs);
        }
    }
    r.append("\">");
    if row.is_dir {
        r.append("Open");
    } else {
        r.append("Download");
    }
    r.append("<a></td>\n</tr>");
    proof {
        assert(r@ =~= spec_row_html(*row, current_path@, date_str@));
    }
    r
}

/// The title suffix of the listing page: the escaped request path, or
/// a fixed marker at the root.
pub open spec fn spec_title_suffix(cp: Seq<char>) -> Seq<char> {
    if cp.len() == 0 {
        " - home"@
    } else {
        " - "@ + escape_seq(cp)
    }
}

/// Fills the listing template: the title suffix, the breadcrumb, the
/// back button and the row markup each take the place of their
/// placeholder, in that order.
pub open spec fn spec_rendered_page(
    template: Seq<char>,
    cp: Seq<char>,
    back: Seq<char>,
    rows: Seq<char>,
) -> Seq<char> {
    spec_replace(
        spec_replace(
            spec_replace(
                spec_replace(template, "{title_suffix}"@, spec_title_suffix(cp)),
                "{breadcrumb}"@,
                spec_breadcrumb(spec_segments(cp)),
            ),
            "{back_button}"@,
            back,
        ),
        "{file_rows}"@,
        rows,
    )
}

/// Renders the listing page from the template, the request path and
/// the concatenated row markup.
pub fn render_page(template: &str, current_path: &str, file_rows: &str) -> (r: String)
    ensures
        ({
            let back = back_button_view(current_path@);
            r@ == spec_rendered_page(template@, current_path@, back, file_rows@)
        }),
{
    let title = title_suffix(current_path);
    let breadcrumb = breadcrumb_html(current_path);
    let back = back_button_html(current_path);
    let step1 = replace_all(template, "{title_suffix}", title.as_str());
    let step2 = replace_all(step1.as_str(), "{breadcrumb}", breadcrumb.as_str());
    let step3 = replace_all(step2.as_str(), "{back_button}", back.as_str());
    replace_all(step3.as_str(), "{file_rows}", file_rows)
}

/// Renders the title suffix of the listing page.
pub fn title_suffix(current_path: &str) -> (r: String)
    ensures
        r@ == spec_title_suffix(current_path@),
{
    if current_path.unicode_len() == 0 {
        String::from_str(" - home")
    } else {
        let mut r = String::from_str(" - ");
        let escaped = html_escape(current_path);
        r.append(escaped.as_str());
        r
    }
}

/// Renders the error document: the message, entity-escaped, takes the
/// place of the template's placeholder.  Raw OS error text is never
/// handed in here; the caller passes the user-safe message.
pub fn error_page(template: &str, msg: &str) -> (r: String)
    ensures
        r@ == spec_replace(template@, "{error_message}"@, escape_seq(msg@)),
{
    let escaped = html_escape(msg);
    replace_all(template, "{error_message}", escaped.as_str())
}

} // verus!
