use file_serve::listing::FileRow;
use file_serve::render::{
    back_button_html, breadcrumb_html, error_page, render_page, render_row, replace_all,
    title_suffix,
};

#[test]
fn replace_substitutes_every_occurrence() {
    assert_eq!(replace_all("a{x}b{x}c", "{x}", "1"), "a1b1c");
    assert_eq!(replace_all("{x}{x}", "{x}", "y"), "yy");
}

#[test]
fn replace_without_occurrence_changes_nothing() {
    assert_eq!(replace_all("plain", "{x}", "1"), "plain");
    assert_eq!(replace_all("", "{x}", "1"), "");
}

#[test]
fn replace_with_empty_pattern_changes_nothing() {
    assert_eq!(replace_all("abc", "", "1"), "abc");
}

#[test]
fn replace_finds_leftmost_without_overlap() {
    assert_eq!(replace_all("aaa", "aa", "b"), "ba");
    assert_eq!(replace_all("aaaa", "aa", "b"), "bb");
}

#[test]
fn replacement_text_is_not_rescanned() {
    assert_eq!(replace_all("x{p}y", "{p}", "{p}{p}"), "x{p}{p}y");
}

#[test]
fn error_page_escapes_the_message() {
    assert_eq!(
        error_page("<body>{error_message}</body>", "bad <script>"),
        "<body>bad &lt;script&gt;</body>"
    );
}

#[test]
fn breadcrumb_at_root_is_home_alone() {
    assert_eq!(breadcrumb_html(""), "<a href=\"/\">Home</a>");
}

#[test]
fn breadcrumb_links_every_prefix_but_the_last() {
    assert_eq!(
        breadcrumb_html("docs/sub"),
        "<a href=\"/\">Home</a> / <a href=\"/browse/docs\">docs</a> / sub"
    );
}

#[test]
fn breadcrumb_encodes_links_and_escapes_names() {
    assert_eq!(
        breadcrumb_html("my dir/a<b"),
        "<a href=\"/\">Home</a> / <a href=\"/browse/my%20dir\">my dir</a> / a&lt;b"
    );
}

#[test]
fn back_button_is_absent_at_the_root() {
    assert_eq!(back_button_html(""), "");
}

#[test]
fn back_button_of_a_top_level_path_points_home() {
    assert_eq!(
        back_button_html("docs"),
        "<p><a class=\"btn btn-secondary\" href=\"/\">\u{2190} Back</a></p>"
    );
}

#[test]
fn back_button_points_to_the_parent() {
    assert_eq!(
        back_button_html("docs/sub"),
        "<p><a class=\"btn btn-secondary\" href=\"/browse/docs\">\u{2190} Back</a></p>"
    );
}

#[test]
fn title_suffix_names_the_path_or_home() {
    assert_eq!(title_suffix(""), " - home");
    assert_eq!(title_suffix("docs/sub"), " - docs/sub");
    assert_eq!(title_suffix("a<b"), " - a&lt;b");
}

#[test]
fn file_row_markup_is_exact() {
    let row = FileRow {
        name: "a b.txt".to_string(),
        size: 2048,
        modified: None,
        is_dir: false,
    };
    assert_eq!(
        render_row(&row, "docs", "2024-01-01 00:00:00"),
        "<tr>\n  <td class=\"truncate\">\u{1F4C4} a b.txt</td>\n  <td>2.00 KB</td>\n  \
         <td>2024-01-01 00:00:00</td>\n  <td><a class=\"btn\"href=\"/download/docs/a%20b%2Etxt\"\
         >Download<a></td>\n</tr>"
    );
}

#[test]
fn directory_row_markup_is_exact() {
    let row = FileRow {
        name: "sub".to_string(),
        size: 0,
        modified: None,
        is_dir: true,
    };
    assert_eq!(
        render_row(&row, "", "-"),
        "<tr>\n  <td class=\"truncate\">\u{1F4C1} sub</td>\n  <td>-</td>\n  <td>-</td>\n  \
         <td><a class=\"btn\"href=\"/browse/sub\">Open<a></td>\n</tr>"
    );
}

#[test]
fn page_template_placeholders_are_filled() {
    let template = "T{title_suffix}|{breadcrumb}|{back_button}|{file_rows}E";
    assert_eq!(
        render_page(template, "", "R"),
        "T - home|<a href=\"/\">Home</a>||RE"
    );
}

#[test]
fn page_of_a_subdirectory_has_breadcrumb_and_back_button() {
    let template = "{breadcrumb}#{back_button}";
    assert_eq!(
        render_page(template, "docs", ""),
        "<a href=\"/\">Home</a> / docs#<p><a class=\"btn btn-secondary\" href=\"/\">\u{2190} \
         Back</a></p>"
    );
}
