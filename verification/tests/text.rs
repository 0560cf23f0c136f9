use file_serve::text::{bytes_to_human_size, encode_path_segment, html_escape, u64_to_string};

#[test]
fn escape_replaces_the_five_markup_characters() {
    assert_eq!(
        html_escape("<b>\"x\" & 'y'</b>"),
        "&lt;b&gt;&quot;x&quot; &amp; &#39;y&#39;&lt;/b&gt;"
    );
}

#[test]
fn escape_leaves_plain_text_alone() {
    assert_eq!(html_escape("plain name 123.txt"), "plain name 123.txt");
    assert_eq!(html_escape(""), "");
}

#[test]
fn escape_keeps_non_ascii_characters() {
    assert_eq!(html_escape("caf\u{e9} <1>"), "caf\u{e9} &lt;1&gt;");
}

#[test]
fn decimal_rendering_is_exact() {
    assert_eq!(u64_to_string(0), "0");
    assert_eq!(u64_to_string(7), "7");
    assert_eq!(u64_to_string(1024), "1024");
    assert_eq!(u64_to_string(u64::MAX), "18446744073709551615");
}

#[test]
fn small_sizes_are_plain_bytes() {
    assert_eq!(bytes_to_human_size(0), "0 B");
    assert_eq!(bytes_to_human_size(1), "1 B");
    assert_eq!(bytes_to_human_size(1023), "1023 B");
}

#[test]
fn kilobyte_sizes_have_two_decimals() {
    assert_eq!(bytes_to_human_size(1024), "1.00 KB");
    assert_eq!(bytes_to_human_size(1536), "1.50 KB");
    assert_eq!(bytes_to_human_size(1500), "1.46 KB");
}

#[test]
fn size_just_under_the_next_bracket_rounds_up() {
    assert_eq!(bytes_to_human_size(1048575), "1024.00 KB");
}

#[test]
fn exact_halves_round_to_even() {
    // 1152 / 1024 = 1.125 exactly; 1408 / 1024 = 1.375 exactly
    assert_eq!(bytes_to_human_size(1152), "1.12 KB");
    assert_eq!(bytes_to_human_size(1408), "1.38 KB");
}

#[test]
fn each_bracket_has_its_suffix() {
    assert_eq!(bytes_to_human_size(1048576), "1.00 MB");
    assert_eq!(bytes_to_human_size(1073741824), "1.00 GB");
    assert_eq!(bytes_to_human_size(1099511627776), "1.00 TB");
    assert_eq!(bytes_to_human_size(1125899906842624), "1.00 PB");
}

#[test]
fn huge_sizes_stay_in_the_last_bracket() {
    assert_eq!(bytes_to_human_size(u64::MAX), "16384.00 PB");
}

#[test]
fn encoding_percent_escapes_non_alphanumerics() {
    assert_eq!(encode_path_segment("foo bar?"), "foo%20bar%3F");
    assert_eq!(encode_path_segment("a-b_c.txt"), "a%2Db%5Fc%2Etxt");
}

#[test]
fn encoding_leaves_alphanumerics_alone() {
    assert_eq!(encode_path_segment("Photos2024"), "Photos2024");
    assert_eq!(encode_path_segment(""), "");
}

#[test]
fn encoding_uses_utf8_bytes_with_uppercase_hex() {
    assert_eq!(encode_path_segment("\u{fc}"), "%C3%BC");
    assert_eq!(encode_path_segment("a/b"), "a%2Fb");
}
