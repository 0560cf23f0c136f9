use file_serve::download::{content_disposition, prepare_download, suggested_filename};
use file_serve::errors::ServeError;

#[test]
fn filename_is_the_final_segment() {
    assert_eq!(suggested_filename("/srv/files/report.pdf"), "report.pdf");
    assert_eq!(suggested_filename("/srv/files/docs/a b.txt"), "a b.txt");
}

#[test]
fn filename_without_separator_is_the_whole_path() {
    assert_eq!(suggested_filename("report.pdf"), "report.pdf");
}

#[test]
fn filename_falls_back_where_no_segment_remains() {
    assert_eq!(suggested_filename("/"), "download");
    assert_eq!(suggested_filename(""), "download");
}

#[test]
fn disposition_quotes_the_filename() {
    assert_eq!(
        content_disposition("report.pdf"),
        "attachment; filename=\"report.pdf\""
    );
}

#[test]
fn committed_download_carries_exact_metadata() {
    let info = prepare_download("/srv/files/notes.txt", true, true).unwrap();
    assert_eq!(info.mime, "text/plain");
    assert_eq!(info.filename, "notes.txt");
    assert_eq!(info.disposition, "attachment; filename=\"notes.txt\"");
}

#[test]
fn known_extensions_get_their_mime_type() {
    let info = prepare_download("/srv/a.pdf", true, true).unwrap();
    assert_eq!(info.mime, "application/pdf");
    let info = prepare_download("/srv/a.html", true, true).unwrap();
    assert_eq!(info.mime, "text/html");
}

#[test]
fn unknown_extensions_fall_back_to_octet_stream() {
    let info = prepare_download("/srv/files/blob.zzqq", true, true).unwrap();
    assert_eq!(info.mime, "application/octet-stream");
}

#[test]
fn unopened_file_is_not_found() {
    let r = prepare_download("/srv/files/gone.txt", false, false);
    assert_eq!(r.err(), Some(ServeError::NotFound));
}

#[test]
fn failed_probe_is_an_io_failure() {
    let r = prepare_download("/srv/files/locked.txt", true, false);
    assert_eq!(r.err(), Some(ServeError::IoFailure));
}
