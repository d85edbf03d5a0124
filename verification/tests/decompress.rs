use cloudgrepper::decompress::{decode_ignore, detect, normalize_newlines, split_lines, texts, DecompressError, FileKind};
use std::io::Write;

#[test]
fn decode_ignore_drops_invalid_bytes() {
    assert_eq!(decode_ignore(b"ab\xffcd"), "abcd");
    assert_eq!(decode_ignore("héllo".as_bytes()), "héllo");
}

#[test]
fn detect_by_extension() {
    assert_eq!(detect("logs/a.log.gz"), FileKind::Gzip);
    assert_eq!(detect("a.zip"), FileKind::Zip);
    assert_eq!(detect("a.log"), FileKind::Plain);
}

#[test]
fn split_lines_keeps_newlines() {
    assert_eq!(split_lines("a\nb\nc"), vec!["a\n", "b\n", "c"]);
    assert_eq!(split_lines("a\n"), vec!["a\n"]);
    assert_eq!(split_lines(""), Vec::<String>::new());
}

#[test]
fn normalize_newlines_crlf() {
    let data = b"alpha\r\nbeta\r\n";
    let t = texts(data, FileKind::Plain).unwrap();
    assert_eq!(t.len(), 1);
    assert_eq!(t[0], "alpha\nbeta\n");
    let lines = split_lines(&t[0]);
    assert_eq!(lines, vec!["alpha\n", "beta\n"]);
}

#[test]
fn normalize_newlines_lone_cr() {
    let data = b"a\rb";
    let t = texts(data, FileKind::Plain).unwrap();
    assert_eq!(t.len(), 1);
    assert_eq!(t[0], "a\nb");
}

#[test]
fn normalize_newlines_mixed() {
    let data = b"x\r\r\ny";
    let t = texts(data, FileKind::Plain).unwrap();
    assert_eq!(t[0], "x\n\ny");
}

#[test]
fn normalize_newlines_directly() {
    assert_eq!(normalize_newlines("a\r\r\nb\rc\r\n".to_string()), "a\n\nb\nc\n");
    assert_eq!(normalize_newlines("plain".to_string()), "plain");
}

fn gzip(data: &[u8]) -> Vec<u8> {
    let mut enc = flate2::write::GzEncoder::new(Vec::new(), flate2::Compression::default());
    enc.write_all(data).unwrap();
    enc.finish().unwrap()
}

fn zip_with_dir(members: &[(&str, &[u8])]) -> Vec<u8> {
    let mut w = zip::ZipWriter::new(std::io::Cursor::new(Vec::new()));
    w.add_directory("sub/", zip::write::SimpleFileOptions::default()).unwrap();
    for (name, data) in members {
        w.start_file(*name, zip::write::SimpleFileOptions::default()).unwrap();
        w.write_all(data).unwrap();
    }
    w.finish().unwrap().into_inner()
}

#[test]
fn gzip_texts_are_unpacked_decoded_and_normalized() {
    let t = texts(&gzip(b"one\r\ntw\xffo\n"), FileKind::Gzip).unwrap();
    assert_eq!(t, vec!["one\ntwo\n".to_string()]);
}

#[test]
fn zip_texts_skip_directories_and_keep_member_order() {
    let data = zip_with_dir(&[("sub/a.log", b"A\r"), ("b.log", b"B")]);
    let t = texts(&data, FileKind::Zip).unwrap();
    assert_eq!(t, vec!["A\n".to_string(), "B".to_string()]);
}

#[test]
fn corrupt_archives_give_their_kind_of_error() {
    assert!(matches!(texts(b"not gzip", FileKind::Gzip), Err(DecompressError::Gzip)));
    assert!(matches!(texts(b"not zip", FileKind::Zip), Err(DecompressError::Zip)));
    assert_eq!(texts(b"", FileKind::Plain).unwrap(), vec![String::new()]);
}

#[test]
fn decode_ignore_drops_truncated_and_surrogate_sequences() {
    assert_eq!(decode_ignore(b"a\xe2\x82"), "a");
    assert_eq!(decode_ignore(b"\xed\xa0\x80x"), "x");
    assert_eq!(decode_ignore(b"\xf0\x9f\x98\x80!"), "\u{1F600}!");
    assert_eq!(decode_ignore(b"\xc0\xafz"), "z");
}

#[test]
fn normalizing_newlines_twice_changes_nothing_more() {
    let once = normalize_newlines("a\r\n\r\rb\n\r".to_string());
    assert_eq!(once, "a\n\n\nb\n\n");
    assert_eq!(normalize_newlines(once.clone()), once);
    let lines = split_lines(&once);
    assert_eq!(lines.concat(), once);
}
