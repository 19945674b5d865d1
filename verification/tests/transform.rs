use lineutils::stream::{Sink, Source};
use lineutils::text::split_lines;
use lineutils::transform::{Cat, CatError};

fn s(v: &[&str]) -> Vec<String> {
    v.iter().map(|x| x.to_string()).collect()
}

fn cat(number_lines: bool, end_lines: bool) -> Cat {
    Cat {
        outfile: Sink::Stdout,
        files_to_read: Vec::new(),
        number_lines,
        end_lines,
    }
}

#[test]
fn numbering_and_end_marker_together() {
    let c = cat(true, true);
    assert_eq!(c.render_file(&b"a\nb".to_vec()), b"1.a$\n2.b$\n".to_vec());
}

#[test]
fn raw_copy_keeps_bytes_exactly() {
    let c = cat(false, false);
    let no_trailing = b"alpha\nbeta".to_vec();
    assert_eq!(c.render_file(&no_trailing), no_trailing);
    let trailing = b"alpha\nbeta\n".to_vec();
    assert_eq!(c.render_file(&trailing), trailing);
    assert_eq!(c.render_file(&Vec::new()), Vec::<u8>::new());
}

#[test]
fn end_marker_alone() {
    let c = cat(false, true);
    assert_eq!(c.render_file(&b"a\nb\n".to_vec()), b"a$\nb$\n".to_vec());
}

#[test]
fn numbering_alone() {
    let c = cat(true, false);
    assert_eq!(c.render_file(&b"one\ntwo\nthree\n".to_vec()), b"1.one\n2.two\n3.three\n".to_vec());
}

#[test]
fn ten_plus_lines_number_in_decimal() {
    let c = cat(true, false);
    let content = b"a\na\na\na\na\na\na\na\na\nz\n".to_vec();
    let out = c.render_file(&content);
    assert!(out.ends_with(b"10.z\n"));
}

#[test]
fn stdin_line_is_chomped_and_rendered() {
    let both = cat(true, true);
    assert_eq!(both.render_stdin_line(&b"hi\n".to_vec(), 1), b"1.hi$\n".to_vec());
    let plain = cat(false, false);
    assert_eq!(plain.render_stdin_line(&b"hi\n".to_vec(), 7), b"hi\n".to_vec());
    assert_eq!(plain.render_stdin_line(&b"hi".to_vec(), 7), b"hi\n".to_vec());
}

#[test]
fn split_lines_drops_terminators() {
    assert_eq!(split_lines(&b"a\nb\n".to_vec()), vec![b"a".to_vec(), b"b".to_vec()]);
    assert_eq!(split_lines(&b"a\nb".to_vec()), vec![b"a".to_vec(), b"b".to_vec()]);
    assert_eq!(split_lines(&b"\n\n".to_vec()), vec![Vec::<u8>::new(), Vec::<u8>::new()]);
    assert!(split_lines(&Vec::new()).is_empty());
}

#[test]
fn new_defaults_to_stdin_source() {
    let c = Cat::new(s(&["cat"])).unwrap();
    assert_eq!(c.files_to_read.len(), 1);
    assert!(matches!(c.files_to_read[0], Source::Stdin));
    assert!(matches!(c.outfile, Sink::Stdout));
    assert!(!c.number_lines);
    assert!(!c.end_lines);
}

#[test]
fn new_keeps_sources_in_order() {
    let c = Cat::new(s(&["cat", "first.txt", "-", "second.txt"])).unwrap();
    assert_eq!(c.files_to_read.len(), 3);
    assert!(matches!(&c.files_to_read[0], Source::FileName(f) if f == "first.txt"));
    assert!(matches!(&c.files_to_read[1], Source::Stdin));
    assert!(matches!(&c.files_to_read[2], Source::FileName(f) if f == "second.txt"));
}

#[test]
fn cat_new_reads_flags() {
    let c = Cat::new(s(&["cat", "-n", "-E", "notes.txt"])).unwrap();
    assert!(c.number_lines);
    assert!(c.end_lines);
    let e = Cat::new(s(&["cat", "-e"])).unwrap();
    assert!(e.end_lines);
    let long = Cat::new(s(&["cat", "--number-lines", "--End-of-the-line"])).unwrap();
    assert!(long.number_lines && long.end_lines);
}

#[test]
fn cat_new_reads_output_file() {
    let c = Cat::new(s(&["cat", "-o", "out.txt", "in.txt"])).unwrap();
    assert!(matches!(c.outfile, Sink::FileName(f) if f == "out.txt"));
}

#[test]
fn cat_new_requires_a_name_after_output_flag() {
    assert!(matches!(Cat::new(s(&["cat", "-o"])), Err(CatError::NoOutFile)));
}

#[test]
fn cat_new_rejects_unknown_flag() {
    let r = Cat::new(s(&["cat", "--zip"]));
    assert!(matches!(r, Err(CatError::UnknownArgument(a)) if a == "--zip"));
}

#[test]
fn cat_messages_read_as_reported() {
    assert_eq!(
        CatError::UnknownArgument("--zip".to_string()).message(),
        "cat: unknown argument: --zip"
    );
    assert_eq!(CatError::NoOutFile.message(), "cat: need [OUTPUT] file near the [TO]");
}
