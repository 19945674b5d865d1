use lineutils::filter::{contains_sub, Grep, GrepError};
use lineutils::stream::{Sink, Source};

fn s(v: &[&str]) -> Vec<String> {
    v.iter().map(|x| x.to_string()).collect()
}

fn grep(pattern: &str, ignore_case: bool, count: bool, line_number: bool) -> Grep {
    Grep {
        pattern: pattern.to_string(),
        search_in: Source::Stdin,
        outfile: Sink::Stdout,
        ignore_case,
        count,
        line_number,
    }
}

#[test]
fn empty_pattern_matches_every_line() {
    let g = grep("", false, false, false);
    let content = b"alpha\nbeta\ngamma\n".to_vec();
    assert_eq!(g.run_file(&content), b"alpha\nbeta\ngamma\n".to_vec());
    assert_eq!(g.count_matches(&content), 3);
}

#[test]
fn literal_containment() {
    let g = grep("ab", false, false, false);
    assert_eq!(g.run_file(&b"xabz\n".to_vec()), b"xabz\n".to_vec());
    assert_eq!(g.run_file(&b"xaz\n".to_vec()), b"".to_vec());
}

#[test]
fn case_folding_matches_when_asked() {
    let folded = grep("AB", true, false, false);
    assert_eq!(folded.run_file(&b"xabz\n".to_vec()), b"xabz\n".to_vec());
    let exact = grep("AB", false, false, false);
    assert_eq!(exact.run_file(&b"xabz\n".to_vec()), b"".to_vec());
}

#[test]
fn numbered_output_counts_file_lines_from_one() {
    let g = grep("m", false, false, true);
    let content = b"match one\nnothing\nm again\n".to_vec();
    assert_eq!(g.run_file(&content), b"1:match one\n3:m again\n".to_vec());
}

#[test]
fn count_mode_reports_matching_lines() {
    let g = grep("m", false, true, false);
    let content = b"match\nno\nm\n".to_vec();
    assert_eq!(g.run_count(&content), b"2\n".to_vec());
}

#[test]
fn count_mode_on_stdin_reports_zero() {
    let g = grep("anything", false, true, false);
    assert_eq!(g.run_count_stdin(), b"0\n".to_vec());
}

#[test]
fn stdin_lines_number_from_zero() {
    let g = grep("a", false, false, true);
    let first = g.filter_stdin_line(&b"abc\n".to_vec(), 0).unwrap();
    assert_eq!(first, b"0:abc\n".to_vec());
    assert!(g.filter_stdin_line(&b"xyz\n".to_vec(), 1).is_none());
}

#[test]
fn stdin_line_without_numbering_passes_through() {
    let g = grep("a", false, false, false);
    let out = g.filter_stdin_line(&b"abc\n".to_vec(), 5).unwrap();
    assert_eq!(out, b"abc\n".to_vec());
}

#[test]
fn substring_search_edges() {
    assert!(contains_sub(&Vec::new(), &Vec::new()));
    assert!(contains_sub(&b"a".to_vec(), &Vec::new()));
    assert!(!contains_sub(&Vec::new(), &b"a".to_vec()));
    assert!(contains_sub(&b"aab".to_vec(), &b"ab".to_vec()));
    assert!(!contains_sub(&b"ab".to_vec(), &b"aab".to_vec()));
}

#[test]
fn grep_new_reads_flags_and_positionals() {
    let g = Grep::new(&s(&["grep", "-n", "-i", "pat", "notes.txt"])).unwrap();
    assert_eq!(g.pattern, "pat");
    assert!(g.line_number);
    assert!(g.ignore_case);
    assert!(!g.count);
    assert!(matches!(g.search_in, Source::FileName(f) if f == "notes.txt"));
    assert!(matches!(g.outfile, Sink::Stdout));
}

#[test]
fn grep_new_reads_output_file() {
    let g = Grep::new(&s(&["grep", "-o", "out.txt", "pat"])).unwrap();
    assert!(matches!(g.outfile, Sink::FileName(f) if f == "out.txt"));
    assert!(matches!(g.search_in, Source::Stdin));
}

#[test]
fn grep_new_requires_a_pattern() {
    assert!(matches!(Grep::new(&s(&["grep"])), Err(GrepError::NoPattern)));
    assert!(matches!(Grep::new(&s(&["grep", "-n"])), Err(GrepError::NoPattern)));
}

#[test]
fn grep_new_requires_a_name_after_output_flag() {
    let r = Grep::new(&s(&["grep", "pat", "-o"]));
    assert!(matches!(r, Err(GrepError::NoOutFile)));
}

#[test]
fn grep_new_rejects_unknown_flag() {
    let r = Grep::new(&s(&["grep", "-z", "pat"]));
    assert!(matches!(r, Err(GrepError::UnknownArgument(a)) if a == "-z"));
}

#[test]
fn grep_new_counts_flag() {
    let g = Grep::new(&s(&["grep", "-c", "pat"])).unwrap();
    assert!(g.count);
}

#[test]
fn grep_messages_read_as_reported() {
    assert_eq!(GrepError::NoPattern.message(), "grep: no patter");
    assert_eq!(
        GrepError::UnknownArgument("-z".to_string()).message(),
        "grep: unknown argument: -z"
    );
}
