//! The line filter: scans lines for a literal substring, optionally
//! case-folded, and emits the matching lines (optionally numbered) or a
//! count of them.

use vstd::prelude::*;
use vstd::string::{StrSliceExecFns, StringExecFns};
use crate::args::{opt_view, starts_dash, str_eq, ParseIssue};
use crate::stream::{sink_view, source_view, Sink, Source};
use crate::text::{
    dec_digits, lower_bytes, lower_seq, push_bytes, push_decimal, split_lines, split_lines_spec,
};

verus! {

/// How a filter run can fail: a flag that is not recognised, a file that
/// cannot be opened, read or written (the message carried along), a
/// missing pattern, or `-o` with no file name after it.
#[derive(Debug)]
pub enum GrepError {
    UnknownArgument(String),
    FileError(String),
    NoPattern,
    NoOutFile,
}

impl GrepError {
    /// The rendered message, as the tool reports it.
    pub fn message(&self) -> (r: String)
        ensures
            r@ == match self {
                GrepError::UnknownArgument(s) => "grep: unknown argument: "@ + s@,
                GrepError::FileError(s) => "grep: file error: "@ + s@,
                GrepError::NoPattern => "grep: no patter"@,
                GrepError::NoOutFile => "grep: need the [OUTFILE] near the [-o | --output]"@,
            },
    {
        match self {
            GrepError::UnknownArgument(s) => "grep: unknown argument: ".to_owned().concat(
                s.as_str(),
            ),
            GrepError::FileError(s) => "grep: file error: ".to_owned().concat(s.as_str()),
            GrepError::NoPattern => "grep: no patter".to_owned(),
            GrepError::NoOutFile => "grep: need the [OUTFILE] near the [-o | --output]".to_owned(),
        }
    }
}

/// The pattern stands at position `i` of `hay` as a contiguous run.
pub open spec fn matches_at(hay: Seq<u8>, pat: Seq<u8>, i: int) -> bool {
    0 <= i && i + pat.len() <= hay.len() && hay.subrange(i, i + pat.len()) == pat
}

/// The pattern stands somewhere in `hay`. The empty pattern stands in
/// every sequence, at position zero.
pub open spec fn contains_pat(hay: Seq<u8>, pat: Seq<u8>) -> bool {
    exists|i: int| matches_at(hay, pat, i)
}

fn match_at(hay: &Vec<u8>, pat: &Vec<u8>, i: usize) -> (r: bool)
    requires
        i + pat@.len() <= hay@.len(),
    ensures
        r == matches_at(hay@, pat@, i as int),
{
    let plen = pat.len();
    let hlen = hay.len();
    let mut j: usize = 0;
    while j < plen
        invariant
            plen == pat@.len(),
            hlen == hay@.len(),
            i + pat@.len() <= hay@.len(),
            j <= pat@.len(),
            forall|t: int| 0 <= t < j ==> hay@[i + t] == pat@[t],
        decreases pat@.len() - j,
    {
        if hay[i + j] != pat[j] {
            proof {
                assert(hay@.subrange(i as int, i + pat@.len())[j as int] == hay@[i + j]);
            }
            return false;
        }
        j = j + 1;
    }
    proof {
        assert(hay@.subrange(i as int, i + pat@.len()) =~= pat@);
    }
    true
}

/// Literal substring search, as [`contains_pat`] describes.
pub fn contains_sub(hay: &Vec<u8>, pat: &Vec<u8>) -> (r: bool)
    ensures
        r == contains_pat(hay@, pat@),
{
    if pat.len() > hay.len() {
        proof {
            assert(forall|t: int| !matches_at(hay@, pat@, t));
        }
        return false;
    }
    let n = hay.len() - pat.len();
    let mut i: usize = 0;
    while i <= n
        invariant
            pat@.len() <= hay@.len(),
            n == hay@.len() - pat@.len(),
            i <= n,
            forall|t: int| 0 <= t < i ==> !matches_at(hay@, pat@, t),
        decreases n - i,
    {
        if match_at(hay, pat, i) {
            proof {
                assert(matches_at(hay@, pat@, i as int));
            }
            return true;
        }
        if i == n {
            proof {
                assert forall|t: int| !matches_at(hay@, pat@, t) by {
                    if 0 <= t <= n {
                        assert(!matches_at(hay@, pat@, t));
                    }
                }
            }
            return false;
        }
        i = i + 1;
    }
    proof {
        assert forall|t: int| !matches_at(hay@, pat@, t) by {
            if 0 <= t <= n {
                assert(!matches_at(hay@, pat@, t));
            }
        }
    }
    false
}

/// The raw matching rule: does `buffer` contain `pattern`, lowering the
/// buffer first when `ig` is set? (The pattern is handed in already
/// lowered in that case.)
pub open spec fn check_spec(ig: bool, buffer: Seq<u8>, pattern: Seq<u8>) -> bool {
    if ig {
        contains_pat(lower_seq(buffer), pattern)
    } else {
        contains_pat(buffer, pattern)
    }
}

/// A line matches when it contains the configured pattern, both sides
/// case-folded if `ig` is set.
pub open spec fn line_matches(ig: bool, pattern: Seq<u8>, line: Seq<u8>) -> bool {
    check_spec(
        ig,
        line,
        if ig {
            lower_seq(pattern)
        } else {
            pattern
        },
    )
}

/// The empty pattern matches every line, case-folded or not.
pub proof fn lemma_empty_pattern_matches(ig: bool, line: Seq<u8>)
    ensures
        line_matches(ig, Seq::<u8>::empty(), line),
{
    assert(lower_seq(Seq::<u8>::empty()) =~= Seq::<u8>::empty());
    let hay = if ig {
        lower_seq(line)
    } else {
        line
    };
    assert(hay.subrange(0, 0) =~= Seq::<u8>::empty());
    assert(matches_at(hay, Seq::<u8>::empty(), 0));
}

/// One emitted line of filter output: `{idx1}:{line}` then a newline
/// when numbering is on, else the line and a newline.
pub open spec fn grep_entry(line: Seq<u8>, idx1: int, number: bool) -> Seq<u8> {
    if number {
        dec_digits(idx1 as nat) + seq![58u8] + line + seq![10u8]
    } else {
        line + seq![10u8]
    }
}

/// The filter output over the first `n` lines, each matching line
/// rendered at its 1-based position.
pub open spec fn grep_render(
    lines: Seq<Seq<u8>>,
    ig: bool,
    pat: Seq<u8>,
    number: bool,
    n: int,
) -> Seq<u8>
    decreases n,
{
    if n <= 0 {
        Seq::empty()
    } else {
        grep_render(lines, ig, pat, number, n - 1) + if line_matches(ig, pat, lines[n - 1]) {
            grep_entry(lines[n - 1], n, number)
        } else {
            Seq::<u8>::empty()
        }
    }
}

/// The whole filter output for a file read as `content`.
pub open spec fn grep_file_output(ig: bool, pat: Seq<u8>, number: bool, content: Seq<u8>) -> Seq<
    u8,
> {
    let lines = split_lines_spec(content);
    grep_render(lines, ig, pat, number, lines.len() as int)
}

/// How many of the first `n` lines match.
pub open spec fn match_count(lines: Seq<Seq<u8>>, ig: bool, pat: Seq<u8>, n: int) -> nat
    decreases n,
{
    if n <= 0 {
        0
    } else {
        match_count(lines, ig, pat, n - 1) + if line_matches(ig, pat, lines[n - 1]) {
            1nat
        } else {
            0nat
        }
    }
}

/// How many lines of a file read as `content` match.
pub open spec fn grep_count(ig: bool, pat: Seq<u8>, content: Seq<u8>) -> nat {
    let lines = split_lines_spec(content);
    match_count(lines, ig, pat, lines.len() as int)
}

/// The outcome of folding the filter tool's argument list (from index 1,
/// past the program name) over the partial configuration built so far:
/// optional pattern, optional input file (none reads the standard
/// input), optional output file (none writes the standard output), and
/// the three flags.
pub open spec fn grep_parse_from(
    args: Seq<Seq<char>>,
    i: int,
    pat: Option<Seq<char>>,
    search: Option<Seq<char>>,
    out: Option<Seq<char>>,
    ig: bool,
    count: bool,
    number: bool,
) -> Result<
    (Option<Seq<char>>, Option<Seq<char>>, Option<Seq<char>>, bool, bool, bool),
    ParseIssue,
>
    decreases args.len() - i,
{
    if i < 0 || i >= args.len() {
        Ok((pat, search, out, ig, count, number))
    } else {
        let a = args[i];
        if a.len() > 0 && a[0] == '-' {
            if a == "-o"@ || a == "--output"@ {
                if i + 1 < args.len() {
                    grep_parse_from(args, i + 2, pat, search, Some(args[i + 1]), ig, count, number)
                } else {
                    Err(ParseIssue::NoOutFile)
                }
            } else if a == "-i"@ || a == "--ignore-case"@ {
                grep_parse_from(args, i + 1, pat, search, out, true, count, number)
            } else if a == "-"@ {
                grep_parse_from(args, i + 1, pat, Option::None, out, ig, count, number)
            } else if a == "-c"@ || a == "--count"@ {
                grep_parse_from(args, i + 1, pat, search, out, ig, true, number)
            } else if a == "-n"@ || a == "--line_number"@ {
                grep_parse_from(args, i + 1, pat, search, out, ig, count, true)
            } else {
                Err(ParseIssue::UnknownArg(i as usize))
            }
        } else if pat is None {
            grep_parse_from(args, i + 1, Some(a), search, out, ig, count, number)
        } else {
            grep_parse_from(args, i + 1, pat, Some(a), out, ig, count, number)
        }
    }
}

/// The filter configuration that an argument list resolves to, or the
/// reason it is refused: the first bare token is the pattern (it must be
/// present), any later bare token names the file to search.
pub open spec fn grep_parse(args: Seq<Seq<char>>) -> Result<
    (Seq<char>, Option<Seq<char>>, Option<Seq<char>>, bool, bool, bool),
    ParseIssue,
> {
    match grep_parse_from(
        args,
        1,
        Option::None,
        Option::None,
        Option::None,
        false,
        false,
        false,
    ) {
        Result::Err(e) => Result::Err(e),
        Result::Ok(st) => match st.0 {
            Option::None => Result::Err(ParseIssue::NoPattern),
            Option::Some(p) => Result::Ok((p, st.1, st.2, st.3, st.4, st.5)),
        },
    }
}

/// The error a refused filter argument list surfaces as.
pub open spec fn grep_err_matches(e: GrepError, p: ParseIssue, args: Seq<Seq<char>>) -> bool {
    match (e, p) {
        (GrepError::UnknownArgument(s), ParseIssue::UnknownArg(i)) => i < args.len() && s@
            == args[i as int],
        (GrepError::NoPattern, ParseIssue::NoPattern) => true,
        (GrepError::NoOutFile, ParseIssue::NoOutFile) => true,
        _ => false,
    }
}

/// The filter tool's resolved configuration.
pub struct Grep {
    pub pattern: String,
    pub search_in: Source,
    pub outfile: Sink,
    pub ignore_case: bool,
    pub count: bool,
    pub line_number: bool,
}

impl Grep {
    /// The pattern as the byte sequence it is matched by.
    pub open spec fn spec_pattern(&self) -> Seq<u8> {
        vstd::utf8::encode_utf8(self.pattern@)
    }

    /// Resolves the filter tool's argument list, exactly as
    /// [`grep_parse`] decides it. File names are only recorded here; the
    /// caller opens them afterwards.
    pub fn new(args: &Vec<String>) -> (r: Result<Grep, GrepError>)
        ensures
            match (r, grep_parse(args.deep_view())) {
                (Result::Ok(g), Result::Ok(o)) => g.pattern@ == o.0 && source_view(g.search_in)
                    == o.1 && sink_view(g.outfile) == o.2 && g.ignore_case == o.3 && g.count == o.4
                    && g.line_number == o.5,
                (Result::Err(e), Result::Err(p)) => grep_err_matches(e, p, args.deep_view()),
                _ => false,
            },
    {
        let ghost gargs = args.deep_view();
        let mut pattern: Option<String> = None;
        let mut search: Option<String> = None;
        let mut out: Option<String> = None;
        let mut ignore_case: bool = false;
        let mut count: bool = false;
        let mut line_number: bool = false;
        let mut i: usize = 1;
        while i < args.len()
            invariant
                gargs == args.deep_view(),
                gargs.len() == args@.len(),
                grep_parse_from(
                    gargs,
                    1,
                    Option::None,
                    Option::None,
                    Option::None,
                    false,
                    false,
                    false,
                ) == grep_parse_from(
                    gargs,
                    i as int,
                    opt_view(pattern),
                    opt_view(search),
                    opt_view(out),
                    ignore_case,
                    count,
                    line_number,
                ),
            decreases gargs.len() - i,
        {
            let a = &args[i];
            proof {
                assert(gargs[i as int] == a@);
            }
            if starts_dash(a) {
                if str_eq(a, "-o") || str_eq(a, "--output") {
                    if i + 1 < args.len() {
                        let f = &args[i + 1];
                        proof {
                            assert(gargs[i as int + 1] == f@);
                        }
                        out = Some(f.clone());
                        i = i + 2;
                    } else {
                        return Err(GrepError::NoOutFile);
                    }
                } else if str_eq(a, "-i") || str_eq(a, "--ignore-case") {
                    ignore_case = true;
                    i = i + 1;
                } else if str_eq(a, "-") {
                    search = None;
                    i = i + 1;
                } else if str_eq(a, "-c") || str_eq(a, "--count") {
                    count = true;
                    i = i + 1;
                } else if str_eq(a, "-n") || str_eq(a, "--line_number") {
                    line_number = true;
                    i = i + 1;
                } else {
                    return Err(GrepError::UnknownArgument(a.clone()));
                }
            } else if pattern.is_none() {
                pattern = Some(a.clone());
                i = i + 1;
            } else {
                search = Some(a.clone());
                i = i + 1;
            }
        }
        match pattern {
            None => Err(GrepError::NoPattern),
            Some(p) => {
                let search_in = match search {
                    None => Source::Stdin,
                    Some(f) => Source::FileName(f),
                };
                let outfile = match out {
                    None => Sink::Stdout,
                    Some(f) => Sink::FileName(f),
                };
                Ok(
                    Grep {
                        pattern: p,
                        search_in,
                        outfile,
                        ignore_case,
                        count,
                        line_number,
                    },
                )
            },
        }
    }

    /// The raw matching rule at run time: lowers the buffer when asked,
    /// then searches for the (pre-lowered) pattern.
    pub fn check(ig: bool, buffer: &Vec<u8>, pattern: &Vec<u8>) -> (r: bool)
        ensures
            r == check_spec(ig, buffer@, pattern@),
    {
        if ig {
            let low = lower_bytes(buffer);
            contains_sub(&low, pattern)
        } else {
            contains_sub(buffer, pattern)
        }
    }

    /// The configured pattern, lowered when case is ignored: the byte
    /// sequence every line is actually searched for.
    pub fn effective_pattern(&self) -> (r: Vec<u8>)
        ensures
            r@ == if self.ignore_case {
                lower_seq(self.spec_pattern())
            } else {
                self.spec_pattern()
            },
    {
        let raw = self.pattern.as_str().as_bytes_vec();
        if self.ignore_case {
            lower_bytes(&raw)
        } else {
            raw
        }
    }

    /// Filters a whole file read as `content`: every matching line is
    /// emitted in order, numbered from 1 when numbering is on.
    pub fn run_file(&self, content: &Vec<u8>) -> (out: Vec<u8>)
        ensures
            out@ == grep_file_output(
                self.ignore_case,
                self.spec_pattern(),
                self.line_number,
                content@,
            ),
    {
        let pat = self.effective_pattern();
        let lines = split_lines(content);
        let ghost ls = lines.deep_view();
        let ghost gp = self.spec_pattern();
        let mut out: Vec<u8> = Vec::new();
        let mut k: usize = 0;
        while k < lines.len()
            invariant
                ls == lines.deep_view(),
                ls.len() == lines@.len(),
                k <= ls.len(),
                gp == self.spec_pattern(),
                pat@ == if self.ignore_case {
                    lower_seq(gp)
                } else {
                    gp
                },
                out@ == grep_render(ls, self.ignore_case, gp, self.line_number, k as int),
            decreases ls.len() - k,
        {
            let line = &lines[k];
            proof {
                assert(ls[k as int] == line@);
            }
            if Grep::check(self.ignore_case, line, &pat) {
                if self.line_number {
                    push_decimal(&mut out, k + 1);
                    out.push(58);
                }
                push_bytes(&mut out, line);
                out.push(10);
            }
            proof {
                assert(out@ =~= grep_render(
                    ls,
                    self.ignore_case,
                    gp,
                    self.line_number,
                    k as int + 1,
                ));
            }
            k = k + 1;
        }
        out
    }

    /// Counts the matching lines of a file read as `content`.
    pub fn count_matches(&self, content: &Vec<u8>) -> (n: usize)
        ensures
            n == grep_count(self.ignore_case, self.spec_pattern(), content@),
    {
        let pat = self.effective_pattern();
        let lines = split_lines(content);
        let ghost ls = lines.deep_view();
        let ghost gp = self.spec_pattern();
        let mut n: usize = 0;
        let mut k: usize = 0;
        while k < lines.len()
            invariant
                ls == lines.deep_view(),
                ls.len() == lines@.len(),
                k <= ls.len(),
                n <= k,
                gp == self.spec_pattern(),
                pat@ == if self.ignore_case {
                    lower_seq(gp)
                } else {
                    gp
                },
                n == match_count(ls, self.ignore_case, gp, k as int),
            decreases ls.len() - k,
        {
            let line = &lines[k];
            proof {
                assert(ls[k as int] == line@);
            }
            if Grep::check(self.ignore_case, line, &pat) {
                n = n + 1;
            }
            k = k + 1;
        }
        n
    }

    /// Count mode over a file: one line holding the decimal count.
    pub fn run_count(&self, content: &Vec<u8>) -> (out: Vec<u8>)
        ensures
            out@ == dec_digits(grep_count(self.ignore_case, self.spec_pattern(), content@))
                + seq![10u8],
    {
        let n = self.count_matches(content);
        let mut out: Vec<u8> = Vec::new();
        push_decimal(&mut out, n);
        out.push(10);
        proof {
            assert(out@ =~= dec_digits(n as nat) + seq![10u8]);
        }
        out
    }

    /// Count mode over the standard input reports `0` without reading:
    /// the tool has never counted matches in its interactive path, and
    /// that documented behaviour is kept.
    pub fn run_count_stdin(&self) -> (out: Vec<u8>)
        ensures
            out@ == seq![48u8, 10u8],
    {
        let mut out: Vec<u8> = Vec::new();
        out.push(48);
        out.push(10);
        proof {
            assert(out@ =~= seq![48u8, 10u8]);
        }
        out
    }

    /// One interactively read line, handed in exactly as read (with its
    /// trailing newline): the bytes to emit, or nothing when the line
    /// does not match. Line numbers in this path count from zero, which
    /// is the tool's historical interactive behaviour.
    pub fn filter_stdin_line(&self, buffer: &Vec<u8>, line_count: usize) -> (r: Option<Vec<u8>>)
        ensures
            match r {
                Some(out) => line_matches(self.ignore_case, self.spec_pattern(), buffer@) && out@
                    == if self.line_number {
                    dec_digits(line_count as nat) + seq![58u8] + buffer@
                } else {
                    buffer@
                },
                None => !line_matches(self.ignore_case, self.spec_pattern(), buffer@),
            },
    {
        let pat = self.effective_pattern();
        if Grep::check(self.ignore_case, buffer, &pat) {
            let mut out: Vec<u8> = Vec::new();
            if self.line_number {
                push_decimal(&mut out, line_count);
                out.push(58);
            }
            push_bytes(&mut out, buffer);
            proof {
                if self.line_number {
                    assert(out@ =~= dec_digits(line_count as nat) + seq![58u8] + buffer@);
                } else {
                    assert(out@ =~= buffer@);
                }
            }
            Some(out)
        } else {
            None
        }
    }
}

} // verus!
