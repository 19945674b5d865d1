//! The line transform: re-emits input lines with an optional 1-based
//! line number and an optional end-of-line marker, or copies bytes
//! through untouched when neither flag is set.

use vstd::prelude::*;
use vstd::string::StringExecFns;
use crate::args::{opt_view, starts_dash, str_eq, ParseIssue};
use crate::stream::{sink_view, source_view, Sink, Source};
use crate::text::{dec_digits, push_bytes, push_decimal, split_lines, split_lines_spec, NEWLINE};

verus! {

/// How a transform run can fail: a flag that is not recognised, a file
/// that cannot be opened, read or written (the message carried along),
/// or `-o` with no file name after it.
#[derive(Debug)]
pub enum CatError {
    UnknownArgument(String),
    FileError(String),
    NoOutFile,
}

impl CatError {
    /// The rendered message, as the tool reports it.
    pub fn message(&self) -> (r: String)
        ensures
            r@ == match self {
                CatError::UnknownArgument(s) => "cat: unknown argument: "@ + s@,
                CatError::FileError(s) => "cat: file error: "@ + s@,
                CatError::NoOutFile => "cat: need [OUTPUT] file near the [TO]"@,
            },
    {
        match self {
            CatError::UnknownArgument(s) => "cat: unknown argument: ".to_owned().concat(
                s.as_str(),
            ),
            CatError::FileError(s) => "cat: file error: ".to_owned().concat(s.as_str()),
            CatError::NoOutFile => "cat: need [OUTPUT] file near the [TO]".to_owned(),
        }
    }
}

/// `line` with one trailing newline stripped, as an interactive read
/// hands it in.
pub open spec fn chomp(line: Seq<u8>) -> Seq<u8> {
    if line.len() > 0 && line[line.len() - 1] == NEWLINE {
        line.drop_last()
    } else {
        line
    }
}

/// One emitted line of transform output: `{idx1}.` when numbering is
/// on, the line, `$` when the end marker is on, then a newline.
pub open spec fn cat_entry(line: Seq<u8>, idx1: int, number: bool, end: bool) -> Seq<u8> {
    (if number {
        dec_digits(idx1 as nat) + seq![46u8]
    } else {
        Seq::<u8>::empty()
    }) + line + (if end {
        seq![36u8]
    } else {
        Seq::<u8>::empty()
    }) + seq![10u8]
}

/// The transform output over the first `n` lines.
pub open spec fn cat_render(lines: Seq<Seq<u8>>, number: bool, end: bool, n: int) -> Seq<u8>
    decreases n,
{
    if n <= 0 {
        Seq::empty()
    } else {
        cat_render(lines, number, end, n - 1) + cat_entry(lines[n - 1], n, number, end)
    }
}

/// The whole transform output for a file read as `content`: its lines
/// re-emitted under the two flags, or, with neither flag set, the very
/// bytes of the file.
pub open spec fn cat_file_output(number: bool, end: bool, content: Seq<u8>) -> Seq<u8> {
    if !number && !end {
        content
    } else {
        let lines = split_lines_spec(content);
        cat_render(lines, number, end, lines.len() as int)
    }
}

/// The outcome of folding the transform tool's argument list (from
/// index 1, past the program name) over the partial configuration built
/// so far: the input list (an entry without a name reads the standard
/// input), the optional output file, and the two flags.
pub open spec fn cat_parse_from(
    args: Seq<Seq<char>>,
    i: int,
    files: Seq<Option<Seq<char>>>,
    out: Option<Seq<char>>,
    number: bool,
    end: bool,
) -> Result<(Seq<Option<Seq<char>>>, Option<Seq<char>>, bool, bool), ParseIssue>
    decreases args.len() - i,
{
    if i < 0 || i >= args.len() {
        Ok((files, out, number, end))
    } else {
        let a = args[i];
        if a.len() > 0 && a[0] == '-' {
            if a == "-o"@ || a == "--output"@ {
                if i + 1 < args.len() {
                    cat_parse_from(args, i + 2, files, Some(args[i + 1]), number, end)
                } else {
                    Err(ParseIssue::NoOutFile)
                }
            } else if a == "-"@ || a == "--stdin"@ {
                cat_parse_from(args, i + 1, files.push(Option::None), out, number, end)
            } else if a == "-n"@ || a == "--number-lines"@ {
                cat_parse_from(args, i + 1, files, out, true, end)
            } else if a == "-e"@ || a == "-E"@ || a == "--End-of-the-line"@ {
                cat_parse_from(args, i + 1, files, out, number, true)
            } else {
                Err(ParseIssue::UnknownArg(i as usize))
            }
        } else {
            cat_parse_from(args, i + 1, files.push(Some(a)), out, number, end)
        }
    }
}

/// The transform configuration that an argument list resolves to, or
/// the reason it is refused. A run given no inputs at all reads the
/// standard input.
pub open spec fn cat_parse(args: Seq<Seq<char>>) -> Result<
    (Seq<Option<Seq<char>>>, Option<Seq<char>>, bool, bool),
    ParseIssue,
> {
    match cat_parse_from(args, 1, Seq::empty(), Option::None, false, false) {
        Result::Err(e) => Result::Err(e),
        Result::Ok(st) => if st.0.len() == 0 {
            Result::Ok((seq![Option::None], st.1, st.2, st.3))
        } else {
            Result::Ok(st)
        },
    }
}

/// The error a refused transform argument list surfaces as.
pub open spec fn cat_err_matches(e: CatError, p: ParseIssue, args: Seq<Seq<char>>) -> bool {
    match (e, p) {
        (CatError::UnknownArgument(s), ParseIssue::UnknownArg(i)) => i < args.len() && s@
            == args[i as int],
        (CatError::NoOutFile, ParseIssue::NoOutFile) => true,
        _ => false,
    }
}

/// The file names a source list selects, in order.
pub open spec fn sources_view(v: Seq<Source>) -> Seq<Option<Seq<char>>> {
    Seq::new(v.len(), |i: int| source_view(v[i]))
}

/// The transform tool's resolved configuration.
pub struct Cat {
    pub outfile: Sink,
    pub files_to_read: Vec<Source>,
    pub number_lines: bool,
    pub end_lines: bool,
}

impl Cat {
    /// Resolves the transform tool's argument list, exactly as
    /// [`cat_parse`] decides it. File names are only recorded here; the
    /// caller opens them afterwards, in order.
    pub fn new(args: Vec<String>) -> (r: Result<Cat, CatError>)
        ensures
            match (r, cat_parse(args.deep_view())) {
                (Result::Ok(c), Result::Ok(o)) => sources_view(c.files_to_read@) == o.0
                    && sink_view(c.outfile) == o.1 && c.number_lines == o.2 && c.end_lines == o.3,
                (Result::Err(e), Result::Err(p)) => cat_err_matches(e, p, args.deep_view()),
                _ => false,
            },
    {
        let ghost gargs = args.deep_view();
        let mut files: Vec<Source> = Vec::new();
        let mut out: Option<String> = None;
        let mut number_lines: bool = false;
        let mut end_lines: bool = false;
        let mut i: usize = 1;
        proof {
            assert(sources_view(files@) =~= Seq::<Option<Seq<char>>>::empty());
        }
        while i < args.len()
            invariant
                gargs == args.deep_view(),
                gargs.len() == args@.len(),
                cat_parse_from(gargs, 1, Seq::empty(), Option::None, false, false)
                    == cat_parse_from(
                    gargs,
                    i as int,
                    sources_view(files@),
                    opt_view(out),
                    number_lines,
                    end_lines,
                ),
            decreases gargs.len() - i,
        {
            let a = &args[i];
            proof {
                assert(gargs[i as int] == a@);
            }
            if starts_dash(a) {
                if str_eq(a, "-o") || str_eq(a, "--output") {
                    if i + 1 < args.len() {
                        let f = &args[i + 1];
                        proof {
                            assert(gargs[i as int + 1] == f@);
                        }
                        out = Some(f.clone());
                        i = i + 2;
                    } else {
                        return Err(CatError::NoOutFile);
                    }
                } else if str_eq(a, "-") || str_eq(a, "--stdin") {
                    let ghost before = sources_view(files@);
                    files.push(Source::Stdin);
                    proof {
                        assert(sources_view(files@) =~= before.push(Option::None));
                    }
                    i = i + 1;
                } else if str_eq(a, "-n") || str_eq(a, "--number-lines") {
                    number_lines = true;
                    i = i + 1;
                } else if str_eq(a, "-e") || str_eq(a, "-E") || str_eq(a, "--End-of-the-line") {
                    end_lines = true;
                    i = i + 1;
                } else {
                    return Err(CatError::UnknownArgument(a.clone()));
                }
            } else {
                let ghost before = sources_view(files@);
                files.push(Source::FileName(a.clone()));
                proof {
                    assert(sources_view(files@) =~= before.push(Option::Some(a@)));
                }
                i = i + 1;
            }
        }
        if files.is_empty() {
            let ghost before = sources_view(files@);
            files.push(Source::Stdin);
            proof {
                assert(before =~= Seq::<Option<Seq<char>>>::empty());
                assert(sources_view(files@) =~= seq![Option::<Seq<char>>::None]);
            }
        }
        Ok(
            Cat {
                outfile: match out {
                    None => Sink::Stdout,
                    Some(f) => Sink::FileName(f),
                },
                files_to_read: files,
                number_lines,
                end_lines,
            },
        )
    }

    /// Transforms a whole file read as `content`, as [`cat_file_output`]
    /// describes. With neither flag set the output is the input, byte
    /// for byte.
    pub fn render_file(&self, content: &Vec<u8>) -> (out: Vec<u8>)
        ensures
            out@ == cat_file_output(self.number_lines, self.end_lines, content@),
            !self.number_lines && !self.end_lines ==> out@ == content@,
    {
        if !self.number_lines && !self.end_lines {
            let mut out: Vec<u8> = Vec::new();
            push_bytes(&mut out, content);
            return out;
        }
        let lines = split_lines(content);
        let ghost ls = lines.deep_view();
        let mut out: Vec<u8> = Vec::new();
        let mut k: usize = 0;
        while k < lines.len()
            invariant
                ls == lines.deep_view(),
                ls.len() == lines@.len(),
                k <= ls.len(),
                self.number_lines || self.end_lines,
                out@ == cat_render(ls, self.number_lines, self.end_lines, k as int),
            decreases ls.len() - k,
        {
            let line = &lines[k];
            proof {
                assert(ls[k as int] == line@);
            }
            if self.number_lines {
                push_decimal(&mut out, k + 1);
                out.push(46);
            }
            push_bytes(&mut out, line);
            if self.end_lines {
                out.push(36);
            }
            out.push(10);
            proof {
                assert(out@ =~= cat_render(ls, self.number_lines, self.end_lines, k as int + 1));
            }
            k = k + 1;
        }
        out
    }

    /// Transforms one interactively read line, handed in exactly as read
    /// (with its trailing newline, which is stripped before rendering),
    /// at the given 1-based position.
    pub fn render_stdin_line(&self, buffer: &Vec<u8>, line: usize) -> (out: Vec<u8>)
        ensures
            out@ == cat_entry(chomp(buffer@), line as int, self.number_lines, self.end_lines),
    {
        let mut body: Vec<u8> = Vec::new();
        push_bytes(&mut body, buffer);
        if body.len() > 0 && body[body.len() - 1] == NEWLINE {
            let _ = body.pop();
        }
        proof {
            assert(body@ =~= chomp(buffer@));
        }
        let mut out: Vec<u8> = Vec::new();
        if self.number_lines {
            push_decimal(&mut out, line);
            out.push(46);
        }
        push_bytes(&mut out, &body);
        if self.end_lines {
            out.push(36);
        }
        out.push(10);
        proof {
            assert(out@ =~= cat_entry(
                chomp(buffer@),
                line as int,
                self.number_lines,
                self.end_lines,
            ));
        }
        out
    }
}

} // verus!
