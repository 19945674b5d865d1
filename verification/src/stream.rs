//! Stream selectors: where a tool reads from and where it writes to.
//! A run resolves each selector once; the surrounding binary opens the
//! named file or takes the standard stream, and hands the library plain
//! bytes either way.

use vstd::prelude::*;

verus! {

/// Where input lines or bytes come from: the standard input, or a file
/// named on the command line.
pub enum Source {
    Stdin,
    FileName(String),
}

/// Where output goes: the standard output, or a file created (and
/// truncated) under the given name.
pub enum Sink {
    Stdout,
    FileName(String),
}

/// The file name a source selects, or nothing for the standard input.
pub open spec fn source_view(s: Source) -> Option<Seq<char>> {
    match s {
        Source::Stdin => Option::None,
        Source::FileName(f) => Option::Some(f@),
    }
}

/// The file name a sink selects, or nothing for the standard output.
pub open spec fn sink_view(s: Sink) -> Option<Seq<char>> {
    match s {
        Sink::Stdout => Option::None,
        Sink::FileName(f) => Option::Some(f@),
    }
}

} // verus!
