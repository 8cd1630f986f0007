//! Building error reports against a source file: an `ErrorReporter`
//! collects a message, the source, and the offending token or region,
//! and renders one report; the caller decides where it goes.

use vstd::prelude::*;

use crate::region::{spec_line_column, Region};
use crate::source::{spec_line_end, spec_line_start, Source};
use crate::text::spec_dec;
use crate::token::Token;

verus! {

/// Build an error message:
///
/// ```text
/// ErrorReporter::new()
///     .source(&source)
///     .message("error message goes here")
///     .render()
/// ```
pub struct ErrorReporter<'a> {
    pub source: Option<&'a Source>,
    pub region: Option<Region>,
    pub token: Option<Token>,
    pub message: &'static str,
}

/// The line of source text a report points at, rendered with its
/// position: `{name} Line {n} | {text}`.
pub open spec fn spec_report_context(name: Seq<char>, s: Seq<char>, region: Region) -> Seq<char> {
    let upto = if region.spec_start() < s.len() {
        region.spec_start() + 1
    } else {
        s.len() as int
    };
    let line = spec_line_column(s, upto).0;
    let lo = spec_line_start(s, region.spec_start());
    let hi = spec_line_end(s, region.spec_end());
    name + " Line "@ + spec_dec(line) + " | "@ + s.subrange(lo, hi)
}

/// What a report renders to: the message, and the offending line when
/// a source and a place in it were given.
pub open spec fn spec_report(r: ErrorReporter) -> Seq<char> {
    let head = "Error: "@ + r.message@;
    match r.source {
        None => head,
        Some(src) => match r.token {
            Some(tok) => head + "\n"@ + spec_report_context(
                src.name@,
                src.contents@,
                tok.region,
            ),
            None => match r.region {
                Some(region) => head + "\n"@ + spec_report_context(
                    src.name@,
                    src.contents@,
                    region,
                ),
                None => head,
            },
        },
    }
}

impl<'a> ErrorReporter<'a> {
    pub fn new() -> (r: ErrorReporter<'a>)
        ensures
            r.source is None,
            r.region is None,
            r.token is None,
            r.message@ == Seq::<char>::empty(),
    {
        proof {
            reveal_strlit("");
        }
        ErrorReporter { source: None, region: None, token: None, message: "" }
    }

    pub fn source(self, source: &'a Source) -> (r: ErrorReporter<'a>)
        ensures
            r == (ErrorReporter { source: Some(source), ..self }),
    {
        ErrorReporter { source: Some(source), ..self }
    }

    pub fn region(self, region: Region) -> (r: ErrorReporter<'a>)
        ensures
            r == (ErrorReporter { region: Some(region), ..self }),
    {
        ErrorReporter { region: Some(region), ..self }
    }

    pub fn token(self, token: Token) -> (r: ErrorReporter<'a>)
        ensures
            r == (ErrorReporter { token: Some(token), ..self }),
    {
        ErrorReporter { token: Some(token), ..self }
    }

    pub fn message(self, message: &'static str) -> (r: ErrorReporter<'a>)
        ensures
            r == (ErrorReporter { message, ..self }),
    {
        ErrorReporter { message, ..self }
    }

    /// The place the report points at, if any: the token's region
    /// when one was given, else the region.
    pub open spec fn place(self) -> Option<Region> {
        match self.token {
            Some(tok) => Some(tok.region),
            None => self.region,
        }
    }

    /// Render the report. The caller prints it or stores it.
    pub fn render(self) -> (r: String)
        requires
            match (self.source, self.place()) {
                (Some(src), Some(region)) => region.wf() && region.spec_end()
                    <= src.contents@.len() && src.contents@.len() < usize::MAX,
                _ => true,
            },
        ensures
            r@ == spec_report(self),
    {
        let mut out = String::from_str("Error: ");
        out.append(self.message);
        let src = match self.source {
            Some(src) => src,
            None => {
                return out;
            },
        };
        let region = match self.token {
            Some(tok) => tok.region,
            None => match self.region {
                Some(region) => region,
                None => {
                    return out;
                },
            },
        };
        let line_col = region.line_column(src);
        proof {
            crate::region::lemma_line_column_bounds(src.contents@, region.spec_start() + 1);
            crate::source::lemma_line_start_le(src.contents@, region.spec_start());
            crate::source::lemma_line_end_ge(src.contents@, region.spec_end());
        }
        let lo = src.line_start_at(region.start());
        let hi = src.line_end_at(region.end());
        out.append("\n");
        out.append(src.name.as_str());
        out.append(" Line ");
        out.append(crate::text::dec_u64(line_col.line as u64).as_str());
        out.append(" | ");
        out.append(src.slice(Region::new(lo, hi)));
        proof {
            assert(out@ =~= spec_report(self));
        }
        out
    }
}

} // verus!
