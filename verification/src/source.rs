//! The source code under compilation, addressed by character offsets.

use vstd::prelude::*;

use crate::region::Region;

verus! {

/// A compilation unit's text together with a display name, such as a
/// file path or `<stdin>`.
#[derive(Debug)]
pub struct Source {
    pub contents: String,
    /// Either a file name (`src/foo.kip`) or something like `<stdin>`.
    pub name: String,
}

/// The character at offset `i`, with `'\0'` standing for out of range.
pub open spec fn spec_char_at(s: Seq<char>, i: int) -> char {
    if 0 <= i < s.len() {
        s[i]
    } else {
        '\0'
    }
}

/// Number of newline characters in `s[0 .. n]`.
pub open spec fn count_newlines(s: Seq<char>, n: int) -> int
    decreases n,
{
    if n <= 0 {
        0
    } else {
        count_newlines(s, n - 1) + if spec_char_at(s, n - 1) == '\n' {
            1int
        } else {
            0int
        }
    }
}

/// The start of the line containing offset `pos`: the largest offset
/// at or below `pos` that is 0 or preceded by a newline.
pub open spec fn spec_line_start(s: Seq<char>, pos: int) -> int
    decreases pos,
{
    if pos <= 0 {
        0
    } else if spec_char_at(s, pos - 1) == '\n' {
        pos
    } else {
        spec_line_start(s, pos - 1)
    }
}

/// The end of the line containing offset `pos`: the offset of the
/// first newline at or after `pos`, or the text's length.
pub open spec fn spec_line_end(s: Seq<char>, pos: int) -> int
    decreases s.len() - pos,
{
    if pos < 0 {
        0
    } else if pos >= s.len() {
        s.len() as int
    } else if s[pos] == '\n' {
        pos
    } else {
        spec_line_end(s, pos + 1)
    }
}

/// The surrounding line (or two) of a region of source code, for
/// diagnostics.
pub struct Context {
    /// The region of the surrounding text.
    pub region: Region,
    /// The 1-based line number on which the context starts.
    pub line: usize,
}

impl Source {
    pub fn new(contents: &str, name: &str) -> (r: Source)
        ensures
            r.contents@ == contents@,
            r.name@ == name@,
    {
        Source { contents: String::from_str(contents), name: String::from_str(name) }
    }

    /// Retrieves the character at the provided offset, or `'\0'` when
    /// the offset is out of range.
    pub fn char_at(&self, idx: usize) -> (r: char)
        ensures
            r == spec_char_at(self.contents@, idx as int),
    {
        if idx < self.contents.as_str().unicode_len() {
            self.contents.as_str().get_char(idx)
        } else {
            '\0'
        }
    }

    /// The text of the region, as a borrowed slice.
    pub fn slice(&self, region: Region) -> (r: &str)
        requires
            region.wf(),
            region.spec_end() <= self.contents@.len(),
        ensures
            r@ == self.contents@.subrange(region.spec_start(), region.spec_end()),
    {
        self.contents.as_str().substring_char(region.start(), region.end())
    }

    /// Retrieves the length of the source's contents, in characters.
    pub fn len(&self) -> (r: usize)
        ensures
            r == self.contents@.len(),
    {
        self.contents.as_str().unicode_len()
    }

    /// The source text split into lines: one entry per newline-free
    /// segment, without a final empty segment after a trailing newline.
    pub fn lines(&self) -> (r: Vec<String>)
        ensures
            r@.map(|i: int, l: String| l@) == spec_split_lines(self.contents@, 0),
    {
        let n = self.contents.as_str().unicode_len();
        let mut out: Vec<String> = Vec::new();
        let mut i: usize = 0;
        while i < n
            invariant
                i <= n,
                n == self.contents@.len(),
                spec_split_lines(self.contents@, 0) =~= out@.map(|k: int, l: String| l@)
                    + spec_split_lines(self.contents@, i as int),
            decreases n - i,
        {
            proof {
                lemma_line_end_ge(self.contents@, i as int);
            }
            let e = self.line_end_at(i);
            let ghost prev = out@.map(|k: int, l: String| l@);
            let line = String::from_str(
                self.contents.as_str().substring_char(i, e),
            );
            out.push(line);
            proof {
                assert(out@.map(|k: int, l: String| l@) =~= prev.push(line@));
                assert(spec_split_lines(self.contents@, 0) =~= out@.map(
                    |k: int, l: String| l@,
                ) + spec_split_lines(self.contents@, e + 1));
            }
            i = if e < n {
                e + 1
            } else {
                n
            };
            proof {
                assert(spec_split_lines(self.contents@, 0) =~= out@.map(
                    |k: int, l: String| l@,
                ) + spec_split_lines(self.contents@, i as int));
            }
        }
        proof {
            assert(spec_split_lines(self.contents@, 0) =~= out@.map(|k: int, l: String| l@));
        }
        out
    }

    /// The surrounding context of a region: the text from the start of
    /// the region's line (or, when the region begins a line, from the
    /// start of the previous line) through the end of the region's last
    /// line, together with the 1-based number of the context's first
    /// line.
    pub fn context_of(&self, region: Region) -> (r: Context)
        requires
            region.wf(),
            region.spec_end() <= self.contents@.len(),
            self.contents@.len() < usize::MAX,
        ensures
            r.region.spec_start() == spec_context_start(self.contents@, region.spec_start()),
            r.region.spec_end() == spec_line_end(self.contents@, region.spec_end()),
            r.region.wf(),
            r.line == 1 + count_newlines(
                self.contents@,
                spec_context_start(self.contents@, region.spec_start()),
            ),
    {
        let start = region.start();
        proof {
            lemma_line_start_le(self.contents@, region.spec_start() - 2);
            lemma_line_start_le(self.contents@, region.spec_start());
            lemma_line_end_ge(self.contents@, region.spec_end());
        }
        let context_start = if start >= 1 && self.char_at(start - 1) == '\n' {
            // the region begins a line: include the previous line
            if start >= 2 {
                self.line_start_at(start - 2)
            } else {
                0
            }
        } else {
            self.line_start_at(start)
        };
        let context_end = self.line_end_at(region.end());
        let line = 1 + self.count_newlines_upto(context_start);
        Context { region: Region::new(context_start, context_end), line }
    }

    /// The start of the line containing `pos`.
    pub fn line_start_at(&self, pos: usize) -> (r: usize)
        ensures
            r == spec_line_start(self.contents@, pos as int),
    {
        let mut p = pos;
        loop
            invariant
                spec_line_start(self.contents@, pos as int) == spec_line_start(
                    self.contents@,
                    p as int,
                ),
            decreases p,
        {
            if p == 0 {
                return 0;
            }
            if self.char_at(p - 1) == '\n' {
                return p;
            }
            p = p - 1;
        }
    }

    /// The end of the line containing `pos`.
    pub fn line_end_at(&self, pos: usize) -> (r: usize)
        requires
            pos <= self.contents@.len(),
        ensures
            r == spec_line_end(self.contents@, pos as int),
    {
        let n = self.contents.as_str().unicode_len();
        let mut p = pos;
        while p < n
            invariant
                p <= n,
                n == self.contents@.len(),
                spec_line_end(self.contents@, pos as int) == spec_line_end(
                    self.contents@,
                    p as int,
                ),
            decreases n - p,
        {
            if self.contents.as_str().get_char(p) == '\n' {
                return p;
            }
            p = p + 1;
        }
        n
    }

    fn count_newlines_upto(&self, upto: usize) -> (r: usize)
        requires
            upto <= self.contents@.len(),
        ensures
            r == count_newlines(self.contents@, upto as int),
            r <= upto,
    {
        let mut count: usize = 0;
        let mut i: usize = 0;
        while i < upto
            invariant
                i <= upto,
                upto <= self.contents@.len(),
                count == count_newlines(self.contents@, i as int),
                count <= i,
            decreases upto - i,
        {
            if self.contents.as_str().get_char(i) == '\n' {
                count = count + 1;
            }
            i = i + 1;
        }
        count
    }
}

/// Where a diagnostic context begins for a region starting at `start`:
/// the start of its line, or of the previous line when the region
/// itself begins a line.
pub open spec fn spec_context_start(s: Seq<char>, start: int) -> int {
    if start >= 1 && spec_char_at(s, start - 1) == '\n' {
        if start >= 2 {
            spec_line_start(s, start - 2)
        } else {
            0
        }
    } else {
        spec_line_start(s, start)
    }
}

/// The lines of `s[from ..]`: each entry runs from a line start to the
/// next newline, which is not kept; a trailing newline adds no final
/// empty entry.
pub open spec fn spec_split_lines(s: Seq<char>, from: int) -> Seq<Seq<char>>
    decreases s.len() - from + 1,
{
    if from < 0 || from >= s.len() {
        Seq::empty()
    } else {
        let e = spec_line_end(s, from);
        let e2 = if e < from {
            from
        } else if e > s.len() {
            s.len() as int
        } else {
            e
        };
        seq![s.subrange(from, e2)] + spec_split_lines(s, e2 + 1)
    }
}

pub proof fn lemma_context_start_le(s: Seq<char>, start: int)
    ensures
        spec_context_start(s, start) <= if start >= 0 {
            start
        } else {
            0
        },
        spec_context_start(s, start) >= 0,
{
    lemma_line_start_le(s, start - 2);
    lemma_line_start_le(s, start);
}

pub proof fn lemma_line_start_le(s: Seq<char>, pos: int)
    ensures
        spec_line_start(s, pos) <= if pos >= 0 {
            pos
        } else {
            0
        },
        spec_line_start(s, pos) >= 0,
    decreases pos,
{
    if pos > 0 && spec_char_at(s, pos - 1) != '\n' {
        lemma_line_start_le(s, pos - 1);
    }
}

pub proof fn lemma_line_end_ge(s: Seq<char>, pos: int)
    requires
        pos <= s.len(),
    ensures
        spec_line_end(s, pos) <= s.len(),
        spec_line_end(s, pos) >= if pos >= 0 {
            pos
        } else {
            0
        },
    decreases s.len() - pos,
{
    if 0 <= pos < s.len() && s[pos] != '\n' {
        lemma_line_end_ge(s, pos + 1);
    }
}

} // verus!
