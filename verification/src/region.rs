//! Regions: half-open offset ranges over source text.

use vstd::prelude::*;

use crate::source::Source;

verus! {

/// The 1-based line and 0-based-per-line column reached after reading
/// the first `upto` characters of `s`, starting from line 1, column 0.
pub open spec fn spec_line_column(s: Seq<char>, upto: int) -> (int, int)
    decreases upto,
{
    if upto <= 0 {
        (1, 0)
    } else {
        let (line, column) = spec_line_column(s, upto - 1);
        if 0 <= upto - 1 < s.len() && s[upto - 1] == '\n' {
            (line + 1, 0)
        } else {
            (line, column + 1)
        }
    }
}

pub proof fn lemma_line_column_bounds(s: Seq<char>, upto: int)
    ensures
        1 <= spec_line_column(s, upto).0 <= 1 + if upto >= 0 {
            upto
        } else {
            0
        },
        0 <= spec_line_column(s, upto).1 <= if upto >= 0 {
            upto
        } else {
            0
        },
    decreases upto,
{
    if upto > 0 {
        lemma_line_column_bounds(s, upto - 1);
    }
}

/// A line/column position, with lines counted from 1 and columns from 0.
#[derive(Debug, Clone, Copy, PartialEq, Eq, Structural)]
pub struct LineColumn {
    pub line: usize,
    pub column: usize,
}

/// A region of a source file: the half-open range
/// `start .. start + length` of character offsets.
#[derive(Debug, Clone, Copy, PartialEq, Eq, Structural)]
pub struct Region {
    pub start: usize,
    pub length: usize,
}

impl Region {
    /// The region's starting offset, as a mathematical integer.
    pub open spec fn spec_start(self) -> int {
        self.start as int
    }

    /// The region's ending offset, as a mathematical integer.
    pub open spec fn spec_end(self) -> int {
        self.start + self.length
    }

    /// The region's length, as a mathematical integer.
    pub open spec fn spec_len(self) -> int {
        self.length as int
    }

    /// A region is well formed when its end fits in `usize`.
    pub open spec fn wf(self) -> bool {
        self.start + self.length <= usize::MAX
    }

    /// The union of two regions: from the smaller start to the larger end.
    pub open spec fn spec_to(self, end: Region) -> Region {
        let s = if self.spec_start() <= end.spec_start() {
            self.spec_start()
        } else {
            end.spec_start()
        };
        let e = if self.spec_end() >= end.spec_end() {
            self.spec_end()
        } else {
            end.spec_end()
        };
        Region { start: s as usize, length: (e - s) as usize }
    }

    pub fn new(start: usize, end: usize) -> (r: Region)
        requires
            start <= end,
        ensures
            r.spec_start() == start,
            r.spec_end() == end,
            r.wf(),
    {
        Region { start, length: end - start }
    }

    /// Get the region's starting offset.
    pub fn start(&self) -> (r: usize)
        ensures
            r == self.spec_start(),
    {
        self.start
    }

    /// Calculate the region's ending offset.
    pub fn end(&self) -> (r: usize)
        requires
            self.wf(),
        ensures
            r == self.spec_end(),
    {
        self.start + self.length
    }

    /// Get the region's length.
    pub fn len(&self) -> (r: usize)
        ensures
            r == self.spec_len(),
    {
        self.length
    }

    /// The union region: from the smaller start to the larger end.
    pub fn to(self, end: Region) -> (r: Region)
        requires
            self.wf(),
            end.wf(),
        ensures
            r == self.spec_to(end),
            r.wf(),
            r.spec_start() == if self.spec_start() <= end.spec_start() {
                self.spec_start()
            } else {
                end.spec_start()
            },
            r.spec_end() == if self.spec_end() >= end.spec_end() {
                self.spec_end()
            } else {
                end.spec_end()
            },
    {
        let s = if self.start <= end.start {
            self.start
        } else {
            end.start
        };
        let self_end = self.start + self.length;
        let other_end = end.start + end.length;
        let e = if self_end >= other_end {
            self_end
        } else {
            other_end
        };
        Region::new(s, e)
    }

    /// Calculate the region's starting line and column.
    ///
    /// NOTE: This is quite an expensive calculation.
    pub fn line_column(&self, source: &Source) -> (r: LineColumn)
        requires
            source.contents@.len() < usize::MAX,
        ensures
            ({
                let upto = if self.spec_start() < source.contents@.len() {
                    self.spec_start() + 1
                } else {
                    source.contents@.len() as int
                };
                (r.line as int, r.column as int) == spec_line_column(source.contents@, upto)
            }),
    {
        let n = source.len();
        let upto = if self.start < n {
            self.start + 1
        } else {
            n
        };
        let mut line: usize = 1;
        let mut column: usize = 0;
        let mut i: usize = 0;
        while i < upto
            invariant
                i <= upto,
                upto <= n,
                n == source.contents@.len(),
                n < usize::MAX,
                (line as int, column as int) == spec_line_column(source.contents@, i as int),
            decreases upto - i,
        {
            proof {
                lemma_line_column_bounds(source.contents@, i as int);
            }
            if source.char_at(i) == '\n' {
                line = line + 1;
                column = 0;
            } else {
                column = column + 1;
            }
            i = i + 1;
        }
        LineColumn { line, column }
    }

    /// The text the region covers.
    pub fn to_str<'a>(&self, source: &'a Source) -> (r: &'a str)
        requires
            self.wf(),
            self.spec_end() <= source.contents@.len(),
        ensures
            r@ == source.contents@.subrange(self.spec_start(), self.spec_end()),
    {
        source.slice(*self)
    }

    /// The region as a standard half-open range.
    pub fn to_range(&self) -> (r: core::ops::Range<usize>)
        requires
            self.wf(),
        ensures
            r.start == self.spec_start(),
            r.end == self.spec_end(),
    {
        self.start()..self.end()
    }
}

} // verus!
