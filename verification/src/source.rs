//! The source model: raw file text decomposed into line ranges, and
//! `Location`, an immutable span within one source's text that supports
//! combination into a minimal enclosing span.

use vstd::prelude::*;
use std::rc::Rc;

verus! {

/// Half-open range of character positions delimiting one physical line,
/// including its terminating newline (the final line has no terminator).
#[derive(Clone, Copy, PartialEq, Eq, Structural, Debug)]
pub struct LineRange {
    pub start: usize,
    pub end: usize,
}

/// The line decomposition of a text: one half-open range per physical line,
/// each range including its `'\n'` terminator, plus a trailing range for the
/// content after the last newline (empty if the text ends in a newline).
pub open spec fn line_ranges_from(text: Seq<char>, i: nat, line_start: nat) -> Seq<(int, int)>
    decreases text.len() - i,
{
    if i >= text.len() {
        seq![(line_start as int, text.len() as int)]
    } else if text[i as int] == '\n' {
        seq![(line_start as int, i + 1 as int)] + line_ranges_from(text, i + 1, i + 1)
    } else {
        line_ranges_from(text, i + 1, line_start)
    }
}

pub open spec fn line_ranges(text: Seq<char>) -> Seq<(int, int)> {
    line_ranges_from(text, 0, 0)
}

/// The ranges of `line_ranges_from` are non-empty, start at `line_start`,
/// partition `text[line_start..]`, and end at the text's end.
pub proof fn lemma_line_ranges_from_props(text: Seq<char>, i: nat, line_start: nat)
    requires
        line_start <= i <= text.len(),
    ensures
        line_ranges_from(text, i, line_start).len() >= 1,
        line_ranges_from(text, i, line_start)[0].0 == line_start,
        line_ranges_from(text, i, line_start).last().1 == text.len(),
        forall|j: int|
            0 <= j < line_ranges_from(text, i, line_start).len() ==> {
                &&& line_start <= (#[trigger] line_ranges_from(text, i, line_start)[j]).0
                &&& line_ranges_from(text, i, line_start)[j].0
                    <= line_ranges_from(text, i, line_start)[j].1 <= text.len()
            },
    decreases text.len() - i,
{
    if i >= text.len() {
    } else if text[i as int] == '\n' {
        lemma_line_ranges_from_props(text, i + 1, i + 1);
    } else {
        lemma_line_ranges_from_props(text, i + 1, line_start);
    }
}

/// Owns one file's text: its canonical path (absent for synthetic sources),
/// display name, full text, and the range of every physical line.
/// Immutable after construction; shared read-only by every `Location`.
#[derive(Debug)]
pub struct Source {
    pub path: Option<String>,
    pub name: String,
    pub text: String,
    pub lines: Vec<LineRange>,
}

/// Sources are compared by identity: the display name (the canonical path)
/// identifies a source, not its content.
impl PartialEq for Source {
    fn eq(&self, other: &Self) -> (r: bool) {
        self.name == other.name
    }
}

impl vstd::std_specs::cmp::PartialEqSpecImpl for Source {
    open spec fn obeys_eq_spec() -> bool {
        true
    }

    open spec fn eq_spec(&self, other: &Source) -> bool {
        self.name@ == other.name@
    }
}

impl Source {
    /// The line table matches the text's actual line decomposition.
    pub open spec fn wf(&self) -> bool {
        self.lines@.map_values(|r: LineRange| (r.start as int, r.end as int)) == line_ranges(
            self.text@,
        )
    }

    /// Builds a source from already-loaded text, scanning it once to record
    /// the range of every line.
    pub fn from_text(path: Option<String>, name: String, text: String) -> (r: Source)
        ensures
            r.path == path,
            r.name == name,
            r.text == text,
            r.wf(),
    {
        let n = text.as_str().unicode_len();
        let mut lines: Vec<LineRange> = Vec::new();
        let mut line_start: usize = 0;
        let mut i: usize = 0;
        while i < n
            invariant
                line_start <= i <= n,
                n == text@.len(),
                lines@.map_values(|r: LineRange| (r.start as int, r.end as int))
                    + line_ranges_from(text@, i as nat, line_start as nat) == line_ranges(text@),
            decreases n - i,
        {
            let c = text.as_str().get_char(i);
            let ghost prev_lines = lines@;
            let ghost prev_start = line_start;
            if c == '\n' {
                lines.push(LineRange { start: line_start, end: i + 1 });
                line_start = i + 1;
            }
            i = i + 1;
            proof {
                let f = |r: LineRange| (r.start as int, r.end as int);
                if c == '\n' {
                    assert(lines@.map_values(f) =~= prev_lines.map_values(f).push(
                        (prev_start as int, i as int),
                    ));
                    assert(prev_lines.map_values(f) + line_ranges_from(
                        text@,
                        (i - 1) as nat,
                        prev_start as nat,
                    ) =~= lines@.map_values(f) + line_ranges_from(
                        text@,
                        i as nat,
                        line_start as nat,
                    ));
                }
            }
        }
        lines.push(LineRange { start: line_start, end: n });
        proof {
            let f = |r: LineRange| (r.start as int, r.end as int);
            assert(lines@.map_values(f) =~= line_ranges(text@));
        }
        Source { path, name, text, lines }
    }

    /// Returns the exact text of the line at `index`; the caller guarantees
    /// the index is in bounds.
    pub fn get_line(&self, index: usize) -> (r: String)
        requires
            self.wf(),
            index < self.lines@.len(),
        ensures
            r@ == self.text@.subrange(
                self.lines@[index as int].start as int,
                self.lines@[index as int].end as int,
            ),
    {
        proof {
            lemma_line_ranges_from_props(self.text@, 0, 0);
            let f = |r: LineRange| (r.start as int, r.end as int);
            assert(self.lines@.map_values(f)[index as int] == f(self.lines@[index as int]));
        }
        let rng = self.lines[index];
        self.text.as_str().substring_char(rng.start, rng.end).to_owned()
    }
}

/// The purely numeric part of a `Location`: what a span covers, independent of
/// which source it points into.
pub ghost struct Span {
    pub line: int,
    pub offset: int,
    pub length: int,
    pub multiline: bool,
}

/// The minimal span covering both inputs: the smaller line, the offset of
/// whichever input starts first in `(line, offset)` order, the distance from
/// the smaller start offset to the larger end offset, and a multi-line flag
/// set exactly when the inputs sit on different lines.
pub open spec fn combine_span(a: Span, b: Span) -> Span {
    Span {
        line: if a.line <= b.line {
            a.line
        } else {
            b.line
        },
        offset: if a.line < b.line || (a.line == b.line && a.offset <= b.offset) {
            a.offset
        } else {
            b.offset
        },
        length: (if a.offset + a.length >= b.offset + b.length {
            a.offset + a.length
        } else {
            b.offset + b.length
        }) - (if a.offset <= b.offset {
            a.offset
        } else {
            b.offset
        }),
        multiline: a.line != b.line,
    }
}

/// Combining two spans is commutative: the enclosing span does not depend on
/// the order of its inputs.
pub proof fn lemma_combine_span_commutative(a: Span, b: Span)
    ensures
        combine_span(a, b) == combine_span(b, a),
{
}

/// Combining a single-line span with itself gives that span back. (A span
/// already marked multi-line is not recovered exactly: the combination of two
/// spans on the same line is always marked single-line.)
pub proof fn lemma_combine_span_idempotent(a: Span)
    requires
        !a.multiline,
    ensures
        combine_span(a, a) == a,
{
}

/// The exact location `combine` produces: the combined span's fields, in
/// the first operand's source.
pub open spec fn spec_combine(a: Location, b: Location) -> Location {
    Location {
        source: a.source,
        line: combine_span(a.span(), b.span()).line as usize,
        offset: combine_span(a.span(), b.span()).offset as usize,
        length: combine_span(a.span(), b.span()).length as usize,
        multiline: combine_span(a.span(), b.span()).multiline,
    }
}

/// A span within one source's text: zero-based line index, zero-based column
/// offset within that line, a length in characters, and a flag marking spans
/// that cross line boundaries. Shares its `Source` read-only.
#[derive(Debug)]
pub struct Location {
    pub source: Rc<Source>,
    pub line: usize,
    pub offset: usize,
    pub length: usize,
    pub multiline: bool,
}

impl Clone for Location {
    fn clone(&self) -> (r: Location)
        ensures
            r == *self,
    {
        Location {
            source: Rc::clone(&self.source),
            line: self.line,
            offset: self.offset,
            length: self.length,
            multiline: self.multiline,
        }
    }
}

impl Location {
    /// The numeric content of this location.
    pub open spec fn span(&self) -> Span {
        Span {
            line: self.line as int,
            offset: self.offset as int,
            length: self.length as int,
            multiline: self.multiline,
        }
    }

    pub fn new(source: Rc<Source>, line: usize, offset: usize, length: usize) -> (r: Location)
        ensures
            r.source == source,
            r.line == line,
            r.offset == offset,
            r.length == length,
            !r.multiline,
    {
        Location { source, line, offset, length, multiline: false }
    }

    pub fn new_multiline(source: Rc<Source>, line: usize, offset: usize, length: usize) -> (r:
        Location)
        ensures
            r.source == source,
            r.line == line,
            r.offset == offset,
            r.length == length,
            r.multiline,
    {
        Location { source, line, offset, length, multiline: true }
    }

    /// A synthetic location pointing one past the last character of `source`,
    /// with length 1.
    pub fn new_eof(source: Rc<Source>) -> (r: Location)
        requires
            source.wf(),
            source.text@.len() < usize::MAX,
        ensures
            r.source == source,
            r.line == source.lines@.len() - 1,
            r.offset == source.text@.len(),
            r.length == 1,
            !r.multiline,
    {
        proof {
            lemma_line_ranges_from_props(source.text@, 0, 0);
            let f = |r: LineRange| (r.start as int, r.end as int);
            assert(source.lines@.map_values(f).len() == source.lines@.len());
            assert(source.lines@.map_values(f).last() == f(source.lines@.last()));
        }
        let last_index = source.lines.len() - 1;
        let offset = source.lines[last_index].end;
        Location { line: last_index, offset, source, length: 1, multiline: false }
    }

    /// The minimal span covering `self` and `other`. Combining locations from
    /// different sources is a programming error, not a user error, so the
    /// sources are required to agree up front.
    pub fn combine(&self, other: &Location) -> (r: Location)
        requires
            self.source.name@ == other.source.name@,
            self.offset + self.length <= usize::MAX,
            other.offset + other.length <= usize::MAX,
        ensures
            r.span() == combine_span(self.span(), other.span()),
            r.source == self.source,
            r == spec_combine(*self, *other),
    {
        let line = if self.line <= other.line {
            self.line
        } else {
            other.line
        };
        let self_first = self.line < other.line || (self.line == other.line && self.offset
            <= other.offset);
        let offset = if self_first {
            self.offset
        } else {
            other.offset
        };
        let self_end = self.offset + self.length;
        let other_end = other.offset + other.length;
        let max_end = if self_end >= other_end {
            self_end
        } else {
            other_end
        };
        let min_offset = if self.offset <= other.offset {
            self.offset
        } else {
            other.offset
        };
        let length = max_end - min_offset;
        Location {
            source: Rc::clone(&self.source),
            line,
            offset,
            length,
            multiline: self.line != other.line,
        }
    }
}

/// Carried by every token and AST node: the span of its full source text.
pub trait HasLoc {
    /// The location this value carries.
    spec fn spec_loc(&self) -> Location;

    fn get_loc(&self) -> (r: &Location)
        ensures
            *r == self.spec_loc(),
    ;
}

} // verus!
