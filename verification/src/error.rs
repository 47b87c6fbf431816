//! Diagnostics: a renderable error trait, a shared indent-aware rendering
//! context, and an aggregate error collection.

use vstd::prelude::*;
use crate::source::Location;
use crate::text::{repeat_seq, repeat_str, dec_str, u64_to_string, pad_left_spec, pad_left};

verus! {

/// A location that the renderer can point at: its source's line table is
/// consistent and its line index names a real line.
pub open spec fn renderable_loc(loc: Location) -> bool {
    &&& loc.source.wf()
    &&& loc.line < loc.source.lines@.len()
}

/// The exact text that `ErrorDisplay::error_with_location` produces: the
/// indented `level: message` line, the source's display name, the 1-based
/// line number with the line's exact text, and a caret line underlining the
/// span (with a trailing `>` marking spans that continue past this line).
pub open spec fn rendered_error(
    indent: nat,
    level: Seq<char>,
    message: Seq<char>,
    loc: Location,
) -> Seq<char> {
    repeat_seq("  | "@, indent) + level + ": "@ + message + "\n"@ + "     |> In "@
        + loc.source.name@ + "\n"@ + pad_left_spec(dec_str((loc.line + 1) as nat), 4) + " | "@
        + loc.source.text@.subrange(
        loc.source.lines@[loc.line as int].start as int,
        loc.source.lines@[loc.line as int].end as int,
    ) + "       "@ + repeat_seq(" "@, loc.offset as nat) + repeat_seq("^"@, loc.length as nat) + (
    if loc.multiline {
        ">\n"@
    } else {
        "\n"@
    })
}

/// An error that can render itself to a human-readable multi-line string
/// through a shared `ErrorDisplay`.
pub trait CompilerError: Sized {
    /// Whether this error's data is fit to render.
    spec fn renderable(&self) -> bool;

    /// The exact text this error renders to at a given indent level.
    spec fn rendered(&self, indent: nat) -> Seq<char>;

    fn render(&self, display: &mut ErrorDisplay) -> (r: String)
        requires
            self.renderable(),
        ensures
            r@ == self.rendered(old(display).indent as nat),
            *final(display) == *old(display),
    ;
}

/// Indent-aware rendering context shared by every error of one report:
/// nested sub-errors render with one extra `  | ` prefix level.
pub struct ErrorDisplay {
    pub indent: usize,
}

impl ErrorDisplay {
    pub fn new() -> (r: ErrorDisplay)
        ensures
            r.indent == 0,
    {
        ErrorDisplay { indent: 0 }
    }

    /// Runs `func` once with the indent level raised by one, then restores
    /// it.
    pub fn with_indent<F: FnOnce() -> ()>(&mut self, func: F)
        requires
            old(self).indent < usize::MAX,
            call_requires(func, ()),
        ensures
            *final(self) == *old(self),
            call_ensures(func, (), ()),
    {
        self.indent = self.indent + 1;
        func();
        self.indent = self.indent - 1;
    }

    /// Renders one `level: message` diagnostic with full source context:
    /// display name, 1-based line number, the line's exact text, and a caret
    /// line underlining the span.
    pub fn error_with_location(&self, level: &str, message: &str, loc: &Location) -> (r: String)
        requires
            renderable_loc(*loc),
        ensures
            r@ == rendered_error(self.indent as nat, level@, message@, *loc),
    {
        // reading the table's length bounds the line index for the 1-based
        // line-number arithmetic below
        let line_count = loc.source.lines.len();
        let mut msg = repeat_str("  | ", self.indent);
        msg.append(level);
        msg.append(": ");
        msg.append(message);
        msg.append("\n");
        msg.append("     |> In ");
        msg.append(loc.source.name.as_str());
        msg.append("\n");
        let num = u64_to_string((loc.line + 1) as u64);
        let padded = pad_left(num, 4);
        msg.append(padded.as_str());
        msg.append(" | ");
        let line_str = loc.source.get_line(loc.line);
        msg.append(line_str.as_str());
        msg.append("       ");
        let spaces = repeat_str(" ", loc.offset);
        msg.append(spaces.as_str());
        let carets = repeat_str("^", loc.length);
        msg.append(carets.as_str());
        if loc.multiline {
            msg.append(">\n");
        } else {
            msg.append("\n");
        }
        proof {
            assert(msg@ =~= rendered_error(self.indent as nat, level@, message@, *loc));
        }
        msg
    }
}

/// The renders of `es[k..]`, each followed by a newline.
pub open spec fn rendered_seq<E: CompilerError>(es: Seq<E>, k: int) -> Seq<char>
    decreases es.len() - k,
{
    if k < 0 || k >= es.len() {
        Seq::empty()
    } else {
        es[k].rendered(0) + "\n"@ + rendered_seq(es, k + 1)
    }
}

/// An ordered aggregate of errors of one kind.
#[derive(Debug)]
pub struct ErrorSet<E> where E: CompilerError {
    errors: Vec<E>,
}

impl<E: CompilerError> View for ErrorSet<E> {
    type V = Seq<E>;

    closed spec fn view(&self) -> Seq<E> {
        self.errors@
    }
}

impl<E: CompilerError> ErrorSet<E> {
    pub fn new() -> (r: ErrorSet<E>)
        ensures
            r@ == Seq::<E>::empty(),
    {
        ErrorSet { errors: Vec::new() }
    }

    /// Wraps an already-collected vector of errors, keeping order.
    pub fn from_vec(errors: Vec<E>) -> (r: ErrorSet<E>)
        ensures
            r@ == errors@,
    {
        ErrorSet { errors }
    }

    pub fn is_empty(&self) -> (r: bool)
        ensures
            r == (self@.len() == 0),
    {
        self.errors.is_empty()
    }

    pub fn len(&self) -> (r: usize)
        ensures
            r == self@.len(),
    {
        self.errors.len()
    }

    /// The error at `index`.
    pub fn get(&self, index: usize) -> (r: &E)
        requires
            index < self@.len(),
        ensures
            *r == self@[index as int],
    {
        &self.errors[index]
    }

    /// Drains every error of `errors` into `self`, keeping order.
    pub fn add_errors(&mut self, errors: &mut ErrorSet<E>)
        ensures
            final(self)@ == old(self)@ + old(errors)@,
            final(errors)@ == Seq::<E>::empty(),
    {
        self.errors.append(&mut errors.errors);
    }

    pub fn add_error(&mut self, error: E)
        ensures
            final(self)@ == old(self)@.push(error),
    {
        self.errors.push(error);
    }

    /// Renders every error in order, one per paragraph.
    pub fn render_all(&self) -> (r: String)
        requires
            forall|i: int| 0 <= i < self@.len() ==> (#[trigger] self@[i]).renderable(),
        ensures
            r@ == rendered_seq(self@, 0),
    {
        let mut display = ErrorDisplay::new();
        let mut out = String::new();
        let n = self.errors.len();
        let mut i: usize = 0;
        proof {
            assert(out@ + rendered_seq(self@, 0) =~= rendered_seq(self@, 0));
        }
        while i < n
            invariant
                i <= n,
                n == self@.len(),
                display.indent == 0,
                forall|k: int| 0 <= k < self@.len() ==> (#[trigger] self@[k]).renderable(),
                rendered_seq(self@, 0) == out@ + rendered_seq(self@, i as int),
            decreases n - i,
        {
            let rendered = self.errors[i].render(&mut display);
            out.append(rendered.as_str());
            out.append("\n");
            proof {
                assert(rendered_seq(self@, 0) =~= out@ + rendered_seq(self@, i + 1));
            }
            i = i + 1;
        }
        out
    }
}

} // verus!
