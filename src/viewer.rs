use vstd::prelude::*;
use vstd::utf8::*;

use crate::context::{is_context_result, source_context, SourceContext, ViewerError};

verus! {

/// Bytes of context shown on either side of a span by default.
pub const CONTEXT_SIZE: usize = 1000;

/// A half-open byte range `[start, end)` of the source text, as the source
/// map gives it for a code location.
#[derive(Debug, Clone, Copy, PartialEq, Eq, Structural)]
pub struct Span {
    pub start: u32,
    pub end: u32,
}

/// The source file of one compiled module, loaded once, and the size of the
/// context window shown around a span.
pub struct ModuleViewer {
    file_index: usize,
    source_code: Vec<String>,
    context_size: usize,
}

impl ModuleViewer {
    #[verifier::type_invariant]
    spec fn wf(&self) -> bool {
        self.file_index < self.source_code.len()
    }

    /// The loaded source text.
    pub closed spec fn text(&self) -> Seq<char> {
        self.source_code[self.file_index as int]@
    }

    /// Bytes of context shown on either side of a span.
    pub closed spec fn spec_context_size(&self) -> usize {
        self.context_size
    }

    /// A viewer over `file_contents`, with `CONTEXT_SIZE` bytes of context.
    pub fn new(file_contents: String) -> (r: Self)
        ensures
            r.text() == file_contents@,
            r.spec_context_size() == CONTEXT_SIZE,
    {
        Self::with_context_size(file_contents, CONTEXT_SIZE)
    }

    /// A viewer over `file_contents`, with `context_size` bytes of context.
    pub fn with_context_size(file_contents: String, context_size: usize) -> (r: Self)
        ensures
            r.text() == file_contents@,
            r.spec_context_size() == context_size,
    {
        let mut source_code: Vec<String> = Vec::new();
        source_code.push(file_contents);
        let file_index: usize = 0;
        Self { file_index, source_code, context_size }
    }

    /// The text around the span that the source map gave for a code
    /// location, `None` when it has no entry for that location.
    pub fn source_for_code_location(&self, span: Option<Span>) -> (r: Result<
        SourceContext,
        ViewerError,
    >)
        ensures
            span is None <==> (r matches Err(ViewerError::MappingNotFound)),
            span matches Some(s) ==> is_context_result(
                r,
                encode_utf8(self.text()),
                s.start as int,
                s.end as int,
                self.spec_context_size() as int,
            ),
    {
        proof {
            use_type_invariant(self);
        }
        match span {
            None => Err(ViewerError::MappingNotFound),
            Some(s) => source_context(
                self.source_code[self.file_index].as_str(),
                s.start as usize,
                s.end as usize,
                self.context_size,
            ),
        }
    }

    /// The whole loaded source text.
    pub fn backing_string(&self) -> (r: String)
        ensures
            r@ == self.text(),
    {
        proof {
            use_type_invariant(self);
        }
        self.source_code[self.file_index].clone()
    }
}

} // verus!
