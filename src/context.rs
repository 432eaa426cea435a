use vstd::prelude::*;
use vstd::string::*;
use vstd::utf8::*;

verus! {

/// Why a span could not be turned into a source context.
#[derive(Debug, Clone, Copy, PartialEq, Eq, Structural)]
pub enum ViewerError {
    /// The source map holds no span for the requested code location.
    MappingNotFound,
    /// The span is reversed or reaches past the end of the source text.
    SpanOutOfBounds,
    /// Widening the span by the context size overflows `usize`.
    WindowOverflow,
    /// A bound of the span or of its window falls inside a UTF-8 character.
    NotCharBoundary,
}

/// First byte of the window: `context_size` bytes before the span, or the
/// start of the text.
pub open spec fn window_start(loc_start: int, context_size: int) -> int {
    if loc_start >= context_size {
        loc_start - context_size
    } else {
        0
    }
}

/// One past the last byte of the window: `context_size` bytes after the
/// span, or the end of the text.
pub open spec fn window_end(loc_end: int, context_size: int, source_len: int) -> int {
    if loc_end + context_size <= source_len {
        loc_end + context_size
    } else {
        source_len
    }
}

/// A span that starts no later than it ends and lies within the text.
pub open spec fn span_in_bounds(loc_start: int, loc_end: int, source_len: int) -> bool {
    0 <= loc_start <= loc_end <= source_len
}

/// The window `[context_start, context_end)` around the span
/// `[loc_start, loc_end)` in a text of `source_len` bytes.
///
/// Fails with `SpanOutOfBounds` when the span is reversed or reaches past
/// the text, and otherwise with `WindowOverflow` when `loc_end +
/// context_size` does not fit in `usize`.
pub fn context_bounds(loc_start: usize, loc_end: usize, source_len: usize, context_size: usize)
    -> (r: Result<(usize, usize), ViewerError>)
    ensures
        !span_in_bounds(loc_start as int, loc_end as int, source_len as int) ==> r
            == Err::<(usize, usize), ViewerError>(ViewerError::SpanOutOfBounds),
        span_in_bounds(loc_start as int, loc_end as int, source_len as int) && loc_end
            + context_size > usize::MAX ==> r == Err::<(usize, usize), ViewerError>(
            ViewerError::WindowOverflow,
        ),
        span_in_bounds(loc_start as int, loc_end as int, source_len as int) && loc_end
            + context_size <= usize::MAX ==> r matches Ok(_),
        r matches Ok((cs, ce)) ==> {
            &&& cs == window_start(loc_start as int, context_size as int)
            &&& ce == window_end(loc_end as int, context_size as int, source_len as int)
            &&& 0 <= cs <= loc_start <= loc_end <= ce <= source_len
            &&& loc_start < context_size ==> cs == 0
            &&& loc_end + context_size > source_len ==> ce == source_len
        },
{
    if loc_start > loc_end || loc_end > source_len {
        return Err(ViewerError::SpanOutOfBounds);
    }
    let widened = match loc_end.checked_add(context_size) {
        Some(e) => e,
        None => return Err(ViewerError::WindowOverflow),
    };
    let context_start = loc_start.saturating_sub(context_size);
    let context_end = if widened <= source_len {
        widened
    } else {
        source_len
    };
    Ok((context_start, context_end))
}

/// The text around a span: what comes before it, the span itself, and what
/// follows it.
#[derive(Debug, Clone)]
pub struct SourceContext {
    pub left: String,
    pub highlight: String,
    pub remainder: String,
}

/// Every bound of the span and of its window falls between two UTF-8
/// characters of `bytes`.
pub open spec fn window_on_char_boundaries(
    bytes: Seq<u8>,
    loc_start: int,
    loc_end: int,
    context_size: int,
) -> bool {
    &&& is_char_boundary(bytes, window_start(loc_start, context_size))
    &&& is_char_boundary(bytes, loc_start)
    &&& is_char_boundary(bytes, loc_end)
    &&& is_char_boundary(bytes, window_end(loc_end, context_size, bytes.len() as int))
}

/// The context that `source_context` owes for a span that it accepts: the
/// three parts are, byte for byte, the window's stretch before the span, the
/// span, and the window's stretch after it.
pub open spec fn is_context_of(
    c: SourceContext,
    bytes: Seq<u8>,
    loc_start: int,
    loc_end: int,
    context_size: int,
) -> bool {
    let cs = window_start(loc_start, context_size);
    let ce = window_end(loc_end, context_size, bytes.len() as int);
    &&& encode_utf8(c.left@) == bytes.subrange(cs, loc_start)
    &&& encode_utf8(c.highlight@) == bytes.subrange(loc_start, loc_end)
    &&& encode_utf8(c.remainder@) == bytes.subrange(loc_end, ce)
    &&& encode_utf8(c.left@ + c.highlight@ + c.remainder@) == bytes.subrange(cs, ce)
}

/// The UTF-8 encoding of a concatenation is the concatenation of the
/// encodings.
pub proof fn lemma_encode_utf8_concat(a: Seq<char>, b: Seq<char>)
    ensures
        encode_utf8(a + b) == encode_utf8(a) + encode_utf8(b),
    decreases a.len(),
{
    if a.len() == 0 {
        assert(a + b =~= b);
        assert(encode_utf8(a) + encode_utf8(b) =~= encode_utf8(b));
    } else {
        assert((a + b).drop_first() =~= a.drop_first() + b);
        lemma_encode_utf8_concat(a.drop_first(), b);
        assert(encode_utf8(a + b) =~= encode_utf8(a) + encode_utf8(b));
    }
}

/// Inside a prefix that ends on a character boundary, the character
/// boundaries are those of the whole sequence.
proof fn lemma_prefix_char_boundary(bytes: Seq<u8>, m: int, j: int)
    requires
        valid_utf8(bytes),
        is_char_boundary(bytes, m),
        0 <= j <= m <= bytes.len(),
    ensures
        is_char_boundary(bytes.subrange(0, m), j) == is_char_boundary(bytes, j),
{
    broadcast use valid_utf8_split, is_char_boundary_start_end_of_seq;

    let p = bytes.subrange(0, m);
    assert(valid_utf8(p));
    if j == 0 {
        is_char_boundary_start_end_of_seq(p);
        is_char_boundary_start_end_of_seq(bytes);
    } else if j == m {
        is_char_boundary_start_end_of_seq(p);
    } else {
        is_char_boundary_iff_not_is_continuation_byte(p, j);
        is_char_boundary_iff_not_is_continuation_byte(bytes, j);
    }
}

/// What cutting the span `[loc_start, loc_end)` with `context_size` bytes
/// of context on either side out of the text `bytes` gives: the first
/// violated condition among the span's bounds, the window's overflow and the
/// character boundaries, else the context itself.
pub open spec fn is_context_result(
    r: Result<SourceContext, ViewerError>,
    bytes: Seq<u8>,
    ls: int,
    le: int,
    n: int,
) -> bool {
    &&& !span_in_bounds(ls, le, bytes.len() as int) <==> (r matches Err(
        ViewerError::SpanOutOfBounds,
    ))
    &&& span_in_bounds(ls, le, bytes.len() as int) && le + n > usize::MAX <==> (r matches Err(
        ViewerError::WindowOverflow,
    ))
    &&& span_in_bounds(ls, le, bytes.len() as int) && le + n <= usize::MAX
        && !window_on_char_boundaries(bytes, ls, le, n) <==> (r matches Err(
        ViewerError::NotCharBoundary,
    ))
    &&& !(r matches Err(ViewerError::MappingNotFound))
    &&& r matches Ok(c) ==> is_context_of(c, bytes, ls, le, n)
}

/// For a span within the text, the window encloses the span and stays
/// within the text; it starts at the text's start when the span starts
/// less than `context_size` bytes into it, and ends at the text's end when
/// fewer than `context_size` bytes follow the span.
pub proof fn lemma_window_ordered(loc_start: int, loc_end: int, source_len: int, context_size: nat)
    requires
        span_in_bounds(loc_start, loc_end, source_len),
    ensures
        0 <= window_start(loc_start, context_size as int) <= loc_start,
        loc_end <= window_end(loc_end, context_size as int, source_len) <= source_len,
        loc_start < context_size ==> window_start(loc_start, context_size as int) == 0,
        loc_end + context_size > source_len ==> window_end(
            loc_end,
            context_size as int,
            source_len,
        ) == source_len,
{
}

/// Cuts the span `[loc_start, loc_end)` of `source`, in bytes, and up to
/// `context_size` bytes on either side of it, out of the text.
///
/// Fails, in this order, with `SpanOutOfBounds` when the span is reversed
/// or reaches past the text, with `WindowOverflow` when the window's end
/// does not fit in `usize`, and with `NotCharBoundary` when a bound of the
/// span or of the window falls inside a character.
pub fn source_context(source: &str, loc_start: usize, loc_end: usize, context_size: usize)
    -> (r: Result<SourceContext, ViewerError>)
    ensures
        is_context_result(r, source.spec_bytes(), loc_start as int, loc_end as int, context_size as int),
{
    let ghost bytes = source.spec_bytes();
    let source_len = source.as_bytes().len();
    let (context_start, context_end) = match context_bounds(
        loc_start,
        loc_end,
        source_len,
        context_size,
    ) {
        Ok(b) => b,
        Err(e) => return Err(e),
    };
    if !(source.is_char_boundary(context_start) && source.is_char_boundary(loc_start)
        && source.is_char_boundary(loc_end) && source.is_char_boundary(context_end)) {
        return Err(ViewerError::NotCharBoundary);
    }
    Ok(cut_window(source, context_start, loc_start, loc_end, context_end))
}

/// Cuts `[context_start, loc_start)`, `[loc_start, loc_end)` and
/// `[loc_end, context_end)` out of `source`, all four bounds being character
/// boundaries.
fn cut_window(
    source: &str,
    context_start: usize,
    loc_start: usize,
    loc_end: usize,
    context_end: usize,
) -> (c: SourceContext)
    requires
        context_start <= loc_start <= loc_end <= context_end <= source.spec_bytes().len(),
        is_char_boundary(source.spec_bytes(), context_start as int),
        is_char_boundary(source.spec_bytes(), loc_start as int),
        is_char_boundary(source.spec_bytes(), loc_end as int),
        is_char_boundary(source.spec_bytes(), context_end as int),
    ensures
        ({
            let bytes = source.spec_bytes();
            let (cs, ls, le, ce) = (
                context_start as int,
                loc_start as int,
                loc_end as int,
                context_end as int,
            );
            &&& encode_utf8(c.left@) == bytes.subrange(cs, ls)
            &&& encode_utf8(c.highlight@) == bytes.subrange(ls, le)
            &&& encode_utf8(c.remainder@) == bytes.subrange(le, ce)
            &&& encode_utf8(c.left@ + c.highlight@ + c.remainder@) == bytes.subrange(cs, ce)
        }),
{
    let ghost bytes = source.spec_bytes();
    proof {
        encode_utf8_valid_utf8(source@);
    }
    let (upto_end, _) = source.split_at(context_end);
    proof {
        lemma_prefix_char_boundary(bytes, context_end as int, loc_end as int);
    }
    let (upto_span_end, after) = upto_end.split_at(loc_end);
    proof {
        assert(upto_span_end.spec_bytes() =~= bytes.subrange(0, loc_end as int));
        assert(after.spec_bytes() =~= bytes.subrange(loc_end as int, context_end as int));
        lemma_prefix_char_boundary(bytes, loc_end as int, loc_start as int);
    }
    let (upto_span_start, span) = upto_span_end.split_at(loc_start);
    proof {
        assert(upto_span_start.spec_bytes() =~= bytes.subrange(0, loc_start as int));
        assert(span.spec_bytes() =~= bytes.subrange(loc_start as int, loc_end as int));
        lemma_prefix_char_boundary(bytes, loc_start as int, context_start as int);
    }
    let (_, before) = upto_span_start.split_at(context_start);
    proof {
        assert(before.spec_bytes() =~= bytes.subrange(context_start as int, loc_start as int));
    }
    let c = SourceContext {
        left: before.to_owned(),
        highlight: span.to_owned(),
        remainder: after.to_owned(),
    };
    proof {
        lemma_encode_utf8_concat(c.left@, c.highlight@);
        lemma_encode_utf8_concat(c.left@ + c.highlight@, c.remainder@);
        assert(bytes.subrange(context_start as int, loc_start as int) + bytes.subrange(
            loc_start as int,
            loc_end as int,
        ) + bytes.subrange(loc_end as int, context_end as int) =~= bytes.subrange(
            context_start as int,
            context_end as int,
        ));
    }
    c
}

} // verus!
