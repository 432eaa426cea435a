use move_bytecode_viewer::{
    context_bounds, source_context, ModuleViewer, Span, ViewerError, CONTEXT_SIZE,
};

const SAMPLE: &str = "fun f() { let x = 1; }";

#[test]
fn sample_span_with_context_five() {
    assert_eq!(SAMPLE.len(), 22);
    assert_eq!(context_bounds(18, 19, SAMPLE.len(), 5), Ok((13, 22)));
    let viewer = ModuleViewer::with_context_size(SAMPLE.to_string(), 5);
    let c = viewer
        .source_for_code_location(Some(Span { start: 18, end: 19 }))
        .unwrap();
    assert_eq!(c.left, &SAMPLE[13..18]);
    assert_eq!(c.left, " x = ");
    assert_eq!(c.highlight, "1");
    assert_eq!(c.remainder, "; }");
}

#[test]
fn missing_mapping_is_an_error() {
    let viewer = ModuleViewer::new(SAMPLE.to_string());
    assert_eq!(
        viewer.source_for_code_location(None).unwrap_err(),
        ViewerError::MappingNotFound
    );
}

#[test]
fn span_past_end_is_out_of_bounds() {
    let viewer = ModuleViewer::new(SAMPLE.to_string());
    let r = viewer.source_for_code_location(Some(Span { start: 20, end: 23 }));
    assert_eq!(r.unwrap_err(), ViewerError::SpanOutOfBounds);
}

#[test]
fn reversed_span_is_out_of_bounds() {
    assert_eq!(
        source_context(SAMPLE, 5, 4, 3).unwrap_err(),
        ViewerError::SpanOutOfBounds
    );
    assert_eq!(context_bounds(5, 4, 22, 3), Err(ViewerError::SpanOutOfBounds));
}

#[test]
fn window_overflow_is_reported() {
    assert_eq!(
        source_context(SAMPLE, 1, 2, usize::MAX).unwrap_err(),
        ViewerError::WindowOverflow
    );
    assert_eq!(
        context_bounds(0, 1, 22, usize::MAX),
        Err(ViewerError::WindowOverflow)
    );
    assert_eq!(context_bounds(0, 0, 22, usize::MAX), Ok((0, 22)));
}

#[test]
fn span_inside_a_character_is_rejected() {
    let text = "h\u{e9}llo";
    assert_eq!(
        source_context(text, 2, 3, 10).unwrap_err(),
        ViewerError::NotCharBoundary
    );
}

#[test]
fn window_edge_inside_a_character_is_rejected() {
    let text = "\u{e9} abc";
    assert_eq!(context_bounds(3, 4, text.len(), 2), Ok((1, 6)));
    assert_eq!(
        source_context(text, 3, 4, 2).unwrap_err(),
        ViewerError::NotCharBoundary
    );
    let c = source_context(text, 3, 4, 3).unwrap();
    assert_eq!(c.left, "\u{e9} ");
    assert_eq!(c.highlight, "a");
    assert_eq!(c.remainder, "bc");
}

#[test]
fn multibyte_text_is_cut_on_characters() {
    let text = "\u{3b1}\u{3b2}\u{3b3}";
    let c = source_context(text, 2, 4, 2).unwrap();
    assert_eq!(c.left, "\u{3b1}");
    assert_eq!(c.highlight, "\u{3b2}");
    assert_eq!(c.remainder, "\u{3b3}");
}

#[test]
fn left_edge_clamps_to_start() {
    assert_eq!(context_bounds(3, 5, 22, 10), Ok((0, 15)));
    let c = source_context(SAMPLE, 3, 5, 10).unwrap();
    assert_eq!(c.left, "fun");
    assert_eq!(c.highlight, " f");
    assert_eq!(c.remainder, "() { let x");
}

#[test]
fn right_edge_clamps_to_end() {
    assert_eq!(context_bounds(10, 13, 22, 10), Ok((0, 22)));
    assert_eq!(context_bounds(12, 13, 22, 9), Ok((3, 22)));
    assert_eq!(context_bounds(12, 13, 22, 4), Ok((8, 17)));
}

#[test]
fn parts_concatenate_to_the_window() {
    for (start, end, size) in [(0usize, 0usize, 0usize), (4, 7, 2), (10, 22, 3), (22, 22, 5)] {
        let (cs, ce) = context_bounds(start, end, SAMPLE.len(), size).unwrap();
        assert!(cs <= start && start <= end && end <= ce && ce <= SAMPLE.len());
        let c = source_context(SAMPLE, start, end, size).unwrap();
        assert_eq!(c.left, &SAMPLE[cs..start]);
        assert_eq!(c.highlight, &SAMPLE[start..end]);
        assert_eq!(c.remainder, &SAMPLE[end..ce]);
        assert_eq!(format!("{}{}{}", c.left, c.highlight, c.remainder), &SAMPLE[cs..ce]);
    }
}

#[test]
fn default_context_covers_a_small_file() {
    assert_eq!(CONTEXT_SIZE, 1000);
    let viewer = ModuleViewer::new(SAMPLE.to_string());
    let c = viewer
        .source_for_code_location(Some(Span { start: 10, end: 13 }))
        .unwrap();
    assert_eq!(c.left, "fun f() { ");
    assert_eq!(c.highlight, "let");
    assert_eq!(c.remainder, " x = 1; }");
}

#[test]
fn default_context_is_bounded() {
    let text = "a".repeat(3000);
    let viewer = ModuleViewer::new(text.clone());
    let c = viewer
        .source_for_code_location(Some(Span { start: 1500, end: 1502 }))
        .unwrap();
    assert_eq!(c.left.len(), 1000);
    assert_eq!(c.highlight.len(), 2);
    assert_eq!(c.remainder.len(), 1000);
}

#[test]
fn backing_string_is_the_loaded_text() {
    let viewer = ModuleViewer::with_context_size(SAMPLE.to_string(), 4);
    assert_eq!(viewer.backing_string(), SAMPLE);
    let _ = viewer.source_for_code_location(Some(Span { start: 4, end: 5 }));
    let _ = viewer.source_for_code_location(None);
    let _ = viewer.source_for_code_location(Some(Span { start: 9, end: 99 }));
    assert_eq!(viewer.backing_string(), SAMPLE);
}

#[test]
fn empty_text_and_empty_span() {
    let viewer = ModuleViewer::new(String::new());
    let c = viewer
        .source_for_code_location(Some(Span { start: 0, end: 0 }))
        .unwrap();
    assert_eq!(c.left, "");
    assert_eq!(c.highlight, "");
    assert_eq!(c.remainder, "");
    assert_eq!(viewer.backing_string(), "");
}
