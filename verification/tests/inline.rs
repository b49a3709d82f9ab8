use kursach::codegen::blocks::{process_inline, render_marker};

#[test]
fn plain_text_is_unchanged() {
    assert_eq!(process_inline("Hello, world { } }}"), "Hello, world { } }}");
    assert_eq!(process_inline(""), "");
}

#[test]
fn reference_markers() {
    assert_eq!(process_inline("see {{ref:fig1}}"), "see \\ref{fig1}");
    assert_eq!(process_inline("p. {{pageref:tbl}}"), "p. \\pageref{tbl}");
    assert_eq!(process_inline("[{{cite:knuth}}]"), "[\\cite{knuth}]");
    assert_eq!(process_inline("{{url:https://x.org/a}}"), "\\url{https://x.org/a}");
}

#[test]
fn formatting_markers_render_their_text_again() {
    assert_eq!(process_inline("{{bold:a {{italic:b}}"), "\\textbf{a {{italic:b}");
    assert_eq!(process_inline("{{bold:x}} and {{code:y}}"), "\\textbf{x} and \\texttt{y}");
    assert_eq!(process_inline("{{italic:см. {{ref:a}}"), "\\textit{см. {{ref:a}");
}

#[test]
fn unknown_marker_is_kept() {
    assert_eq!(process_inline("{{foo:bar}}"), "{{foo:bar}}");
    assert_eq!(process_inline("{{}}"), "{{}}");
}

#[test]
fn unclosed_marker_keeps_rest() {
    assert_eq!(process_inline("a {{ref:x} b"), "a {{ref:x} b");
    assert_eq!(process_inline("{{"), "{{");
    assert_eq!(process_inline("x{"), "x{");
}

#[test]
fn closing_pair_is_the_first_one() {
    assert_eq!(process_inline("{{ref:a}}}"), "\\ref{a}}");
    assert_eq!(process_inline("{{{ref:a}}"), "{{{ref:a}}");
    assert_eq!(process_inline("{{ref:a}b}}c"), "\\ref{a}b}c");
}

#[test]
fn marker_rendering() {
    assert_eq!(render_marker("ref:x"), "\\ref{x}");
    assert_eq!(render_marker("bold:{{code:z}}"), "\\textbf{\\texttt{z}}");
    assert_eq!(render_marker("zzz"), "{{zzz}}");
}
