use codex_core::exec_format::{
    format_exec_output_str, ExecToolCallOutput, StreamOutput, MODEL_FORMAT_HEAD_LINES,
    MODEL_FORMAT_MAX_BYTES, MODEL_FORMAT_MAX_LINES, MODEL_FORMAT_TAIL_LINES,
};

fn exec_output(aggregated: String) -> ExecToolCallOutput {
    ExecToolCallOutput {
        exit_code: 0,
        stdout: StreamOutput::new(String::new()),
        stderr: StreamOutput::new(String::new()),
        aggregated_output: StreamOutput::new(aggregated),
        duration_ms: 1000,
    }
}

#[test]
fn model_truncation_head_tail_by_lines() {
    // 400 short lines: the line cap, not the byte budget, triggers.
    let lines: Vec<String> = (1..=400).map(|i| format!("line{i}")).collect();
    let full = lines.join("\n");

    let out = format_exec_output_str(&exec_output(full));

    let omitted = 400 - MODEL_FORMAT_MAX_LINES;
    let marker = format!("\n[... omitted {omitted} of 400 lines ...]\n\n");
    assert!(out.contains(&marker), "missing marker: {out}");

    let parts: Vec<&str> = out.split(&marker).collect();
    assert_eq!(parts.len(), 2, "expected one marker split");
    let head = parts[0];
    let tail = parts[1];

    let expected_head: String = (1..=MODEL_FORMAT_HEAD_LINES)
        .map(|i| format!("line{i}"))
        .collect::<Vec<_>>()
        .join("\n");
    assert!(head.starts_with(&expected_head), "head mismatch");

    let expected_tail: String = ((400 - MODEL_FORMAT_TAIL_LINES + 1)..=400)
        .map(|i| format!("line{i}"))
        .collect::<Vec<_>>()
        .join("\n");
    assert!(tail.ends_with(&expected_tail), "tail mismatch");
}

#[test]
fn model_truncation_respects_byte_budget() {
    // About 100 kB, so the byte budget dominates.
    let big_line = "x".repeat(100);
    let full = std::iter::repeat(big_line.clone())
        .take(1000)
        .collect::<Vec<_>>()
        .join("\n");

    let out = format_exec_output_str(&exec_output(full.clone()));
    assert!(out.len() <= MODEL_FORMAT_MAX_BYTES, "exceeds byte budget");
    assert!(out.contains("omitted"), "should contain elision marker");

    // Head and tail come from the original stream.
    assert!(full.starts_with(out.chars().take(8).collect::<String>().as_str()));
    assert!(full.ends_with(
        out.chars()
            .rev()
            .take(8)
            .collect::<String>()
            .chars()
            .rev()
            .collect::<String>()
            .as_str()
    ));
}

#[test]
fn model_format_small_output_unchanged() {
    let out = format_exec_output_str(&exec_output("hello\nworld".to_string()));
    assert_eq!(out, "hello\nworld");
}

#[test]
fn model_format_handles_crlf_line_endings() {
    // Exactly at the caps: no truncation; CRLF counts as one line break.
    let out = format_exec_output_str(&exec_output("a\r\nb".to_string()));
    assert_eq!(out, "a\r\nb");
}
