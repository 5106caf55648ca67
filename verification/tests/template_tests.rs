use codex_core::template::{render_template, TemplateError};

#[test]
fn substitutes_positional_and_aggregate() {
    let tpl = "Hello $1, all: $* / $ARGUMENTS and $9.";
    let args = vec!["Alice".to_string(), "B".to_string(), "C".to_string()];
    let out = render_template(tpl, &args).unwrap();
    assert_eq!(out, "Hello Alice, all: Alice B C / Alice B C and .");
}

#[test]
fn leaves_unrelated_text() {
    let tpl = "No placeholders here.";
    let args: Vec<String> = Vec::new();
    assert_eq!(render_template(tpl, &args).unwrap(), tpl);
}

#[test]
fn supports_dollar_escape_and_multi_digit() {
    let tpl = "Cost: $$5; tenth=${10}; plain=$10";
    let args: Vec<String> = vec![
        "one", "two", "three", "four", "five", "six", "seven", "eight", "nine", "TEN",
    ]
    .into_iter()
    .map(|s| s.to_string())
    .collect();
    let out = render_template(tpl, &args).unwrap();
    assert_eq!(out, "Cost: $5; tenth=TEN; plain=one0");
}

#[test]
fn output_cap_errors() {
    let tpl = "$*";
    let big = vec!["x".repeat(70 * 1024)];
    let err = render_template(tpl, &big).unwrap_err();
    assert!(matches!(err, TemplateError::OutputTooLarge(_)));
}

#[test]
fn template_renders_all_args_scenario() {
    // A positional and an aggregate in one template.
    let args = vec!["Alice".to_string(), "B".to_string(), "C".to_string()];
    let out = render_template("Hello $1, all: $*", &args).unwrap();
    assert_eq!(out, "Hello Alice, all: Alice B C");
}

#[test]
fn template_lone_dollar_and_unknown_placeholder() {
    let args = vec!["a".to_string()];
    assert_eq!(render_template("end$", &args).unwrap(), "end$");
    assert_eq!(render_template("$X stays", &args).unwrap(), "$X stays");
    assert_eq!(render_template("$0 stays", &args).unwrap(), "$0 stays");
}

#[test]
fn template_braced_zero_consumes_brace() {
    // "${0}" has an invalid index: the digits are kept and the brace was
    // already consumed.
    let args = vec!["a".to_string()];
    assert_eq!(render_template("${0}x", &args).unwrap(), "${0x");
    assert_eq!(render_template("${}", &args).unwrap(), "${");
}

#[test]
fn template_cap_applies_without_placeholders() {
    // The byte cap holds even for a template with no placeholder at all.
    let tpl = "y".repeat(70 * 1024);
    let args: Vec<String> = Vec::new();
    let err = render_template(&tpl, &args).unwrap_err();
    assert!(matches!(err, TemplateError::OutputTooLarge(_)));

    let small = "y".repeat(64 * 1024);
    assert_eq!(render_template(&small, &args).unwrap().len(), 64 * 1024);
}
