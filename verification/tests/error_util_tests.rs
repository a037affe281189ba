use analytic_engine::error_util::remove_backtrace_from_err;

#[test]
fn test_remove_backtrace() {
    let cases = vec![
        (
            r#"Failed to execute select, err:Failed to execute logical plan, err:Failed to do physical optimization, err:DataFusion Failed to optimize physical plan, err:Error during planning.
Backtrace:
 0 <snafu::backtrace_shim::Backtrace as snafu::GenerateBacktrace>::generate::h996ee016dfa35e37"#,
            r#"Failed to execute select, err:Failed to execute logical plan, err:Failed to do physical optimization, err:DataFusion Failed to optimize physical plan, err:Error during planning.
"#,
        ),
        ("", ""),
        ("some error", "some error"),
    ];

    for (input, expected) in cases {
        assert_eq!(expected, remove_backtrace_from_err(input));
    }
}

#[test]
fn marker_at_start_cuts_everything() {
    assert_eq!("", remove_backtrace_from_err("Backtrace: boom"));
}
