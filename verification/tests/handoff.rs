use s3mem_run::handoff::{resolve_reference, substitute_placeholder};
use s3mem_run::text::u64_to_decimal;

fn strings(tokens: &[&str]) -> Vec<String> {
    tokens.iter().map(|t| t.to_string()).collect()
}

#[test]
fn reference_names_the_descriptor() {
    assert_eq!(resolve_reference(0).path, "/proc/self/fd/0");
    assert_eq!(resolve_reference(7).path, "/proc/self/fd/7");
    assert_eq!(resolve_reference(1234).path, "/proc/self/fd/1234");
}

#[test]
fn placeholder_replaced_twice_in_one_argument() {
    // Both occurrences inside one argument become the same resolved path,
    // and arguments without the token pass through untouched.
    let args = strings(&["--input={{memfd}},{{memfd}}", "plain", "{{memfd}}"]);
    let out = substitute_placeholder(&args, "{{memfd}}", "/proc/self/fd/3");
    assert_eq!(
        out,
        strings(&[
            "--input=/proc/self/fd/3,/proc/self/fd/3",
            "plain",
            "/proc/self/fd/3",
        ])
    );
}

#[test]
fn custom_placeholder_token() {
    let args = strings(&["a{{custom}}b", "{{memfd}}"]);
    let out = substitute_placeholder(&args, "{{custom}}", "/proc/self/fd/9");
    assert_eq!(out, strings(&["a/proc/self/fd/9b", "{{memfd}}"]));
}

#[test]
fn replacement_scans_left_to_right() {
    // Overlapping candidate matches resolve left to right, as a textual
    // replacement does.
    let args = strings(&["aaa"]);
    let out = substitute_placeholder(&args, "aa", "x");
    assert_eq!(out, strings(&["xa"]));
}

#[test]
fn decimal_rendering() {
    assert_eq!(u64_to_decimal(0), "0");
    assert_eq!(u64_to_decimal(10), "10");
    assert_eq!(u64_to_decimal(1_234_567_890), "1234567890");
    assert_eq!(u64_to_decimal(u64::MAX), "18446744073709551615");
}

#[test]
fn replacement_handles_wide_characters() {
    // Arguments are scanned character by character, so text outside ASCII
    // passes through and around the token unharmed.
    let args = strings(&["héllo{{memfd}}wörld", "économie"]);
    let out = substitute_placeholder(&args, "{{memfd}}", "/proc/self/fd/5");
    assert_eq!(out, strings(&["héllo/proc/self/fd/5wörld", "économie"]));
}

#[test]
fn token_longer_than_argument_changes_nothing() {
    let args = strings(&["ab", ""]);
    let out = substitute_placeholder(&args, "abc", "x");
    assert_eq!(out, strings(&["ab", ""]));
}

#[test]
fn token_equal_to_whole_argument() {
    let args = strings(&["{{memfd}}"]);
    let out = substitute_placeholder(&args, "{{memfd}}", "/proc/self/fd/11");
    assert_eq!(out, strings(&["/proc/self/fd/11"]));
}
