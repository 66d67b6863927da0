use cargo_diff_tools::{parse_diff, DiffError};

#[test]
fn test_parse_diff_1() {
    let diff = "+++ b/Cargo.lock\n\
                @@ -3,0 +4,9 @@\n\
                @@ -5,0 +15,26 @@\n\
                +++ b/Cargo.toml\n\
                @@ -9,0 +10 @@\n\
                +++ b/src/main.rs\n\
                @@ -2,0 +3,3 @@\n\
                @@ -8 +11 @@\n\
                @@ -13,2 +16,15 @@\n";
    let file_changes = parse_diff(diff).unwrap();
    assert_eq!(file_changes.len(), 3);
    assert_eq!(file_changes.get("Cargo.lock").unwrap().as_slice(), &[(4, 9), (15, 26)]);
    assert_eq!(file_changes.get("Cargo.toml").unwrap().as_slice(), &[(10, 1)]);
    assert_eq!(
        file_changes.get("src/main.rs").unwrap().as_slice(),
        &[(3, 3), (11, 1), (16, 15)]
    );
}

#[test]
fn test_parse_diff_2() {
    let diff = "+++ b/prusti-viper/src/encoder/mir_encoder/mod.rs\n\
                @@ -98,5 +98,5 @@\n";
    let file_changes = parse_diff(diff).unwrap();
    assert_eq!(file_changes.len(), 1);
    assert_eq!(
        file_changes
            .get("prusti-viper/src/encoder/mir_encoder/mod.rs")
            .unwrap()
            .as_slice(),
        &[(98, 5)]
    );
}

#[test]
fn parse_single_file_regression() {
    let diff = "+++ b/src/main.rs\n@@ -2,0 +3,3 @@\n@@ -8 +11 @@\n@@ -13,2 +16,15 @@";
    let fc = parse_diff(diff).unwrap();
    assert_eq!(fc.len(), 1);
    assert_eq!(fc.get("src/main.rs").unwrap().as_slice(), &[(3, 3), (11, 1), (16, 15)]);
}

#[test]
fn parse_empty_diff() {
    let fc = parse_diff("").unwrap();
    assert_eq!(fc.len(), 0);
    assert!(fc.get("a.rs").is_none());
}

#[test]
fn parse_ignores_other_lines() {
    let diff = "diff --git a/x.rs b/x.rs\n\
                index 123..456 100644\n\
                --- a/x.rs\n\
                +++ b/x.rs\n\
                @@ -1,2 +1,3 @@\n\
                 context\n\
                -removed\n\
                +added\n\
                @@ -x +1 @@\n";
    let fc = parse_diff(diff).unwrap();
    assert_eq!(fc.len(), 1);
    assert_eq!(fc.get("x.rs").unwrap().as_slice(), &[(1, 3)]);
}

#[test]
fn parse_zero_length_hunk_is_kept() {
    let fc = parse_diff("+++ b/a.rs\n@@ -5 +4,0 @@\n").unwrap();
    assert_eq!(fc.get("a.rs").unwrap().as_slice(), &[(4, 0)]);
}

#[test]
fn parse_repeated_file_header_keeps_intervals() {
    let diff = "+++ b/a.rs\n@@ -1 +1 @@\n+++ b/c.rs\n@@ -1 +2 @@\n+++ b/a.rs\n@@ -9 +9,2 @@\n";
    let fc = parse_diff(diff).unwrap();
    assert_eq!(fc.len(), 2);
    assert_eq!(fc.get("a.rs").unwrap().as_slice(), &[(1, 1), (9, 2)]);
    assert_eq!(fc.get("c.rs").unwrap().as_slice(), &[(2, 1)]);
}

#[test]
fn parse_file_header_forms() {
    let diff = "+++ /dev/null\n+++ b/trailing.rs  \t\r\n+++ plain.rs\n@@ -1 +7,3 @@ fn main\n";
    let fc = parse_diff(diff).unwrap();
    assert_eq!(fc.len(), 3);
    assert_eq!(fc.get("/dev/null").unwrap().len(), 0);
    assert_eq!(fc.get("trailing.rs").unwrap().len(), 0);
    assert_eq!(fc.get("plain.rs").unwrap().as_slice(), &[(7, 3)]);
}

#[test]
fn parse_crlf_lines() {
    let fc = parse_diff("+++ b/w.rs\r\n@@ -1 +5,2 @@\r\n").unwrap();
    assert_eq!(fc.get("w.rs").unwrap().as_slice(), &[(5, 2)]);
}

#[test]
fn parse_hunk_before_file_is_error() {
    let r = parse_diff("--- a/x.rs\n@@ -1 +1 @@\n+++ b/x.rs\n");
    assert!(matches!(r, Err(DiffError::HunkBeforeFile { line: 2 })));
}

#[test]
fn parse_number_overflow_is_error() {
    let r = parse_diff("+++ b/x.rs\n@@ -1 +99999999999999999999999 @@\n");
    assert!(matches!(r, Err(DiffError::BadNumber { line: 2 })));
    let r = parse_diff("+++ b/x.rs\n@@ -1 +1,99999999999999999999999 @@\n");
    assert!(matches!(r, Err(DiffError::BadNumber { line: 2 })));
}

#[test]
fn parse_largest_number() {
    let diff = format!("+++ b/x.rs\n@@ -1 +{},1 @@\n", usize::MAX);
    let fc = parse_diff(&diff).unwrap();
    assert_eq!(fc.get("x.rs").unwrap().as_slice(), &[(usize::MAX, 1)]);
}
