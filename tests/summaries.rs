use std::collections::HashMap;

use taurus::summaries::{record_marking, without_type_param, DepEdge, Marking, SourceLocation};
use taurus::sysroot::find_sysroot;
use taurus::text::decimal_text;

fn marking(require: Option<&str>, audited: Option<&str>, entry: bool) -> Marking {
    Marking {
        require_audit: require.map(|s| s.to_string()),
        audited: audited.map(|s| s.to_string()),
        is_entry_point: entry,
    }
}

#[test]
fn full_callee_name_lists_type_arguments() {
    let e = DepEdge {
        callee_def: "std::vec::Vec::push".to_string(),
        is_lang_item: false,
        type_params: vec!["u8".to_string(), "alloc::Global".to_string()],
        src_loc: SourceLocation { file: "a.rs".to_string(), line_no: 1 },
    };
    assert_eq!(e.full_callee_name(), "std::vec::Vec::push<u8,alloc::Global,>");
}

#[test]
fn full_callee_name_without_type_arguments() {
    let e = DepEdge {
        callee_def: "f".to_string(),
        is_lang_item: false,
        type_params: vec![],
        src_loc: SourceLocation { file: "a.rs".to_string(), line_no: 1 },
    };
    assert_eq!(e.full_callee_name(), "f<>");
}

#[test]
fn without_type_param_strips_from_first_angle() {
    assert_eq!(without_type_param("a::b<u8,Vec<u8>,>"), "a::b");
    assert_eq!(without_type_param("plain"), "plain");
    assert_eq!(without_type_param("<>"), "");
}

#[test]
fn annotated_marking() {
    assert!(!marking(None, None, false).annotated());
    assert!(marking(None, None, true).annotated());
    assert!(marking(Some("g"), None, false).annotated());
    assert!(marking(None, Some("g"), false).annotated());
}

#[test]
fn record_marking_merges() {
    let mut m: HashMap<u64, Marking> = HashMap::new();
    record_marking(&mut m, 7, marking(Some("a"), None, false));
    record_marking(&mut m, 7, marking(None, Some("b"), true));
    record_marking(&mut m, 7, marking(Some("c"), None, false));
    let got = m.get(&7).unwrap();
    assert_eq!(got.require_audit.as_deref(), Some("c"));
    assert_eq!(got.audited.as_deref(), Some("b"));
    assert!(got.is_entry_point);
    record_marking(&mut m, 8, marking(None, None, false));
    assert_eq!(m.len(), 2);
}

#[test]
fn location_and_numbers_as_text() {
    assert_eq!(decimal_text(0), "0");
    assert_eq!(decimal_text(1234), "1234");
    let l = SourceLocation { file: "src/x.rs".to_string(), line_no: 42 };
    assert_eq!(l.to_string(), "src/x.rs:42");
}

#[test]
fn sysroot_from_rustup_or_explicit() {
    assert_eq!(find_sysroot(Some("/home/u/.rustup"), Some("nightly"), Some("/opt/rust")), Some("/home/u/.rustup/toolchains/nightly".to_string()));
    assert_eq!(find_sysroot(Some("/home/u/.rustup"), None, Some("/opt/rust")), Some("/opt/rust".to_string()));
    assert_eq!(find_sysroot(None, None, None), None);
}
