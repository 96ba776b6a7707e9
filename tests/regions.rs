use mir_dump::regions::load_variable_regions;

#[test]
fn declarations_in_signature_and_body() {
    let text = "fn foo(_1: &'_#1r mut T, _2: u32) -> () {\n    let mut _0: ();\n    let _2: &'_#3r mut u32;\n    scope 1 {\n        let mut _3: &'_#12r u32;\n    }\n}\n";
    assert_eq!(load_variable_regions(text.as_bytes()), vec![(1, 1), (2, 3), (3, 12)]);
}

#[test]
fn malformed_declarations_are_skipped() {
    let text = "let x_1: &'_#5r u32;\nlet _4: &'_#r u32;\nlet _: &'_#2r u32;\nlet _6: &'_#7 u32;\nlet _8: &'_#99999999999999999999999r u32;\n";
    assert!(load_variable_regions(text.as_bytes()).is_empty());
}

#[test]
fn empty_text_has_no_declarations() {
    assert!(load_variable_regions(b"").is_empty());
}
