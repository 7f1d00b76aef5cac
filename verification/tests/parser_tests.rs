use briefly::parser::parse_issues;

#[test]
fn parses_single_record() {
    let content = r#"{quote:"a",message:"b",severity:"warn",category:"Ambiguity"}"#;
    let recs = parse_issues(content);
    assert_eq!(recs.len(), 1);
    assert_eq!(recs[0].quote, "a");
    assert_eq!(recs[0].message, "b");
    assert_eq!(recs[0].severity, "warn");
    assert_eq!(recs[0].category, "Ambiguity");
}

#[test]
fn empty_content_yields_no_records() {
    assert_eq!(parse_issues("").len(), 0);
}

#[test]
fn unterminated_group_is_dropped() {
    assert_eq!(parse_issues(r#"{quote:"x""#).len(), 0);
}

#[test]
fn content_without_braces_yields_no_records() {
    assert_eq!(parse_issues("just some prose, with a comma").len(), 0);
}

#[test]
fn unknown_keys_are_ignored() {
    let content = r#"{quote:"a",message:"b",severity:"warn",category:"Risk",extra:"z"}"#;
    let recs = parse_issues(content);
    assert_eq!(recs.len(), 1);
    assert_eq!(recs[0].category, "Risk");
}

#[test]
fn chunk_missing_a_field_is_dropped() {
    let content = r#"{quote:"a",severity:"warn",category:"Risk"}"#;
    assert_eq!(parse_issues(content).len(), 0);
}

#[test]
fn later_pair_overwrites_earlier() {
    let content = r#"{quote:"first",quote:"second",message:"m",severity:"info",category:"Question"}"#;
    let recs = parse_issues(content);
    assert_eq!(recs.len(), 1);
    assert_eq!(recs[0].quote, "second");
}

#[test]
fn records_come_out_in_input_order() {
    let content = r#"{quote:"a",message:"m1",severity:"warn",category:"Risk"},{quote:"b",message:"m2",severity:"info",category:"Question"}"#;
    let recs = parse_issues(content);
    assert_eq!(recs.len(), 2);
    assert_eq!(recs[0].quote, "a");
    assert_eq!(recs[1].quote, "b");
}

#[test]
fn surrounding_quotes_and_whitespace_are_trimmed() {
    let content = "{quote: \"a\" ,message:\t\"b\",severity: \"warn\",category:\"Risk\" }";
    let recs = parse_issues(content);
    assert_eq!(recs.len(), 1);
    assert_eq!(recs[0].quote, "a");
    assert_eq!(recs[0].message, "b");
    assert_eq!(recs[0].severity, "warn");
    assert_eq!(recs[0].category, "Risk");
}

// Known, accepted tolerance tradeoff of the delimiter-based split: a comma
// inside a quoted value splits the pair, truncating the value; the second
// half becomes an unmatched pair and is ignored.
#[test]
fn comma_inside_value_truncates_it() {
    let content = r#"{quote:"a,b",message:"m",severity:"warn",category:"Risk"}"#;
    let recs = parse_issues(content);
    assert_eq!(recs.len(), 1);
    assert_eq!(recs[0].quote, "a");
}

// Known, accepted tolerance tradeoff: a value containing the group separator
// mis-splits the record; neither half has all four fields, so both drop.
#[test]
fn group_separator_inside_value_missplits_record() {
    let content = r#"{quote:"q",message:"a},{b",severity:"warn",category:"Risk"}"#;
    assert_eq!(parse_issues(content).len(), 0);
}

#[test]
fn keys_are_case_sensitive() {
    let content = r#"{Quote:"a",message:"b",severity:"warn",category:"Risk"}"#;
    assert_eq!(parse_issues(content).len(), 0);
}

#[test]
fn blank_field_value_drops_chunk() {
    let content = r#"{quote:"",message:"b",severity:"warn",category:"Risk"}"#;
    assert_eq!(parse_issues(content).len(), 0);
}
