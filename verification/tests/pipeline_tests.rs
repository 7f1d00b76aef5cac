use briefly::analysis_result::{AnalysisResult, Category, Severity};

#[test]
fn round_trip_cyrillic_record() {
    let content = r#"{quote:"Система должна работать быстро",message:"не определено числово",severity:"warn",category:"Ambiguity"}"#;
    let text = "Требование: Система должна работать быстро.";
    let result = AnalysisResult::from_llm_content(content, text, &Severity::Info);
    assert_eq!(result.issues.len(), 1);
    let issue = &result.issues[0];
    assert_eq!(issue.category, Category::Ambiguity);
    assert_eq!(issue.severity, Severity::Warning);
    assert_eq!(issue.start, 12);
    assert_eq!(issue.end, 12 + "Система должна работать быстро".chars().count());
    assert_eq!(issue.message, "не определено числово");
    let slice: String = text.chars().skip(issue.start).take(issue.end - issue.start).collect();
    assert_eq!(slice, "Система должна работать быстро");
}

#[test]
fn invalid_categories_dropped_while_valid_record_kept() {
    let content = r#"{quote:"a",message:"m1",severity:"warn",category:"Unknown"},{quote:"b",message:"m2",severity:"warn",category:"Unknown"},{quote:"c",message:"m3",severity:"warn",category:"Risk"}"#;
    let result = AnalysisResult::from_llm_content(content, "a b c", &Severity::Info);
    assert_eq!(result.issues.len(), 1);
    assert_eq!(result.issues[0].message, "m3");
    assert_eq!(result.issues[0].category, Category::Risk);
}

#[test]
fn warning_filter_drops_info_keeps_warning_and_error() {
    let content = r#"{quote:"a",message:"low",severity:"info",category:"Question"},{quote:"b",message:"mid",severity:"warn",category:"Ambiguity"},{quote:"c",message:"high",severity:"error",category:"Contradiction"}"#;
    let result = AnalysisResult::from_llm_content(content, "a b c", &Severity::Warning);
    assert_eq!(result.issues.len(), 2);
    assert_eq!(result.issues[0].message, "mid");
    assert_eq!(result.issues[0].severity, Severity::Warning);
    assert_eq!(result.issues[1].message, "high");
    assert_eq!(result.issues[1].severity, Severity::Error);
}

#[test]
fn error_survives_maximum_filter() {
    let content = r#"{quote:"a",message:"m",severity:"error",category:"MissingDetail"}"#;
    let result = AnalysisResult::from_llm_content(content, "a", &Severity::Error);
    assert_eq!(result.issues.len(), 1);
    assert_eq!(result.issues[0].severity, Severity::Error);
}

#[test]
fn malformed_content_yields_empty_result() {
    for content in ["", r#"{quote:"x""#, "no braces here at all"] {
        let result = AnalysisResult::from_llm_content(content, "some text x", &Severity::Test);
        assert_eq!(result.issues.len(), 0);
    }
}

#[test]
fn issues_keep_record_order() {
    let content = r#"{quote:"beta",message:"m1",severity:"warn",category:"Risk"},{quote:"alpha",message:"m2",severity:"warn",category:"Risk"}"#;
    let result = AnalysisResult::from_llm_content(content, "alpha beta", &Severity::Info);
    assert_eq!(result.issues.len(), 2);
    assert_eq!(result.issues[0].message, "m1");
    assert_eq!(result.issues[0].start, 6);
    assert_eq!(result.issues[1].message, "m2");
    assert_eq!(result.issues[1].start, 0);
}

#[test]
fn unlocatable_quote_dropped_from_result() {
    let content = r#"{quote:"missing",message:"m",severity:"error",category:"Risk"}"#;
    let result = AnalysisResult::from_llm_content(content, "present only", &Severity::Test);
    assert_eq!(result.issues.len(), 0);
}
