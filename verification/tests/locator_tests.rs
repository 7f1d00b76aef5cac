use briefly::analysis_result::{Category, Issue, Severity};
use briefly::parser::LLMAnalysisIssue;

fn record(quote: &str, message: &str, severity: &str, category: &str) -> LLMAnalysisIssue {
    LLMAnalysisIssue {
        quote: quote.to_string(),
        message: message.to_string(),
        severity: severity.to_string(),
        category: category.to_string(),
    }
}

#[test]
fn locates_ascii_quote() {
    let text = "hello world";
    let rec = record("world", "m", "warn", "Risk");
    let issue = Issue::from_llm_issue(rec, text, &Severity::Info).unwrap();
    assert_eq!(issue.start, 6);
    assert_eq!(issue.end, 11);
    let slice: String = text.chars().skip(issue.start).take(issue.end - issue.start).collect();
    assert_eq!(slice, "world");
}

#[test]
fn locates_cyrillic_quote_at_character_offsets() {
    let text = "Требование: Система должна работать быстро.";
    let quote = "должна работать";
    let rec = record(quote, "m", "warn", "Ambiguity");
    let issue = Issue::from_llm_issue(rec, text, &Severity::Info).unwrap();
    let expected_start = "Требование: Система ".chars().count();
    assert_eq!(issue.start, expected_start);
    assert_eq!(issue.end, expected_start + quote.chars().count());
    let slice: String = text.chars().skip(issue.start).take(issue.end - issue.start).collect();
    assert_eq!(slice, quote);
}

#[test]
fn missing_quote_is_rejected() {
    let rec = record("absent", "m", "error", "Contradiction");
    assert!(Issue::from_llm_issue(rec, "some text", &Severity::Test).is_none());
}

#[test]
fn first_occurrence_is_located() {
    let text = "abc abc";
    let rec = record("abc", "m", "info", "Question");
    let issue = Issue::from_llm_issue(rec, text, &Severity::Test).unwrap();
    assert_eq!(issue.start, 0);
    assert_eq!(issue.end, 3);
}

#[test]
fn invalid_severity_token_is_rejected() {
    let rec = record("a", "m", "warning", "Risk");
    assert!(Issue::from_llm_issue(rec, "a", &Severity::Test).is_none());
}

#[test]
fn severity_tokens_are_case_sensitive() {
    let rec = record("a", "m", "Info", "Risk");
    assert!(Issue::from_llm_issue(rec, "a", &Severity::Test).is_none());
}

#[test]
fn invalid_category_token_is_rejected() {
    let rec = record("a", "m", "warn", "Unknown");
    assert!(Issue::from_llm_issue(rec, "a", &Severity::Test).is_none());
}

#[test]
fn category_tokens_are_case_sensitive() {
    let rec = record("a", "m", "warn", "ambiguity");
    assert!(Issue::from_llm_issue(rec, "a", &Severity::Test).is_none());
}

#[test]
fn info_below_warning_filter_is_rejected() {
    let rec = record("a", "m", "info", "Question");
    assert!(Issue::from_llm_issue(rec, "a", &Severity::Warning).is_none());
}

#[test]
fn warning_at_warning_filter_is_kept() {
    let rec = record("a", "m", "warn", "Ambiguity");
    let issue = Issue::from_llm_issue(rec, "a", &Severity::Warning).unwrap();
    assert_eq!(issue.severity, Severity::Warning);
    assert_eq!(issue.category, Category::Ambiguity);
}

#[test]
fn error_is_kept_under_every_filter() {
    for filter in [Severity::Test, Severity::Info, Severity::Warning, Severity::Error] {
        let rec = record("a", "m", "error", "Contradiction");
        let issue = Issue::from_llm_issue(rec, "a", &filter).unwrap();
        assert_eq!(issue.severity, Severity::Error);
    }
}

#[test]
fn error_is_kept_under_error_filter() {
    let rec = record("a", "m", "error", "MissingDetail");
    let issue = Issue::from_llm_issue(rec, "a", &Severity::Error).unwrap();
    assert_eq!(issue.severity, Severity::Error);
    assert_eq!(issue.category, Category::MissingDetail);
}

#[test]
fn message_is_preserved_unmodified() {
    let rec = record("a", "  odd message, kept as-is  ", "warn", "Dependency");
    let issue = Issue::from_llm_issue(rec, "a", &Severity::Test).unwrap();
    assert_eq!(issue.message, "  odd message, kept as-is  ");
    assert_eq!(issue.category, Category::Dependency);
}

#[test]
fn all_six_categories_map() {
    let cases = [
        ("Ambiguity", Category::Ambiguity),
        ("Contradiction", Category::Contradiction),
        ("MissingDetail", Category::MissingDetail),
        ("Risk", Category::Risk),
        ("Question", Category::Question),
        ("Dependency", Category::Dependency),
    ];
    for (token, expected) in cases {
        let rec = record("a", "m", "error", token);
        let issue = Issue::from_llm_issue(rec, "a", &Severity::Test).unwrap();
        assert_eq!(issue.category, expected);
    }
}
