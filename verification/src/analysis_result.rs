//! Issue validator and locator: maps each candidate record back onto exact
//! character positions in the original source text, enforces the closed
//! severity and category vocabularies, and applies the severity filter.
//! Every rejection is silent: the caller simply sees fewer issues.

use vstd::prelude::*;

use crate::parser::LLMAnalysisIssue;
use crate::parser::RawFields;
use crate::parser::parse_issues;
use crate::parser::parse_issues_spec;
use crate::text::find_from;
use crate::text::find_pat_from;
use crate::text::lemma_find_from_complete;
use crate::text::lemma_find_from_sound;
use crate::text::match_at;
use crate::text::str_eq;

verus! {

/// Totally ordered, closed set of severity levels. `Test` is a sentinel for
/// request validation only and is never produced by the token mapping.
#[derive(Clone, Copy, Debug, PartialEq, Eq, Structural)]
pub enum Severity {
    Test,
    Info,
    Warning,
    Error,
}

impl Severity {
    /// Position in the total order `Test < Info < Warning < Error`.
    pub open spec fn rank(self) -> int {
        match self {
            Severity::Test => 0,
            Severity::Info => 1,
            Severity::Warning => 2,
            Severity::Error => 3,
        }
    }

    fn rank_value(&self) -> (r: u8)
        ensures
            r as int == self.rank(),
    {
        match self {
            Severity::Test => 0,
            Severity::Info => 1,
            Severity::Warning => 2,
            Severity::Error => 3,
        }
    }

    /// Whether `self` ranks strictly above `other` in the severity order.
    pub fn ranks_above(&self, other: &Severity) -> (r: bool)
        ensures
            r == (self.rank() > other.rank()),
    {
        self.rank_value() > other.rank_value()
    }
}

/// Closed set of six classification tags; no ordering.
#[derive(Clone, Copy, Debug, PartialEq, Eq, Structural)]
pub enum Category {
    Ambiguity,
    Contradiction,
    MissingDetail,
    Risk,
    Question,
    Dependency,
}

/// A validated, located issue. `start` and `end` are character offsets into
/// the original source text, a half-open range.
#[derive(Debug)]
pub struct Issue {
    pub start: usize,
    pub end: usize,
    pub message: String,
    pub severity: Severity,
    pub category: Category,
}

/// Mathematical model of a located issue.
#[verifier::ext_equal]
pub ghost struct IssueSpec {
    pub start: int,
    pub end: int,
    pub message: Seq<char>,
    pub severity: Severity,
    pub category: Category,
}

impl View for Issue {
    type V = IssueSpec;

    open spec fn view(&self) -> IssueSpec {
        IssueSpec {
            start: self.start as int,
            end: self.end as int,
            message: self.message@,
            severity: self.severity,
            category: self.category,
        }
    }
}

/// Map a raw severity token: exactly `info`, `warn` or `error`,
/// case-sensitively; anything else is invalid.
pub open spec fn severity_of_token(tok: Seq<char>) -> Option<Severity> {
    if tok == "info"@ {
        Some(Severity::Info)
    } else if tok == "warn"@ {
        Some(Severity::Warning)
    } else if tok == "error"@ {
        Some(Severity::Error)
    } else {
        None
    }
}

/// Map a raw category token against the closed six-value vocabulary,
/// case-sensitively; anything else is invalid.
pub open spec fn category_of_token(tok: Seq<char>) -> Option<Category> {
    if tok == "Ambiguity"@ {
        Some(Category::Ambiguity)
    } else if tok == "Contradiction"@ {
        Some(Category::Contradiction)
    } else if tok == "MissingDetail"@ {
        Some(Category::MissingDetail)
    } else if tok == "Risk"@ {
        Some(Category::Risk)
    } else if tok == "Question"@ {
        Some(Category::Question)
    } else if tok == "Dependency"@ {
        Some(Category::Dependency)
    } else {
        None
    }
}

/// A mapped severity is surfaced exactly when it is `Error`, which nothing
/// outranks, or ranks at or above the caller's filter floor.
pub open spec fn passes_filter(sev: Severity, filter: Severity) -> bool {
    sev == Severity::Error || filter.rank() <= sev.rank()
}

/// What validating and locating one record yields: the first character
/// offset of the quote in the source text, the mapped severity and category,
/// and the message unmodified; or nothing, when any check fails.
pub open spec fn from_llm_issue_spec(rec: RawFields, text: Seq<char>, filter: Severity) -> Option<
    IssueSpec,
> {
    match find_from(text, rec.quote, 0) {
        Option::None => None,
        Option::Some(start) => match severity_of_token(rec.severity) {
            Option::None => None,
            Option::Some(sev) => if !passes_filter(sev, filter) {
                None
            } else {
                match category_of_token(rec.category) {
                    Option::None => None,
                    Option::Some(cat) => Some(
                        IssueSpec {
                            start,
                            end: start + rec.quote.len(),
                            message: rec.message,
                            severity: sev,
                            category: cat,
                        },
                    ),
                }
            },
        },
    }
}

impl Issue {
    /// Validate one candidate record against the source text and the filter
    /// floor, locating its quote at exact character offsets.
    pub fn from_llm_issue(llm_issue: LLMAnalysisIssue, original_text: &str, filter: &Severity) -> (r:
        Option<Issue>)
        ensures
            r is Some <==> from_llm_issue_spec(llm_issue@, original_text@, *filter) is Some,
            r matches Some(iss) ==> iss@ == from_llm_issue_spec(
                llm_issue@,
                original_text@,
                *filter,
            )->Some_0,
    {
        let tlen: usize = original_text.unicode_len();
        let start: usize = match find_pat_from(original_text, llm_issue.quote.as_str(), 0) {
            Some(i) => i,
            None => {
                return None;
            },
        };
        proof {
            lemma_find_from_sound(original_text@, llm_issue.quote@, 0);
        }
        let qlen: usize = llm_issue.quote.as_str().unicode_len();
        let end: usize = start + qlen;
        let severity: Severity;
        if str_eq(llm_issue.severity.as_str(), "info") {
            if filter.ranks_above(&Severity::Info) {
                return None;
            }
            severity = Severity::Info;
        } else if str_eq(llm_issue.severity.as_str(), "warn") {
            if filter.ranks_above(&Severity::Warning) {
                return None;
            }
            severity = Severity::Warning;
        } else if str_eq(llm_issue.severity.as_str(), "error") {
            severity = Severity::Error;
        } else {
            return None;
        }
        let category: Category;
        if str_eq(llm_issue.category.as_str(), "Ambiguity") {
            category = Category::Ambiguity;
        } else if str_eq(llm_issue.category.as_str(), "Contradiction") {
            category = Category::Contradiction;
        } else if str_eq(llm_issue.category.as_str(), "MissingDetail") {
            category = Category::MissingDetail;
        } else if str_eq(llm_issue.category.as_str(), "Risk") {
            category = Category::Risk;
        } else if str_eq(llm_issue.category.as_str(), "Question") {
            category = Category::Question;
        } else if str_eq(llm_issue.category.as_str(), "Dependency") {
            category = Category::Dependency;
        } else {
            return None;
        }
        let iss = Issue { start, end, message: llm_issue.message, severity, category };
        proof {
            assert(iss@ =~= from_llm_issue_spec(llm_issue@, original_text@, *filter)->Some_0);
        }
        Some(iss)
    }
}

/// The issues one analysis run yields: each record validated and located in
/// record order, rejected records silently dropped.
pub open spec fn located_issues_spec(
    recs: Seq<RawFields>,
    text: Seq<char>,
    filter: Severity,
) -> Seq<IssueSpec>
    decreases recs.len(),
{
    if recs.len() == 0 {
        Seq::empty()
    } else {
        located_issues_spec(recs.drop_last(), text, filter) + match from_llm_issue_spec(
            recs.last(),
            text,
            filter,
        ) {
            Option::Some(i) => seq![i],
            Option::None => Seq::empty(),
        }
    }
}

/// The whole pipeline on raw model content: parse, then validate and locate.
pub open spec fn analyze_spec(content: Seq<char>, text: Seq<char>, filter: Severity) -> Seq<
    IssueSpec,
> {
    located_issues_spec(parse_issues_spec(content), text, filter)
}

/// The ordered result of one analysis: issue order is record order.
#[derive(Debug)]
pub struct AnalysisResult {
    pub issues: Vec<Issue>,
}

/// What a caller supplies: a severity floor and the source text.
#[derive(Debug)]
pub struct AnalysisRequest {
    pub filter: Severity,
    pub text: String,
}

impl AnalysisResult {
    /// Run the pipeline: recover records from the raw model content, then
    /// validate and locate each one against the source text under the filter
    /// floor. Never fails: at worst the result is empty.
    pub fn from_llm_content(content: &str, source_text: &str, filter: &Severity) -> (r:
        AnalysisResult)
        ensures
            r.issues@.len() == analyze_spec(content@, source_text@, *filter).len(),
            forall|k: int|
                0 <= k < r.issues@.len() ==> #[trigger] r.issues@[k]@ == analyze_spec(
                    content@,
                    source_text@,
                    *filter,
                )[k],
    {
        let recs = parse_issues(content);
        let ghost rviews = parse_issues_spec(content@);
        let mut issues: Vec<Issue> = Vec::new();
        let mut i: usize = 0;
        while i < recs.len()
            invariant
                i <= recs@.len(),
                recs@.len() == rviews.len(),
                forall|k: int| 0 <= k < rviews.len() ==> #[trigger] recs@[k]@ == rviews[k],
                issues@.len() == located_issues_spec(
                    rviews.take(i as int),
                    source_text@,
                    *filter,
                ).len(),
                forall|k: int|
                    0 <= k < issues@.len() ==> #[trigger] issues@[k]@ == located_issues_spec(
                        rviews.take(i as int),
                        source_text@,
                        *filter,
                    )[k],
            decreases recs@.len() - i,
        {
            let rec = LLMAnalysisIssue {
                quote: recs[i].quote.clone(),
                message: recs[i].message.clone(),
                severity: recs[i].severity.clone(),
                category: recs[i].category.clone(),
            };
            proof {
                assert(rec@ =~= rviews[i as int]);
                assert(rviews.take(i + 1).drop_last() =~= rviews.take(i as int));
                assert(rviews.take(i + 1).last() == rviews[i as int]);
            }
            match Issue::from_llm_issue(rec, source_text, filter) {
                Some(iss) => {
                    issues.push(iss);
                },
                None => {},
            }
            i = i + 1;
        }
        proof {
            assert(rviews.take(rviews.len() as int) =~= rviews);
        }
        AnalysisResult { issues }
    }
}

/// Law: a quote that occurs anywhere in the source text is always located,
/// and the character span `[start, start + quote.len())` it is located at
/// reconstructs the quote exactly.
pub proof fn lemma_locate_exact_substring(text: Seq<char>, quote: Seq<char>)
    requires
        exists|i: int| match_at(text, quote, i),
    ensures
        find_from(text, quote, 0) is Some,
        ({
            let start = find_from(text, quote, 0)->Some_0;
            &&& 0 <= start
            &&& start + quote.len() <= text.len()
            &&& text.subrange(start, start + quote.len() as int) == quote
        }),
{
    if find_from(text, quote, 0) is None {
        let i = choose|i: int| match_at(text, quote, i);
        lemma_find_from_complete(text, quote, 0, i);
        assert(false);
    }
    lemma_find_from_sound(text, quote, 0);
}

/// Law: the character slice of the source text between a surfaced issue's
/// offsets equals the record's quote exactly; offsets are in bounds, and a
/// non-empty quote spans a non-empty range.
pub proof fn lemma_issue_span_reconstructs_quote(rec: RawFields, text: Seq<char>, filter: Severity)
    requires
        from_llm_issue_spec(rec, text, filter) is Some,
    ensures
        ({
            let iss = from_llm_issue_spec(rec, text, filter)->Some_0;
            &&& 0 <= iss.start <= iss.end <= text.len()
            &&& iss.end - iss.start == rec.quote.len()
            &&& text.subrange(iss.start, iss.end) == rec.quote
            &&& rec.quote.len() > 0 ==> iss.start < iss.end
        }),
{
    lemma_find_from_sound(text, rec.quote, 0);
}

/// Law: a record whose quote does not occur in the source text is always
/// rejected, whatever its other fields hold.
pub proof fn lemma_unlocatable_quote_rejected(rec: RawFields, text: Seq<char>, filter: Severity)
    requires
        forall|i: int| !match_at(text, rec.quote, i),
    ensures
        from_llm_issue_spec(rec, text, filter) is None,
{
    if find_from(text, rec.quote, 0) is Some {
        lemma_find_from_sound(text, rec.quote, 0);
        assert(false);
    }
}

/// Law: every surfaced issue passes the severity filter: it is Error-level
/// or ranks at or above the filter floor.
pub proof fn lemma_surfaced_issue_passes_filter(rec: RawFields, text: Seq<char>, filter: Severity)
    requires
        from_llm_issue_spec(rec, text, filter) is Some,
    ensures
        passes_filter(from_llm_issue_spec(rec, text, filter)->Some_0.severity, filter),
{
}

/// Law: filtering is monotonic over a whole analysis: every issue in the
/// output passes the filter, so no issue ranked below the floor appears,
/// Error-level issues excepted, which nothing outranks.
pub proof fn lemma_output_passes_filter(
    recs: Seq<RawFields>,
    text: Seq<char>,
    filter: Severity,
    k: int,
)
    requires
        0 <= k < located_issues_spec(recs, text, filter).len(),
    ensures
        passes_filter(located_issues_spec(recs, text, filter)[k].severity, filter),
    decreases recs.len(),
{
    let prefix = located_issues_spec(recs.drop_last(), text, filter);
    if k < prefix.len() {
        lemma_output_passes_filter(recs.drop_last(), text, filter, k);
    } else {
        lemma_surfaced_issue_passes_filter(recs.last(), text, filter);
    }
}

/// Law: the filter only gates, never alters: a record surfaced under one
/// filter is surfaced identically under any filter that its mapped severity
/// passes. With the floor at `Warning`, Warning- and Error-level records
/// from the same input therefore still appear.
pub proof fn lemma_filter_only_gates(rec: RawFields, text: Seq<char>, f1: Severity, f2: Severity)
    requires
        from_llm_issue_spec(rec, text, f1) is Some,
        passes_filter(from_llm_issue_spec(rec, text, f1)->Some_0.severity, f2),
    ensures
        from_llm_issue_spec(rec, text, f2) == from_llm_issue_spec(rec, text, f1),
{
}

/// Law: an Error-severity record ignores the filter entirely: its outcome is
/// the same under every floor, the maximum (`Error`) included.
pub proof fn lemma_error_ignores_filter(rec: RawFields, text: Seq<char>, f1: Severity, f2: Severity)
    requires
        rec.severity == "error"@,
    ensures
        from_llm_issue_spec(rec, text, f1) == from_llm_issue_spec(rec, text, f2),
{
    reveal_strlit("info");
    reveal_strlit("warn");
    reveal_strlit("error");
    assert("info"@.len() == 4);
    assert("warn"@.len() == 4);
    assert("error"@.len() == 5);
    assert(severity_of_token(rec.severity) == Some(Severity::Error));
}

} // verus!
