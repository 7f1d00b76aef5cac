//! Tolerant record parser: recovers candidate issue records from the
//! loosely structured text a language model returns.
//!
//! The expected shape is a comma-joined sequence of brace-delimited groups of
//! `key:"value"` pairs. No full grammar is attempted: the content is split on
//! the literal group separator `},{`, each chunk is stripped of braces and
//! split on `,`, and each pair is split once on `:`. A value containing the
//! group separator or a comma is therefore mis-split; that tolerance tradeoff
//! is deliberate and kept.

use vstd::prelude::*;
use vstd::string::StringExecFns;

use crate::text::brace_pred;
use crate::text::find_from;
use crate::text::find_pat_from;
use crate::text::lemma_find_from_sound;
use crate::text::quote_ws_pred;
use crate::text::split_seq;
use crate::text::split_str;
use crate::text::str_eq;
use crate::text::trim_by;
use crate::text::trim_str;

verus! {

/// One candidate issue record: four free-text, unvalidated fields.
#[derive(Debug, Clone)]
pub struct LLMAnalysisIssue {
    pub quote: String,
    pub message: String,
    pub severity: String,
    pub category: String,
}

/// Mathematical model of a candidate record: its four fields as
/// character sequences.
#[verifier::ext_equal]
pub ghost struct RawFields {
    pub quote: Seq<char>,
    pub message: Seq<char>,
    pub severity: Seq<char>,
    pub category: Seq<char>,
}

impl View for LLMAnalysisIssue {
    type V = RawFields;

    open spec fn view(&self) -> RawFields {
        RawFields {
            quote: self.quote@,
            message: self.message@,
            severity: self.severity@,
            category: self.category@,
        }
    }
}

/// All four fields left empty, the state before any pair is read.
pub open spec fn empty_fields() -> RawFields {
    RawFields {
        quote: Seq::empty(),
        message: Seq::empty(),
        severity: Seq::empty(),
        category: Seq::empty(),
    }
}

/// Split a pair once on the first `:`; trim quotes and whitespace from both
/// halves. A pair without `:` is all key, with an empty value.
pub open spec fn pair_key_value(pair: Seq<char>) -> (Seq<char>, Seq<char>) {
    match find_from(pair, ":"@, 0) {
        Option::None => (trim_by(pair, quote_ws_pred()), Seq::empty()),
        Option::Some(i) => (
            trim_by(pair.subrange(0, i), quote_ws_pred()),
            trim_by(pair.subrange(i + 1, pair.len() as int), quote_ws_pred()),
        ),
    }
}

/// Fold one `key:value` pair into the fields read so far. Exactly the four
/// known keys are recognized, case-sensitively; any other key is ignored.
pub open spec fn apply_pair(f: RawFields, pair: Seq<char>) -> RawFields {
    let kv = pair_key_value(pair);
    if kv.0 == "quote"@ {
        RawFields { quote: kv.1, ..f }
    } else if kv.0 == "message"@ {
        RawFields { message: kv.1, ..f }
    } else if kv.0 == "severity"@ {
        RawFields { severity: kv.1, ..f }
    } else if kv.0 == "category"@ {
        RawFields { category: kv.1, ..f }
    } else {
        f
    }
}

/// The fields recovered after reading every pair of a chunk, in order; a
/// later pair with a known key overwrites an earlier one.
pub open spec fn fields_of_pairs(pairs: Seq<Seq<char>>) -> RawFields
    decreases pairs.len(),
{
    if pairs.len() == 0 {
        empty_fields()
    } else {
        apply_pair(fields_of_pairs(pairs.drop_last()), pairs.last())
    }
}

/// The fields of one chunk: strip the braces, split on commas, read the pairs.
pub open spec fn chunk_fields(chunk: Seq<char>) -> RawFields {
    fields_of_pairs(split_seq(trim_by(chunk, brace_pred()), ","@))
}

/// A chunk yields a record only when all four fields end up non-empty;
/// otherwise the chunk is dropped entirely.
pub open spec fn chunk_record(chunk: Seq<char>) -> Option<RawFields> {
    let f = chunk_fields(chunk);
    if f.quote.len() > 0 && f.message.len() > 0 && f.severity.len() > 0 && f.category.len() > 0 {
        Some(f)
    } else {
        None
    }
}

/// The records of a sequence of chunks, in chunk order.
pub open spec fn records_of_chunks(chunks: Seq<Seq<char>>) -> Seq<RawFields>
    decreases chunks.len(),
{
    if chunks.len() == 0 {
        Seq::empty()
    } else {
        records_of_chunks(chunks.drop_last()) + match chunk_record(chunks.last()) {
            Option::Some(f) => seq![f],
            Option::None => Seq::empty(),
        }
    }
}

/// What `parse_issues` returns: the records of the chunks obtained by
/// splitting the content on the group separator.
pub open spec fn parse_issues_spec(content: Seq<char>) -> Seq<RawFields> {
    records_of_chunks(split_seq(content, "},{"@))
}

/// Read one chunk into a record, or drop it.
fn parse_chunk(chunk: &str) -> (r: Option<LLMAnalysisIssue>)
    ensures
        r is Some <==> chunk_record(chunk@) is Some,
        r matches Some(rec) ==> rec@ == chunk_record(chunk@)->Some_0,
{
    proof {
        reveal_strlit(",");
        reveal_strlit(":");
        reveal_strlit("");
    }
    let trimmed = trim_str(chunk, true);
    let pairs = split_str(trimmed, ",");
    let ghost pviews = split_seq(trim_by(chunk@, brace_pred()), ","@);
    let mut quote = String::new();
    let mut message = String::new();
    let mut severity = String::new();
    let mut category = String::new();
    let mut pi: usize = 0;
    while pi < pairs.len()
        invariant
            pi <= pairs@.len(),
            pairs@.len() == pviews.len(),
            forall|k: int| 0 <= k < pviews.len() ==> #[trigger] pairs@[k]@ == pviews[k],
            quote@ == fields_of_pairs(pviews.take(pi as int)).quote,
            message@ == fields_of_pairs(pviews.take(pi as int)).message,
            severity@ == fields_of_pairs(pviews.take(pi as int)).severity,
            category@ == fields_of_pairs(pviews.take(pi as int)).category,
        decreases pairs@.len() - pi,
    {
        proof {
            reveal_strlit(":");
            reveal_strlit("");
        }
        let pair = pairs[pi];
        let plen: usize = pair.unicode_len();
        let key: &str;
        let val_raw: &str;
        match find_pat_from(pair, ":", 0) {
            Some(ci) => {
                proof {
                    lemma_find_from_sound(pair@, ":"@, 0);
                    assert(":"@.len() == 1);
                    assert(ci + 1 <= plen);
                }
                key = pair.substring_char(0, ci);
                val_raw = pair.substring_char(ci + 1, plen);
            },
            None => {
                key = pair;
                val_raw = "";
            },
        }
        let key = trim_str(key, false);
        let value = trim_str(val_raw, false);
        proof {
            assert(""@.len() == 0);
            assert(""@ =~= Seq::<char>::empty());
            assert(pair_key_value(pair@) == (key@, value@));
            assert(pviews.take(pi + 1).drop_last() =~= pviews.take(pi as int));
            assert(pviews.take(pi + 1).last() == pviews[pi as int]);
        }
        if str_eq(key, "quote") {
            quote = String::from_str(value);
        } else if str_eq(key, "message") {
            message = String::from_str(value);
        } else if str_eq(key, "severity") {
            severity = String::from_str(value);
        } else if str_eq(key, "category") {
            category = String::from_str(value);
        }
        pi = pi + 1;
    }
    proof {
        assert(pviews.take(pviews.len() as int) =~= pviews);
    }
    if !quote.as_str().is_empty() && !message.as_str().is_empty() && !severity.as_str().is_empty()
        && !category.as_str().is_empty() {
        let rec = LLMAnalysisIssue { quote, message, severity, category };
        proof {
            assert(rec@ =~= chunk_record(chunk@)->Some_0);
        }
        Some(rec)
    } else {
        None
    }
}

/// Recover candidate records from raw model content, in the order their
/// chunks appear. The parser never fails: at worst it returns no records.
pub fn parse_issues(content: &str) -> (issues: Vec<LLMAnalysisIssue>)
    ensures
        issues@.len() == parse_issues_spec(content@).len(),
        forall|k: int|
            0 <= k < issues@.len() ==> #[trigger] issues@[k]@ == parse_issues_spec(content@)[k],
{
    proof {
        reveal_strlit("},{");
    }
    let chunks = split_str(content, "},{");
    let ghost cviews = split_seq(content@, "},{"@);
    let mut issues: Vec<LLMAnalysisIssue> = Vec::new();
    let mut ci: usize = 0;
    while ci < chunks.len()
        invariant
            ci <= chunks@.len(),
            chunks@.len() == cviews.len(),
            forall|k: int| 0 <= k < cviews.len() ==> #[trigger] chunks@[k]@ == cviews[k],
            issues@.len() == records_of_chunks(cviews.take(ci as int)).len(),
            forall|k: int|
                0 <= k < issues@.len() ==> #[trigger] issues@[k]@ == records_of_chunks(
                    cviews.take(ci as int),
                )[k],
        decreases chunks@.len() - ci,
    {
        let chunk = chunks[ci];
        proof {
            assert(cviews.take(ci + 1).drop_last() =~= cviews.take(ci as int));
            assert(cviews.take(ci + 1).last() == cviews[ci as int]);
        }
        match parse_chunk(chunk) {
            Some(rec) => {
                issues.push(rec);
            },
            None => {},
        }
        ci = ci + 1;
    }
    proof {
        assert(cviews.take(cviews.len() as int) =~= cviews);
    }
    issues
}

/// Law: the parser only emits complete records: every parsed record has all
/// four fields non-empty after trimming. Chunks missing any field are dropped.
pub proof fn lemma_parsed_record_fields_nonempty(content: Seq<char>, k: int)
    requires
        0 <= k < parse_issues_spec(content).len(),
    ensures
        ({
            let rec = parse_issues_spec(content)[k];
            &&& rec.quote.len() > 0
            &&& rec.message.len() > 0
            &&& rec.severity.len() > 0
            &&& rec.category.len() > 0
        }),
{
    lemma_records_of_chunks_complete(split_seq(content, "},{"@), k);
}

proof fn lemma_records_of_chunks_complete(chunks: Seq<Seq<char>>, k: int)
    requires
        0 <= k < records_of_chunks(chunks).len(),
    ensures
        ({
            let rec = records_of_chunks(chunks)[k];
            &&& rec.quote.len() > 0
            &&& rec.message.len() > 0
            &&& rec.severity.len() > 0
            &&& rec.category.len() > 0
        }),
    decreases chunks.len(),
{
    let prefix = records_of_chunks(chunks.drop_last());
    if k < prefix.len() {
        lemma_records_of_chunks_complete(chunks.drop_last(), k);
    }
}

} // verus!
