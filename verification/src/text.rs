//! Character-sequence utilities: substring search, splitting on a separator,
//! and trimming, each with a spec-level definition and a verified executable
//! counterpart operating on `&str` through character indices.

use vstd::prelude::*;

verus! {

/// `pat` occurs in `s` starting at character index `i`.
pub open spec fn match_at(s: Seq<char>, pat: Seq<char>, i: int) -> bool {
    &&& 0 <= i
    &&& i + pat.len() <= s.len()
    &&& s.subrange(i, i + pat.len() as int) == pat
}

/// First character index at or after `i` where `pat` occurs in `s`, if any.
pub open spec fn find_from(s: Seq<char>, pat: Seq<char>, i: int) -> Option<int>
    decreases s.len() - i when 0 <= i <= s.len()
{
    if i + pat.len() > s.len() {
        None
    } else if pat.len() == 0 || s.subrange(i, i + pat.len() as int) == pat {
        Some(i)
    } else {
        find_from(s, pat, i + 1)
    }
}

/// A found occurrence is a real occurrence, at or after the search start.
pub proof fn lemma_find_from_sound(s: Seq<char>, pat: Seq<char>, i: int)
    requires
        0 <= i <= s.len(),
        find_from(s, pat, i) is Some,
    ensures
        i <= find_from(s, pat, i)->Some_0,
        match_at(s, pat, find_from(s, pat, i)->Some_0),
    decreases s.len() - i,
{
    if i + pat.len() > s.len() {
    } else if pat.len() == 0 || s.subrange(i, i + pat.len() as int) == pat {
        if pat.len() == 0 {
            assert(s.subrange(i, i + pat.len() as int) =~= pat);
        }
    } else {
        lemma_find_from_sound(s, pat, i + 1);
    }
}

/// Where the search reports nothing, no occurrence starts at or after `i`.
pub proof fn lemma_find_from_complete(s: Seq<char>, pat: Seq<char>, i: int, j: int)
    requires
        0 <= i <= s.len(),
        find_from(s, pat, i) is None,
        i <= j,
    ensures
        !match_at(s, pat, j),
    decreases s.len() - i,
{
    if i + pat.len() > s.len() {
    } else if pat.len() == 0 || s.subrange(i, i + pat.len() as int) == pat {
    } else {
        if j > i {
            lemma_find_from_complete(s, pat, i + 1, j);
        }
    }
}

/// Whether `pat` occurs at character index `i` of `s`, by character comparison.
fn is_match_at(s: &str, pat: &str, i: usize, slen: usize, plen: usize) -> (b: bool)
    requires
        slen == s@.len(),
        plen == pat@.len(),
        i + plen <= slen,
    ensures
        b == match_at(s@, pat@, i as int),
{
    let mut j: usize = 0;
    while j < plen
        invariant
            0 <= j <= plen,
            slen == s@.len(),
            plen == pat@.len(),
            i + plen <= slen,
            forall|k: int| 0 <= k < j ==> s@[i + k] == pat@[k],
        decreases plen - j,
    {
        if s.get_char(i + j) != pat.get_char(j) {
            proof {
                assert(!match_at(s@, pat@, i as int)) by {
                    if s@.subrange(i as int, i + plen as int) == pat@ {
                        assert(s@.subrange(i as int, i + plen as int)[j as int] == s@[i + j]);
                    }
                }
            }
            return false;
        }
        j = j + 1;
    }
    proof {
        assert(s@.subrange(i as int, i + plen as int) =~= pat@);
    }
    true
}

/// First occurrence of `pat` in `s` at or after character index `from`.
pub fn find_pat_from(s: &str, pat: &str, from: usize) -> (r: Option<usize>)
    requires
        from <= s@.len(),
    ensures
        match r {
            Some(i) => find_from(s@, pat@, from as int) == Some(i as int),
            None => find_from(s@, pat@, from as int) is None,
        },
{
    let slen: usize = s.unicode_len();
    let plen: usize = pat.unicode_len();
    if plen == 0 {
        proof {
            assert(s@.subrange(from as int, from as int) =~= pat@);
        }
        return Some(from);
    }
    let mut i: usize = from;
    loop
        invariant
            from <= i <= slen,
            slen == s@.len(),
            plen == pat@.len(),
            plen >= 1,
            find_from(s@, pat@, from as int) == find_from(s@, pat@, i as int),
        decreases slen - i,
    {
        if plen > slen || i > slen - plen {
            proof {
                assert(find_from(s@, pat@, i as int) is None);
            }
            return None;
        }
        if is_match_at(s, pat, i, slen, plen) {
            return Some(i);
        }
        proof {
            assert(i + plen <= slen);
            assert(s@.subrange(i as int, i + plen as int) != pat@);
            assert(find_from(s@, pat@, i as int) == find_from(s@, pat@, i + 1));
        }
        i = i + 1;
    }
}

/// Pieces of `s` between successive occurrences of the separator `sep`,
/// leftmost occurrence first, as `str::split` produces them.
pub open spec fn split_seq(s: Seq<char>, sep: Seq<char>) -> Seq<Seq<char>>
    decreases s.len() when sep.len() > 0 via split_seq_decreases
{
    match find_from(s, sep, 0) {
        Option::None => seq![s],
        Option::Some(i) => seq![s.subrange(0, i)] + split_seq(
            s.subrange(i + sep.len(), s.len() as int),
            sep,
        ),
    }
}

#[via_fn]
proof fn split_seq_decreases(s: Seq<char>, sep: Seq<char>) {
    if find_from(s, sep, 0) is Some {
        lemma_find_from_sound(s, sep, 0);
    }
}

/// Searching the suffix `s[pos..]` from `d` mirrors searching `s` from `pos + d`.
pub proof fn lemma_find_from_suffix(s: Seq<char>, pat: Seq<char>, pos: int, d: int)
    requires
        0 <= pos,
        0 <= d,
        pos + d <= s.len(),
    ensures
        ({
            let t = s.subrange(pos, s.len() as int);
            match find_from(s, pat, pos + d) {
                Option::Some(i) => find_from(t, pat, d) == Option::Some(i - pos),
                Option::None => find_from(t, pat, d) is None,
            }
        }),
    decreases s.len() - pos - d,
{
    let t = s.subrange(pos, s.len() as int);
    if pos + d + pat.len() > s.len() {
    } else {
        assert(t.subrange(d, d + pat.len() as int) =~= s.subrange(
            pos + d,
            pos + d + pat.len() as int,
        ));
        if pat.len() == 0 || s.subrange(pos + d, pos + d + pat.len() as int) == pat {
        } else {
            lemma_find_from_suffix(s, pat, pos, d + 1);
        }
    }
}

/// Split `s` on occurrences of `sep`, keeping the pieces in order.
pub fn split_str<'a>(s: &'a str, sep: &str) -> (r: Vec<&'a str>)
    requires
        sep@.len() > 0,
    ensures
        r@.len() == split_seq(s@, sep@).len(),
        forall|k: int| 0 <= k < r@.len() ==> #[trigger] r@[k]@ == split_seq(s@, sep@)[k],
{
    let slen: usize = s.unicode_len();
    let seplen: usize = sep.unicode_len();
    let mut r: Vec<&'a str> = Vec::new();
    let mut pos: usize = 0;
    proof {
        assert(s@.subrange(0, slen as int) =~= s@);
        assert(r@.map_values(|p: &'a str| p@) + split_seq(s@, sep@) =~= split_seq(s@, sep@));
    }
    loop
        invariant_except_break
            split_seq(s@, sep@) == r@.map_values(|p: &'a str| p@) + split_seq(
                s@.subrange(pos as int, slen as int),
                sep@,
            ),
        invariant
            pos <= slen,
            slen == s@.len(),
            seplen == sep@.len(),
            seplen > 0,
        ensures
            r@.len() == split_seq(s@, sep@).len(),
            forall|k: int| 0 <= k < r@.len() ==> #[trigger] r@[k]@ == split_seq(s@, sep@)[k],
        decreases slen - pos,
    {
        let ghost rest = s@.subrange(pos as int, slen as int);
        match find_pat_from(s, sep, pos) {
            None => {
                let piece = s.substring_char(pos, slen);
                proof {
                    lemma_find_from_suffix(s@, sep@, pos as int, 0);
                    assert(split_seq(rest, sep@) =~= seq![rest]);
                    assert((r@ + seq![piece]).map_values(|p: &'a str| p@) =~= r@.map_values(
                        |p: &'a str| p@,
                    ) + seq![rest]);
                    assert(r@.push(piece) =~= r@ + seq![piece]);
                }
                r.push(piece);
                proof {
                    let views = r@.map_values(|p: &'a str| p@);
                    assert(split_seq(s@, sep@) =~= views);
                    assert(views.len() == r@.len());
                    assert(forall|k: int| 0 <= k < r@.len() ==> #[trigger] r@[k]@ == views[k]);
                }
                break;
            },
            Some(i) => {
                proof {
                    lemma_find_from_sound(s@, sep@, pos as int);
                }
                let piece = s.substring_char(pos, i);
                proof {
                    lemma_find_from_suffix(s@, sep@, pos as int, 0);
                    assert(find_from(rest, sep@, 0) == Option::Some(i - pos));
                    assert(rest.subrange(0, i - pos) =~= s@.subrange(pos as int, i as int));
                    assert(rest.subrange(i - pos + seplen as int, rest.len() as int)
                        =~= s@.subrange(i + seplen, slen as int));
                    assert(split_seq(rest, sep@) == seq![s@.subrange(pos as int, i as int)]
                        + split_seq(s@.subrange(i + seplen, slen as int), sep@));
                    assert((r@ + seq![piece]).map_values(|p: &'a str| p@) =~= r@.map_values(
                        |p: &'a str| p@,
                    ) + seq![piece@]);
                    assert(r@.push(piece) =~= r@ + seq![piece]);
                }
                r.push(piece);
                proof {
                    assert(split_seq(s@, sep@) =~= r@.map_values(|p: &'a str| p@) + split_seq(
                        s@.subrange(i + seplen, slen as int),
                        sep@,
                    ));
                }
                pos = i + seplen;
            },
        }
    }
    r
}

/// Remove from the front of `s` every leading character satisfying `p`.
pub open spec fn trim_start_by(s: Seq<char>, p: spec_fn(char) -> bool) -> Seq<char>
    decreases s.len(),
{
    if s.len() > 0 && p(s[0]) {
        trim_start_by(s.subrange(1, s.len() as int), p)
    } else {
        s
    }
}

/// Remove from the back of `s` every trailing character satisfying `p`.
pub open spec fn trim_end_by(s: Seq<char>, p: spec_fn(char) -> bool) -> Seq<char>
    decreases s.len(),
{
    if s.len() > 0 && p(s[s.len() - 1]) {
        trim_end_by(s.subrange(0, s.len() - 1), p)
    } else {
        s
    }
}

/// Remove the characters satisfying `p` from both ends of `s`.
pub open spec fn trim_by(s: Seq<char>, p: spec_fn(char) -> bool) -> Seq<char> {
    trim_end_by(trim_start_by(s, p), p)
}

/// `trim_start_by` keeps exactly the suffix after the maximal trimmed prefix.
pub proof fn lemma_trim_start_by_index(s: Seq<char>, p: spec_fn(char) -> bool, lo: int)
    requires
        0 <= lo <= s.len(),
        forall|k: int| 0 <= k < lo ==> p(s[k]),
        lo < s.len() ==> !p(s[lo]),
    ensures
        trim_start_by(s, p) == s.subrange(lo, s.len() as int),
    decreases lo,
{
    if lo == 0 {
        assert(s.subrange(0, s.len() as int) =~= s);
    } else {
        let t = s.subrange(1, s.len() as int);
        lemma_trim_start_by_index(t, p, lo - 1);
        assert(t.subrange(lo - 1, t.len() as int) =~= s.subrange(lo, s.len() as int));
    }
}

/// `trim_end_by` keeps exactly the prefix before the maximal trimmed suffix.
pub proof fn lemma_trim_end_by_index(s: Seq<char>, p: spec_fn(char) -> bool, hi: int)
    requires
        0 <= hi <= s.len(),
        forall|k: int| hi <= k < s.len() ==> p(s[k]),
        hi > 0 ==> !p(s[hi - 1]),
    ensures
        trim_end_by(s, p) == s.subrange(0, hi),
    decreases s.len() - hi,
{
    if hi == s.len() {
        assert(s.subrange(0, s.len() as int) =~= s);
    } else {
        let t = s.subrange(0, s.len() - 1);
        lemma_trim_end_by_index(t, p, hi);
        assert(t.subrange(0, hi) =~= s.subrange(0, hi));
    }
}

/// Characters stripped from the ends of a record chunk: the group braces.
pub open spec fn brace_pred() -> spec_fn(char) -> bool {
    |c: char| c == '{' || c == '}'
}

/// Characters stripped from the ends of a key or value: double quotes and
/// surrounding whitespace.
pub open spec fn quote_ws_pred() -> spec_fn(char) -> bool {
    |c: char| c == '"' || c == ' ' || c == '\t' || c == '\n' || c == '\r'
}

/// The predicate selected by `braces`.
pub open spec fn trim_pred(braces: bool) -> spec_fn(char) -> bool {
    if braces {
        brace_pred()
    } else {
        quote_ws_pred()
    }
}

fn is_trim_char(c: char, braces: bool) -> (b: bool)
    ensures
        b == trim_pred(braces)(c),
{
    if braces {
        c == '{' || c == '}'
    } else {
        c == '"' || c == ' ' || c == '\t' || c == '\n' || c == '\r'
    }
}

/// Strip the selected characters from both ends of `s`.
pub fn trim_str<'a>(s: &'a str, braces: bool) -> (r: &'a str)
    ensures
        r@ == trim_by(s@, trim_pred(braces)),
{
    let ghost p = trim_pred(braces);
    let slen: usize = s.unicode_len();
    let mut lo: usize = 0;
    loop
        invariant
            lo <= slen,
            slen == s@.len(),
            p == trim_pred(braces),
            forall|k: int| 0 <= k < lo ==> p(s@[k]),
        ensures
            lo <= slen,
            lo == slen || !p(s@[lo as int]),
            forall|k: int| 0 <= k < lo ==> p(s@[k]),
        decreases slen - lo,
    {
        if lo == slen {
            break;
        }
        if !is_trim_char(s.get_char(lo), braces) {
            break;
        }
        lo = lo + 1;
    }
    let mut hi: usize = slen;
    loop
        invariant
            lo <= hi <= slen,
            slen == s@.len(),
            p == trim_pred(braces),
            forall|k: int| hi <= k < slen ==> p(s@[k]),
        ensures
            lo <= hi <= slen,
            hi == lo || !p(s@[hi - 1]),
            forall|k: int| hi <= k < slen ==> p(s@[k]),
        decreases hi,
    {
        if hi == lo {
            break;
        }
        if !is_trim_char(s.get_char(hi - 1), braces) {
            break;
        }
        hi = hi - 1;
    }
    proof {
        lemma_trim_start_by_index(s@, p, lo as int);
        let t = s@.subrange(lo as int, slen as int);
        lemma_trim_end_by_index(t, p, hi - lo as int);
        assert(t.subrange(0, hi - lo as int) =~= s@.subrange(lo as int, hi as int));
    }
    s.substring_char(lo, hi)
}

/// The two strings hold the same characters.
pub fn str_eq(a: &str, b: &str) -> (r: bool)
    ensures
        r == (a@ == b@),
{
    let alen: usize = a.unicode_len();
    let blen: usize = b.unicode_len();
    if alen != blen {
        return false;
    }
    let mut j: usize = 0;
    while j < alen
        invariant
            0 <= j <= alen,
            alen == a@.len(),
            alen == b@.len(),
            forall|k: int| 0 <= k < j ==> a@[k] == b@[k],
        decreases alen - j,
    {
        if a.get_char(j) != b.get_char(j) {
            return false;
        }
        j = j + 1;
    }
    proof {
        assert(a@ =~= b@);
    }
    true
}

} // verus!
