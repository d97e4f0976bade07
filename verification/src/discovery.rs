//! Advisory specification discovery: lexical and glossary-based matching of
//! a free-text intent against specification text.
use vstd::prelude::*;
use crate::text::{
    ascii_lowercase_exec, all_ascii_exec, chars_of, contains_exec, eq_ignore_ascii_case_exec,
    is_ascii_alnum_exec, owned, seq_eq, str_eq, string_of,
};

verus! {

// ---------------------------------------------------------------------------
// Tokens

/// The completed tokens and the token in progress after reading `s`.
pub open spec fn token_state(s: Seq<char>) -> (Seq<Seq<char>>, Seq<char>)
    decreases s.len(),
{
    if s.len() == 0 {
        (Seq::empty(), Seq::empty())
    } else {
        let (done, cur) = token_state(s.drop_last());
        let c = s.last();
        if crate::text::is_ascii_alnum(c) {
            (done, cur.push(c))
        } else if cur.len() > 0 {
            (done.push(cur), Seq::empty())
        } else {
            (done, Seq::empty())
        }
    }
}

/// The maximal runs of ASCII letters and digits in `s`, in order.
pub open spec fn spec_ascii_tokens(s: Seq<char>) -> Seq<Seq<char>> {
    let (done, cur) = token_state(s);
    if cur.len() > 0 {
        done.push(cur)
    } else {
        done
    }
}

pub open spec fn token_views(v: Seq<Vec<char>>) -> Seq<Seq<char>> {
    v.map_values(|t: Vec<char>| t@)
}

/// The ASCII alphanumeric tokens of a character sequence.
pub fn ascii_tokens_of(s: &Vec<char>) -> (r: Vec<Vec<char>>)
    ensures
        token_views(r@) == spec_ascii_tokens(s@),
{
    let mut done: Vec<Vec<char>> = Vec::new();
    let mut cur: Vec<char> = Vec::new();
    let mut i: usize = 0;
    proof {
        assert(s@.take(0) =~= Seq::<char>::empty());
        assert(token_views(done@) =~= Seq::<Seq<char>>::empty());
    }
    while i < s.len()
        invariant
            i <= s.len(),
            token_views(done@) == token_state(s@.take(i as int)).0,
            cur@ == token_state(s@.take(i as int)).1,
        decreases s.len() - i,
    {
        let c = s[i];
        proof {
            assert(s@.take(i + 1).drop_last() =~= s@.take(i as int));
            assert(s@.take(i + 1).last() == c);
        }
        if is_ascii_alnum_exec(c) {
            cur.push(c);
        } else if cur.len() > 0 {
            let ghost before = done@;
            let finished = cur;
            cur = Vec::new();
            done.push(finished);
            proof {
                assert(token_views(done@) =~= token_views(before).push(finished@));
            }
        } else {
        }
        i = i + 1;
    }
    proof {
        assert(s@.take(s.len() as int) =~= s@);
    }
    if cur.len() > 0 {
        let ghost before = done@;
        done.push(cur);
        proof {
            assert(token_views(done@) =~= token_views(before).push(cur@));
        }
    }
    done
}

/// The ASCII alphanumeric tokens of `value`: the words between other
/// characters.
pub fn ascii_tokens(value: &str) -> (r: Vec<String>)
    ensures
        r@.map_values(|t: String| t@) == spec_ascii_tokens(value@),
{
    let chars = chars_of(value);
    let tokens = ascii_tokens_of(&chars);
    let mut r: Vec<String> = Vec::new();
    let mut i: usize = 0;
    while i < tokens.len()
        invariant
            i <= tokens.len(),
            r@.len() == i,
            forall|k: int| 0 <= k < i ==> r@[k]@ == tokens@[k]@,
        decreases tokens.len() - i,
    {
        r.push(string_of(&tokens[i]));
        i = i + 1;
    }
    assert(r@.map_values(|t: String| t@) =~= token_views(tokens@));
    r
}

// ---------------------------------------------------------------------------
// Unicode lower-casing (std)

/// Names what `str::to_lowercase` returns for a character sequence.
pub uninterp spec fn unicode_lowercase(s: Seq<char>) -> Seq<char>;

/// Calls std's `str::to_lowercase`, which maps every character to its
/// Unicode lower-case form.  The contract names the result: it depends on
/// the characters of `s` alone; the Unicode case tables are not restated.
#[verifier::external_body]
pub(crate) fn to_lowercase(s: &str) -> (r: String)
    ensures
        r@ == unicode_lowercase(s@),
{
    s.to_lowercase()
}


// ---------------------------------------------------------------------------
// Matching

/// Whether `tokens` holds `term`, ignoring ASCII case.
pub open spec fn has_token(tokens: Seq<Seq<char>>, term: Seq<char>) -> bool {
    exists|k: int| 0 <= k < tokens.len() && crate::text::eq_ignore_ascii_case(tokens[k], term)
}

/// ASCII glossary terms are whole words (ignoring ASCII case); other terms
/// match as exact substrings.
pub open spec fn spec_term_matches(text: Seq<char>, term: Seq<char>) -> bool {
    if crate::text::all_ascii(term) {
        has_token(spec_ascii_tokens(text), term)
    } else {
        crate::text::contains_seq(text, term)
    }
}

/// A case-insensitive substring test: ASCII case for an ASCII query, Unicode
/// lower case otherwise.
pub open spec fn spec_query_matches(text: Seq<char>, query: Seq<char>) -> bool {
    if !crate::text::all_ascii(query) {
        crate::text::contains_seq(unicode_lowercase(text), unicode_lowercase(query))
    } else {
        crate::text::contains_seq(
            crate::text::ascii_lowercase(text),
            crate::text::ascii_lowercase(query),
        )
    }
}

/// Whether the tokens `tq` occur as consecutive tokens of `tt` at `i`,
/// ignoring ASCII case.
pub open spec fn tokens_at(tt: Seq<Seq<char>>, tq: Seq<Seq<char>>, i: int) -> bool {
    0 <= i && i + tq.len() <= tt.len() && forall|j: int|
        0 <= j < tq.len() ==> crate::text::eq_ignore_ascii_case(#[trigger] tt[i + j], tq[j])
}

/// An exact match: for an ASCII query, its words appear as consecutive
/// words of the text (ignoring ASCII case); otherwise the Unicode
/// lower-cased texts are equal.
pub open spec fn spec_query_exact_matches(text: Seq<char>, query: Seq<char>) -> bool {
    if !crate::text::all_ascii(query) {
        unicode_lowercase(text) == unicode_lowercase(query)
    } else {
        spec_ascii_tokens(query).len() > 0 && exists|i: int|
            tokens_at(spec_ascii_tokens(text), spec_ascii_tokens(query), i)
    }
}

fn has_token_exec(tokens: &Vec<Vec<char>>, term: &Vec<char>) -> (r: bool)
    ensures
        r == has_token(token_views(tokens@), term@),
{
    let mut k: usize = 0;
    while k < tokens.len()
        invariant
            k <= tokens.len(),
            forall|j: int|
                0 <= j < k ==> !crate::text::eq_ignore_ascii_case(tokens@[j]@, term@),
        decreases tokens.len() - k,
    {
        if eq_ignore_ascii_case_exec(&tokens[k], term) {
            assert(token_views(tokens@)[k as int] == tokens@[k as int]@);
            return true;
        }
        k = k + 1;
    }
    proof {
        assert forall|j: int|
            0 <= j < token_views(tokens@).len() implies !crate::text::eq_ignore_ascii_case(
            token_views(tokens@)[j],
            term@,
        ) by {
            assert(token_views(tokens@)[j] == tokens@[j]@);
        }
    }
    false
}

/// Whether a glossary term occurs in `text`.
pub fn term_matches(text: &Vec<char>, term: &Vec<char>) -> (r: bool)
    ensures
        r == spec_term_matches(text@, term@),
{
    if all_ascii_exec(term) {
        let tokens = ascii_tokens_of(text);
        has_token_exec(&tokens, term)
    } else {
        contains_exec(text, term)
    }
}

/// Whether the glossary `term` occurs in `text`.
pub fn discovery_term_matches(text: &str, term: &str) -> (r: bool)
    ensures
        r == spec_term_matches(text@, term@),
{
    term_matches(&chars_of(text), &chars_of(term))
}

/// Whether `query` occurs in `text`, ignoring case.
pub fn discovery_query_matches(text: &str, query: &str) -> (r: bool)
    ensures
        r == spec_query_matches(text@, query@),
{
    let q = chars_of(query);
    if !all_ascii_exec(&q) {
        let lt = to_lowercase(text);
        let lq = to_lowercase(query);
        contains_exec(&chars_of(lt.as_str()), &chars_of(lq.as_str()))
    } else {
        let t = chars_of(text);
        contains_exec(&ascii_lowercase_exec(&t), &ascii_lowercase_exec(&q))
    }
}

fn tokens_at_exec(tt: &Vec<Vec<char>>, tq: &Vec<Vec<char>>, i: usize) -> (r: bool)
    requires
        i + tq.len() <= tt.len(),
    ensures
        r == tokens_at(token_views(tt@), token_views(tq@), i as int),
{
    let mut j: usize = 0;
    while j < tq.len()
        invariant
            j <= tq.len(),
            i + tq.len() <= tt.len(),
            forall|k: int|
                0 <= k < j ==> crate::text::eq_ignore_ascii_case(tt@[i + k]@, tq@[k]@),
        decreases tq.len() - j,
    {
        if !eq_ignore_ascii_case_exec(&tt[i + j], &tq[j]) {
            assert(token_views(tt@)[i + j] == tt@[i + j]@);
            assert(token_views(tq@)[j as int] == tq@[j as int]@);
            return false;
        }
        j = j + 1;
    }
    proof {
        assert forall|k: int| 0 <= k < tq.len() implies crate::text::eq_ignore_ascii_case(
            #[trigger] token_views(tt@)[i + k],
            token_views(tq@)[k],
        ) by {
            assert(token_views(tt@)[i + k] == tt@[i + k]@);
            assert(token_views(tq@)[k] == tq@[k]@);
        }
    }
    true
}

/// Whether `query` matches `text` exactly (see `spec_query_exact_matches`).
pub fn discovery_query_exact_matches(text: &str, query: &str) -> (r: bool)
    ensures
        r == spec_query_exact_matches(text@, query@),
{
    let q = chars_of(query);
    if !all_ascii_exec(&q) {
        let lt = to_lowercase(text);
        let lq = to_lowercase(query);
        return lt == lq;
    }
    let tt = ascii_tokens_of(&chars_of(text));
    let tq = ascii_tokens_of(&q);
    if tq.len() == 0 {
        return false;
    }
    if tq.len() > tt.len() {
        return false;
    }
    let last = tt.len() - tq.len();
    let mut i: usize = 0;
    loop
        invariant
            last == tt.len() - tq.len(),
            i <= last,
            tq.len() > 0,
            token_views(tt@) == spec_ascii_tokens(text@),
            token_views(tq@) == spec_ascii_tokens(query@),
            crate::text::all_ascii(query@),
            forall|k: int| 0 <= k < i ==> !tokens_at(token_views(tt@), token_views(tq@), k),
        decreases last - i,
    {
        if tokens_at_exec(&tt, &tq, i) {
            assert(tokens_at(spec_ascii_tokens(text@), spec_ascii_tokens(query@), i as int));
            return true;
        }
        if i == last {
            proof {
                assert forall|k: int| !tokens_at(token_views(tt@), token_views(tq@), k) by {
                    if 0 <= k && k < i {
                    }
                }
            }
            return false;
        }
        i = i + 1;
    }
}

/// How much a match in each kind of field counts.
pub open spec fn spec_field_weight(kind: Seq<char>) -> nat {
    if kind == "item"@ {
        7
    } else if kind == "title"@ {
        6
    } else if kind == "criterion"@ {
        5
    } else if kind == "summary"@ || kind == "description"@ {
        4
    } else if kind == "rule"@ || kind == "principle"@ {
        3
    } else {
        1
    }
}

/// The weight of a field kind.
pub fn candidate_field_weight(kind: &str) -> (r: usize)
    ensures
        r as nat == spec_field_weight(kind@),
{
    if str_eq(kind, "item") {
        7
    } else if str_eq(kind, "title") {
        6
    } else if str_eq(kind, "criterion") {
        5
    } else if str_eq(kind, "summary") || str_eq(kind, "description") {
        4
    } else if str_eq(kind, "rule") || str_eq(kind, "principle") {
        3
    } else {
        1
    }
}

} // verus!
