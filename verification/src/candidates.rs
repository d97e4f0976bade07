//! Advisory ranking of specification items against a free-text work
//! intent: lexical matches of the intent, concepts of a small glossary, and
//! the graph and history evidence of each item's criteria.
use vstd::prelude::*;
use crate::catalog::{CriterionSummary, ItemSummary, PrincipleSummary, RuleSummary};
use crate::discovery::{
    candidate_field_weight, discovery_query_exact_matches, discovery_query_matches,
    discovery_term_matches,
};
use crate::text::{append, owned, usize_to_decimal};

verus! {

/// A glossary concept: a label and the terms that express it.
#[derive(Debug, Clone)]
pub struct DiscoveryConcept {
    pub label: &'static str,
    pub terms: Vec<&'static str>,
}

pub open spec fn concept_view(c: DiscoveryConcept) -> (Seq<char>, Seq<Seq<char>>) {
    (c.label@, c.terms@.map_values(|t: &'static str| t@))
}

pub open spec fn concept_views(cs: Seq<DiscoveryConcept>) -> Seq<(Seq<char>, Seq<Seq<char>>)> {
    cs.map_values(|c: DiscoveryConcept| concept_view(c))
}

/// The glossary: a small, deterministic discovery aid in English and
/// Japanese.  It links an intent to specification text; it decides no
/// scope.
pub open spec fn spec_discovery_concepts() -> Seq<(Seq<char>, Seq<Seq<char>>)> {
    seq![
        ("behavior"@, seq![
            "behavior"@, "behaviour"@, "function"@, "functional"@,
            "動作"@, "振る舞い"@, "挙動"@, "機能"@,
        ]),
        ("validation"@, seq![
            "validate"@, "validation"@, "verify"@, "verification"@, "test"@, "valid"@,
            "検証"@, "確認"@, "テスト"@, "有効"@,
        ]),
        ("change"@, seq![
            "change"@, "modify"@, "update"@, "implement"@, "implementation"@,
            "変更"@, "改修"@, "更新"@, "実装"@,
        ]),
        ("scope"@, seq![
            "scope"@, "boundary"@, "bounded"@, "plan"@, "planning"@, "範囲"@, "境界"@, "計画"@,
        ]),
        ("security"@, seq![
            "security"@, "secure"@, "auth"@, "permission"@, "安全"@, "認証"@, "権限"@,
        ]),
    ]
}

/// The glossary concepts, in order.
pub fn discovery_concepts() -> (r: Vec<DiscoveryConcept>)
    ensures
        concept_views(r@) == spec_discovery_concepts(),
{
    let r = vec![
        DiscoveryConcept {
            label: "behavior",
            terms: vec![
                "behavior", "behaviour", "function", "functional",
                "動作", "振る舞い", "挙動", "機能",
            ],
        },
        DiscoveryConcept {
            label: "validation",
            terms: vec![
                "validate", "validation", "verify", "verification", "test", "valid",
                "検証", "確認", "テスト", "有効",
            ],
        },
        DiscoveryConcept {
            label: "change",
            terms: vec![
                "change", "modify", "update", "implement", "implementation",
                "変更", "改修", "更新", "実装",
            ],
        },
        DiscoveryConcept {
            label: "scope",
            terms: vec!["scope", "boundary", "bounded", "plan", "planning", "範囲", "境界", "計画"],
        },
        DiscoveryConcept {
            label: "security",
            terms: vec!["security", "secure", "auth", "permission", "安全", "認証", "権限"],
        },
    ];
    proof {
        assert(concept_view(r@[0]).1 =~= spec_discovery_concepts()[0].1);
        assert(concept_view(r@[1]).1 =~= spec_discovery_concepts()[1].1);
        assert(concept_view(r@[2]).1 =~= spec_discovery_concepts()[2].1);
        assert(concept_view(r@[3]).1 =~= spec_discovery_concepts()[3].1);
        assert(concept_view(r@[4]).1 =~= spec_discovery_concepts()[4].1);
        assert(concept_views(r@) =~= spec_discovery_concepts());
    }
    r
}

/// Some term of the concept occurs in `text`.
pub open spec fn concept_matches(terms: Seq<Seq<char>>, text: Seq<char>) -> bool {
    exists|k: int| 0 <= k < terms.len() && crate::discovery::spec_term_matches(text, #[trigger] terms[k])
}

fn concept_matches_exec(concept: &DiscoveryConcept, text: &str) -> (r: bool)
    ensures
        r == concept_matches(concept_view(*concept).1, text@),
{
    let ghost terms = concept_view(*concept).1;
    let mut k: usize = 0;
    while k < concept.terms.len()
        invariant
            k <= concept.terms.len(),
            terms == concept_view(*concept).1,
            terms.len() == concept.terms@.len(),
            forall|j: int| 0 <= j < k ==> !crate::discovery::spec_term_matches(text@, #[trigger] terms[j]),
        decreases concept.terms.len() - k,
    {
        assert(terms[k as int] == concept.terms@[k as int]@);
        if discovery_term_matches(text, concept.terms[k]) {
            return true;
        }
        k = k + 1;
    }
    false
}

/// The glossary concepts that the query expresses.
pub open spec fn spec_matching_concepts(query: Seq<char>) -> Seq<(Seq<char>, Seq<Seq<char>>)> {
    spec_discovery_concepts().filter(|c: (Seq<char>, Seq<Seq<char>>)| concept_matches(c.1, query))
}

/// The glossary concepts, in glossary order, with a term in `query`.
pub fn matching_discovery_concepts(query: &str) -> (r: Vec<DiscoveryConcept>)
    ensures
        concept_views(r@) == spec_matching_concepts(query@),
{
    let mut rest = discovery_concepts();
    let ghost cs = concept_views(rest@);
    let ghost pred = |c: (Seq<char>, Seq<Seq<char>>)| concept_matches(c.1, query@);
    let mut r: Vec<DiscoveryConcept> = Vec::new();
    let ghost mut i: int = 0;
    while rest.len() > 0
        invariant
            0 <= i <= cs.len(),
            concept_views(rest@) == cs.skip(i),
            pred == (|c: (Seq<char>, Seq<Seq<char>>)| concept_matches(c.1, query@)),
            concept_views(r@) == cs.take(i).filter(pred),
            cs == spec_discovery_concepts(),
        decreases rest.len(),
    {
        let ghost before_rest = rest@;
        proof {
            assert(concept_views(before_rest).len() == before_rest.len());
            assert(cs.skip(i).len() > 0);
            assert(i < cs.len());
            assert(cs.skip(i)[0] == cs[i]);
        }
        let c = rest.remove(0);
        proof {
            assert(concept_views(before_rest)[0] == concept_view(c));
            assert(cs[i] == concept_view(c));
            assert(cs.take(i + 1).drop_last() =~= cs.take(i));
            assert(cs.take(i + 1).last() == cs[i]);
            assert(rest@ == before_rest.remove(0));
            assert forall|k: int| 0 <= k < rest@.len() implies concept_views(rest@)[k] == cs.skip(
                i + 1,
            )[k] by {
                assert(rest@[k] == before_rest[k + 1]);
                assert(concept_views(before_rest)[k + 1] == cs.skip(i)[k + 1]);
            }
            assert(concept_views(rest@) =~= cs.skip(i + 1));
        }
        let keep = concept_matches_exec(&c, query);
        proof {
            assert(pred(cs[i]) == keep);
            assert(cs.take(i + 1).filter(pred) == (if pred(cs[i]) {
                cs.take(i).filter(pred).push(cs[i])
            } else {
                cs.take(i).filter(pred)
            })) by {
                reveal(Seq::filter);
            }
        }
        if keep {
            let ghost before = r@;
            r.push(c);
            proof {
                assert(concept_views(r@) =~= concept_views(before).push(concept_view(c)));
            }
        }
        proof {
            i = i + 1;
        }
    }
    assert(cs.take(cs.len() as int) =~= cs);
    r
}

// ---------------------------------------------------------------------------
// Candidate views

/// The query of the candidate endpoint.
#[derive(Debug, Clone)]
pub struct SpecificationCandidateQuery {
    pub q: Option<String>,
    pub kind: Option<String>,
    pub limit: Option<usize>,
}

/// A field of an item that the intent matched.
#[derive(Debug, Clone)]
pub struct CandidateMatch {
    pub anchor: String,
    pub kind: String,
    pub text: String,
}

/// One reason an item is offered.
#[derive(Debug, Clone)]
pub struct CandidateEvidence {
    pub source: String,
    pub detail: String,
}

/// A ranked candidate.  The ranking is advisory: work is created only from
/// the stable criterion anchors a person selects.
#[derive(Debug, Clone)]
pub struct SpecificationCandidateView {
    pub item: ItemSummary,
    pub matches: Vec<CandidateMatch>,
    pub relevance: Vec<String>,
    pub score: usize,
    pub evidence: Vec<CandidateEvidence>,
    pub stable_anchors: Vec<String>,
}

/// A searchable field: (anchor, kind, text).
pub struct CandidateField {
    pub anchor: String,
    pub kind: String,
    pub text: String,
}

pub open spec fn field_view(f: CandidateField) -> (Seq<char>, Seq<char>, Seq<char>) {
    (f.anchor@, f.kind@, f.text@)
}

pub open spec fn fields_view(fs: Seq<CandidateField>) -> Seq<(Seq<char>, Seq<char>, Seq<char>)> {
    fs.map_values(|f: CandidateField| field_view(f))
}

pub open spec fn match_view(m: CandidateMatch) -> (Seq<char>, Seq<char>, Seq<char>) {
    (m.anchor@, m.kind@, m.text@)
}

pub open spec fn matches_view(ms: Seq<CandidateMatch>) -> Seq<(Seq<char>, Seq<char>, Seq<char>)> {
    ms.map_values(|m: CandidateMatch| match_view(m))
}

pub open spec fn evidence_view(es: Seq<CandidateEvidence>) -> Seq<(Seq<char>, Seq<char>)> {
    es.map_values(|e: CandidateEvidence| (e.source@, e.detail@))
}

/// The searchable fields of an item, in order: its id, title and summary,
/// its description, then its principles, rules and criteria.
pub open spec fn item_fields(item: ItemSummary) -> Seq<(Seq<char>, Seq<char>, Seq<char>)> {
    seq![
        (item.id@, "item"@, item.id@),
        (item.id@, "title"@, item.title@),
        (item.id@, "summary"@, item.summary@),
    ] + (match item.description {
        Some(d) => seq![(item.id@, "description"@, d@)],
        None => Seq::empty(),
    }) + item.principles@.map_values(
        |p: PrincipleSummary| (p.anchor@, "principle"@, p.statement@),
    ) + item.rules@.map_values(|r: RuleSummary| (r.anchor@, "rule"@, r.statement@))
        + item.criteria@.map_values(
        |c: CriterionSummary| (c.anchor@, "criterion"@, c.statement@),
    )
}

fn push_field(fs: &mut Vec<CandidateField>, anchor: &str, kind: &str, text: &str)
    ensures
        fields_view(final(fs)@) == fields_view(old(fs)@).push((anchor@, kind@, text@)),
{
    let f = CandidateField { anchor: owned(anchor), kind: owned(kind), text: owned(text) };
    fs.push(f);
    assert(fields_view(fs@) =~= fields_view(old(fs)@).push((anchor@, kind@, text@)));
}

/// The searchable fields of `item`.
pub fn candidate_fields(item: &ItemSummary) -> (r: Vec<CandidateField>)
    ensures
        fields_view(r@) == item_fields(*item),
{
    let mut fs: Vec<CandidateField> = Vec::new();
    push_field(&mut fs, item.id.as_str(), "item", item.id.as_str());
    push_field(&mut fs, item.id.as_str(), "title", item.title.as_str());
    push_field(&mut fs, item.id.as_str(), "summary", item.summary.as_str());
    let ghost head = seq![
        (item.id@, "item"@, item.id@),
        (item.id@, "title"@, item.title@),
        (item.id@, "summary"@, item.summary@),
    ];
    assert(fields_view(fs@) =~= head);
    match &item.description {
        Some(d) => {
            push_field(&mut fs, item.id.as_str(), "description", d.as_str());
        },
        None => {},
    }
    let ghost base = fields_view(fs@);
    let ghost ps = item.principles@.map_values(
        |p: PrincipleSummary| (p.anchor@, "principle"@, p.statement@),
    );
    let mut i: usize = 0;
    while i < item.principles.len()
        invariant
            i <= item.principles.len(),
            ps == item.principles@.map_values(
                |p: PrincipleSummary| (p.anchor@, "principle"@, p.statement@),
            ),
            fields_view(fs@) == base + ps.take(i as int),
        decreases item.principles.len() - i,
    {
        push_field(&mut fs, item.principles[i].anchor.as_str(), "principle", item.principles[i].statement.as_str());
        assert(ps.take(i + 1) =~= ps.take(i as int).push(ps[i as int]));
        i = i + 1;
    }
    assert(ps.take(i as int) =~= ps);
    let ghost base = fields_view(fs@);
    let ghost rs = item.rules@.map_values(|r: RuleSummary| (r.anchor@, "rule"@, r.statement@));
    let mut i: usize = 0;
    while i < item.rules.len()
        invariant
            i <= item.rules.len(),
            rs == item.rules@.map_values(|r: RuleSummary| (r.anchor@, "rule"@, r.statement@)),
            fields_view(fs@) == base + rs.take(i as int),
        decreases item.rules.len() - i,
    {
        push_field(&mut fs, item.rules[i].anchor.as_str(), "rule", item.rules[i].statement.as_str());
        assert(rs.take(i + 1) =~= rs.take(i as int).push(rs[i as int]));
        i = i + 1;
    }
    assert(rs.take(i as int) =~= rs);
    let ghost base = fields_view(fs@);
    let ghost cs = item.criteria@.map_values(
        |c: CriterionSummary| (c.anchor@, "criterion"@, c.statement@),
    );
    let mut i: usize = 0;
    while i < item.criteria.len()
        invariant
            i <= item.criteria.len(),
            cs == item.criteria@.map_values(
                |c: CriterionSummary| (c.anchor@, "criterion"@, c.statement@),
            ),
            fields_view(fs@) == base + cs.take(i as int),
        decreases item.criteria.len() - i,
    {
        push_field(&mut fs, item.criteria[i].anchor.as_str(), "criterion", item.criteria[i].statement.as_str());
        assert(cs.take(i + 1) =~= cs.take(i as int).push(cs[i as int]));
        i = i + 1;
    }
    assert(cs.take(i as int) =~= cs);
    assert(fields_view(fs@) =~= item_fields(*item));
    fs
}

// ---------------------------------------------------------------------------
// Lexical matches

/// What a lexical match in a field of `kind` adds to the score: the field's
/// weight for an exact match, half of it (at least one) for a substring.
pub open spec fn lexical_weight(kind: Seq<char>, exact: bool) -> nat {
    let w = crate::discovery::spec_field_weight(kind);
    if exact {
        w
    } else if w / 2 >= 1 {
        w / 2
    } else {
        1
    }
}

pub open spec fn lexical_detail(kind: Seq<char>, exact: bool) -> Seq<char> {
    if exact {
        "lexical "@ + kind + " match"@
    } else {
        "lexical substring "@ + kind + " match"@
    }
}

/// Matches, evidence and score of the fields that contain the query.
pub open spec fn lexical_pass(fields: Seq<(Seq<char>, Seq<char>, Seq<char>)>, q: Seq<char>) -> (
    Seq<(Seq<char>, Seq<char>, Seq<char>)>,
    Seq<(Seq<char>, Seq<char>)>,
    nat,
)
    decreases fields.len(),
{
    if fields.len() == 0 {
        (Seq::empty(), Seq::empty(), 0)
    } else {
        let (m, e, score) = lexical_pass(fields.drop_last(), q);
        let f = fields.last();
        if crate::discovery::spec_query_matches(f.2, q) {
            let exact = crate::discovery::spec_query_exact_matches(f.2, q);
            (
                m.push(f),
                e.push(("lexical"@, lexical_detail(f.1, exact))),
                score + lexical_weight(f.1, exact),
            )
        } else {
            (m, e, score)
        }
    }
}

fn push_match(ms: &mut Vec<CandidateMatch>, anchor: &str, kind: &str, text: &str)
    ensures
        matches_view(final(ms)@) == matches_view(old(ms)@).push((anchor@, kind@, text@)),
{
    let m = CandidateMatch { anchor: owned(anchor), kind: owned(kind), text: owned(text) };
    ms.push(m);
    assert(matches_view(ms@) =~= matches_view(old(ms)@).push((anchor@, kind@, text@)));
}

fn push_evidence(es: &mut Vec<CandidateEvidence>, source: &str, detail: String)
    ensures
        evidence_view(final(es)@) == evidence_view(old(es)@).push((source@, detail@)),
{
    let e = CandidateEvidence { source: owned(source), detail };
    es.push(e);
    assert(evidence_view(es@) =~= evidence_view(old(es)@).push((source@, detail@)));
}

fn lexical_detail_exec(kind: &str, exact: bool) -> (r: String)
    ensures
        r@ == lexical_detail(kind@, exact),
{
    let mut r = if exact {
        owned("lexical ")
    } else {
        owned("lexical substring ")
    };
    append(&mut r, kind);
    append(&mut r, " match");
    r
}

fn lexical_exec(fields: &Vec<CandidateField>, q: &str) -> (r: (
    Vec<CandidateMatch>,
    Vec<CandidateEvidence>,
    usize,
))
    requires
        7 * fields.len() <= usize::MAX,
    ensures
        (matches_view(r.0@), evidence_view(r.1@), r.2 as nat) == lexical_pass(fields_view(fields@), q@),
        r.2 <= 7 * fields.len(),
{
    let ghost fv = fields_view(fields@);
    let mut ms: Vec<CandidateMatch> = Vec::new();
    let mut es: Vec<CandidateEvidence> = Vec::new();
    let mut score: usize = 0;
    let mut i: usize = 0;
    assert(fv.take(0) =~= Seq::<(Seq<char>, Seq<char>, Seq<char>)>::empty());
    assert(matches_view(ms@) =~= Seq::<(Seq<char>, Seq<char>, Seq<char>)>::empty());
    assert(evidence_view(es@) =~= Seq::<(Seq<char>, Seq<char>)>::empty());
    while i < fields.len()
        invariant
            i <= fields.len(),
            fv == fields_view(fields@),
            fv.len() == fields@.len(),
            7 * fields.len() <= usize::MAX,
            (matches_view(ms@), evidence_view(es@), score as nat) == lexical_pass(fv.take(i as int), q@),
            score <= 7 * i,
        decreases fields.len() - i,
    {
        let f = &fields[i];
        proof {
            assert(fv.take(i + 1).drop_last() =~= fv.take(i as int));
            assert(fv.take(i + 1).last() == field_view(*f));
        }
        if discovery_query_matches(f.text.as_str(), q) {
            let exact = discovery_query_exact_matches(f.text.as_str(), q);
            let w = candidate_field_weight(f.kind.as_str());
            let half = w / 2;
            let add = if exact {
                w
            } else if half >= 1 {
                half
            } else {
                1
            };
            push_match(&mut ms, f.anchor.as_str(), f.kind.as_str(), f.text.as_str());
            push_evidence(&mut es, "lexical", lexical_detail_exec(f.kind.as_str(), exact));
            score = score + add;
        }
        i = i + 1;
    }
    assert(fv.take(fields.len() as int) =~= fv);
    (ms, es, score)
}

// ---------------------------------------------------------------------------
// Concept matches

/// `ms` with `m` appended unless it is already there.
pub open spec fn with_match(
    ms: Seq<(Seq<char>, Seq<char>, Seq<char>)>,
    m: (Seq<char>, Seq<char>, Seq<char>),
) -> Seq<(Seq<char>, Seq<char>, Seq<char>)> {
    if ms.contains(m) {
        ms
    } else {
        ms.push(m)
    }
}

/// The fields that express a concept: each adds a semantic match (once) and
/// is counted.
pub open spec fn concept_pass(
    fields: Seq<(Seq<char>, Seq<char>, Seq<char>)>,
    terms: Seq<Seq<char>>,
    ms: Seq<(Seq<char>, Seq<char>, Seq<char>)>,
) -> (Seq<(Seq<char>, Seq<char>, Seq<char>)>, nat)
    decreases fields.len(),
{
    if fields.len() == 0 {
        (ms, 0)
    } else {
        let (m, n) = concept_pass(fields.drop_last(), terms, ms);
        let f = fields.last();
        if concept_matches(terms, f.2) {
            (with_match(m, (f.0, "semantic"@, f.2)), n + 1)
        } else {
            (m, n)
        }
    }
}

pub open spec fn semantic_detail(label: Seq<char>, n: nat) -> Seq<char> {
    "semantic concept '"@ + label + "' links the intent to "@ + crate::text::decimal(n)
        + " specification field(s)"@
}

/// The concepts of the query in turn: a concept that some field expresses
/// adds its semantic matches, one evidence entry and three to the score.
pub open spec fn semantic_pass(
    fields: Seq<(Seq<char>, Seq<char>, Seq<char>)>,
    concepts: Seq<(Seq<char>, Seq<Seq<char>>)>,
    start: (Seq<(Seq<char>, Seq<char>, Seq<char>)>, Seq<(Seq<char>, Seq<char>)>, nat),
) -> (Seq<(Seq<char>, Seq<char>, Seq<char>)>, Seq<(Seq<char>, Seq<char>)>, nat)
    decreases concepts.len(),
{
    if concepts.len() == 0 {
        start
    } else {
        let (m, e, score) = semantic_pass(fields, concepts.drop_last(), start);
        let c = concepts.last();
        let (m2, n) = concept_pass(fields, c.1, m);
        if n > 0 {
            (m2, e.push(("semantic"@, semantic_detail(c.0, n))), score + 3)
        } else {
            (m2, e, score)
        }
    }
}

fn contains_match(ms: &Vec<CandidateMatch>, anchor: &String, kind: &str, text: &String) -> (r: bool)
    ensures
        r == matches_view(ms@).contains((anchor@, kind@, text@)),
{
    let ghost target = (anchor@, kind@, text@);
    let mut k: usize = 0;
    while k < ms.len()
        invariant
            k <= ms.len(),
            target == (anchor@, kind@, text@),
            forall|j: int| 0 <= j < k ==> matches_view(ms@)[j] != target,
        decreases ms.len() - k,
    {
        let m = &ms[k];
        let same = crate::text::str_eq(m.anchor.as_str(), anchor.as_str()) && crate::text::str_eq(
            m.kind.as_str(),
            kind,
        ) && crate::text::str_eq(m.text.as_str(), text.as_str());
        assert(matches_view(ms@)[k as int] == match_view(*m));
        if same {
            assert(matches_view(ms@)[k as int] == target);
            return true;
        }
        k = k + 1;
    }
    false
}

fn concept_exec(
    fields: &Vec<CandidateField>,
    concept: &DiscoveryConcept,
    ms: &mut Vec<CandidateMatch>,
) -> (n: usize)
    ensures
        (matches_view(final(ms)@), n as nat) == concept_pass(
            fields_view(fields@),
            concept_view(*concept).1,
            matches_view(old(ms)@),
        ),
        n <= fields.len(),
{
    let ghost fv = fields_view(fields@);
    let ghost start = matches_view(ms@);
    let mut n: usize = 0;
    let mut i: usize = 0;
    assert(fv.take(0) =~= Seq::<(Seq<char>, Seq<char>, Seq<char>)>::empty());
    while i < fields.len()
        invariant
            i <= fields.len(),
            fv == fields_view(fields@),
            fv.len() == fields@.len(),
            (matches_view(ms@), n as nat) == concept_pass(fv.take(i as int), concept_view(*concept).1, start),
            n <= i,
        decreases fields.len() - i,
    {
        let f = &fields[i];
        proof {
            assert(fv.take(i + 1).drop_last() =~= fv.take(i as int));
            assert(fv.take(i + 1).last() == field_view(*f));
        }
        if concept_matches_exec(concept, f.text.as_str()) {
            n = n + 1;
            if !contains_match(ms, &f.anchor, "semantic", &f.text) {
                push_match(ms, f.anchor.as_str(), "semantic", f.text.as_str());
            }
        }
        i = i + 1;
    }
    assert(fv.take(fields.len() as int) =~= fv);
    n
}

fn semantic_detail_exec(label: &str, n: usize) -> (r: String)
    ensures
        r@ == semantic_detail(label@, n as nat),
{
    let mut r = owned("semantic concept '");
    append(&mut r, label);
    append(&mut r, "' links the intent to ");
    let digits = usize_to_decimal(n);
    append(&mut r, digits.as_str());
    append(&mut r, " specification field(s)");
    r
}

fn semantic_exec(
    fields: &Vec<CandidateField>,
    concepts: &Vec<DiscoveryConcept>,
    ms: &mut Vec<CandidateMatch>,
    es: &mut Vec<CandidateEvidence>,
    score: &mut usize,
)
    requires
        *old(score) + 3 * concepts.len() <= usize::MAX,
    ensures
        (matches_view(final(ms)@), evidence_view(final(es)@), *final(score) as nat) == semantic_pass(
            fields_view(fields@),
            concept_views(concepts@),
            (matches_view(old(ms)@), evidence_view(old(es)@), *old(score) as nat),
        ),
        *final(score) <= *old(score) + 3 * concepts.len(),
{
    let ghost cv = concept_views(concepts@);
    let ghost start = (matches_view(ms@), evidence_view(es@), *score as nat);
    let ghost score0 = *score;
    let mut i: usize = 0;
    assert(cv.take(0) =~= Seq::<(Seq<char>, Seq<Seq<char>>)>::empty());
    while i < concepts.len()
        invariant
            i <= concepts.len(),
            cv == concept_views(concepts@),
            cv.len() == concepts@.len(),
            score0 + 3 * concepts.len() <= usize::MAX,
            start.2 == score0,
            (matches_view(ms@), evidence_view(es@), *score as nat) == semantic_pass(
                fields_view(fields@),
                cv.take(i as int),
                start,
            ),
            *score <= score0 + 3 * i,
        decreases concepts.len() - i,
    {
        let c = &concepts[i];
        proof {
            assert(cv.take(i + 1).drop_last() =~= cv.take(i as int));
            assert(cv.take(i + 1).last() == concept_view(*c));
        }
        let n = concept_exec(fields, c, ms);
        if n > 0 {
            push_evidence(es, "semantic", semantic_detail_exec(c.label, n));
            *score = *score + 3;
        }
        i = i + 1;
    }
    assert(cv.take(concepts.len() as int) =~= cv);
}

// ---------------------------------------------------------------------------
// Graph and history evidence

/// A count recorded for one criterion anchor (its canonical text).
#[derive(Debug, Clone)]
pub struct AnchorCount {
    pub anchor: String,
    pub count: usize,
}

/// What the specification graph and the delivery history record per
/// criterion anchor: its implementation targets, its verification targets
/// and its completed evidence records.
#[derive(Debug, Clone)]
pub struct DiscoveryCounts {
    pub implementation_targets: Vec<AnchorCount>,
    pub verification_targets: Vec<AnchorCount>,
    pub completed_evidence: Vec<AnchorCount>,
}

pub open spec fn counts_view(t: Seq<AnchorCount>) -> Seq<(Seq<char>, nat)> {
    t.map_values(|c: AnchorCount| (c.anchor@, c.count as nat))
}

/// The count recorded for `key` (the first entry for it), or zero.
pub open spec fn lookup_count(t: Seq<(Seq<char>, nat)>, key: Seq<char>) -> nat
    decreases t.len(),
{
    if t.len() == 0 {
        0
    } else if t[0].0 == key {
        t[0].1
    } else {
        lookup_count(t.drop_first(), key)
    }
}

/// The counts of all `anchors`, summed.
pub open spec fn anchors_total(t: Seq<(Seq<char>, nat)>, anchors: Seq<Seq<char>>) -> nat
    decreases anchors.len(),
{
    if anchors.len() == 0 {
        0
    } else {
        anchors_total(t, anchors.drop_last()) + lookup_count(t, anchors.last())
    }
}

pub proof fn lemma_total_prefix(t: Seq<(Seq<char>, nat)>, anchors: Seq<Seq<char>>, i: int)
    requires
        0 <= i <= anchors.len(),
    ensures
        anchors_total(t, anchors.take(i)) <= anchors_total(t, anchors),
    decreases anchors.len() - i,
{
    if i < anchors.len() {
        lemma_total_prefix(t, anchors, i + 1);
        assert(anchors.take(i + 1).drop_last() =~= anchors.take(i));
    } else {
        assert(anchors.take(i) =~= anchors);
    }
}

fn lookup_exec(t: &Vec<AnchorCount>, key: &String) -> (r: usize)
    ensures
        r as nat == lookup_count(counts_view(t@), key@),
{
    let ghost tv = counts_view(t@);
    let mut i: usize = 0;
    assert(tv.skip(0) =~= tv);
    while i < t.len()
        invariant
            i <= t.len(),
            tv == counts_view(t@),
            tv.len() == t@.len(),
            lookup_count(tv, key@) == lookup_count(tv.skip(i as int), key@),
        decreases t.len() - i,
    {
        proof {
            assert(tv.skip(i as int)[0] == tv[i as int]);
            assert(tv.skip(i as int).drop_first() =~= tv.skip(i + 1));
            assert(tv[i as int] == (t@[i as int].anchor@, t@[i as int].count as nat));
        }
        if crate::text::str_eq(t[i].anchor.as_str(), key.as_str()) {
            return t[i].count;
        }
        i = i + 1;
    }
    assert(tv.skip(i as int).len() == 0);
    0
}

pub open spec fn criterion_anchors(item: ItemSummary) -> Seq<Seq<char>> {
    item.criteria@.map_values(|c: CriterionSummary| c.anchor@)
}

fn total_exec(t: &Vec<AnchorCount>, item: &ItemSummary) -> (r: usize)
    requires
        anchors_total(counts_view(t@), criterion_anchors(*item)) <= usize::MAX,
    ensures
        r as nat == anchors_total(counts_view(t@), criterion_anchors(*item)),
{
    let ghost anchors = criterion_anchors(*item);
    let mut total: usize = 0;
    let mut i: usize = 0;
    assert(anchors.take(0) =~= Seq::<Seq<char>>::empty());
    while i < item.criteria.len()
        invariant
            i <= item.criteria.len(),
            anchors == criterion_anchors(*item),
            anchors.len() == item.criteria@.len(),
            anchors_total(counts_view(t@), anchors) <= usize::MAX,
            total as nat == anchors_total(counts_view(t@), anchors.take(i as int)),
        decreases item.criteria.len() - i,
    {
        let n = lookup_exec(t, &item.criteria[i].anchor);
        proof {
            assert(anchors.take(i + 1).drop_last() =~= anchors.take(i as int));
            assert(anchors.take(i + 1).last() == item.criteria@[i as int].anchor@);
            lemma_total_prefix(counts_view(t@), anchors, i + 1);
        }
        total = total + n;
        i = i + 1;
    }
    assert(anchors.take(i as int) =~= anchors);
    total
}

pub open spec fn graph_detail(anchors: nat, implementation: nat, verification: nat) -> Seq<char> {
    crate::text::decimal(anchors) + " exact criterion anchor(s), "@ + crate::text::decimal(
        implementation,
    ) + " implementation target(s), and "@ + crate::text::decimal(verification)
        + " verification target(s)"@
}

pub open spec fn history_detail(completed: nat) -> Seq<char> {
    if completed == 0 {
        "no completed evidence recorded for these criterion anchors"@
    } else {
        crate::text::decimal(completed) + " completed evidence record(s) reference these criterion anchors"@
    }
}

/// The counted totals of an item's criteria fit in the machine's integers.
pub open spec fn totals_fit(item: ItemSummary, counts: DiscoveryCounts) -> bool {
    &&& anchors_total(counts_view(counts.implementation_targets@), criterion_anchors(item))
        <= usize::MAX
    &&& anchors_total(counts_view(counts.verification_targets@), criterion_anchors(item))
        <= usize::MAX
    &&& anchors_total(counts_view(counts.completed_evidence@), criterion_anchors(item))
        <= usize::MAX
}

/// The graph and history evidence of an item.
pub open spec fn graph_history_evidence(item: ItemSummary, counts: DiscoveryCounts) -> Seq<
    (Seq<char>, Seq<char>),
> {
    let anchors = criterion_anchors(item);
    seq![
        ("graph"@, graph_detail(
            anchors.len(),
            anchors_total(counts_view(counts.implementation_targets@), anchors),
            anchors_total(counts_view(counts.verification_targets@), anchors),
        )),
        ("history"@, history_detail(
            anchors_total(counts_view(counts.completed_evidence@), anchors),
        )),
    ]
}

fn graph_history_exec(item: &ItemSummary, counts: &DiscoveryCounts, es: &mut Vec<CandidateEvidence>)
    requires
        totals_fit(*item, *counts),
    ensures
        evidence_view(final(es)@) == evidence_view(old(es)@) + graph_history_evidence(*item, *counts),
{
    let implementation = total_exec(&counts.implementation_targets, item);
    let verification = total_exec(&counts.verification_targets, item);
    let completed = total_exec(&counts.completed_evidence, item);
    let mut graph = usize_to_decimal(item.criteria.len());
    append(&mut graph, " exact criterion anchor(s), ");
    let d = usize_to_decimal(implementation);
    append(&mut graph, d.as_str());
    append(&mut graph, " implementation target(s), and ");
    let d = usize_to_decimal(verification);
    append(&mut graph, d.as_str());
    append(&mut graph, " verification target(s)");
    let history = if completed == 0 {
        owned("no completed evidence recorded for these criterion anchors")
    } else {
        let mut h = usize_to_decimal(completed);
        append(&mut h, " completed evidence record(s) reference these criterion anchors");
        h
    };
    let ghost before = evidence_view(es@);
    push_evidence(es, "graph", graph);
    push_evidence(es, "history", history);
    proof {
        assert(criterion_anchors(*item).len() == item.criteria.len());
        assert(evidence_view(es@) =~= before + graph_history_evidence(*item, *counts));
    }
}

// ---------------------------------------------------------------------------
// One candidate

/// A candidate as the ranking sees it: the item, its matches, its evidence
/// and its score.
pub open spec fn candidate_spec_of(c: SpecificationCandidateView) -> (
    ItemSummary,
    Seq<(Seq<char>, Seq<char>, Seq<char>)>,
    Seq<(Seq<char>, Seq<char>)>,
    nat,
) {
    (c.item, matches_view(c.matches@), evidence_view(c.evidence@), c.score as nat)
}

/// The relevance lines repeat the evidence details, and the stable anchors
/// are the item's criterion anchors.
pub open spec fn candidate_consistent(c: SpecificationCandidateView) -> bool {
    &&& c.relevance@.map_values(|s: String| s@) == evidence_view(c.evidence@).map_values(
        |e: (Seq<char>, Seq<char>)| e.1,
    )
    &&& c.stable_anchors@.map_values(|s: String| s@) == criterion_anchors(c.item)
}

/// The matches, evidence and score of an item before its graph and history
/// evidence: with no query, every item is available; otherwise the lexical
/// matches and then the concept matches.
pub open spec fn candidate_core(
    item: ItemSummary,
    q: Seq<char>,
    concepts: Seq<(Seq<char>, Seq<Seq<char>>)>,
) -> (Seq<(Seq<char>, Seq<char>, Seq<char>)>, Seq<(Seq<char>, Seq<char>)>, nat) {
    if q.len() == 0 {
        (
            seq![(item.id@, "item"@, item.title@)],
            seq![("available"@, "available specification"@)],
            0,
        )
    } else {
        semantic_pass(item_fields(item), concepts, lexical_pass(item_fields(item), q))
    }
}

/// The candidate an item makes, if anything matched.
pub open spec fn spec_candidate(
    item: ItemSummary,
    q: Seq<char>,
    concepts: Seq<(Seq<char>, Seq<Seq<char>>)>,
    counts: DiscoveryCounts,
) -> Option<
    (ItemSummary, Seq<(Seq<char>, Seq<char>, Seq<char>)>, Seq<(Seq<char>, Seq<char>)>, nat),
> {
    let core = candidate_core(item, q, concepts);
    if core.0.len() == 0 {
        None
    } else {
        Some((item, core.0, core.1 + graph_history_evidence(item, counts), core.2))
    }
}

/// The scores and totals of an item fit in the machine's integers.
pub open spec fn candidate_fits(item: ItemSummary, concept_count: nat, counts: DiscoveryCounts) -> bool {
    7 * item_fields(item).len() + 3 * concept_count <= usize::MAX && totals_fit(item, counts)
}

/// The candidate that `item` makes for the (normalized) query text.
pub fn specification_candidate(
    item: ItemSummary,
    query_text: &str,
    concepts: &Vec<DiscoveryConcept>,
    counts: &DiscoveryCounts,
) -> (r: Option<SpecificationCandidateView>)
    requires
        candidate_fits(item, concepts.len() as nat, *counts),
    ensures
        r matches Some(c) ==> Some(candidate_spec_of(c)) == spec_candidate(
            item,
            query_text@,
            concept_views(concepts@),
            *counts,
        ) && candidate_consistent(c),
        r is None ==> spec_candidate(item, query_text@, concept_views(concepts@), *counts) is None,
{
    let mut ms: Vec<CandidateMatch> = Vec::new();
    let mut es: Vec<CandidateEvidence> = Vec::new();
    let mut score: usize = 0;
    let query_chars = crate::text::chars_of(query_text);
    if query_chars.len() == 0 {
        push_match(&mut ms, item.id.as_str(), "item", item.title.as_str());
        push_evidence(&mut es, "available", owned("available specification"));
        proof {
            assert(matches_view(ms@) =~= seq![(item.id@, "item"@, item.title@)]);
            assert(evidence_view(es@) =~= seq![("available"@, "available specification"@)]);
        }
    } else {
        let fields = candidate_fields(&item);
        let lexical = lexical_exec(&fields, query_text);
        ms = lexical.0;
        es = lexical.1;
        score = lexical.2;
        semantic_exec(&fields, concepts, &mut ms, &mut es, &mut score);
    }
    if ms.len() == 0 {
        return None;
    }
    graph_history_exec(&item, counts, &mut es);
    let mut relevance: Vec<String> = Vec::new();
    let mut i: usize = 0;
    while i < es.len()
        invariant
            i <= es.len(),
            relevance@.len() == i,
            forall|k: int| 0 <= k < i ==> #[trigger] relevance@[k]@ == es@[k].detail@,
        decreases es.len() - i,
    {
        relevance.push(owned(es[i].detail.as_str()));
        i = i + 1;
    }
    let mut anchors: Vec<String> = Vec::new();
    let mut i: usize = 0;
    while i < item.criteria.len()
        invariant
            i <= item.criteria.len(),
            anchors@.len() == i,
            forall|k: int| 0 <= k < i ==> #[trigger] anchors@[k]@ == item.criteria@[k].anchor@,
        decreases item.criteria.len() - i,
    {
        anchors.push(owned(item.criteria[i].anchor.as_str()));
        i = i + 1;
    }
    proof {
        assert(relevance@.map_values(|s: String| s@) =~= evidence_view(es@).map_values(
            |e: (Seq<char>, Seq<char>)| e.1,
        ));
        assert(anchors@.map_values(|s: String| s@) =~= criterion_anchors(item));
    }
    Some(SpecificationCandidateView {
        item,
        matches: ms,
        relevance,
        score,
        evidence: es,
        stable_anchors: anchors,
    })
}

// ---------------------------------------------------------------------------
// Ranking

/// `a` ranks before `b`: a higher score, or the same score and a smaller
/// item id.
pub open spec fn ranks_before(
    a: (ItemSummary, Seq<(Seq<char>, Seq<char>, Seq<char>)>, Seq<(Seq<char>, Seq<char>)>, nat),
    b: (ItemSummary, Seq<(Seq<char>, Seq<char>, Seq<char>)>, Seq<(Seq<char>, Seq<char>)>, nat),
) -> bool {
    a.3 > b.3 || (a.3 == b.3 && crate::text::seq_lt(a.0.id@, b.0.id@))
}

/// Where a stable insertion puts `c` into the ranked `s`: after every
/// entry that `c` does not rank before.
pub open spec fn ranked_position(
    s: Seq<(ItemSummary, Seq<(Seq<char>, Seq<char>, Seq<char>)>, Seq<(Seq<char>, Seq<char>)>, nat)>,
    c: (ItemSummary, Seq<(Seq<char>, Seq<char>, Seq<char>)>, Seq<(Seq<char>, Seq<char>)>, nat),
) -> int
    decreases s.len(),
{
    if s.len() == 0 {
        0
    } else if ranks_before(c, s.last()) {
        ranked_position(s.drop_last(), c)
    } else {
        s.len() as int
    }
}

/// The candidates in rank order: by score, highest first, then by item id;
/// candidates that tie on both keep their order (a stable insertion sort).
pub open spec fn rank_candidates(
    s: Seq<(ItemSummary, Seq<(Seq<char>, Seq<char>, Seq<char>)>, Seq<(Seq<char>, Seq<char>)>, nat)>,
) -> Seq<(ItemSummary, Seq<(Seq<char>, Seq<char>, Seq<char>)>, Seq<(Seq<char>, Seq<char>)>, nat)>
    decreases s.len(),
{
    if s.len() == 0 {
        s
    } else {
        let r = rank_candidates(s.drop_last());
        r.insert(ranked_position(r, s.last()), s.last())
    }
}

proof fn lemma_position_bounds(
    s: Seq<(ItemSummary, Seq<(Seq<char>, Seq<char>, Seq<char>)>, Seq<(Seq<char>, Seq<char>)>, nat)>,
    c: (ItemSummary, Seq<(Seq<char>, Seq<char>, Seq<char>)>, Seq<(Seq<char>, Seq<char>)>, nat),
)
    ensures
        0 <= ranked_position(s, c) <= s.len(),
    decreases s.len(),
{
    if s.len() > 0 {
        lemma_position_bounds(s.drop_last(), c);
    }
}

proof fn lemma_rank_len(
    s: Seq<(ItemSummary, Seq<(Seq<char>, Seq<char>, Seq<char>)>, Seq<(Seq<char>, Seq<char>)>, nat)>,
)
    ensures
        rank_candidates(s).len() == s.len(),
    decreases s.len(),
{
    if s.len() > 0 {
        lemma_rank_len(s.drop_last());
        lemma_position_bounds(rank_candidates(s.drop_last()), s.last());
    }
}

fn ranks_before_exec(a: &SpecificationCandidateView, b: &SpecificationCandidateView) -> (r: bool)
    ensures
        r == ranks_before(candidate_spec_of(*a), candidate_spec_of(*b)),
{
    if a.score != b.score {
        return a.score > b.score;
    }
    let ai = crate::text::chars_of(a.item.id.as_str());
    let bi = crate::text::chars_of(b.item.id.as_str());
    crate::text::compare_chars(&ai, &bi) < 0
}

pub open spec fn candidate_specs(v: Seq<SpecificationCandidateView>) -> Seq<
    (ItemSummary, Seq<(Seq<char>, Seq<char>, Seq<char>)>, Seq<(Seq<char>, Seq<char>)>, nat),
> {
    v.map_values(|c: SpecificationCandidateView| candidate_spec_of(c))
}

/// Inserts `c` into the ranked `out` where a stable insertion puts it.
fn insert_ranked(out: &mut Vec<SpecificationCandidateView>, c: SpecificationCandidateView)
    ensures
        candidate_specs(final(out)@) == candidate_specs(old(out)@).insert(
            ranked_position(candidate_specs(old(out)@), candidate_spec_of(c)),
            candidate_spec_of(c),
        ),
        forall|k: int|
            0 <= k < final(out)@.len() && candidate_consistent(c) && (forall|j: int|
                0 <= j < old(out)@.len() ==> candidate_consistent(#[trigger] old(out)@[j]))
                ==> candidate_consistent(#[trigger] final(out)@[k]),
{
    let ghost sv = candidate_specs(out@);
    let ghost cs = candidate_spec_of(c);
    let mut p: usize = out.len();
    assert(sv.take(p as int) =~= sv);
    while p > 0
        invariant
            p <= out.len(),
            sv == candidate_specs(out@),
            sv.len() == out@.len(),
            cs == candidate_spec_of(c),
            ranked_position(sv, cs) == ranked_position(sv.take(p as int), cs),
        ensures
            p <= out.len(),
            ranked_position(sv, cs) == p,
        decreases p,
    {
        proof {
            assert(sv[p - 1] == candidate_spec_of(out@[p - 1]));
            assert(sv.take(p as int).last() == sv[p - 1]);
            assert(sv.take(p as int).drop_last() =~= sv.take(p - 1));
        }
        if !ranks_before_exec(&c, &out[p - 1]) {
            assert(ranked_position(sv.take(p as int), cs) == p);
            break;
        }
        p = p - 1;
    }

    let ghost before = out@;
    out.insert(p, c);
    proof {
        assert(out@ == before.insert(p as int, c));
        assert(candidate_specs(out@) =~= sv.insert(p as int, cs));
    }
}

// ---------------------------------------------------------------------------
// The candidate list

/// The query text: trimmed and lower-cased.
pub open spec fn normalized_query(q: Option<String>) -> Seq<char> {
    crate::discovery::unicode_lowercase(
        crate::text::trimmed(
            match q {
                Some(s) => s@,
                None => Seq::empty(),
            },
        ),
    )
}

/// An empty kind filter admits every item.
pub open spec fn kind_admits(kind: Option<String>, item_kind: Seq<char>) -> bool {
    match kind {
        Some(k) => k@.len() == 0 || k@ == item_kind,
        None => true,
    }
}

/// How many candidates are returned: 100 by default, between 1 and 500.
pub open spec fn candidate_limit(limit: Option<usize>) -> nat {
    let l: nat = match limit {
        Some(l) => l as nat,
        None => 100,
    };
    if l < 1 {
        1
    } else if l > 500 {
        500
    } else {
        l
    }
}

/// The candidates of the admitted items, in catalog order.
pub open spec fn collect_candidates(
    items: Seq<ItemSummary>,
    q: Seq<char>,
    concepts: Seq<(Seq<char>, Seq<Seq<char>>)>,
    kind: Option<String>,
    counts: DiscoveryCounts,
) -> Seq<(ItemSummary, Seq<(Seq<char>, Seq<char>, Seq<char>)>, Seq<(Seq<char>, Seq<char>)>, nat)>
    decreases items.len(),
{
    if items.len() == 0 {
        Seq::empty()
    } else {
        let rest = collect_candidates(items.drop_last(), q, concepts, kind, counts);
        let item = items.last();
        if kind_admits(kind, item.kind@) {
            match spec_candidate(item, q, concepts, counts) {
                Some(c) => rest.push(c),
                None => rest,
            }
        } else {
            rest
        }
    }
}

/// The ranked candidates for a query, cut to its limit.
pub open spec fn spec_specification_candidates(
    items: Seq<ItemSummary>,
    query: SpecificationCandidateQuery,
    counts: DiscoveryCounts,
) -> Seq<(ItemSummary, Seq<(Seq<char>, Seq<char>, Seq<char>)>, Seq<(Seq<char>, Seq<char>)>, nat)> {
    let q = normalized_query(query.q);
    let ranked = rank_candidates(
        collect_candidates(items, q, spec_matching_concepts(q), query.kind, counts),
    );
    let limit = candidate_limit(query.limit);
    if limit < ranked.len() {
        ranked.take(limit as int)
    } else {
        ranked
    }
}

/// The catalog items rank as candidates for a work intent: each item of
/// the requested kind that the trimmed, lower-cased query matches (every
/// item, for an empty query) becomes a candidate with its matches, evidence
/// and score; the candidates are ranked by score, highest first, then by
/// item id, and at most the query's limit of them are returned.
pub fn specification_candidates(
    items: Vec<ItemSummary>,
    query: &SpecificationCandidateQuery,
    counts: &DiscoveryCounts,
) -> (r: Vec<SpecificationCandidateView>)
    requires
        forall|i: int| 0 <= i < items@.len() ==> candidate_fits(#[trigger] items@[i], 5, *counts),
    ensures
        candidate_specs(r@) == spec_specification_candidates(items@, *query, *counts),
        forall|k: int| 0 <= k < r@.len() ==> candidate_consistent(#[trigger] r@[k]),
{
    let raw = match &query.q {
        Some(q) => owned(q.as_str()),
        None => String::new(),
    };
    let trimmed = crate::text::trim(raw.as_str());
    let query_text = crate::discovery::to_lowercase(trimmed.as_str());
    let concepts = matching_discovery_concepts(query_text.as_str());
    proof {
        spec_discovery_concepts().filter_lemma(
            |c: (Seq<char>, Seq<Seq<char>>)| concept_matches(c.1, query_text@),
        );
        assert(spec_discovery_concepts().len() == 5);
    }
    let ghost q = query_text@;
    let ghost cv = concept_views(concepts@);
    let ghost all = items@;
    let mut rest = items;
    let mut ranked: Vec<SpecificationCandidateView> = Vec::new();
    let ghost mut i: int = 0;
    assert(all.take(0) =~= Seq::<ItemSummary>::empty());
    while rest.len() > 0
        invariant
            0 <= i <= all.len(),
            rest@ == all.skip(i),
            q == normalized_query(query.q),
            q == query_text@,
            cv == concept_views(concepts@),
            cv == spec_matching_concepts(q),
            concepts.len() <= 5,
            forall|j: int| 0 <= j < all.len() ==> candidate_fits(#[trigger] all[j], 5, *counts),
            candidate_specs(ranked@) == rank_candidates(
                collect_candidates(all.take(i), q, cv, query.kind, *counts),
            ),
            forall|k: int| 0 <= k < ranked@.len() ==> candidate_consistent(#[trigger] ranked@[k]),
        decreases rest.len(),
    {
        proof {
            assert(all.skip(i).len() > 0);
            assert(all.skip(i)[0] == all[i]);
        }
        let ghost before_rest = rest@;
        let item = rest.remove(0);
        proof {
            assert(rest@ =~= all.skip(i + 1));
            assert(item == all[i]);
            assert(all.take(i + 1).drop_last() =~= all.take(i));
            assert(all.take(i + 1).last() == all[i]);
            assert(candidate_fits(all[i], 5, *counts));
        }
        let admitted = match &query.kind {
            Some(k) => {
                let kc = crate::text::chars_of(k.as_str());
                kc.len() == 0 || crate::text::str_eq(k.as_str(), item.kind.as_str())
            },
            None => true,
        };
        let ghost prev = collect_candidates(all.take(i), q, cv, query.kind, *counts);
        proof {
            assert(admitted == kind_admits(query.kind, item.kind@));
        }
        if admitted {
            let ghost item_ghost = item;
            let candidate = specification_candidate(item, query_text.as_str(), &concepts, counts);
            match candidate {
                Some(c) => {
                    let ghost cs = candidate_spec_of(c);
                    insert_ranked(&mut ranked, c);
                    proof {
                        assert(item_ghost == all[i]);
                        assert(kind_admits(query.kind, all[i].kind@));
                        assert(spec_candidate(all[i], q, cv, *counts) == Some(cs));
                        assert(collect_candidates(all.take(i + 1), q, cv, query.kind, *counts)
                            == prev.push(cs));
                        assert(prev.push(cs).drop_last() =~= prev);
                        assert(prev.push(cs).last() == cs);
                    }
                },
                None => {
                    assert(collect_candidates(all.take(i + 1), q, cv, query.kind, *counts) == prev);
                },
            }
        } else {
            assert(collect_candidates(all.take(i + 1), q, cv, query.kind, *counts) == prev);
        }
        proof {
            i = i + 1;
        }
    }
    proof {
        assert(all.take(i) =~= all);
        lemma_rank_len(collect_candidates(all, q, cv, query.kind, *counts));
    }
    let limit = match query.limit {
        Some(l) => l,
        None => 100,
    };
    let limit = if limit < 1 {
        1
    } else if limit > 500 {
        500
    } else {
        limit
    };
    let ghost full = candidate_specs(ranked@);
    let ghost full_views = ranked@;
    if limit < ranked.len() {
        ranked.truncate(limit);
        proof {
            assert(ranked@ == full_views.subrange(0, limit as int));
            assert(candidate_specs(ranked@) =~= full.take(limit as int));
        }
    }
    ranked
}

// ---------------------------------------------------------------------------
// Laws of the ranking

proof fn lemma_not_before_transitive(
    a: (ItemSummary, Seq<(Seq<char>, Seq<char>, Seq<char>)>, Seq<(Seq<char>, Seq<char>)>, nat),
    b: (ItemSummary, Seq<(Seq<char>, Seq<char>, Seq<char>)>, Seq<(Seq<char>, Seq<char>)>, nat),
    c: (ItemSummary, Seq<(Seq<char>, Seq<char>, Seq<char>)>, Seq<(Seq<char>, Seq<char>)>, nat),
)
    requires
        !ranks_before(b, a),
        !ranks_before(c, b),
    ensures
        !ranks_before(c, a),
{
    crate::text::lemma_lt_total(a.0.id@, b.0.id@);
    crate::text::lemma_lt_total(b.0.id@, c.0.id@);
    crate::text::lemma_lt_total(a.0.id@, c.0.id@);
    if c.3 == a.3 && b.3 == a.3 && crate::text::seq_lt(c.0.id@, a.0.id@) {
        if crate::text::seq_lt(a.0.id@, b.0.id@) {
            crate::text::lemma_lt_transitive(c.0.id@, a.0.id@, b.0.id@);
        }
    }
}

/// Facts about the insertion position in a ranked sequence.
proof fn lemma_position_props(
    r: Seq<(ItemSummary, Seq<(Seq<char>, Seq<char>, Seq<char>)>, Seq<(Seq<char>, Seq<char>)>, nat)>,
    c: (ItemSummary, Seq<(Seq<char>, Seq<char>, Seq<char>)>, Seq<(Seq<char>, Seq<char>)>, nat),
)
    requires
        forall|i: int, j: int| 0 <= i < j < r.len() ==> !ranks_before(#[trigger] r[j], #[trigger] r[i]),
    ensures
        0 <= ranked_position(r, c) <= r.len(),
        forall|k: int| ranked_position(r, c) <= k < r.len() ==> ranks_before(c, #[trigger] r[k]),
        forall|k: int| 0 <= k < ranked_position(r, c) ==> !ranks_before(c, #[trigger] r[k]),
    decreases r.len(),
{
    lemma_position_bounds(r, c);
    if r.len() > 0 {
        let d = r.drop_last();
        if ranks_before(c, r.last()) {
            lemma_position_props(d, c);
            assert forall|k: int| ranked_position(r, c) <= k < r.len() implies ranks_before(
                c,
                #[trigger] r[k],
            ) by {
                if k < r.len() - 1 {
                    assert(r[k] == d[k]);
                }
            }
            assert forall|k: int| 0 <= k < ranked_position(r, c) implies !ranks_before(
                c,
                #[trigger] r[k],
            ) by {
                assert(r[k] == d[k]);
            }
        } else {
            assert forall|k: int| 0 <= k < ranked_position(r, c) implies !ranks_before(
                c,
                #[trigger] r[k],
            ) by {
                if k < r.len() - 1 {
                    lemma_not_before_transitive(r[k], r[r.len() - 1], c);
                }
            }
        }
    }
}

/// Ranking orders candidates by score, highest first, and candidates of the
/// same score by item id: no candidate ranks before one placed ahead of it.
pub proof fn lemma_ranking_is_ordered(
    s: Seq<(ItemSummary, Seq<(Seq<char>, Seq<char>, Seq<char>)>, Seq<(Seq<char>, Seq<char>)>, nat)>,
)
    ensures
        forall|i: int, j: int|
            0 <= i < j < rank_candidates(s).len() ==> !ranks_before(
                #[trigger] rank_candidates(s)[j],
                #[trigger] rank_candidates(s)[i],
            ),
    decreases s.len(),
{
    if s.len() > 0 {
        let r = rank_candidates(s.drop_last());
        let c = s.last();
        lemma_ranking_is_ordered(s.drop_last());
        lemma_position_props(r, c);
        let p = ranked_position(r, c);
        let n = r.insert(p, c);
        assert(rank_candidates(s) == n);
        assert forall|i: int, j: int| 0 <= i < j < n.len() implies !ranks_before(
            #[trigger] n[j],
            #[trigger] n[i],
        ) by {
            if j < p {
                assert(n[i] == r[i] && n[j] == r[j]);
            } else if j == p {
                assert(n[i] == r[i]);
            } else if i == p {
                assert(n[j] == r[j - 1]);
                crate::text::lemma_lt_total(c.0.id@, r[j - 1].0.id@);
            } else if i < p {
                assert(n[i] == r[i] && n[j] == r[j - 1]);
            } else {
                assert(n[i] == r[i - 1] && n[j] == r[j - 1]);
            }
        }
    }
}

/// Ranking neither drops nor adds a candidate: it is a permutation.
pub proof fn lemma_ranking_is_permutation(
    s: Seq<(ItemSummary, Seq<(Seq<char>, Seq<char>, Seq<char>)>, Seq<(Seq<char>, Seq<char>)>, nat)>,
)
    ensures
        rank_candidates(s).to_multiset() == s.to_multiset(),
    decreases s.len(),
{
    broadcast use vstd::seq_lib::group_to_multiset_ensures;
    if s.len() > 0 {
        let r = rank_candidates(s.drop_last());
        let c = s.last();
        lemma_ranking_is_permutation(s.drop_last());
        lemma_position_bounds(r, c);
        vstd::seq_lib::to_multiset_insert(r, ranked_position(r, c), c);
        assert(s =~= s.drop_last().push(c));
        vstd::seq_lib::to_multiset_build(s.drop_last(), c);
    } else {
        assert(rank_candidates(s) == s);
    }
}

} // verus!
