//! Heuristic scoring and ranking of the upstream candidates of an incident.

use vstd::prelude::*;
use crate::analysis::impact::{ImpactRow, row_key};
use crate::models::{IncidentCandidate, IncidentResult, format_node_ref, ref_text};
use crate::text::{contains_str, contains_sub, lowercase, push_signed_decimal, signed_decimal, to_lowercase, views};

verus! {

/// How many candidates an analysis reports at most.
pub const MAX_CANDIDATES: usize = 5;

/// The number of leading entries of `r` whose score is at least `v`.
pub open spec fn insert_pos(r: Seq<IncidentCandidate>, v: u32) -> int
    decreases r.len(),
{
    if r.len() == 0 {
        0
    } else if r[0].score >= v {
        1 + insert_pos(r.drop_first(), v)
    } else {
        0
    }
}

/// `r` with `x` placed after every leading entry whose score is at least
/// that of `x`.
pub open spec fn insert_desc(r: Seq<IncidentCandidate>, x: IncidentCandidate) -> Seq<
    IncidentCandidate,
> {
    r.take(insert_pos(r, x.score)) + seq![x] + r.skip(insert_pos(r, x.score))
}

/// The candidates of `s` ordered by descending score, candidates of equal
/// score in their order in `s`.
pub open spec fn ranked(s: Seq<IncidentCandidate>) -> Seq<IncidentCandidate>
    decreases s.len(),
{
    if s.len() == 0 {
        Seq::empty()
    } else {
        insert_desc(ranked(s.drop_last()), s.last())
    }
}

/// Scores never increase along `r`.
pub open spec fn sorted_desc(r: Seq<IncidentCandidate>) -> bool {
    forall|i: int, j: int| 0 <= i < j < r.len() ==> #[trigger] r[i].score >= #[trigger] r[j].score
}

proof fn lemma_insert_pos(r: Seq<IncidentCandidate>, v: u32)
    ensures
        0 <= insert_pos(r, v) <= r.len(),
        forall|i: int| 0 <= i < insert_pos(r, v) ==> #[trigger] r[i].score >= v,
        insert_pos(r, v) < r.len() ==> r[insert_pos(r, v)].score < v,
    decreases r.len(),
{
    if r.len() > 0 && r[0].score >= v {
        lemma_insert_pos(r.drop_first(), v);
        assert forall|i: int| 0 <= i < insert_pos(r, v) implies #[trigger] r[i].score >= v by {
            if i > 0 {
                assert(r[i] == r.drop_first()[i - 1]);
            }
        }
    }
}

proof fn lemma_insert_sorted(r: Seq<IncidentCandidate>, x: IncidentCandidate)
    requires
        sorted_desc(r),
    ensures
        sorted_desc(insert_desc(r, x)),
        insert_desc(r, x).len() == r.len() + 1,
{
    lemma_insert_pos(r, x.score);
    let p = insert_pos(r, x.score);
    let t = insert_desc(r, x);
    assert forall|i: int, j: int| 0 <= i < j < t.len() implies #[trigger] t[i].score
        >= #[trigger] t[j].score by {
        if j < p {
            assert(t[i] == r[i] && t[j] == r[j]);
        } else if j == p {
            assert(t[i] == r[i]);
        } else if i < p {
            assert(t[i] == r[i] && t[j] == r[j - 1]);
        } else if i == p {
            assert(t[j] == r[j - 1]);
            assert(r[p].score < x.score);
            if j - 1 > p {
                assert(r[p].score >= r[j - 1].score);
            }
        } else {
            assert(t[i] == r[i - 1] && t[j] == r[j - 1]);
        }
    }
}

/// The ranking is ordered by descending score and keeps every candidate.
pub proof fn ranking_is_sorted(s: Seq<IncidentCandidate>)
    ensures
        sorted_desc(ranked(s)),
        ranked(s).len() == s.len(),
    decreases s.len(),
{
    if s.len() > 0 {
        ranking_is_sorted(s.drop_last());
        lemma_insert_sorted(ranked(s.drop_last()), s.last());
    }
}

/// The candidates of `s` that have score `v`, in order.
pub open spec fn with_score(s: Seq<IncidentCandidate>, v: u32) -> Seq<IncidentCandidate> {
    s.filter(|c: IncidentCandidate| c.score == v)
}

proof fn lemma_insert_stable(r: Seq<IncidentCandidate>, x: IncidentCandidate, v: u32)
    requires
        sorted_desc(r),
    ensures
        with_score(insert_desc(r, x), v) == if x.score == v {
            with_score(r, v).push(x)
        } else {
            with_score(r, v)
        },
{
    broadcast use vstd::seq_lib::group_filter_ensures;
    lemma_insert_pos(r, x.score);
    let p = insert_pos(r, x.score);
    let f = |c: IncidentCandidate| c.score == v;
    let a = r.take(p);
    let b = r.skip(p);
    assert(r =~= a + b);
    assert(insert_desc(r, x) =~= a + (seq![x] + b));
    Seq::filter_distributes_over_add(a, seq![x] + b, f);
    Seq::filter_distributes_over_add(seq![x], b, f);
    Seq::filter_distributes_over_add(a, b, f);
    if x.score == v {
        // every entry of b has a lower score than x
        assert forall|i: int| 0 <= i < b.len() implies !f(#[trigger] b[i]) by {
            assert(b[i] == r[p + i]);
            if i > 0 {
                assert(r[p].score >= r[p + i].score);
            }
        }
        b.lemma_all_neg_filter_empty(f);
        assert(seq![x].filter(f) =~= seq![x]) by {
            reveal_with_fuel(Seq::<IncidentCandidate>::filter, 2);
        }
        assert(b.filter(f) =~= Seq::<IncidentCandidate>::empty());
    } else {
        assert(seq![x].filter(f) =~= Seq::<IncidentCandidate>::empty()) by {
            reveal_with_fuel(Seq::<IncidentCandidate>::filter, 2);
        }
    }
}

/// The ranking keeps candidates of equal score in the order they were given: for
/// every score, the candidates with that score appear in the ranking exactly
/// as they appear in the input.
pub proof fn ranking_is_stable(s: Seq<IncidentCandidate>, v: u32)
    ensures
        with_score(ranked(s), v) == with_score(s, v),
    decreases s.len(),
{
    broadcast use vstd::seq_lib::group_filter_ensures;
    if s.len() == 0 {
        assert(with_score(s, v) =~= Seq::<IncidentCandidate>::empty()) by {
            reveal_with_fuel(Seq::<IncidentCandidate>::filter, 1);
        }
    } else {
        ranking_is_stable(s.drop_last(), v);
        ranking_is_sorted(s.drop_last());
        lemma_insert_stable(ranked(s.drop_last()), s.last(), v);
        let f = |c: IncidentCandidate| c.score == v;
        assert(s =~= s.drop_last().push(s.last()));
        s.drop_last().lemma_filter_push(s.last(), f);
    }
}


proof fn lemma_insert_pos_unique(r: Seq<IncidentCandidate>, v: u32, p: int)
    requires
        0 <= p <= r.len(),
        forall|i: int| 0 <= i < p ==> #[trigger] r[i].score >= v,
        p < r.len() ==> r[p].score < v,
    ensures
        insert_pos(r, v) == p,
    decreases r.len(),
{
    if r.len() > 0 && p > 0 {
        assert(r[0].score >= v);
        assert forall|i: int| 0 <= i < p - 1 implies #[trigger] r.drop_first()[i].score >= v by {
            assert(r.drop_first()[i] == r[i + 1]);
        }
        if p - 1 < r.len() - 1 {
            assert(r.drop_first()[p - 1] == r[p]);
        }
        lemma_insert_pos_unique(r.drop_first(), v, p - 1);
    }
}

/// The leading `n` candidates of the ranking of `s` (all of them when there
/// are fewer).
pub open spec fn top_ranked(s: Seq<IncidentCandidate>, n: nat) -> Seq<IncidentCandidate> {
    if ranked(s).len() <= n {
        ranked(s)
    } else {
        ranked(s).take(n as int)
    }
}

/// The outcome of an incident analysis: the scored candidates ranked by
/// descending score (candidates of equal score in the order given), at most
/// `MAX_CANDIDATES` of them.
pub fn analyze(symptom: &str, affected: &str, candidates: Vec<IncidentCandidate>) -> (r:
    IncidentResult)
    ensures
        r.symptom@ == symptom@,
        r.affected@ == affected@,
        r.candidates@ == top_ranked(candidates@, MAX_CANDIDATES as nat),
{
    let ghost orig = candidates@;
    let n = candidates.len();
    let mut rest = candidates;
    let mut out: Vec<IncidentCandidate> = Vec::new();
    let mut k: usize = 0;
    assert(orig.take(0) =~= Seq::<IncidentCandidate>::empty());
    assert(orig.skip(0) =~= orig);
    while rest.len() > 0
        invariant
            k <= orig.len(),
            orig.len() == n,
            rest@ == orig.skip(k as int),
            out@ == ranked(orig.take(k as int)),
            sorted_desc(out@),
        decreases rest@.len(),
    {
        let x = rest.remove(0);
        assert(x == orig[k as int]);
        assert(rest@ =~= orig.skip(k + 1));
        let mut pos: usize = 0;
        while pos < out.len() && out[pos].score >= x.score
            invariant
                pos <= out@.len(),
                forall|i: int| 0 <= i < pos ==> #[trigger] out@[i].score >= x.score,
            decreases out@.len() - pos,
        {
            pos = pos + 1;
        }
        proof {
            lemma_insert_pos_unique(out@, x.score, pos as int);
            lemma_insert_sorted(out@, x);
            assert(orig.take(k + 1).drop_last() =~= orig.take(k as int));
        }
        let ghost before = out@;
        out.insert(pos, x);
        assert(out@ =~= insert_desc(before, x));
        k = k + 1;
    }
    assert(orig.take(k as int) =~= orig);
    if out.len() > MAX_CANDIDATES {
        out.truncate(MAX_CANDIDATES);
    }
    IncidentResult {
        symptom: String::from_str(symptom),
        affected: String::from_str(affected),
        candidates: out,
    }
}


/// The candidates an analysis keeps are the best: each kept candidate scores
/// at least as high as every candidate ranked after the kept ones, and the
/// kept ones are in descending order of score.
pub proof fn analysis_keeps_the_best(s: Seq<IncidentCandidate>)
    ensures
        sorted_desc(top_ranked(s, MAX_CANDIDATES as nat)),
        top_ranked(s, MAX_CANDIDATES as nat).len() == if s.len() <= MAX_CANDIDATES {
            s.len()
        } else {
            MAX_CANDIDATES as nat
        },
        forall|i: int, j: int|
            0 <= i < top_ranked(s, MAX_CANDIDATES as nat).len() <= j < ranked(s).len()
                ==> #[trigger] top_ranked(s, MAX_CANDIDATES as nat)[i].score >= #[trigger] ranked(
                s,
            )[j].score,
{
    ranking_is_sorted(s);
    let t = top_ranked(s, MAX_CANDIDATES as nat);
    assert forall|i: int, j: int| 0 <= i < t.len() <= j < ranked(s).len() implies #[trigger] t[i].score
        >= #[trigger] ranked(s)[j].score by {
        assert(t[i] == ranked(s)[i]);
    }
    assert forall|i: int, j: int| 0 <= i < j < t.len() implies #[trigger] t[i].score
        >= #[trigger] t[j].score by {
        assert(t[i] == ranked(s)[i] && t[j] == ranked(s)[j]);
    }
}

/// A status that reports a failure: its lowercase form mentions `failed`,
/// `dead`, `unhealthy` or `exited`.
pub open spec fn status_failed(status: Seq<char>) -> bool {
    let l = lowercase(status);
    ||| contains_sub(l, "failed"@)
    ||| contains_sub(l, "dead"@)
    ||| contains_sub(l, "unhealthy"@)
    ||| contains_sub(l, "exited"@)
}

/// An id that names a critical infrastructure service: its lowercase form
/// mentions one of the well-known service names.
pub open spec fn is_critical(id: Seq<char>) -> bool {
    let l = lowercase(id);
    ||| contains_sub(l, "postgresql"@)
    ||| contains_sub(l, "postgres"@)
    ||| contains_sub(l, "postmaster"@)
    ||| contains_sub(l, "nginx"@)
    ||| contains_sub(l, "docker"@)
    ||| contains_sub(l, "containerd"@)
    ||| contains_sub(l, "redis"@)
    ||| contains_sub(l, "mysql"@)
    ||| contains_sub(l, "sshd"@)
    ||| contains_sub(l, "haproxy"@)
}

/// The bonus, in hundredths, for being `depth` steps upstream.
pub open spec fn proximity_bonus(depth: i64) -> u32 {
    if depth == 1 {
        20
    } else if depth == 2 {
        12
    } else if depth == 3 {
        8
    } else {
        3
    }
}

/// The additive terms of a candidate's score, in hundredths and in the order
/// they apply: the base for being upstream, the proximity bonus, then the
/// bonuses for a failed status, for more than two downstream dependents and
/// for a critical service.
pub open spec fn score_terms(depth: i64, failed: bool, downstream: i64, critical: bool) -> Seq<u32> {
    seq![30u32, proximity_bonus(depth)] + (if failed {
        seq![15u32]
    } else {
        Seq::empty()
    }) + (if downstream > 2 {
        seq![10u32]
    } else {
        Seq::empty()
    }) + (if critical {
        seq![10u32]
    } else {
        Seq::empty()
    })
}

/// The sum of the terms.
pub open spec fn term_sum(t: Seq<u32>) -> nat
    decreases t.len(),
{
    if t.len() == 0 {
        0
    } else {
        term_sum(t.drop_last()) + t.last() as nat
    }
}

/// The score before the confidence of the edge applies lies between 0.33 (a
/// distant candidate with nothing against it) and 0.85 (a direct neighbour
/// that failed, has many dependents and is critical).
pub proof fn score_terms_bounds(depth: i64, failed: bool, downstream: i64, critical: bool)
    ensures
        33 <= term_sum(score_terms(depth, failed, downstream, critical)) <= 85,
{
    let t = score_terms(depth, failed, downstream, critical);
    reveal_with_fuel(term_sum, 6);
    let f: Seq<u32> = if failed { seq![15u32] } else { Seq::empty() };
    let m: Seq<u32> = if downstream > 2 { seq![10u32] } else { Seq::empty() };
    let c: Seq<u32> = if critical { seq![10u32] } else { Seq::empty() };
    assert(t =~= seq![30u32, proximity_bonus(depth)] + f + m + c);
    lemma_term_sum_concat(seq![30u32, proximity_bonus(depth)], f);
    lemma_term_sum_concat(seq![30u32, proximity_bonus(depth)] + f, m);
    lemma_term_sum_concat(seq![30u32, proximity_bonus(depth)] + f + m, c);
}

proof fn lemma_term_sum_concat(a: Seq<u32>, b: Seq<u32>)
    ensures
        term_sum(a + b) == term_sum(a) + term_sum(b),
    decreases b.len(),
{
    if b.len() > 0 {
        lemma_term_sum_concat(a, b.drop_last());
        assert((a + b).drop_last() =~= a + b.drop_last());
    } else {
        assert(a + b =~= a);
    }
}

/// The reasons given for a candidate, in order.
pub open spec fn reason_parts(
    affected: Seq<char>,
    status: Seq<char>,
    depth: i64,
    failed: bool,
    downstream: i64,
    critical: bool,
) -> Seq<Seq<char>> {
    seq!["upstream node of "@ + affected] + (if depth <= 2 {
        seq!["direct dependency (depth="@ + signed_decimal(depth as int) + ")"@]
    } else {
        Seq::empty()
    }) + (if failed {
        seq!["status is '"@ + status + "'"@]
    } else {
        Seq::empty()
    }) + (if downstream > 2 {
        seq![signed_decimal(downstream as int) + " downstream dependents"@]
    } else {
        Seq::empty()
    }) + (if critical {
        seq!["critical infrastructure service"@]
    } else {
        Seq::empty()
    })
}

/// The parts joined with `sep` between consecutive parts.
pub open spec fn join(parts: Seq<Seq<char>>, sep: Seq<char>) -> Seq<char>
    decreases parts.len(),
{
    if parts.len() == 0 {
        Seq::empty()
    } else if parts.len() == 1 {
        parts[0]
    } else {
        join(parts.drop_last(), sep) + sep + parts.last()
    }
}

/// The parts joined with `sep` between consecutive parts.
pub fn join_strings(parts: &Vec<String>, sep: &str) -> (r: String)
    ensures
        r@ == join(views(parts@), sep@),
{
    let mut r = String::new();
    let mut i: usize = 0;
    assert(views(parts@).take(0) =~= Seq::<Seq<char>>::empty());
    while i < parts.len()
        invariant
            i <= parts@.len(),
            r@ == join(views(parts@).take(i as int), sep@),
        decreases parts@.len() - i,
    {
        if i > 0 {
            r.append(sep);
        }
        r.append(parts[i].as_str());
        assert(views(parts@).take(i + 1).drop_last() =~= views(parts@).take(i as int));
        i = i + 1;
    }
    assert(views(parts@).take(i as int) =~= views(parts@));
    r
}

/// The status reports a failure (see `status_failed`).
pub fn is_failed_status(status: &str) -> (b: bool)
    ensures
        b == status_failed(status@),
{
    let l = to_lowercase(status);
    let l = l.as_str();
    contains_str(l, "failed") || contains_str(l, "dead") || contains_str(l, "unhealthy")
        || contains_str(l, "exited")
}

/// The id names a critical service (see `is_critical`).
pub fn is_critical_service(id: &str) -> (b: bool)
    ensures
        b == is_critical(id@),
{
    let l = to_lowercase(id);
    let l = l.as_str();
    contains_str(l, "postgresql") || contains_str(l, "postgres") || contains_str(l, "postmaster")
        || contains_str(l, "nginx") || contains_str(l, "docker") || contains_str(l, "containerd")
        || contains_str(l, "redis") || contains_str(l, "mysql") || contains_str(l, "sshd")
        || contains_str(l, "haproxy")
}

/// What the heuristic finds about one upstream candidate before the
/// confidence of its edge is applied.
#[derive(Debug, Clone)]
pub struct CandidateAssessment {
    /// The candidate's `Type:id`.
    pub node: String,
    /// The additive terms of the score, in hundredths, in the order they apply.
    pub terms: Vec<u32>,
    /// The reasons, joined by `"; "`.
    pub reason: String,
}

/// Scores the upstream candidate `row` (type, id, status, depth) of the node
/// `affected`, which has `downstream` dependents of its own.
pub fn assess_candidate(affected: &str, row: &ImpactRow, downstream: i64) -> (a:
    CandidateAssessment)
    ensures
        a.node@ == ref_text(row.0@, row.1@),
        a.terms@ == score_terms(row.3, status_failed(row.2@), downstream, is_critical(row.1@)),
        a.reason@ == join(
            reason_parts(
                affected@,
                row.2@,
                row.3,
                status_failed(row.2@),
                downstream,
                is_critical(row.1@),
            ),
            "; "@,
        ),
{
    let depth = row.3;
    let failed = is_failed_status(row.2.as_str());
    let critical = is_critical_service(row.1.as_str());
    let node = format_node_ref(row.0.as_str(), row.1.as_str());

    let mut terms: Vec<u32> = Vec::new();
    terms.push(30);
    let proximity: u32 = if depth == 1 {
        20
    } else if depth == 2 {
        12
    } else if depth == 3 {
        8
    } else {
        3
    };
    terms.push(proximity);
    let mut reasons: Vec<String> = Vec::new();
    let mut first = String::from_str("upstream node of ");
    first.append(affected);
    reasons.push(first);
    if depth <= 2 {
        let mut r = String::from_str("direct dependency (depth=");
        push_signed_decimal(&mut r, depth);
        r.append(")");
        reasons.push(r);
    }
    if failed {
        terms.push(15);
        let mut r = String::from_str("status is '");
        r.append(row.2.as_str());
        r.append("'");
        reasons.push(r);
    }
    if downstream > 2 {
        terms.push(10);
        let mut r = String::new();
        push_signed_decimal(&mut r, downstream);
        r.append(" downstream dependents");
        reasons.push(r);
    }
    if critical {
        terms.push(10);
        reasons.push(String::from_str("critical infrastructure service"));
    }
    assert(terms@ =~= score_terms(depth, failed, downstream, critical));
    assert(views(reasons@) =~= reason_parts(affected@, row.2@, depth, failed, downstream, critical));
    let reason = join_strings(&reasons, "; ");
    CandidateAssessment { node, terms, reason }
}


/// Row `i` is the first row that names its `Type:id`.
pub open spec fn first_of_key(rows: Seq<ImpactRow>, i: int) -> bool {
    forall|j: int| 0 <= j < i ==> #[trigger] row_key(rows[j]) != row_key(rows[i])
}

/// The rows among the first `n` that are the first to name their
/// `Type:id`, in order.
pub open spec fn distinct_rows_upto(rows: Seq<ImpactRow>, n: int) -> Seq<ImpactRow>
    decreases n,
{
    if n <= 0 {
        Seq::empty()
    } else {
        let p = distinct_rows_upto(rows, n - 1);
        if first_of_key(rows, n - 1) {
            p.push(rows[n - 1])
        } else {
            p
        }
    }
}

proof fn lemma_distinct_upto_from(rows: Seq<ImpactRow>, n: int)
    requires
        0 <= n <= rows.len(),
    ensures
        forall|k: int|
            0 <= k < distinct_rows_upto(rows, n).len() ==> exists|j: int|
                0 <= j < n && #[trigger] distinct_rows_upto(rows, n)[k] == rows[j],
    decreases n,
{
    if n > 0 {
        lemma_distinct_upto_from(rows, n - 1);
        let p = distinct_rows_upto(rows, n - 1);
        assert forall|k: int| 0 <= k < distinct_rows_upto(rows, n).len() implies exists|j: int|
            0 <= j < n && #[trigger] distinct_rows_upto(rows, n)[k] == rows[j] by {
            if k < p.len() {
                let j = choose|j: int| 0 <= j < n - 1 && p[k] == rows[j];
                assert(distinct_rows_upto(rows, n)[k] == rows[j]);
            } else {
                assert(distinct_rows_upto(rows, n)[k] == rows[n - 1]);
            }
        }
    }
}

/// The candidates kept for assessment name pairwise different `Type:id`s:
/// no node is scored twice.
pub proof fn candidates_are_distinct(rows: Seq<ImpactRow>, n: int)
    requires
        0 <= n <= rows.len(),
    ensures
        forall|i: int, j: int|
            0 <= i < j < distinct_rows_upto(rows, n).len() ==> row_key(
                #[trigger] distinct_rows_upto(rows, n)[i],
            ) != row_key(#[trigger] distinct_rows_upto(rows, n)[j]),
    decreases n,
{
    if n > 0 {
        candidates_are_distinct(rows, n - 1);
        lemma_distinct_upto_from(rows, n - 1);
        let p = distinct_rows_upto(rows, n - 1);
        let d = distinct_rows_upto(rows, n);
        if first_of_key(rows, n - 1) {
            assert(d == p.push(rows[n - 1]));
            assert forall|i: int, j: int| 0 <= i < j < d.len() implies row_key(#[trigger] d[i])
                != row_key(#[trigger] d[j]) by {
                assert(d[i] == p[i]);
                if j < p.len() {
                    assert(d[j] == p[j]);
                } else {
                    let m = choose|m: int| 0 <= m < n - 1 && p[i] == rows[m];
                    assert(row_key(rows[m]) != row_key(rows[n - 1]));
                }
            }
        } else {
            assert(d == p);
        }
    }
}

/// The positions of the upstream rows that are the first to name their
/// `Type:id`, in order: each candidate is assessed once.
pub fn distinct_candidates(rows: &[ImpactRow]) -> (out: Vec<usize>)
    ensures
        out@.len() == distinct_rows_upto(rows@, rows@.len() as int).len(),
        forall|k: int|
            0 <= k < out@.len() ==> #[trigger] out@[k] < rows@.len() && rows@[out@[k] as int]
                == distinct_rows_upto(rows@, rows@.len() as int)[k],
{
    let mut out: Vec<usize> = Vec::new();
    let mut i: usize = 0;
    while i < rows.len()
        invariant
            i <= rows@.len(),
            out@.len() == distinct_rows_upto(rows@, i as int).len(),
            forall|k: int|
                0 <= k < out@.len() ==> #[trigger] out@[k] < rows@.len() && rows@[out@[k] as int]
                    == distinct_rows_upto(rows@, i as int)[k],
        decreases rows@.len() - i,
    {
        let key = format_node_ref(rows[i].0.as_str(), rows[i].1.as_str());
        let mut j: usize = 0;
        let mut first = true;
        while j < i
            invariant
                i < rows@.len(),
                j <= i,
                key@ == row_key(rows@[i as int]),
                first == forall|m: int| 0 <= m < j ==> #[trigger] row_key(rows@[m]) != row_key(
                    rows@[i as int],
                ),
            decreases i - j,
        {
            let other = format_node_ref(rows[j].0.as_str(), rows[j].1.as_str());
            assert(other@ == row_key(rows@[j as int]));
            if other == key {
                first = false;
            }
            j = j + 1;
        }
        if first {
            out.push(i);
        }
        i = i + 1;
    }
    out
}

/// The path shown for a candidate: the path found from the candidate to the
/// affected node read backwards, or the affected node then the candidate
/// when no path was found.
pub fn display_path(
    affected_type: &str,
    affected_id: &str,
    cand_type: &str,
    cand_id: &str,
    path: Vec<String>,
) -> (r: Vec<String>)
    ensures
        views(r@) == if path@.len() == 0 {
            seq![ref_text(affected_type@, affected_id@), ref_text(cand_type@, cand_id@)]
        } else {
            views(path@).reverse()
        },
{
    if path.len() == 0 {
        let mut r: Vec<String> = Vec::new();
        r.push(format_node_ref(affected_type, affected_id));
        r.push(format_node_ref(cand_type, cand_id));
        assert(views(r@) =~= seq![ref_text(affected_type@, affected_id@), ref_text(cand_type@, cand_id@)]);
        r
    } else {
        let ghost orig = path@;
        let mut rest = path;
        let mut r: Vec<String> = Vec::new();
        while rest.len() > 0
            invariant
                rest@ =~= orig.take(rest@.len() as int),
                rest@.len() <= orig.len(),
                views(r@) =~= views(orig.skip(rest@.len() as int)).reverse(),
            decreases rest@.len(),
        {
            let ghost n = rest@.len();
            let x = rest.pop().unwrap();
            r.push(x);
            assert(views(orig.skip(n - 1)) =~= seq![x@] + views(orig.skip(n as int)));
            assert(views(orig.skip(n - 1)).reverse() =~= views(orig.skip(n as int)).reverse().push(
                x@,
            ));
        }
        assert(orig.skip(0) =~= orig);
        r
    }
}

/// The names of the critical infrastructure services.
pub open spec fn critical_names() -> Seq<Seq<char>> {
    seq![
        "postgresql"@,
        "postgres"@,
        "postmaster"@,
        "nginx"@,
        "docker"@,
        "containerd"@,
        "redis"@,
        "mysql"@,
        "sshd"@,
        "haproxy"@,
    ]
}

/// The critical services: an id is critical exactly when its lowercase form
/// mentions one of postgresql, postgres, postmaster, nginx, docker,
/// containerd, redis, mysql, sshd and haproxy.
pub proof fn critical_services_are_the_known_ones(id: Seq<char>)
    ensures
        is_critical(id) <==> exists|k: int|
            0 <= k < 10 && contains_sub(lowercase(id), #[trigger] critical_names()[k]),
{
    let names = critical_names();
    let l = lowercase(id);
    if is_critical(id) {
        if contains_sub(l, "postgresql"@) { assert(names[0] == "postgresql"@); }
        else if contains_sub(l, "postgres"@) { assert(names[1] == "postgres"@); }
        else if contains_sub(l, "postmaster"@) { assert(names[2] == "postmaster"@); }
        else if contains_sub(l, "nginx"@) { assert(names[3] == "nginx"@); }
        else if contains_sub(l, "docker"@) { assert(names[4] == "docker"@); }
        else if contains_sub(l, "containerd"@) { assert(names[5] == "containerd"@); }
        else if contains_sub(l, "redis"@) { assert(names[6] == "redis"@); }
        else if contains_sub(l, "mysql"@) { assert(names[7] == "mysql"@); }
        else if contains_sub(l, "sshd"@) { assert(names[8] == "sshd"@); }
        else { assert(names[9] == "haproxy"@); }
    }
    if exists|k: int| 0 <= k < 10 && contains_sub(l, #[trigger] names[k]) {
        let k = choose|k: int| 0 <= k < 10 && contains_sub(l, #[trigger] names[k]);
        if k == 0 {} else if k == 1 {} else if k == 2 {} else if k == 3 {} else if k == 4 {}
        else if k == 5 {} else if k == 6 {} else if k == 7 {} else if k == 8 {} else {}
    }
}

/// A critical candidate scores exactly ten hundredths more than the same
/// candidate would if it were not critical, and its reasons end with
/// `critical infrastructure service`.
pub proof fn critical_bonus(
    affected: Seq<char>,
    status: Seq<char>,
    depth: i64,
    failed: bool,
    downstream: i64,
)
    ensures
        term_sum(score_terms(depth, failed, downstream, true)) == term_sum(
            score_terms(depth, failed, downstream, false),
        ) + 10,
        reason_parts(affected, status, depth, failed, downstream, true) == reason_parts(
            affected,
            status,
            depth,
            failed,
            downstream,
            false,
        ).push("critical infrastructure service"@),
{
    let a = score_terms(depth, failed, downstream, false);
    assert(score_terms(depth, failed, downstream, true) =~= a + seq![10u32]);
    lemma_term_sum_concat(a, seq![10u32]);
    assert(term_sum(seq![10u32]) == 10) by {
        assert(seq![10u32].drop_last() =~= Seq::<u32>::empty());
        assert(term_sum(Seq::<u32>::empty()) == 0);
    }
    let r = reason_parts(affected, status, depth, failed, downstream, false);
    assert(reason_parts(affected, status, depth, failed, downstream, true) =~= r.push(
        "critical infrastructure service"@,
    ));
}

/// The words that mark a failed status.
pub open spec fn failure_words() -> Seq<Seq<char>> {
    seq!["failed"@, "dead"@, "unhealthy"@, "exited"@]
}

/// A status reports a failure exactly when its lowercase form mentions
/// failed, dead, unhealthy or exited.
pub proof fn failed_statuses_are_the_known_ones(status: Seq<char>)
    ensures
        status_failed(status) <==> exists|k: int|
            0 <= k < 4 && contains_sub(lowercase(status), #[trigger] failure_words()[k]),
{
    let names = failure_words();
    let l = lowercase(status);
    if status_failed(status) {
        if contains_sub(l, "failed"@) { assert(names[0] == "failed"@); }
        else if contains_sub(l, "dead"@) { assert(names[1] == "dead"@); }
        else if contains_sub(l, "unhealthy"@) { assert(names[2] == "unhealthy"@); }
        else { assert(names[3] == "exited"@); }
    }
    if exists|k: int| 0 <= k < 4 && contains_sub(l, #[trigger] names[k]) {
        let k = choose|k: int| 0 <= k < 4 && contains_sub(l, #[trigger] names[k]);
        if k == 0 {} else if k == 1 {} else if k == 2 {} else {}
    }
}

/// The score of a candidate before the confidence of its edge, in
/// hundredths: 30 for being upstream, plus 20, 12, 8 or 3 for being 1, 2, 3
/// or more steps away, plus 15 for a failed status, 10 for more than two
/// downstream dependents and 10 for a critical service.
pub proof fn score_is_the_weighted_sum(depth: i64, failed: bool, downstream: i64, critical: bool)
    ensures
        term_sum(score_terms(depth, failed, downstream, critical)) == 30 + (if depth == 1 {
            20int
        } else if depth == 2 {
            12int
        } else if depth == 3 {
            8int
        } else {
            3int
        }) + (if failed {
            15int
        } else {
            0int
        }) + (if downstream > 2 {
            10int
        } else {
            0int
        }) + (if critical {
            10int
        } else {
            0int
        }),
{
    let f: Seq<u32> = if failed { seq![15u32] } else { Seq::empty() };
    let m: Seq<u32> = if downstream > 2 { seq![10u32] } else { Seq::empty() };
    let c: Seq<u32> = if critical { seq![10u32] } else { Seq::empty() };
    let b = seq![30u32, proximity_bonus(depth)];
    let t = score_terms(depth, failed, downstream, critical);
    assert(t =~= b + f + m + c);
    lemma_term_sum_concat(b, f);
    lemma_term_sum_concat(b + f, m);
    lemma_term_sum_concat(b + f + m, c);
    assert(term_sum(Seq::<u32>::empty()) == 0);
    assert(seq![30u32].drop_last() =~= Seq::<u32>::empty());
    assert(b.drop_last() =~= seq![30u32]);
    assert(term_sum(seq![30u32]) == 30);
    assert(b.last() == proximity_bonus(depth));
    assert(term_sum(b) == 30 + proximity_bonus(depth));
    assert(seq![15u32].drop_last() =~= Seq::<u32>::empty());
    assert(seq![10u32].drop_last() =~= Seq::<u32>::empty());
    assert(term_sum(f) == if failed { 15int } else { 0int });
    assert(term_sum(m) == if downstream > 2 { 10int } else { 0int });
    assert(term_sum(c) == if critical { 10int } else { 0int });
}

} // verus!
