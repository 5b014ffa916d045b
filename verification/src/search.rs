//! The search ranker: scores catalog entries against a query with fuzzy
//! subsequence matching, weights the per-field scores, and orders results
//! by the best-matching field alone, so that the plain and the detailed
//! search paths rank identically.
use vstd::prelude::*;
use vstd::string::*;

use crate::models::{opt_view, script_views, Script, ScriptV};
use crate::text::{has_prefix, lower_of, str_views};

verus! {

/// What `SkimMatcherV2::fuzzy_match` returns for a choice and a pattern
/// under the default settings: a function of the two texts alone.
pub uninterp spec fn fuzzy_score(choice: Seq<char>, pattern: Seq<char>) -> Option<i64>;

/// The character positions `SkimMatcherV2::fuzzy_indices` reports for a
/// match, under the default settings: likewise a function of the two
/// texts alone.
pub uninterp spec fn fuzzy_positions(choice: Seq<char>, pattern: Seq<char>) -> Seq<usize>;

/// Relies on fuzzy_matcher's `SkimMatcherV2::fuzzy_indices` under the
/// default settings: whether it matches, the score and the matched
/// positions depend on the two texts alone; its score component is the
/// fuzzy-match score; an empty pattern matches everything with score
/// zero; the positions are strictly increasing character indices into
/// the choice (its traceback pushes them in strictly falling order,
/// each below the choice's character count, and then reverses).
#[verifier::external_body]
fn fuzzy_indices_default(choice: &str, pattern: &str) -> (r: Option<(i64, Vec<usize>)>)
    ensures
        r is Some <==> fuzzy_score(choice@, pattern@) is Some,
        r is Some ==> Some((r->0).0) == fuzzy_score(choice@, pattern@),
        r is Some ==> (r->0).1@ == fuzzy_positions(choice@, pattern@),
        r is Some ==> forall|j: int|
            0 <= j < (r->0).1@.len() ==> (#[trigger] (r->0).1@[j]) < choice@.len(),
        r is Some ==> forall|j: int|
            0 <= j && j + 1 < (r->0).1@.len() ==> (#[trigger] (r->0).1@[j]) < (r->0).1@[j + 1],
        pattern@.len() == 0 ==> r is Some && (r->0).0 == 0i64,
{
    fuzzy_matcher::FuzzyMatcher::fuzzy_indices(
        &fuzzy_matcher::skim::SkimMatcherV2::default(),
        choice,
        pattern,
    )
}

/// The highlight ranges for one text against a query: one
/// single-character range per matched position, in position order;
/// empty when the query does not match.
#[verifier::opaque]
pub open spec fn spec_highlight(text: Seq<char>, q: Seq<char>) -> Seq<(usize, usize)> {
    if fuzzy_score(text, q) is Some {
        Seq::new(
            fuzzy_positions(text, q).len(),
            |j: int| (fuzzy_positions(text, q)[j], (fuzzy_positions(text, q)[j] + 1) as usize),
        )
    } else {
        Seq::empty()
    }
}

/// The greater of two mathematical integers.
pub open spec fn max_i(a: int, b: int) -> int {
    if a >= b {
        a
    } else {
        b
    }
}

/// A score multiplied by its field weight, saturated to the i64 range.
pub open spec fn sat_mul(sc: i64, w: i64) -> int {
    if sc * w > i64::MAX {
        i64::MAX as int
    } else if sc * w < i64::MIN {
        i64::MIN as int
    } else {
        sc * w
    }
}

/// The weighted contribution of one fuzzy result; a field that does not
/// match contributes nothing.
pub open spec fn opt_weighted(sc: Option<i64>, w: i64) -> int {
    match sc {
        Some(s) => sat_mul(s, w),
        None => 0,
    }
}

/// The weighted contribution of an optional field.
pub open spec fn field_weighted(f: Option<Seq<char>>, q: Seq<char>, w: i64) -> int {
    match f {
        Some(t) => opt_weighted(fuzzy_score(t, q), w),
        None => 0,
    }
}

/// The best weighted contribution among the tags.
pub open spec fn tags_score(tags: Seq<Seq<char>>, q: Seq<char>) -> int
    decreases tags.len(),
{
    if tags.len() == 0 {
        0
    } else {
        max_i(tags_score(tags.drop_last(), q), opt_weighted(fuzzy_score(tags.last(), q), 2))
    }
}

/// An entry's rank score: the maximum weighted per-field score — name and
/// display name treble, short description and tags double, long
/// description, category and author single — and never negative.
pub open spec fn spec_script_score(s: ScriptV, q: Seq<char>) -> int {
    max_i(
        max_i(
            max_i(
                max_i(
                    max_i(
                        max_i(
                            max_i(0, opt_weighted(fuzzy_score(s.name, q), 3)),
                            field_weighted(s.menu_name, q, 3),
                        ),
                        field_weighted(s.description, q, 2),
                    ),
                    field_weighted(s.detailed_description, q, 1),
                ),
                tags_score(s.tags, q),
            ),
            opt_weighted(fuzzy_score(s.category, q), 1),
        ),
        field_weighted(s.author, q, 1),
    )
}

/// Multiplies a score by a small positive weight, saturating instead of
/// overflowing.
fn weighted_exec(sc: i64, w: i64) -> (r: i64)
    requires
        1 <= w <= 3,
    ensures
        r as int == sat_mul(sc, w),
{
    match sc.checked_mul(w) {
        Some(v) => v,
        None => {
            proof {
                if sc > 0 {
                    assert(sc * w >= sc) by (nonlinear_arith)
                        requires
                            sc > 0,
                            w >= 1,
                    ;
                } else {
                    assert(sc * w <= 0) by (nonlinear_arith)
                        requires
                            sc <= 0,
                            w >= 1,
                    ;
                }
            }
            if sc > 0 {
                i64::MAX
            } else {
                i64::MIN
            }
        },
    }
}

/// The weighted fuzzy contribution of one text field.
fn field_score_exec(text: &str, query: &str, w: i64) -> (r: i64)
    requires
        1 <= w <= 3,
    ensures
        r as int == opt_weighted(fuzzy_score(text@, query@), w),
{
    match fuzzy_indices_default(text, query) {
        Some(p) => weighted_exec(p.0, w),
        None => 0,
    }
}


proof fn lemma_ranges_form(r: Seq<(usize, usize)>, idx: Seq<usize>, n: usize)
    requires
        r.len() == idx.len(),
        forall|j: int| #![all_triggers]
            0 <= j < r.len() ==> r[j].0 == idx[j] && r[j].1 == idx[j] + 1,
        forall|j: int| #![all_triggers] 0 <= j < idx.len() ==> idx[j] < n,
        forall|j: int| 0 <= j && j + 1 < idx.len() ==> (#[trigger] idx[j]) < idx[j + 1],
    ensures
        forall|j: int| 0 <= j < r.len() ==> (#[trigger] r[j]).1 == r[j].0 + 1 && r[j].0 < n,
        forall|j: int| 0 <= j && j + 1 < r.len() ==> (#[trigger] r[j]).0 < r[j + 1].0,
{
    assert forall|j: int| 0 <= j < r.len() implies (#[trigger] r[j]).1 == r[j].0 + 1 && r[j].0
        < n by {
        assert(r[j].0 == idx[j]);
        assert(idx[j] < n);
    }
    assert forall|j: int| 0 <= j && j + 1 < r.len() implies (#[trigger] r[j]).0 < r[j + 1].0 by {
        assert(r[j].0 == idx[j]);
        assert(r[j + 1].0 == idx[j + 1]);
        assert(idx[j] < idx[j + 1]);
    }
}

/// Turns strictly increasing match positions into single-character
/// ranges.
fn ranges_of(idx: &Vec<usize>, n: usize) -> (r: Vec<(usize, usize)>)
    requires
        forall|j: int| 0 <= j < idx@.len() ==> (#[trigger] idx@[j]) < n,
        forall|j: int| 0 <= j && j + 1 < idx@.len() ==> (#[trigger] idx@[j]) < idx@[j + 1],
    ensures
        r@.len() == idx@.len(),
        forall|j: int|
            0 <= j < r@.len() ==> (#[trigger] r@[j]).0 == idx@[j] && r@[j].1 == idx@[j] + 1,
        forall|j: int| 0 <= j < r@.len() ==> (#[trigger] r@[j]).1 == r@[j].0 + 1 && r@[j].0 < n,
        forall|j: int| 0 <= j && j + 1 < r@.len() ==> (#[trigger] r@[j]).0 < r@[j + 1].0,
{
    let mut ranges: Vec<(usize, usize)> = Vec::new();
    let mut i: usize = 0;
    while i < idx.len()
        invariant
            i <= idx.len(),
            forall|j: int| 0 <= j < idx@.len() ==> (#[trigger] idx@[j]) < n,
            ranges@.len() == i,
            forall|j: int|
                0 <= j < i ==> (#[trigger] ranges@[j]).0 == idx@[j] && ranges@[j].1 == idx@[j]
                    + 1,
        decreases idx.len() - i,
    {
        let a = idx[i];
        ranges.push((a, a + 1));
        i = i + 1;
    }
    proof {
        lemma_ranges_form(ranges@, idx@, n);
    }
    ranges
}

/// The search ranker. Scoring depends only on the entry and the query,
/// so the ranker itself carries no state.
pub struct SearchEngine {}

impl SearchEngine {
    /// A ranker with the default matching settings.
    pub fn new() -> SearchEngine {
        SearchEngine {}
    }

    /// An entry's rank score against a query, or nothing when no field
    /// matches with a positive score.
    fn calculate_script_score(&self, script: &Script, query: &str) -> (r: Option<i64>)
        ensures
            r is Some <==> spec_script_score(script@, query@) > 0,
            (match r {
                Some(v) => v as int == spec_script_score(script@, query@),
                None => spec_script_score(script@, query@) == 0,
            }),
    {
        let mut acc: i64 = 0;
        let s1 = field_score_exec(script.name.as_str(), query, 3);
        if s1 > acc {
            acc = s1;
        }
        let s2 = match &script.menu_name {
            Some(t) => field_score_exec(t.as_str(), query, 3),
            None => 0,
        };
        if s2 > acc {
            acc = s2;
        }
        let s3 = match &script.description {
            Some(t) => field_score_exec(t.as_str(), query, 2),
            None => 0,
        };
        if s3 > acc {
            acc = s3;
        }
        let s4 = match &script.detailed_description {
            Some(t) => field_score_exec(t.as_str(), query, 1),
            None => 0,
        };
        if s4 > acc {
            acc = s4;
        }
        let ghost acc4 = acc as int;
        let mut i: usize = 0;
        proof {
            assert(script@.tags.subrange(0, 0) =~= Seq::<Seq<char>>::empty());
        }
        while i < script.tags.len()
            invariant
                i <= script.tags.len(),
                script@.tags == str_views(script.tags@),
                acc as int == max_i(acc4, tags_score(script@.tags.subrange(0, i as int), query@)),
            decreases script.tags.len() - i,
        {
            proof {
                let tv = script@.tags;
                assert(tv[i as int] == script.tags@[i as int]@);
                assert(tv.subrange(0, i + 1).drop_last() =~= tv.subrange(0, i as int));
                assert(tv.subrange(0, i + 1).last() == tv[i as int]);
            }
            let st = field_score_exec(script.tags[i].as_str(), query, 2);
            if st > acc {
                acc = st;
            }
            i = i + 1;
        }
        proof {
            assert(script@.tags.subrange(0, script@.tags.len() as int) =~= script@.tags);
        }
        let s5 = field_score_exec(script.category.as_str(), query, 1);
        if s5 > acc {
            acc = s5;
        }
        let s6 = match &script.author {
            Some(t) => field_score_exec(t.as_str(), query, 1),
            None => 0,
        };
        if s6 > acc {
            acc = s6;
        }
        if acc > 0 {
            Some(acc)
        } else {
            None
        }
    }
}

/// The ranked order for a query: higher score first, ties keeping their
/// previous relative order.
pub open spec fn rank_le(q: Seq<char>) -> spec_fn(ScriptV, ScriptV) -> bool {
    |a: ScriptV, b: ScriptV| spec_script_score(a, q) >= spec_script_score(b, q)
}

/// The ranked order is a total preorder.
pub proof fn lemma_rank_le_properties(q: Seq<char>)
    ensures
        vstd::relations::transitive(rank_le(q)),
        vstd::relations::strongly_connected(rank_le(q)),
{
}

/// The entries that score positively, in their incoming order.
pub open spec fn filter_scored(s: Seq<ScriptV>, q: Seq<char>) -> Seq<ScriptV>
    decreases s.len(),
{
    if s.len() == 0 {
        Seq::empty()
    } else {
        let prev = filter_scored(s.drop_last(), q);
        if spec_script_score(s.last(), q) > 0 {
            prev + seq![s.last()]
        } else {
            prev
        }
    }
}

/// What ranked search returns: the positively scoring entries, best
/// first, ties in their incoming order.
pub open spec fn spec_rank(s: Seq<ScriptV>, q: Seq<char>) -> Seq<ScriptV> {
    crate::order::spec_sort(filter_scored(s, q), rank_le(q))
}

impl SearchEngine {
    /// Compares two entries in the ranked order for a query.
    fn rank_le_exec(&self, a: &Script, b: &Script, query: &str) -> (r: bool)
        ensures
            r == rank_le(query@)(a@, b@),
    {
        let sa = match self.calculate_script_score(a, query) {
            Some(v) => v,
            None => 0,
        };
        let sb = match self.calculate_script_score(b, query) {
            Some(v) => v,
            None => 0,
        };
        sa >= sb
    }

    /// Inserts one entry into a ranked run, after every entry that ranks
    /// at or above it.
    fn insert_ranked(&self, out: &mut Vec<Script>, x: Script, query: &str)
        ensures
            script_views(final(out)@) == crate::order::spec_insert(
                script_views(old(out)@),
                x@,
                rank_le(query@),
            ),
    {
        let ghost views0 = script_views(out@);
        let mut p: usize = 0;
        while p < out.len() && self.rank_le_exec(&out[p], &x, query)
            invariant
                p <= out.len(),
                views0 == script_views(out@),
                forall|k: int| 0 <= k < p ==> rank_le(query@)(#[trigger] views0[k], x@),
            decreases out.len() - p,
        {
            proof {
                assert(views0[p as int] == out@[p as int]@);
            }
            p = p + 1;
        }
        proof {
            if p < out.len() {
                assert(views0[p as int] == out@[p as int]@);
            }
        }
        out.insert(p, x);
        proof {
            crate::order::lemma_insert_split(views0, x@, rank_le(query@), p as int);
            assert(script_views(out@) =~= views0.subrange(0, p as int) + seq![x@]
                + views0.subrange(p as int, views0.len() as int));
        }
    }

    /// Ranks the candidates against the query: entries with no positively
    /// scoring field are excluded, the rest are ordered by their best
    /// weighted field score, descending, ties keeping the incoming order.
    pub fn fuzzy_search(&self, scripts: &Vec<Script>, query: &str) -> (r: Vec<Script>)
        ensures
            script_views(r@) == spec_rank(script_views(scripts@), query@),
            vstd::relations::sorted_by(script_views(r@), rank_le(query@)),
            script_views(r@).to_multiset() == filter_scored(
                script_views(scripts@),
                query@,
            ).to_multiset(),
    {
        proof {
            lemma_rank_le_properties(query@);
            crate::order::lemma_sort_ensures(
                filter_scored(script_views(scripts@), query@),
                rank_le(query@),
            );
        }
        let mut matched: Vec<Script> = Vec::new();
        let mut i: usize = 0;
        proof {
            assert(script_views(matched@) =~= Seq::<ScriptV>::empty());
            assert(script_views(scripts@).subrange(0, 0) =~= Seq::<ScriptV>::empty());
        }
        while i < scripts.len()
            invariant
                i <= scripts.len(),
                script_views(matched@) == filter_scored(
                    script_views(scripts@).subrange(0, i as int),
                    query@,
                ),
            decreases scripts.len() - i,
        {
            let ghost prev = script_views(matched@);
            let ghost sv = script_views(scripts@);
            proof {
                assert(sv[i as int] == scripts@[i as int]@);
                assert(sv.subrange(0, i + 1).drop_last() =~= sv.subrange(0, i as int));
                assert(sv.subrange(0, i + 1).last() == sv[i as int]);
            }
            match self.calculate_script_score(&scripts[i], query) {
                Some(_) => {
                    let c = scripts[i].clone();
                    matched.push(c);
                    proof {
                        assert(script_views(matched@) =~= prev + seq![sv[i as int]]);
                    }
                },
                None => {},
            }
            i = i + 1;
        }
        proof {
            let sv = script_views(scripts@);
            assert(sv.subrange(0, sv.len() as int) =~= sv);
        }
        let ghost pre_sort = script_views(matched@);
        let mut sorted: Vec<Script> = Vec::new();
        proof {
            assert(script_views(sorted@) =~= Seq::<ScriptV>::empty());
            assert(pre_sort.subrange(0, 0) =~= Seq::<ScriptV>::empty());
        }
        let ghost mut done: int = 0;
        while matched.len() > 0
            invariant
                0 <= done <= pre_sort.len(),
                script_views(matched@) =~= pre_sort.subrange(done, pre_sort.len() as int),
                matched@.len() == pre_sort.len() - done,
                script_views(sorted@) == crate::order::spec_sort(
                    pre_sort.subrange(0, done),
                    rank_le(query@),
                ),
            decreases matched.len(),
        {
            let ghost pre = script_views(matched@);
            let x = matched.remove(0);
            proof {
                assert(x@ == pre[0]);
                assert(x@ == pre_sort[done]);
                assert(script_views(matched@) =~= pre.drop_first());
                assert(pre.drop_first() =~= pre_sort.subrange(done + 1, pre_sort.len() as int));
            }
            self.insert_ranked(&mut sorted, x, query);
            proof {
                let sub1 = pre_sort.subrange(0, done + 1);
                assert(sub1.drop_last() =~= pre_sort.subrange(0, done));
                assert(sub1.last() == pre_sort[done]);
                done = done + 1;
            }
        }
        proof {
            assert(pre_sort.subrange(0, done) =~= pre_sort);
        }
        sorted
    }
}

/// The entries whose category, lowercased, holds the lowercased query.
pub open spec fn filter_by_category(s: Seq<ScriptV>, ql: Seq<char>) -> Seq<ScriptV>
    decreases s.len(),
{
    if s.len() == 0 {
        Seq::empty()
    } else {
        let prev = filter_by_category(s.drop_last(), ql);
        if crate::text::contains_sub(lower_of(s.last().category), ql) {
            prev + seq![s.last()]
        } else {
            prev
        }
    }
}

/// Whether any tag of the entry holds any of the query tags,
/// case-insensitively.
pub open spec fn any_tag_matches(tags: Seq<Seq<char>>, queries: Seq<Seq<char>>) -> bool {
    exists|i: int, j: int|
        0 <= i < queries.len() && 0 <= j < tags.len() && crate::text::contains_sub(
            lower_of(#[trigger] tags[j]),
            lower_of(#[trigger] queries[i]),
        )
}

/// The entries with a tag matching one of the query tags.
pub open spec fn filter_by_tags(s: Seq<ScriptV>, queries: Seq<Seq<char>>) -> Seq<ScriptV>
    decreases s.len(),
{
    if s.len() == 0 {
        Seq::empty()
    } else {
        let prev = filter_by_tags(s.drop_last(), queries);
        if any_tag_matches(s.last().tags, queries) {
            prev + seq![s.last()]
        } else {
            prev
        }
    }
}

impl SearchEngine {
    /// The candidates whose category, lowercased, holds the lowercased
    /// query, in their incoming order.
    pub fn search_by_category(&self, scripts: &Vec<Script>, category: &str) -> (r: Vec<Script>)
        ensures
            script_views(r@) == filter_by_category(script_views(scripts@), lower_of(category@)),
    {
        let ql_owned = crate::text::lowercase(category);
        let ql = ql_owned.as_str();
        let mut out: Vec<Script> = Vec::new();
        let mut i: usize = 0;
        proof {
            assert(script_views(out@) =~= Seq::<ScriptV>::empty());
            assert(script_views(scripts@).subrange(0, 0) =~= Seq::<ScriptV>::empty());
        }
        while i < scripts.len()
            invariant
                i <= scripts.len(),
                ql@ == lower_of(category@),
                script_views(out@) == filter_by_category(
                    script_views(scripts@).subrange(0, i as int),
                    lower_of(category@),
                ),
            decreases scripts.len() - i,
        {
            let ghost prev = script_views(out@);
            let ghost sv = script_views(scripts@);
            proof {
                assert(sv[i as int] == scripts@[i as int]@);
                assert(sv.subrange(0, i + 1).drop_last() =~= sv.subrange(0, i as int));
                assert(sv.subrange(0, i + 1).last() == sv[i as int]);
            }
            let low = crate::text::lowercase(scripts[i].category.as_str());
            if crate::text::contains_str(low.as_str(), ql) {
                let c = scripts[i].clone();
                out.push(c);
                proof {
                    assert(script_views(out@) =~= prev + seq![sv[i as int]]);
                }
            }
            i = i + 1;
        }
        proof {
            let sv = script_views(scripts@);
            assert(sv.subrange(0, sv.len() as int) =~= sv);
        }
        out
    }

    /// Whether any tag of the script holds any query tag,
    /// case-insensitively.
    fn script_tag_matches(&self, script: &Script, queries: &Vec<String>) -> (r: bool)
        ensures
            r == any_tag_matches(script@.tags, str_views(queries@)),
    {
        let mut i: usize = 0;
        while i < queries.len()
            invariant
                i <= queries.len(),
                script@.tags == str_views(script.tags@),
                forall|a: int, b: int|
                    0 <= a < i && 0 <= b < script@.tags.len() ==> !crate::text::contains_sub(
                        lower_of(#[trigger] script@.tags[b]),
                        lower_of(#[trigger] str_views(queries@)[a]),
                    ),
            decreases queries.len() - i,
        {
            let ghost qv = str_views(queries@);
            let ql = crate::text::lowercase(queries[i].as_str());
            let mut j: usize = 0;
            proof {
                assert(qv[i as int] == queries@[i as int]@);
            }
            while j < script.tags.len()
                invariant
                    j <= script.tags.len(),
                    i < queries.len(),
                    script@.tags == str_views(script.tags@),
                    qv == str_views(queries@),
                    ql@ == lower_of(qv[i as int]),
                    forall|b: int|
                        0 <= b < j ==> !crate::text::contains_sub(
                            lower_of(#[trigger] script@.tags[b]),
                            lower_of(qv[i as int]),
                        ),
                decreases script.tags.len() - j,
            {
                proof {
                    assert(script@.tags[j as int] == script.tags@[j as int]@);
                }
                let tl = crate::text::lowercase(script.tags[j].as_str());
                if crate::text::contains_str(tl.as_str(), ql.as_str()) {
                    return true;
                }
                j = j + 1;
            }
            i = i + 1;
        }
        false
    }

    /// Collects completion candidates: names, display names, tags and
    /// categories that start with the lowercased partial query, as a
    /// sorted duplicate-free list capped at ten entries; a query shorter
    /// than two characters yields nothing.
    pub fn get_suggestions(&self, scripts: &Vec<Script>, partial_query: &str) -> (r: Vec<String>)
        ensures
            str_views(r@) == suggestions_spec(script_views(scripts@), partial_query@),
    {
        let mut out: Vec<String> = Vec::new();
        if partial_query.unicode_len() < 2 {
            proof {
                assert(str_views(out@) =~= Seq::<Seq<char>>::empty());
            }
            return out;
        }
        let pl_owned = crate::text::lowercase(partial_query);
        let pl = pl_owned.as_str();
        let mut i: usize = 0;
        proof {
            assert(str_views(out@) =~= Seq::<Seq<char>>::empty());
            assert(script_views(scripts@).subrange(0, 0) =~= Seq::<ScriptV>::empty());
        }
        while i < scripts.len()
            invariant
                i <= scripts.len(),
                pl@ == lower_of(partial_query@),
                str_views(out@) == suggestions_fold(
                    script_views(scripts@).subrange(0, i as int),
                    lower_of(partial_query@),
                ),
            decreases scripts.len() - i,
        {
            let ghost sv = script_views(scripts@);
            proof {
                assert(sv[i as int] == scripts@[i as int]@);
                assert(sv.subrange(0, i + 1).drop_last() =~= sv.subrange(0, i as int));
                assert(sv.subrange(0, i + 1).last() == sv[i as int]);
            }
            let s = &scripts[i];
            let name_low = crate::text::lowercase(s.name.as_str());
            if crate::text::starts_with_str(name_low.as_str(), pl) {
                crate::store::insert_unique_string(&mut out, s.name.clone());
            }
            match &s.menu_name {
                Some(m) => {
                    let m_low = crate::text::lowercase(m.as_str());
                    if crate::text::starts_with_str(m_low.as_str(), pl) {
                        crate::store::insert_unique_string(&mut out, m.clone());
                    }
                },
                None => {},
            }
            let ghost acc_tags = str_views(out@);
            let mut j: usize = 0;
            proof {
                assert(sv[i as int].tags.subrange(0, 0) =~= Seq::<Seq<char>>::empty());
            }
            while j < s.tags.len()
                invariant
                    j <= s.tags.len(),
                    i < scripts.len(),
                    pl@ == lower_of(partial_query@),
                    sv == script_views(scripts@),
                    sv[i as int] == scripts@[i as int]@,
                    sv[i as int].tags == str_views(s.tags@),
                    str_views(out@) == add_tag_suggestions(
                        acc_tags,
                        sv[i as int].tags.subrange(0, j as int),
                        lower_of(partial_query@),
                    ),
                decreases s.tags.len() - j,
            {
                let ghost tv = sv[i as int].tags;
                proof {
                    assert(tv[j as int] == s.tags@[j as int]@);
                    assert(tv.subrange(0, j + 1).drop_last() =~= tv.subrange(0, j as int));
                    assert(tv.subrange(0, j + 1).last() == tv[j as int]);
                }
                let t_low = crate::text::lowercase(s.tags[j].as_str());
                if crate::text::starts_with_str(t_low.as_str(), pl) {
                    crate::store::insert_unique_string(&mut out, s.tags[j].clone());
                }
                j = j + 1;
            }
            proof {
                let tv = sv[i as int].tags;
                assert(tv.subrange(0, tv.len() as int) =~= tv);
            }
            let cat_low = crate::text::lowercase(s.category.as_str());
            if crate::text::starts_with_str(cat_low.as_str(), pl) {
                crate::store::insert_unique_string(&mut out, s.category.clone());
            }
            i = i + 1;
        }
        proof {
            let sv = script_views(scripts@);
            assert(sv.subrange(0, sv.len() as int) =~= sv);
        }
        let ghost full = str_views(out@);
        out.truncate(10);
        proof {
            if full.len() > 10 {
                assert(str_views(out@) =~= full.subrange(0, 10));
            } else {
                assert(str_views(out@) =~= full);
            }
        }
        out
    }

    /// The single-character ranges at which the query fuzzily matches
    /// the text: one `(i, i + 1)` pair per matched character position,
    /// strictly increasing and within the text; empty when there is no
    /// match.
    pub fn highlight_matches(&self, text: &str, query: &str) -> (r: Vec<(usize, usize)>)
        ensures
            r@ == spec_highlight(text@, query@),
            fuzzy_score(text@, query@) is None ==> r@.len() == 0,
            forall|j: int|
                0 <= j < r@.len() ==> (#[trigger] r@[j]).1 == r@[j].0 + 1 && r@[j].0 < text@.len(),
            forall|j: int| 0 <= j && j + 1 < r@.len() ==> (#[trigger] r@[j]).0 < r@[j + 1].0,
    {
        let n = text.unicode_len();
        match fuzzy_indices_default(text, query) {
            Some(p) => {
                let idx = p.1;
                proof {
                    assert(forall|j: int|
                        0 <= j < idx@.len() ==> (#[trigger] idx@[j]) < n);
                    assert(forall|j: int|
                        0 <= j && j + 1 < idx@.len() ==> (#[trigger] idx@[j]) < idx@[j + 1]);
                }
                let ranges = ranges_of(&idx, n);
                proof {
                    reveal(spec_highlight);
                    assert(ranges@ =~= spec_highlight(text@, query@));
                }
                ranges
            },
            None => {
                let ranges: Vec<(usize, usize)> = Vec::new();
                proof {
                    reveal(spec_highlight);
                    assert(ranges@ =~= spec_highlight(text@, query@));
                }
                ranges
            },
        }
    }

    /// The candidates with a tag matching one of the query tags, in
    /// their incoming order.
    pub fn search_by_tags(&self, scripts: &Vec<Script>, tags: &Vec<String>) -> (r: Vec<Script>)
        ensures
            script_views(r@) == filter_by_tags(script_views(scripts@), str_views(tags@)),
    {
        let mut out: Vec<Script> = Vec::new();
        let mut i: usize = 0;
        proof {
            assert(script_views(out@) =~= Seq::<ScriptV>::empty());
            assert(script_views(scripts@).subrange(0, 0) =~= Seq::<ScriptV>::empty());
        }
        while i < scripts.len()
            invariant
                i <= scripts.len(),
                script_views(out@) == filter_by_tags(
                    script_views(scripts@).subrange(0, i as int),
                    str_views(tags@),
                ),
            decreases scripts.len() - i,
        {
            let ghost prev = script_views(out@);
            let ghost sv = script_views(scripts@);
            proof {
                assert(sv[i as int] == scripts@[i as int]@);
                assert(sv.subrange(0, i + 1).drop_last() =~= sv.subrange(0, i as int));
                assert(sv.subrange(0, i + 1).last() == sv[i as int]);
            }
            if self.script_tag_matches(&scripts[i], tags) {
                let c = scripts[i].clone();
                out.push(c);
                proof {
                    assert(script_views(out@) =~= prev + seq![sv[i as int]]);
                }
            }
            i = i + 1;
        }
        proof {
            let sv = script_views(scripts@);
            assert(sv.subrange(0, sv.len() as int) =~= sv);
        }
        out
    }
}

/// A candidate joins the suggestion list when its lowercased text
/// starts with the lowercased partial query.
pub open spec fn add_suggestion(acc: Seq<Seq<char>>, text: Seq<char>, pl: Seq<char>) -> Seq<
    Seq<char>,
> {
    if has_prefix(lower_of(text), pl) {
        crate::store::insert_unique_sorted(acc, text)
    } else {
        acc
    }
}

/// An optional candidate field.
pub open spec fn add_opt_suggestion(
    acc: Seq<Seq<char>>,
    f: Option<Seq<char>>,
    pl: Seq<char>,
) -> Seq<Seq<char>> {
    match f {
        Some(t) => add_suggestion(acc, t, pl),
        None => acc,
    }
}

/// Every tag as a candidate, in tag order.
pub open spec fn add_tag_suggestions(
    acc: Seq<Seq<char>>,
    tags: Seq<Seq<char>>,
    pl: Seq<char>,
) -> Seq<Seq<char>>
    decreases tags.len(),
{
    if tags.len() == 0 {
        acc
    } else {
        add_suggestion(add_tag_suggestions(acc, tags.drop_last(), pl), tags.last(), pl)
    }
}

/// One entry's candidates: its name, display name, tags and category.
pub open spec fn script_suggestions(acc: Seq<Seq<char>>, s: ScriptV, pl: Seq<char>) -> Seq<
    Seq<char>,
> {
    add_suggestion(
        add_tag_suggestions(
            add_opt_suggestion(add_suggestion(acc, s.name, pl), s.menu_name, pl),
            s.tags,
            pl,
        ),
        s.category,
        pl,
    )
}

/// All candidates over the catalog, as a sorted duplicate-free list.
pub open spec fn suggestions_fold(ss: Seq<ScriptV>, pl: Seq<char>) -> Seq<Seq<char>>
    decreases ss.len(),
{
    if ss.len() == 0 {
        Seq::empty()
    } else {
        script_suggestions(suggestions_fold(ss.drop_last(), pl), ss.last(), pl)
    }
}

/// What `get_suggestions` returns: nothing for a query shorter than two
/// characters, else the sorted candidate list capped at ten.
pub open spec fn suggestions_spec(ss: Seq<ScriptV>, p: Seq<char>) -> Seq<Seq<char>> {
    if p.len() < 2 {
        Seq::empty()
    } else {
        let all = suggestions_fold(ss, lower_of(p));
        if all.len() > 10 {
            all.subrange(0, 10)
        } else {
            all
        }
    }
}

/// The character of one decimal digit.
pub open spec fn digit_char(d: int) -> char {
    if d == 0 {
        '0'
    } else if d == 1 {
        '1'
    } else if d == 2 {
        '2'
    } else if d == 3 {
        '3'
    } else if d == 4 {
        '4'
    } else if d == 5 {
        '5'
    } else if d == 6 {
        '6'
    } else if d == 7 {
        '7'
    } else if d == 8 {
        '8'
    } else {
        '9'
    }
}

/// The decimal digits of a non-negative number, most significant first.
pub open spec fn dec_digits(n: int) -> Seq<char>
    decreases n,
{
    if n < 10 {
        seq![digit_char(n)]
    } else {
        dec_digits(n / 10).push(digit_char(n % 10))
    }
}

/// Renders a number in decimal.
fn usize_to_string(n: usize) -> (r: String)
    ensures
        r@ == dec_digits(n as int),
    decreases n,
{
    let digits = "0123456789";
    proof {
        reveal_strlit("0123456789");
    }
    if n < 10 {
        let piece = digits.substring_char(n, n + 1);
        proof {
            assert(piece@ =~= seq![digit_char(n as int)]);
        }
        String::from_str(piece)
    } else {
        let mut s = usize_to_string(n / 10);
        let d = n % 10;
        let piece = digits.substring_char(d, d + 1);
        proof {
            assert(piece@ =~= seq![digit_char(d as int)]);
        }
        s.append(piece);
        proof {
            assert(s@ =~= dec_digits((n / 10) as int).push(digit_char((n % 10) as int)));
        }
        s
    }
}

/// The field key under which a matching tag is reported.
pub open spec fn tag_key(i: int) -> Seq<char> {
    "tag_"@ + dec_digits(i)
}

/// The field keys a detailed result reports, in field order: the name,
/// display name and short description when they match, then one key per
/// matching tag.
pub open spec fn tag_keys(tags: Seq<Seq<char>>, q: Seq<char>) -> Seq<Seq<char>>
    decreases tags.len(),
{
    if tags.len() == 0 {
        Seq::empty()
    } else {
        let prev = tag_keys(tags.drop_last(), q);
        if fuzzy_score(tags.last(), q) is Some {
            prev + seq![tag_key(tags.len() - 1)]
        } else {
            prev
        }
    }
}

/// The matched-field keys of one entry for a query.
pub open spec fn spec_matched_fields(s: ScriptV, q: Seq<char>) -> Seq<Seq<char>> {
    let a = if fuzzy_score(s.name, q) is Some {
        seq!["name"@]
    } else {
        Seq::empty()
    };
    let b = (match s.menu_name {
        Some(m) => if fuzzy_score(m, q) is Some {
            a + seq!["menu_name"@]
        } else {
            a
        },
        None => a,
    });
    let c = (match s.description {
        Some(d) => if fuzzy_score(d, q) is Some {
            b + seq!["description"@]
        } else {
            b
        },
        None => b,
    });
    c + tag_keys(s.tags, q)
}

/// The highlight entries of the matching tags: one keyed range list per
/// matching tag, in tag order.
pub open spec fn tag_highlights(tags: Seq<Seq<char>>, q: Seq<char>) -> Seq<
    (Seq<char>, Seq<(usize, usize)>),
>
    decreases tags.len(),
{
    if tags.len() == 0 {
        Seq::empty()
    } else {
        let prev = tag_highlights(tags.drop_last(), q);
        if fuzzy_score(tags.last(), q) is Some {
            prev + seq![(tag_key(tags.len() - 1), spec_highlight(tags.last(), q))]
        } else {
            prev
        }
    }
}

/// The keyed highlight lists of one entry for a query, in field order:
/// each matching field's key with that field's match ranges.
pub open spec fn spec_field_highlights(s: ScriptV, q: Seq<char>) -> Seq<
    (Seq<char>, Seq<(usize, usize)>),
> {
    let a = if fuzzy_score(s.name, q) is Some {
        seq![("name"@, spec_highlight(s.name, q))]
    } else {
        Seq::empty()
    };
    let b = (match s.menu_name {
        Some(m) => if fuzzy_score(m, q) is Some {
            a + seq![("menu_name"@, spec_highlight(m, q))]
        } else {
            a
        },
        None => a,
    });
    let c = (match s.description {
        Some(d) => if fuzzy_score(d, q) is Some {
            b + seq![("description"@, spec_highlight(d, q))]
        } else {
            b
        },
        None => b,
    });
    c + tag_highlights(s.tags, q)
}

proof fn lemma_tag_highlight_keys(tags: Seq<Seq<char>>, q: Seq<char>)
    ensures
        tag_highlights(tags, q).map_values(|p: (Seq<char>, Seq<(usize, usize)>)| p.0) =~= tag_keys(
            tags,
            q,
        ),
    decreases tags.len(),
{
    if tags.len() > 0 {
        lemma_tag_highlight_keys(tags.drop_last(), q);
    }
}

/// The highlight list carries exactly the matched-field keys, in the
/// same order.
pub proof fn lemma_highlight_keys_match(s: ScriptV, q: Seq<char>)
    ensures
        spec_field_highlights(s, q).map_values(|p: (Seq<char>, Seq<(usize, usize)>)| p.0)
            =~= spec_matched_fields(s, q),
{
    lemma_tag_highlight_keys(s.tags, q);
}

/// One detailed search result: the entry, its rank score, which fields
/// matched, and per matched field the character ranges to highlight.
pub struct SearchResult {
    pub script: Script,
    pub score: i64,
    pub matched_fields: Vec<String>,
    pub highlight_ranges: Vec<(String, Vec<(usize, usize)>)>,
}

/// The mathematical value of a detailed result: the entry, the score,
/// the matched-field keys, and the keyed highlight lists.
#[verifier::ext_equal]
pub ghost struct SearchResultV {
    pub script: ScriptV,
    pub score: i64,
    pub matched_fields: Seq<Seq<char>>,
    pub highlight_ranges: Seq<(Seq<char>, Seq<(usize, usize)>)>,
}

impl View for SearchResult {
    type V = SearchResultV;

    open spec fn view(&self) -> SearchResultV {
        SearchResultV {
            script: self.script@,
            score: self.score,
            matched_fields: str_views(self.matched_fields@),
            highlight_ranges: self.highlight_ranges@.map_values(
                |p: (String, Vec<(usize, usize)>)| (p.0@, p.1@),
            ),
        }
    }
}

/// The entries of a detailed result list.
pub open spec fn result_scripts(s: Seq<SearchResult>) -> Seq<ScriptV> {
    s.map_values(|x: SearchResult| x@.script)
}

/// A well-formed detailed result for a query: the score is the entry's
/// rank score, the reported fields are exactly the matching ones, and
/// the highlight list holds exactly each matching field's key with that
/// field's match ranges.
pub open spec fn result_wf(r: SearchResultV, q: Seq<char>) -> bool {
    &&& r.score as int == spec_script_score(r.script, q)
    &&& r.matched_fields == spec_matched_fields(r.script, q)
    &&& r.highlight_ranges == spec_field_highlights(r.script, q)
}

impl SearchEngine {
    /// Builds the detailed result for one entry.
    fn build_result(&self, script: &Script, query: &str, score: i64) -> (r: SearchResult)
        requires
            score as int == spec_script_score(script@, query@),
        ensures
            r@.script == script@,
            result_wf(r@, query@),
    {
        let mut fields: Vec<String> = Vec::new();
        let mut ranges: Vec<(String, Vec<(usize, usize)>)> = Vec::new();
        proof {
            assert(str_views(fields@) =~= Seq::<Seq<char>>::empty());
            assert(ranges@.map_values(|p: (String, Vec<(usize, usize)>)| (p.0@, p.1@)) =~= Seq::<
                (Seq<char>, Seq<(usize, usize)>),
            >::empty());
        }
        if fuzzy_indices_default(script.name.as_str(), query).is_some() {
            let hl = self.highlight_matches(script.name.as_str(), query);
            fields.push(String::from_str("name"));
            ranges.push((String::from_str("name"), hl));
        }
        proof {
            assert(str_views(fields@) =~= (if fuzzy_score(script@.name, query@) is Some {
                seq!["name"@]
            } else {
                Seq::<Seq<char>>::empty()
            }));
            assert(ranges@.map_values(|p: (String, Vec<(usize, usize)>)| (p.0@, p.1@)) =~= (
            if fuzzy_score(script@.name, query@) is Some {
                seq![("name"@, spec_highlight(script@.name, query@))]
            } else {
                Seq::<(Seq<char>, Seq<(usize, usize)>)>::empty()
            }));
        }
        match &script.menu_name {
            Some(m) => {
                if fuzzy_indices_default(m.as_str(), query).is_some() {
                    let hl = self.highlight_matches(m.as_str(), query);
                    fields.push(String::from_str("menu_name"));
                    ranges.push((String::from_str("menu_name"), hl));
                }
            },
            None => {},
        }
        match &script.description {
            Some(d) => {
                if fuzzy_indices_default(d.as_str(), query).is_some() {
                    let hl = self.highlight_matches(d.as_str(), query);
                    fields.push(String::from_str("description"));
                    ranges.push((String::from_str("description"), hl));
                }
            },
            None => {},
        }
        let ghost pre_tags_fields = str_views(fields@);
        let ghost pre_tags_hl = ranges@.map_values(
            |p: (String, Vec<(usize, usize)>)| (p.0@, p.1@),
        );
        let mut j: usize = 0;
        proof {
            assert(script@.tags.subrange(0, 0) =~= Seq::<Seq<char>>::empty());
        }
        while j < script.tags.len()
            invariant
                j <= script.tags.len(),
                script@.tags == str_views(script.tags@),
                str_views(fields@) == pre_tags_fields + tag_keys(
                    script@.tags.subrange(0, j as int),
                    query@,
                ),
                ranges@.map_values(|p: (String, Vec<(usize, usize)>)| (p.0@, p.1@)) == pre_tags_hl
                    + tag_highlights(script@.tags.subrange(0, j as int), query@),
            decreases script.tags.len() - j,
        {
            let ghost tv = script@.tags;
            let ghost pf = str_views(fields@);
            let ghost ph = ranges@.map_values(|p: (String, Vec<(usize, usize)>)| (p.0@, p.1@));
            proof {
                assert(tv[j as int] == script.tags@[j as int]@);
                assert(tv.subrange(0, j + 1).drop_last() =~= tv.subrange(0, j as int));
                assert(tv.subrange(0, j + 1).last() == tv[j as int]);
                assert(tv.subrange(0, j + 1).len() - 1 == j as int);
            }
            if fuzzy_indices_default(script.tags[j].as_str(), query).is_some() {
                let hl = self.highlight_matches(script.tags[j].as_str(), query);
                let mut key = String::from_str("tag_");
                let num = usize_to_string(j);
                key.append(num.as_str());
                proof {
                    assert(key@ == tag_key(j as int));
                }
                let key2 = key.clone();
                fields.push(key);
                ranges.push((key2, hl));
                proof {
                    assert(str_views(fields@) =~= pf + seq![tag_key(j as int)]);
                    assert(ranges@.map_values(|p: (String, Vec<(usize, usize)>)| (p.0@, p.1@))
                        =~= ph + seq![
                        (tag_key(j as int), spec_highlight(tv[j as int], query@)),
                    ]);
                }
            }
            j = j + 1;
        }
        proof {
            assert(script@.tags.subrange(0, script@.tags.len() as int) =~= script@.tags);
        }
        let r = SearchResult { script: script.clone(), score, matched_fields: fields,
            highlight_ranges: ranges };
        proof {
            assert(r@.matched_fields =~= spec_matched_fields(script@, query@));
            assert(r@.highlight_ranges =~= spec_field_highlights(script@, query@));
        }
        r
    }

    /// Inserts one detailed result into a ranked run.
    fn insert_result(&self, out: &mut Vec<SearchResult>, x: SearchResult, query: &str)
        requires
            result_wf(x@, query@),
            forall|k: int| 0 <= k < old(out)@.len() ==> result_wf(
                (#[trigger] old(out)@[k])@,
                query@,
            ),
        ensures
            result_scripts(final(out)@) == crate::order::spec_insert(
                result_scripts(old(out)@),
                x@.script,
                rank_le(query@),
            ),
            forall|k: int| 0 <= k < final(out)@.len() ==> result_wf(
                (#[trigger] final(out)@[k])@,
                query@,
            ),
    {
        let ghost views0 = result_scripts(out@);
        let mut p: usize = 0;
        while p < out.len() && self.rank_le_exec(&out[p].script, &x.script, query)
            invariant
                p <= out.len(),
                views0 == result_scripts(out@),
                forall|k: int| 0 <= k < p ==> rank_le(query@)(#[trigger] views0[k], x@.script),
            decreases out.len() - p,
        {
            proof {
                assert(views0[p as int] == out@[p as int]@.script);
            }
            p = p + 1;
        }
        proof {
            if p < out.len() {
                assert(views0[p as int] == out@[p as int]@.script);
            }
        }
        out.insert(p, x);
        proof {
            crate::order::lemma_insert_split(views0, x@.script, rank_le(query@), p as int);
            assert(result_scripts(out@) =~= views0.subrange(0, p as int) + seq![x@.script]
                + views0.subrange(p as int, views0.len() as int));
            assert forall|k: int| 0 <= k < out@.len() implies result_wf(
                (#[trigger] out@[k])@,
                query@,
            ) by {
                if k < p {
                    assert(out@[k] == old(out)@[k]);
                } else if k == p {
                    assert(out@[k] == x);
                } else {
                    assert(out@[k] == old(out)@[k - 1]);
                }
            }
        }
    }

    /// The detailed search: the same entries in the same ranked order as
    /// the plain search — scoring uses the identical best-field rule —
    /// with each result carrying its score, its matching fields and
    /// their highlight ranges.
    pub fn advanced_search(&self, scripts: &Vec<Script>, query: &str) -> (r: Vec<SearchResult>)
        ensures
            result_scripts(r@) == spec_rank(script_views(scripts@), query@),
            forall|k: int| 0 <= k < r@.len() ==> result_wf((#[trigger] r@[k])@, query@),
    {
        let mut matched: Vec<SearchResult> = Vec::new();
        let mut i: usize = 0;
        proof {
            assert(result_scripts(matched@) =~= Seq::<ScriptV>::empty());
            assert(script_views(scripts@).subrange(0, 0) =~= Seq::<ScriptV>::empty());
        }
        while i < scripts.len()
            invariant
                i <= scripts.len(),
                result_scripts(matched@) == filter_scored(
                    script_views(scripts@).subrange(0, i as int),
                    query@,
                ),
                forall|k: int| 0 <= k < matched@.len() ==> result_wf(
                    (#[trigger] matched@[k])@,
                    query@,
                ),
            decreases scripts.len() - i,
        {
            let ghost prev = result_scripts(matched@);
            let ghost sv = script_views(scripts@);
            proof {
                assert(sv[i as int] == scripts@[i as int]@);
                assert(sv.subrange(0, i + 1).drop_last() =~= sv.subrange(0, i as int));
                assert(sv.subrange(0, i + 1).last() == sv[i as int]);
            }
            match self.calculate_script_score(&scripts[i], query) {
                Some(v) => {
                    let res = self.build_result(&scripts[i], query, v);
                    matched.push(res);
                    proof {
                        assert(result_scripts(matched@) =~= prev + seq![sv[i as int]]);
                    }
                },
                None => {},
            }
            i = i + 1;
        }
        proof {
            let sv = script_views(scripts@);
            assert(sv.subrange(0, sv.len() as int) =~= sv);
        }
        let ghost pre_sort = result_scripts(matched@);
        let mut sorted: Vec<SearchResult> = Vec::new();
        proof {
            assert(result_scripts(sorted@) =~= Seq::<ScriptV>::empty());
            assert(pre_sort.subrange(0, 0) =~= Seq::<ScriptV>::empty());
        }
        let ghost mut done: int = 0;
        while matched.len() > 0
            invariant
                0 <= done <= pre_sort.len(),
                result_scripts(matched@) =~= pre_sort.subrange(done, pre_sort.len() as int),
                matched@.len() == pre_sort.len() - done,
                result_scripts(sorted@) == crate::order::spec_sort(
                    pre_sort.subrange(0, done),
                    rank_le(query@),
                ),
                forall|k: int| 0 <= k < matched@.len() ==> result_wf(
                    (#[trigger] matched@[k])@,
                    query@,
                ),
                forall|k: int| 0 <= k < sorted@.len() ==> result_wf(
                    (#[trigger] sorted@[k])@,
                    query@,
                ),
            decreases matched.len(),
        {
            let ghost pre = result_scripts(matched@);
            let ghost pre_items = matched@;
            let x = matched.remove(0);
            proof {
                assert(x == pre_items[0]);
                assert(x@.script == pre[0]);
                assert(x@.script == pre_sort[done]);
                assert forall|k: int| 0 <= k < matched@.len() implies result_wf(
                    (#[trigger] matched@[k])@,
                    query@,
                ) by {
                    assert(matched@[k] == pre_items[k + 1]);
                }
                assert(result_scripts(matched@) =~= pre.drop_first());
                assert(pre.drop_first() =~= pre_sort.subrange(done + 1, pre_sort.len() as int));
            }
            self.insert_result(&mut sorted, x, query);
            proof {
                let sub1 = pre_sort.subrange(0, done + 1);
                assert(sub1.drop_last() =~= pre_sort.subrange(0, done));
                assert(sub1.last() == pre_sort[done]);
                done = done + 1;
            }
        }
        proof {
            assert(pre_sort.subrange(0, done) =~= pre_sort);
        }
        sorted
    }
}

/// The plain and the detailed search agree: for every catalog and query
/// the detailed results carry exactly the plain ranking's entries, in
/// the same order, because both use the one best-field scoring rule.
pub proof fn lemma_search_paths_agree(
    plain: Seq<ScriptV>,
    detailed: Seq<SearchResultV>,
    candidates: Seq<ScriptV>,
    q: Seq<char>,
)
    requires
        plain == spec_rank(candidates, q),
        detailed.map_values(|x: SearchResultV| x.script) == spec_rank(candidates, q),
    ensures
        plain.len() == detailed.len(),
        forall|k: int| 0 <= k < plain.len() ==> (#[trigger] detailed[k]).script == plain[k],
{
    assert(detailed.map_values(|x: SearchResultV| x.script).len() == detailed.len());
    assert forall|k: int| 0 <= k < plain.len() implies (#[trigger] detailed[k]).script
        == plain[k] by {
        assert(detailed.map_values(|x: SearchResultV| x.script)[k] == detailed[k].script);
    }
}

} // verus!
