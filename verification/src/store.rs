//! The in-memory catalog store: a full-replace collection of entries with
//! the ordered views the navigation layer reads — per-category listings in
//! canonical order, the alphabetical category list, prioritised substring
//! search, path lookup, and an append-only execution history.
use vstd::prelude::*;
use vstd::string::*;

use crate::models::{opt_view, script_views, Script, ScriptV};
use crate::scanner::script_le_fn;
use crate::text::{contains_sub, lex_le, lower_of, str_views};

verus! {

/// One recorded script run; written once, never read back by the core.
pub struct ExecutionRecord {
    pub script_id: i64,
    pub exit_code: i32,
    pub duration_ms: u64,
    pub parameters: Option<String>,
}

/// The mathematical value of an execution record.
#[verifier::ext_equal]
pub ghost struct ExecutionRecordV {
    pub script_id: i64,
    pub exit_code: i32,
    pub duration_ms: u64,
    pub parameters: Option<Seq<char>>,
}

impl View for ExecutionRecord {
    type V = ExecutionRecordV;

    open spec fn view(&self) -> ExecutionRecordV {
        ExecutionRecordV {
            script_id: self.script_id,
            exit_code: self.exit_code,
            duration_ms: self.duration_ms,
            parameters: opt_view(self.parameters),
        }
    }
}

/// The views of a sequence of execution records.
pub open spec fn record_views(s: Seq<ExecutionRecord>) -> Seq<ExecutionRecordV> {
    s.map_values(|r: ExecutionRecord| r@)
}

/// Paths are the catalog's key: no two entries may share one.
pub open spec fn paths_distinct(s: Seq<ScriptV>) -> bool {
    forall|i: int, j: int|
        0 <= i < j < s.len() ==> (#[trigger] s[i]).path != (#[trigger] s[j]).path
}

/// The catalog store: the current full set of entries, in the order the
/// last replacement handed them over, plus the execution history.
pub struct Catalog {
    entries: Vec<Script>,
    history: Vec<ExecutionRecord>,
}

impl View for Catalog {
    type V = Seq<ScriptV>;

    /// A store is read through the sequence of entries it holds.
    closed spec fn view(&self) -> Seq<ScriptV> {
        script_views(self.entries@)
    }
}

impl Catalog {
    /// The execution history, oldest first.
    pub closed spec fn history(&self) -> Seq<ExecutionRecordV> {
        record_views(self.history@)
    }

    /// An empty store.
    pub fn new() -> (r: Catalog)
        ensures
            r@ == Seq::<ScriptV>::empty(),
            r.history() == Seq::<ExecutionRecordV>::empty(),
    {
        let r = Catalog { entries: Vec::new(), history: Vec::new() };
        proof {
            assert(r@ =~= Seq::<ScriptV>::empty());
            assert(r.history() =~= Seq::<ExecutionRecordV>::empty());
        }
        r
    }

    /// Prepares the store for use; calling it again changes nothing.
    pub fn initialize(&mut self)
        ensures
            final(self)@ == old(self)@,
            final(self).history() == old(self).history(),
    {
    }

    /// Whether the store holds no entries.
    pub fn is_empty(&self) -> (r: bool)
        ensures
            r == (self@.len() == 0),
    {
        self.entries.len() == 0
    }

    /// Replaces the whole catalog in one step: afterwards the store holds
    /// exactly the entries handed in, whatever it held before. The path
    /// is each entry's key, so the incoming entries must carry distinct
    /// paths — the store then keeps that invariant until the next
    /// replacement, and a path lookup names at most one entry.
    pub fn update_scripts(&mut self, scripts: Vec<Script>)
        requires
            paths_distinct(script_views(scripts@)),
        ensures
            final(self)@ == script_views(scripts@),
            paths_distinct(final(self)@),
            final(self).history() == old(self).history(),
    {
        self.entries = scripts;
    }

    /// Appends one run to the execution history; the entries are
    /// untouched.
    pub fn record_execution(
        &mut self,
        script_id: i64,
        exit_code: i32,
        duration_ms: u64,
        parameters: Option<String>,
    )
        ensures
            final(self)@ == old(self)@,
            final(self).history() == old(self).history().push(
                ExecutionRecordV {
                    script_id,
                    exit_code,
                    duration_ms,
                    parameters: opt_view(parameters),
                },
            ),
    {
        let ghost rec = ExecutionRecordV {
            script_id,
            exit_code,
            duration_ms,
            parameters: opt_view(parameters),
        };
        self.history.push(ExecutionRecord { script_id, exit_code, duration_ms, parameters });
        proof {
            assert(self.history() =~= old(self).history().push(rec));
        }
    }

    /// The first entry stored under exactly this path, if any; paths
    /// identify entries, so at most one can match.
    pub fn get_script_by_path(&self, path: &str) -> (r: Option<Script>)
        ensures
            match r {
                Some(s) => exists|i: int|
                    0 <= i < self@.len() && s@ == self@[i] && self@[i].path == path@ && (forall|
                        j: int,
                    |
                        0 <= j < i ==> (#[trigger] self@[j]).path != path@),
                None => forall|i: int| 0 <= i < self@.len() ==> (#[trigger] self@[i]).path != path@,
            },
{
        let mut i: usize = 0;
        while i < self.entries.len()
            invariant
                i <= self.entries.len(),
                self@ == script_views(self.entries@),
                forall|j: int| 0 <= j < i ==> (#[trigger] self@[j]).path != path@,
            decreases self.entries.len() - i,
        {
            proof {
                assert(self@[i as int] == self.entries@[i as int]@);
            }
            if crate::text::str_eq(self.entries[i].path.as_str(), path) {
                return Some(self.entries[i].clone());
            }
            i = i + 1;
        }
        None
    }
}

/// The entries of one category, in stored order.
pub open spec fn filter_category(s: Seq<ScriptV>, cat: Seq<char>) -> Seq<ScriptV>
    decreases s.len(),
{
    if s.len() == 0 {
        Seq::empty()
    } else {
        let prev = filter_category(s.drop_last(), cat);
        if s.last().category == cat {
            prev + seq![s.last()]
        } else {
            prev
        }
    }
}

impl Catalog {
    /// The entries of one category, re-sorted into the canonical order:
    /// order number with its default first, then name.
    pub fn get_scripts_by_category(&self, category: &str) -> (r: Vec<Script>)
        ensures
            script_views(r@) == crate::order::spec_sort(
                filter_category(self@, category@),
                script_le_fn(),
            ),
            vstd::relations::sorted_by(script_views(r@), script_le_fn()),
            script_views(r@).to_multiset() == filter_category(self@, category@).to_multiset(),
    {
        proof {
            crate::scanner::lemma_script_le_properties();
            crate::order::lemma_sort_ensures(filter_category(self@, category@), script_le_fn());
        }
        let mut matched: Vec<Script> = Vec::new();
        let mut i: usize = 0;
        proof {
            assert(script_views(matched@) =~= Seq::<ScriptV>::empty());
            assert(self@.subrange(0, 0) =~= Seq::<ScriptV>::empty());
        }
        while i < self.entries.len()
            invariant
                i <= self.entries.len(),
                self@ == script_views(self.entries@),
                script_views(matched@) == filter_category(
                    self@.subrange(0, i as int),
                    category@,
                ),
            decreases self.entries.len() - i,
        {
            let ghost prev = script_views(matched@);
            proof {
                assert(self@[i as int] == self.entries@[i as int]@);
                assert(self@.subrange(0, i + 1).drop_last() =~= self@.subrange(0, i as int));
                assert(self@.subrange(0, i + 1).last() == self@[i as int]);
            }
            if crate::text::str_eq(self.entries[i].category.as_str(), category) {
                let c = self.entries[i].clone();
                matched.push(c);
                proof {
                    assert(script_views(matched@) =~= prev + seq![self@[i as int]]);
                }
            }
            i = i + 1;
        }
        proof {
            assert(self@.subrange(0, self@.len() as int) =~= self@);
        }
        crate::scanner::sort_scripts(&mut matched);
        matched
    }
}

/// Inserts a category name into a strictly sorted list, keeping it
/// sorted and free of duplicates.
pub open spec fn insert_unique_sorted(l: Seq<Seq<char>>, x: Seq<char>) -> Seq<Seq<char>>
    decreases l.len(),
{
    if l.len() == 0 {
        seq![x]
    } else if crate::scanner::lex_lt(l[0], x) {
        seq![l[0]] + insert_unique_sorted(l.drop_first(), x)
    } else if l[0] == x {
        l
    } else {
        seq![x] + l
    }
}

/// The alphabetical list of the distinct categories present.
pub open spec fn categories_spec(s: Seq<ScriptV>) -> Seq<Seq<char>>
    decreases s.len(),
{
    if s.len() == 0 {
        Seq::empty()
    } else {
        insert_unique_sorted(categories_spec(s.drop_last()), s.last().category)
    }
}

/// Where a category name lands in a sorted list: at the first position
/// whose element is not strictly below it, unless it is already there.
pub proof fn lemma_insert_unique_split(l: Seq<Seq<char>>, x: Seq<char>, p: int)
    requires
        0 <= p <= l.len(),
        forall|k: int| 0 <= k < p ==> crate::scanner::lex_lt(#[trigger] l[k], x),
        p < l.len() ==> !crate::scanner::lex_lt(l[p], x),
    ensures
        insert_unique_sorted(l, x) == if p < l.len() && l[p] == x {
            l
        } else {
            l.subrange(0, p) + seq![x] + l.subrange(p, l.len() as int)
        },
    decreases l.len(),
{
    if l.len() == 0 {
        assert(insert_unique_sorted(l, x) =~= l.subrange(0, 0) + seq![x] + l.subrange(0, 0));
    } else if p == 0 {
        if l[0] == x {
        } else {
            assert(insert_unique_sorted(l, x) =~= l.subrange(0, 0) + seq![x] + l.subrange(
                0,
                l.len() as int,
            ));
        }
    } else {
        let t = l.drop_first();
        assert(forall|k: int| 0 <= k < p - 1 ==> crate::scanner::lex_lt(#[trigger] t[k], x));
        lemma_insert_unique_split(t, x, p - 1);
        if p < l.len() && l[p] == x {
            assert(t[p - 1] == l[p]);
        } else {
            assert(t.subrange(0, p - 1) =~= l.subrange(1, p));
            assert(t.subrange(p - 1, t.len() as int) =~= l.subrange(p, l.len() as int));
            assert(insert_unique_sorted(l, x) =~= l.subrange(0, p) + seq![x] + l.subrange(
                p,
                l.len() as int,
            ));
        }
    }
}

/// A name is in the inserted list exactly when it was there or is the
/// inserted one.
pub proof fn lemma_insert_unique_membership(l: Seq<Seq<char>>, x: Seq<char>, y: Seq<char>)
    ensures
        insert_unique_sorted(l, x).contains(y) <==> (l.contains(y) || y == x),
    decreases l.len(),
{
    if l.len() == 0 {
        let r = insert_unique_sorted(l, x);
        if y == x {
            assert(r[0] == y);
            assert(r.contains(y));
        }
        if r.contains(y) {
            let i = choose|i: int| 0 <= i < r.len() && r[i] == y;
            assert(y == x);
        }
    } else if crate::scanner::lex_lt(l[0], x) {
        let t = l.drop_first();
        lemma_insert_unique_membership(t, x, y);
        let q = insert_unique_sorted(t, x);
        let r = seq![l[0]] + q;
        assert(insert_unique_sorted(l, x) == r);
        if r.contains(y) {
            let i = choose|i: int| 0 <= i < r.len() && r[i] == y;
            if i == 0 {
                assert(l[0] == y);
                assert(l.contains(y));
            } else {
                assert(q[i - 1] == y);
                assert(q.contains(q[i - 1]));
                if t.contains(y) {
                    let k = choose|k: int| 0 <= k < t.len() && t[k] == y;
                    assert(l[k + 1] == y);
                    assert(l.contains(y));
                }
            }
        }
        if l.contains(y) {
            let i = choose|i: int| 0 <= i < l.len() && l[i] == y;
            if i == 0 {
                assert(r[0] == y);
                assert(r.contains(y));
            } else {
                assert(t[i - 1] == y);
                assert(t.contains(y));
                let j = choose|j: int| 0 <= j < q.len() && q[j] == y;
                assert(r[j + 1] == y);
                assert(r.contains(y));
            }
        }
        if y == x {
            assert(q.contains(x));
            let j = choose|j: int| 0 <= j < q.len() && q[j] == y;
            assert(r[j + 1] == y);
            assert(r.contains(y));
        }
    } else if l[0] == x {
        if y == x {
            assert(l[0] == y);
            assert(l.contains(y));
        }
    } else {
        let r = seq![x] + l;
        assert(insert_unique_sorted(l, x) == r);
        if r.contains(y) && y != x {
            let i = choose|i: int| 0 <= i < r.len() && r[i] == y;
            assert(l[i - 1] == y);
            assert(l.contains(y));
        }
        if l.contains(y) {
            let i = choose|i: int| 0 <= i < l.len() && l[i] == y;
            assert(r[i + 1] == y);
            assert(r.contains(y));
        }
        assert(r[0] == x);
        assert(r.contains(x));
    }
}

/// A strictly sorted category list stays strictly sorted across an
/// insertion.
pub proof fn lemma_insert_unique_sorted(l: Seq<Seq<char>>, x: Seq<char>)
    requires
        forall|i: int, j: int|
            0 <= i < j < l.len() ==> crate::scanner::lex_lt(#[trigger] l[i], #[trigger] l[j]),
    ensures
        forall|i: int, j: int|
            0 <= i < j < insert_unique_sorted(l, x).len() ==> crate::scanner::lex_lt(
                #[trigger] insert_unique_sorted(l, x)[i],
                #[trigger] insert_unique_sorted(l, x)[j],
            ),
    decreases l.len(),
{
    if l.len() == 0 {
    } else if crate::scanner::lex_lt(l[0], x) {
        let t = l.drop_first();
        assert(forall|i: int, j: int|
            0 <= i < j < t.len() ==> crate::scanner::lex_lt(#[trigger] t[i], #[trigger] t[j]));
        lemma_insert_unique_sorted(t, x);
        let q = insert_unique_sorted(t, x);
        let r = seq![l[0]] + q;
        assert forall|i: int, j: int| 0 <= i < j < r.len() implies crate::scanner::lex_lt(
            #[trigger] r[i],
            #[trigger] r[j],
        ) by {
            if i == 0 {
                assert(q.contains(q[j - 1]));
                lemma_insert_unique_membership(t, x, q[j - 1]);
                if q[j - 1] == x {
                } else {
                    let k = choose|k: int| 0 <= k < t.len() && t[k] == q[j - 1];
                    assert(crate::scanner::lex_lt(l[0], l[k + 1]));
                }
            } else {
                assert(crate::scanner::lex_lt(q[i - 1], q[j - 1]));
            }
        }
    } else if l[0] == x {
    } else {
        crate::text::lemma_lex_le_total(l[0], x);
        let r = seq![x] + l;
        assert forall|i: int, j: int| 0 <= i < j < r.len() implies crate::scanner::lex_lt(
            #[trigger] r[i],
            #[trigger] r[j],
        ) by {
            if i == 0 {
                if j == 1 {
                } else {
                    assert(crate::scanner::lex_lt(l[0], l[j - 1]));
                    crate::text::lemma_lex_le_trans(x, l[0], l[j - 1]);
                    if x == l[j - 1] {
                        crate::text::lemma_lex_le_antisym(x, l[0]);
                    }
                }
            } else {
                assert(crate::scanner::lex_lt(l[i - 1], l[j - 1]));
            }
        }
    }
}

/// The category list holds a name exactly when some entry carries it.
pub proof fn lemma_categories_membership(s: Seq<ScriptV>, c: Seq<char>)
    ensures
        categories_spec(s).contains(c) <==> exists|i: int|
            0 <= i < s.len() && (#[trigger] s[i]).category == c,
    decreases s.len(),
{
    if s.len() > 0 {
        let t = s.drop_last();
        lemma_categories_membership(t, c);
        lemma_insert_unique_membership(categories_spec(t), s.last().category, c);
        if categories_spec(s).contains(c) {
            if c == s.last().category {
                assert(s[s.len() - 1].category == c);
            } else {
                let i = choose|i: int| 0 <= i < t.len() && (#[trigger] t[i]).category == c;
                assert(s[i].category == c);
            }
        }
        if exists|i: int| 0 <= i < s.len() && (#[trigger] s[i]).category == c {
            let i = choose|i: int| 0 <= i < s.len() && (#[trigger] s[i]).category == c;
            if i < s.len() - 1 {
                assert(t[i].category == c);
            }
        }
    }
}

/// The category list is strictly sorted, so it is alphabetical and free
/// of duplicates.
pub proof fn lemma_categories_sorted(s: Seq<ScriptV>)
    ensures
        forall|i: int, j: int|
            0 <= i < j < categories_spec(s).len() ==> crate::scanner::lex_lt(
                #[trigger] categories_spec(s)[i],
                #[trigger] categories_spec(s)[j],
            ),
    decreases s.len(),
{
    if s.len() > 0 {
        let t = s.drop_last();
        lemma_categories_sorted(t);
        lemma_insert_unique_sorted(categories_spec(t), s.last().category);
    }
}

/// Whether `a` comes strictly before `b` in lexicographic order.
fn lex_lt_str(a: &str, b: &str) -> (r: bool)
    ensures
        r == crate::scanner::lex_lt(a@, b@),
{
    let ab = crate::text::lex_le_str(a, b);
    let ba = crate::text::lex_le_str(b, a);
    proof {
        if ab && ba {
            crate::text::lemma_lex_le_antisym(a@, b@);
        }
        crate::text::lemma_lex_le_total(a@, a@);
    }
    ab && !ba
}

/// Inserts an owned string into a sorted duplicate-free list, keeping
/// it so.
pub(crate) fn insert_unique_string(out: &mut Vec<String>, x: String)
    ensures
        str_views(final(out)@) == insert_unique_sorted(str_views(old(out)@), x@),
{
    let ghost views0 = str_views(out@);
    let mut p: usize = 0;
    while p < out.len() && lex_lt_str(out[p].as_str(), x.as_str())
        invariant
            p <= out.len(),
            views0 == str_views(out@),
            forall|k: int| 0 <= k < p ==> crate::scanner::lex_lt(#[trigger] views0[k], x@),
        decreases out.len() - p,
    {
        proof {
            assert(views0[p as int] == out@[p as int]@);
        }
        p = p + 1;
    }
    proof {
        if p < out.len() {
            assert(views0[p as int] == out@[p as int]@);
        }
        lemma_insert_unique_split(views0, x@, p as int);
    }
    if p < out.len() && crate::text::str_eq(out[p].as_str(), x.as_str()) {
    } else {
        out.insert(p, x);
        proof {
            assert(str_views(out@) =~= views0.subrange(0, p as int) + seq![x@] + views0.subrange(
                p as int,
                views0.len() as int,
            ));
        }
    }
}

impl Catalog {
    /// The distinct categories present, alphabetically.
    pub fn get_all_categories(&self) -> (r: Vec<String>)
        ensures
            str_views(r@) == categories_spec(self@),
            forall|i: int, j: int|
                0 <= i < j < r@.len() ==> crate::scanner::lex_lt(
                    #[trigger] str_views(r@)[i],
                    #[trigger] str_views(r@)[j],
                ),
            forall|c: Seq<char>|
                #[trigger] str_views(r@).contains(c) <==> exists|i: int|
                    0 <= i < self@.len() && (#[trigger] self@[i]).category == c,
    {
        proof {
            lemma_categories_sorted(self@);
            assert forall|c: Seq<char>|
                #[trigger] categories_spec(self@).contains(c) <==> exists|i: int|
                    0 <= i < self@.len() && (#[trigger] self@[i]).category == c by {
                lemma_categories_membership(self@, c);
            }
        }
        let mut out: Vec<String> = Vec::new();
        let mut i: usize = 0;
        proof {
            assert(str_views(out@) =~= Seq::<Seq<char>>::empty());
            assert(self@.subrange(0, 0) =~= Seq::<ScriptV>::empty());
            assert(categories_spec(self@.subrange(0, 0)) =~= Seq::<Seq<char>>::empty());
        }
        while i < self.entries.len()
            invariant
                i <= self.entries.len(),
                self@ == script_views(self.entries@),
                str_views(out@) == categories_spec(self@.subrange(0, i as int)),
            decreases self.entries.len() - i,
        {
            let ghost views0 = str_views(out@);
            proof {
                assert(self@[i as int] == self.entries@[i as int]@);
                assert(self@.subrange(0, i + 1).drop_last() =~= self@.subrange(0, i as int));
                assert(self@.subrange(0, i + 1).last() == self@[i as int]);
            }
            let cat = self.entries[i].category.as_str();
            let mut p: usize = 0;
            while p < out.len() && lex_lt_str(out[p].as_str(), cat)
                invariant
                    p <= out.len(),
                    views0 == str_views(out@),
                    self@ == script_views(self.entries@),
                    i < self.entries.len(),
                    cat@ == self.entries@[i as int]@.category,
                    forall|k: int|
                        0 <= k < p ==> crate::scanner::lex_lt(#[trigger] views0[k], cat@),
                decreases out.len() - p,
            {
                proof {
                    assert(views0[p as int] == out@[p as int]@);
                }
                p = p + 1;
            }
            proof {
                if p < out.len() {
                    assert(views0[p as int] == out@[p as int]@);
                }
                lemma_insert_unique_split(views0, cat@, p as int);
            }
            if p < out.len() && crate::text::str_eq(out[p].as_str(), cat) {
            } else {
                let owned = self.entries[i].category.clone();
                out.insert(p, owned);
                proof {
                    assert(str_views(out@) =~= views0.subrange(0, p as int) + seq![cat@]
                        + views0.subrange(p as int, views0.len() as int));
                }
            }
            i = i + 1;
        }
        proof {
            assert(self@.subrange(0, self@.len() as int) =~= self@);
        }
        out
    }
}

/// Whether an optional field, lowercased, holds the lowercased query.
pub open spec fn field_matches(f: Option<Seq<char>>, ql: Seq<char>) -> bool {
    match f {
        Some(t) => contains_sub(lower_of(t), ql),
        None => false,
    }
}

/// What `serde_json::to_string` returns for a list of tag strings — the
/// form the tags are persisted and searched in: a function of the tags
/// alone.
pub uninterp spec fn serialized_tags(tags: Seq<Seq<char>>) -> Seq<char>;

/// Relies on `serde_json::to_string::<Vec<String>>`: serializing a list
/// of plain strings depends on the list alone and cannot fail.
#[verifier::external_body]
fn serialize_tags(tags: &Vec<String>) -> (r: String)
    ensures
        r@ == serialized_tags(str_views(tags@)),
{
    serde_json::to_string(tags).unwrap_or_default()
}

/// Whether the serialized tag text, lowercased, holds the lowercased
/// query.
pub open spec fn tags_match(tags: Seq<Seq<char>>, ql: Seq<char>) -> bool {
    contains_sub(lower_of(serialized_tags(tags)), ql)
}

/// Whether an entry matches a lowercased substring query in any of its
/// searched fields: name, display name, the two descriptions, or a tag.
pub open spec fn search_matches(s: ScriptV, ql: Seq<char>) -> bool {
    ||| contains_sub(lower_of(s.name), ql)
    ||| field_matches(s.menu_name, ql)
    ||| field_matches(s.description, ql)
    ||| field_matches(s.detailed_description, ql)
    ||| tags_match(s.tags, ql)
}

/// The priority class of a match: a name match ranks first, then a
/// display-name match, then a description match, then any other.
pub open spec fn match_class(s: ScriptV, ql: Seq<char>) -> int {
    if contains_sub(lower_of(s.name), ql) {
        1
    } else if field_matches(s.menu_name, ql) {
        2
    } else if field_matches(s.description, ql) {
        3
    } else {
        4
    }
}

/// The search result order for one query: priority class, then name.
pub open spec fn search_le(ql: Seq<char>) -> spec_fn(ScriptV, ScriptV) -> bool {
    |a: ScriptV, b: ScriptV|
        {
            ||| match_class(a, ql) < match_class(b, ql)
            ||| (match_class(a, ql) == match_class(b, ql) && lex_le(a.name, b.name))
        }
}

/// The search order is a total preorder.
pub proof fn lemma_search_le_properties(ql: Seq<char>)
    ensures
        vstd::relations::transitive(search_le(ql)),
        vstd::relations::strongly_connected(search_le(ql)),
{
    let le = search_le(ql);
    assert forall|a: ScriptV, b: ScriptV, c: ScriptV| #[trigger] le(a, b) && #[trigger] le(b, c)
        implies le(a, c) by {
        if match_class(a, ql) == match_class(b, ql) && match_class(b, ql) == match_class(c, ql) {
            crate::text::lemma_lex_le_trans(a.name, b.name, c.name);
        }
    }
    assert forall|a: ScriptV, b: ScriptV| #[trigger] le(a, b) || #[trigger] le(b, a) by {
        crate::text::lemma_lex_le_total(a.name, b.name);
    }
}

/// The matching entries, in stored order.
pub open spec fn filter_matching(s: Seq<ScriptV>, ql: Seq<char>) -> Seq<ScriptV>
    decreases s.len(),
{
    if s.len() == 0 {
        Seq::empty()
    } else {
        let prev = filter_matching(s.drop_last(), ql);
        if search_matches(s.last(), ql) {
            prev + seq![s.last()]
        } else {
            prev
        }
    }
}

/// Whether an optional field, lowercased, holds the query.
fn field_matches_exec(f: &Option<String>, ql: &str) -> (r: bool)
    ensures
        r == field_matches(opt_view(*f), ql@),
{
    match f {
        Some(t) => {
            let low = crate::text::lowercase(t.as_str());
            crate::text::contains_str(low.as_str(), ql)
        },
        None => false,
    }
}

/// Whether the serialized tag text, lowercased, holds the query.
fn tags_match_exec(tags: &Vec<String>, ql: &str) -> (r: bool)
    ensures
        r == tags_match(str_views(tags@), ql@),
{
    let serialized = serialize_tags(tags);
    let low = crate::text::lowercase(serialized.as_str());
    crate::text::contains_str(low.as_str(), ql)
}

/// The priority class of an entry against the query, or zero when
/// nothing matches.
fn match_class_exec(s: &Script, ql: &str) -> (r: usize)
    ensures
        r == 0 <==> !search_matches(s@, ql@),
        r != 0 ==> r as int == match_class(s@, ql@),
{
    let name_low = crate::text::lowercase(s.name.as_str());
    if crate::text::contains_str(name_low.as_str(), ql) {
        return 1;
    }
    if field_matches_exec(&s.menu_name, ql) {
        return 2;
    }
    if field_matches_exec(&s.description, ql) {
        return 3;
    }
    if field_matches_exec(&s.detailed_description, ql) {
        return 4;
    }
    if tags_match_exec(&s.tags, ql) {
        return 4;
    }
    0
}

/// Compares two matching entries in the search order for the query.
fn search_le_exec(a: &Script, b: &Script, ql: &str) -> (r: bool)
    ensures
        r == search_le(ql@)(a@, b@),
{
    let ca = match_class_exec(a, ql);
    let cb = match_class_exec(b, ql);
    let ca = if ca == 0 {
        4
    } else {
        ca
    };
    let cb = if cb == 0 {
        4
    } else {
        cb
    };
    if ca < cb {
        true
    } else if ca > cb {
        false
    } else {
        crate::text::lex_le_str(a.name.as_str(), b.name.as_str())
    }
}

/// Inserts one entry into a run kept in search order, after every entry
/// that compares less-or-equal to it.
fn insert_by_search(out: &mut Vec<Script>, x: Script, ql: &str)
    ensures
        script_views(final(out)@) == crate::order::spec_insert(
            script_views(old(out)@),
            x@,
            search_le(ql@),
        ),
{
    let ghost views0 = script_views(out@);
    let mut p: usize = 0;
    while p < out.len() && search_le_exec(&out[p], &x, ql)
        invariant
            p <= out.len(),
            views0 == script_views(out@),
            forall|k: int| 0 <= k < p ==> search_le(ql@)(#[trigger] views0[k], x@),
        decreases out.len() - p,
    {
        proof {
            assert(views0[p as int] == out@[p as int]@);
        }
        p = p + 1;
    }
    proof {
        if p < out.len() {
            assert(views0[p as int] == out@[p as int]@);
        }
    }
    out.insert(p, x);
    proof {
        crate::order::lemma_insert_split(views0, x@, search_le(ql@), p as int);
        assert(script_views(out@) =~= views0.subrange(0, p as int) + seq![x@] + views0.subrange(
            p as int,
            views0.len() as int,
        ));
    }
}

impl Catalog {
    /// The entries matching a case-insensitive substring query, ordered
    /// by where they match — name first, then display name, then
    /// description, then anything else — with ties broken by name.
    pub fn search_scripts(&self, query: &str) -> (r: Vec<Script>)
        ensures
            script_views(r@) == crate::order::spec_sort(
                filter_matching(self@, lower_of(query@)),
                search_le(lower_of(query@)),
            ),
            vstd::relations::sorted_by(script_views(r@), search_le(lower_of(query@))),
            script_views(r@).to_multiset() == filter_matching(
                self@,
                lower_of(query@),
            ).to_multiset(),
    {
        proof {
            lemma_search_le_properties(lower_of(query@));
            crate::order::lemma_sort_ensures(
                filter_matching(self@, lower_of(query@)),
                search_le(lower_of(query@)),
            );
        }
        let ql_owned = crate::text::lowercase(query);
        let ql = ql_owned.as_str();
        let mut matched: Vec<Script> = Vec::new();
        let mut i: usize = 0;
        proof {
            assert(script_views(matched@) =~= Seq::<ScriptV>::empty());
            assert(self@.subrange(0, 0) =~= Seq::<ScriptV>::empty());
        }
        while i < self.entries.len()
            invariant
                i <= self.entries.len(),
                self@ == script_views(self.entries@),
                ql@ == lower_of(query@),
                script_views(matched@) == filter_matching(
                    self@.subrange(0, i as int),
                    lower_of(query@),
                ),
            decreases self.entries.len() - i,
        {
            let ghost prev = script_views(matched@);
            proof {
                assert(self@[i as int] == self.entries@[i as int]@);
                assert(self@.subrange(0, i + 1).drop_last() =~= self@.subrange(0, i as int));
                assert(self@.subrange(0, i + 1).last() == self@[i as int]);
            }
            if match_class_exec(&self.entries[i], ql) != 0 {
                let c = self.entries[i].clone();
                matched.push(c);
                proof {
                    assert(script_views(matched@) =~= prev + seq![self@[i as int]]);
                }
            }
            i = i + 1;
        }
        proof {
            assert(self@.subrange(0, self@.len() as int) =~= self@);
        }
        let ghost pre_sort = script_views(matched@);
        let mut sorted: Vec<Script> = Vec::new();
        proof {
            assert(script_views(sorted@) =~= Seq::<ScriptV>::empty());
            assert(pre_sort.subrange(0, 0) =~= Seq::<ScriptV>::empty());
        }
        let ghost mut done: int = 0;
        while matched.len() > 0
            invariant
                0 <= done <= pre_sort.len(),
                ql@ == lower_of(query@),
                script_views(matched@) =~= pre_sort.subrange(done, pre_sort.len() as int),
                matched@.len() == pre_sort.len() - done,
                script_views(sorted@) == crate::order::spec_sort(
                    pre_sort.subrange(0, done),
                    search_le(lower_of(query@)),
                ),
            decreases matched.len(),
        {
            let ghost pre = script_views(matched@);
            let x = matched.remove(0);
            proof {
                assert(x@ == pre[0]);
                assert(x@ == pre_sort[done]);
                assert(script_views(matched@) =~= pre.drop_first());
                assert(pre.drop_first() =~= pre_sort.subrange(done + 1, pre_sort.len() as int));
            }
            insert_by_search(&mut sorted, x, ql);
            proof {
                let sub1 = pre_sort.subrange(0, done + 1);
                assert(sub1.drop_last() =~= pre_sort.subrange(0, done));
                assert(sub1.last() == pre_sort[done]);
                done = done + 1;
            }
        }
        proof {
            assert(pre_sort.subrange(0, done) =~= pre_sort);
        }
        sorted
    }
}

/// A full replacement is atomic at the store's interface: once the stored
/// sequence is the incoming one, an entry can be read back exactly when
/// it is among the new entries — no remnant of an earlier set can show
/// through.
pub proof fn lemma_replace_all_atomic(stored: Seq<ScriptV>, incoming: Seq<ScriptV>)
    requires
        stored == incoming,
    ensures
        forall|x: ScriptV| stored.contains(x) <==> incoming.contains(x),
        stored.len() == incoming.len(),
{
}

} // verus!
