//! The metadata parser and catalog builder: recognises `#TAG value`
//! directives in the first fifty lines of a script, extracts the JSON
//! parameter block, derives category and name from the path, decides
//! dependency availability from probe results, and puts the catalog into
//! its canonical order.
use vstd::prelude::*;
use vstd::string::*;

use crate::models::{script_views, Script, ScriptV};
use crate::text::{
    all_digits, contains_sub, digits_val, find_from, has_prefix, is_space_char, match_at,
    split_lines_spec, str_views, trim_spec,
};

verus! {

/// How many leading lines of a script are scanned for directives.
pub const DIRECTIVE_WINDOW: usize = 50;

/// A trimmed line carries the directive whose prefix (`#` plus tag) is
/// `pre` when the prefix is followed by at least one whitespace character
/// and a non-blank value.
pub open spec fn directive_matches(lt: Seq<char>, pre: Seq<char>) -> bool {
    &&& has_prefix(lt, pre)
    &&& lt.len() > pre.len()
    &&& is_space_char(lt[pre.len() as int])
    &&& trim_spec(lt.subrange(pre.len() as int, lt.len() as int)).len() > 0
}

/// The value of a matching directive line: what follows the tag, trimmed.
pub open spec fn directive_value(lt: Seq<char>, pre: Seq<char>) -> Seq<char> {
    trim_spec(lt.subrange(pre.len() as int, lt.len() as int))
}

/// Checks one trimmed line against one directive prefix and hands back
/// the trimmed value on a match.
fn match_directive(lt: &str, pre: &str) -> (r: Option<String>)
    ensures
        r is Some <==> directive_matches(lt@, pre@),
        r is Some ==> r->0@ == directive_value(lt@, pre@),
{
    let n = lt.unicode_len();
    let m = pre.unicode_len();
    if !crate::text::starts_with_str(lt, pre) {
        return None;
    }
    if n <= m {
        return None;
    }
    let c = lt.get_char(m);
    if !(c == ' ' || c == '\t' || c == '\n' || c == '\r' || c == '\x0B' || c == '\x0C') {
        return None;
    }
    let rest = lt.substring_char(m, n);
    let value = crate::text::trim_str(rest);
    if value.unicode_len() == 0 {
        return None;
    }
    Some(String::from_str(value))
}

/// The tag pieces of an `MTAGS` value from index `start` on: the text is
/// split at commas, each piece trimmed, and blank pieces dropped.
pub open spec fn tags_from(s: Seq<char>, start: int) -> Seq<Seq<char>>
    decreases s.len() + 1 - start,
    via tags_from_decreases
{
    if start < 0 || start >= s.len() {
        Seq::empty()
    } else {
        let c = find_from(s, ',', start);
        let piece = trim_spec(s.subrange(start, c));
        let rest = tags_from(s, c + 1);
        if piece.len() > 0 {
            seq![piece] + rest
        } else {
            rest
        }
    }
}

#[via_fn]
proof fn tags_from_decreases(s: Seq<char>, start: int) {
    if 0 <= start < s.len() {
        crate::text::lemma_find_from(s, ',', start);
    }
}

/// The tag list of an `MTAGS` value.
pub open spec fn split_tags_spec(s: Seq<char>) -> Seq<Seq<char>> {
    tags_from(s, 0)
}

/// Splits a tag list value at commas, trimming each piece and dropping
/// blank ones; duplicates are kept.
pub fn split_tags(s: &str) -> (r: Vec<String>)
    ensures
        str_views(r@) == split_tags_spec(s@),
{
    let n = s.unicode_len();
    let mut out: Vec<String> = Vec::new();
    let mut start: usize = 0;
    proof {
        assert(str_views(out@) =~= Seq::<Seq<char>>::empty());
    }
    while start < n
        invariant
            n == s@.len(),
            start <= n,
            str_views(out@) + tags_from(s@, start as int) == split_tags_spec(s@),
        decreases n - start,
    {
        let ghost prev_views = str_views(out@);
        let mut j: usize = start;
        while j < n && s.get_char(j) != ','
            invariant
                n == s@.len(),
                start <= j <= n,
                find_from(s@, ',', start as int) == find_from(s@, ',', j as int),
            decreases n - j,
        {
            j = j + 1;
        }
        proof {
            assert(find_from(s@, ',', start as int) == j as int);
        }
        let piece = crate::text::trim_str(s.substring_char(start, j));
        if piece.unicode_len() > 0 {
            out.push(String::from_str(piece));
            proof {
                assert(str_views(out@) =~= prev_views + seq![piece@]);
            }
        }
        proof {
            let c = find_from(s@, ',', start as int);
            if j == n {
                assert(tags_from(s@, c + 1) =~= Seq::<Seq<char>>::empty());
                assert(tags_from(s@, n as int) =~= Seq::<Seq<char>>::empty());
            }
            if piece@.len() > 0 {
                assert(str_views(out@) + tags_from(s@, c + 1) =~= prev_views + (seq![piece@]
                    + tags_from(s@, c + 1)));
            }
        }
        if j < n {
            start = j + 1;
        } else {
            start = n;
        }
    }
    proof {
        assert(tags_from(s@, start as int) =~= Seq::<Seq<char>>::empty());
        assert(str_views(out@) =~= str_views(out@) + tags_from(s@, start as int));
    }
    out
}

/// The effect of one line on the metadata record: the first directive
/// pattern the trimmed line matches, in the fixed order below, overwrites
/// its field; a line matching no pattern changes nothing.
pub open spec fn apply_line(m: ScriptV, line: Seq<char>) -> ScriptV {
    let lt = trim_spec(line);
    if directive_matches(lt, "#MN"@) {
        ScriptV { menu_name: Some(directive_value(lt, "#MN"@)), ..m }
    } else if directive_matches(lt, "#MD"@) {
        ScriptV { description: Some(directive_value(lt, "#MD"@)), ..m }
    } else if directive_matches(lt, "#MDD"@) {
        ScriptV { detailed_description: Some(directive_value(lt, "#MDD"@)), ..m }
    } else if directive_matches(lt, "#MI"@) {
        ScriptV { integration: Some(directive_value(lt, "#MI"@)), ..m }
    } else if directive_matches(lt, "#INFO"@) {
        ScriptV { info_url: Some(directive_value(lt, "#INFO"@)), ..m }
    } else if directive_matches(lt, "#MICON"@) {
        ScriptV { icon: Some(directive_value(lt, "#MICON"@)), ..m }
    } else if directive_matches(lt, "#MCOLOR"@) {
        ScriptV { color: Some(directive_value(lt, "#MCOLOR"@)), ..m }
    } else if directive_matches(lt, "#MORDER"@) && all_digits(directive_value(lt, "#MORDER"@)) {
        if digits_val(directive_value(lt, "#MORDER"@)) <= i32::MAX {
            ScriptV { order: Some(digits_val(directive_value(lt, "#MORDER"@)) as i32), ..m }
        } else {
            m
        }
    } else if directive_matches(lt, "#MDEFAULT"@) && (directive_value(lt, "#MDEFAULT"@) == "true"@
        || directive_value(lt, "#MDEFAULT"@) == "false"@) {
        ScriptV { is_default: directive_value(lt, "#MDEFAULT"@) == "true"@, ..m }
    } else if directive_matches(lt, "#MSEPARATOR"@) {
        ScriptV { separator: Some(directive_value(lt, "#MSEPARATOR"@)), ..m }
    } else if directive_matches(lt, "#MTAGS"@) {
        ScriptV { tags: split_tags_spec(directive_value(lt, "#MTAGS"@)), ..m }
    } else if directive_matches(lt, "#MAUTHOR"@) {
        ScriptV { author: Some(directive_value(lt, "#MAUTHOR"@)), ..m }
    } else {
        m
    }
}

/// The effect of a run of lines, applied first to last: a later directive
/// overwrites what an earlier line of the same tag set (last wins).
pub open spec fn apply_lines(m: ScriptV, lines: Seq<Seq<char>>) -> ScriptV
    decreases lines.len(),
{
    if lines.len() == 0 {
        m
    } else {
        apply_line(apply_lines(m, lines.drop_last()), lines.last())
    }
}

/// The lines a directive scan looks at: the first fifty, or all of a
/// shorter file.
pub open spec fn capped_lines(content: Seq<char>) -> Seq<Seq<char>> {
    let all = split_lines_spec(content);
    if all.len() > DIRECTIVE_WINDOW as int {
        all.subrange(0, DIRECTIVE_WINDOW as int)
    } else {
        all
    }
}

/// Applies one line's directive, if any, to the record.
fn apply_line_exec(script: &mut Script, line: &str)
    ensures
        final(script)@ == apply_line(old(script)@, line@),
{
    let lt = crate::text::trim_str(line);
    if let Some(v) = match_directive(lt, "#MN") {
        script.menu_name = Some(v);
    } else if let Some(v) = match_directive(lt, "#MD") {
        script.description = Some(v);
    } else if let Some(v) = match_directive(lt, "#MDD") {
        script.detailed_description = Some(v);
    } else if let Some(v) = match_directive(lt, "#MI") {
        script.integration = Some(v);
    } else if let Some(v) = match_directive(lt, "#INFO") {
        script.info_url = Some(v);
    } else if let Some(v) = match_directive(lt, "#MICON") {
        script.icon = Some(v);
    } else if let Some(v) = match_directive(lt, "#MCOLOR") {
        script.color = Some(v);
    } else if let Some(v) = match_directive(lt, "#MORDER") {
        let digits_ok = crate::text::parse_digits_i32(v.as_str());
        match digits_ok {
            Some(o) => {
                script.order = Some(o);
            },
            None => {
                proof {
                    reveal_strlit("#MORDER");
                    reveal_strlit("#MDEFAULT");
                    reveal_strlit("#MSEPARATOR");
                    reveal_strlit("#MTAGS");
                    reveal_strlit("#MAUTHOR");
                    let lts = lt@;
                    crate::text::lemma_prefix_char(lts, "#MORDER"@, 2);
                    if has_prefix(lts, "#MDEFAULT"@) {
                        crate::text::lemma_prefix_char(lts, "#MDEFAULT"@, 2);
                    }
                    if has_prefix(lts, "#MSEPARATOR"@) {
                        crate::text::lemma_prefix_char(lts, "#MSEPARATOR"@, 2);
                    }
                    if has_prefix(lts, "#MTAGS"@) {
                        crate::text::lemma_prefix_char(lts, "#MTAGS"@, 2);
                    }
                    if has_prefix(lts, "#MAUTHOR"@) {
                        crate::text::lemma_prefix_char(lts, "#MAUTHOR"@, 2);
                    }
                }
            },
        }
    } else if let Some(v) = match_directive(lt, "#MDEFAULT") {
        if crate::text::str_eq(v.as_str(), "true") {
            script.is_default = true;
        } else if crate::text::str_eq(v.as_str(), "false") {
            script.is_default = false;
        } else {
            proof {
                reveal_strlit("#MDEFAULT");
                reveal_strlit("#MSEPARATOR");
                reveal_strlit("#MTAGS");
                reveal_strlit("#MAUTHOR");
                let lts = lt@;
                crate::text::lemma_prefix_char(lts, "#MDEFAULT"@, 2);
                if has_prefix(lts, "#MSEPARATOR"@) {
                    crate::text::lemma_prefix_char(lts, "#MSEPARATOR"@, 2);
                }
                if has_prefix(lts, "#MTAGS"@) {
                    crate::text::lemma_prefix_char(lts, "#MTAGS"@, 2);
                }
                if has_prefix(lts, "#MAUTHOR"@) {
                    crate::text::lemma_prefix_char(lts, "#MAUTHOR"@, 2);
                }
            }
        }
    } else if let Some(v) = match_directive(lt, "#MSEPARATOR") {
        script.separator = Some(v);
    } else if let Some(v) = match_directive(lt, "#MTAGS") {
        script.tags = split_tags(v.as_str());
    } else if let Some(v) = match_directive(lt, "#MAUTHOR") {
        script.author = Some(v);
    }
    proof {
        assert(script@ =~= apply_line(old(script)@, line@));
    }
}

/// Walks a script tree and turns each annotated script file into a
/// catalog entry. The walking itself is input/output and happens outside;
/// this type holds everything that can be computed from the file texts.
pub struct ScriptScanner {
    toolbox_path: String,
}

impl View for ScriptScanner {
    type V = Seq<char>;

    /// A scanner is characterised by the root path it resolves
    /// categories against.
    closed spec fn view(&self) -> Seq<char> {
        self.toolbox_path@
    }
}

impl ScriptScanner {
    /// A scanner rooted at the given directory path.
    pub fn new(toolbox_path: String) -> (r: ScriptScanner)
        ensures
            r@ == toolbox_path@,
    {
        ScriptScanner { toolbox_path }
    }

    /// Applies every directive found in the first fifty lines of the
    /// text to the record, one line at a time, so that the last
    /// occurrence of a tag within that window wins and anything beyond
    /// the window is ignored.
    pub fn extract_metadata(&self, content: &str, script: &mut Script)
        ensures
            final(script)@ == apply_lines(old(script)@, capped_lines(content@)),
    {
        let lines = crate::text::split_lines(content);
        let count = if lines.len() > DIRECTIVE_WINDOW {
            DIRECTIVE_WINDOW
        } else {
            lines.len()
        };
        proof {
            assert(str_views(lines@).len() == lines@.len());
            if split_lines_spec(content@).len() <= DIRECTIVE_WINDOW as int {
                assert(capped_lines(content@) == split_lines_spec(content@));
            }
            assert(capped_lines(content@).len() == count as int);
            assert(capped_lines(content@).subrange(0, 0) =~= Seq::<Seq<char>>::empty());
        }
        let mut i: usize = 0;
        while i < count
            invariant
                count <= lines.len(),
                i <= count,
                str_views(lines@) == split_lines_spec(content@),
                capped_lines(content@).len() == count as int,
                script@ == apply_lines(old(script)@, capped_lines(content@).subrange(0, i as int)),
            decreases count - i,
        {
            proof {
                let capped = capped_lines(content@);
                assert(capped[i as int] == split_lines_spec(content@)[i as int]);
                assert(capped.subrange(0, i + 1).drop_last() =~= capped.subrange(0, i as int));
                assert(capped.subrange(0, i + 1).last() == capped[i as int]);
                assert(str_views(lines@)[i as int] == lines@[i as int]@);
            }
            apply_line_exec(script, lines[i].as_str());
            i = i + 1;
        }
        proof {
            assert(capped_lines(content@).subrange(0, count as int) =~= capped_lines(content@));
        }
    }
}

/// The index of the first occurrence of `pat` at or after `i`, or one
/// past the end of `s` when there is none.
pub open spec fn find_sub_from(s: Seq<char>, pat: Seq<char>, i: int) -> int
    decreases s.len() + 1 - i,
{
    if i < 0 || i > s.len() {
        s.len() as int + 1
    } else if match_at(s, pat, i) {
        i
    } else {
        find_sub_from(s, pat, i + 1)
    }
}

pub proof fn lemma_find_sub_from(s: Seq<char>, pat: Seq<char>, i: int)
    requires
        0 <= i <= s.len(),
    ensures
        i <= find_sub_from(s, pat, i) <= s.len() + 1,
        find_sub_from(s, pat, i) <= s.len() ==> match_at(s, pat, find_sub_from(s, pat, i)),
        forall|j: int| i <= j < find_sub_from(s, pat, i) ==> !match_at(s, pat, j),
    decreases s.len() + 1 - i,
{
    if !match_at(s, pat, i) {
        if i < s.len() {
            lemma_find_sub_from(s, pat, i + 1);
        } else {
            assert(find_sub_from(s, pat, i + 1) == s.len() as int + 1);
        }
    }
}

/// Relates the executable search to the specification-level index.
proof fn lemma_find_sub_agree(s: Seq<char>, pat: Seq<char>, r: Option<usize>)
    requires
        match r {
            Some(k) => match_at(s, pat, k as int) && forall|j: int|
                0 <= j < k ==> !match_at(s, pat, j),
            None => !contains_sub(s, pat),
        },
    ensures
        match r {
            Some(k) => find_sub_from(s, pat, 0) == k as int,
            None => find_sub_from(s, pat, 0) == s.len() + 1,
        },
{
    lemma_find_sub_from(s, pat, 0);
    let f = find_sub_from(s, pat, 0);
    match r {
        Some(k) => {
            if f < k as int {
                assert(!match_at(s, pat, f));
            }
            if f > k as int {
                assert(!match_at(s, pat, k as int));
            }
        },
        None => {
            if f <= s.len() {
                assert(match_at(s, pat, f));
                assert(contains_sub(s, pat));
            }
        },
    }
}

/// A trimmed block line with one leading `#` removed, when there is one.
pub open spec fn strip_hash(l: Seq<char>) -> Seq<char> {
    if l.len() > 0 && l[0] == '#' {
        l.drop_first()
    } else {
        l
    }
}

/// The payload lines of a parameter block: each line trimmed and
/// stripped of one leading `#`, blank results dropped.
pub open spec fn block_lines_of(ls: Seq<Seq<char>>) -> Seq<Seq<char>>
    decreases ls.len(),
{
    if ls.len() == 0 {
        Seq::empty()
    } else {
        let prev = block_lines_of(ls.drop_last());
        let h = strip_hash(trim_spec(ls.last()));
        if h.len() > 0 {
            prev + seq![h]
        } else {
            prev
        }
    }
}

/// The payload lines joined by single newlines.
pub open spec fn join_newline(ls: Seq<Seq<char>>) -> Seq<char>
    decreases ls.len(),
{
    if ls.len() == 0 {
        Seq::empty()
    } else if ls.len() == 1 {
        ls[0]
    } else {
        join_newline(ls.drop_last()) + seq!['\n'] + ls.last()
    }
}

/// Whether a text parses as JSON: a function of the text alone.
pub uninterp spec fn json_valid(s: Seq<char>) -> bool;

/// Relies on `serde_json::from_str::<serde_json::Value>`: whether the
/// text is well-formed JSON depends on the text alone.
#[verifier::external_body]
fn validate_json(s: &str) -> (r: bool)
    ensures
        r == json_valid(s@),
{
    serde_json::from_str::<serde_json::Value>(s).is_ok()
}

/// The parameter block of a script text, if the two sentinel lines are
/// present in order, the payload between them is non-blank, and the
/// joined payload is valid JSON.
pub open spec fn json_block_spec(content: Seq<char>) -> Option<Seq<char>> {
    let sm = "#JSON_PARAMS_START"@;
    let em = "#JSON_PARAMS_END"@;
    let st = find_sub_from(content, sm, 0);
    let en = find_sub_from(content, em, 0);
    if st > content.len() || en > content.len() || en < st + sm.len() {
        None
    } else {
        let section = content.subrange(st + sm.len() as int, en);
        let pieces = block_lines_of(split_lines_spec(section));
        if pieces.len() == 0 {
            None
        } else {
            let joined = join_newline(pieces);
            if json_valid(joined) {
                Some(joined)
            } else {
                None
            }
        }
    }
}

impl ScriptScanner {
    /// Extracts the JSON parameter block delimited by the sentinel lines,
    /// joining the `#`-stripped payload lines; a malformed block yields
    /// nothing while the rest of the record is unaffected.
    pub fn extract_json_parameters(&self, content: &str) -> (r: Option<String>)
        ensures
            crate::models::opt_view(r) == json_block_spec(content@),
    {
        let n = content.unicode_len();
        let st_opt = crate::text::find_str(content, "#JSON_PARAMS_START");
        let en_opt = crate::text::find_str(content, "#JSON_PARAMS_END");
        proof {
            lemma_find_sub_agree(content@, "#JSON_PARAMS_START"@, st_opt);
            lemma_find_sub_agree(content@, "#JSON_PARAMS_END"@, en_opt);
        }
        let (st, en) = match (st_opt, en_opt) {
            (Some(st), Some(en)) => (st, en),
            _ => {
                return None;
            },
        };
        let sm_len = "#JSON_PARAMS_START".unicode_len();
        if en < st || en - st < sm_len {
            return None;
        }
        let section = content.substring_char(st + sm_len, en);
        let lines = crate::text::split_lines(section);
        let mut pieces: Vec<String> = Vec::new();
        let mut i: usize = 0;
        proof {
            assert(str_views(pieces@) =~= Seq::<Seq<char>>::empty());
            assert(str_views(lines@).subrange(0, 0) =~= Seq::<Seq<char>>::empty());
        }
        while i < lines.len()
            invariant
                i <= lines.len(),
                str_views(lines@) == split_lines_spec(section@),
                str_views(pieces@) == block_lines_of(str_views(lines@).subrange(0, i as int)),
            decreases lines.len() - i,
        {
            let ghost prev = str_views(pieces@);
            let t = crate::text::trim_str(lines[i].as_str());
            let tn = t.unicode_len();
            let stripped = if tn > 0 && t.get_char(0) == '#' {
                t.substring_char(1, tn)
            } else {
                t
            };
            proof {
                assert(str_views(lines@)[i as int] == lines@[i as int]@);
                if tn > 0 && t@[0] == '#' {
                    assert(t@.drop_first() =~= t@.subrange(1, tn as int));
                }
                assert(stripped@ == strip_hash(trim_spec(lines@[i as int]@)));
            }
            if stripped.unicode_len() > 0 {
                pieces.push(String::from_str(stripped));
                proof {
                    assert(str_views(pieces@) =~= prev + seq![stripped@]);
                }
            }
            proof {
                let lv = str_views(lines@);
                assert(lv.subrange(0, i + 1).drop_last() =~= lv.subrange(0, i as int));
                assert(lv.subrange(0, i + 1).last() == lv[i as int]);
            }
            i = i + 1;
        }
        proof {
            let lv = str_views(lines@);
            assert(lv.subrange(0, lv.len() as int) =~= lv);
        }
        if pieces.len() == 0 {
            return None;
        }
        let mut joined = String::new();
        let mut k: usize = 0;
        while k < pieces.len()
            invariant
                k <= pieces.len(),
                pieces.len() > 0,
                str_views(pieces@) == block_lines_of(split_lines_spec(section@)),
                k > 0 ==> joined@ == join_newline(str_views(pieces@).subrange(0, k as int)),
                k == 0 ==> joined@ == Seq::<char>::empty(),
            decreases pieces.len() - k,
        {
            let ghost pv = str_views(pieces@);
            if k > 0 {
                joined.append("\n");
            }
            joined.append(pieces[k].as_str());
            proof {
                reveal_strlit("\n");
                assert(pv.subrange(0, k + 1).drop_last() =~= pv.subrange(0, k as int));
                assert(pv.subrange(0, k + 1).last() == pv[k as int]);
                if k == 0 {
                    assert(joined@ =~= pv.subrange(0, 1)[0]);
                } else {
                    assert(joined@ =~= join_newline(pv.subrange(0, k as int)) + seq!['\n']
                        + pv[k as int]);
                }
            }
            k = k + 1;
        }
        proof {
            let pv = str_views(pieces@);
            assert(pv.subrange(0, pv.len() as int) =~= pv);
        }
        if validate_json(joined.as_str()) {
            Some(joined)
        } else {
            None
        }
    }
}

/// The largest index holding `c`, or `-1` when `c` does not occur.
pub open spec fn last_index_of(s: Seq<char>, c: char) -> int
    decreases s.len(),
{
    if s.len() == 0 {
        -1
    } else if s.last() == c {
        s.len() - 1
    } else {
        last_index_of(s.drop_last(), c)
    }
}

/// The largest index of `c` in `s`, scanning from the end.
fn rfind_char(s: &str, c: char) -> (r: Option<usize>)
    ensures
        match r {
            Some(k) => k < s@.len() && last_index_of(s@, c) == k as int,
            None => last_index_of(s@, c) == -1,
        },
{
    let n = s.unicode_len();
    let mut j: usize = n;
    proof {
        assert(s@.subrange(0, n as int) =~= s@);
    }
    while j > 0 && s.get_char(j - 1) != c
        invariant
            n == s@.len(),
            j <= n,
            last_index_of(s@, c) == last_index_of(s@.subrange(0, j as int), c),
        decreases j,
    {
        proof {
            let sub = s@.subrange(0, j as int);
            assert(sub.last() == s@[j - 1]);
            assert(sub.drop_last() =~= s@.subrange(0, j - 1));
        }
        j = j - 1;
    }
    if j == 0 {
        proof {
            assert(s@.subrange(0, 0) =~= Seq::<char>::empty());
        }
        None
    } else {
        proof {
            let sub = s@.subrange(0, j as int);
            assert(sub.last() == s@[j - 1]);
        }
        Some(j - 1)
    }
}

/// The path with every separator replaced by the namespace separator.
pub open spec fn replace_sep(s: Seq<char>) -> Seq<char>
    decreases s.len(),
{
    if s.len() == 0 {
        Seq::empty()
    } else if s[0] == '/' {
        "::"@ + replace_sep(s.drop_first())
    } else {
        seq![s[0]] + replace_sep(s.drop_first())
    }
}

/// Where a relative path's parent part ends: at its last separator, or
/// just after a separator that leads the path, whose parent is the root
/// separator itself.
pub open spec fn parent_end(rel: Seq<char>) -> int {
    if last_index_of(rel, '/') == 0 {
        1
    } else {
        last_index_of(rel, '/')
    }
}

/// The category a file's relative path puts it in: the sentinel for files
/// directly under the root, else the parent path with separators replaced
/// by the namespace separator — a path led by its only separator gets the
/// bare namespace separator, never an empty category.
pub open spec fn category_of(rel: Seq<char>) -> Seq<char> {
    if last_index_of(rel, '/') < 0 {
        "TopLevel"@
    } else {
        replace_sep(rel.subrange(0, parent_end(rel)))
    }
}

impl ScriptScanner {
    /// Derives the category from a path relative to the scan root.
    pub fn determine_category(&self, relative_path: &str) -> (r: String)
        ensures
            r@ == category_of(relative_path@),
    {
        let sep = rfind_char(relative_path, '/');
        let j = match sep {
            Some(k) => k,
            None => {
                return String::from_str("TopLevel");
            },
        };
        let pe = if j == 0 {
            1
        } else {
            j
        };
        let n = relative_path.unicode_len();
        let mut out = String::new();
        let mut i: usize = 0;
        while i < pe
            invariant
                pe <= n,
                pe as int == parent_end(relative_path@),
                n == relative_path@.len(),
                i <= pe,
                out@ + replace_sep(relative_path@.subrange(i as int, pe as int)) == replace_sep(
                    relative_path@.subrange(0, pe as int),
                ),
            decreases pe - i,
        {
            let ghost tail = relative_path@.subrange(i as int, pe as int);
            let c = relative_path.get_char(i);
            proof {
                assert(tail[0] == relative_path@[i as int]);
                assert(tail.drop_first() =~= relative_path@.subrange(i + 1, pe as int));
            }
            if c == '/' {
                out.append("::");
            } else {
                out.append(relative_path.substring_char(i, i + 1));
                proof {
                    assert(relative_path@.subrange(i as int, i + 1) =~= seq![c]);
                }
            }
            i = i + 1;
        }
        proof {
            assert(replace_sep(relative_path@.subrange(pe as int, pe as int)) =~= Seq::<
                char,
            >::empty());
            assert(out@ =~= out@ + replace_sep(relative_path@.subrange(pe as int, pe as int)));
        }
        out
    }
}

/// The file name part of a path: everything after the last separator.
pub open spec fn base_name(path: Seq<char>) -> Seq<char> {
    path.subrange(last_index_of(path, '/') + 1, path.len() as int)
}

/// The file stem: the base name up to its last dot, except that a lone
/// leading dot starts the stem rather than an extension.
pub open spec fn stem_of(path: Seq<char>) -> Seq<char> {
    let b = base_name(path);
    let d = last_index_of(b, '.');
    if d <= 0 {
        b
    } else {
        b.subrange(0, d)
    }
}

/// The name a parsed entry gets: the file stem, with a fallback for
/// degenerate paths that have none.
pub open spec fn name_of(path: Seq<char>) -> Seq<char> {
    if stem_of(path).len() == 0 {
        "unknown"@
    } else {
        stem_of(path)
    }
}

/// The base name and stem of a path.
fn split_stem(path: &str) -> (r: String)
    ensures
        r@ == name_of(path@),
{
    let n = path.unicode_len();
    let bstart = match rfind_char(path, '/') {
        Some(k) => k + 1,
        None => 0,
    };
    proof {
        if last_index_of(path@, '/') < 0 {
            assert(path@.subrange(0, n as int) =~= path@);
        }
    }
    let base = path.substring_char(bstart, n);
    let bn = base.unicode_len();
    let stem = match rfind_char(base, '.') {
        Some(d) if d > 0 => base.substring_char(0, d),
        _ => base,
    };
    proof {
        if last_index_of(base@, '.') <= 0 {
            assert(base@.subrange(0, bn as int) =~= base@);
        }
    }
    if stem.unicode_len() == 0 {
        String::from_str("unknown")
    } else {
        String::from_str(stem)
    }
}

/// Whether a path names a script file: its base name has a non-empty
/// stem followed by the script extension.
pub open spec fn is_script_path(path: Seq<char>) -> bool {
    let b = base_name(path);
    let d = last_index_of(b, '.');
    d > 0 && b.subrange(d + 1, b.len() as int) == "sh"@
}

/// Whether the path carries the script extension, as the tree walk
/// selects files.
pub fn has_script_extension(path: &str) -> (r: bool)
    ensures
        r == is_script_path(path@),
{
    let n = path.unicode_len();
    let bstart = match rfind_char(path, '/') {
        Some(k) => k + 1,
        None => 0,
    };
    proof {
        if last_index_of(path@, '/') < 0 {
            assert(path@.subrange(0, n as int) =~= path@);
        }
    }
    let base = path.substring_char(bstart, n);
    let bn = base.unicode_len();
    match rfind_char(base, '.') {
        Some(d) if d > 0 => crate::text::str_eq(base.substring_char(d + 1, bn), "sh"),
        _ => false,
    }
}

/// A path relative to a root, as a component-wise prefix strip: the path
/// itself when the root is not a prefix of it.
pub open spec fn rel_path_of(path: Seq<char>, root: Seq<char>) -> Seq<char> {
    if path == root {
        Seq::empty()
    } else if root.len() > 0 && root.last() == '/' && has_prefix(path, root) {
        path.subrange(root.len() as int, path.len() as int)
    } else if has_prefix(path, root) && path.len() > root.len() && path[root.len() as int] == '/' {
        path.subrange(root.len() as int + 1, path.len() as int)
    } else {
        path
    }
}

impl ScriptScanner {
    /// Strips the scanner's root from a path, when it is a prefix.
    fn relative_path(&self, path: &str) -> (r: String)
        ensures
            r@ == rel_path_of(path@, self@),
    {
        let n = path.unicode_len();
        let m = self.toolbox_path.unicode_len();
        if crate::text::str_eq(path, self.toolbox_path.as_str()) {
            return String::new();
        }
        if !crate::text::starts_with_str(path, self.toolbox_path.as_str()) {
            proof {
                assert(path@.subrange(0, n as int) =~= path@);
            }
            return String::from_str(path);
        }
        if m > 0 && self.toolbox_path.as_str().get_char(m - 1) == '/' {
            return String::from_str(path.substring_char(m, n));
        }
        if n > m && path.get_char(m) == '/' {
            return String::from_str(path.substring_char(m + 1, n));
        }
        proof {
            assert(path@.subrange(0, n as int) =~= path@);
        }
        String::from_str(path)
    }
}

/// A scanned file lands in the sentinel top-level category exactly when
/// its relative path names no directory, that is, when its parent is the
/// scan root itself; otherwise its category is the relative directory
/// path with separators replaced by the namespace separator. The
/// proviso excludes a directory tree whose own replaced name spells the
/// sentinel.
pub proof fn lemma_category_rule(rel: Seq<char>)
    requires
        last_index_of(rel, '/') >= 0 ==> replace_sep(rel.subrange(0, parent_end(rel)))
            != "TopLevel"@,
    ensures
        (category_of(rel) == "TopLevel"@) <==> last_index_of(rel, '/') < 0,
        last_index_of(rel, '/') >= 0 ==> category_of(rel) == replace_sep(
            rel.subrange(0, parent_end(rel)),
        ),
{
}

/// Rebuilding from unchanged input yields the identical ordered
/// sequence: two canonically sorted arrangements of the same entries
/// are equal whenever no two entries share both category and name — as
/// entries scanned from distinct paths never do — so the catalog's
/// order does not depend on the order the walk delivered the files in.
pub proof fn lemma_scan_order_canonical(x: Seq<ScriptV>, y: Seq<ScriptV>)
    requires
        vstd::relations::sorted_by(x, script_le_fn()),
        vstd::relations::sorted_by(y, script_le_fn()),
        x.to_multiset() == y.to_multiset(),
        forall|i: int, j: int|
            0 <= i < j < x.len() ==> !((#[trigger] x[i]).category == (#[trigger] x[j]).category
                && x[i].name == x[j].name),
    ensures
        x =~= y,
{
    lemma_script_le_properties();
    let le = script_le_fn();
    assert forall|i: int, j: int| 0 <= i < j < x.len() implies !(#[trigger] le(x[i], x[j]) && le(
        x[j],
        x[i],
    )) by {
        if le(x[i], x[j]) && le(x[j], x[i]) {
            if crate::text::lex_le(x[i].category, x[j].category) && crate::text::lex_le(
                x[j].category,
                x[i].category,
            ) {
                crate::text::lemma_lex_le_antisym(x[i].category, x[j].category);
            }
            crate::text::lemma_lex_le_antisym(x[i].name, x[j].name);
        }
    }
    crate::order::lemma_sorted_unique_no_ties(x, y, script_le_fn());
}

/// A record with its clock stamps blanked: what two scans of unchanged
/// input must agree on, since only the stamps come from the clock.
pub open spec fn script_essence(s: ScriptV) -> ScriptV {
    ScriptV { created_at: 0, updated_at: 0, ..s }
}

proof fn lemma_apply_lines_essence(m1: ScriptV, m2: ScriptV, lines: Seq<Seq<char>>)
    requires
        script_essence(m1) == script_essence(m2),
    ensures
        script_essence(apply_lines(m1, lines)) == script_essence(apply_lines(m2, lines)),
    decreases lines.len(),
{
    if lines.len() > 0 {
        lemma_apply_lines_essence(m1, m2, lines.drop_last());
        let a = apply_lines(m1, lines.drop_last());
        let b = apply_lines(m2, lines.drop_last());
        let l = lines.last();
        assert(script_essence(apply_line(a, l)) =~= script_essence(apply_line(b, l)));
    }
}

/// Parsing is deterministic: two parses of the same root, path and text,
/// made at different moments, agree on every field except the clock
/// stamps.
pub proof fn lemma_parse_deterministic(
    root: Seq<char>,
    path: Seq<char>,
    content: Seq<char>,
    t1: i64,
    t2: i64,
)
    ensures
        script_essence(spec_parse_script(root, path, content, t1)) == script_essence(
            spec_parse_script(root, path, content, t2),
        ),
{
    let rel = rel_path_of(path, root);
    let base1 = ScriptV {
        id: None,
        name: name_of(path),
        path: path,
        category: category_of(rel),
        menu_name: None,
        description: None,
        detailed_description: None,
        integration: None,
        info_url: None,
        icon: None,
        color: None,
        order: None,
        is_default: false,
        separator: None,
        tags: Seq::empty(),
        author: None,
        parameters: None,
        dependency_available: true,
        created_at: t1,
        updated_at: t1,
    };
    let base2 = ScriptV { created_at: t2, updated_at: t2, ..base1 };
    assert(script_essence(base1) =~= script_essence(base2));
    lemma_apply_lines_essence(base1, base2, capped_lines(content));
    assert(script_essence(spec_parse_script(root, path, content, t1)) =~= script_essence(
        spec_parse_script(root, path, content, t2),
    ));
}

/// The essences of a catalog's records.
pub open spec fn essences(s: Seq<ScriptV>) -> Seq<ScriptV> {
    s.map_values(|x: ScriptV| script_essence(x))
}

/// Rebuilding unchanged input reproduces the catalog up to clock stamps:
/// two canonically sorted catalogs whose timestamp-free records form the
/// same multiset, with pairwise distinct (category, name) keys, agree
/// record for record on everything but the stamps.
pub proof fn lemma_scan_essence_canonical(x: Seq<ScriptV>, y: Seq<ScriptV>)
    requires
        vstd::relations::sorted_by(x, script_le_fn()),
        vstd::relations::sorted_by(y, script_le_fn()),
        essences(x).to_multiset() == essences(y).to_multiset(),
        forall|i: int, j: int|
            0 <= i < j < x.len() ==> !((#[trigger] x[i]).category == (#[trigger] x[j]).category
                && x[i].name == x[j].name),
    ensures
        essences(x) =~= essences(y),
{
    let ex = essences(x);
    let ey = essences(y);
    let le = script_le_fn();
    lemma_script_le_properties();
    assert forall|i: int, j: int| 0 <= i < j < ex.len() implies #[trigger] le(ex[i], ex[j]) by {
        assert(ex[i] == script_essence(x[i]));
        assert(ex[j] == script_essence(x[j]));
        assert(le(x[i], x[j]));
    }
    assert forall|i: int, j: int| 0 <= i < j < ey.len() implies #[trigger] le(ey[i], ey[j]) by {
        assert(ey[i] == script_essence(y[i]));
        assert(ey[j] == script_essence(y[j]));
        assert(le(y[i], y[j]));
    }
    assert forall|i: int, j: int| 0 <= i < j < ex.len() implies !(#[trigger] le(ex[i], ex[j])
        && le(ex[j], ex[i])) by {
        assert(ex[i] == script_essence(x[i]));
        assert(ex[j] == script_essence(x[j]));
        if le(ex[i], ex[j]) && le(ex[j], ex[i]) {
            if crate::text::lex_le(x[i].category, x[j].category) && crate::text::lex_le(
                x[j].category,
                x[i].category,
            ) {
                crate::text::lemma_lex_le_antisym(x[i].category, x[j].category);
            }
            crate::text::lemma_lex_le_antisym(x[i].name, x[j].name);
        }
    }
    crate::order::lemma_sorted_unique_no_ties(ex, ey, le);
}

/// Sorting an already canonically sorted catalog changes nothing, so a
/// repeated rebuild of unchanged records is a fixed point.
pub proof fn lemma_sort_scripts_idempotent(s: Seq<ScriptV>)
    requires
        vstd::relations::sorted_by(s, script_le_fn()),
    ensures
        crate::order::spec_sort(s, script_le_fn()) =~= s,
{
    crate::order::lemma_sort_of_sorted(s, script_le_fn());
}

/// Excludes every directive branch before the order directive for a
/// line that carries the order tag.
proof fn lemma_order_line_exclusive(lt: Seq<char>)
    requires
        directive_matches(lt, "#MORDER"@),
    ensures
        !directive_matches(lt, "#MN"@),
        !directive_matches(lt, "#MD"@),
        !directive_matches(lt, "#MDD"@),
        !directive_matches(lt, "#MI"@),
        !directive_matches(lt, "#INFO"@),
        !directive_matches(lt, "#MICON"@),
        !directive_matches(lt, "#MCOLOR"@),
        !directive_matches(lt, "#MDEFAULT"@),
        !directive_matches(lt, "#MSEPARATOR"@),
        !directive_matches(lt, "#MTAGS"@),
        !directive_matches(lt, "#MAUTHOR"@),
{
    reveal_strlit("#MORDER");
    reveal_strlit("#MN");
    reveal_strlit("#MD");
    reveal_strlit("#MDD");
    reveal_strlit("#MI");
    reveal_strlit("#INFO");
    reveal_strlit("#MICON");
    reveal_strlit("#MCOLOR");
    reveal_strlit("#MDEFAULT");
    reveal_strlit("#MSEPARATOR");
    reveal_strlit("#MTAGS");
    reveal_strlit("#MAUTHOR");
    crate::text::lemma_prefix_char(lt, "#MORDER"@, 2);
    crate::text::lemma_prefix_char(lt, "#MORDER"@, 3);
    if has_prefix(lt, "#MN"@) {
        assert(!is_space_char(lt[3]));
    }
    if has_prefix(lt, "#MD"@) {
        assert(!is_space_char(lt[3]));
    }
    if has_prefix(lt, "#MDD"@) {
        crate::text::lemma_prefix_char(lt, "#MDD"@, 2);
    }
    if has_prefix(lt, "#MI"@) {
        crate::text::lemma_prefix_char(lt, "#MI"@, 2);
    }
    if has_prefix(lt, "#INFO"@) {
        crate::text::lemma_prefix_char(lt, "#INFO"@, 1);
        crate::text::lemma_prefix_char(lt, "#MORDER"@, 1);
    }
    if has_prefix(lt, "#MICON"@) {
        crate::text::lemma_prefix_char(lt, "#MICON"@, 2);
    }
    if has_prefix(lt, "#MCOLOR"@) {
        crate::text::lemma_prefix_char(lt, "#MCOLOR"@, 2);
    }
    if has_prefix(lt, "#MDEFAULT"@) {
        crate::text::lemma_prefix_char(lt, "#MDEFAULT"@, 2);
    }
    if has_prefix(lt, "#MSEPARATOR"@) {
        crate::text::lemma_prefix_char(lt, "#MSEPARATOR"@, 2);
    }
    if has_prefix(lt, "#MTAGS"@) {
        crate::text::lemma_prefix_char(lt, "#MTAGS"@, 2);
    }
    if has_prefix(lt, "#MAUTHOR"@) {
        crate::text::lemma_prefix_char(lt, "#MAUTHOR"@, 2);
    }
}

/// Anything beyond the scanned window is ignored: two texts whose first
/// fifty lines agree parse to the same record, however they go on.
pub proof fn lemma_window_bound(m: ScriptV, c1: Seq<char>, c2: Seq<char>)
    requires
        split_lines_spec(c1).len() >= DIRECTIVE_WINDOW as int,
        split_lines_spec(c2).len() >= DIRECTIVE_WINDOW as int,
        split_lines_spec(c1).subrange(0, DIRECTIVE_WINDOW as int) == split_lines_spec(
            c2,
        ).subrange(0, DIRECTIVE_WINDOW as int),
    ensures
        apply_lines(m, capped_lines(c1)) == apply_lines(m, capped_lines(c2)),
{
    if split_lines_spec(c1).len() == DIRECTIVE_WINDOW as int {
        assert(capped_lines(c1) =~= split_lines_spec(c1).subrange(0, DIRECTIVE_WINDOW as int));
    }
    if split_lines_spec(c2).len() == DIRECTIVE_WINDOW as int {
        assert(capped_lines(c2) =~= split_lines_spec(c2).subrange(0, DIRECTIVE_WINDOW as int));
    }
}

/// A run of lines none of which carries the order directive leaves the
/// order exactly as it was: together with the window bound, a file whose
/// only order directive sits past the fiftieth line parses with the
/// order unset, and the sort-time default applies.
pub proof fn lemma_order_untouched(m: ScriptV, lines: Seq<Seq<char>>)
    requires
        forall|k: int|
            0 <= k < lines.len() ==> !directive_matches(
                trim_spec(#[trigger] lines[k]),
                "#MORDER"@,
            ),
    ensures
        apply_lines(m, lines).order == m.order,
    decreases lines.len(),
{
    if lines.len() > 0 {
        assert(forall|k: int|
            0 <= k < lines.drop_last().len() ==> !directive_matches(
                trim_spec(#[trigger] lines.drop_last()[k]),
                "#MORDER"@,
            ));
        lemma_order_untouched(m, lines.drop_last());
    }
}

/// Directive parsing is last-wins: a well-formed order directive late in
/// the scanned window sets the order to its value, whatever any earlier
/// line set it to.
pub proof fn lemma_order_last_wins(m: ScriptV, lines: Seq<Seq<char>>, l: Seq<char>)
    requires
        directive_matches(trim_spec(l), "#MORDER"@),
        all_digits(directive_value(trim_spec(l), "#MORDER"@)),
        digits_val(directive_value(trim_spec(l), "#MORDER"@)) <= i32::MAX,
    ensures
        apply_lines(m, lines.push(l)).order == Some(
            digits_val(directive_value(trim_spec(l), "#MORDER"@)) as i32,
        ),
{
    lemma_order_line_exclusive(trim_spec(l));
    assert(lines.push(l).drop_last() =~= lines);
    assert(lines.push(l).last() == l);
}

/// An order directive whose value is not a digit run leaves the order
/// exactly as it was, so the sort-time default applies to an entry that
/// never received a well-formed one.
pub proof fn lemma_bad_order_ignored(m: ScriptV, lines: Seq<Seq<char>>, l: Seq<char>)
    requires
        directive_matches(trim_spec(l), "#MORDER"@),
        !all_digits(directive_value(trim_spec(l), "#MORDER"@)),
    ensures
        apply_lines(m, lines.push(l)) == apply_lines(m, lines),
{
    lemma_order_line_exclusive(trim_spec(l));
    assert(lines.push(l).drop_last() =~= lines);
    assert(lines.push(l).last() == l);
}

/// How a declared integration identifier is to be checked.
#[derive(Clone, Copy, PartialEq, Eq, Structural, Debug)]
pub enum IntegrationKind {
    NoDependency,
    SkipListed,
    AbsolutePath,
    Command,
}

/// The outcomes of the system probes an availability decision consumes:
/// whether the integration path exists, whether the command was found on
/// the executable search path, and what the two package-query mechanisms
/// report. A probe that could not run reports `false`.
#[derive(Clone, Copy, PartialEq, Eq, Structural, Debug)]
pub struct DependencyProbes {
    pub path_exists: bool,
    pub found_on_path: bool,
    pub dpkg_reports_installed: bool,
    pub rpm_reports_installed: bool,
}

/// Pseudo-category identifiers that name no command and count as
/// available.
pub open spec fn in_skip_list(s: Seq<char>) -> bool {
    ||| s == "ToolboxCore"@
    ||| s == "SystemUtilities"@
    ||| s == "LinuxTools"@
    ||| s == "NetworkUtils"@
    ||| s == "BackupUtilities"@
    ||| s == "Examples"@
}

/// Classifies an integration identifier.
pub open spec fn integration_kind(o: Option<Seq<char>>) -> IntegrationKind {
    match o {
        None => IntegrationKind::NoDependency,
        Some(s) => if in_skip_list(s) {
            IntegrationKind::SkipListed
        } else if s.len() > 0 && s[0] == '/' {
            IntegrationKind::AbsolutePath
        } else {
            IntegrationKind::Command
        },
    }
}

/// The availability policy. An absent or skip-listed dependency counts
/// as available; an absolute path is available exactly when it exists;
/// a command is available only when some probe confirms it, so an
/// unconfirmed command defaults to not available, unlike the absent
/// case.
pub open spec fn spec_available(o: Option<Seq<char>>, p: DependencyProbes) -> bool {
    match integration_kind(o) {
        IntegrationKind::NoDependency => true,
        IntegrationKind::SkipListed => true,
        IntegrationKind::AbsolutePath => p.path_exists,
        IntegrationKind::Command => p.found_on_path || p.dpkg_reports_installed
            || p.rpm_reports_installed,
    }
}

/// An entry whose integration is an absolute path is available exactly
/// when that path exists, whatever any package query reports.
pub proof fn lemma_absolute_path_availability(
    o: Option<Seq<char>>,
    p1: DependencyProbes,
    p2: DependencyProbes,
)
    requires
        integration_kind(o) == IntegrationKind::AbsolutePath,
        p1.path_exists == p2.path_exists,
    ensures
        spec_available(o, p1) == p1.path_exists,
        spec_available(o, p1) == spec_available(o, p2),
{
}

impl ScriptScanner {
    /// Decides availability for the entry's declared integration from
    /// the given probe outcomes.
    pub fn check_dependency_available(&self, script: &Script, probes: &DependencyProbes) -> (r:
        bool)
        ensures
            r == spec_available(script@.integration, *probes),
    {
        let integration = match &script.integration {
            None => {
                return true;
            },
            Some(s) => s,
        };
        let i = integration.as_str();
        if crate::text::str_eq(i, "ToolboxCore") || crate::text::str_eq(i, "SystemUtilities")
            || crate::text::str_eq(i, "LinuxTools") || crate::text::str_eq(i, "NetworkUtils")
            || crate::text::str_eq(i, "BackupUtilities") || crate::text::str_eq(i, "Examples") {
            return true;
        }
        if i.unicode_len() > 0 && i.get_char(0) == '/' {
            return probes.path_exists;
        }
        probes.found_on_path || probes.dpkg_reports_installed || probes.rpm_reports_installed
    }

    /// Records the availability decision on the entry.
    pub fn apply_availability(&self, script: &mut Script, probes: &DependencyProbes)
        ensures
            final(script)@ == (ScriptV {
                dependency_available: spec_available(old(script)@.integration, *probes),
                ..old(script)@
            }),
    {
        let ok = self.check_dependency_available(script, probes);
        script.dependency_available = ok;
        proof {
            assert(script@ =~= ScriptV {
                dependency_available: spec_available(old(script)@.integration, *probes),
                ..old(script)@
            });
        }
    }
}

/// The strict part of the lexicographic order.
pub open spec fn lex_lt(a: Seq<char>, b: Seq<char>) -> bool {
    crate::text::lex_le(a, b) && a != b
}

/// The effective order number an entry sorts by.
pub open spec fn eff_order(s: ScriptV) -> int {
    crate::spec_effective_order(s.order)
}

/// The canonical catalog order: category, then order number with its
/// default, then name.
pub open spec fn script_le(a: ScriptV, b: ScriptV) -> bool {
    ||| lex_lt(a.category, b.category)
    ||| (a.category == b.category && eff_order(a) < eff_order(b))
    ||| (a.category == b.category && eff_order(a) == eff_order(b) && crate::text::lex_le(
        a.name,
        b.name,
    ))
}

/// The canonical order as a relation value.
pub open spec fn script_le_fn() -> spec_fn(ScriptV, ScriptV) -> bool {
    |a: ScriptV, b: ScriptV| script_le(a, b)
}

/// The canonical order is a total preorder.
pub proof fn lemma_script_le_properties()
    ensures
        vstd::relations::transitive(script_le_fn()),
        vstd::relations::strongly_connected(script_le_fn()),
{
    let le = script_le_fn();
    assert forall|a: ScriptV, b: ScriptV, c: ScriptV| #[trigger] le(a, b) && #[trigger] le(b, c)
        implies le(a, c) by {
        let ca = a.category;
        let cb = b.category;
        let cc = c.category;
        if ca == cb && cb == cc {
            if eff_order(a) == eff_order(b) && eff_order(b) == eff_order(c) {
                crate::text::lemma_lex_le_trans(a.name, b.name, c.name);
            }
        } else if ca == cb || cb == cc {
        } else {
            crate::text::lemma_lex_le_trans(ca, cb, cc);
            if ca == cc {
                crate::text::lemma_lex_le_antisym(ca, cb);
            }
        }
    }
    assert forall|a: ScriptV, b: ScriptV| #[trigger] le(a, b) || #[trigger] le(b, a) by {
        crate::text::lemma_lex_le_total(a.category, b.category);
        crate::text::lemma_lex_le_total(a.name, b.name);
        if crate::text::lex_le(a.category, b.category) && crate::text::lex_le(
            b.category,
            a.category,
        ) {
            crate::text::lemma_lex_le_antisym(a.category, b.category);
        }
    }
}

/// Compares two entries in the canonical order.
fn script_le_exec(a: &Script, b: &Script) -> (r: bool)
    ensures
        r == script_le(a@, b@),
{
    let cab = crate::text::lex_le_str(a.category.as_str(), b.category.as_str());
    let cba = crate::text::lex_le_str(b.category.as_str(), a.category.as_str());
    proof {
        if cab && cba {
            crate::text::lemma_lex_le_antisym(a@.category, b@.category);
        }
        if !cab {
            crate::text::lemma_lex_le_total(a@.category, b@.category);
        }
    }
    if cab && !cba {
        return true;
    }
    if !cab {
        return false;
    }
    let oa = crate::effective_order(a.order);
    let ob = crate::effective_order(b.order);
    if oa < ob {
        true
    } else if oa > ob {
        false
    } else {
        crate::text::lex_le_str(a.name.as_str(), b.name.as_str())
    }
}

/// Inserts one entry into a run kept in canonical order, after every
/// entry that compares less-or-equal to it.
fn insert_script(out: &mut Vec<Script>, x: Script)
    ensures
        crate::models::script_views(final(out)@) == crate::order::spec_insert(
            crate::models::script_views(old(out)@),
            x@,
            script_le_fn(),
        ),
{
    let ghost views0 = script_views(out@);
    let mut p: usize = 0;
    while p < out.len() && script_le_exec(&out[p], &x)
        invariant
            p <= out.len(),
            views0 == script_views(out@),
            forall|k: int| 0 <= k < p ==> script_le(#[trigger] views0[k], x@),
        decreases out.len() - p,
    {
        proof {
            assert(views0[p as int] == out@[p as int]@);
        }
        p = p + 1;
    }
    proof {
        if p < out.len() {
            assert(views0[p as int] == out@[p as int]@);
        }
        assert(forall|k: int| 0 <= k < p ==> script_le_fn()(#[trigger] views0[k], x@));
    }
    out.insert(p, x);
    proof {
        crate::order::lemma_insert_split(views0, x@, script_le_fn(), p as int);
        assert(script_views(out@) =~= views0.subrange(0, p as int) + seq![x@] + views0.subrange(
            p as int,
            views0.len() as int,
        ));
    }
}

/// Puts a scanned catalog into its canonical order: category ascending,
/// then order number ascending with the default for entries that declare
/// none, then name ascending; entries with equal keys keep their
/// relative order.
pub fn sort_scripts(scripts: &mut Vec<Script>)
    ensures
        crate::models::script_views(final(scripts)@) == crate::order::spec_sort(
            crate::models::script_views(old(scripts)@),
            script_le_fn(),
        ),
        vstd::relations::sorted_by(crate::models::script_views(final(scripts)@), script_le_fn()),
        crate::models::script_views(final(scripts)@).to_multiset() == crate::models::script_views(
            old(scripts)@,
        ).to_multiset(),
{
    proof {
        lemma_script_le_properties();
        crate::order::lemma_sort_ensures(script_views(old(scripts)@), script_le_fn());
    }
    let ghost orig = script_views(old(scripts)@);
    let mut out: Vec<Script> = Vec::new();
    proof {
        assert(script_views(out@) =~= Seq::<ScriptV>::empty());
        assert(orig.subrange(0, 0) =~= Seq::<ScriptV>::empty());
    }
    let ghost mut done: int = 0;
    while scripts.len() > 0
        invariant
            0 <= done <= orig.len(),
            script_views(scripts@) =~= orig.subrange(done, orig.len() as int),
            scripts@.len() == orig.len() - done,
            script_views(out@) == crate::order::spec_sort(orig.subrange(0, done), script_le_fn()),
        decreases scripts.len(),
    {
        let ghost pre = script_views(scripts@);
        let x = scripts.remove(0);
        proof {
            assert(x@ == pre[0]);
            assert(x@ == orig[done]);
            assert(script_views(scripts@) =~= pre.drop_first());
            assert(pre.drop_first() =~= orig.subrange(done + 1, orig.len() as int));
        }
        insert_script(&mut out, x);
        proof {
            let sub1 = orig.subrange(0, done + 1);
            assert(sub1.drop_last() =~= orig.subrange(0, done));
            assert(sub1.last() == orig[done]);
            done = done + 1;
        }
    }
    proof {
        assert(orig.subrange(0, done) =~= orig);
    }
    *scripts = out;
}

/// Directive lines touch only directive-driven fields: identity, path
/// naming, parameters, availability and timestamps pass through a scan
/// unchanged.
pub proof fn lemma_apply_lines_fixed(m: ScriptV, lines: Seq<Seq<char>>)
    ensures
        apply_lines(m, lines).id == m.id,
        apply_lines(m, lines).name == m.name,
        apply_lines(m, lines).path == m.path,
        apply_lines(m, lines).category == m.category,
        apply_lines(m, lines).parameters == m.parameters,
        apply_lines(m, lines).dependency_available == m.dependency_available,
        apply_lines(m, lines).created_at == m.created_at,
        apply_lines(m, lines).updated_at == m.updated_at,
    decreases lines.len(),
{
    if lines.len() > 0 {
        lemma_apply_lines_fixed(m, lines.drop_last());
    }
}

/// The record one file parses to: name and category derived from the
/// path, every directive in the scanned window applied last-wins, and
/// the validated parameter block, if any, attached.
pub open spec fn spec_parse_script(
    root: Seq<char>,
    path: Seq<char>,
    content: Seq<char>,
    ts: i64,
) -> ScriptV {
    let rel = rel_path_of(path, root);
    let base = ScriptV {
        id: None,
        name: name_of(path),
        path: path,
        category: category_of(rel),
        menu_name: None,
        description: None,
        detailed_description: None,
        integration: None,
        info_url: None,
        icon: None,
        color: None,
        order: None,
        is_default: false,
        separator: None,
        tags: Seq::empty(),
        author: None,
        parameters: None,
        dependency_available: true,
        created_at: ts,
        updated_at: ts,
    };
    ScriptV { parameters: json_block_spec(content), ..apply_lines(base, capped_lines(content)) }
}

impl ScriptScanner {
    /// Parses one script text into a catalog entry. Availability is
    /// decided separately, once the probes for the declared integration
    /// have run.
    pub fn parse_script(&self, path: &str, content: &str) -> (r: Script)
        ensures
            r@ == spec_parse_script(self@, path@, content@, r@.created_at),
            r@.created_at == r@.updated_at,
    {
        let rel = self.relative_path(path);
        let category = self.determine_category(rel.as_str());
        let name = split_stem(path);
        let mut script = crate::models::Script::new(name, String::from_str(path), category);
        let ghost base = ScriptV {
            id: None,
            name: name_of(path@),
            path: path@,
            category: category_of(rel_path_of(path@, self@)),
            menu_name: None,
            description: None,
            detailed_description: None,
            integration: None,
            info_url: None,
            icon: None,
            color: None,
            order: None,
            is_default: false,
            separator: None,
            tags: Seq::empty(),
            author: None,
            parameters: None,
            dependency_available: true,
            created_at: script@.created_at,
            updated_at: script@.created_at,
        };
        proof {
            assert(script@ =~= base);
        }
        self.extract_metadata(content, &mut script);
        proof {
            lemma_apply_lines_fixed(base, capped_lines(content@));
        }
        let params = self.extract_json_parameters(content);
        script.parameters = params;
        proof {
            assert(script@ =~= spec_parse_script(self@, path@, content@, script@.created_at));
        }
        script
    }
}

/// Traits of a script's text that the display layer adapts to.
pub struct ScriptFeatures {
    pub has_package_manager: bool,
    pub package_manager: Option<String>,
    pub is_interactive: bool,
    pub has_file_output: bool,
    pub has_conditional_flow: bool,
    pub is_dangerous: bool,
}

impl Default for ScriptFeatures {
    /// No feature detected.
    fn default() -> (r: ScriptFeatures)
        ensures
            !r.has_package_manager,
            r.package_manager is None,
            !r.is_interactive,
            !r.has_file_output,
            !r.has_conditional_flow,
            !r.is_dangerous,
    {
        ScriptFeatures {
            has_package_manager: false,
            package_manager: None,
            is_interactive: false,
            has_file_output: false,
            has_conditional_flow: false,
            is_dangerous: false,
        }
    }
}

/// Which package manager a script drives: the Debian one when its text
/// mentions it, else one of the RPM ones.
pub open spec fn spec_package_manager(c: Seq<char>) -> Option<Seq<char>> {
    if contains_sub(c, "apt "@) || contains_sub(c, "apt-get "@) {
        Some("apt"@)
    } else if contains_sub(c, "yum "@) || contains_sub(c, "dnf "@) {
        if contains_sub(c, "dnf "@) {
            Some("dnf"@)
        } else {
            Some("yum"@)
        }
    } else {
        None
    }
}

impl ScriptScanner {
    /// Detects, from the text alone, which display conveniences a script
    /// calls for: package-manager progress, interactivity, file output,
    /// conditional flow, and dangerous operations.
    pub fn detect_script_features(&self, content: &str) -> (r: ScriptFeatures)
        ensures
            r.has_package_manager == (contains_sub(content@, "apt "@) || contains_sub(
                content@,
                "apt-get "@,
            ) || contains_sub(content@, "yum "@) || contains_sub(content@, "dnf "@)),
            crate::models::opt_view(r.package_manager) == spec_package_manager(content@),
            r.is_interactive == (contains_sub(content@, "read "@) || contains_sub(
                content@,
                "dialog "@,
            )),
            r.has_file_output == (contains_sub(content@, "cat "@) || contains_sub(
                content@,
                "tail "@,
            ) || contains_sub(content@, "less "@)),
            r.has_conditional_flow == (contains_sub(content@, "if "@) && contains_sub(
                content@,
                "then"@,
            )),
            r.is_dangerous == (contains_sub(content@, "rm -rf"@) || contains_sub(
                content@,
                "sudo rm"@,
            ) || contains_sub(content@, "format"@) || contains_sub(content@, "mkfs"@)),
    {
        let mut features = ScriptFeatures::default();
        if crate::text::contains_str(content, "apt ") || crate::text::contains_str(
            content,
            "apt-get ",
        ) {
            features.has_package_manager = true;
            features.package_manager = Some(String::from_str("apt"));
        } else if crate::text::contains_str(content, "yum ") || crate::text::contains_str(
            content,
            "dnf ",
        ) {
            features.has_package_manager = true;
            features.package_manager = Some(
                if crate::text::contains_str(content, "dnf ") {
                    String::from_str("dnf")
                } else {
                    String::from_str("yum")
                },
            );
        }
        if crate::text::contains_str(content, "read ") || crate::text::contains_str(
            content,
            "dialog ",
        ) {
            features.is_interactive = true;
        }
        if crate::text::contains_str(content, "cat ") || crate::text::contains_str(
            content,
            "tail ",
        ) || crate::text::contains_str(content, "less ") {
            features.has_file_output = true;
        }
        if crate::text::contains_str(content, "if ") && crate::text::contains_str(
            content,
            "then",
        ) {
            features.has_conditional_flow = true;
        }
        if crate::text::contains_str(content, "rm -rf") || crate::text::contains_str(
            content,
            "sudo rm",
        ) || crate::text::contains_str(content, "format") || crate::text::contains_str(
            content,
            "mkfs",
        ) {
            features.is_dangerous = true;
        }
        features
    }
}

} // verus!
