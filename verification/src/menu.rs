//! The breadcrumb-driven navigation state machine: it owns the session
//! state and the catalog store, turns key input into state transitions,
//! and hands outward only what it cannot do itself — running a script,
//! showing help, ending the session. Rendering and input polling belong
//! to the surrounding program, which reads the state between events.
use vstd::prelude::*;
use vstd::string::*;

use crate::models::{
    item_views, script_views, MenuCategory, MenuCategoryV, MenuItem, MenuItemV, MenuState,
    MenuStateV, Script, ScriptV,
};
use crate::scanner::script_le_fn;
use crate::search::{spec_rank, SearchEngine};
use crate::store::{categories_spec, filter_category, filter_matching, search_le, Catalog};
use crate::text::{lower_of, str_views};

verus! {

/// One key of input, as the surrounding program reports it.
pub enum KeyInput {
    Char(char),
    CtrlChar(char),
    Up,
    Down,
    PageUp,
    PageDown,
    Home,
    End,
    Enter,
    Backspace,
    Esc,
    Help,
}

/// What the machine asks of the surrounding program after a transition.
pub enum MenuAction {
    Continue,
    Exit,
    ShowHelp,
    Execute(Script),
}

/// The mathematical value of an action.
#[verifier::ext_equal]
pub ghost enum MenuActionV {
    Continue,
    Exit,
    ShowHelp,
    Execute(ScriptV),
}

impl View for MenuAction {
    type V = MenuActionV;

    open spec fn view(&self) -> MenuActionV {
        match self {
            MenuAction::Continue => MenuActionV::Continue,
            MenuAction::Exit => MenuActionV::Exit,
            MenuAction::ShowHelp => MenuActionV::ShowHelp,
            MenuAction::Execute(s) => MenuActionV::Execute(s@),
        }
    }
}

/// The navigation invariant: whenever entries are on display the
/// selection lies within them.
pub open spec fn nav_wf(st: MenuStateV) -> bool {
    st.filtered_items.len() > 0 ==> 0 <= st.selected_index < st.filtered_items.len()
}

/// Entering a category pushes exactly one breadcrumb element and moves
/// the view there.
pub open spec fn spec_enter_category(st: MenuStateV, cat: Seq<char>) -> MenuStateV {
    MenuStateV {
        breadcrumb: st.breadcrumb.push(cat),
        current_category: cat,
        selected_index: 0,
        ..st
    }
}

/// Going back pops the breadcrumb, unless only the root element is
/// left, and resolves the view to the new top.
pub open spec fn spec_go_back(st: MenuStateV) -> MenuStateV {
    if st.breadcrumb.len() > 1 {
        let bc = st.breadcrumb.drop_last();
        let parent = bc.last();
        let cur = if parent == "Home"@ {
            "root"@
        } else {
            parent
        };
        MenuStateV { breadcrumb: bc, current_category: cur, selected_index: 0, ..st }
    } else {
        MenuStateV { selected_index: 0, ..st }
    }
}

/// Going home resets the session to the root view and clears search.
pub open spec fn spec_go_home(st: MenuStateV) -> MenuStateV {
    MenuStateV {
        breadcrumb: seq!["Home"@],
        current_category: "root"@,
        selected_index: 0,
        search_mode: false,
        search_query: Seq::<char>::empty(),
        ..st
    }
}

/// Leaving search clears the buffer and the selection and returns to
/// the menu view.
pub open spec fn spec_exit_search(st: MenuStateV) -> MenuStateV {
    MenuStateV {
        search_mode: false,
        search_query: Seq::<char>::empty(),
        selected_index: 0,
        ..st
    }
}

/// Where a movement by `delta` lands: clamped to the entry range, and
/// stepped one further in the travel direction when it would land on a
/// separator, staying put when the boundary forbids that step.
pub open spec fn move_sel(items: Seq<MenuItemV>, cur: int, delta: int) -> int {
    if items.len() == 0 {
        cur
    } else {
        let maxi = items.len() - 1;
        let ni = if cur + delta < 0 {
            0
        } else if cur + delta > maxi {
            maxi
        } else {
            cur + delta
        };
        if items[ni] is Separator {
            if delta > 0 && ni < maxi {
                ni + 1
            } else if delta < 0 && ni > 0 {
                ni - 1
            } else {
                cur
            }
        } else {
            ni
        }
    }
}

/// The navigation state machine with its catalog store and ranker.
pub struct MenuSystem {
    catalog: Catalog,
    toolbox_path: String,
    state: MenuState,
    search_engine: SearchEngine,
    debug: bool,
}

impl MenuSystem {
    /// The session's navigation state.
    pub closed spec fn nav(&self) -> MenuStateV {
        self.state@
    }

    /// The catalog the session serves.
    pub closed spec fn catalog_view(&self) -> Seq<ScriptV> {
        self.catalog@
    }

    /// The store's execution history.
    pub closed spec fn history(&self) -> Seq<crate::store::ExecutionRecordV> {
        self.catalog.history()
    }

    /// A fresh session over a catalog: at the root view, breadcrumb
    /// holding only "Home", search off.
    pub fn new(catalog: Catalog, toolbox_path: String, debug: bool) -> (r: MenuSystem)
        ensures
            r.catalog_view() == catalog@,
            r.history() == catalog.history(),
            r.nav().current_category == "root"@,
            r.nav().breadcrumb =~= seq!["Home"@],
            r.nav().selected_index == 0,
            !r.nav().search_mode,
            r.nav().search_query == Seq::<char>::empty(),
            r.nav().filtered_items == Seq::<MenuItemV>::empty(),
            nav_wf(r.nav()),
    {
        MenuSystem {
            catalog,
            toolbox_path,
            state: MenuState::default(),
            search_engine: SearchEngine::new(),
            debug,
        }
    }

    /// The state the surrounding program renders from.
    pub fn current_state(&self) -> (r: &MenuState)
        ensures
            r@ == self.nav(),
    {
        &self.state
    }

    /// Records one finished run in the store's history.
    pub fn record_execution(
        &mut self,
        script_id: i64,
        exit_code: i32,
        duration_ms: u64,
        parameters: Option<String>,
    )
        ensures
            final(self).nav() == old(self).nav(),
            final(self).catalog_view() == old(self).catalog_view(),
            final(self).history() == old(self).history().push(
                crate::store::ExecutionRecordV {
                    script_id,
                    exit_code,
                    duration_ms,
                    parameters: crate::models::opt_view(parameters),
                },
            ),
    {
        self.catalog.record_execution(script_id, exit_code, duration_ms, parameters);
    }

    /// Descends into a category, pushing exactly one breadcrumb element.
    fn enter_category(&mut self, category: &str)
        ensures
            final(self).nav() == spec_enter_category(old(self).nav(), category@),
            final(self).nav().breadcrumb == old(self).nav().breadcrumb.push(category@),
            final(self).nav().current_category == category@,
            final(self).nav().selected_index == 0,
            final(self).nav().search_mode == old(self).nav().search_mode,
            final(self).nav().search_query == old(self).nav().search_query,
            nav_wf(final(self).nav()),
            final(self).catalog_view() == old(self).catalog_view(),
            final(self).history() == old(self).history(),
    {
        self.state.breadcrumb.push(String::from_str(category));
        self.state.current_category = String::from_str(category);
        self.state.selected_index = 0;
        proof {
            assert(str_views(self.state.breadcrumb@) =~= old(self).nav().breadcrumb.push(
                category@,
            ));
            assert(self.nav() =~= spec_enter_category(old(self).nav(), category@));
        }
    }

    /// Steps back up the breadcrumb and resolves the new view.
    fn go_back(&mut self)
        ensures
            final(self).nav() == spec_go_back(old(self).nav()),
            old(self).nav().breadcrumb.len() > 1 ==> final(self).nav().breadcrumb == old(
                self,
            ).nav().breadcrumb.drop_last(),
            old(self).nav().breadcrumb.len() <= 1 ==> final(self).nav().breadcrumb == old(
                self,
            ).nav().breadcrumb,
            final(self).nav().selected_index == 0,
            nav_wf(final(self).nav()),
            final(self).catalog_view() == old(self).catalog_view(),
            final(self).history() == old(self).history(),
    {
        if self.state.breadcrumb.len() > 1 {
            let _ = self.state.breadcrumb.pop();
            proof {
                assert(str_views(self.state.breadcrumb@) =~= old(self).nav().breadcrumb.drop_last());
            }
            let last = self.state.breadcrumb.len() - 1;
            proof {
                assert(str_views(self.state.breadcrumb@)[last as int] == self.state.breadcrumb@[
                    last as int
                ]@);
            }
            if crate::text::str_eq(self.state.breadcrumb[last].as_str(), "Home") {
                self.state.current_category = String::from_str("root");
            } else {
                self.state.current_category = self.state.breadcrumb[last].clone();
            }
        }
        self.state.selected_index = 0;
        proof {
            assert(self.nav() =~= spec_go_back(old(self).nav()));
        }
    }

    /// Returns to the root view and clears search.
    fn go_home(&mut self)
        ensures
            final(self).nav() == spec_go_home(old(self).nav()),
            nav_wf(final(self).nav()),
            final(self).catalog_view() == old(self).catalog_view(),
            final(self).history() == old(self).history(),
    {
        let mut bc: Vec<String> = Vec::new();
        bc.push(String::from_str("Home"));
        self.state.breadcrumb = bc;
        self.state.current_category = String::from_str("root");
        self.state.selected_index = 0;
        self.state.search_mode = false;
        self.state.search_query = String::new();
        proof {
            assert(str_views(self.state.breadcrumb@) =~= seq!["Home"@]);
            assert(self.nav() =~= spec_go_home(old(self).nav()));
        }
    }

    /// Leaves search mode, clearing the query buffer.
    fn exit_search_mode(&mut self)
        ensures
            final(self).nav() == spec_exit_search(old(self).nav()),
            nav_wf(final(self).nav()),
            final(self).catalog_view() == old(self).catalog_view(),
            final(self).history() == old(self).history(),
    {
        self.state.search_mode = false;
        self.state.search_query = String::new();
        self.state.selected_index = 0;
        proof {
            assert(self.nav() =~= spec_exit_search(old(self).nav()));
        }
    }

    /// Moves the selection by `delta`, clamped to the entries and never
    /// resting on a separator.
    fn move_selection(&mut self, delta: i32)
        requires
            nav_wf(old(self).nav()),
        ensures
            nav_wf(final(self).nav()),
            old(self).nav().filtered_items.len() > 0 ==> 0 <= final(self).nav().selected_index
                < old(self).nav().filtered_items.len(),
            final(self).nav() == (MenuStateV {
                selected_index: move_sel(
                    old(self).nav().filtered_items,
                    old(self).nav().selected_index,
                    delta as int,
                ),
                ..old(self).nav()
            }),
            final(self).catalog_view() == old(self).catalog_view(),
            final(self).history() == old(self).history(),
    {
        let len = self.state.filtered_items.len();
        if len == 0 {
            proof {
                assert(self.nav() =~= (MenuStateV {
                    selected_index: move_sel(
                        old(self).nav().filtered_items,
                        old(self).nav().selected_index,
                        delta as int,
                    ),
                    ..old(self).nav()
                }));
            }
            return;
        }
        let maxi = len - 1;
        let cur = self.state.selected_index;
        let ni: usize = if delta >= 0 {
            match cur.checked_add(delta as usize) {
                Some(s) => if s > maxi {
                    maxi
                } else {
                    s
                },
                None => maxi,
            }
        } else {
            let d = (-(delta as i64)) as usize;
            if cur >= d {
                cur - d
            } else {
                0
            }
        };
        proof {
            let items = old(self).nav().filtered_items;
            assert(items[ni as int] == item_views(self.state.filtered_items@)[ni as int]);
        }
        let is_sep = match &self.state.filtered_items[ni] {
            MenuItem::Separator(_) => true,
            _ => false,
        };
        if is_sep {
            if delta > 0 && ni < maxi {
                self.state.selected_index = ni + 1;
            } else if delta < 0 && ni > 0 {
                self.state.selected_index = ni - 1;
            }
        } else {
            self.state.selected_index = ni;
        }
        proof {
            assert(self.nav() =~= (MenuStateV {
                selected_index: move_sel(
                    old(self).nav().filtered_items,
                    old(self).nav().selected_index,
                    delta as int,
                ),
                ..old(self).nav()
            }));
        }
    }
}

/// A run of entries shown as scripts.
pub open spec fn scripts_as_items(ss: Seq<ScriptV>) -> Seq<MenuItemV> {
    ss.map_values(|s: ScriptV| MenuItemV::Script(s))
}

/// The selectable entry of one category: its name, the scripts it holds
/// in canonical order, the folder glyph and the default order.
pub open spec fn category_entry(catalog: Seq<ScriptV>, c: Seq<char>) -> MenuItemV {
    MenuItemV::Category(
        MenuCategoryV {
            name: c,
            path: c,
            scripts: crate::order::spec_sort(filter_category(catalog, c), script_le_fn()),
            icon: "\u{1F4C1}"@,
            order: crate::DEFAULT_ORDER as int,
        },
    )
}

/// The category entries of the root view: one per non-sentinel category
/// that holds at least one script, in the alphabetical category order.
pub open spec fn category_entries(catalog: Seq<ScriptV>, cats: Seq<Seq<char>>) -> Seq<MenuItemV>
    decreases cats.len(),
{
    if cats.len() == 0 {
        Seq::empty()
    } else {
        let prev = category_entries(catalog, cats.drop_last());
        let c = cats.last();
        if c == "TopLevel"@ {
            prev
        } else if crate::order::spec_sort(filter_category(catalog, c), script_le_fn()).len() > 0 {
            prev + seq![category_entry(catalog, c)]
        } else {
            prev
        }
    }
}

/// The root view: top-level scripts first, a separator when there are
/// any, then the categories, then the search and exit entries.
pub open spec fn root_items(catalog: Seq<ScriptV>) -> Seq<MenuItemV> {
    let cats = categories_spec(catalog);
    let top = if cats.contains("TopLevel"@) {
        scripts_as_items(
            crate::order::spec_sort(filter_category(catalog, "TopLevel"@), script_le_fn()),
        )
    } else {
        Seq::empty()
    };
    let with_sep = if top.len() > 0 {
        top + seq![MenuItemV::Separator("Categories"@)]
    } else {
        top
    };
    with_sep + category_entries(catalog, cats) + seq![MenuItemV::Search, MenuItemV::Exit]
}

/// A category's scripts grouped under their separator labels: a label is
/// emitted when an entry declares one different from the label in force.
pub open spec fn group_from(ss: Seq<ScriptV>, i: int, cur: Option<Seq<char>>) -> Seq<MenuItemV>
    decreases ss.len() - i,
{
    if i < 0 || i >= ss.len() {
        Seq::empty()
    } else {
        let s = ss[i];
        match s.separator {
            Some(sep) => if cur != Some(sep) {
                seq![MenuItemV::Separator(sep), MenuItemV::Script(s)] + group_from(
                    ss,
                    i + 1,
                    Some(sep),
                )
            } else {
                seq![MenuItemV::Script(s)] + group_from(ss, i + 1, cur)
            },
            None => seq![MenuItemV::Script(s)] + group_from(ss, i + 1, cur),
        }
    }
}

/// A category view: its scripts grouped by separator, then the back,
/// home and search entries.
pub open spec fn category_view_items(catalog: Seq<ScriptV>, cat: Seq<char>) -> Seq<MenuItemV> {
    group_from(crate::order::spec_sort(filter_category(catalog, cat), script_le_fn()), 0, None)
        + seq![MenuItemV::Back, MenuItemV::Home, MenuItemV::Search]
}

/// The entries the current non-search view shows.
pub open spec fn current_items(catalog: Seq<ScriptV>, current_category: Seq<char>) -> Seq<
    MenuItemV,
> {
    if current_category == "root"@ {
        root_items(catalog)
    } else {
        category_view_items(catalog, current_category)
    }
}

/// A selection clamped into a freshly built entry list.
pub open spec fn clamp_selection(sel: int, len: int) -> int {
    if sel >= len && len > 0 {
        len - 1
    } else {
        sel
    }
}

/// The search result entries for a non-empty query: the store's
/// substring matches, re-ranked by the fuzzy scorer, then a back entry.
pub open spec fn search_result_items(catalog: Seq<ScriptV>, q: Seq<char>) -> Seq<MenuItemV> {
    let coarse = crate::order::spec_sort(
        filter_matching(catalog, lower_of(q)),
        search_le(lower_of(q)),
    );
    scripts_as_items(spec_rank(coarse, q)) + seq![MenuItemV::Back]
}

/// Re-querying after a buffer change: an empty query shows nothing — it
/// does not match everything — and a non-empty query shows its ranked
/// results with the selection reset.
pub open spec fn spec_search_state(st: MenuStateV, catalog: Seq<ScriptV>) -> MenuStateV {
    if st.search_query.len() == 0 {
        MenuStateV { filtered_items: Seq::empty(), ..st }
    } else {
        MenuStateV {
            filtered_items: search_result_items(catalog, st.search_query),
            selected_index: 0,
            ..st
        }
    }
}

/// Entering search clears the buffer and selection before the first
/// query, so the result list starts empty.
pub open spec fn spec_enter_search(st: MenuStateV, catalog: Seq<ScriptV>) -> MenuStateV {
    spec_search_state(
        MenuStateV {
            search_mode: true,
            search_query: Seq::<char>::empty(),
            selected_index: 0,
            ..st
        },
        catalog,
    )
}

impl MenuSystem {
    /// Rebuilds the result list from the current query buffer.
    fn update_search_results(&mut self)
        ensures
            final(self).nav() == spec_search_state(old(self).nav(), old(self).catalog_view()),
            old(self).nav().search_query.len() == 0 ==> final(self).nav().filtered_items.len()
                == 0,
            nav_wf(final(self).nav()),
            final(self).catalog_view() == old(self).catalog_view(),
            final(self).history() == old(self).history(),
    {
        if self.state.search_query.as_str().unicode_len() == 0 {
            self.state.filtered_items = Vec::new();
            proof {
                assert(item_views(self.state.filtered_items@) =~= Seq::<MenuItemV>::empty());
                assert(self.nav() =~= spec_search_state(old(self).nav(), old(self).catalog_view()));
            }
            return;
        }
        let results = self.catalog.search_scripts(self.state.search_query.as_str());
        let mut fuzzy = self.search_engine.fuzzy_search(&results, self.state.search_query.as_str());
        let ghost ranked = script_views(fuzzy@);
        let mut items: Vec<MenuItem> = Vec::new();
        proof {
            assert(item_views(items@) =~= Seq::<MenuItemV>::empty());
            assert(ranked.subrange(0, 0) =~= Seq::<ScriptV>::empty());
            assert(scripts_as_items(ranked.subrange(0, 0)) =~= Seq::<MenuItemV>::empty());
        }
        let ghost mut done: int = 0;
        while fuzzy.len() > 0
            invariant
                0 <= done <= ranked.len(),
                script_views(fuzzy@) =~= ranked.subrange(done, ranked.len() as int),
                fuzzy@.len() == ranked.len() - done,
                item_views(items@) == scripts_as_items(ranked.subrange(0, done)),
            decreases fuzzy.len(),
        {
            let ghost pre = script_views(fuzzy@);
            let ghost prev_items = item_views(items@);
            let s = fuzzy.remove(0);
            proof {
                assert(s@ == pre[0]);
                assert(s@ == ranked[done]);
                assert(script_views(fuzzy@) =~= pre.drop_first());
                assert(pre.drop_first() =~= ranked.subrange(done + 1, ranked.len() as int));
            }
            items.push(MenuItem::Script(s));
            proof {
                assert(item_views(items@) =~= prev_items + seq![MenuItemV::Script(ranked[done])]);
                assert(scripts_as_items(ranked.subrange(0, done + 1)) =~= scripts_as_items(
                    ranked.subrange(0, done),
                ) + seq![MenuItemV::Script(ranked[done])]);
                done = done + 1;
            }
        }
        proof {
            assert(ranked.subrange(0, done) =~= ranked);
        }
        items.push(MenuItem::Back);
        self.state.filtered_items = items;
        self.state.selected_index = 0;
        proof {
            assert(item_views(self.state.filtered_items@) =~= scripts_as_items(ranked)
                + seq![MenuItemV::Back]);
            assert(self.nav() =~= spec_search_state(old(self).nav(), old(self).catalog_view()));
        }
    }

    /// Enters search mode with a cleared buffer and an empty result
    /// list.
    fn enter_search_mode(&mut self)
        ensures
            final(self).nav() == spec_enter_search(old(self).nav(), old(self).catalog_view()),
            nav_wf(final(self).nav()),
            final(self).catalog_view() == old(self).catalog_view(),
            final(self).history() == old(self).history(),
    {
        self.state.search_mode = true;
        self.state.search_query = String::new();
        self.state.selected_index = 0;
        self.update_search_results();
    }
}

impl MenuSystem {
    /// Rebuilds the entries of the current non-search view from the
    /// store and clamps the selection into the fresh list.
    pub fn update_menu_items(&mut self)
        ensures
            final(self).nav() == (MenuStateV {
                filtered_items: current_items(
                    old(self).catalog_view(),
                    old(self).nav().current_category,
                ),
                selected_index: clamp_selection(
                    old(self).nav().selected_index,
                    current_items(
                        old(self).catalog_view(),
                        old(self).nav().current_category,
                    ).len() as int,
                ),
                ..old(self).nav()
            }),
            final(self).catalog_view() == old(self).catalog_view(),
            final(self).history() == old(self).history(),
            nav_wf(final(self).nav()),
    {
        let ghost cat_view = self.catalog@;
        let mut items: Vec<MenuItem> = Vec::new();
        proof {
            assert(item_views(items@) =~= Seq::<MenuItemV>::empty());
        }
        if crate::text::str_eq(self.state.current_category.as_str(), "root") {
            let cats = self.catalog.get_all_categories();
            let ghost cv = str_views(cats@);
            let mut has_top = false;
            let mut t: usize = 0;
            while t < cats.len()
                invariant
                    t <= cats.len(),
                    cv == str_views(cats@),
                    has_top == exists|j: int| 0 <= j < t && cv[j] == "TopLevel"@,
                decreases cats.len() - t,
            {
                proof {
                    assert(cv[t as int] == cats@[t as int]@);
                }
                if crate::text::str_eq(cats[t].as_str(), "TopLevel") {
                    has_top = true;
                }
                t = t + 1;
            }
            proof {
                if has_top {
                    assert(cv.contains("TopLevel"@));
                }
                if cv.contains("TopLevel"@) {
                    let j = choose|j: int| 0 <= j < cv.len() && cv[j] == "TopLevel"@;
                    assert(has_top);
                }
            }
            if has_top {
                let mut top_scripts = self.catalog.get_scripts_by_category("TopLevel");
                let ghost tops = script_views(top_scripts@);
                let ghost mut done: int = 0;
                proof {
                    assert(tops.subrange(0, 0) =~= Seq::<ScriptV>::empty());
                    assert(scripts_as_items(tops.subrange(0, 0)) =~= Seq::<MenuItemV>::empty());
                }
                while top_scripts.len() > 0
                    invariant
                        0 <= done <= tops.len(),
                        script_views(top_scripts@) =~= tops.subrange(done, tops.len() as int),
                        top_scripts@.len() == tops.len() - done,
                        item_views(items@) == scripts_as_items(tops.subrange(0, done)),
                    decreases top_scripts.len(),
                {
                    let ghost pre = script_views(top_scripts@);
                    let ghost prev_items = item_views(items@);
                    let s = top_scripts.remove(0);
                    proof {
                        assert(s@ == pre[0]);
                        assert(s@ == tops[done]);
                        assert(script_views(top_scripts@) =~= pre.drop_first());
                        assert(pre.drop_first() =~= tops.subrange(done + 1, tops.len() as int));
                    }
                    items.push(MenuItem::Script(s));
                    proof {
                        assert(item_views(items@) =~= prev_items + seq![
                            MenuItemV::Script(tops[done]),
                        ]);
                        assert(scripts_as_items(tops.subrange(0, done + 1)) =~= scripts_as_items(
                            tops.subrange(0, done),
                        ) + seq![MenuItemV::Script(tops[done])]);
                        done = done + 1;
                    }
                }
                proof {
                    assert(tops.subrange(0, done) =~= tops);
                }
                if items.len() > 0 {
                    let ghost prev_items = item_views(items@);
                    items.push(MenuItem::Separator(String::from_str("Categories")));
                    proof {
                        assert(item_views(items@) =~= prev_items + seq![
                            MenuItemV::Separator("Categories"@),
                        ]);
                    }
                }
            }
            let ghost with_sep = item_views(items@);
            let mut i: usize = 0;
            proof {
                assert(cv.subrange(0, 0) =~= Seq::<Seq<char>>::empty());
                assert(category_entries(cat_view, cv.subrange(0, 0)) =~= Seq::<MenuItemV>::empty());
                assert(item_views(items@) =~= with_sep + category_entries(
                    cat_view,
                    cv.subrange(0, 0),
                ));
            }
            while i < cats.len()
                invariant
                    i <= cats.len(),
                    cv == str_views(cats@),
                    cat_view == self.catalog@,
                    self == old(self),
                    item_views(items@) == with_sep + category_entries(
                        cat_view,
                        cv.subrange(0, i as int),
                    ),
                decreases cats.len() - i,
            {
                let ghost prev_items = item_views(items@);
                proof {
                    assert(cv[i as int] == cats@[i as int]@);
                    assert(cv.subrange(0, i + 1).drop_last() =~= cv.subrange(0, i as int));
                    assert(cv.subrange(0, i + 1).last() == cv[i as int]);
                }
                if !crate::text::str_eq(cats[i].as_str(), "TopLevel") {
                    let scripts = self.catalog.get_scripts_by_category(cats[i].as_str());
                    if scripts.len() > 0 {
                        let mut mc = MenuCategory::new(cats[i].clone(), cats[i].clone());
                        mc.scripts = scripts;
                        proof {
                            assert(MenuItemV::Category(mc@) =~= category_entry(
                                cat_view,
                                cv[i as int],
                            ));
                        }
                        items.push(MenuItem::Category(mc));
                        proof {
                            assert(item_views(items@) =~= prev_items + seq![
                                category_entry(cat_view, cv[i as int]),
                            ]);
                        }
                    }
                }
                i = i + 1;
            }
            proof {
                assert(cv.subrange(0, cv.len() as int) =~= cv);
            }
            let ghost before_nav = item_views(items@);
            items.push(MenuItem::Search);
            items.push(MenuItem::Exit);
            proof {
                assert(item_views(items@) =~= before_nav + seq![
                    MenuItemV::Search,
                    MenuItemV::Exit,
                ]);
                assert(item_views(items@) =~= root_items(cat_view));
            }
        } else {
            let scripts = self.catalog.get_scripts_by_category(
                self.state.current_category.as_str(),
            );
            let ghost sv = script_views(scripts@);
            let mut cur_sep: Option<String> = None;
            let mut i: usize = 0;
            proof {
                assert(item_views(items@) + group_from(sv, 0, None) =~= group_from(sv, 0, None));
            }
            while i < scripts.len()
                invariant
                    i <= scripts.len(),
                    sv == script_views(scripts@),
                    item_views(items@) + group_from(
                        sv,
                        i as int,
                        crate::models::opt_view(cur_sep),
                    ) == group_from(sv, 0, None),
                decreases scripts.len() - i,
            {
                let ghost prev_items = item_views(items@);
                let ghost gcur = crate::models::opt_view(cur_sep);
                proof {
                    assert(sv[i as int] == scripts@[i as int]@);
                }
                let s = &scripts[i];
                match &s.separator {
                    Some(sep) => {
                        let same = match &cur_sep {
                            Some(a) => crate::text::str_eq(a.as_str(), sep.as_str()),
                            None => false,
                        };
                        if !same {
                            items.push(MenuItem::Separator(sep.clone()));
                            cur_sep = Some(sep.clone());
                        }
                    },
                    None => {},
                }
                let ghost mid_items = item_views(items@);
                items.push(MenuItem::Script(s.clone()));
                proof {
                    let sva = sv[i as int];
                    match sva.separator {
                        Some(sep) => {
                            if gcur != Some(sep) {
                                assert(item_views(items@) =~= prev_items + seq![
                                    MenuItemV::Separator(sep),
                                    MenuItemV::Script(sva),
                                ]);
                                assert(crate::models::opt_view(cur_sep) == Some(sep));
                            } else {
                                assert(item_views(items@) =~= prev_items + seq![
                                    MenuItemV::Script(sva),
                                ]);
                            }
                        },
                        None => {
                            assert(item_views(items@) =~= prev_items + seq![
                                MenuItemV::Script(sva),
                            ]);
                        },
                    }
                    assert(prev_items + group_from(sv, i as int, gcur) =~= item_views(items@)
                        + group_from(sv, i + 1, crate::models::opt_view(cur_sep)));
                }
                i = i + 1;
            }
            proof {
                assert(group_from(sv, sv.len() as int, crate::models::opt_view(cur_sep)) =~= Seq::<
                    MenuItemV,
                >::empty());
                assert(item_views(items@) =~= group_from(sv, 0, None));
            }
            let ghost before_nav = item_views(items@);
            items.push(MenuItem::Back);
            items.push(MenuItem::Home);
            items.push(MenuItem::Search);
            proof {
                assert(item_views(items@) =~= before_nav + seq![
                    MenuItemV::Back,
                    MenuItemV::Home,
                    MenuItemV::Search,
                ]);
                assert(item_views(items@) =~= category_view_items(
                    cat_view,
                    old(self).nav().current_category,
                ));
            }
        }
        self.state.filtered_items = items;
        let len = self.state.filtered_items.len();
        if self.state.selected_index >= len && len > 0 {
            self.state.selected_index = len - 1;
        }
        proof {
            assert(self.nav() =~= (MenuStateV {
                filtered_items: current_items(
                    old(self).catalog_view(),
                    old(self).nav().current_category,
                ),
                selected_index: clamp_selection(
                    old(self).nav().selected_index,
                    current_items(
                        old(self).catalog_view(),
                        old(self).nav().current_category,
                    ).len() as int,
                ),
                ..old(self).nav()
            }));
        }
    }
}

/// The entry the selection rests on, if any entry is shown.
pub open spec fn selected_item(st: MenuStateV) -> Option<MenuItemV> {
    if st.filtered_items.len() == 0 {
        None
    } else {
        Some(st.filtered_items[st.selected_index])
    }
}

/// How activating the selection changes the state: a category is
/// entered, the navigation entries do what they say, and a script,
/// separator or exit entry leaves the state as it is.
pub open spec fn spec_activate(st: MenuStateV, catalog: Seq<ScriptV>) -> MenuStateV {
    match selected_item(st) {
        None => st,
        Some(it) => match it {
            MenuItemV::Category(c) => spec_enter_category(st, c.name),
            MenuItemV::Back => spec_go_back(st),
            MenuItemV::Home => spec_go_home(st),
            MenuItemV::Search => spec_enter_search(st, catalog),
            _ => st,
        },
    }
}

/// What activating the selection asks of the surrounding program: run a
/// script, end the session on the exit entry, else nothing.
pub open spec fn spec_activate_action(st: MenuStateV) -> MenuActionV {
    match selected_item(st) {
        Some(it) => match it {
            MenuItemV::Script(s) => MenuActionV::Execute(s),
            MenuItemV::Exit => MenuActionV::Exit,
            _ => MenuActionV::Continue,
        },
        None => MenuActionV::Continue,
    }
}

/// Selecting entry `n` directly: only an index within the shown entries
/// moves the selection there and activates it.
pub open spec fn spec_select_number(st: MenuStateV, catalog: Seq<ScriptV>, n: int) -> MenuStateV {
    if 0 <= n < st.filtered_items.len() {
        spec_activate(MenuStateV { selected_index: n, ..st }, catalog)
    } else {
        st
    }
}

/// The action of selecting entry `n` directly.
pub open spec fn spec_select_number_action(st: MenuStateV, n: int) -> MenuActionV {
    if 0 <= n < st.filtered_items.len() {
        spec_activate_action(MenuStateV { selected_index: n, ..st })
    } else {
        MenuActionV::Continue
    }
}

/// The query buffer with its last character removed, when it has one.
pub open spec fn query_pop(q: Seq<char>) -> Seq<char> {
    if q.len() > 0 {
        q.drop_last()
    } else {
        q
    }
}

/// The menu entry a quick-select digit names: `1` through `9` name the
/// first nine entries and `0` names the tenth.
pub open spec fn digit_index(c: char) -> int {
    if c == '0' {
        9
    } else {
        (c as u32) - ('0' as u32) - 1
    }
}

/// How one character of input changes the state. The navigation
/// shortcuts and quick-select digits act in every mode; any other
/// character is typed into the query buffer while searching, and a
/// question mark outside search asks for help.
pub open spec fn spec_handle_char(st: MenuStateV, catalog: Seq<ScriptV>, c: char) -> MenuStateV {
    if c == 'x' || c == 'X' {
        if st.search_mode {
            spec_exit_search(st)
        } else {
            spec_go_back(st)
        }
    } else if c == 'h' || c == 'H' {
        spec_go_home(st)
    } else if c == 's' || c == 'S' {
        if !st.search_mode {
            spec_enter_search(st, catalog)
        } else {
            st
        }
    } else if c == 'q' || c == 'Q' {
        st
    } else if c == 'k' {
        MenuStateV { selected_index: move_sel(st.filtered_items, st.selected_index, -1), ..st }
    } else if c == 'j' {
        MenuStateV { selected_index: move_sel(st.filtered_items, st.selected_index, 1), ..st }
    } else if crate::text::is_digit_char(c) {
        spec_select_number(st, catalog, digit_index(c))
    } else if st.search_mode {
        spec_search_state(MenuStateV { search_query: st.search_query.push(c), ..st }, catalog)
    } else {
        st
    }
}

/// The action one character of input produces.
pub open spec fn spec_handle_char_action(st: MenuStateV, c: char) -> MenuActionV {
    if c == 'x' || c == 'X' || c == 'h' || c == 'H' || c == 's' || c == 'S' || c == 'q' || c == 'Q'
        || c == 'k' || c == 'j' {
        MenuActionV::Continue
    } else if crate::text::is_digit_char(c) {
        spec_select_number_action(st, digit_index(c))
    } else if st.search_mode {
        MenuActionV::Continue
    } else if c == '?' {
        MenuActionV::ShowHelp
    } else {
        MenuActionV::Continue
    }
}

/// How one key of input changes the state.
pub open spec fn spec_handle(st: MenuStateV, catalog: Seq<ScriptV>, key: KeyInput) -> MenuStateV {
    match key {
        KeyInput::Char(c) => spec_handle_char(st, catalog, c),
        KeyInput::CtrlChar(c) => if c == 'q' || c == 'Q' {
            st
        } else {
            spec_handle_char(st, catalog, c)
        },
        KeyInput::Up => MenuStateV {
            selected_index: move_sel(st.filtered_items, st.selected_index, -1),
            ..st
        },
        KeyInput::Down => MenuStateV {
            selected_index: move_sel(st.filtered_items, st.selected_index, 1),
            ..st
        },
        KeyInput::PageUp => MenuStateV {
            selected_index: move_sel(st.filtered_items, st.selected_index, -10),
            ..st
        },
        KeyInput::PageDown => MenuStateV {
            selected_index: move_sel(st.filtered_items, st.selected_index, 10),
            ..st
        },
        KeyInput::Home => MenuStateV { selected_index: 0, ..st },
        KeyInput::End => if st.search_mode && st.filtered_items.len() > 0 {
            MenuStateV { selected_index: st.filtered_items.len() - 1, ..st }
        } else {
            st
        },
        KeyInput::Enter => spec_activate(st, catalog),
        KeyInput::Backspace => if st.search_mode {
            spec_search_state(MenuStateV { search_query: query_pop(st.search_query), ..st }, catalog)
        } else {
            st
        },
        KeyInput::Esc => if st.search_mode {
            spec_exit_search(st)
        } else {
            st
        },
        KeyInput::Help => st,
    }
}

/// What one key of input asks of the surrounding program: only the quit
/// chord, escape outside search, activation and help produce anything.
pub open spec fn spec_handle_action(st: MenuStateV, key: KeyInput) -> MenuActionV {
    match key {
        KeyInput::Char(c) => spec_handle_char_action(st, c),
        KeyInput::CtrlChar(c) => if c == 'q' || c == 'Q' {
            MenuActionV::Exit
        } else {
            spec_handle_char_action(st, c)
        },
        KeyInput::Enter => spec_activate_action(st),
        KeyInput::Esc => if st.search_mode {
            MenuActionV::Continue
        } else {
            MenuActionV::Exit
        },
        KeyInput::Help => MenuActionV::ShowHelp,
        _ => MenuActionV::Continue,
    }
}

/// Relies on `String::push`: appends one character to the buffer.
#[verifier::external_body]
fn push_char(s: &mut String, c: char)
    ensures
        final(s)@ == old(s)@.push(c),
{
    s.push(c);
}

/// Relies on `String::pop`: removes the last character, if there is one.
#[verifier::external_body]
fn pop_char(s: &mut String)
    ensures
        final(s)@ == (if old(s)@.len() > 0 {
            old(s)@.drop_last()
        } else {
            old(s)@
        }),
{
    let _ = s.pop();
}

impl MenuSystem {
    /// Activates the entry the selection rests on.
    fn execute_selected_item(&mut self) -> (r: MenuAction)
        requires
            nav_wf(old(self).nav()),
        ensures
            final(self).nav() == spec_activate(old(self).nav(), old(self).catalog_view()),
            nav_wf(final(self).nav()),
            r@ == spec_activate_action(old(self).nav()),
            final(self).catalog_view() == old(self).catalog_view(),
            final(self).history() == old(self).history(),
    {
        if self.state.filtered_items.len() == 0 {
            return MenuAction::Continue;
        }
        proof {
            assert(item_views(self.state.filtered_items@)[old(self).nav().selected_index]
                == self.state.filtered_items@[old(self).nav().selected_index]@);
        }
        let sel = self.state.selected_index;
        let item = self.state.filtered_items[sel].clone();
        match item {
            MenuItem::Script(s) => MenuAction::Execute(s),
            MenuItem::Category(c) => {
                self.enter_category(c.name.as_str());
                MenuAction::Continue
            },
            MenuItem::Back => {
                self.go_back();
                MenuAction::Continue
            },
            MenuItem::Home => {
                self.go_home();
                MenuAction::Continue
            },
            MenuItem::Search => {
                self.enter_search_mode();
                MenuAction::Continue
            },
            MenuItem::Exit => MenuAction::Exit,
            MenuItem::Separator(_) => MenuAction::Continue,
        }
    }

    /// Moves the selection to entry `n` and activates it, when `n` is
    /// within the shown entries.
    fn select_by_number(&mut self, index: usize) -> (r: MenuAction)
        requires
            nav_wf(old(self).nav()),
        ensures
            final(self).nav() == spec_select_number(
                old(self).nav(),
                old(self).catalog_view(),
                index as int,
            ),
            nav_wf(final(self).nav()),
            r@ == spec_select_number_action(old(self).nav(), index as int),
            final(self).catalog_view() == old(self).catalog_view(),
            final(self).history() == old(self).history(),
    {
        if index < self.state.filtered_items.len() {
            self.state.selected_index = index;
            self.execute_selected_item()
        } else {
            MenuAction::Continue
        }
    }

    /// Applies one character of input.
    fn handle_char(&mut self, c: char) -> (r: MenuAction)
        requires
            nav_wf(old(self).nav()),
        ensures
            final(self).nav() == spec_handle_char(old(self).nav(), old(self).catalog_view(), c),
            nav_wf(final(self).nav()),
            r@ == spec_handle_char_action(old(self).nav(), c),
            final(self).catalog_view() == old(self).catalog_view(),
            final(self).history() == old(self).history(),
    {
        if c == 'x' || c == 'X' {
            if self.state.search_mode {
                self.exit_search_mode();
            } else {
                self.go_back();
            }
            MenuAction::Continue
        } else if c == 'h' || c == 'H' {
            self.go_home();
            MenuAction::Continue
        } else if c == 's' || c == 'S' {
            if !self.state.search_mode {
                self.enter_search_mode();
            }
            MenuAction::Continue
        } else if c == 'q' || c == 'Q' {
            MenuAction::Continue
        } else if c == 'k' {
            self.move_selection(-1);
            MenuAction::Continue
        } else if c == 'j' {
            self.move_selection(1);
            MenuAction::Continue
        } else if (c as u32) >= ('0' as u32) && (c as u32) <= ('9' as u32) {
            let n: usize = if c == '0' {
                9
            } else {
                ((c as u32) - ('0' as u32) - 1) as usize
            };
            self.select_by_number(n)
        } else if self.state.search_mode {
            push_char(&mut self.state.search_query, c);
            self.update_search_results();
            proof {
                assert(self.nav() =~= spec_handle_char(
                    old(self).nav(),
                    old(self).catalog_view(),
                    c,
                ));
            }
            MenuAction::Continue
        } else if c == '?' {
            MenuAction::ShowHelp
        } else {
            MenuAction::Continue
        }
    }

    /// Applies one key of input and reports what the surrounding
    /// program should do next. The selection never leaves the shown
    /// entries.
    pub fn handle_key_event(&mut self, key: KeyInput) -> (r: MenuAction)
        requires
            nav_wf(old(self).nav()),
        ensures
            final(self).nav() == spec_handle(old(self).nav(), old(self).catalog_view(), key),
            nav_wf(final(self).nav()),
            r@ == spec_handle_action(old(self).nav(), key),
            final(self).catalog_view() == old(self).catalog_view(),
            final(self).history() == old(self).history(),
    {
        match key {
            KeyInput::Char(c) => self.handle_char(c),
            KeyInput::CtrlChar(c) => {
                if c == 'q' || c == 'Q' {
                    MenuAction::Exit
                } else {
                    self.handle_char(c)
                }
            },
            KeyInput::Up => {
                self.move_selection(-1);
                MenuAction::Continue
            },
            KeyInput::Down => {
                self.move_selection(1);
                MenuAction::Continue
            },
            KeyInput::PageUp => {
                self.move_selection(-10);
                MenuAction::Continue
            },
            KeyInput::PageDown => {
                self.move_selection(10);
                MenuAction::Continue
            },
            KeyInput::Home => {
                self.state.selected_index = 0;
                proof {
                    assert(self.nav() =~= (MenuStateV { selected_index: 0, ..old(self).nav() }));
                }
                MenuAction::Continue
            },
            KeyInput::End => {
                if self.state.search_mode && self.state.filtered_items.len() > 0 {
                    let last = self.state.filtered_items.len() - 1;
                    self.state.selected_index = last;
                    proof {
                        assert(self.nav() =~= (MenuStateV {
                            selected_index: old(self).nav().filtered_items.len() - 1,
                            ..old(self).nav()
                        }));
                    }
                }
                MenuAction::Continue
            },
            KeyInput::Enter => self.execute_selected_item(),
            KeyInput::Backspace => {
                if self.state.search_mode {
                    pop_char(&mut self.state.search_query);
                    self.update_search_results();
                    proof {
                        assert(self.nav() =~= spec_handle(
                            old(self).nav(),
                            old(self).catalog_view(),
                            key,
                        ));
                    }
                }
                MenuAction::Continue
            },
            KeyInput::Esc => {
                if self.state.search_mode {
                    self.exit_search_mode();
                    MenuAction::Continue
                } else {
                    MenuAction::Exit
                }
            },
            KeyInput::Help => MenuAction::ShowHelp,
        }
    }
}

/// In search mode an empty query shows an empty result list: it is a
/// distinct state from matching everything.
pub proof fn lemma_empty_query_empty_results(st: MenuStateV, catalog: Seq<ScriptV>)
    requires
        st.search_query.len() == 0,
    ensures
        spec_search_state(st, catalog).filtered_items.len() == 0,
{
}

/// From the root, selecting a category pushes exactly one breadcrumb
/// element, and two consecutive back steps from that depth return
/// exactly to the root view with only the home element left.
pub proof fn lemma_breadcrumb_roundtrip(st: MenuStateV, cat: Seq<char>)
    requires
        st.breadcrumb =~= seq!["Home"@],
    ensures
        spec_enter_category(st, cat).breadcrumb.len() == st.breadcrumb.len() + 1,
        spec_go_back(spec_go_back(spec_enter_category(st, cat))).current_category == "root"@,
        spec_go_back(spec_go_back(spec_enter_category(st, cat))).breadcrumb =~= seq!["Home"@],
{
    let entered = spec_enter_category(st, cat);
    assert(entered.breadcrumb =~= seq!["Home"@, cat]);
    let once = spec_go_back(entered);
    assert(entered.breadcrumb.drop_last() =~= seq!["Home"@]);
    assert(once.breadcrumb =~= seq!["Home"@]);
    assert(once.current_category == "root"@);
    let twice = spec_go_back(once);
    assert(twice.breadcrumb =~= seq!["Home"@]);
}

/// Movement clamped into a separator-free neighbourhood: as long as no
/// two separators are adjacent and the selection starts in range on a
/// selectable entry, it ends in range on a selectable entry.
pub proof fn lemma_move_selection_safe(items: Seq<MenuItemV>, cur: int, delta: int)
    requires
        items.len() > 0,
        0 <= cur < items.len(),
        !(items[cur] is Separator),
        forall|i: int|
            0 <= i < items.len() - 1 ==> !((#[trigger] items[i]) is Separator && items[i + 1]
                is Separator),
    ensures
        0 <= move_sel(items, cur, delta) < items.len(),
        !(items[move_sel(items, cur, delta)] is Separator),
{
    let maxi = items.len() - 1;
    let ni = if cur + delta < 0 {
        0int
    } else if cur + delta > maxi {
        maxi
    } else {
        cur + delta
    };
    if items[ni] is Separator {
        if delta > 0 && ni < maxi {
            assert(!(items[ni + 1] is Separator));
        } else if delta < 0 && ni > 0 {
            assert(!(items[ni - 1] is Separator));
        }
    }
}

/// Every separator a grouped category listing emits is immediately
/// followed by a script entry.
pub proof fn lemma_group_separator_followed(
    ss: Seq<ScriptV>,
    i: int,
    cur: Option<Seq<char>>,
    k: int,
)
    requires
        0 <= k < group_from(ss, i, cur).len(),
        group_from(ss, i, cur)[k] is Separator,
    ensures
        k + 1 < group_from(ss, i, cur).len(),
        group_from(ss, i, cur)[k + 1] is Script,
    decreases ss.len() - i,
{
    if i < 0 || i >= ss.len() {
    } else {
        let s = ss[i];
        match s.separator {
            Some(sep) => {
                if cur != Some(sep) {
                    let rest = group_from(ss, i + 1, Some(sep));
                    if k >= 2 {
                        lemma_group_separator_followed(ss, i + 1, Some(sep), k - 2);
                    }
                } else {
                    let rest = group_from(ss, i + 1, cur);
                    if k >= 1 {
                        lemma_group_separator_followed(ss, i + 1, cur, k - 1);
                    }
                }
            },
            None => {
                let rest = group_from(ss, i + 1, cur);
                if k >= 1 {
                    lemma_group_separator_followed(ss, i + 1, cur, k - 1);
                }
            },
        }
    }
}

/// Every entry the root view's category fold emits is a category entry.
pub proof fn lemma_category_entries_kind(catalog: Seq<ScriptV>, cats: Seq<Seq<char>>, k: int)
    requires
        0 <= k < category_entries(catalog, cats).len(),
    ensures
        category_entries(catalog, cats)[k] is Category,
    decreases cats.len(),
{
    if cats.len() > 0 {
        let prev = category_entries(catalog, cats.drop_last());
        if k < prev.len() {
            lemma_category_entries_kind(catalog, cats.drop_last(), k);
        }
    }
}

/// In every freshly built menu view, selection movement from a
/// selectable entry stays within the entries and never rests on a
/// separator.
pub proof fn lemma_menu_movement_safe(
    catalog: Seq<ScriptV>,
    current_category: Seq<char>,
    cur: int,
    delta: int,
)
    requires
        current_items(catalog, current_category).len() > 0,
        0 <= cur < current_items(catalog, current_category).len(),
        !(current_items(catalog, current_category)[cur] is Separator),
    ensures
        0 <= move_sel(current_items(catalog, current_category), cur, delta) < current_items(
            catalog,
            current_category,
        ).len(),
        !(current_items(catalog, current_category)[move_sel(
            current_items(catalog, current_category),
            cur,
            delta,
        )] is Separator),
{
    if current_category == "root"@ {
        lemma_root_view_separators(catalog);
    } else {
        lemma_category_view_separators(catalog, current_category);
    }
    lemma_move_selection_safe(current_items(catalog, current_category), cur, delta);
}

/// No two separators stand next to each other in a category view, and
/// its last entry is selectable.
pub proof fn lemma_category_view_separators(catalog: Seq<ScriptV>, cat: Seq<char>)
    ensures
        forall|i: int|
            0 <= i < category_view_items(catalog, cat).len() - 1 ==> !((#[trigger] category_view_items(
                catalog,
                cat,
            )[i]) is Separator && category_view_items(catalog, cat)[i + 1] is Separator),
        !(category_view_items(catalog, cat).last() is Separator),
{
    let g = group_from(
        crate::order::spec_sort(filter_category(catalog, cat), script_le_fn()),
        0,
        None,
    );
    let items = category_view_items(catalog, cat);
    assert forall|i: int| 0 <= i < items.len() - 1 implies !((#[trigger] items[i]) is Separator
        && items[i + 1] is Separator) by {
        if items[i] is Separator {
            assert(i < g.len());
            lemma_group_separator_followed(
                crate::order::spec_sort(filter_category(catalog, cat), script_le_fn()),
                0,
                None,
                i,
            );
            assert(items[i + 1] == g[i + 1]);
        }
    }
}

/// No two separators stand next to each other in the root view, and its
/// last entry is selectable.
pub proof fn lemma_root_view_separators(catalog: Seq<ScriptV>)
    ensures
        forall|i: int|
            0 <= i < root_items(catalog).len() - 1 ==> !((#[trigger] root_items(catalog)[i])
                is Separator && root_items(catalog)[i + 1] is Separator),
        !(root_items(catalog).last() is Separator),
{
    let cats = categories_spec(catalog);
    let items = root_items(catalog);
    let top = if cats.contains("TopLevel"@) {
        scripts_as_items(
            crate::order::spec_sort(filter_category(catalog, "TopLevel"@), script_le_fn()),
        )
    } else {
        Seq::<MenuItemV>::empty()
    };
    let with_sep = if top.len() > 0 {
        top + seq![MenuItemV::Separator("Categories"@)]
    } else {
        top
    };
    let ce = category_entries(catalog, cats);
    assert forall|i: int| 0 <= i < items.len() - 1 implies !((#[trigger] items[i]) is Separator
        && items[i + 1] is Separator) by {
        if items[i] is Separator && items[i + 1] is Separator {
            if i + 1 < with_sep.len() {
                assert(items[i] == with_sep[i]);
                assert(items[i + 1] == with_sep[i + 1]);
                if i < top.len() {
                    assert(top[i] is Script);
                } else {
                    assert(i + 1 >= with_sep.len());
                }
            } else if i + 1 < with_sep.len() + ce.len() {
                assert(items[i + 1] == ce[i + 1 - with_sep.len()]);
                lemma_category_entries_kind(catalog, cats, i + 1 - with_sep.len());
            } else {
                assert(items[i + 1] == seq![MenuItemV::Search, MenuItemV::Exit][i + 1 - (
                with_sep.len() + ce.len())]);
            }
        }
    }
    assert(items.last() == MenuItemV::Exit);
}

} // verus!
