//! The catalog's data model: script records, parameter descriptors, menu
//! categories, menu entries and the navigation state, each with a
//! mathematical view used by the contracts.
use vstd::prelude::*;

verus! {

/// A catalog entry parsed from one annotated script file.
pub struct Script {
    pub id: Option<i64>,
    pub name: String,
    pub path: String,
    pub category: String,
    pub menu_name: Option<String>,
    pub description: Option<String>,
    pub detailed_description: Option<String>,
    pub integration: Option<String>,
    pub info_url: Option<String>,
    pub icon: Option<String>,
    pub color: Option<String>,
    pub order: Option<i32>,
    pub is_default: bool,
    pub separator: Option<String>,
    pub tags: Vec<String>,
    pub author: Option<String>,
    pub parameters: Option<String>,
    pub dependency_available: bool,
    pub created_at: i64,
    pub updated_at: i64,
}

/// The mathematical value of a `Script`: every text field as a character
/// sequence.
#[verifier::ext_equal]
pub ghost struct ScriptV {
    pub id: Option<i64>,
    pub name: Seq<char>,
    pub path: Seq<char>,
    pub category: Seq<char>,
    pub menu_name: Option<Seq<char>>,
    pub description: Option<Seq<char>>,
    pub detailed_description: Option<Seq<char>>,
    pub integration: Option<Seq<char>>,
    pub info_url: Option<Seq<char>>,
    pub icon: Option<Seq<char>>,
    pub color: Option<Seq<char>>,
    pub order: Option<i32>,
    pub is_default: bool,
    pub separator: Option<Seq<char>>,
    pub tags: Seq<Seq<char>>,
    pub author: Option<Seq<char>>,
    pub parameters: Option<Seq<char>>,
    pub dependency_available: bool,
    pub created_at: i64,
    pub updated_at: i64,
}

/// The view of an optional owned string.
pub open spec fn opt_view(o: Option<String>) -> Option<Seq<char>> {
    match o {
        Some(s) => Some(s@),
        None => None,
    }
}

impl View for Script {
    type V = ScriptV;

    open spec fn view(&self) -> ScriptV {
        ScriptV {
            id: self.id,
            name: self.name@,
            path: self.path@,
            category: self.category@,
            menu_name: opt_view(self.menu_name),
            description: opt_view(self.description),
            detailed_description: opt_view(self.detailed_description),
            integration: opt_view(self.integration),
            info_url: opt_view(self.info_url),
            icon: opt_view(self.icon),
            color: opt_view(self.color),
            order: self.order,
            is_default: self.is_default,
            separator: opt_view(self.separator),
            tags: crate::text::str_views(self.tags@),
            author: opt_view(self.author),
            parameters: opt_view(self.parameters),
            dependency_available: self.dependency_available,
            created_at: self.created_at,
            updated_at: self.updated_at,
        }
    }
}

/// Relies on `chrono::Utc::now`: the current time in milliseconds since the
/// Unix epoch; nothing is assumed about the value.
#[verifier::external_body]
pub(crate) fn now_millis() -> i64 {
    chrono::Utc::now().timestamp_millis()
}

fn clone_opt_string(o: &Option<String>) -> (r: Option<String>)
    ensures
        r == *o,
{
    match o {
        Some(s) => Some(s.clone()),
        None => None,
    }
}

fn clone_string_vec(v: &Vec<String>) -> (r: Vec<String>)
    ensures
        r@ == v@,
{
    let mut r: Vec<String> = Vec::new();
    let mut i: usize = 0;
    while i < v.len()
        invariant
            i <= v.len(),
            r@ =~= v@.subrange(0, i as int),
        decreases v.len() - i,
    {
        r.push(v[i].clone());
        proof {
            assert(r@ =~= v@.subrange(0, i + 1));
        }
        i = i + 1;
    }
    proof {
        assert(v@.subrange(0, v@.len() as int) =~= v@);
    }
    r
}

impl Clone for Script {
    /// A clone carries the same view.
    fn clone(&self) -> (res: Self)
        ensures
            res@ == self@,
    {
        let res = Script {
            id: self.id,
            name: self.name.clone(),
            path: self.path.clone(),
            category: self.category.clone(),
            menu_name: clone_opt_string(&self.menu_name),
            description: clone_opt_string(&self.description),
            detailed_description: clone_opt_string(&self.detailed_description),
            integration: clone_opt_string(&self.integration),
            info_url: clone_opt_string(&self.info_url),
            icon: clone_opt_string(&self.icon),
            color: clone_opt_string(&self.color),
            order: self.order,
            is_default: self.is_default,
            separator: clone_opt_string(&self.separator),
            tags: clone_string_vec(&self.tags),
            author: clone_opt_string(&self.author),
            parameters: clone_opt_string(&self.parameters),
            dependency_available: self.dependency_available,
            created_at: self.created_at,
            updated_at: self.updated_at,
        };
        proof {
            assert(res@ =~= self@);
        }
        res
    }
}

impl Script {
    /// A fresh entry with only name, path and category filled in; every
    /// directive-driven field starts unset and the entry counts as
    /// available until a dependency check says otherwise.
    pub fn new(name: String, path: String, category: String) -> (r: Script)
        ensures
            r@.id is None,
            r@.name == name@,
            r@.path == path@,
            r@.category == category@,
            r@.menu_name is None,
            r@.description is None,
            r@.detailed_description is None,
            r@.integration is None,
            r@.info_url is None,
            r@.icon is None,
            r@.color is None,
            r@.order is None,
            !r@.is_default,
            r@.separator is None,
            r@.tags == Seq::<Seq<char>>::empty(),
            r@.author is None,
            r@.parameters is None,
            r@.dependency_available,
            r@.created_at == r@.updated_at,
    {
        let now = now_millis();
        let r = Script {
            id: None,
            name,
            path,
            category,
            menu_name: None,
            description: None,
            detailed_description: None,
            integration: None,
            info_url: None,
            icon: None,
            color: None,
            order: None,
            is_default: false,
            separator: None,
            tags: Vec::new(),
            author: None,
            parameters: None,
            dependency_available: true,
            created_at: now,
            updated_at: now,
        };
        proof {
            assert(r@.tags =~= Seq::<Seq<char>>::empty());
        }
        r
    }

    /// The name shown in menus: the declared menu name when present, else
    /// the file-stem name.
    pub fn display_name(&self) -> (r: &str)
        ensures
            r@ == spec_display_name(self@),
    {
        match &self.menu_name {
            Some(m) => m.as_str(),
            None => self.name.as_str(),
        }
    }

    /// The icon glyph shown in menus, with a default for entries that
    /// declare none.
    pub fn display_icon(&self) -> (r: &str)
        ensures
            r@ == spec_display_icon(self@),
    {
        match &self.icon {
            Some(i) => i.as_str(),
            None => "\u{1F4DD}",
        }
    }

    /// The short description shown in menus, with a default for entries
    /// that declare none.
    pub fn display_description(&self) -> (r: &str)
        ensures
            r@ == spec_display_description(self@),
    {
        match &self.description {
            Some(d) => d.as_str(),
            None => "No description",
        }
    }

    /// Whether the entry carries a non-blank parameter block.
    pub fn has_parameters(&self) -> (r: bool)
        ensures
            r == spec_has_parameters(self@),
    {
        match &self.parameters {
            Some(p) => {
                let t = crate::text::trim_str(p.as_str());
                t.unicode_len() > 0
            },
            None => false,
        }
    }
}

/// What `display_name` returns.
pub open spec fn spec_display_name(s: ScriptV) -> Seq<char> {
    match s.menu_name {
        Some(m) => m,
        None => s.name,
    }
}

/// What `display_icon` returns.
pub open spec fn spec_display_icon(s: ScriptV) -> Seq<char> {
    match s.icon {
        Some(i) => i,
        None => "\u{1F4DD}"@,
    }
}

/// What `display_description` returns.
pub open spec fn spec_display_description(s: ScriptV) -> Seq<char> {
    match s.description {
        Some(d) => d,
        None => "No description"@,
    }
}

/// What `has_parameters` returns: a parameter block is present and not
/// blank.
pub open spec fn spec_has_parameters(s: ScriptV) -> bool {
    match s.parameters {
        Some(p) => crate::text::trim_spec(p).len() > 0,
        None => false,
    }
}

/// The input kind of one parameter descriptor.
#[derive(Clone, Copy, PartialEq, Eq, Structural, Debug)]
pub enum ParameterType {
    Text,
    Number,
    Password,
    Select,
    Radio,
    Checkbox,
    File,
    Directory,
    Boolean,
}

/// One choice of a bounded option set.
#[derive(Clone, Debug)]
pub struct ParameterOption {
    pub value: String,
    pub label: String,
    pub description: Option<String>,
}

/// Bounds a parameter value must satisfy. Numeric bounds are whole numbers.
#[derive(Clone, Debug)]
pub struct ParameterValidation {
    pub min_length: Option<usize>,
    pub max_length: Option<usize>,
    pub pattern: Option<String>,
    pub pattern_description: Option<String>,
    pub min_value: Option<i64>,
    pub max_value: Option<i64>,
}

/// One entry of a script's parameter specification.
#[derive(Clone, Debug)]
pub struct ScriptParameter {
    pub name: String,
    pub param_type: ParameterType,
    pub label: String,
    pub description: Option<String>,
    pub default_value: Option<String>,
    pub required: bool,
    pub options: Option<Vec<ParameterOption>>,
    pub validation: Option<ParameterValidation>,
}

/// A named group of scripts shown as one selectable menu entry.
pub struct MenuCategory {
    pub name: String,
    pub path: String,
    pub scripts: Vec<Script>,
    pub icon: String,
    pub order: i32,
}

/// The mathematical value of a `MenuCategory`.
#[verifier::ext_equal]
pub ghost struct MenuCategoryV {
    pub name: Seq<char>,
    pub path: Seq<char>,
    pub scripts: Seq<ScriptV>,
    pub icon: Seq<char>,
    pub order: int,
}

/// The views of a sequence of scripts.
pub open spec fn script_views(s: Seq<Script>) -> Seq<ScriptV> {
    s.map_values(|x: Script| x@)
}

impl View for MenuCategory {
    type V = MenuCategoryV;

    open spec fn view(&self) -> MenuCategoryV {
        MenuCategoryV {
            name: self.name@,
            path: self.path@,
            scripts: script_views(self.scripts@),
            icon: self.icon@,
            order: self.order as int,
        }
    }
}

fn clone_script_vec(v: &Vec<Script>) -> (r: Vec<Script>)
    ensures
        script_views(r@) == script_views(v@),
{
    let mut r: Vec<Script> = Vec::new();
    let mut i: usize = 0;
    while i < v.len()
        invariant
            i <= v.len(),
            r@.len() == i,
            script_views(r@) =~= script_views(v@.subrange(0, i as int)),
        decreases v.len() - i,
    {
        let ghost prev = r@;
        let c = v[i].clone();
        r.push(c);
        proof {
            assert forall|k: int| 0 <= k < i + 1 implies script_views(r@)[k] == script_views(
                v@.subrange(0, i + 1),
            )[k] by {
                assert(v@.subrange(0, i + 1)[k] == v@[k]);
                if k < i {
                    assert(script_views(prev)[k] == script_views(v@.subrange(0, i as int))[k]);
                    assert(v@.subrange(0, i as int)[k] == v@[k]);
                    assert(r@[k] == prev[k]);
                } else {
                    assert(r@[k] == c);
                }
            }
            assert(script_views(r@) =~= script_views(v@.subrange(0, i + 1)));
        }
        i = i + 1;
    }
    proof {
        assert(v@.subrange(0, v@.len() as int) =~= v@);
    }
    r
}

impl Clone for MenuCategory {
    /// A clone carries the same view.
    fn clone(&self) -> (res: Self)
        ensures
            res@ == self@,
    {
        let res = MenuCategory {
            name: self.name.clone(),
            path: self.path.clone(),
            scripts: clone_script_vec(&self.scripts),
            icon: self.icon.clone(),
            order: self.order,
        };
        proof {
            assert(res@ =~= self@);
        }
        res
    }
}

impl MenuCategory {
    /// A category entry with no scripts yet, a folder glyph and the
    /// default order.
    pub fn new(name: String, path: String) -> (r: MenuCategory)
        ensures
            r@.name == name@,
            r@.path == path@,
            r@.scripts == Seq::<ScriptV>::empty(),
            r@.icon == "\u{1F4C1}"@,
            r@.order == crate::DEFAULT_ORDER as int,
    {
        let r = MenuCategory {
            name,
            path,
            scripts: Vec::new(),
            icon: String::from_str("\u{1F4C1}"),
            order: crate::DEFAULT_ORDER,
        };
        proof {
            assert(r@.scripts =~= Seq::<ScriptV>::empty());
        }
        r
    }

    /// How many entries the category holds.
    pub fn total_items(&self) -> (r: usize)
        ensures
            r == self@.scripts.len(),
    {
        self.scripts.len()
    }

    /// Whether the category holds nothing.
    pub fn is_empty(&self) -> (r: bool)
        ensures
            r == (self@.scripts.len() == 0),
    {
        self.scripts.is_empty()
    }
}

/// One selectable (or separator) entry of the menu in its current view.
pub enum MenuItem {
    Category(MenuCategory),
    Script(Script),
    Separator(String),
    Back,
    Home,
    Search,
    Exit,
}

/// The mathematical value of a `MenuItem`.
#[verifier::ext_equal]
pub ghost enum MenuItemV {
    Category(MenuCategoryV),
    Script(ScriptV),
    Separator(Seq<char>),
    Back,
    Home,
    Search,
    Exit,
}

impl View for MenuItem {
    type V = MenuItemV;

    open spec fn view(&self) -> MenuItemV {
        match self {
            MenuItem::Category(c) => MenuItemV::Category(c@),
            MenuItem::Script(s) => MenuItemV::Script(s@),
            MenuItem::Separator(t) => MenuItemV::Separator(t@),
            MenuItem::Back => MenuItemV::Back,
            MenuItem::Home => MenuItemV::Home,
            MenuItem::Search => MenuItemV::Search,
            MenuItem::Exit => MenuItemV::Exit,
        }
    }
}

impl Clone for MenuItem {
    /// A clone carries the same view.
    fn clone(&self) -> (res: Self)
        ensures
            res@ == self@,
    {
        match self {
            MenuItem::Category(c) => MenuItem::Category(c.clone()),
            MenuItem::Script(s) => MenuItem::Script(s.clone()),
            MenuItem::Separator(t) => MenuItem::Separator(t.clone()),
            MenuItem::Back => MenuItem::Back,
            MenuItem::Home => MenuItem::Home,
            MenuItem::Search => MenuItem::Search,
            MenuItem::Exit => MenuItem::Exit,
        }
    }
}

/// The views of a sequence of menu items.
pub open spec fn item_views(s: Seq<MenuItem>) -> Seq<MenuItemV> {
    s.map_values(|x: MenuItem| x@)
}

/// The session's navigation state: the current view, the breadcrumb trail,
/// the selection, the search buffer and the entries on display.
pub struct MenuState {
    pub current_category: String,
    pub breadcrumb: Vec<String>,
    pub selected_index: usize,
    pub search_mode: bool,
    pub search_query: String,
    pub filtered_items: Vec<MenuItem>,
}

/// The mathematical value of a `MenuState`.
#[verifier::ext_equal]
pub ghost struct MenuStateV {
    pub current_category: Seq<char>,
    pub breadcrumb: Seq<Seq<char>>,
    pub selected_index: int,
    pub search_mode: bool,
    pub search_query: Seq<char>,
    pub filtered_items: Seq<MenuItemV>,
}

impl View for MenuState {
    type V = MenuStateV;

    open spec fn view(&self) -> MenuStateV {
        MenuStateV {
            current_category: self.current_category@,
            breadcrumb: crate::text::str_views(self.breadcrumb@),
            selected_index: self.selected_index as int,
            search_mode: self.search_mode,
            search_query: self.search_query@,
            filtered_items: item_views(self.filtered_items@),
        }
    }
}

impl Default for MenuState {
    /// A fresh session: at the root view, breadcrumb holding only "Home",
    /// nothing selected yet, search off.
    fn default() -> (r: MenuState)
        ensures
            r@.current_category == "root"@,
            r@.breadcrumb =~= seq!["Home"@],
            r@.selected_index == 0,
            !r@.search_mode,
            r@.search_query == Seq::<char>::empty(),
            r@.filtered_items == Seq::<MenuItemV>::empty(),
    {
        let mut breadcrumb: Vec<String> = Vec::new();
        breadcrumb.push(String::from_str("Home"));
        let r = MenuState {
            current_category: String::from_str("root"),
            breadcrumb,
            selected_index: 0,
            search_mode: false,
            search_query: String::new(),
            filtered_items: Vec::new(),
        };
        proof {
            assert(r@.breadcrumb =~= seq!["Home"@]);
            assert(r@.filtered_items =~= Seq::<MenuItemV>::empty());
        }
        r
    }
}

} // verus!
