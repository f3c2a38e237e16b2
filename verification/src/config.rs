//! Formatting options, configuration files and their merge with command-line
//! flags.
//!
//! Configuration comes from `.flowmark.toml`, `flowmark.toml` or the
//! `[tool.flowmark]` table of `pyproject.toml`, the first found walking up
//! from the working directory. Explicit command-line flags win over the
//! configuration file, which wins over the built-in defaults.

use vstd::prelude::*;
use crate::text::{views, str_equals, chars_of, append_str, string_of};
use crate::regex_scan::opt_view;
use crate::formatter::filling::{to_lowercase, lowercase_of};
use crate::wrapping::text_filling::DEFAULT_WRAP_WIDTH;
use crate::file_resolver::config::copy_strings;

verus! {

// ---------------------------------------------------------------------------
// List spacing
// ---------------------------------------------------------------------------

/// Controls how list item spacing is handled during Markdown normalization.
#[derive(Debug, Clone, Copy, PartialEq, Eq, Structural)]
pub enum ListSpacing {
    /// Keep lists tight or loose as authored (the default).
    Preserve,
    /// Convert all lists to loose format (blank lines between items).
    Loose,
    /// Convert all lists to tight format where possible.
    Tight,
}

impl Default for ListSpacing {
    fn default() -> (r: Self)
        ensures
            r == ListSpacing::Preserve,
    {
        ListSpacing::Preserve
    }
}

/// The name of a list spacing mode, as it is written and displayed.
pub open spec fn spacing_name(s: ListSpacing) -> Seq<char> {
    match s {
        ListSpacing::Preserve => "preserve"@,
        ListSpacing::Loose => "loose"@,
        ListSpacing::Tight => "tight"@,
    }
}

/// The mode a (lowercase) name stands for.
pub open spec fn spacing_named(name: Seq<char>) -> Option<ListSpacing> {
    if name == "preserve"@ {
        Some(ListSpacing::Preserve)
    } else if name == "loose"@ {
        Some(ListSpacing::Loose)
    } else if name == "tight"@ {
        Some(ListSpacing::Tight)
    } else {
        None
    }
}

impl ListSpacing {
    /// The lowercase name of the mode.
    pub fn as_str(&self) -> (r: &'static str)
        ensures
            r@ == spacing_name(*self),
    {
        match self {
            ListSpacing::Preserve => "preserve",
            ListSpacing::Loose => "loose",
            ListSpacing::Tight => "tight",
        }
    }

    /// Parses a mode name, ignoring case.
    pub fn parse(s: &str) -> (r: Result<ListSpacing, String>)
        ensures
            match spacing_named(lowercase_of(s@)) {
                Some(k) => r == Ok::<ListSpacing, String>(k),
                None => r matches Err(m) && m@ == "invalid list spacing: "@ + s@,
            },
    {
        let low = to_lowercase(s);
        if str_equals(low.as_str(), "preserve") {
            Ok(ListSpacing::Preserve)
        } else if str_equals(low.as_str(), "loose") {
            Ok(ListSpacing::Loose)
        } else if str_equals(low.as_str(), "tight") {
            Ok(ListSpacing::Tight)
        } else {
            let mut m = chars_of("invalid list spacing: ");
            append_str(&mut m, s);
            Err(string_of(&m))
        }
    }
}

impl std::str::FromStr for ListSpacing {
    type Err = String;

    fn from_str(s: &str) -> Result<Self, Self::Err> {
        ListSpacing::parse(s)
    }
}

// ---------------------------------------------------------------------------
// Formatting options
// ---------------------------------------------------------------------------

/// Options controlling Markdown formatting behavior.
#[derive(Debug, Clone, Copy, PartialEq, Eq, Structural)]
pub struct FormatOptions {
    /// Line width (0 to disable wrapping).
    pub width: usize,
    /// Treat input as plaintext (no Markdown parsing).
    pub plaintext: bool,
    /// Use semantic (sentence-based) line breaks.
    pub semantic: bool,
    /// Apply safe cleanups (e.g., unbold headings).
    pub cleanups: bool,
    /// Convert straight quotes to curly quotes.
    pub smartquotes: bool,
    /// Convert `...` to an ellipsis character.
    pub ellipses: bool,
    /// Control list item spacing.
    pub list_spacing: ListSpacing,
}

impl Default for FormatOptions {
    fn default() -> (r: Self)
        ensures
            r == (FormatOptions {
                width: DEFAULT_WRAP_WIDTH,
                plaintext: false,
                semantic: false,
                cleanups: false,
                smartquotes: false,
                ellipses: false,
                list_spacing: ListSpacing::Preserve,
            }),
    {
        FormatOptions {
            width: DEFAULT_WRAP_WIDTH,
            plaintext: false,
            semantic: false,
            cleanups: false,
            smartquotes: false,
            ellipses: false,
            list_spacing: ListSpacing::Preserve,
        }
    }
}

// ---------------------------------------------------------------------------
// Configuration file contents
// ---------------------------------------------------------------------------

/// Settings read from a configuration file. A field is `None` when the file
/// does not set it, so that "not configured" differs from "set to the
/// default".
#[derive(Debug, Clone)]
pub struct FlowmarkConfig {
    pub width: Option<usize>,
    pub semantic: Option<bool>,
    pub cleanups: Option<bool>,
    pub smartquotes: Option<bool>,
    pub ellipses: Option<bool>,
    pub list_spacing: Option<String>,
    /// File patterns to format (replaces the default patterns).
    pub include_patterns: Option<Vec<String>>,
    pub extend_include: Option<Vec<String>>,
    pub exclude: Option<Vec<String>>,
    pub extend_exclude: Option<Vec<String>>,
    pub files_max_size: Option<u64>,
    pub respect_gitignore: Option<bool>,
    pub force_exclude: Option<bool>,
    pub incremental: Option<bool>,
    pub incremental_cache_dir: Option<String>,
}

/// The settings of a configuration, as plain values.
pub struct ConfigView {
    pub width: Option<usize>,
    pub semantic: Option<bool>,
    pub cleanups: Option<bool>,
    pub smartquotes: Option<bool>,
    pub ellipses: Option<bool>,
    pub list_spacing: Option<Seq<char>>,
    pub include_patterns: Option<Seq<Seq<char>>>,
    pub extend_include: Option<Seq<Seq<char>>>,
    pub exclude: Option<Seq<Seq<char>>>,
    pub extend_exclude: Option<Seq<Seq<char>>>,
    pub files_max_size: Option<u64>,
    pub respect_gitignore: Option<bool>,
    pub force_exclude: Option<bool>,
    pub incremental: Option<bool>,
    pub incremental_cache_dir: Option<Seq<char>>,
}

pub open spec fn opt_list_view(o: Option<Vec<String>>) -> Option<Seq<Seq<char>>> {
    match o {
        Some(v) => Some(views(v@)),
        None => None,
    }
}

impl View for FlowmarkConfig {
    type V = ConfigView;

    open spec fn view(&self) -> ConfigView {
        ConfigView {
            width: self.width,
            semantic: self.semantic,
            cleanups: self.cleanups,
            smartquotes: self.smartquotes,
            ellipses: self.ellipses,
            list_spacing: opt_view(self.list_spacing),
            include_patterns: opt_list_view(self.include_patterns),
            extend_include: opt_list_view(self.extend_include),
            exclude: opt_list_view(self.exclude),
            extend_exclude: opt_list_view(self.extend_exclude),
            files_max_size: self.files_max_size,
            respect_gitignore: self.respect_gitignore,
            force_exclude: self.force_exclude,
            incremental: self.incremental,
            incremental_cache_dir: opt_view(self.incremental_cache_dir),
        }
    }
}

/// The configuration that sets nothing.
pub open spec fn empty_config() -> ConfigView {
    ConfigView {
        width: None,
        semantic: None,
        cleanups: None,
        smartquotes: None,
        ellipses: None,
        list_spacing: None,
        include_patterns: None,
        extend_include: None,
        exclude: None,
        extend_exclude: None,
        files_max_size: None,
        respect_gitignore: None,
        force_exclude: None,
        incremental: None,
        incremental_cache_dir: None,
    }
}

impl Default for FlowmarkConfig {
    fn default() -> (r: Self)
        ensures
            r@ == empty_config(),
    {
        FlowmarkConfig {
            width: None,
            semantic: None,
            cleanups: None,
            smartquotes: None,
            ellipses: None,
            list_spacing: None,
            include_patterns: None,
            extend_include: None,
            exclude: None,
            extend_exclude: None,
            files_max_size: None,
            respect_gitignore: None,
            force_exclude: None,
            incremental: None,
            incremental_cache_dir: None,
        }
    }
}

// ---------------------------------------------------------------------------
// Merging with command-line flags
// ---------------------------------------------------------------------------

/// A typed configuration value, as handed to the command line's settings.
#[derive(Debug, Clone)]
pub enum ConfigValue {
    Bool(bool),
    Usize(usize),
    U64(u64),
    Text(String),
    StringList(Vec<String>),
}

/// A configuration value as plain values.
pub enum ValueView {
    Bool(bool),
    Usize(usize),
    U64(u64),
    Text(Seq<char>),
    List(Seq<Seq<char>>),
}

impl View for ConfigValue {
    type V = ValueView;

    open spec fn view(&self) -> ValueView {
        match self {
            ConfigValue::Bool(b) => ValueView::Bool(*b),
            ConfigValue::Usize(n) => ValueView::Usize(*n),
            ConfigValue::U64(n) => ValueView::U64(*n),
            ConfigValue::Text(s) => ValueView::Text(s@),
            ConfigValue::StringList(v) => ValueView::List(views(v@)),
        }
    }
}

/// The number of configuration fields.
pub const CONFIG_FIELD_COUNT: usize = 15;

/// The name of configuration field `i`, in the order the merge visits them.
pub open spec fn field_name(i: int) -> Seq<char> {
    if i == 0 {
        "width"@
    } else if i == 1 {
        "semantic"@
    } else if i == 2 {
        "cleanups"@
    } else if i == 3 {
        "smartquotes"@
    } else if i == 4 {
        "ellipses"@
    } else if i == 5 {
        "list_spacing"@
    } else if i == 6 {
        "include"@
    } else if i == 7 {
        "extend_include"@
    } else if i == 8 {
        "exclude"@
    } else if i == 9 {
        "extend_exclude"@
    } else if i == 10 {
        "files_max_size"@
    } else if i == 11 {
        "respect_gitignore"@
    } else if i == 12 {
        "force_exclude"@
    } else if i == 13 {
        "incremental"@
    } else {
        "incremental_cache_dir"@
    }
}

pub open spec fn opt_bool(o: Option<bool>) -> Option<ValueView> {
    match o {
        Some(b) => Some(ValueView::Bool(b)),
        None => None,
    }
}

pub open spec fn opt_text(o: Option<Seq<char>>) -> Option<ValueView> {
    match o {
        Some(s) => Some(ValueView::Text(s)),
        None => None,
    }
}

pub open spec fn opt_list(o: Option<Seq<Seq<char>>>) -> Option<ValueView> {
    match o {
        Some(l) => Some(ValueView::List(l)),
        None => None,
    }
}

/// The value of configuration field `i`, when the configuration sets it.
pub open spec fn field_value(c: ConfigView, i: int) -> Option<ValueView> {
    if i == 0 {
        match c.width {
            Some(n) => Some(ValueView::Usize(n)),
            None => None,
        }
    } else if i == 1 {
        opt_bool(c.semantic)
    } else if i == 2 {
        opt_bool(c.cleanups)
    } else if i == 3 {
        opt_bool(c.smartquotes)
    } else if i == 4 {
        opt_bool(c.ellipses)
    } else if i == 5 {
        opt_text(c.list_spacing)
    } else if i == 6 {
        opt_list(c.include_patterns)
    } else if i == 7 {
        opt_list(c.extend_include)
    } else if i == 8 {
        opt_list(c.exclude)
    } else if i == 9 {
        opt_list(c.extend_exclude)
    } else if i == 10 {
        match c.files_max_size {
            Some(n) => Some(ValueView::U64(n)),
            None => None,
        }
    } else if i == 11 {
        opt_bool(c.respect_gitignore)
    } else if i == 12 {
        opt_bool(c.force_exclude)
    } else if i == 13 {
        opt_bool(c.incremental)
    } else {
        opt_text(c.incremental_cache_dir)
    }
}

/// The settings that `--auto` fixes from its preset: every formatting
/// setting, so that only `width` and file discovery come from the file.
pub open spec fn auto_locked(name: Seq<char>) -> bool {
    name == "semantic"@ || name == "cleanups"@ || name == "smartquotes"@ || name == "ellipses"@
        || name == "list_spacing"@ || name == "inplace"@ || name == "nobackup"@
}

/// Whether field `i` of the configuration is applied: the file sets it, no
/// explicit flag set it, and `--auto` does not fix it.
pub open spec fn field_applies(c: ConfigView, auto: bool, flags: Seq<Seq<char>>, i: int) -> bool {
    &&& field_value(c, i) is Some
    &&& !flags.contains(field_name(i))
    &&& !(auto && auto_locked(field_name(i)))
}

/// The (name, value) pairs applied among the first `n` fields, in order.
pub open spec fn merged_fields(c: ConfigView, auto: bool, flags: Seq<Seq<char>>, n: int) -> Seq<
    (Seq<char>, ValueView),
>
    decreases n,
{
    if n <= 0 {
        Seq::empty()
    } else {
        let rest = merged_fields(c, auto, flags, n - 1);
        if field_applies(c, auto, flags, n - 1) {
            rest.push((field_name(n - 1), field_value(c, n - 1)->Some_0))
        } else {
            rest
        }
    }
}

pub open spec fn pair_views(r: Seq<(String, ConfigValue)>) -> Seq<(Seq<char>, ValueView)> {
    r.map_values(|p: (String, ConfigValue)| (p.0@, p.1@))
}

pub open spec fn str_views(s: Seq<&str>) -> Seq<Seq<char>> {
    s.map_values(|x: &str| x@)
}

fn bool_value(o: Option<bool>) -> (r: Option<ConfigValue>)
    ensures
        match r {
            Some(v) => opt_bool(o) == Some(v@),
            None => opt_bool(o) is None,
        },
{
    match o {
        Some(b) => Some(ConfigValue::Bool(b)),
        None => None,
    }
}

fn text_value(o: &Option<String>) -> (r: Option<ConfigValue>)
    ensures
        match r {
            Some(v) => opt_text(opt_view(*o)) == Some(v@),
            None => opt_text(opt_view(*o)) is None,
        },
{
    match o {
        Some(s) => Some(ConfigValue::Text(s.clone())),
        None => None,
    }
}

fn list_value(o: &Option<Vec<String>>) -> (r: Option<ConfigValue>)
    ensures
        match r {
            Some(v) => opt_list(opt_list_view(*o)) == Some(v@),
            None => opt_list(opt_list_view(*o)) is None,
        },
{
    match o {
        Some(l) => Some(ConfigValue::StringList(copy_strings(l))),
        None => None,
    }
}

/// The name and value of configuration field `i`.
fn field_entry(c: &FlowmarkConfig, i: usize) -> (r: (&'static str, Option<ConfigValue>))
    requires
        i < CONFIG_FIELD_COUNT,
    ensures
        r.0@ == field_name(i as int),
        match r.1 {
            Some(v) => field_value(c@, i as int) == Some(v@),
            None => field_value(c@, i as int) is None,
        },
{
    if i == 0 {
        (
            "width",
            match c.width {
                Some(n) => Some(ConfigValue::Usize(n)),
                None => None,
            },
        )
    } else if i == 1 {
        ("semantic", bool_value(c.semantic))
    } else if i == 2 {
        ("cleanups", bool_value(c.cleanups))
    } else if i == 3 {
        ("smartquotes", bool_value(c.smartquotes))
    } else if i == 4 {
        ("ellipses", bool_value(c.ellipses))
    } else if i == 5 {
        ("list_spacing", text_value(&c.list_spacing))
    } else if i == 6 {
        ("include", list_value(&c.include_patterns))
    } else if i == 7 {
        ("extend_include", list_value(&c.extend_include))
    } else if i == 8 {
        ("exclude", list_value(&c.exclude))
    } else if i == 9 {
        ("extend_exclude", list_value(&c.extend_exclude))
    } else if i == 10 {
        (
            "files_max_size",
            match c.files_max_size {
                Some(n) => Some(ConfigValue::U64(n)),
                None => None,
            },
        )
    } else if i == 11 {
        ("respect_gitignore", bool_value(c.respect_gitignore))
    } else if i == 12 {
        ("force_exclude", bool_value(c.force_exclude))
    } else if i == 13 {
        ("incremental", bool_value(c.incremental))
    } else {
        ("incremental_cache_dir", text_value(&c.incremental_cache_dir))
    }
}

fn is_auto_locked(name: &str) -> (b: bool)
    ensures
        b == auto_locked(name@),
{
    str_equals(name, "semantic") || str_equals(name, "cleanups") || str_equals(name, "smartquotes")
        || str_equals(name, "ellipses") || str_equals(name, "list_spacing") || str_equals(name,
        "inplace") || str_equals(name, "nobackup")
}

fn flags_contain(flags: &[&str], name: &str) -> (b: bool)
    ensures
        b == str_views(flags@).contains(name@),
{
    let mut i: usize = 0;
    while i < flags.len()
        invariant
            i <= flags.len(),
            forall|j: int| 0 <= j < i ==> str_views(flags@)[j] != name@,
        decreases flags.len() - i,
    {
        if str_equals(flags[i], name) {
            assert(str_views(flags@)[i as int] == name@);
            return true;
        }
        i += 1;
    }
    false
}

/// The configuration settings to apply on top of the command line, in
/// order: explicit command-line flags win over the file, and under `--auto`
/// the formatting settings come from the preset; `width` and the file
/// discovery settings still come from the file. Nothing applies without a
/// configuration.
pub fn merge_cli_with_config(
    config: Option<&FlowmarkConfig>,
    is_auto: bool,
    explicit_flags: &[&str],
) -> (r: Vec<(String, ConfigValue)>)
    ensures
        match config {
            Some(c) => pair_views(r@) == merged_fields(
                c@,
                is_auto,
                str_views(explicit_flags@),
                CONFIG_FIELD_COUNT as int,
            ),
            None => r@.len() == 0,
        },
{
    let mut r: Vec<(String, ConfigValue)> = Vec::new();
    let c = match config {
        Some(c) => c,
        None => {
            return r;
        },
    };
    let ghost flags = str_views(explicit_flags@);
    let mut i: usize = 0;
    while i < CONFIG_FIELD_COUNT
        invariant
            i <= CONFIG_FIELD_COUNT,
            flags == str_views(explicit_flags@),
            pair_views(r@) == merged_fields(c@, is_auto, flags, i as int),
        decreases CONFIG_FIELD_COUNT - i,
    {
        let (name, value) = field_entry(c, i);
        let ghost before = r@;
        match value {
            Some(v) => {
                if !flags_contain(explicit_flags, name) && !(is_auto && is_auto_locked(name)) {
                    r.push((name.to_owned(), v));
                    assert(pair_views(r@) =~= pair_views(before).push((field_name(i as int), v@)));
                }
            },
            None => {},
        }
        i += 1;
    }
    r
}


// ---------------------------------------------------------------------------
// TOML documents
// ---------------------------------------------------------------------------

/// A TOML value, as the configuration reads it. Floats and datetimes, which
/// no setting takes, are `Other`; a table keeps its entries in the order the
/// parser hands them out.
#[derive(Debug)]
pub enum TomlValue {
    Integer(i64),
    Boolean(bool),
    Text(String),
    Array(Vec<TomlValue>),
    Table(Vec<(String, TomlValue)>),
    Other,
}

#[verifier::external_type_specification]
#[verifier::external_body]
pub struct ExTomlValue(toml::Value);

/// Converts a `toml::Value` into a [`TomlValue`], variant for variant.
#[verifier::external_body]
fn toml_value_of(v: &toml::Value) -> (r: TomlValue) {
    match v {
        toml::Value::Integer(i) => TomlValue::Integer(*i),
        toml::Value::Boolean(b) => TomlValue::Boolean(*b),
        toml::Value::String(s) => TomlValue::Text(s.clone()),
        toml::Value::Array(a) => TomlValue::Array(a.iter().map(toml_value_of).collect()),
        toml::Value::Table(t) => TomlValue::Table(
            t.iter().map(|(k, x)| (k.clone(), toml_value_of(x))).collect(),
        ),
        _ => TomlValue::Other,
    }
}

/// What `toml::from_str::<toml::Value>` makes of a text: `None` when the
/// text is not a valid TOML document.
pub uninterp spec fn toml_document_of(text: Seq<char>) -> Option<TomlValue>;

/// `toml::from_str::<toml::Value>`: parses a TOML document.
///
/// Claimed of the crate: the result is a function of the text alone (named
/// `toml_document_of`); what the document holds is not stated here.
#[verifier::external_body]
pub(crate) fn parse_toml_document(text: &str) -> (r: Option<TomlValue>)
    ensures
        r == toml_document_of(text@),
{
    toml::from_str::<toml::Value>(text).ok().map(|v| toml_value_of(&v))
}

pub open spec fn toml_bool(v: TomlValue) -> Option<bool> {
    match v {
        TomlValue::Boolean(b) => Some(b),
        _ => None,
    }
}

pub open spec fn toml_integer(v: TomlValue) -> Option<i64> {
    match v {
        TomlValue::Integer(i) => Some(i),
        _ => None,
    }
}

pub open spec fn toml_text(v: TomlValue) -> Option<Seq<char>> {
    match v {
        TomlValue::Text(s) => Some(s@),
        _ => None,
    }
}

/// The strings among array items, in order; other items are skipped.
pub open spec fn string_items(items: Seq<TomlValue>) -> Seq<Seq<char>>
    decreases items.len(),
{
    if items.len() == 0 {
        Seq::empty()
    } else {
        let rest = string_items(items.drop_last());
        match items.last() {
            TomlValue::Text(s) => rest.push(s@),
            _ => rest,
        }
    }
}

pub open spec fn toml_string_list(v: TomlValue) -> Option<Seq<Seq<char>>> {
    match v {
        TomlValue::Array(items) => Some(string_items(items@)),
        _ => None,
    }
}

/// The value of the first entry with the given key.
pub open spec fn table_get(entries: Seq<(String, TomlValue)>, key: Seq<char>) -> Option<TomlValue>
    decreases entries.len(),
{
    if entries.len() == 0 {
        None
    } else if entries[0].0@ == key {
        Some(entries[0].1)
    } else {
        table_get(entries.drop_first(), key)
    }
}

/// What `toml::Value::get` finds under `key`: the value of that entry of a
/// table, `None` for a value that is not a table.
pub open spec fn toml_lookup(v: TomlValue, key: Seq<char>) -> Option<TomlValue> {
    match v {
        TomlValue::Table(e) => table_get(e@, key),
        _ => None,
    }
}

pub open spec fn opt_deref(r: Option<&TomlValue>) -> Option<TomlValue> {
    match r {
        Some(x) => Some(*x),
        None => None,
    }
}

/// `toml::Value::get`: the value under `key` in a table.
pub fn toml_get<'a>(v: &'a TomlValue, key: &str) -> (r: Option<&'a TomlValue>)
    ensures
        opt_deref(r) == toml_lookup(*v, key@),
{
    match v {
        TomlValue::Table(e) => {
            let mut i: usize = 0;
            assert(e@.skip(0) =~= e@);
            while i < e.len()
                invariant
                    i <= e.len(),
                    toml_lookup(*v, key@) == table_get(e@.skip(i as int), key@),
                decreases e.len() - i,
            {
                if str_equals(e[i].0.as_str(), key) {
                    let ghost rest = e@.skip(i as int);
                    assert(rest[0] == e@[i as int]);
                    assert(rest[0].0@ == key@);
                    assert(table_get(rest, key@) == Some(rest[0].1));
                    return Some(&e[i].1);
                }
                assert(e@.skip(i as int).drop_first() =~= e@.skip(i + 1));
                i += 1;
            }
            assert(e@.skip(e.len() as int).len() == 0);
            None
        },
        _ => None,
    }
}

/// The strings of a TOML array.
fn extract_string_array(value: &TomlValue) -> (r: Option<Vec<String>>)
    ensures
        opt_list_view(r) == toml_string_list(*value),
{
    match value {
        TomlValue::Array(items) => {
            let mut out: Vec<String> = Vec::new();
            let mut i: usize = 0;
            while i < items.len()
                invariant
                    i <= items.len(),
                    views(out@) == string_items(items@.take(i as int)),
                decreases items.len() - i,
            {
                assert(items@.take(i + 1).drop_last() =~= items@.take(i as int));
                match &items[i] {
                    TomlValue::Text(s) => {
                        let c = s.clone();
                        let ghost before = out@;
                        out.push(c);
                        assert(out@ == before.push(c));
                        assert(views(out@) =~= views(before).push(c@));
                    },
                    _ => {},
                }
                i += 1;
            }
            assert(items@.take(items.len() as int) =~= items@);
            Some(out)
        },
        _ => None,
    }
}

// ---------------------------------------------------------------------------
// Reading a configuration from a TOML document
// ---------------------------------------------------------------------------

/// The setting a kebab-case key (or an alias) names.
pub open spec fn kebab_alias(key: Seq<char>) -> Option<Seq<char>> {
    if key == "list-spacing"@ {
        Some("list_spacing"@)
    } else if key == "extend-include"@ {
        Some("extend_include"@)
    } else if key == "extend-exclude"@ {
        Some("extend_exclude"@)
    } else if key == "files-max-size"@ {
        Some("files_max_size"@)
    } else if key == "respect-gitignore"@ {
        Some("respect_gitignore"@)
    } else if key == "force-exclude"@ {
        Some("force_exclude"@)
    } else if key == "cache"@ {
        Some("incremental"@)
    } else if key == "cache-dir"@ {
        Some("incremental_cache_dir"@)
    } else if key == "incremental-cache-dir"@ {
        Some("incremental_cache_dir"@)
    } else {
        None
    }
}

/// Whether a name is one of the settings.
pub open spec fn is_setting(key: Seq<char>) -> bool {
    exists|i: int| 0 <= i < CONFIG_FIELD_COUNT && field_name(i) == key
}

pub open spec fn dashes_to_underscores(s: Seq<char>) -> Seq<char> {
    s.map_values(|c: char| if c == '-' { '_' } else { c })
}

/// The setting a configuration key stands for: its alias when it has one,
/// the key itself when that names a setting, else the key with dashes
/// replaced by underscores.
pub open spec fn setting_key(key: Seq<char>) -> Seq<char> {
    let snake = match kebab_alias(key) {
        Some(k) => k,
        None => key,
    };
    if is_setting(snake) {
        snake
    } else {
        dashes_to_underscores(key)
    }
}

/// The configuration with one setting taken from a TOML value. A boolean
/// setting and a list setting take `None` from a value of another kind;
/// `width`, `files_max_size` and the string settings keep their value then.
pub open spec fn set_field(c: ConfigView, key: Seq<char>, v: TomlValue) -> ConfigView {
    if key == "width"@ {
        match toml_integer(v) {
            Some(i) => ConfigView { width: Some(i as usize), ..c },
            None => c,
        }
    } else if key == "semantic"@ {
        ConfigView { semantic: toml_bool(v), ..c }
    } else if key == "cleanups"@ {
        ConfigView { cleanups: toml_bool(v), ..c }
    } else if key == "smartquotes"@ {
        ConfigView { smartquotes: toml_bool(v), ..c }
    } else if key == "ellipses"@ {
        ConfigView { ellipses: toml_bool(v), ..c }
    } else if key == "list_spacing"@ {
        match toml_text(v) {
            Some(s) => ConfigView { list_spacing: Some(s), ..c },
            None => c,
        }
    } else if key == "include"@ {
        ConfigView { include_patterns: toml_string_list(v), ..c }
    } else if key == "extend_include"@ {
        ConfigView { extend_include: toml_string_list(v), ..c }
    } else if key == "exclude"@ {
        ConfigView { exclude: toml_string_list(v), ..c }
    } else if key == "extend_exclude"@ {
        ConfigView { extend_exclude: toml_string_list(v), ..c }
    } else if key == "files_max_size"@ {
        match toml_integer(v) {
            Some(i) => ConfigView { files_max_size: Some(i as u64), ..c },
            None => c,
        }
    } else if key == "respect_gitignore"@ {
        ConfigView { respect_gitignore: toml_bool(v), ..c }
    } else if key == "force_exclude"@ {
        ConfigView { force_exclude: toml_bool(v), ..c }
    } else if key == "incremental"@ {
        ConfigView { incremental: toml_bool(v), ..c }
    } else if key == "incremental_cache_dir"@ {
        match toml_text(v) {
            Some(s) => ConfigView { incremental_cache_dir: Some(s), ..c },
            None => c,
        }
    } else {
        c
    }
}


/// The name of setting `i`.
pub fn setting_name(i: usize) -> (r: &'static str)
    requires
        i < CONFIG_FIELD_COUNT,
    ensures
        r@ == field_name(i as int),
{
    if i == 0 {
        "width"
    } else if i == 1 {
        "semantic"
    } else if i == 2 {
        "cleanups"
    } else if i == 3 {
        "smartquotes"
    } else if i == 4 {
        "ellipses"
    } else if i == 5 {
        "list_spacing"
    } else if i == 6 {
        "include"
    } else if i == 7 {
        "extend_include"
    } else if i == 8 {
        "exclude"
    } else if i == 9 {
        "extend_exclude"
    } else if i == 10 {
        "files_max_size"
    } else if i == 11 {
        "respect_gitignore"
    } else if i == 12 {
        "force_exclude"
    } else if i == 13 {
        "incremental"
    } else {
        "incremental_cache_dir"
    }
}

fn kebab_to_snake(key: &str) -> (r: Option<&'static str>)
    ensures
        match r {
            Some(k) => kebab_alias(key@) == Some(k@),
            None => kebab_alias(key@) is None,
        },
{
    if str_equals(key, "list-spacing") {
        Some("list_spacing")
    } else if str_equals(key, "extend-include") {
        Some("extend_include")
    } else if str_equals(key, "extend-exclude") {
        Some("extend_exclude")
    } else if str_equals(key, "files-max-size") {
        Some("files_max_size")
    } else if str_equals(key, "respect-gitignore") {
        Some("respect_gitignore")
    } else if str_equals(key, "force-exclude") {
        Some("force_exclude")
    } else if str_equals(key, "cache") {
        Some("incremental")
    } else if str_equals(key, "cache-dir") {
        Some("incremental_cache_dir")
    } else if str_equals(key, "incremental-cache-dir") {
        Some("incremental_cache_dir")
    } else {
        None
    }
}

/// Whether a name is one of the settings.
pub fn is_setting_name(key: &str) -> (b: bool)
    ensures
        b == is_setting(key@),
{
    let mut i: usize = 0;
    while i < CONFIG_FIELD_COUNT
        invariant
            i <= CONFIG_FIELD_COUNT,
            forall|j: int| 0 <= j < i ==> field_name(j) != key@,
        decreases CONFIG_FIELD_COUNT - i,
    {
        if str_equals(setting_name(i), key) {
            return true;
        }
        i += 1;
    }
    false
}

pub(crate) fn replace_dashes(key: &str) -> (r: String)
    ensures
        r@ == dashes_to_underscores(key@),
{
    let v = chars_of(key);
    let mut out: Vec<char> = Vec::new();
    let mut i: usize = 0;
    while i < v.len()
        invariant
            i <= v.len(),
            v@ == key@,
            out@ == dashes_to_underscores(v@.take(i as int)),
        decreases v.len() - i,
    {
        let c = v[i];
        out.push(if c == '-' { '_' } else { c });
        assert(out@ =~= dashes_to_underscores(v@.take(i + 1)));
        i += 1;
    }
    assert(v@.take(v.len() as int) =~= v@);
    string_of(&out)
}

/// The setting a configuration key stands for (see [`setting_key`]).
pub fn effective_setting_key(key: &str) -> (r: String)
    ensures
        r@ == setting_key(key@),
{
    let snake: String = match kebab_to_snake(key) {
        Some(k) => k.to_owned(),
        None => key.to_owned(),
    };
    if is_setting_name(snake.as_str()) {
        snake
    } else {
        replace_dashes(key)
    }
}

/// Sets one setting of the configuration from a TOML value.
pub fn set_config_field(config: &mut FlowmarkConfig, key: &str, value: &TomlValue)
    ensures
        final(config)@ == set_field(old(config)@, key@, *value),
{
    if str_equals(key, "width") {
        match value {
            TomlValue::Integer(i) => {
                config.width = Some(*i as usize);
            },
            _ => {},
        }
    } else if str_equals(key, "semantic") {
        config.semantic = toml_as_bool(value);
    } else if str_equals(key, "cleanups") {
        config.cleanups = toml_as_bool(value);
    } else if str_equals(key, "smartquotes") {
        config.smartquotes = toml_as_bool(value);
    } else if str_equals(key, "ellipses") {
        config.ellipses = toml_as_bool(value);
    } else if str_equals(key, "list_spacing") {
        match value {
            TomlValue::Text(s) => {
                config.list_spacing = Some(s.clone());
            },
            _ => {},
        }
    } else if str_equals(key, "include") {
        config.include_patterns = extract_string_array(value);
    } else if str_equals(key, "extend_include") {
        config.extend_include = extract_string_array(value);
    } else if str_equals(key, "exclude") {
        config.exclude = extract_string_array(value);
    } else if str_equals(key, "extend_exclude") {
        config.extend_exclude = extract_string_array(value);
    } else if str_equals(key, "files_max_size") {
        match value {
            TomlValue::Integer(i) => {
                config.files_max_size = Some(*i as u64);
            },
            _ => {},
        }
    } else if str_equals(key, "respect_gitignore") {
        config.respect_gitignore = toml_as_bool(value);
    } else if str_equals(key, "force_exclude") {
        config.force_exclude = toml_as_bool(value);
    } else if str_equals(key, "incremental") {
        config.incremental = toml_as_bool(value);
    } else if str_equals(key, "incremental_cache_dir") {
        match value {
            TomlValue::Text(s) => {
                config.incremental_cache_dir = Some(s.clone());
            },
            _ => {},
        }
    }
}

fn toml_as_bool(value: &TomlValue) -> (r: Option<bool>)
    ensures
        r == toml_bool(*value),
{
    match value {
        TomlValue::Boolean(b) => Some(*b),
        _ => None,
    }
}

/// The entries of a table with the entries of its sub-tables spliced in
/// their place (one level: `[formatting]` and `[file-discovery]` sections
/// read like top-level keys).
pub open spec fn flat_entries(entries: Seq<(String, TomlValue)>) -> Seq<(Seq<char>, TomlValue)>
    decreases entries.len(),
{
    if entries.len() == 0 {
        Seq::empty()
    } else {
        let rest = flat_entries(entries.drop_last());
        let e = entries.last();
        match e.1 {
            TomlValue::Table(sub) => rest + entry_views(sub@),
            _ => rest.push((e.0@, e.1)),
        }
    }
}

pub open spec fn entry_views(entries: Seq<(String, TomlValue)>) -> Seq<(Seq<char>, TomlValue)> {
    entries.map_values(|p: (String, TomlValue)| (p.0@, p.1))
}

/// The configuration after one flattened entry.
pub open spec fn apply_entry(c: ConfigView, e: (Seq<char>, TomlValue)) -> ConfigView {
    let k = setting_key(e.0);
    if is_setting(k) {
        set_field(c, k, e.1)
    } else {
        c
    }
}

/// The configuration after the entries, in order.
pub open spec fn applied(c: ConfigView, flat: Seq<(Seq<char>, TomlValue)>) -> ConfigView
    decreases flat.len(),
{
    if flat.len() == 0 {
        c
    } else {
        apply_entry(applied(c, flat.drop_last()), flat.last())
    }
}

/// The keys among the entries that name no setting, in order.
pub open spec fn unrecognized(flat: Seq<(Seq<char>, TomlValue)>) -> Seq<Seq<char>>
    decreases flat.len(),
{
    if flat.len() == 0 {
        Seq::empty()
    } else {
        let rest = unrecognized(flat.drop_last());
        if is_setting(setting_key(flat.last().0)) {
            rest
        } else {
            rest.push(flat.last().0)
        }
    }
}

/// The configuration a TOML table sets; nothing for a value that is not a
/// table.
pub open spec fn config_of_data(data: TomlValue) -> ConfigView {
    match data {
        TomlValue::Table(e) => applied(empty_config(), flat_entries(e@)),
        _ => empty_config(),
    }
}

/// The keys of a TOML table that name no setting.
pub open spec fn unrecognized_of_data(data: TomlValue) -> Seq<Seq<char>> {
    match data {
        TomlValue::Table(e) => unrecognized(flat_entries(e@)),
        _ => Seq::empty(),
    }
}

fn read_entry(
    config: &mut FlowmarkConfig,
    unknown: &mut Vec<String>,
    key: &String,
    value: &TomlValue,
)
    ensures
        final(config)@ == apply_entry(old(config)@, (key@, *value)),
        views(final(unknown)@) == if is_setting(setting_key(key@)) {
            views(old(unknown)@)
        } else {
            views(old(unknown)@).push(key@)
        },
{
    let k = effective_setting_key(key.as_str());
    if is_setting_name(k.as_str()) {
        set_config_field(config, k.as_str(), value);
    } else {
        let ghost before = unknown@;
        unknown.push(key.clone());
        assert(views(unknown@) =~= views(before).push(key@));
    }
}

/// Reads a configuration from a TOML table: the settings it sets, and the
/// keys that name no setting (which the caller reports). Entries of
/// sub-tables read like top-level entries; kebab-case keys name the
/// snake-case settings.
pub fn parse_config_data(data: &TomlValue) -> (r: (FlowmarkConfig, Vec<String>))
    ensures
        r.0@ == config_of_data(*data),
        views(r.1@) == unrecognized_of_data(*data),
{
    let mut config = FlowmarkConfig::default();
    let mut unknown: Vec<String> = Vec::new();
    match data {
        TomlValue::Table(entries) => {
            let mut i: usize = 0;
            assert(entries@.take(0) =~= Seq::<(String, TomlValue)>::empty());
            while i < entries.len()
                invariant
                    i <= entries.len(),
                    config@ == applied(empty_config(), flat_entries(entries@.take(i as int))),
                    views(unknown@) == unrecognized(flat_entries(entries@.take(i as int))),
                decreases entries.len() - i,
            {
                assert(entries@.take(i + 1).drop_last() =~= entries@.take(i as int));
                let ghost base = flat_entries(entries@.take(i as int));
                let key = &entries[i].0;
                let value = &entries[i].1;
                match value {
                    TomlValue::Table(sub) => {
                        let mut j: usize = 0;
                        assert(base + entry_views(sub@.take(0)) =~= base);
                        while j < sub.len()
                            invariant
                                j <= sub.len(),
                                config@ == applied(empty_config(), base + entry_views(sub@.take(j as int))),
                                views(unknown@) == unrecognized(base + entry_views(sub@.take(j as int))),
                            decreases sub.len() - j,
                        {
                            let ghost prev = base + entry_views(sub@.take(j as int));
                            let ghost next = base + entry_views(sub@.take(j + 1));
                            assert(next.drop_last() =~= prev);
                            assert(next.last() == (sub@[j as int].0@, sub@[j as int].1));
                            read_entry(&mut config, &mut unknown, &sub[j].0, &sub[j].1);
                            j += 1;
                        }
                        assert(sub@.take(sub.len() as int) =~= sub@);
                    },
                    _ => {
                        let ghost next = flat_entries(entries@.take(i + 1));
                        assert(next.drop_last() =~= base);
                        read_entry(&mut config, &mut unknown, key, value);
                    },
                }
                i += 1;
            }
            assert(entries@.take(entries.len() as int) =~= entries@);
        },
        _ => {},
    }
    (config, unknown)
}

// ---------------------------------------------------------------------------
// Configuration files
// ---------------------------------------------------------------------------

/// The `[tool.flowmark]` table of a `pyproject.toml` document, when present.
pub open spec fn pyproject_section(doc: TomlValue) -> Option<TomlValue> {
    match toml_lookup(doc, "tool"@) {
        Some(t) => toml_lookup(t, "flowmark"@),
        None => None,
    }
}

/// The configuration a document sets: for `pyproject.toml` that of its
/// `[tool.flowmark]` table (nothing without one), else that of the whole
/// document.
pub open spec fn loaded_config(doc: TomlValue, pyproject: bool) -> ConfigView {
    if pyproject {
        match pyproject_section(doc) {
            Some(s) => config_of_data(s),
            None => empty_config(),
        }
    } else {
        config_of_data(doc)
    }
}

/// The unrecognized keys of the table that [`loaded_config`] reads.
pub open spec fn loaded_unrecognized(doc: TomlValue, pyproject: bool) -> Seq<Seq<char>> {
    if pyproject {
        match pyproject_section(doc) {
            Some(s) => unrecognized_of_data(s),
            None => Seq::empty(),
        }
    } else {
        unrecognized_of_data(doc)
    }
}

fn flowmark_section(doc: &TomlValue) -> (r: Option<&TomlValue>)
    ensures
        opt_deref(r) == pyproject_section(*doc),
{
    match toml_get(doc, "tool") {
        Some(t) => toml_get(t, "flowmark"),
        None => None,
    }
}

/// Whether a `pyproject.toml` text has a `[tool.flowmark]` table (false when
/// it does not parse).
pub fn pyproject_has_flowmark_section(text: &str) -> (b: bool)
    ensures
        b == (toml_document_of(text@) matches Some(d) && pyproject_section(d) is Some),
{
    match parse_toml_document(text) {
        Some(doc) => flowmark_section(&doc).is_some(),
        None => false,
    }
}

/// Reads a configuration file's text: `None` when it is not valid TOML (the
/// caller warns and uses the empty configuration), else the configuration
/// and the keys that name no setting. `is_pyproject` says the file is a
/// `pyproject.toml`, whose `[tool.flowmark]` table holds the settings.
pub fn load_config_text(text: &str, is_pyproject: bool) -> (r: Option<(FlowmarkConfig, Vec<String>)>)
    ensures
        match toml_document_of(text@) {
            None => r is None,
            Some(doc) => r matches Some(p) && p.0@ == loaded_config(doc, is_pyproject) && views(p.1@)
                == loaded_unrecognized(doc, is_pyproject),
        },
{
    match parse_toml_document(text) {
        None => None,
        Some(doc) => {
            if is_pyproject {
                match flowmark_section(&doc) {
                    Some(section) => Some(parse_config_data(section)),
                    None => Some((FlowmarkConfig::default(), Vec::new())),
                }
            } else {
                Some(parse_config_data(&doc))
            }
        },
    }
}

/// The number of configuration file names.
pub const CONFIG_FILE_COUNT: usize = 3;

/// Configuration file names, in the order they are looked for in a
/// directory.
pub open spec fn config_file_name(i: int) -> Seq<char> {
    if i == 0 {
        ".flowmark.toml"@
    } else if i == 1 {
        "flowmark.toml"@
    } else {
        "pyproject.toml"@
    }
}

/// Configuration file name `i`.
pub fn config_filename(i: usize) -> (r: &'static str)
    requires
        i < CONFIG_FILE_COUNT,
    ensures
        r@ == config_file_name(i as int),
{
    if i == 0 {
        ".flowmark.toml"
    } else if i == 1 {
        "flowmark.toml"
    } else {
        "pyproject.toml"
    }
}

/// What one directory offers: whether `.flowmark.toml` and `flowmark.toml`
/// are files there, and whether `pyproject.toml` is a file there with a
/// `[tool.flowmark]` table.
#[derive(Debug, Clone, Copy, PartialEq, Eq, Structural)]
pub struct ConfigProbe {
    pub dot_flowmark: bool,
    pub flowmark: bool,
    pub pyproject_section: bool,
}

/// The configuration file a directory offers, as an index into the file
/// names.
pub open spec fn probe_pick(p: ConfigProbe) -> Option<usize> {
    if p.dot_flowmark {
        Some(0)
    } else if p.flowmark {
        Some(1)
    } else if p.pyproject_section {
        Some(2)
    } else {
        None
    }
}

/// Picks the configuration file: `probes` describes the start directory and
/// then each parent up to the root; the result is the first directory that
/// offers a file, with the file it offers (`.flowmark.toml` >
/// `flowmark.toml` > `pyproject.toml` with `[tool.flowmark]`), or `None`.
pub fn find_config_file(probes: &Vec<ConfigProbe>) -> (r: Option<(usize, usize)>)
    ensures
        match r {
            Some((d, f)) => d < probes.len() && probe_pick(probes@[d as int]) == Some(f) && forall|
                j: int,
            | 0 <= j < d ==> probe_pick(#[trigger] probes@[j]) is None,
            None => forall|j: int| 0 <= j < probes.len() ==> probe_pick(#[trigger] probes@[j]) is None,
        },
{
    let mut d: usize = 0;
    while d < probes.len()
        invariant
            d <= probes.len(),
            forall|j: int| 0 <= j < d ==> probe_pick(#[trigger] probes@[j]) is None,
        decreases probes.len() - d,
    {
        let p = probes[d];
        if p.dot_flowmark {
            return Some((d, 0));
        } else if p.flowmark {
            return Some((d, 1));
        } else if p.pyproject_section {
            return Some((d, 2));
        }
        d += 1;
    }
    None
}

} // verus!
