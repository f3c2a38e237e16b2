//! Decisions of the command line that do not touch the system: which flags
//! were given, configuration values applied to the settings, the
//! incremental-cache overrides of a configuration file, whether inputs need
//! resolving, and the performance figures it prints.

use vstd::prelude::*;
use crate::config::{
    ConfigValue, ListSpacing, TomlValue, ValueView, dashes_to_underscores, entry_views, flat_entries,
    parse_toml_document, pyproject_section, replace_dashes, spacing_named, toml_bool, toml_document_of,
    toml_get, toml_text,
};
use crate::file_resolver::config::copy_strings;
use crate::formatter::filling::lowercase_of;
use crate::text::{append_chars, chars_of, str_equals, string_of, views};

verus! {

// ---------------------------------------------------------------------------
// Settings from the configuration file
// ---------------------------------------------------------------------------

/// The command-line settings a configuration file can set.
#[derive(Debug, Clone)]
pub struct CliSettings {
    pub width: usize,
    pub semantic: bool,
    pub cleanups: bool,
    pub smartquotes: bool,
    pub ellipses: bool,
    pub list_spacing: ListSpacing,
    pub extend_include: Vec<String>,
    pub exclude: Option<Vec<String>>,
    pub extend_exclude: Vec<String>,
    pub force_exclude: bool,
    pub files_max_size: u64,
}

/// The settings as plain values.
pub struct CliView {
    pub width: usize,
    pub semantic: bool,
    pub cleanups: bool,
    pub smartquotes: bool,
    pub ellipses: bool,
    pub list_spacing: ListSpacing,
    pub extend_include: Seq<Seq<char>>,
    pub exclude: Option<Seq<Seq<char>>>,
    pub extend_exclude: Seq<Seq<char>>,
    pub force_exclude: bool,
    pub files_max_size: u64,
}

impl View for CliSettings {
    type V = CliView;

    open spec fn view(&self) -> CliView {
        CliView {
            width: self.width,
            semantic: self.semantic,
            cleanups: self.cleanups,
            smartquotes: self.smartquotes,
            ellipses: self.ellipses,
            list_spacing: self.list_spacing,
            extend_include: views(self.extend_include@),
            exclude: match self.exclude {
                Some(v) => Some(views(v@)),
                None => None,
            },
            extend_exclude: views(self.extend_exclude@),
            force_exclude: self.force_exclude,
            files_max_size: self.files_max_size,
        }
    }
}

/// The settings (and whether `.gitignore` is respected) after one
/// configuration value: a value of the setting's type replaces it (a list
/// spacing only when it names a mode); anything else changes nothing.
pub open spec fn field_applied(a: CliView, rg: bool, name: Seq<char>, v: ValueView) -> (CliView, bool) {
    if name == "width"@ {
        match v {
            ValueView::Usize(n) => (CliView { width: n, ..a }, rg),
            _ => (a, rg),
        }
    } else if name == "semantic"@ {
        match v {
            ValueView::Bool(b) => (CliView { semantic: b, ..a }, rg),
            _ => (a, rg),
        }
    } else if name == "cleanups"@ {
        match v {
            ValueView::Bool(b) => (CliView { cleanups: b, ..a }, rg),
            _ => (a, rg),
        }
    } else if name == "smartquotes"@ {
        match v {
            ValueView::Bool(b) => (CliView { smartquotes: b, ..a }, rg),
            _ => (a, rg),
        }
    } else if name == "ellipses"@ {
        match v {
            ValueView::Bool(b) => (CliView { ellipses: b, ..a }, rg),
            _ => (a, rg),
        }
    } else if name == "list_spacing"@ {
        match v {
            ValueView::Text(s) => match spacing_named(lowercase_of(s)) {
                Some(ls) => (CliView { list_spacing: ls, ..a }, rg),
                None => (a, rg),
            },
            _ => (a, rg),
        }
    } else if name == "extend_include"@ {
        match v {
            ValueView::List(l) => (CliView { extend_include: l, ..a }, rg),
            _ => (a, rg),
        }
    } else if name == "exclude"@ {
        match v {
            ValueView::List(l) => (CliView { exclude: Some(l), ..a }, rg),
            _ => (a, rg),
        }
    } else if name == "extend_exclude"@ {
        match v {
            ValueView::List(l) => (CliView { extend_exclude: l, ..a }, rg),
            _ => (a, rg),
        }
    } else if name == "respect_gitignore"@ {
        match v {
            ValueView::Bool(b) => (a, b),
            _ => (a, rg),
        }
    } else if name == "force_exclude"@ {
        match v {
            ValueView::Bool(b) => (CliView { force_exclude: b, ..a }, rg),
            _ => (a, rg),
        }
    } else if name == "files_max_size"@ {
        match v {
            ValueView::U64(n) => (CliView { files_max_size: n, ..a }, rg),
            _ => (a, rg),
        }
    } else {
        (a, rg)
    }
}

/// Applies one merged configuration value to the settings (see
/// [`field_applied`]).
pub fn apply_config_field(args: &mut CliSettings, respect_gitignore: &mut bool, name: &str, value: &ConfigValue)
    ensures
        (final(args)@, *final(respect_gitignore)) == field_applied(
            old(args)@,
            *old(respect_gitignore),
            name@,
            value@,
        ),
{
    if str_equals(name, "width") {
        if let ConfigValue::Usize(v) = value {
            args.width = *v;
        }
    } else if str_equals(name, "semantic") {
        if let ConfigValue::Bool(v) = value {
            args.semantic = *v;
        }
    } else if str_equals(name, "cleanups") {
        if let ConfigValue::Bool(v) = value {
            args.cleanups = *v;
        }
    } else if str_equals(name, "smartquotes") {
        if let ConfigValue::Bool(v) = value {
            args.smartquotes = *v;
        }
    } else if str_equals(name, "ellipses") {
        if let ConfigValue::Bool(v) = value {
            args.ellipses = *v;
        }
    } else if str_equals(name, "list_spacing") {
        if let ConfigValue::Text(v) = value {
            if let Ok(ls) = ListSpacing::parse(v.as_str()) {
                args.list_spacing = ls;
            }
        }
    } else if str_equals(name, "extend_include") {
        if let ConfigValue::StringList(v) = value {
            args.extend_include = copy_strings(v);
        }
    } else if str_equals(name, "exclude") {
        if let ConfigValue::StringList(v) = value {
            args.exclude = Some(copy_strings(v));
        }
    } else if str_equals(name, "extend_exclude") {
        if let ConfigValue::StringList(v) = value {
            args.extend_exclude = copy_strings(v);
        }
    } else if str_equals(name, "respect_gitignore") {
        if let ConfigValue::Bool(v) = value {
            *respect_gitignore = *v;
        }
    } else if str_equals(name, "force_exclude") {
        if let ConfigValue::Bool(v) = value {
            args.force_exclude = *v;
        }
    } else if str_equals(name, "files_max_size") {
        if let ConfigValue::U64(v) = value {
            args.files_max_size = *v;
        }
    }
}

// ---------------------------------------------------------------------------
// Incremental-cache settings of a configuration file
// ---------------------------------------------------------------------------

/// Whether incremental formatting is on, and the cache directory, as a
/// configuration file sets them.
#[derive(Debug, Default)]
pub struct IncrementalConfigOverrides {
    pub incremental: Option<bool>,
    pub incremental_cache_dir: Option<String>,
}

pub open spec fn overrides_view(o: IncrementalConfigOverrides) -> (Option<bool>, Option<Seq<char>>) {
    (
        o.incremental,
        match o.incremental_cache_dir {
            Some(s) => Some(s@),
            None => None,
        },
    )
}

/// The overrides after one entry: `incremental` (or `cache`) takes the
/// value's boolean (none when it is not one); `incremental_cache_dir` (or
/// `cache_dir`) takes a string value; dashes read as underscores.
pub open spec fn override_applied(o: (Option<bool>, Option<Seq<char>>), key: Seq<char>, v: TomlValue) -> (
    Option<bool>,
    Option<Seq<char>>,
) {
    let n = dashes_to_underscores(key);
    if n == "incremental"@ || n == "cache"@ {
        (toml_bool(v), o.1)
    } else if n == "incremental_cache_dir"@ || n == "cache_dir"@ {
        match toml_text(v) {
            Some(s) => (o.0, Some(s)),
            None => o,
        }
    } else {
        o
    }
}

pub open spec fn overrides_folded(flat: Seq<(Seq<char>, TomlValue)>) -> (Option<bool>, Option<Seq<char>>)
    decreases flat.len(),
{
    if flat.len() == 0 {
        (None, None)
    } else {
        override_applied(overrides_folded(flat.drop_last()), flat.last().0, flat.last().1)
    }
}

/// The overrides a configuration document sets: for `pyproject.toml` its
/// `[tool.flowmark]` table, else the whole document; entries of sub-tables
/// read like top-level ones; nothing when that is not a table.
pub open spec fn overrides_of(doc: TomlValue, pyproject: bool) -> (Option<bool>, Option<Seq<char>>) {
    if pyproject {
        match pyproject_section(doc) {
            Some(s) => section_overrides(s),
            None => (None, None),
        }
    } else {
        section_overrides(doc)
    }
}

/// The overrides of a table's entries; nothing for a value that is not a
/// table.
pub open spec fn section_overrides(section: TomlValue) -> (Option<bool>, Option<Seq<char>>) {
    match section {
        TomlValue::Table(e) => overrides_folded(flat_entries(e@)),
        _ => (None, None),
    }
}

/// Applies one entry (see [`override_applied`]).
pub fn apply_incremental_override(overrides: &mut IncrementalConfigOverrides, key: &str, value: &TomlValue)
    ensures
        overrides_view(*final(overrides)) == override_applied(overrides_view(*old(overrides)), key@, *value),
{
    let normalized = replace_dashes(key);
    let n = normalized.as_str();
    if str_equals(n, "incremental") || str_equals(n, "cache") {
        overrides.incremental = match value {
            TomlValue::Boolean(b) => Some(*b),
            _ => None,
        };
    } else if str_equals(n, "incremental_cache_dir") || str_equals(n, "cache_dir") {
        if let TomlValue::Text(s) = value {
            overrides.incremental_cache_dir = Some(s.clone());
        }
    }
}

fn overrides_of_table(section: &TomlValue) -> (r: IncrementalConfigOverrides)
    ensures
        overrides_view(r) == section_overrides(*section),
{
    let mut overrides = IncrementalConfigOverrides { incremental: None, incremental_cache_dir: None };
    match section {
        TomlValue::Table(entries) => {
            let mut i: usize = 0;
            assert(entries@.take(0) =~= Seq::<(String, TomlValue)>::empty());
            while i < entries.len()
                invariant
                    i <= entries.len(),
                    overrides_view(overrides) == overrides_folded(flat_entries(entries@.take(i as int))),
                decreases entries.len() - i,
            {
                assert(entries@.take(i + 1).drop_last() =~= entries@.take(i as int));
                let ghost base = flat_entries(entries@.take(i as int));
                let key = &entries[i].0;
                let value = &entries[i].1;
                match value {
                    TomlValue::Table(sub) => {
                        let mut j: usize = 0;
                        assert(base + entry_views(sub@.take(0)) =~= base);
                        while j < sub.len()
                            invariant
                                j <= sub.len(),
                                overrides_view(overrides) == overrides_folded(base + entry_views(sub@.take(j as int))),
                            decreases sub.len() - j,
                        {
                            let ghost prev = base + entry_views(sub@.take(j as int));
                            let ghost next = base + entry_views(sub@.take(j + 1));
                            assert(next.drop_last() =~= prev);
                            assert(next.last() == (sub@[j as int].0@, sub@[j as int].1));
                            apply_incremental_override(&mut overrides, sub[j].0.as_str(), &sub[j].1);
                            j += 1;
                        }
                        assert(sub@.take(sub.len() as int) =~= sub@);
                    },
                    _ => {
                        let ghost next = flat_entries(entries@.take(i + 1));
                        assert(next.drop_last() =~= base);
                        apply_incremental_override(&mut overrides, key.as_str(), value);
                    },
                }
                i += 1;
            }
            assert(entries@.take(entries.len() as int) =~= entries@);
        },
        _ => {},
    }
    overrides
}

/// The incremental-cache overrides of a configuration file's text (see
/// [`overrides_of`]); none when the text is not valid TOML.
pub fn load_incremental_config_overrides(text: &str, is_pyproject: bool) -> (r: IncrementalConfigOverrides)
    ensures
        overrides_view(r) == match toml_document_of(text@) {
            Some(doc) => overrides_of(doc, is_pyproject),
            None => (None, None),
        },
{
    match parse_toml_document(text) {
        None => IncrementalConfigOverrides { incremental: None, incremental_cache_dir: None },
        Some(doc) => {
            if is_pyproject {
                let section = match toml_get(&doc, "tool") {
                    Some(t) => toml_get(t, "flowmark"),
                    None => None,
                };
                match section {
                    Some(s) => overrides_of_table(s),
                    None => IncrementalConfigOverrides { incremental: None, incremental_cache_dir: None },
                }
            } else {
                overrides_of_table(&doc)
            }
        },
    }
}

// ---------------------------------------------------------------------------
// Flags and inputs
// ---------------------------------------------------------------------------

/// The command-line arguments whose explicit use is tracked, each with the
/// setting it protects from the configuration file.
pub open spec fn tracked_flag(i: int) -> (Seq<char>, Seq<char>) {
    if i == 0 {
        ("width"@, "width"@)
    } else if i == 1 {
        ("semantic"@, "semantic"@)
    } else if i == 2 {
        ("cleanups"@, "cleanups"@)
    } else if i == 3 {
        ("smartquotes"@, "smartquotes"@)
    } else if i == 4 {
        ("ellipses"@, "ellipses"@)
    } else if i == 5 {
        ("list_spacing"@, "list_spacing"@)
    } else if i == 6 {
        ("extend_include"@, "extend_include"@)
    } else if i == 7 {
        ("exclude"@, "exclude"@)
    } else if i == 8 {
        ("extend_exclude"@, "extend_exclude"@)
    } else if i == 9 {
        ("no_respect_gitignore"@, "respect_gitignore"@)
    } else if i == 10 {
        ("force_exclude"@, "force_exclude"@)
    } else if i == 11 {
        ("files_max_size"@, "files_max_size"@)
    } else if i == 12 {
        ("incremental"@, "incremental"@)
    } else if i == 13 {
        ("no_incremental"@, "incremental"@)
    } else {
        ("incremental_cache_dir"@, "incremental_cache_dir"@)
    }
}

pub const TRACKED_FLAG_COUNT: usize = 15;

fn tracked_flag_exec(i: usize) -> (r: (&'static str, &'static str))
    requires
        i < TRACKED_FLAG_COUNT,
    ensures
        (r.0@, r.1@) == tracked_flag(i as int),
{
    if i == 0 {
        ("width", "width")
    } else if i == 1 {
        ("semantic", "semantic")
    } else if i == 2 {
        ("cleanups", "cleanups")
    } else if i == 3 {
        ("smartquotes", "smartquotes")
    } else if i == 4 {
        ("ellipses", "ellipses")
    } else if i == 5 {
        ("list_spacing", "list_spacing")
    } else if i == 6 {
        ("extend_include", "extend_include")
    } else if i == 7 {
        ("exclude", "exclude")
    } else if i == 8 {
        ("extend_exclude", "extend_exclude")
    } else if i == 9 {
        ("no_respect_gitignore", "respect_gitignore")
    } else if i == 10 {
        ("force_exclude", "force_exclude")
    } else if i == 11 {
        ("files_max_size", "files_max_size")
    } else if i == 12 {
        ("incremental", "incremental")
    } else if i == 13 {
        ("no_incremental", "incremental")
    } else {
        ("incremental_cache_dir", "incremental_cache_dir")
    }
}

pub open spec fn str_seq_views(s: Seq<&str>) -> Seq<Seq<char>> {
    s.map_values(|x: &str| x@)
}

/// The settings named by the tracked arguments (among the first `n`) that
/// were given on the command line, in the tracked order.
pub open spec fn explicit_settings(given: Seq<Seq<char>>, n: int) -> Seq<Seq<char>>
    decreases n,
{
    if n <= 0 {
        Seq::empty()
    } else {
        let rest = explicit_settings(given, n - 1);
        if given.contains(tracked_flag(n - 1).0) {
            rest.push(tracked_flag(n - 1).1)
        } else {
            rest
        }
    }
}

fn contains_str_item(items: &[&str], s: &str) -> (b: bool)
    ensures
        b == str_seq_views(items@).contains(s@),
{
    let mut i: usize = 0;
    while i < items.len()
        invariant
            i <= items.len(),
            forall|j: int| 0 <= j < i ==> items@[j]@ != s@,
        decreases items.len() - i,
    {
        if str_equals(items[i], s) {
            assert(str_seq_views(items@)[i as int] == s@);
            return true;
        }
        i += 1;
    }
    assert forall|j: int| 0 <= j < str_seq_views(items@).len() implies str_seq_views(items@)[j] != s@ by {
        assert(str_seq_views(items@)[j] == items@[j]@);
    }
    false
}

/// The settings the user set on the command line, given the identifiers of
/// the arguments that came from it (see [`explicit_settings`]).
pub fn detect_explicit_flags(given: &[&str]) -> (r: Vec<&'static str>)
    ensures
        str_seq_views(r@) == explicit_settings(str_seq_views(given@), TRACKED_FLAG_COUNT as int),
{
    let mut out: Vec<&'static str> = Vec::new();
    let mut i: usize = 0;
    while i < TRACKED_FLAG_COUNT
        invariant
            i <= TRACKED_FLAG_COUNT,
            str_seq_views(out@) == explicit_settings(str_seq_views(given@), i as int),
        decreases TRACKED_FLAG_COUNT - i,
    {
        let (arg_id, field) = tracked_flag_exec(i);
        if contains_str_item(given, arg_id) {
            let ghost before = out@;
            out.push(field);
            assert(str_seq_views(out@) =~= str_seq_views(before).push(field@));
        }
        i += 1;
    }
    out
}

/// A glob character (`*`, `?`, `[`).
pub open spec fn is_glob_char(c: char) -> bool {
    c == '*' || c == '?' || c == '['
}

/// Whether some input other than `-` is a directory or holds a glob
/// character (`is_dir[i]` says whether `files[i]` names a directory).
pub open spec fn resolution_needed(files: Seq<Seq<char>>, is_dir: Seq<bool>) -> bool {
    exists|i: int|
        0 <= i < files.len() && files[i] != "-"@ && (is_dir[i] || exists|k: int|
            0 <= k < files[i].len() && is_glob_char(#[trigger] files[i][k]))
}

fn has_glob_char(v: &Vec<char>) -> (b: bool)
    ensures
        b == exists|k: int| 0 <= k < v@.len() && is_glob_char(#[trigger] v@[k]),
{
    let mut k: usize = 0;
    while k < v.len()
        invariant
            k <= v.len(),
            forall|j: int| 0 <= j < k ==> !is_glob_char(#[trigger] v@[j]),
        decreases v.len() - k,
    {
        if v[k] == '*' || v[k] == '?' || v[k] == '[' {
            assert(is_glob_char(v@[k as int]));
            return true;
        }
        k += 1;
    }
    false
}

/// Whether the inputs must go through the file resolver (see
/// [`resolution_needed`]).
pub fn needs_file_resolution(files: &Vec<String>, is_dir: &Vec<bool>) -> (b: bool)
    requires
        is_dir.len() == files.len(),
    ensures
        b == resolution_needed(views(files@), is_dir@),
{
    let ghost fs = views(files@);
    let mut i: usize = 0;
    while i < files.len()
        invariant
            i <= files.len() == is_dir.len(),
            fs == views(files@),
            forall|j: int|
                0 <= j < i ==> !(fs[j] != "-"@ && (is_dir@[j] || exists|k: int|
                    0 <= k < fs[j].len() && is_glob_char(#[trigger] fs[j][k]))),
        decreases files.len() - i,
    {
        assert(fs[i as int] == files@[i as int]@);
        if str_equals(files[i].as_str(), "-") {
            i += 1;
            continue;
        }
        if is_dir[i] {
            return true;
        }
        let v = chars_of(files[i].as_str());
        if has_glob_char(&v) {
            return true;
        }
        i += 1;
    }
    false
}

// ---------------------------------------------------------------------------
// Performance figures
// ---------------------------------------------------------------------------

/// The decimal digits of a number.
pub open spec fn decimal(n: nat) -> Seq<char>
    decreases n,
{
    if n < 10 {
        seq![digit_char_of(n)]
    } else {
        decimal(n / 10) + seq![digit_char_of(n % 10)]
    }
}

pub open spec fn digit_char_of(d: nat) -> char {
    if d == 0 {
        '0'
    } else if d == 1 {
        '1'
    } else if d == 2 {
        '2'
    } else if d == 3 {
        '3'
    } else if d == 4 {
        '4'
    } else if d == 5 {
        '5'
    } else if d == 6 {
        '6'
    } else if d == 7 {
        '7'
    } else if d == 8 {
        '8'
    } else {
        '9'
    }
}

fn digit_char(d: u128) -> (c: char)
    requires
        d < 10,
    ensures
        c == digit_char_of(d as nat),
{
    if d == 0 {
        '0'
    } else if d == 1 {
        '1'
    } else if d == 2 {
        '2'
    } else if d == 3 {
        '3'
    } else if d == 4 {
        '4'
    } else if d == 5 {
        '5'
    } else if d == 6 {
        '6'
    } else if d == 7 {
        '7'
    } else if d == 8 {
        '8'
    } else {
        '9'
    }
}

pub(crate) fn decimal_exec(n: u128) -> (r: Vec<char>)
    ensures
        r@ == decimal(n as nat),
    decreases n,
{
    if n < 10 {
        let mut r: Vec<char> = Vec::new();
        r.push(digit_char(n));
        assert(r@ =~= decimal(n as nat));
        r
    } else {
        let mut r = decimal_exec(n / 10);
        r.push(digit_char(n % 10));
        r
    }
}

/// A number below a thousand with leading zeros to three digits.
pub open spec fn three_digits(n: nat) -> Seq<char> {
    let d = decimal(n);
    Seq::new((3 - d.len()) as nat, |i: int| '0') + d
}

proof fn lemma_decimal_len(n: nat)
    ensures
        n < 10 ==> decimal(n).len() == 1,
        10 <= n < 100 ==> decimal(n).len() == 2,
        100 <= n < 1000 ==> decimal(n).len() == 3,
        decimal(n).len() >= 1,
    decreases n,
{
    if n >= 10 {
        lemma_decimal_len(n / 10);
    }
}

/// Nanoseconds as milliseconds with three decimals.
pub open spec fn ms_text(ns: nat) -> Seq<char> {
    decimal(ns / 1_000_000) + seq!['.'] + three_digits((ns % 1_000_000) / 1_000)
}

/// Formats nanoseconds as milliseconds with three decimals (see
/// [`ms_text`]).
pub fn format_ns_as_ms(ns: u128) -> (r: String)
    ensures
        r@ == ms_text(ns as nat),
{
    let whole = ns / 1_000_000;
    let frac = (ns % 1_000_000) / 1_000;
    let mut out = decimal_exec(whole);
    out.push('.');
    let d = decimal_exec(frac);
    proof {
        lemma_decimal_len(frac as nat);
    }
    let ghost before = out@;
    let mut k: usize = d.len();
    while k < 3
        invariant
            d.len() <= k <= 3,
            out@ == before + Seq::new((k - d.len()) as nat, |i: int| '0'),
        decreases 3 - k,
    {
        out.push('0');
        assert(out@ =~= before + Seq::new((k + 1 - d.len()) as nat, |i: int| '0'));
        k += 1;
    }
    append_chars(&mut out, &d);
    assert(out@ =~= ms_text(ns as nat));
    string_of(&out)
}

/// The share of hits in tenths of a percent, rounded half up: `0.0` when
/// there was nothing to count.
pub open spec fn hit_rate_text(hits: nat, total: nat) -> Seq<char> {
    if total == 0 {
        "0.0"@
    } else {
        let scaled = (hits * 1000 + total / 2) / total;
        decimal(scaled / 10) + seq!['.'] + decimal(scaled % 10)
    }
}

/// Formats a hit rate in percent with one decimal (see
/// [`hit_rate_text`]).
pub fn format_hit_rate_percent_tenths(cache_hits: usize, cache_total: usize) -> (r: String)
    ensures
        r@ == hit_rate_text(cache_hits as nat, cache_total as nat),
{
    if cache_total == 0 {
        return "0.0".to_owned();
    }
    let hits = cache_hits as u128;
    let total = cache_total as u128;
    assert(hits * 1000 <= 0xffff_ffff_ffff_ffff * 1000);
    let scaled = (hits * 1000 + total / 2) / total;
    let mut out = decimal_exec(scaled / 10);
    out.push('.');
    let d = decimal_exec(scaled % 10);
    append_chars(&mut out, &d);
    assert(out@ =~= hit_rate_text(cache_hits as nat, cache_total as nat));
    string_of(&out)
}

} // verus!
