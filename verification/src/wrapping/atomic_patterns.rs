//! The constructs kept whole when a line is wrapped: code spans, links,
//! template tags and HTML tags, each with its regular expression and, for
//! tags, its delimiters.

use vstd::prelude::*;
use crate::text::{append_str, chars_of, string_of};

verus! {

/// A construct that must not be broken across lines.
#[derive(Debug)]
pub struct AtomicPattern {
    pub name: &'static str,
    pub pattern: &'static str,
    pub open_delim: &'static str,
    pub close_delim: &'static str,
    pub open_re: &'static str,
    pub close_re: &'static str,
}

/// The constructs kept whole.
#[derive(Debug, Clone, Copy, PartialEq, Eq, Structural)]
pub enum AtomicKind {
    /// Inline code spans of one to three backticks.
    InlineCodeSpan,
    /// Markdown links: `[text](url)`, `[text][ref]` or `[text]`.
    MarkdownLink,
    /// Jinja/Markdoc template tags: `{% tag %}`, `{% /tag %}`.
    SingleJinjaTag,
    /// Jinja comments: `{# comment #}`.
    SingleJinjaComment,
    /// Jinja variables: `{{ variable }}`.
    SingleJinjaVar,
    /// HTML comments: `<!-- comment -->`.
    SingleHtmlComment,
    /// HTML/XML opening tags: `<tag>`.
    HtmlOpenTag,
    /// HTML/XML closing tags: `</tag>`.
    HtmlCloseTag,
}

/// Each construct's name, pattern and delimiters.
pub open spec fn atomic_pattern_of(k: AtomicKind) -> AtomicPattern {
    match k {
        AtomicKind::InlineCodeSpan => AtomicPattern {
            name: "inline_code_span",
            pattern: r"```(?:(?!```).)+```|``(?:(?!``).)+``|`(?!`)[^`]+`",
            open_delim: "",
            close_delim: "",
            open_re: "",
            close_re: "",
        },
        AtomicKind::MarkdownLink => AtomicPattern {
            name: "markdown_link",
            pattern: r"\[[^\]]*\](?:\([^)]*\)|\[[^\]]*\])?",
            open_delim: "",
            close_delim: "",
            open_re: "",
            close_re: "",
        },
        AtomicKind::SingleJinjaTag => AtomicPattern {
            name: "single_jinja_tag",
            pattern: r"\{%.*?%\}",
            open_delim: "{%",
            close_delim: "%}",
            open_re: r"\{%",
            close_re: r"%\}",
        },
        AtomicKind::SingleJinjaComment => AtomicPattern {
            name: "single_jinja_comment",
            pattern: r"\{#.*?#\}",
            open_delim: "{#",
            close_delim: "#}",
            open_re: r"\{#",
            close_re: r"#\}",
        },
        AtomicKind::SingleJinjaVar => AtomicPattern {
            name: "single_jinja_var",
            pattern: r"\{\{.*?\}\}",
            open_delim: "{{",
            close_delim: "}}",
            open_re: r"\{\{",
            close_re: r"\}\}",
        },
        AtomicKind::SingleHtmlComment => AtomicPattern {
            name: "single_html_comment",
            pattern: r"<!--.*?-->",
            open_delim: "<!--",
            close_delim: "-->",
            open_re: r"<!--",
            close_re: r"-->",
        },
        AtomicKind::HtmlOpenTag => AtomicPattern {
            name: "html_open_tag",
            pattern: r"<[a-zA-Z][^>]*>",
            open_delim: "",
            close_delim: "",
            open_re: "",
            close_re: "",
        },
        AtomicKind::HtmlCloseTag => AtomicPattern {
            name: "html_close_tag",
            pattern: r"</[a-zA-Z][^>]*>",
            open_delim: "",
            close_delim: "",
            open_re: "",
            close_re: "",
        },
    }
}

/// The pattern of a construct (see [`atomic_pattern_of`]).
pub fn atomic_pattern(kind: AtomicKind) -> (r: AtomicPattern)
    ensures
        r == atomic_pattern_of(kind),
{
    match kind {
        AtomicKind::InlineCodeSpan => AtomicPattern {
            name: "inline_code_span",
            pattern: r"```(?:(?!```).)+```|``(?:(?!``).)+``|`(?!`)[^`]+`",
            open_delim: "",
            close_delim: "",
            open_re: "",
            close_re: "",
        },
        AtomicKind::MarkdownLink => AtomicPattern {
            name: "markdown_link",
            pattern: r"\[[^\]]*\](?:\([^)]*\)|\[[^\]]*\])?",
            open_delim: "",
            close_delim: "",
            open_re: "",
            close_re: "",
        },
        AtomicKind::SingleJinjaTag => AtomicPattern {
            name: "single_jinja_tag",
            pattern: r"\{%.*?%\}",
            open_delim: "{%",
            close_delim: "%}",
            open_re: r"\{%",
            close_re: r"%\}",
        },
        AtomicKind::SingleJinjaComment => AtomicPattern {
            name: "single_jinja_comment",
            pattern: r"\{#.*?#\}",
            open_delim: "{#",
            close_delim: "#}",
            open_re: r"\{#",
            close_re: r"#\}",
        },
        AtomicKind::SingleJinjaVar => AtomicPattern {
            name: "single_jinja_var",
            pattern: r"\{\{.*?\}\}",
            open_delim: "{{",
            close_delim: "}}",
            open_re: r"\{\{",
            close_re: r"\}\}",
        },
        AtomicKind::SingleHtmlComment => AtomicPattern {
            name: "single_html_comment",
            pattern: r"<!--.*?-->",
            open_delim: "<!--",
            close_delim: "-->",
            open_re: r"<!--",
            close_re: r"-->",
        },
        AtomicKind::HtmlOpenTag => AtomicPattern {
            name: "html_open_tag",
            pattern: r"<[a-zA-Z][^>]*>",
            open_delim: "",
            close_delim: "",
            open_re: "",
            close_re: "",
        },
        AtomicKind::HtmlCloseTag => AtomicPattern {
            name: "html_close_tag",
            pattern: r"</[a-zA-Z][^>]*>",
            open_delim: "",
            close_delim: "",
            open_re: "",
            close_re: "",
        },
    }
}

/// The pattern of an opening tag and its closing tag next to each other:
/// the opening tag (not starting with `/`), then white space, then the
/// closing tag.
pub open spec fn paired_pattern(open_re: Seq<char>, close_re: Seq<char>, middle: Seq<char>) -> Seq<char> {
    open_re + r"(?!\s*/)[^"@ + middle + "]*"@ + close_re + r"\s*"@ + open_re + r"\s*/[^"@ + middle + "]*"@
        + close_re
}

/// Builds the pattern of a paired tag (see [`paired_pattern`]).
pub fn make_paired_pattern(open_re: &str, close_re: &str, middle_char: &str) -> (r: String)
    ensures
        r@ == paired_pattern(open_re@, close_re@, middle_char@),
{
    let mut v = chars_of(open_re);
    append_str(&mut v, r"(?!\s*/)[^");
    append_str(&mut v, middle_char);
    append_str(&mut v, "]*");
    append_str(&mut v, close_re);
    append_str(&mut v, r"\s*");
    append_str(&mut v, open_re);
    append_str(&mut v, r"\s*/[^");
    append_str(&mut v, middle_char);
    append_str(&mut v, "]*");
    append_str(&mut v, close_re);
    string_of(&v)
}

} // verus!
