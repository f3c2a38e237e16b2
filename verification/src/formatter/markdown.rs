//! Markdown filling: the whole formatter, from source text to normalized,
//! wrapped Markdown.

use vstd::prelude::*;

use crate::config::{FormatOptions, ListSpacing};
use crate::formatter::blocks::MdNode;
use crate::formatter::dedent::{dedent, dedent_cuts_whole, dedented};
use crate::formatter::escapes::{
    escape_chars, escape_set, escapes_protected, protect_escapes_outside_code, pua_restored,
    restore_pua_escape_placeholders,
};
use crate::formatter::filling::{
    extract_footnote_defs, extract_link_ref_defs, footnotes_marked, refdefs_marked, refdefs_upto,
};
use crate::formatter::parse::{flowmark_comrak_options, flowmark_parse_options, markdown_tree_of, parse_markdown};
use crate::formatter::protect::{
    autolinks_protected, autolinks_restored, entities_protected, entities_restored, protect_autolinks,
    protect_html_entities, restore_autolinks, restore_html_entities,
};
use crate::formatter::ref_links::{encode_ref_links, images_inlined, inline_image_refs, links_encoded};
use crate::formatter::render::{block_rendered, render_block};
use crate::formatter::text_passes::{
    apply_typography_to_fndef_bodies, fndef_bodies_typeset, normalize_comrak_output,
    period_escapes_postprocessed, postprocess_period_escapes, rendered_output_normalized,
};
use crate::formatter::tree_passes::{
    apply_ellipses_to_tree, apply_smart_quotes_to_tree, doc_cleanups, ellipses_applied,
    headings_unbolded, quotes_applied,
};
use crate::frontmatter::{frontmatter_split, split_frontmatter};
use crate::text::{chars_of, string_of, trim, trim_chars};
use crate::wrapping::line_wrappers::{
    line_wrap_by_sentence, line_wrap_to_width, LineBreaking, LineWrapper, DEFAULT_MIN_LINE_LEN,
};
use crate::wrapping::tag_handling::{preprocess_tag_block_spacing, tag_block_spacing};
use crate::wrapping::text_filling::{fill_text, filled_text, text_lines, Wrap};

verus! {

/// The text that is formatted: the text after its frontmatter, when it has
/// one.
pub open spec fn markdown_body(text: Seq<char>) -> Seq<char> {
    let (front, content) = frontmatter_split(text);
    if front.len() == 0 {
        text
    } else {
        content
    }
}

/// The text handed to the parser: the body, dedented if asked, trimmed and
/// ended by one newline, with tag blocks spaced, reference definitions
/// marked, reference images inlined, reference links and footnote
/// definitions encoded, footnote bodies typeset, and autolinks, entities and
/// escapes protected.
pub open spec fn markdown_prepared(text: Seq<char>, dedent_input: bool, smartquotes: bool, ellipses: bool) -> Seq<char> {
    let body = markdown_body(text);
    let t1 = if dedent_input {
        dedented(body)
    } else {
        body
    };
    let t2 = tag_block_spacing(trim(t1) + seq!['\n']);
    let defs = refdefs_upto(text_lines(t2), text_lines(t2).len() as int);
    let t3 = links_encoded(images_inlined(refdefs_marked(t2), defs), defs);
    let t4 = footnotes_marked(t3);
    let t5 = if smartquotes || ellipses {
        fndef_bodies_typeset(t4, smartquotes, ellipses)
    } else {
        t4
    };
    escapes_protected(entities_protected(autolinks_protected(t5)), escape_set())
}

/// The rendered text with escapes, entities and autolinks restored, period
/// escapes tidied, the output normalized, at least a newline, and the
/// frontmatter put back in front.
pub open spec fn markdown_finished(rendered: Seq<char>, text: Seq<char>) -> Seq<char> {
    let front = frontmatter_split(text).0;
    let e = rendered_output_normalized(
        autolinks_restored(entities_restored(period_escapes_postprocessed(pua_restored(rendered)))),
    );
    let f = if e.len() == 0 {
        seq!['\n']
    } else {
        e
    };
    front + f
}

/// `b`, `c` and `out` are the trees after the cleanups, smart quotes and
/// ellipses (each only when asked for) of the parsed tree `t`, in turn.
pub open spec fn passes_chain(t: MdNode, b: MdNode, c: MdNode, out: MdNode, cleanups: bool, smartquotes: bool, ellipses: bool) -> bool {
    &&& if cleanups {
        headings_unbolded(t, b)
    } else {
        b == t
    }
    &&& if smartquotes {
        quotes_applied(b, c)
    } else {
        c == b
    }
    &&& if ellipses {
        ellipses_applied(c, out)
    } else {
        out == c
    }
}

/// `out` is the parsed tree `t` after the cleanups, smart quotes and
/// ellipses that are asked for, in that order.
pub open spec fn tree_passes_applied(t: MdNode, out: MdNode, cleanups: bool, smartquotes: bool, ellipses: bool) -> bool {
    exists|b: MdNode, c: MdNode| #[trigger] passes_chain(t, b, c, out, cleanups, smartquotes, ellipses)
}

/// The line wrapper used when none is given: sentence per line in semantic
/// mode, else plain filling to the width.
pub open spec fn default_wrapper(width: usize, semantic: bool) -> LineWrapper {
    if semantic {
        LineWrapper { width, breaking: LineBreaking::BySentence { min_line_len: DEFAULT_MIN_LINE_LEN }, is_markdown: true }
    } else {
        LineWrapper { width, breaking: LineBreaking::ToWidth, is_markdown: true }
    }
}

/// `out` is what filling `text` gives: the finished rendering of the parsed
/// tree of the prepared text after the tree passes asked for. (The tree is
/// fixed up to the text of its strings, which is all rendering reads.)
pub open spec fn markdown_filled(
    text: Seq<char>,
    out: Seq<char>,
    dedent_input: bool,
    width: usize,
    semantic: bool,
    cleanups: bool,
    smartquotes: bool,
    ellipses: bool,
    line_wrapper: Option<LineWrapper>,
    list_spacing: ListSpacing,
) -> bool {
    exists|t: MdNode|
        tree_passes_applied(
            markdown_tree_of(markdown_prepared(text, dedent_input, smartquotes, ellipses), flowmark_parse_options()),
            t,
            cleanups,
            smartquotes,
            ellipses,
        ) && out == markdown_finished(
            block_rendered(
                t,
                match line_wrapper {
                    Some(w) => w,
                    None => default_wrapper(width, semantic),
                },
                list_spacing,
                Seq::empty(),
                Seq::empty(),
            ),
            text,
        )
}

/// The text handed to the parser (see [`markdown_prepared`]).
pub fn prepare_markdown(markdown_text: &str, dedent_input: bool, smartquotes: bool, ellipses: bool) -> (r: String)
    requires
        dedent_input ==> dedent_cuts_whole(markdown_body(markdown_text@)),
    ensures
        r@ == markdown_prepared(markdown_text@, dedent_input, smartquotes, ellipses),
{
    let (frontmatter, content) = split_frontmatter(markdown_text);
    let fv = chars_of(frontmatter.as_str());
    let body = if fv.len() == 0 {
        string_of(&chars_of(markdown_text))
    } else {
        content
    };
    assert(body@ == markdown_body(markdown_text@));
    let body = if dedent_input {
        dedent(body.as_str())
    } else {
        body
    };
    let ghost t1 = body@;
    let mut t = trim_chars(&chars_of(body.as_str()));
    t.push('\n');
    assert(t@ == trim(t1) + seq!['\n']);
    let text = string_of(&t);
    let text = preprocess_tag_block_spacing(text.as_str());
    let ghost g2 = text@;
    let ghost defs = refdefs_upto(text_lines(g2), text_lines(g2).len() as int);
    let (ref_defs, text_without_defs) = extract_link_ref_defs(text.as_str());
    let text = inline_image_refs(text_without_defs.as_str(), &ref_defs);
    let text = encode_ref_links(text.as_str(), &ref_defs);
    let text = extract_footnote_defs(text.as_str());
    let text = if smartquotes || ellipses {
        apply_typography_to_fndef_bodies(text.as_str(), smartquotes, ellipses)
    } else {
        text
    };
    let text = protect_autolinks(text.as_str());
    let text = protect_html_entities(text.as_str());
    let set = escape_chars();
    let sl = set.as_slice();
    assert(sl@ == escape_set());
    protect_escapes_outside_code(text.as_str(), sl)
}

/// The rendered text finished (see [`markdown_finished`]).
pub fn finish_markdown(rendered: &str, markdown_text: &str) -> (r: String)
    ensures
        r@ == markdown_finished(rendered@, markdown_text@),
{
    let (frontmatter, _content) = split_frontmatter(markdown_text);
    let result = restore_pua_escape_placeholders(rendered);
    let result = postprocess_period_escapes(result.as_str());
    let result = restore_html_entities(result.as_str());
    let result = restore_autolinks(result.as_str());
    let result = normalize_comrak_output(result.as_str());
    let mut out = chars_of(result.as_str());
    if out.len() == 0 {
        out.push('\n');
    }
    let mut all = chars_of(frontmatter.as_str());
    crate::text::append_chars(&mut all, &out);
    string_of(&all)
}

/// Normalize and wrap Markdown text.
///
/// The body (after any frontmatter) is prepared (see `markdown_prepared`),
/// parsed, passed through the cleanups, smart quotes and ellipses asked for,
/// rendered with the line wrapper (the given one, or by sentence in semantic
/// mode and to the width otherwise), then restored and normalized (see
/// `markdown_finished`). The tree after the passes is determined up to the
/// text of its strings, which is all rendering reads.
pub fn fill_markdown(
    markdown_text: &str,
    dedent_input: bool,
    width: usize,
    semantic: bool,
    cleanups: bool,
    smartquotes: bool,
    ellipses: bool,
    line_wrapper: Option<LineWrapper>,
    list_spacing: ListSpacing,
) -> (r: String)
    requires
        dedent_input ==> dedent_cuts_whole(markdown_body(markdown_text@)),
    ensures
        markdown_filled(
            markdown_text@,
            r@,
            dedent_input,
            width,
            semantic,
            cleanups,
            smartquotes,
            ellipses,
            line_wrapper,
            list_spacing,
        ),
{
    let wrapper = match line_wrapper {
        Some(w) => w,
        None => if semantic {
            line_wrap_by_sentence(width, DEFAULT_MIN_LINE_LEN, true)
        } else {
            line_wrap_to_width(width, true)
        },
    };
    let text = prepare_markdown(markdown_text, dedent_input, smartquotes, ellipses);
    let tree = parse_markdown(text.as_str(), flowmark_comrak_options());
    let t1 = if cleanups {
        doc_cleanups(&tree)
    } else {
        tree
    };
    let t2 = if smartquotes {
        apply_smart_quotes_to_tree(&t1)
    } else {
        t1
    };
    let t3 = if ellipses {
        apply_ellipses_to_tree(&t2)
    } else {
        t2
    };
    proof {
        reveal_strlit("");
        assert(passes_chain(tree, t1, t2, t3, cleanups, smartquotes, ellipses));
        assert(tree_passes_applied(tree, t3, cleanups, smartquotes, ellipses));
        assert(""@ =~= Seq::<char>::empty());
    }
    let rendered = render_block(&t3, &wrapper, list_spacing, "", "");
    let r = finish_markdown(rendered.as_str(), markdown_text);
    assert(tree_passes_applied(
        markdown_tree_of(markdown_prepared(markdown_text@, dedent_input, smartquotes, ellipses), flowmark_parse_options()),
        t3,
        cleanups,
        smartquotes,
        ellipses,
    ));
    r
}

/// `out` is what reformatting `text` with `opts` gives: plain text filled
/// to the width (only normalized when the width is 0), or Markdown filled
/// with the options' settings, the input dedented.
pub open spec fn reformatted(opts: FormatOptions, text: Seq<char>, out: Seq<char>) -> bool {
    if opts.plaintext {
        out == filled_text(
            text,
            if opts.width > 0 {
                Wrap::Wrap
            } else {
                Wrap::NoWrap
            },
            opts.width as int,
            Seq::empty(),
            Seq::empty(),
            0,
            None,
        )
    } else {
        markdown_filled(
            text,
            out,
            true,
            opts.width,
            opts.semantic,
            opts.cleanups,
            opts.smartquotes,
            opts.ellipses,
            None,
            opts.list_spacing,
        )
    }
}

impl FormatOptions {
    /// Reformat a Markdown or plain text string (see [`reformatted`]).
    pub fn reformat_text(&self, text: &str) -> (r: String)
        requires
            !self.plaintext ==> dedent_cuts_whole(markdown_body(text@)),
        ensures
            reformatted(*self, text@, r@),
    {
        if self.plaintext {
            let wrap = if self.width > 0 {
                Wrap::Wrap
            } else {
                Wrap::NoWrap
            };
            proof {
                reveal_strlit("");
                assert(""@ =~= Seq::<char>::empty());
            }
            fill_text(text, wrap, self.width, "", "", 0, None)
        } else {
            fill_markdown(
                text,
                true,
                self.width,
                self.semantic,
                self.cleanups,
                self.smartquotes,
                self.ellipses,
                None,
                self.list_spacing,
            )
        }
    }
}

/// Reformat a Markdown or plain text string with the given settings (see
/// [`reformatted`]).
pub fn reformat_text(
    text: &str,
    width: usize,
    plaintext: bool,
    semantic: bool,
    cleanups: bool,
    smartquotes: bool,
    ellipses: bool,
    list_spacing: ListSpacing,
) -> (r: String)
    requires
        !plaintext ==> dedent_cuts_whole(markdown_body(text@)),
    ensures
        reformatted(
            FormatOptions { width, plaintext, semantic, cleanups, smartquotes, ellipses, list_spacing },
            text@,
            r@,
        ),
{
    let opts = FormatOptions { width, plaintext, semantic, cleanups, smartquotes, ellipses, list_spacing };
    opts.reformat_text(text)
}

} // verus!
