//! The Flowmark section of an `AGENTS.md` file.

use vstd::prelude::*;
use crate::formatter::text_passes::{find_buf, find_from, lemma_find_from};
use crate::text::{append_chars, append_str, chars_of, slice_of, string_of, trim_end, trim_end_chars};

verus! {

pub const INTEGRATION_BEGIN: &'static str = "<!-- BEGIN FLOWMARK INTEGRATION";

pub const INTEGRATION_END: &'static str = "<!-- END FLOWMARK INTEGRATION -->";

pub const INTEGRATION_BLOCK: &'static str = "<!-- BEGIN FLOWMARK INTEGRATION format=f03 surface=agents-md -->\n## flowmark\n\nAuto-format Markdown with `flowmark` for clean, semantic git diffs.\n\n- Run `flowmark --docs` for full usage and `flowmark --skill` for the skill.\n- Run `flowmark --auto <files>` on Markdown you create or edit.\n\n<!-- END FLOWMARK INTEGRATION -->";

pub const UNTERMINATED_SUFFIX: &'static str = " contains an unterminated Flowmark integration block";

/// What `AGENTS.md` becomes: an existing Flowmark section (from its begin
/// marker to the first end marker after it) replaced by the current block;
/// the block alone for an empty file; otherwise the block appended after a
/// blank line. A begin marker without an end marker is an error naming the
/// file.
pub open spec fn agents_md_updated(current: Seq<char>, path: Seq<char>) -> Result<Seq<char>, Seq<char>> {
    let start = find_from(current, INTEGRATION_BEGIN@, 0);
    if start >= 0 {
        let suffix = current.skip(start);
        let rel = find_from(suffix, INTEGRATION_END@, 0);
        if rel < 0 {
            Err(path + UNTERMINATED_SUFFIX@)
        } else {
            let end = start + rel + INTEGRATION_END@.len();
            Ok(current.take(start) + INTEGRATION_BLOCK@ + current.skip(end))
        }
    } else if current.len() == 0 {
        Ok(INTEGRATION_BLOCK@ + seq!['\n'])
    } else {
        Ok(trim_end(current) + seq!['\n', '\n'] + INTEGRATION_BLOCK@ + seq!['\n'])
    }
}

/// The new text of `AGENTS.md` (see [`agents_md_updated`]); `path` is how
/// the file is named in the error.
pub fn updated_agents_md(current: &str, path: &str) -> (r: Result<String, String>)
    ensures
        match agents_md_updated(current@, path@) {
            Ok(t) => r matches Ok(s) && s@ == t,
            Err(e) => r matches Err(s) && s@ == e,
        },
{
    let v = chars_of(current);
    let begin = chars_of(INTEGRATION_BEGIN);
    let end_marker = chars_of(INTEGRATION_END);
    match find_buf(&v, &begin, 0) {
        Some(start) => {
            proof {
                lemma_find_from(v@, begin@, 0);
            }
            let suffix = slice_of(&v, start, v.len());
            assert(suffix@ =~= v@.skip(start as int));
            match find_buf(&suffix, &end_marker, 0) {
                None => {
                    let mut msg = chars_of(path);
                    append_str(&mut msg, UNTERMINATED_SUFFIX);
                    Err(string_of(&msg))
                },
                Some(rel) => {
                    proof {
                        lemma_find_from(suffix@, end_marker@, 0);
                    }
                    let end = start + rel + end_marker.len();
                    let mut out = slice_of(&v, 0, start);
                    append_str(&mut out, INTEGRATION_BLOCK);
                    let tail = slice_of(&v, end, v.len());
                    append_chars(&mut out, &tail);
                    Ok(string_of(&out))
                },
            }
        },
        None => {
            if v.len() == 0 {
                let mut out = chars_of(INTEGRATION_BLOCK);
                out.push('\n');
                Ok(string_of(&out))
            } else {
                let mut out = trim_end_chars(&v);
                out.push('\n');
                out.push('\n');
                append_str(&mut out, INTEGRATION_BLOCK);
                out.push('\n');
                assert(out@ =~= trim_end(v@) + seq!['\n', '\n'] + INTEGRATION_BLOCK@ + seq!['\n']);
                Ok(string_of(&out))
            }
        },
    }
}

} // verus!
