use flowmark::formatter::filling::encode_hex_label;
use flowmark::formatter::ref_defs::LinkRefDefs;
use flowmark::formatter::ref_links::{
    encode_ref_links, inline_image_refs, REF_LABEL_SEP, REF_LABEL_START,
};

fn refdef_map(pairs: &[(&str, &str)]) -> LinkRefDefs {
    let mut defs = LinkRefDefs::new();
    for (k, v) in pairs {
        defs.insert((*k).to_string(), (*v).to_string());
    }
    defs
}

#[test]
fn encode_full_ref_link() {
    let defs = refdef_map(&[("foo", "https://example.com")]);
    let input = "See [click here][foo] for details.\n";
    let output = encode_ref_links(input, &defs);
    assert!(output.contains(REF_LABEL_START));
    assert!(output.contains(REF_LABEL_SEP));
    assert!(!output.contains("[foo]"));
}

#[test]
fn encode_collapsed_ref_link() {
    let defs = refdef_map(&[("example", "https://example.com")]);
    let input = "See [Example][] for details.\n";
    let output = encode_ref_links(input, &defs);
    assert!(output.contains(REF_LABEL_START));
}

#[test]
fn encode_shortcut_ref_link() {
    let defs = refdef_map(&[("foo", "https://example.com")]);
    let input = "See [foo] for details.\n";
    let output = encode_ref_links(input, &defs);
    assert!(output.contains(REF_LABEL_START), "shortcut ref should be encoded");
    assert!(output.contains(") for details."));
}

#[test]
fn encode_shortcut_ref_lowercases_label() {
    let defs = refdef_map(&[("foo", "https://example.com")]);
    let input = "See [Foo] here.\n";
    let output = encode_ref_links(input, &defs);
    let expected_payload = encode_hex_label("foo");
    assert_eq!(expected_payload, "666f6f");
    assert!(
        output.contains(&format!("{REF_LABEL_START}{expected_payload}{REF_LABEL_SEP}")),
        "expected hex-encoded label in output: {output:?}"
    );
}

#[test]
fn encode_unknown_label_unchanged() {
    let defs = refdef_map(&[("known", "https://example.com")]);
    let input = "See [text][unknown] for details.\n";
    let output = encode_ref_links(input, &defs);
    assert_eq!(input, output);
}

#[test]
fn encode_empty_labels_passthrough() {
    let defs = LinkRefDefs::new();
    let input = "See [text][foo] for details.\n";
    let output = encode_ref_links(input, &defs);
    assert_eq!(input, output);
}

#[test]
fn encode_inside_code_fence_unchanged() {
    let defs = refdef_map(&[("foo", "https://example.com")]);
    let input = "```\n[text][foo]\n```\n";
    let output = encode_ref_links(input, &defs);
    assert!(output.contains("[text][foo]"));
}

#[test]
fn inline_image_full_ref() {
    let defs = refdef_map(&[("img", "https://example.com/img.png")]);
    let input = "![alt][img]\n";
    let output = inline_image_refs(input, &defs);
    assert_eq!(output, "![alt](https://example.com/img.png)\n");
}

#[test]
fn inline_image_collapsed_ref() {
    let defs = refdef_map(&[("alt", "https://example.com/img.png")]);
    let input = "![alt][]\n";
    let output = inline_image_refs(input, &defs);
    assert_eq!(output, "![alt](https://example.com/img.png)\n");
}

#[test]
fn inline_image_shortcut_ref() {
    let defs = refdef_map(&[("alt", "https://example.com/img.png")]);
    let input = "![alt]\n";
    let output = inline_image_refs(input, &defs);
    assert_eq!(output, "![alt](https://example.com/img.png)\n");
}

#[test]
fn inline_image_with_title() {
    let defs = refdef_map(&[("img", "https://example.com/img.png \"My title\"")]);
    let input = "![alt][img]\n";
    let output = inline_image_refs(input, &defs);
    assert_eq!(output, "![alt](https://example.com/img.png \"My title\")\n");
}

#[test]
fn inline_image_label_lowercased_lookup() {
    let defs = refdef_map(&[("img", "https://example.com/img.png")]);
    let input = "![Alt][IMG]\n";
    let output = inline_image_refs(input, &defs);
    assert_eq!(output, "![Alt](https://example.com/img.png)\n");
}

#[test]
fn inline_image_no_def_unchanged() {
    let defs = LinkRefDefs::new();
    let input = "![alt][missing]\n";
    let output = inline_image_refs(input, &defs);
    assert_eq!(output, input);
}

#[test]
fn inline_image_inside_code_fence_unchanged() {
    let defs = refdef_map(&[("img", "https://example.com/img.png")]);
    let input = "```\n![alt][img]\n```\n";
    let output = inline_image_refs(input, &defs);
    assert!(output.contains("![alt][img]"));
}

#[test]
fn encode_full_ref_link_exact_output() {
    let defs = refdef_map(&[("foo", "https://example.com")]);
    let output = encode_ref_links("[a][Foo] and [b][foo]\n", &defs);
    assert_eq!(
        output,
        "[a](\u{F000}666f6f\u{F001}) and [b](\u{F000}666f6f\u{F001})\n"
    );
}

#[test]
fn encode_badge_ref_link() {
    let defs = refdef_map(&[("ci", "https://ci.example/badge")]);
    let output = encode_ref_links("[![CI](https://img/ci.svg)][ci]\n", &defs);
    assert_eq!(output, "[![CI](https://img/ci.svg)](\u{F000}6369\u{F001})\n");
    let collapsed = encode_ref_links("[![CI](https://img/ci.svg)][]\n", &defs);
    assert_eq!(collapsed, "[![CI](https://img/ci.svg)](\u{F000}6369\u{F001})\n");
}

#[test]
fn encode_stops_at_an_unknown_first_full_reference() {
    // A pass that leaves the text unchanged ends the full-reference passes;
    // the shortcut pass then takes the trailing `[foo]` at the line's end.
    let defs = refdef_map(&[("foo", "https://example.com")]);
    let output = encode_ref_links("[a][nope] [b][foo]\n", &defs);
    assert_eq!(output, "[a][nope] [b][foo](\u{F000}666f6f\u{F001})\n");
}

#[test]
fn image_shortcut_keeps_the_following_character() {
    let defs = refdef_map(&[("logo", "/logo.png")]);
    let output = inline_image_refs("See ![logo], then more.", &defs);
    assert_eq!(output, "See ![logo](/logo.png), then more.");
}
