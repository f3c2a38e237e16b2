use flowmark::skills::{updated_agents_md, INTEGRATION_BLOCK};

#[test]
fn agents_md_block_is_added_or_replaced() {
    assert_eq!(updated_agents_md("", "AGENTS.md"), Ok(format!("{INTEGRATION_BLOCK}\n")));
    assert_eq!(
        updated_agents_md("# Agents\n\n\n", "AGENTS.md"),
        Ok(format!("# Agents\n\n{INTEGRATION_BLOCK}\n"))
    );
    let old = "a\n<!-- BEGIN FLOWMARK INTEGRATION old -->\nstale\n<!-- END FLOWMARK INTEGRATION -->\nb\n";
    assert_eq!(updated_agents_md(old, "AGENTS.md"), Ok(format!("a\n{INTEGRATION_BLOCK}\nb\n")));
    assert_eq!(
        updated_agents_md("<!-- BEGIN FLOWMARK INTEGRATION\n", "x/AGENTS.md"),
        Err("x/AGENTS.md contains an unterminated Flowmark integration block".to_owned())
    );
}
