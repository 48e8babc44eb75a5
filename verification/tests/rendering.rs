use std::collections::BTreeMap;

use prsm::manager::ScriptManager;
use prsm::script::{normalize, ClosureScriptFn, Script};

fn entry(description: &'static str) -> Script {
    let f = || -> Result<(), usize> { Ok(()) };
    Script::new(description, Box::new(ClosureScriptFn::new(move || normalize(f()))))
}

#[test]
fn render_named_manager() {
    let sm = ScriptManager::new(
        Some("TestManager"),
        BTreeMap::from_iter([(1usize, entry("Test x"))]),
    );

    let text = sm.render();
    let header = "========== TestManager ==========";
    let expected = format!("{}\n[1] Test x\n{}", header, "=".repeat(header.len()));
    assert_eq!(text, expected);
    assert!(text.contains("TestManager"));
    assert!(!text.contains("ScriptManager"));
}

#[test]
fn render_default_label() {
    let sm = ScriptManager::new(None, BTreeMap::from_iter([(1usize, entry("Test x"))]));

    let text = sm.render();
    let header = "========== ScriptManager ==========";
    let expected = format!("{}\n[1] Test x\n{}", header, "=".repeat(header.len()));
    assert_eq!(text, expected);
}

#[test]
fn render_lists_keys_ascending() {
    let sm = ScriptManager::new(
        None,
        BTreeMap::from_iter([
            (3usize, entry("third")),
            (1usize, entry("first")),
            (12usize, entry("twelfth")),
        ]),
    );

    let text = sm.render();
    let header = "========== ScriptManager ==========";
    let expected = format!(
        "{}\n[1] first\n[3] third\n[12] twelfth\n{}",
        header,
        "=".repeat(header.len()),
    );
    assert_eq!(text, expected);
}

#[test]
fn render_empty_registry() {
    let sm = ScriptManager::new(None, BTreeMap::new());

    let text = sm.render();
    let header = "========== ScriptManager ==========";
    let expected = format!("{}\n{}", header, "=".repeat(header.len()));
    assert_eq!(text, expected);
}
