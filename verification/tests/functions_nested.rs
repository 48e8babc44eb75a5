use std::collections::BTreeMap;

use prsm::manager::ScriptManager;
use prsm::script::{normalize, ClosureScriptFn, Script};

fn x() -> Result<(), usize> {
    Ok(())
}

fn y() -> Result<(), usize> {
    Ok(())
}

fn z(a: usize) -> Result<(), usize> {
    Err(a + 3)
}

#[test]
fn prsm_function_nested() {
    let sm = ScriptManager::new(
        None,
        BTreeMap::from_iter([
            (1usize, Script::new("x", Box::new(ClosureScriptFn::new(move || normalize(x()))))),
            (2usize, Script::new("y", Box::new(ClosureScriptFn::new(move || normalize(y()))))),
            (3usize, Script::new("z", Box::new(ClosureScriptFn::new(move || normalize(z(0)))))),
        ]),
    );

    assert!(matches!(sm.run_script(1), Ok(())));
    assert!(matches!(sm.run_script(2), Ok(())));
    assert!(matches!(sm.run_script(3), Err(e) if e == "3"));
    assert_eq!(sm.len(), 3);
}
