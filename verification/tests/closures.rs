use std::collections::BTreeMap;

use prsm::manager::ScriptManager;
use prsm::script::{normalize, ClosureScriptFn, Script};

#[test]
fn prsm_closure_no_capture() {
    let x = || -> Result<(), usize> { Ok(()) };
    let y = || -> Result<(), usize> { Ok(()) };
    let z = |a: usize| -> Result<(), usize> { Err(a + 3) };

    let sm = ScriptManager::new(
        None,
        BTreeMap::from_iter([
            (1usize, Script::new("x", Box::new(ClosureScriptFn::new(move || normalize(x()))))),
            (2usize, Script::new("y", Box::new(ClosureScriptFn::new(move || normalize(y()))))),
            (3usize, Script::new("z", Box::new(ClosureScriptFn::new(move || normalize(z(0)))))),
        ]),
    );

    assert!(matches!(sm.run_script(1), Ok(())));
    assert!(matches!(sm.run_script(2), Ok(())));
    assert!(matches!(sm.run_script(3), Err(e) if e == "3"));
    assert_eq!(sm.len(), 3);
}

#[test]
fn prsm_closure_capture() {
    let x = || -> Result<(), usize> { Ok(()) };
    let y = || -> Result<(), usize> { Ok(()) };

    let b = 2;
    let z = move |a: usize| -> Result<(), usize> { Err(a + b) };

    let sm = ScriptManager::new(
        None,
        BTreeMap::from_iter([
            (1usize, Script::new("x", Box::new(ClosureScriptFn::new(move || normalize(x()))))),
            (2usize, Script::new("y", Box::new(ClosureScriptFn::new(move || normalize(y()))))),
            (3usize, Script::new("z", Box::new(ClosureScriptFn::new(move || normalize(z(5)))))),
        ]),
    );

    assert!(matches!(sm.run_script(1), Ok(())));
    assert!(matches!(sm.run_script(2), Ok(())));
    assert!(matches!(sm.run_script(3), Err(e) if e == "7"));
    assert_eq!(sm.len(), 3);
}
