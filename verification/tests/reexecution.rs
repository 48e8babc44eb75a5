use std::cell::Cell;
use std::collections::BTreeMap;
use std::rc::Rc;

use prsm::manager::ScriptManager;
use prsm::script::{ClosureScriptFn, Script};

#[test]
fn invoking_twice_reexecutes() {
    let counter = Rc::new(Cell::new(0usize));
    let seen = counter.clone();
    let sm = ScriptManager::new(
        None,
        BTreeMap::from_iter([(
            1usize,
            Script::new(
                "count up",
                Box::new(ClosureScriptFn::new(move || {
                    seen.set(seen.get() + 1);
                    Ok(())
                })),
            ),
        )]),
    );

    assert!(matches!(sm.run_script(1), Ok(())));
    assert!(matches!(sm.run_script(1), Ok(())));
    assert_eq!(counter.get(), 2);
}
