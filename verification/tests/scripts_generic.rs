use prsm::script::{normalize, ClosureScriptFn, Script};

fn foo<T: Sized>(_msg: T) -> Result<(), &'static str> {
    Err("failed")
}

#[test]
fn prsm_script_generic_parameter() {
    let script_1 = Script::new(
        "test script",
        Box::new(ClosureScriptFn::new(move || normalize(foo(&[] as &[()])))),
    );
    let script_2 = Script::new(
        "test script",
        Box::new(ClosureScriptFn::new(move || normalize(foo(&[1, 2, 3])))),
    );

    for script in [script_1, script_2] {
        let err = script.run().unwrap_err();
        assert_eq!(script.description, "test script");
        assert_eq!(format!("{}", err), "failed");
    }
}
