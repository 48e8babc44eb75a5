//! Deferred, named units of work.
//!
//! A [`Script`] owns a zero-argument computation whose execution is postponed
//! until [`Script::run`] is called. Computations with unrelated failure types
//! are stored homogeneously: a failure of any type implementing
//! [`PrsmDisplay`](crate::display::PrsmDisplay) is normalized at registration
//! time into the single displayable channel of [`ScriptResult`].

use vstd::prelude::*;
use crate::display::PrsmDisplay;

verus! {

/// The uniform outcome of a script: success without payload, or the failure
/// value's textual rendering.
pub type ScriptResult = Result<(), String>;

/// A deferred, zero-argument computation. `possible` is the relation between
/// the stored computation and the outcomes a call of it may yield; `call`
/// executes it once.
pub trait ScriptFn {
    /// Which outcomes one execution of this computation may produce.
    spec fn possible(&self, r: ScriptResult) -> bool;

    /// Execute the computation now. Each call executes it anew; nothing is
    /// cached between calls.
    fn call(&self) -> (r: ScriptResult)
        ensures
            self.possible(r),
    ;
}

/// Adapts any zero-argument closure (with fully captured state) into a
/// [`ScriptFn`].
pub struct ClosureScriptFn<F: Fn() -> ScriptResult> {
    f: F,
}

impl<F: Fn() -> ScriptResult> ClosureScriptFn<F> {
    #[verifier::type_invariant]
    spec fn inv(&self) -> bool {
        call_requires(self.f, ())
    }

    /// Wrap a closure. The closure must be callable unconditionally: a
    /// script's computation takes no arguments, so there is nothing a later
    /// caller could do to satisfy a precondition.
    pub fn new(f: F) -> (s: Self)
        requires
            call_requires(f, ()),
        ensures
            forall|r: ScriptResult| s.possible(r) <==> call_ensures(f, (), r),
    {
        ClosureScriptFn { f }
    }
}

impl<F: Fn() -> ScriptResult> ScriptFn for ClosureScriptFn<F> {
    closed spec fn possible(&self, r: ScriptResult) -> bool {
        call_ensures(self.f, (), r)
    }

    fn call(&self) -> (r: ScriptResult) {
        proof {
            use_type_invariant(self);
        }
        (self.f)()
    }
}

/// A named script: display text plus an owned deferred computation of type
/// `C`. Everything uses the default parameter, the type-erased form: it lets
/// computations of unrelated closure types live in one registry behind
/// `Box<dyn ScriptFn>`.
pub struct Script<C = Box<dyn ScriptFn>> {
    /// The description shown in the manager's menu.
    pub description: &'static str,
    func: C,
}

impl Script<Box<dyn ScriptFn>> {
    /// Which outcomes running this script may yield: exactly those of its
    /// stored computation.
    pub closed spec fn possible(&self, r: ScriptResult) -> bool {
        (*self.func).possible(r)
    }

    /// The description, for use in contracts.
    pub closed spec fn spec_description(&self) -> Seq<char> {
        self.description@
    }

    /// The description shown in the manager's menu.
    pub fn description(&self) -> (d: &'static str)
        ensures
            d@ == self.spec_description(),
    {
        self.description
    }

    /// Construct a named script around an already-boxed computation, which
    /// becomes the script's `run` behaviour: the script's outcomes are
    /// exactly the given computation's. Construction stores the computation
    /// without executing it.
    pub fn new(description: &'static str, func: Box<dyn ScriptFn>) -> (s: Script)
        ensures
            s.spec_description() == description@,
            forall|r: ScriptResult| #[trigger] s.possible(r) <==> (*func).possible(r),
    {
        let ghost given = func;
        let s = Script { description, func };
        proof {
            assert(s.func == given);
            assert forall|r: ScriptResult| #[trigger] s.possible(r) <==> (*given).possible(
                r,
            ) by {
                assert((*s.func).possible(r) <==> (*given).possible(r));
            }
        }
        s
    }

    /// Run the script: execute the stored computation once and hand its
    /// outcome back unchanged. There is no hidden state: each call executes
    /// the computation independently.
    pub fn run(&self) -> (r: ScriptResult)
        ensures
            self.possible(r),
    {
        (*self.func).call()
    }
}

/// Normalize the outcome of a fallible computation into the uniform channel:
/// any success payload is discarded, and a failure of any displayable type is
/// erased to its textual rendering, which is kept intact.
pub fn normalize<T, E: PrsmDisplay>(r: Result<T, E>) -> (out: ScriptResult)
    ensures
        r is Ok <==> out is Ok,
        r is Err ==> out->Err_0@ == r->Err_0.text(),
{
    match r {
        Ok(_) => Ok(()),
        Err(e) => Err(e.render()),
    }
}

} // verus!
