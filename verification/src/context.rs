//! The flags that a run of the tool is given.

use vstd::prelude::*;

verus! {

/// The flags of a run: answer every question with yes, run no scripts, and
/// report more.
pub struct Context {
    pub yes: bool,
    pub no_script: bool,
    pub verbose: bool,
}

impl Context {
    /// The context with the given flags.
    pub fn new(yes: bool, no_script: bool, verbose: bool) -> (ctx: Context)
        ensures
            ctx.yes == yes,
            ctx.no_script == no_script,
            ctx.verbose == verbose,
    {
        let mut ctx = Context { yes: false, no_script: false, verbose: false };
        ctx.set_yes(yes);
        ctx.set_no_script(no_script);
        ctx.set_verbose(verbose);
        ctx
    }

    fn set_yes(&mut self, yes: bool)
        ensures
            *final(self) == (Context { yes, ..*old(self) }),
    {
        self.yes = yes;
    }

    fn set_no_script(&mut self, ns: bool)
        ensures
            *final(self) == (Context { no_script: ns, ..*old(self) }),
    {
        self.no_script = ns;
    }

    fn set_verbose(&mut self, verbose: bool)
        ensures
            *final(self) == (Context { verbose, ..*old(self) }),
    {
        self.verbose = verbose;
    }
}

} // verus!
