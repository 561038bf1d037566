//! Reading the command line: which action to take and which configuration files.
use vstd::prelude::*;

use crate::text::{chars_of, eq_chars};

verus! {

/// The action named by the first argument after the program name.
#[allow(non_camel_case_types)]
#[derive(PartialEq, Eq, Structural, Clone, Copy, Debug)]
pub enum Actions {
    help,
    build_apk,
    build_aab,
    up,
    clean,
}

/// The program's arguments, the program name first.
pub struct BuildSystem {
    pub args: Vec<String>,
}

/// The action a word names; any other word asks for help.
pub open spec fn action_of(word: Seq<char>) -> Actions {
    if word == "apk"@ {
        Actions::build_apk
    } else if word == "aab"@ {
        Actions::build_aab
    } else if word == "up"@ {
        Actions::up
    } else if word == "clean"@ {
        Actions::clean
    } else {
        Actions::help
    }
}

impl BuildSystem {
    /// The action of the second argument; help when there is none.
    pub fn get_action(&mut self) -> (r: Actions)
        ensures
            final(self).args == old(self).args,
            old(self).args@.len() >= 2 ==> r == action_of(old(self).args@[1]@),
            old(self).args@.len() < 2 ==> r == Actions::help,
    {
        if self.args.len() >= 2 {
            let w = chars_of(&self.args[1]);
            if eq_chars(&w, &chars_of("apk")) {
                Actions::build_apk
            } else if eq_chars(&w, &chars_of("aab")) {
                Actions::build_aab
            } else if eq_chars(&w, &chars_of("up")) {
                Actions::up
            } else if eq_chars(&w, &chars_of("clean")) {
                Actions::clean
            } else {
                Actions::help
            }
        } else {
            Actions::help
        }
    }
}

/// The configuration paths: every argument after the action, or none.
pub fn get_paths(args: Vec<String>) -> (r: Vec<String>)
    ensures
        args@.len() >= 3 ==> r@ == args@.subrange(2, args@.len() as int),
        args@.len() < 3 ==> r@.len() == 0,
{
    if args.len() < 3 {
        return Vec::new();
    }
    let mut args = args;
    let ghost all = args@;
    let mut r: Vec<String> = Vec::new();
    let mut i: usize = 2;
    while i < args.len()
        invariant
            2 <= i <= args.len(),
            args@ == all,
            r@ == all.subrange(2, i as int),
        decreases args.len() - i,
    {
        let a = args[i].clone();
        assert(a == all[i as int]);
        r.push(a);
        assert(r@ =~= all.subrange(2, i + 1));
        i = i + 1;
    }
    r
}

} // verus!
