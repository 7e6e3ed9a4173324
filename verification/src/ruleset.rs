//! The ruleset builder and the open ruleset.

use crate::access::{AccessFs, AccessRight};
use crate::finalization::{Finalization, Outcome, Stage};
use crate::syscall::{OsError, PathBeneathAttr, Reply, Rule, Syscall};
use vstd::prelude::*;

verus! {

/// The declaration of the rights that a ruleset is to govern.
#[derive(Clone, Copy, Debug, PartialEq, Eq, Structural)]
pub struct RulesetAttr {
    handled_fs: AccessFs,
}

impl RulesetAttr {
    /// The declared rights.
    pub closed spec fn handled(self) -> AccessFs {
        self.handled_fs
    }

    /// A declaration of no rights.
    ///
    /// There is no way to declare "every right": what that means depends on
    /// the running kernel, and a program should behave the same on all of them.
    pub fn new() -> (attr: RulesetAttr)
        ensures
            attr.handled() == AccessFs::spec_from_mask(0),
            attr.handled()@ == Set::<AccessRight>::empty(),
            attr.handled().mask() == 0,
    {
        RulesetAttr { handled_fs: AccessFs::empty() }
    }

    /// Declares `access` as the governed rights, in place of what was
    /// declared before.
    pub fn handle_fs(&mut self, access: AccessFs) -> (attr: &mut RulesetAttr)
        ensures
            attr.handled() == access,
            *final(self) == *final(attr),
    {
        self.handled_fs = access;
        self
    }

    /// Begins the creation of a ruleset that governs the declared rights.
    /// Nothing is checked here: a declaration that the kernel does not
    /// accept, such as one of no rights, fails when the kernel answers.
    pub fn create(&self) -> (c: Creation)
        ensures
            c.handled_access_fs() == self.handled().mask(),
    {
        Creation { handled_access_fs: self.handled_fs.to_mask() }
    }
}

/// The creation of a ruleset, up to the kernel's answer.
#[derive(Debug, PartialEq, Eq)]
pub struct Creation {
    handled_access_fs: u64,
}

impl Creation {
    /// The mask of the rights to govern.
    pub closed spec fn handled_access_fs(self) -> u64 {
        self.handled_access_fs
    }

    /// The call to make.
    pub fn call(&self) -> (call: Syscall)
        ensures
            call == (Syscall::CreateRuleset {
                handled_access_fs: self.handled_access_fs(),
                flags: 0,
            }),
    {
        Syscall::CreateRuleset { handled_access_fs: self.handled_access_fs, flags: 0 }
    }

    /// Takes in the kernel's answer. A handle opens a ruleset that owns it,
    /// set to give up new privileges when it is applied; a failure is passed
    /// on and leaves nothing to release.
    pub fn complete(self, reply: Reply) -> (r: Result<Ruleset, OsError>)
        ensures
            reply.ret >= 0 ==> r is Ok && r->Ok_0.fd() == reply.ret && r->Ok_0.no_new_privs(),
            reply.ret < 0 ==> r == Err::<Ruleset, OsError>(OsError { code: reply.errno }),
    {
        Ruleset::new(reply)
    }
}

/// An open ruleset. It owns one kernel handle from creation until a
/// `Finalization` takes the handle over.
#[derive(Debug, PartialEq, Eq)]
pub struct Ruleset {
    fd: i32,
    no_new_privs: bool,
}

impl Ruleset {
    /// The handle is one that the kernel gave out: it is never negative.
    #[verifier::type_invariant]
    pub closed spec fn wf(self) -> bool {
        self.fd >= 0
    }

    /// The handle that the ruleset owns.
    pub closed spec fn fd(self) -> i32 {
        self.fd
    }

    /// Whether `restrict_self` first gives up the ability to gain privileges.
    pub closed spec fn no_new_privs(self) -> bool {
        self.no_new_privs
    }

    fn new(reply: Reply) -> (r: Result<Ruleset, OsError>)
        ensures
            reply.ret >= 0 ==> r is Ok && r->Ok_0.fd() == reply.ret && r->Ok_0.no_new_privs(),
            reply.ret < 0 ==> r == Err::<Ruleset, OsError>(OsError { code: reply.errno }),
    {
        match reply.handle() {
            Ok(fd) => Ok(Ruleset { fd, no_new_privs: true }),
            Err(e) => Err(e),
        }
    }

    /// The owned handle, for the caller that makes the calls.
    pub fn raw_fd(&self) -> (fd: i32)
        ensures
            fd == self.fd(),
            fd >= 0,
    {
        proof {
            use_type_invariant(self);
        }
        self.fd
    }

    /// Begins the addition of a rule that grants `allowed` beneath the
    /// directory that is open as `parent`. The ruleset is held by the
    /// addition until the kernel has answered.
    pub fn add_path_beneath_rule(self, parent: i32, allowed: AccessFs) -> (a: RuleAddition)
        ensures
            a.ruleset() == self,
            a.rule() == Rule::PathBeneath(
                PathBeneathAttr { allowed_access: allowed.mask(), parent_fd: parent },
            ),
    {
        let attr = PathBeneathAttr { allowed_access: allowed.to_mask(), parent_fd: parent };
        self.add_rule(Rule::PathBeneath(attr))
    }

    fn add_rule(self, rule: Rule) -> (a: RuleAddition)
        ensures
            a.ruleset() == self,
            a.rule() == rule,
    {
        RuleAddition { ruleset: self, rule }
    }

    /// Sets whether `restrict_self` first gives up the ability to gain
    /// privileges. Nothing else changes and no call is made.
    pub fn set_no_new_privs(self, no_new_privs: bool) -> (r: Ruleset)
        ensures
            r.fd() == self.fd(),
            r.no_new_privs() == no_new_privs,
    {
        proof {
            use_type_invariant(&self);
        }
        Ruleset { fd: self.fd, no_new_privs }
    }

    /// Ends the ruleset's life by applying it: the no-new-privileges call
    /// comes first where it is asked for, else the restriction itself.
    pub fn restrict_self(self) -> (f: Finalization)
        ensures
            f.fd() == self.fd(),
            f.spec_stage() == if self.no_new_privs() {
                Stage::NoNewPrivs
            } else {
                Stage::Restrict
            },
    {
        proof {
            use_type_invariant(&self);
        }
        if self.no_new_privs {
            Finalization::begin(self.fd, Stage::NoNewPrivs)
        } else {
            Finalization::begin(self.fd, Stage::Restrict)
        }
    }

    /// Ends the ruleset's life without applying it: only the release is due.
    pub fn abandon(self) -> (f: Finalization)
        ensures
            f.fd() == self.fd(),
            f.spec_stage() == Stage::Release(Outcome::Abandoned),
    {
        proof {
            use_type_invariant(&self);
        }
        Finalization::begin(self.fd, Stage::Release(Outcome::Abandoned))
    }
}

/// The addition of one rule to an open ruleset, up to the kernel's answer.
#[derive(Debug, PartialEq, Eq)]
pub struct RuleAddition {
    ruleset: Ruleset,
    rule: Rule,
}

impl RuleAddition {
    /// The ruleset that the rule goes to.
    pub closed spec fn ruleset(self) -> Ruleset {
        self.ruleset
    }

    /// The rule to add.
    pub closed spec fn rule(self) -> Rule {
        self.rule
    }

    /// The call to make.
    pub fn call(&self) -> (call: Syscall)
        ensures
            call == (Syscall::AddRule {
                ruleset_fd: self.ruleset().fd(),
                rule: self.rule(),
                flags: 0,
            }),
    {
        Syscall::AddRule { ruleset_fd: self.ruleset.raw_fd(), rule: self.rule, flags: 0 }
    }

    /// Takes in the kernel's answer.
    ///
    /// On success the ruleset comes back as it was on this side, ready for
    /// the next step. On failure its life ends: what comes back carries the
    /// error and owns the handle, with the release as the one call still due.
    pub fn complete(self, reply: Reply) -> (r: Result<Ruleset, Finalization>)
        ensures
            reply.ret == 0 ==> r is Ok && r->Ok_0 == self.ruleset(),
            reply.ret != 0 ==> r is Err && r->Err_0.fd() == self.ruleset().fd()
                && r->Err_0.spec_stage() == Stage::Release(
                Outcome::Errored(OsError { code: reply.errno }),
            ),
    {
        match reply.status() {
            Ok(_) => Ok(self.ruleset),
            Err(e) => {
                let fd = self.ruleset.raw_fd();
                Err(Finalization::begin(fd, Stage::Release(Outcome::Errored(e))))
            },
        }
    }
}

} // verus!
