use landlock::access::{AccessFs, AccessRight, KNOWN_BITS};
use landlock::finalization::{Finalization, Outcome, Stage};
use landlock::ruleset::{Ruleset, RulesetAttr};
use landlock::syscall::{OsError, PathBeneathAttr, Reply, Rule, Syscall, RULE_PATH_BENEATH};

const EPERM: i32 = 1;
const EBADF: i32 = 9;
const EINVAL: i32 = 22;
const ENOMSG: i32 = 42;

/// A stand-in for the kernel: a handle table and the rules of each ruleset.
struct Kernel {
    next_fd: i32,
    rulesets: Vec<(i32, u64, Vec<Rule>)>,
    no_new_privs: bool,
    refuse_no_new_privs: bool,
    applied: Vec<Vec<Rule>>,
    log: Vec<Syscall>,
}

fn ok() -> Reply {
    Reply { ret: 0, errno: 0 }
}

fn fail(errno: i32) -> Reply {
    Reply { ret: -1, errno }
}

impl Kernel {
    fn new() -> Kernel {
        Kernel {
            next_fd: 3,
            rulesets: Vec::new(),
            no_new_privs: false,
            refuse_no_new_privs: false,
            applied: Vec::new(),
            log: Vec::new(),
        }
    }

    fn open_handles(&self) -> usize {
        self.rulesets.len()
    }

    fn closes_of(&self, fd: i32) -> usize {
        self.log.iter().filter(|c| **c == Syscall::Close { fd }).count()
    }

    fn perform(&mut self, call: Syscall) -> Reply {
        self.log.push(call);
        match call {
            Syscall::CreateRuleset { handled_access_fs, flags } => {
                if flags != 0 || handled_access_fs & !KNOWN_BITS != 0 {
                    return fail(EINVAL);
                }
                if handled_access_fs == 0 {
                    return fail(ENOMSG);
                }
                let fd = self.next_fd;
                self.next_fd += 1;
                self.rulesets.push((fd, handled_access_fs, Vec::new()));
                Reply { ret: fd, errno: 0 }
            }
            Syscall::AddRule { ruleset_fd, rule, flags } => {
                if flags != 0 || rule.rule_type() != RULE_PATH_BENEATH {
                    return fail(EINVAL);
                }
                let Rule::PathBeneath(attr) = rule;
                match self.rulesets.iter_mut().find(|r| r.0 == ruleset_fd) {
                    None => fail(EBADF),
                    Some(entry) => {
                        if attr.allowed_access == 0 {
                            fail(ENOMSG)
                        } else if attr.allowed_access & !entry.1 != 0 {
                            fail(EINVAL)
                        } else {
                            entry.2.push(rule);
                            ok()
                        }
                    }
                }
            }
            Syscall::SetNoNewPrivs => {
                if self.refuse_no_new_privs {
                    fail(EINVAL)
                } else {
                    self.no_new_privs = true;
                    ok()
                }
            }
            Syscall::RestrictSelf { ruleset_fd, flags } => {
                if flags != 0 {
                    return fail(EINVAL);
                }
                if !self.no_new_privs {
                    return fail(EPERM);
                }
                match self.rulesets.iter().find(|r| r.0 == ruleset_fd) {
                    None => fail(EBADF),
                    Some(entry) => {
                        self.applied.push(entry.2.clone());
                        ok()
                    }
                }
            }
            Syscall::Close { fd } => {
                let before = self.rulesets.len();
                self.rulesets.retain(|r| r.0 != fd);
                if self.rulesets.len() == before {
                    fail(EBADF)
                } else {
                    ok()
                }
            }
        }
    }

    fn create(&mut self, attr: &RulesetAttr) -> Result<Ruleset, OsError> {
        let creation = attr.create();
        let reply = self.perform(creation.call());
        creation.complete(reply)
    }

    fn finish(&mut self, mut f: Finalization) -> Outcome {
        while let Some(call) = f.pending() {
            let reply = self.perform(call);
            f = f.advance(reply);
        }
        f.outcome().unwrap()
    }

    fn add(&mut self, ruleset: Ruleset, parent: i32, allowed: AccessFs) -> Result<Ruleset, Outcome> {
        let addition = ruleset.add_path_beneath_rule(parent, allowed);
        let reply = self.perform(addition.call());
        match addition.complete(reply) {
            Ok(ruleset) => Ok(ruleset),
            Err(f) => Err(self.finish(f)),
        }
    }
}

fn read_rights() -> AccessFs {
    AccessFs::only(AccessRight::ReadFile).union(AccessFs::only(AccessRight::ReadDir))
}

#[test]
fn allow_root() {
    let mut kernel = Kernel::new();
    let every = AccessFs::from_mask(KNOWN_BITS);
    let mut attr = RulesetAttr::new();
    attr.handle_fs(every);
    let ruleset = kernel.create(&attr).unwrap().set_no_new_privs(true);
    let ruleset = kernel.add(ruleset, 10, every).unwrap();
    assert_eq!(kernel.finish(ruleset.restrict_self()), Outcome::Applied);
}

#[test]
fn new_declares_nothing() {
    let attr = RulesetAttr::new();
    assert_eq!(
        attr.create().call(),
        Syscall::CreateRuleset { handled_access_fs: 0, flags: 0 }
    );
}

#[test]
fn handle_fs_replaces_the_declaration() {
    let mut attr = RulesetAttr::new();
    attr.handle_fs(AccessFs::only(AccessRight::Execute));
    attr.handle_fs(AccessFs::only(AccessRight::ReadFile));
    assert_eq!(
        attr.create().call(),
        Syscall::CreateRuleset { handled_access_fs: 4, flags: 0 }
    );
}

#[test]
fn handle_fs_chains() {
    let mut attr = RulesetAttr::new();
    let call = attr
        .handle_fs(AccessFs::only(AccessRight::Execute))
        .handle_fs(read_rights())
        .create()
        .call();
    assert_eq!(call, Syscall::CreateRuleset { handled_access_fs: 12, flags: 0 });
}

#[test]
fn create_takes_the_handle() {
    let ruleset = RulesetAttr::new().create().complete(Reply { ret: 7, errno: 0 }).unwrap();
    assert_eq!(ruleset.raw_fd(), 7);
    let ruleset = RulesetAttr::new().create().complete(Reply { ret: 0, errno: 5 }).unwrap();
    assert_eq!(ruleset.raw_fd(), 0);
}

#[test]
fn create_passes_the_error_code_through() {
    let r = RulesetAttr::new().create().complete(Reply { ret: -1, errno: ENOMSG });
    assert_eq!(r, Err(OsError { code: ENOMSG }));
    let r = RulesetAttr::new().create().complete(Reply { ret: -1, errno: 95 });
    assert_eq!(r.unwrap_err().raw_os_error(), 95);
}

#[test]
fn create_with_nothing_declared_fails() {
    let mut kernel = Kernel::new();
    let r = kernel.create(&RulesetAttr::new());
    assert_eq!(r, Err(OsError { code: ENOMSG }));
    assert_eq!(kernel.open_handles(), 0);
    assert_eq!(kernel.log.len(), 1);
}

#[test]
fn new_ruleset_gives_up_new_privileges_by_default() {
    let ruleset = RulesetAttr::new().create().complete(Reply { ret: 4, errno: 0 }).unwrap();
    let f = ruleset.restrict_self();
    assert_eq!(f.stage(), Stage::NoNewPrivs);
    assert_eq!(f.pending(), Some(Syscall::SetNoNewPrivs));
}

#[test]
fn set_no_new_privs_is_a_local_toggle() {
    let ruleset = RulesetAttr::new().create().complete(Reply { ret: 4, errno: 0 }).unwrap();
    let ruleset = ruleset.set_no_new_privs(false);
    assert_eq!(ruleset.raw_fd(), 4);
    let f = ruleset.restrict_self();
    assert_eq!(f.stage(), Stage::Restrict);
    assert_eq!(f.pending(), Some(Syscall::RestrictSelf { ruleset_fd: 4, flags: 0 }));

    let ruleset = RulesetAttr::new().create().complete(Reply { ret: 4, errno: 0 }).unwrap();
    let f = ruleset.set_no_new_privs(false).set_no_new_privs(true).restrict_self();
    assert_eq!(f.pending(), Some(Syscall::SetNoNewPrivs));
}

#[test]
fn add_rule_call_carries_the_rule() {
    let ruleset = RulesetAttr::new().create().complete(Reply { ret: 4, errno: 0 }).unwrap();
    let addition = ruleset.add_path_beneath_rule(11, read_rights());
    let rule = Rule::PathBeneath(PathBeneathAttr { allowed_access: 12, parent_fd: 11 });
    assert_eq!(rule.rule_type(), 1);
    assert_eq!(addition.call(), Syscall::AddRule { ruleset_fd: 4, rule, flags: 0 });
    let ruleset = addition.complete(ok()).unwrap();
    assert_eq!(ruleset.raw_fd(), 4);
}

#[test]
fn add_rule_keeps_the_no_new_privs_choice() {
    let ruleset = RulesetAttr::new().create().complete(Reply { ret: 4, errno: 0 }).unwrap();
    let ruleset = ruleset.set_no_new_privs(false);
    let ruleset = ruleset.add_path_beneath_rule(11, read_rights()).complete(ok()).unwrap();
    assert_eq!(ruleset.restrict_self().stage(), Stage::Restrict);
}

#[test]
fn failed_add_rule_leaves_only_the_release() {
    let ruleset = RulesetAttr::new().create().complete(Reply { ret: 4, errno: 0 }).unwrap();
    let addition = ruleset.add_path_beneath_rule(11, read_rights());
    let f = addition.complete(Reply { ret: -1, errno: EINVAL }).unwrap_err();
    assert_eq!(f.stage(), Stage::Release(Outcome::Errored(OsError { code: EINVAL })));
    assert_eq!(f.pending(), Some(Syscall::Close { fd: 4 }));
    let f = f.advance(ok());
    assert_eq!(f.pending(), None);
    assert_eq!(f.outcome(), Some(Outcome::Errored(OsError { code: EINVAL })));
}

#[test]
fn add_rule_reply_other_than_zero_is_a_failure() {
    let ruleset = RulesetAttr::new().create().complete(Reply { ret: 4, errno: 0 }).unwrap();
    let r = ruleset.add_path_beneath_rule(11, read_rights()).complete(Reply { ret: 1, errno: 7 });
    assert_eq!(
        r.unwrap_err().stage(),
        Stage::Release(Outcome::Errored(OsError { code: 7 }))
    );
}

#[test]
fn allowed_within_handled_is_accepted() {
    let handled = AccessFs::from_mask(2 | 4 | 8);
    for allowed in [2u64, 4, 8, 6, 12, 10, 14] {
        let mut kernel = Kernel::new();
        let mut attr = RulesetAttr::new();
        attr.handle_fs(handled);
        let ruleset = kernel.create(&attr).unwrap();
        let r = kernel.add(ruleset, 10, AccessFs::from_mask(allowed));
        assert!(r.is_ok());
    }
}

#[test]
fn allowed_beyond_handled_is_refused() {
    let handled = AccessFs::from_mask(4 | 8);
    for allowed in [1u64, 2, 6, 0x1fff, 0x1000 | 4] {
        let mut kernel = Kernel::new();
        let mut attr = RulesetAttr::new();
        attr.handle_fs(handled);
        let ruleset = kernel.create(&attr).unwrap();
        let fd = ruleset.raw_fd();
        let r = kernel.add(ruleset, 10, AccessFs::from_mask(allowed));
        assert_eq!(r, Err(Outcome::Errored(OsError { code: EINVAL })));
        assert_eq!(kernel.closes_of(fd), 1);
        assert_eq!(kernel.open_handles(), 0);
    }
}

#[test]
fn handle_released_once_after_rules_and_restriction() {
    for n in 0..5 {
        let mut kernel = Kernel::new();
        let mut attr = RulesetAttr::new();
        attr.handle_fs(read_rights());
        let mut ruleset = kernel.create(&attr).unwrap();
        let fd = ruleset.raw_fd();
        assert_eq!(kernel.open_handles(), 1);
        for i in 0..n {
            ruleset = kernel.add(ruleset, 20 + i, read_rights()).unwrap();
        }
        assert_eq!(kernel.closes_of(fd), 0);
        assert_eq!(kernel.finish(ruleset.restrict_self()), Outcome::Applied);
        assert_eq!(kernel.closes_of(fd), 1);
        assert_eq!(kernel.open_handles(), 0);
        assert_eq!(kernel.applied.len(), 1);
        assert_eq!(kernel.applied[0].len(), n as usize);
        assert_eq!(kernel.log.last(), Some(&Syscall::Close { fd }));
    }
}

#[test]
fn handle_released_once_after_failed_restriction() {
    let mut kernel = Kernel::new();
    let mut attr = RulesetAttr::new();
    attr.handle_fs(read_rights());
    let ruleset = kernel.create(&attr).unwrap();
    let fd = ruleset.raw_fd();
    let ruleset = kernel.add(ruleset, 20, read_rights()).unwrap();
    // Without no-new-privileges the stand-in refuses the restriction.
    let outcome = kernel.finish(ruleset.set_no_new_privs(false).restrict_self());
    assert_eq!(outcome, Outcome::Errored(OsError { code: EPERM }));
    assert_eq!(kernel.closes_of(fd), 1);
    assert_eq!(kernel.open_handles(), 0);
    assert!(kernel.applied.is_empty());
}

#[test]
fn abandoned_ruleset_releases_its_handle_once() {
    let mut kernel = Kernel::new();
    let mut attr = RulesetAttr::new();
    attr.handle_fs(read_rights());
    let before = kernel.open_handles();
    let ruleset = kernel.create(&attr).unwrap();
    let fd = ruleset.raw_fd();
    assert_eq!(kernel.open_handles(), before + 1);
    let f = ruleset.abandon();
    assert_eq!(f.stage(), Stage::Release(Outcome::Abandoned));
    assert_eq!(kernel.finish(f), Outcome::Abandoned);
    assert_eq!(kernel.open_handles(), before);
    assert_eq!(kernel.closes_of(fd), 1);
    assert!(kernel.applied.is_empty());
}

#[test]
fn failed_no_new_privs_skips_the_restriction() {
    let mut kernel = Kernel::new();
    kernel.refuse_no_new_privs = true;
    let mut attr = RulesetAttr::new();
    attr.handle_fs(read_rights());
    let ruleset = kernel.create(&attr).unwrap();
    let fd = ruleset.raw_fd();
    let outcome = kernel.finish(ruleset.restrict_self());
    assert_eq!(outcome, Outcome::Errored(OsError { code: EINVAL }));
    assert!(!kernel.log.iter().any(|c| matches!(c, Syscall::RestrictSelf { .. })));
    assert_eq!(kernel.closes_of(fd), 1);
    assert_eq!(
        kernel.log[1..].to_vec(),
        vec![Syscall::SetNoNewPrivs, Syscall::Close { fd }]
    );
}

#[test]
fn stages_follow_the_replies() {
    let ruleset = RulesetAttr::new().create().complete(Reply { ret: 6, errno: 0 }).unwrap();
    let f = ruleset.restrict_self();
    assert!(!f.is_done());
    assert_eq!(f.outcome(), None);
    let f = f.advance(ok());
    assert_eq!(f.stage(), Stage::Restrict);
    assert_eq!(f.pending(), Some(Syscall::RestrictSelf { ruleset_fd: 6, flags: 0 }));
    let f = f.advance(ok());
    assert_eq!(f.stage(), Stage::Release(Outcome::Applied));
    assert_eq!(f.pending(), Some(Syscall::Close { fd: 6 }));
    assert_eq!(f.outcome(), None);
    let f = f.advance(ok());
    assert_eq!(f.stage(), Stage::Done(Outcome::Applied));
    assert!(f.is_done());
    assert_eq!(f.pending(), None);
    assert_eq!(f.outcome(), Some(Outcome::Applied));
    let f = f.advance(fail(EINVAL));
    assert_eq!(f.stage(), Stage::Done(Outcome::Applied));
}

#[test]
fn failed_restriction_carries_its_error() {
    let ruleset = RulesetAttr::new().create().complete(Reply { ret: 6, errno: 0 }).unwrap();
    let f = ruleset.restrict_self().advance(ok()).advance(Reply { ret: -1, errno: 7 });
    assert_eq!(f.stage(), Stage::Release(Outcome::Errored(OsError { code: 7 })));
    assert_eq!(f.pending(), Some(Syscall::Close { fd: 6 }));
}

#[test]
fn release_failure_is_not_reported() {
    let ruleset = RulesetAttr::new().create().complete(Reply { ret: 6, errno: 0 }).unwrap();
    let f = ruleset
        .set_no_new_privs(false)
        .restrict_self()
        .advance(ok())
        .advance(fail(EBADF));
    assert_eq!(f.outcome(), Some(Outcome::Applied));
}

#[test]
fn replay_gives_the_calls_in_order() {
    let ruleset = RulesetAttr::new().create().complete(Reply { ret: 6, errno: 0 }).unwrap();
    let (calls, f) = ruleset.restrict_self().replay(&vec![ok(), ok(), ok(), ok(), ok()]);
    assert_eq!(
        calls,
        vec![
            Syscall::SetNoNewPrivs,
            Syscall::RestrictSelf { ruleset_fd: 6, flags: 0 },
            Syscall::Close { fd: 6 },
        ]
    );
    assert_eq!(f.outcome(), Some(Outcome::Applied));
}

#[test]
fn replay_stops_where_the_replies_end() {
    let ruleset = RulesetAttr::new().create().complete(Reply { ret: 6, errno: 0 }).unwrap();
    let (calls, f) = ruleset.restrict_self().replay(&vec![ok()]);
    assert_eq!(calls, vec![Syscall::SetNoNewPrivs]);
    assert_eq!(f.stage(), Stage::Restrict);
    let (calls, f) = f.replay(&Vec::new());
    assert!(calls.is_empty());
    assert_eq!(f.stage(), Stage::Restrict);
}

#[test]
fn replay_of_a_failed_no_new_privs() {
    let ruleset = RulesetAttr::new().create().complete(Reply { ret: 6, errno: 0 }).unwrap();
    let (calls, f) = ruleset.restrict_self().replay(&vec![fail(EPERM), ok(), ok()]);
    assert_eq!(calls, vec![Syscall::SetNoNewPrivs, Syscall::Close { fd: 6 }]);
    assert_eq!(f.outcome(), Some(Outcome::Errored(OsError { code: EPERM })));
}

#[test]
fn reply_status_and_handle() {
    assert_eq!(Reply { ret: 0, errno: 13 }.status(), Ok(()));
    assert_eq!(Reply { ret: -1, errno: 13 }.status(), Err(OsError { code: 13 }));
    assert_eq!(Reply { ret: 5, errno: 13 }.status(), Err(OsError { code: 13 }));
    assert_eq!(Reply { ret: 0, errno: 13 }.handle(), Ok(0));
    assert_eq!(Reply { ret: 5, errno: 13 }.handle(), Ok(5));
    assert_eq!(Reply { ret: -1, errno: 13 }.handle(), Err(OsError { code: 13 }));
}

#[test]
fn read_only_sandbox_end_to_end() {
    let mut kernel = Kernel::new();
    let mut attr = RulesetAttr::new();
    attr.handle_fs(read_rights());
    let ruleset = kernel.create(&attr).unwrap();
    let fd = ruleset.raw_fd();
    let tmp = 30;
    let ruleset = kernel.add(ruleset, tmp, read_rights()).unwrap();
    assert_eq!(kernel.finish(ruleset.restrict_self()), Outcome::Applied);
    assert!(kernel.no_new_privs);
    let rule = Rule::PathBeneath(PathBeneathAttr { allowed_access: 12, parent_fd: tmp });
    assert_eq!(kernel.applied, vec![vec![rule]]);
    assert_eq!(
        kernel.log,
        vec![
            Syscall::CreateRuleset { handled_access_fs: 12, flags: 0 },
            Syscall::AddRule { ruleset_fd: fd, rule, flags: 0 },
            Syscall::SetNoNewPrivs,
            Syscall::RestrictSelf { ruleset_fd: fd, flags: 0 },
            Syscall::Close { fd },
        ]
    );
}
