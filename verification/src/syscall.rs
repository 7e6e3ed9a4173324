//! The kernel boundary as plain values: the calls that are due, and their replies.

use vstd::prelude::*;

verus! {

/// The kernel's tag for a rule that grants rights beneath a directory.
pub const RULE_PATH_BENEATH: u32 = 1;

/// An operating-system error, by the platform's own code.
#[derive(Clone, Copy, Debug, PartialEq, Eq, Structural)]
pub struct OsError {
    pub code: i32,
}

impl OsError {
    /// The platform's error code, as it was reported.
    pub fn raw_os_error(&self) -> (code: i32)
        ensures
            code == self.code,
    {
        self.code
    }
}

/// The payload of a path-beneath rule, field for field as the kernel reads it.
#[derive(Clone, Copy, Debug, PartialEq, Eq, Structural)]
pub struct PathBeneathAttr {
    pub allowed_access: u64,
    pub parent_fd: i32,
}

/// One grant statement of a ruleset.
#[derive(Clone, Copy, Debug, PartialEq, Eq, Structural)]
pub enum Rule {
    /// Grants rights on everything beneath an open directory.
    PathBeneath(PathBeneathAttr),
}

impl Rule {
    /// The tag that tells the kernel how to read this rule's payload.
    pub open spec fn spec_rule_type(&self) -> u32 {
        match self {
            Rule::PathBeneath(_) => RULE_PATH_BENEATH,
        }
    }

    #[verifier::when_used_as_spec(spec_rule_type)]
    pub fn rule_type(&self) -> (tag: u32)
        ensures
            tag == self.spec_rule_type(),
    {
        match self {
            Rule::PathBeneath(_) => RULE_PATH_BENEATH,
        }
    }
}

/// A call that the caller is to make on the kernel.
#[derive(Clone, Copy, Debug, PartialEq, Eq, Structural)]
pub enum Syscall {
    /// Create a ruleset that governs the rights of the mask.
    CreateRuleset { handled_access_fs: u64, flags: u32 },
    /// Append a rule to an open ruleset.
    AddRule { ruleset_fd: i32, rule: Rule, flags: u32 },
    /// Give up, for the whole process, the ability to gain privileges.
    SetNoNewPrivs,
    /// Bind the ruleset to the calling thread.
    RestrictSelf { ruleset_fd: i32, flags: u32 },
    /// Release a handle.
    Close { fd: i32 },
}

/// What a call came back with: its return value, and the error code that the
/// platform held right after it. The error code counts only where the return
/// value says that the call failed.
#[derive(Clone, Copy, Debug, PartialEq, Eq, Structural)]
pub struct Reply {
    pub ret: i32,
    pub errno: i32,
}

impl Reply {
    /// The meaning of a reply to a call that answers 0 on success.
    pub open spec fn spec_status(&self) -> Result<(), OsError> {
        if self.ret == 0 {
            Ok(())
        } else {
            Err(OsError { code: self.errno })
        }
    }

    /// The meaning of a reply to a call that answers with a handle.
    pub open spec fn spec_handle(&self) -> Result<i32, OsError> {
        if self.ret >= 0 {
            Ok(self.ret)
        } else {
            Err(OsError { code: self.errno })
        }
    }

    /// Reads the reply to a call that answers 0 on success: anything else is
    /// a failure, and the platform's error code is passed on as it is.
    #[verifier::when_used_as_spec(spec_status)]
    pub fn status(&self) -> (r: Result<(), OsError>)
        ensures
            r == self.spec_status(),
    {
        if self.ret == 0 {
            Ok(())
        } else {
            Err(OsError { code: self.errno })
        }
    }

    /// Reads the reply to a call that answers with a handle: a negative
    /// value is a failure, and the platform's error code is passed on as it is.
    #[verifier::when_used_as_spec(spec_handle)]
    pub fn handle(&self) -> (r: Result<i32, OsError>)
        ensures
            r == self.spec_handle(),
    {
        if self.ret >= 0 {
            Ok(self.ret)
        } else {
            Err(OsError { code: self.errno })
        }
    }
}

} // verus!
