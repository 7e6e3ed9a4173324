//! The end of a ruleset's life: the last calls that are due, up to and
//! including the release of its handle.

use crate::syscall::{OsError, Reply, Rule, Syscall};
use vstd::prelude::*;

verus! {

/// How the life of a ruleset ended.
#[derive(Clone, Copy, Debug, PartialEq, Eq, Structural)]
pub enum Outcome {
    /// The policy is bound to the calling thread, for good.
    Applied,
    /// A call failed; no restriction was applied by this ruleset.
    Errored(OsError),
    /// The ruleset was given up before it was applied.
    Abandoned,
}

/// Where a finalization stands.
#[derive(Clone, Copy, Debug, PartialEq, Eq, Structural)]
pub enum Stage {
    /// The no-new-privileges call is due.
    NoNewPrivs,
    /// The restriction call is due.
    Restrict,
    /// The handle is still to be released; the outcome is settled.
    Release(Outcome),
    /// The handle was released. Nothing is due any more.
    Done(Outcome),
}

/// The call that is due at a stage, for the ruleset with handle `fd`.
pub open spec fn call_due(fd: i32, stage: Stage) -> Option<Syscall> {
    match stage {
        Stage::NoNewPrivs => Some(Syscall::SetNoNewPrivs),
        Stage::Restrict => Some(Syscall::RestrictSelf { ruleset_fd: fd, flags: 0 }),
        Stage::Release(_) => Some(Syscall::Close { fd }),
        Stage::Done(_) => None,
    }
}

/// The stage that follows when the call due at `stage` came back with `reply`.
///
/// A failed no-new-privileges call skips the restriction; whatever the
/// release comes back with is not looked at.
pub open spec fn next_stage(stage: Stage, reply: Reply) -> Stage {
    match stage {
        Stage::NoNewPrivs => match reply.spec_status() {
            Ok(_) => Stage::Restrict,
            Err(e) => Stage::Release(Outcome::Errored(e)),
        },
        Stage::Restrict => match reply.spec_status() {
            Ok(_) => Stage::Release(Outcome::Applied),
            Err(e) => Stage::Release(Outcome::Errored(e)),
        },
        Stage::Release(outcome) => Stage::Done(outcome),
        Stage::Done(outcome) => Stage::Done(outcome),
    }
}

/// The calls that are made, in order, from `stage` on when the kernel
/// answers them with `replies` one after the other.
pub open spec fn calls_made(fd: i32, stage: Stage, replies: Seq<Reply>) -> Seq<Syscall>
    decreases replies.len(),
{
    if replies.len() == 0 || stage is Done {
        Seq::empty()
    } else {
        seq![call_due(fd, stage).unwrap()] + calls_made(
            fd,
            next_stage(stage, replies[0]),
            replies.drop_first(),
        )
    }
}

/// The stage reached from `stage` after the replies were taken in.
pub open spec fn stage_after(stage: Stage, replies: Seq<Reply>) -> Stage
    decreases replies.len(),
{
    if replies.len() == 0 || stage is Done {
        stage
    } else {
        stage_after(next_stage(stage, replies[0]), replies.drop_first())
    }
}

/// The most calls that can still be due from a stage on.
pub open spec fn calls_left(stage: Stage) -> nat {
    match stage {
        Stage::NoNewPrivs => 3,
        Stage::Restrict => 2,
        Stage::Release(_) => 1,
        Stage::Done(_) => 0,
    }
}

/// A ruleset on its way out. It owns the handle until the release is done.
#[derive(Debug, PartialEq, Eq)]
pub struct Finalization {
    fd: i32,
    stage: Stage,
}

impl Finalization {
    /// The handle is one that the kernel gave out: it is never negative.
    #[verifier::type_invariant]
    pub closed spec fn wf(self) -> bool {
        self.fd >= 0
    }

    /// The handle that this finalization owns.
    pub closed spec fn fd(self) -> i32 {
        self.fd
    }

    /// Where the finalization stands.
    pub closed spec fn spec_stage(&self) -> Stage {
        self.stage
    }

    /// Takes over the handle `fd` at `stage`.
    pub(crate) fn begin(fd: i32, stage: Stage) -> (f: Finalization)
        requires
            fd >= 0,
        ensures
            f.fd() == fd,
            f.spec_stage() == stage,
    {
        Finalization { fd, stage }
    }

    /// Where the finalization stands.
    #[verifier::when_used_as_spec(spec_stage)]
    pub fn stage(&self) -> (s: Stage)
        ensures
            s == self.spec_stage(),
    {
        self.stage
    }

    /// The call to make now, or `None` once the handle was released.
    pub fn pending(&self) -> (call: Option<Syscall>)
        ensures
            call == call_due(self.fd(), self.spec_stage()),
    {
        if self.is_done() {
            None
        } else {
            Some(self.call_due_now())
        }
    }

    /// Whether the handle was released, so that nothing is due any more.
    pub fn is_done(&self) -> (b: bool)
        ensures
            b == (self.spec_stage() is Done),
    {
        match self.stage {
            Stage::Done(_) => true,
            _ => false,
        }
    }

    fn call_due_now(&self) -> (call: Syscall)
        requires
            !(self.spec_stage() is Done),
        ensures
            Some(call) == call_due(self.fd(), self.spec_stage()),
    {
        match self.stage {
            Stage::NoNewPrivs => Syscall::SetNoNewPrivs,
            Stage::Restrict => Syscall::RestrictSelf { ruleset_fd: self.fd, flags: 0 },
            _ => Syscall::Close { fd: self.fd },
        }
    }

    /// Takes in the reply to the pending call and moves on.
    pub fn advance(self, reply: Reply) -> (f: Finalization)
        ensures
            f.fd() == self.fd(),
            f.spec_stage() == next_stage(self.spec_stage(), reply),
    {
        proof {
            use_type_invariant(&self);
        }
        let stage = match self.stage {
            Stage::NoNewPrivs => match reply.status() {
                Ok(_) => Stage::Restrict,
                Err(e) => Stage::Release(Outcome::Errored(e)),
            },
            Stage::Restrict => match reply.status() {
                Ok(_) => Stage::Release(Outcome::Applied),
                Err(e) => Stage::Release(Outcome::Errored(e)),
            },
            Stage::Release(outcome) => Stage::Done(outcome),
            Stage::Done(outcome) => Stage::Done(outcome),
        };
        Finalization { fd: self.fd, stage }
    }

    /// Runs the finalization over answers that are already at hand, one for
    /// each call in turn, and gives the calls that they answer and the
    /// finalization as it then stands. Answers that are left over once the
    /// handle was released answer nothing.
    pub fn replay(self, replies: &Vec<Reply>) -> (r: (Vec<Syscall>, Finalization))
        ensures
            r.0@ == calls_made(self.fd(), self.spec_stage(), replies@),
            r.1.fd() == self.fd(),
            r.1.spec_stage() == stage_after(self.spec_stage(), replies@),
    {
        let ghost fd = self.fd();
        let ghost start = self.spec_stage();
        let mut made: Vec<Syscall> = Vec::new();
        let mut f = self;
        let mut i: usize = 0;
        proof {
            assert(replies@.skip(0) =~= replies@);
            assert(made@ + calls_made(fd, start, replies@) =~= calls_made(fd, start, replies@));
        }
        while i < replies.len() && !f.is_done()
            invariant
                i <= replies.len(),
                f.fd() == fd,
                made@ + calls_made(fd, f.spec_stage(), replies@.skip(i as int)) == calls_made(
                    fd,
                    start,
                    replies@,
                ),
                stage_after(f.spec_stage(), replies@.skip(i as int)) == stage_after(
                    start,
                    replies@,
                ),
            decreases replies.len() - i,
        {
            let ghost rest = replies@.skip(i as int);
            let ghost before = made@;
            let ghost stage = f.spec_stage();
            let call = f.call_due_now();
            made.push(call);
            f = f.advance(replies[i]);
            i += 1;
            proof {
                assert(rest[0] == replies@[i - 1]);
                assert(rest.drop_first() =~= replies@.skip(i as int));
                let tail = calls_made(fd, f.spec_stage(), replies@.skip(i as int));
                assert(calls_made(fd, stage, rest) == seq![call] + tail);
                assert(made@ + tail =~= before + (seq![call] + tail));
            }
        }
        proof {
            let rest = replies@.skip(i as int);
            if i == replies.len() {
                assert(rest.len() == 0);
            }
            assert(calls_made(fd, f.spec_stage(), rest) =~= Seq::empty());
            assert(made@ + Seq::<Syscall>::empty() =~= made@);
        }
        (made, f)
    }

    /// How it ended, once the handle was released; `None` before that.
    pub fn outcome(&self) -> (o: Option<Outcome>)
        ensures
            o == match self.spec_stage() {
                Stage::Done(outcome) => Some(outcome),
                _ => None,
            },
    {
        match self.stage {
            Stage::Done(outcome) => Some(outcome),
            _ => None,
        }
    }
}

/// How often `calls` releases the handle `fd`.
pub open spec fn times_released(calls: Seq<Syscall>, fd: i32) -> nat
    decreases calls.len(),
{
    if calls.len() == 0 {
        0
    } else {
        (if calls.first() == (Syscall::Close { fd }) {
            1nat
        } else {
            0nat
        }) + times_released(calls.drop_first(), fd)
    }
}

/// Whatever the kernel answers, a finalization releases its handle exactly
/// once by the time it is done and not at all before; the release is its
/// last call; it closes no other handle; and after at most three replies it
/// is done. This holds from every stage: after an attempt to apply the
/// ruleset, after a failed rule, and after plain abandonment.
pub proof fn lemma_released_exactly_once(fd: i32, stage: Stage, replies: Seq<Reply>)
    ensures
        ({
            let made = calls_made(fd, stage, replies);
            let end = stage_after(stage, replies);
            &&& made.len() <= replies.len()
            &&& made.len() <= calls_left(stage)
            &&& replies.len() >= calls_left(stage) ==> end is Done
            &&& made.len() < replies.len() ==> end is Done
            &&& end is Done && !(stage is Done) ==> made.len() > 0 && made.last() == (
            Syscall::Close { fd })
            &&& times_released(made, fd) == if end is Done && !(stage is Done) {
                1nat
            } else {
                0nat
            }
            &&& forall|i: int|
                0 <= i < made.len() && (#[trigger] made[i]) is Close ==> made[i] == (Syscall::Close {
                    fd,
                }) && i == made.len() - 1
        }),
    decreases replies.len(),
{
    let made = calls_made(fd, stage, replies);
    if replies.len() == 0 || stage is Done {
        assert(made =~= Seq::empty());
    } else {
        let call = call_due(fd, stage).unwrap();
        let next = next_stage(stage, replies[0]);
        let rest = calls_made(fd, next, replies.drop_first());
        lemma_released_exactly_once(fd, next, replies.drop_first());
        assert(made =~= seq![call] + rest);
        assert(made.first() == call);
        assert(made.drop_first() =~= rest);
        if next is Done {
            assert(rest =~= Seq::empty());
        } else if rest.len() > 0 {
            assert(made.last() == rest.last());
        }
        assert forall|i: int| 0 <= i < made.len() && (#[trigger] made[i]) is Close implies made[i]
            == (Syscall::Close { fd }) && i == made.len() - 1 by {
            if i > 0 {
                assert(made[i] == rest[i - 1]);
            }
        }
    }
}

/// When the no-new-privileges call fails, the restriction is never
/// attempted: no restriction call is among the calls made, the only call
/// that follows is the release, and the outcome is the error of the
/// no-new-privileges call.
pub proof fn lemma_failed_no_new_privs_skips_restriction(fd: i32, replies: Seq<Reply>)
    requires
        replies.len() >= 1,
        replies[0].ret != 0,
    ensures
        ({
            let made = calls_made(fd, Stage::NoNewPrivs, replies);
            let end = stage_after(Stage::NoNewPrivs, replies);
            let error = Outcome::Errored(OsError { code: replies[0].errno });
            &&& forall|i: int| 0 <= i < made.len() ==> !((#[trigger] made[i]) is RestrictSelf)
            &&& made[0] == Syscall::SetNoNewPrivs
            &&& replies.len() == 1 ==> end == Stage::Release(error) && made.len() == 1
            &&& replies.len() >= 2 ==> end == Stage::Done(error) && made.len() == 2 && made[1] == (
            Syscall::Close { fd })
        }),
{
    let error = Outcome::Errored(OsError { code: replies[0].errno });
    let made = calls_made(fd, Stage::NoNewPrivs, replies);
    let rest = replies.drop_first();
    let tail = calls_made(fd, Stage::Release(error), rest);
    assert(next_stage(Stage::NoNewPrivs, replies[0]) == Stage::Release(error));
    assert(made =~= seq![Syscall::SetNoNewPrivs] + tail);
    if rest.len() == 0 {
        assert(tail =~= Seq::empty());
    } else {
        let last = calls_made(fd, Stage::Done(error), rest.drop_first());
        assert(last =~= Seq::empty());
        assert(tail =~= seq![Syscall::Close { fd }] + last);
        assert(stage_after(Stage::Release(error), rest) == stage_after(
            Stage::Done(error),
            rest.drop_first(),
        ));
    }
}

/// The outcome of an attempt to apply a ruleset, once every call was
/// answered: it is applied exactly when the restriction call was made and
/// answered 0; otherwise the outcome is the error of the first call that
/// failed. What the release answers changes nothing.
pub proof fn lemma_restriction_outcome(no_new_privs: bool, replies: Seq<Reply>)
    requires
        replies.len() >= 3,
    ensures
        ({
            let start = if no_new_privs {
                Stage::NoNewPrivs
            } else {
                Stage::Restrict
            };
            let end = stage_after(start, replies);
            if no_new_privs && replies[0].ret != 0 {
                end == Stage::Done(Outcome::Errored(OsError { code: replies[0].errno }))
            } else {
                let answer = if no_new_privs {
                    replies[1]
                } else {
                    replies[0]
                };
                end == Stage::Done(
                    if answer.ret == 0 {
                        Outcome::Applied
                    } else {
                        Outcome::Errored(OsError { code: answer.errno })
                    },
                )
            }
        }),
{
    let r1 = replies.drop_first();
    let r2 = r1.drop_first();
    let r3 = r2.drop_first();
    assert(r1[0] == replies[1]);
    assert(r2[0] == replies[2]);
    let start = if no_new_privs {
        Stage::NoNewPrivs
    } else {
        Stage::Restrict
    };
    let s1 = next_stage(start, replies[0]);
    let s2 = next_stage(s1, r1[0]);
    let s3 = next_stage(s2, r2[0]);
    assert(stage_after(start, replies) == stage_after(s1, r1));
    assert(!(s1 is Done));
    assert(stage_after(s1, r1) == stage_after(s2, r2));
    if s2 is Done {
        assert(stage_after(s2, r2) == s2);
    } else {
        assert(stage_after(s2, r2) == stage_after(s3, r3));
        assert(s3 is Done);
        assert(stage_after(s3, r3) == s3);
    }
}

/// The calls that add `rules`, in order, to the ruleset with handle `fd`.
pub open spec fn rule_calls(fd: i32, rules: Seq<Rule>) -> Seq<Syscall> {
    Seq::new(rules.len(), |i: int| Syscall::AddRule { ruleset_fd: fd, rule: rules[i], flags: 0 })
}

proof fn lemma_times_released_concat(front: Seq<Syscall>, back: Seq<Syscall>, fd: i32)
    ensures
        times_released(front + back, fd) == times_released(front, fd) + times_released(back, fd),
    decreases front.len(),
{
    if front.len() == 0 {
        assert(front + back =~= back);
    } else {
        lemma_times_released_concat(front.drop_first(), back, fd);
        assert((front + back).first() == front.first());
        assert((front + back).drop_first() =~= front.drop_first() + back);
    }
}

proof fn lemma_rule_calls_release_nothing(fd: i32, rules: Seq<Rule>)
    ensures
        times_released(rule_calls(fd, rules), fd) == 0,
    decreases rules.len(),
{
    if rules.len() > 0 {
        lemma_rule_calls_release_nothing(fd, rules.drop_first());
        assert(rule_calls(fd, rules).drop_first() =~= rule_calls(fd, rules.drop_first()));
    }
}

/// Over its whole life a ruleset releases its handle exactly once, and as
/// the last thing it does: however many rules it took, however its life
/// ends (applied, failed, or given up), and whatever the kernel answers.
pub proof fn lemma_life_releases_once(
    fd: i32,
    rules: Seq<Rule>,
    stage: Stage,
    replies: Seq<Reply>,
)
    requires
        !(stage is Done),
        replies.len() >= calls_left(stage),
    ensures
        ({
            let life = rule_calls(fd, rules) + calls_made(fd, stage, replies);
            &&& times_released(life, fd) == 1
            &&& life.len() > rules.len()
            &&& life.last() == Syscall::Close { fd }
            &&& forall|i: int| 0 <= i < life.len() - 1 ==> !((#[trigger] life[i]) is Close)
        }),
{
    let added = rule_calls(fd, rules);
    let made = calls_made(fd, stage, replies);
    lemma_released_exactly_once(fd, stage, replies);
    lemma_rule_calls_release_nothing(fd, rules);
    lemma_times_released_concat(added, made, fd);
    let life = added + made;
    assert forall|i: int| 0 <= i < life.len() - 1 implies !((#[trigger] life[i]) is Close) by {
        if i >= added.len() {
            assert(life[i] == made[i - added.len()]);
        }
    }
}

} // verus!
