//! The rules of the process group: how the container runtime is invoked,
//! which inspector each stream gets, when the group of three relays is
//! over, and what is reported when the child has exited.
//!
//! Spawning the child and running the relays is the caller's part.

use vstd::prelude::*;
use vstd::string::StringExecFns;
use crate::inspector::{empty_inspector, message_parser_inspector, Inspector, InspectorModel};
use crate::parser::message::{decode_lossy, is_text_of};
use crate::parser::message_parser::fresh;
use crate::pump::Outcome;

verus! {

/// One of the three streams of the child.
#[derive(Clone, Copy, Debug, PartialEq, Eq, Structural)]
pub enum Stream {
    Stdin,
    Stdout,
    Stderr,
}

/// When a group of relays is over, apart from cancellation and failure.
#[derive(Clone, Copy, Debug, PartialEq, Eq, Structural)]
pub enum GroupPolicy {
    /// As soon as one relay has ended.
    FirstExit,
    /// Once all three relays have ended.
    AllExit,
}

/// The arguments of the container runtime: interactive, removed on exit,
/// with `directory` mounted onto itself, running `image`.
pub open spec fn runtime_args_of(image: Seq<char>, directory: Seq<char>) -> Seq<Seq<char>> {
    seq!["run"@, "-i"@, "--rm"@, "-v"@, directory + ":"@ + directory, image]
}

/// Builds the arguments with which the container runtime is started.
pub fn runtime_args(image: &str, directory: &str) -> (args: Vec<String>)
    ensures
        args@.len() == 6,
        forall|i: int| 0 <= i < 6 ==> (#[trigger] args@[i])@ == runtime_args_of(image@, directory@)[i],
{
    let mount = String::from_str(directory).concat(":").concat(directory);
    let mut args: Vec<String> = Vec::new();
    args.push(String::from_str("run"));
    args.push(String::from_str("-i"));
    args.push(String::from_str("--rm"));
    args.push(String::from_str("-v"));
    args.push(mount);
    args.push(String::from_str(image));
    args
}

/// The inspector that a stream gets: the two streams that carry frames are
/// parsed, the error stream is free text and is not looked at.
pub fn inspector_for(stream: Stream) -> (inspector: Inspector)
    ensures
        inspector@ == match stream {
            Stream::Stderr => InspectorModel::Silent,
            _ => InspectorModel::Parsing(fresh()),
        },
{
    match stream {
        Stream::Stderr => empty_inspector(),
        _ => message_parser_inspector(),
    }
}

/// What is known of a group of three relays.
pub struct GroupModel {
    pub policy: GroupPolicy,
    pub cancelled: bool,
    pub failed: bool,
    pub stdin_ended: bool,
    pub stdout_ended: bool,
    pub stderr_ended: bool,
}

/// A group in which nothing has happened yet.
pub open spec fn started(policy: GroupPolicy) -> GroupModel {
    GroupModel {
        policy,
        cancelled: false,
        failed: false,
        stdin_ended: false,
        stdout_ended: false,
        stderr_ended: false,
    }
}

/// The group is over: it was cancelled, a relay failed, or its policy is met.
pub open spec fn is_over(group: GroupModel) -> bool {
    ||| group.cancelled
    ||| group.failed
    ||| match group.policy {
        GroupPolicy::FirstExit => group.stdin_ended || group.stdout_ended || group.stderr_ended,
        GroupPolicy::AllExit => group.stdin_ended && group.stdout_ended && group.stderr_ended,
    }
}

/// The group after the relay of `stream` has ended with `outcome`.
pub open spec fn with_ended(group: GroupModel, stream: Stream, outcome: Outcome) -> GroupModel {
    GroupModel {
        policy: group.policy,
        cancelled: group.cancelled,
        failed: group.failed || outcome is Failed,
        stdin_ended: group.stdin_ended || stream == Stream::Stdin,
        stdout_ended: group.stdout_ended || stream == Stream::Stdout,
        stderr_ended: group.stderr_ended || stream == Stream::Stderr,
    }
}

/// The group after the cancellation signal has fired.
pub open spec fn with_cancel(group: GroupModel) -> GroupModel {
    GroupModel {
        policy: group.policy,
        cancelled: true,
        failed: group.failed,
        stdin_ended: group.stdin_ended,
        stdout_ended: group.stdout_ended,
        stderr_ended: group.stderr_ended,
    }
}

/// The three relays of one child, as the supervisor sees them.
#[derive(Debug)]
pub struct Group {
    policy: GroupPolicy,
    cancelled: bool,
    failed: bool,
    stdin_ended: bool,
    stdout_ended: bool,
    stderr_ended: bool,
}

impl View for Group {
    type V = GroupModel;

    closed spec fn view(&self) -> GroupModel {
        GroupModel {
            policy: self.policy,
            cancelled: self.cancelled,
            failed: self.failed,
            stdin_ended: self.stdin_ended,
            stdout_ended: self.stdout_ended,
            stderr_ended: self.stderr_ended,
        }
    }
}

impl Group {
    /// A group whose relays are all running.
    pub fn new(policy: GroupPolicy) -> (group: Group)
        ensures
            group@ == started(policy),
            !is_over(group@),
    {
        Group {
            policy,
            cancelled: false,
            failed: false,
            stdin_ended: false,
            stdout_ended: false,
            stderr_ended: false,
        }
    }

    /// Notes that the relay of `stream` has ended, and tells whether the
    /// group is over now.
    pub fn pump_ended(&mut self, stream: Stream, outcome: Outcome) -> (over: bool)
        ensures
            final(self)@ == with_ended(old(self)@, stream, outcome),
            over == is_over(final(self)@),
    {
        match outcome {
            Outcome::Failed(_) => {
                self.failed = true;
            },
            _ => {},
        }
        match stream {
            Stream::Stdin => {
                self.stdin_ended = true;
            },
            Stream::Stdout => {
                self.stdout_ended = true;
            },
            Stream::Stderr => {
                self.stderr_ended = true;
            },
        }
        self.is_over()
    }

    /// Notes that the cancellation signal has fired. The group is over; the
    /// child is left running.
    pub fn cancel(&mut self)
        ensures
            final(self)@ == with_cancel(old(self)@),
            is_over(final(self)@),
    {
        self.cancelled = true;
    }

    /// Tells whether the group is over.
    pub fn is_over(&self) -> (over: bool)
        ensures
            over == is_over(self@),
    {
        self.cancelled || self.failed || match self.policy {
            GroupPolicy::FirstExit => self.stdin_ended || self.stdout_ended || self.stderr_ended,
            GroupPolicy::AllExit => self.stdin_ended && self.stdout_ended && self.stderr_ended,
        }
    }
}

/// A group that is over stays over, whatever ends or fires later.
pub proof fn lemma_over_stays_over(group: GroupModel, stream: Stream, outcome: Outcome)
    requires
        is_over(group),
    ensures
        is_over(with_ended(group, stream, outcome)),
        is_over(with_cancel(group)),
{
}

/// What is reported of a child that exited with a code other than zero.
#[derive(Debug)]
pub struct ExitReport {
    pub code: i32,
    /// What was left of the child's output, if anything.
    pub stdout: Option<String>,
    /// What was left of the child's error output, if anything.
    pub stderr: Option<String>,
}

/// The text of what was left of a stream, if anything was.
pub fn remaining(bytes: &[u8]) -> (text: Option<String>)
    ensures
        bytes@.len() == 0 <==> text is None,
        text matches Some(t) ==> is_text_of(t@, bytes@),
{
    if bytes.len() == 0 {
        None
    } else {
        Some(decode_lossy(bytes))
    }
}

/// Decides what to report once the child has exited: nothing for code zero,
/// else the code with what was left of its two output streams.
pub fn exit_report(code: i32, stdout: &[u8], stderr: &[u8]) -> (report: Option<ExitReport>)
    ensures
        code == 0 <==> report is None,
        report matches Some(r) ==> {
            &&& r.code == code
            &&& (stdout@.len() == 0 <==> r.stdout is None)
            &&& (r.stdout matches Some(t) ==> is_text_of(t@, stdout@))
            &&& (stderr@.len() == 0 <==> r.stderr is None)
            &&& (r.stderr matches Some(t) ==> is_text_of(t@, stderr@))
        },
{
    if code == 0 {
        None
    } else {
        Some(ExitReport { code, stdout: remaining(stdout), stderr: remaining(stderr) })
    }
}

} // verus!
