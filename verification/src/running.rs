//! Watching ffmpeg run.

use vstd::prelude::*;
use crate::text;

verus! {

/// What has been learnt of an ffmpeg that was started.
#[derive(Debug)]
pub enum ChildEvent {
    /// It is still running.
    Running,
    /// It has ended, with success or not; this is how the system puts it.
    Ended { success: bool, status: String },
    /// Waiting for it failed, for this reason.
    WaitFailed(String),
    /// It is no longer there to be waited for.
    Lost,
}

/// What is to be done next.
#[derive(Debug)]
pub enum ChildStep {
    /// Look again a moment later.
    Wait,
    /// The output is complete.
    Finish,
    /// The encode has failed, for this reason.
    Fail(String),
    /// The encode has failed, for this reason, and its output is to be removed.
    Discard(String),
}

/// What is to be done next, as text.
pub enum Watch {
    Wait,
    Finish,
    Fail(Seq<char>),
    Discard(Seq<char>),
}

impl View for ChildStep {
    type V = Watch;

    open spec fn view(&self) -> Watch {
        match *self {
            ChildStep::Wait => Watch::Wait,
            ChildStep::Finish => Watch::Finish,
            ChildStep::Fail(m) => Watch::Fail(m@),
            ChildStep::Discard(m) => Watch::Discard(m@),
        }
    }
}

/// What follows from what has been learnt: a failure that ffmpeg itself reports
/// leaves an incomplete output behind.
pub open spec fn watch_after(e: ChildEvent) -> Watch {
    match e {
        ChildEvent::Running => Watch::Wait,
        ChildEvent::Ended { success, status } => if success {
            Watch::Finish
        } else {
            Watch::Discard("ffmpeg exited with "@ + status@)
        },
        ChildEvent::WaitFailed(cause) => Watch::Fail("waiting on ffmpeg: "@ + cause@),
        ChildEvent::Lost => Watch::Fail("ffmpeg child slot cleared unexpectedly"@),
    }
}

/// What is to be done next with an ffmpeg that was started.
pub fn child_step(event: &ChildEvent) -> (r: ChildStep)
    ensures
        r@ == watch_after(*event),
{
    match event {
        ChildEvent::Running => ChildStep::Wait,
        ChildEvent::Ended { success, status } => {
            if *success {
                ChildStep::Finish
            } else {
                ChildStep::Discard(text::cat("ffmpeg exited with ", status.as_str()))
            }
        },
        ChildEvent::WaitFailed(cause) => ChildStep::Fail(
            text::cat("waiting on ffmpeg: ", cause.as_str()),
        ),
        ChildEvent::Lost => ChildStep::Fail("ffmpeg child slot cleared unexpectedly".to_owned()),
    }
}

/// How an ffmpeg that ran to its end is judged: by its own report alone.
pub fn exit_failure(success: bool, status: &str, input: &str) -> (r: Option<String>)
    ensures
        text::opt_text(r) == if success {
            None
        } else {
            Some("ffmpeg exited with "@ + status@ + " while encoding "@ + input@)
        },
{
    if success {
        None
    } else {
        let mut m = text::cat3("ffmpeg exited with ", status, " while encoding ");
        m.append(input);
        Some(m)
    }
}

/// Waiting ends as soon as ffmpeg is not running any more, and an output is
/// removed only where ffmpeg reported a failure.
pub proof fn law_waiting_ends(e: ChildEvent)
    ensures
        watch_after(e) == Watch::Wait <==> e is Running,
        watch_after(e) is Discard <==> (e matches ChildEvent::Ended { success, .. } && !success),
        watch_after(e) == Watch::Finish <==> (e matches ChildEvent::Ended { success, .. } && success),
{
}

/// What is said about a failure ends with what the system said about it.
pub proof fn law_failures_give_the_reason(status: String, cause: String)
    ensures
        watch_after(ChildEvent::Ended { success: false, status }) matches Watch::Discard(m)
            && text::ends_with(m, status@),
        watch_after(ChildEvent::WaitFailed(cause)) matches Watch::Fail(m) && text::ends_with(
            m,
            cause@,
        ),
        watch_after(ChildEvent::Lost) is Fail,
{
    let a = "ffmpeg exited with "@ + status@;
    assert(a.subrange(a.len() - status@.len(), a.len() as int) =~= status@);
    let b = "waiting on ffmpeg: "@ + cause@;
    assert(b.subrange(b.len() - cause@.len(), b.len() as int) =~= cause@);
}

} // verus!
