//! The two workers of a session: the one that scans its sources and the one that
//! encodes its files, a step at a time.

use vstd::prelude::*;
use crate::probe::VideoInfo;
use crate::scan::SidecarSubtitle;
use crate::session;
use crate::session::{EncodeMsg, ScanMsg, ScanPlan};

verus! {

// ---------------------------------------------------------------- one file --

/// A file that a scan has come to, with its path relative to its source and the
/// path of its output.
#[derive(Debug)]
pub struct ScannedFile {
    pub abs: String,
    pub rel: String,
    pub output: String,
}

/// What has been learnt of a file.
#[derive(Debug)]
pub enum ScanEvent {
    /// Whether its output exists.
    Output(bool),
    /// What it was found to hold, or why it could not be probed.
    Probed(Result<VideoInfo, String>),
    /// The subtitle files next to it, and what it was found to hold.
    Listed(VideoInfo, Vec<SidecarSubtitle>),
}

/// What is to be done next with a file.
#[derive(Debug)]
pub enum ScanStep {
    /// Look at what it holds.
    Probe,
    /// List the subtitle files next to it.
    ListSubtitles(VideoInfo),
    /// Send this; the file is done with.
    Send(ScanMsg),
}

/// Whether the next step is the right one. A file whose output exists is listed
/// as it is, without a look at what it holds; one that cannot be probed is
/// reported; and subtitle files are looked for in merge mode alone.
pub open spec fn is_next_step(
    plan: ScanPlan,
    file: ScannedFile,
    event: ScanEvent,
    step: ScanStep,
) -> bool {
    match event {
        ScanEvent::Output(true) => step matches ScanStep::Send(ScanMsg::Discovered(e))
            && session::is_existing_entry(e, file.abs@, file.rel@, file.output@),
        ScanEvent::Output(false) => step is Probe,
        ScanEvent::Probed(Err(cause)) => step matches ScanStep::Send(ScanMsg::Error(m)) && m@
            == session::probe_failure_text(file.rel@, cause@),
        ScanEvent::Probed(Ok(info)) => if plan.merge_subtitles {
            step == ScanStep::ListSubtitles(info)
        } else {
            step matches ScanStep::Send(ScanMsg::Discovered(e)) && session::is_probed_entry(
                plan,
                e,
                file.abs@,
                file.rel@,
                file.output@,
                info,
                Seq::empty(),
            )
        },
        ScanEvent::Listed(info, found) => step matches ScanStep::Send(ScanMsg::Discovered(e))
            && session::is_probed_entry(
            plan,
            e,
            file.abs@,
            file.rel@,
            file.output@,
            info,
            found@,
        ),
    }
}

impl ScanPlan {
    /// What is to be done next with a file.
    pub fn scan_step(&self, file: &ScannedFile, event: ScanEvent) -> (r: ScanStep)
        ensures
            is_next_step(*self, *file, event, r),
    {
        let abs = file.abs.as_str();
        let rel = file.rel.as_str();
        let output = file.output.as_str();
        match event {
            ScanEvent::Output(exists) => if exists {
                ScanStep::Send(ScanMsg::Discovered(self.existing_entry(abs, rel, output)))
            } else {
                ScanStep::Probe
            },
            ScanEvent::Probed(Err(cause)) => ScanStep::Send(
                ScanMsg::Error(session::probe_failure(rel, cause.as_str())),
            ),
            ScanEvent::Probed(Ok(info)) => if self.merge_subtitles {
                ScanStep::ListSubtitles(info)
            } else {
                ScanStep::Send(
                    ScanMsg::Discovered(self.probed_entry(abs, rel, output, info, Vec::new())),
                )
            },
            ScanEvent::Listed(info, found) => ScanStep::Send(
                ScanMsg::Discovered(self.probed_entry(abs, rel, output, info, found)),
            ),
        }
    }
}

// ---------------------------------------------------------------- one scan --

/// How far a scan has come.
#[derive(Debug)]
pub struct ScanRun {
    /// How many sources there are.
    pub sources: usize,
    /// How many of them have been begun.
    pub begun: usize,
    /// How many files were found under the source that was begun last.
    pub files: usize,
    /// How many of those have been met.
    pub met: usize,
    /// How many files were found in all.
    pub total: usize,
}

/// What a scan turns to next.
#[derive(Debug)]
pub enum ScanTask {
    /// The source at this position: its files are to be found.
    Source(usize),
    /// The file at this position among those of its source.
    File(usize),
    /// Nothing more: this is to be sent.
    Finish(ScanMsg),
}

/// Whether a scan is over: it was canceled, or no file and no source is left.
pub open spec fn scan_is_over(run: ScanRun, canceled: bool) -> bool {
    canceled || (run.met >= run.files && run.begun >= run.sources)
}

/// What a scan turns to next: a file, and a source where no file is left.
pub open spec fn task_after(run: ScanRun, canceled: bool) -> ScanTask {
    if scan_is_over(run, canceled) {
        ScanTask::Finish(ScanMsg::Done(run.total))
    } else if run.met < run.files {
        ScanTask::File(run.met)
    } else {
        ScanTask::Source(run.begun)
    }
}

/// How far a scan has come once it has turned to what is next.
pub open spec fn run_after(run: ScanRun, canceled: bool) -> ScanRun {
    if scan_is_over(run, canceled) {
        run
    } else if run.met < run.files {
        ScanRun { met: (run.met + 1) as usize, ..run }
    } else {
        ScanRun { begun: (run.begun + 1) as usize, ..run }
    }
}

/// How far a scan has come once the files of a source are found.
pub open spec fn run_with(run: ScanRun, found: usize) -> ScanRun {
    ScanRun { files: found, met: 0, total: (run.total + found) as usize, ..run }
}

impl ScanRun {
    /// A scan of this many sources that has not begun.
    pub fn new(sources: usize) -> (r: Self)
        ensures
            r == (ScanRun { sources, begun: 0, files: 0, met: 0, total: 0 }),
    {
        ScanRun { sources, begun: 0, files: 0, met: 0, total: 0 }
    }

    /// Turns to what is next.
    pub fn next_task(&mut self, canceled: bool) -> (r: ScanTask)
        ensures
            r == task_after(*old(self), canceled),
            *final(self) == run_after(*old(self), canceled),
    {
        if canceled || (self.met >= self.files && self.begun >= self.sources) {
            ScanTask::Finish(ScanMsg::Done(self.total))
        } else if self.met < self.files {
            let i: usize = self.met;
            self.met = i + 1;
            ScanTask::File(i)
        } else {
            let i: usize = self.begun;
            self.begun = i + 1;
            ScanTask::Source(i)
        }
    }

    /// Takes in how many files were found under the source that was begun last.
    pub fn found(&mut self, files: usize)
        requires
            old(self).total + files <= usize::MAX,
        ensures
            *final(self) == run_with(*old(self), files),
    {
        self.files = files;
        self.met = 0;
        self.total = self.total + files;
    }
}

// --------------------------------------------------------------- one batch --

/// Where a batch is between its start and its end.
#[derive(Copy, Clone, Debug, PartialEq, Eq, Structural)]
pub enum Phase {
    /// No job is running, and the next one may start.
    Between,
    /// A job is running.
    Running,
    /// A job was canceled: no other may start.
    Stopped,
    /// Everything has been reported.
    Over,
}

/// A batch at work: its jobs are taken one after the other.
#[derive(Debug)]
pub struct BatchRun {
    /// The positions in the list of the files to be encoded.
    pub jobs: Vec<usize>,
    /// How many of them have run.
    pub taken: usize,
    pub phase: Phase,
}

/// A batch at work, as a model.
#[verifier::ext_equal]
pub struct Course {
    pub jobs: Seq<usize>,
    pub taken: nat,
    pub phase: Phase,
}

impl View for BatchRun {
    type V = Course;

    open spec fn view(&self) -> Course {
        Course { jobs: self.jobs@, taken: self.taken as nat, phase: self.phase }
    }
}

/// Whether no more jobs have run than there are, and one that is running is one
/// of them.
pub open spec fn is_valid(c: Course) -> bool {
    c.taken <= c.jobs.len() && (c.phase == Phase::Running ==> c.taken < c.jobs.len())
}

/// What has happened to a batch. Either comes with whether the batch has been
/// canceled in the meantime.
#[derive(Debug)]
pub enum BatchEvent {
    /// It is ready to go on.
    Ready { canceled: bool },
    /// The job that was running has ended, in this way.
    Ran { canceled: bool, result: Result<(), String> },
}

/// A batch that has not begun.
pub open spec fn fresh_course(jobs: Seq<usize>) -> Course {
    Course { jobs, taken: 0, phase: Phase::Between }
}

/// A batch after something has happened to it. What cannot happen in its phase
/// changes nothing.
pub open spec fn course_after(c: Course, event: BatchEvent) -> Course {
    match (c.phase, event) {
        (Phase::Between, BatchEvent::Ready { canceled }) => Course {
            phase: if canceled || c.taken >= c.jobs.len() {
                Phase::Over
            } else {
                Phase::Running
            },
            ..c
        },
        (Phase::Running, BatchEvent::Ran { canceled, .. }) => Course {
            taken: c.taken + 1,
            phase: if canceled {
                Phase::Stopped
            } else {
                Phase::Between
            },
            ..c
        },
        (Phase::Stopped, BatchEvent::Ready { .. }) => Course { phase: Phase::Over, ..c },
        _ => c,
    }
}

/// What a batch reports when something happens to it: that the next job has
/// started, or that there is none to be started; and how a job has ended.
pub open spec fn report_on(c: Course, event: BatchEvent) -> Option<EncodeMsg> {
    match (c.phase, event) {
        (Phase::Between, BatchEvent::Ready { canceled }) => if canceled || c.taken
            >= c.jobs.len() {
            Some(EncodeMsg::AllDone)
        } else {
            Some(EncodeMsg::Started(c.jobs[c.taken as int]))
        },
        (Phase::Running, BatchEvent::Ran { canceled, result }) => if canceled {
            Some(EncodeMsg::Canceled(c.jobs[c.taken as int]))
        } else {
            Some(EncodeMsg::Finished(c.jobs[c.taken as int], result))
        },
        (Phase::Stopped, BatchEvent::Ready { .. }) => Some(EncodeMsg::AllDone),
        _ => None,
    }
}

impl BatchRun {
    /// A batch that has not begun, of the files at these positions in the list.
    pub fn new(jobs: Vec<usize>) -> (r: Self)
        ensures
            r@ == fresh_course(jobs@),
            is_valid(r@),
    {
        BatchRun { jobs, taken: 0, phase: Phase::Between }
    }

    /// Which of the jobs is running, if one is.
    pub fn running(&self) -> (r: Option<usize>)
        requires
            is_valid(self@),
        ensures
            match r {
                Some(i) => self.phase == Phase::Running && i == self.taken && i < self.jobs@.len(),
                None => self.phase != Phase::Running,
            },
    {
        if self.phase == Phase::Running {
            Some(self.taken)
        } else {
            None
        }
    }

    /// Goes on after something has happened, and returns what is to be reported.
    pub fn step(&mut self, event: BatchEvent) -> (r: Option<EncodeMsg>)
        requires
            is_valid(old(self)@),
        ensures
            final(self)@ == course_after(old(self)@, event),
            r == report_on(old(self)@, event),
            is_valid(final(self)@),
    {
        match event {
            BatchEvent::Ready { canceled } => match self.phase {
                Phase::Between => if canceled || self.taken >= self.jobs.len() {
                    self.phase = Phase::Over;
                    Some(EncodeMsg::AllDone)
                } else {
                    self.phase = Phase::Running;
                    Some(EncodeMsg::Started(self.jobs[self.taken]))
                },
                Phase::Stopped => {
                    self.phase = Phase::Over;
                    Some(EncodeMsg::AllDone)
                },
                _ => None,
            },
            BatchEvent::Ran { canceled, result } => match self.phase {
                Phase::Running => {
                    let index: usize = self.jobs[self.taken];
                    let count: usize = self.jobs.len();
                    assert(self.taken < count);
                    self.taken = self.taken + 1;
                    if canceled {
                        self.phase = Phase::Stopped;
                    } else {
                        self.phase = Phase::Between;
                    }
                    Some(session::job_report(index, canceled, result))
                },
                _ => None,
            },
        }
    }
}

// -------------------------------------------------------------------- laws --

/// A batch after the first `k` of a list of events.
pub open spec fn course_at(jobs: Seq<usize>, events: Seq<BatchEvent>, k: nat) -> Course
    decreases k,
{
    if k == 0 {
        fresh_course(jobs)
    } else {
        course_after(course_at(jobs, events, (k - 1) as nat), events[k - 1])
    }
}

/// What a batch has reported after the first `k` of a list of events.
pub open spec fn reports_at(jobs: Seq<usize>, events: Seq<BatchEvent>, k: nat) -> Seq<EncodeMsg>
    decreases k,
{
    if k == 0 {
        Seq::empty()
    } else {
        let before = reports_at(jobs, events, (k - 1) as nat);
        match report_on(course_at(jobs, events, (k - 1) as nat), events[k - 1]) {
            Some(m) => before.push(m),
            None => before,
        }
    }
}

/// Whether a report says that the job of the file at a position has ended.
pub open spec fn is_end_of(m: EncodeMsg, index: usize) -> bool {
    m == EncodeMsg::Canceled(index) || (m matches EncodeMsg::Finished(i, _) && i == index)
}

/// Whether an event came with the news that the batch is canceled.
pub open spec fn is_cancel(event: BatchEvent) -> bool {
    match event {
        BatchEvent::Ready { canceled } => canceled,
        BatchEvent::Ran { canceled, .. } => canceled,
    }
}

/// Whether the reports agree with where a batch is: two for every job that has
/// run, one for a job that is running, and one for the end.
spec fn is_told(c: Course, msgs: Seq<EncodeMsg>) -> bool {
    let n = 2 * c.taken + (if c.phase == Phase::Running {
        1int
    } else {
        0int
    });
    &&& is_valid(c)
    &&& msgs.len() == n + (if c.phase == Phase::Over {
        1int
    } else {
        0int
    })
    &&& c.phase == Phase::Over ==> msgs[n] is AllDone
    &&& forall|m: int|
        0 <= m < n && m % 2 == 0 ==> #[trigger] msgs[m] == EncodeMsg::Started(c.jobs[m / 2])
    &&& forall|m: int|
        0 <= m < n && m % 2 == 1 ==> is_end_of(#[trigger] msgs[m], c.jobs[m / 2])
    &&& forall|m: int|
        0 <= m < n && #[trigger] msgs[m] is Canceled ==> m == n - 1 && (c.phase == Phase::Stopped
            || c.phase == Phase::Over)
}

proof fn lemma_reports(jobs: Seq<usize>, events: Seq<BatchEvent>, k: nat)
    ensures
        course_at(jobs, events, k).jobs == jobs,
        is_told(course_at(jobs, events, k), reports_at(jobs, events, k)),
        (forall|i: int| 0 <= i < k ==> !is_cancel(#[trigger] events[i])) ==> {
            let c = course_at(jobs, events, k);
            c.phase != Phase::Stopped && (c.phase == Phase::Over ==> c.taken == jobs.len())
        },
    decreases k,
{
    if k > 0 {
        lemma_reports(jobs, events, (k - 1) as nat);
        let c = course_at(jobs, events, (k - 1) as nat);
        let before = reports_at(jobs, events, (k - 1) as nat);
        let event = events[k - 1];
        let d = course_after(c, event);
        let msgs = reports_at(jobs, events, k);
        match report_on(c, event) {
            Some(m) => {
                assert(msgs == before.push(m));
                assert(forall|j: int| 0 <= j < before.len() ==> msgs[j] == before[j]);
                assert(msgs[before.len() as int] == m);
                assert(is_told(d, msgs));
            },
            None => {
                assert(d == c);
            },
        }
    }
}

/// The reports of a batch come in order, whatever happens to it: every file has
/// its turn in the order of the jobs, and the report that it has started is
/// followed by that on its own end before any other; after a file was canceled
/// nothing starts; and the report that all is done comes last, and once.
/// Reports on progress are not among them.
pub proof fn law_reports_come_in_order(jobs: Seq<usize>, events: Seq<BatchEvent>, k: nat)
    ensures
        ({
            let msgs = reports_at(jobs, events, k);
            &&& forall|m: int|
                0 <= m < msgs.len() && #[trigger] msgs[m] is Started ==> {
                    &&& m % 2 == 0 && m / 2 < jobs.len()
                    &&& msgs[m] == EncodeMsg::Started(jobs[m / 2])
                    &&& m + 1 < msgs.len() ==> is_end_of(msgs[m + 1], jobs[m / 2])
                }
            &&& forall|m: int|
                0 <= m < msgs.len() && (#[trigger] msgs[m] is Finished || msgs[m] is Canceled) ==> {
                    &&& m % 2 == 1 && m / 2 < jobs.len()
                    &&& is_end_of(msgs[m], jobs[m / 2])
                    &&& msgs[m - 1] == EncodeMsg::Started(jobs[m / 2])
                }
            &&& forall|m: int, n: int|
                0 <= m < n < msgs.len() && #[trigger] msgs[m] is Canceled
                    ==> #[trigger] msgs[n] is AllDone
            &&& forall|m: int|
                0 <= m < msgs.len() && #[trigger] msgs[m] is AllDone ==> m == msgs.len() - 1
            &&& forall|m: int| 0 <= m < msgs.len() ==> !(#[trigger] msgs[m] is Progress)
        }),
{
    lemma_reports(jobs, events, k);
    let c = course_at(jobs, events, k);
    let msgs = reports_at(jobs, events, k);
    assert forall|m: int| 0 <= m < msgs.len() implies (msgs[m] is AllDone || (m % 2 == 0 && msgs[m]
        is Started) || (m % 2 == 1 && is_end_of(#[trigger] msgs[m], jobs[m / 2]))) by {
        assert(m % 2 == 0 || m % 2 == 1);
    }
    assert forall|m: int| 0 <= m < msgs.len() && #[trigger] msgs[m] is Started implies m % 2 == 0
        && m / 2 < jobs.len() && msgs[m] == EncodeMsg::Started(jobs[m / 2]) && (m + 1 < msgs.len()
        ==> is_end_of(msgs[m + 1], jobs[m / 2])) by {
        if m + 1 < msgs.len() {
            let next = msgs[m + 1];
            assert((m + 1) % 2 == 1 && (m + 1) / 2 == m / 2);
        }
    }
    assert forall|m: int|
        0 <= m < msgs.len() && (#[trigger] msgs[m] is Finished || msgs[m] is Canceled) implies m % 2
        == 1 && m / 2 < jobs.len() && is_end_of(msgs[m], jobs[m / 2]) && msgs[m - 1]
        == EncodeMsg::Started(jobs[m / 2]) by {
        let first = msgs[m - 1];
        assert((m - 1) % 2 == 0 && (m - 1) / 2 == m / 2);
    }
}

/// A batch that is never canceled and has come to its end has reported on every
/// job.
pub proof fn law_every_job_is_reported(jobs: Seq<usize>, events: Seq<BatchEvent>, k: nat)
    requires
        forall|i: int| 0 <= i < k ==> !is_cancel(#[trigger] events[i]),
        course_at(jobs, events, k).phase == Phase::Over,
    ensures
        ({
            let msgs = reports_at(jobs, events, k);
            &&& msgs.len() == 2 * jobs.len() + 1
            &&& msgs.last() is AllDone
            &&& forall|j: int|
                0 <= j < jobs.len() ==> msgs[2 * j] == EncodeMsg::Started(#[trigger] jobs[j])
                    && (msgs[2 * j + 1] matches EncodeMsg::Finished(i, _) && i == jobs[j])
        }),
{
    lemma_reports(jobs, events, k);
    let msgs = reports_at(jobs, events, k);
    assert forall|j: int| 0 <= j < jobs.len() implies msgs[2 * j] == EncodeMsg::Started(
        #[trigger] jobs[j],
    ) && (msgs[2 * j + 1] matches EncodeMsg::Finished(i, _) && i == jobs[j]) by {
        lemma_never_canceled(jobs, events, k);
        let a = msgs[2 * j];
        let b = msgs[2 * j + 1];
        assert((2 * j) % 2 == 0 && (2 * j) / 2 == j);
        assert((2 * j + 1) % 2 == 1 && (2 * j + 1) / 2 == j);
    }
}

proof fn lemma_never_canceled(jobs: Seq<usize>, events: Seq<BatchEvent>, k: nat)
    requires
        forall|i: int| 0 <= i < k ==> !is_cancel(#[trigger] events[i]),
    ensures
        forall|m: int|
            0 <= m < reports_at(jobs, events, k).len() ==> !(#[trigger] reports_at(
                jobs,
                events,
                k,
            )[m] is Canceled),
    decreases k,
{
    if k > 0 {
        lemma_never_canceled(jobs, events, (k - 1) as nat);
        assert(!is_cancel(events[k - 1]));
    }
}

/// What happens to a scan: it goes on, or the files of a source are found.
pub enum ScanNews {
    Ready { canceled: bool },
    Found(usize),
}

/// A scan after the first `k` of what happens to it.
pub open spec fn run_at(sources: usize, news: Seq<ScanNews>, k: nat) -> ScanRun
    decreases k,
{
    if k == 0 {
        ScanRun { sources, begun: 0, files: 0, met: 0, total: 0 }
    } else {
        let before = run_at(sources, news, (k - 1) as nat);
        match news[k - 1] {
            ScanNews::Ready { canceled } => run_after(before, canceled),
            ScanNews::Found(n) => run_with(before, n),
        }
    }
}

/// How many files are found by the first `k` of what happens to a scan.
pub open spec fn found_by(news: Seq<ScanNews>, k: nat) -> nat
    decreases k,
{
    if k == 0 {
        0
    } else {
        found_by(news, (k - 1) as nat) + match news[k - 1] {
            ScanNews::Ready { .. } => 0,
            ScanNews::Found(n) => n as nat,
        }
    }
}

/// A scan reports in the end how many files were found, whether it met them all
/// or was canceled before.
pub proof fn law_scan_counts_what_it_found(sources: usize, news: Seq<ScanNews>, k: nat, canceled: bool)
    requires
        found_by(news, k) <= usize::MAX,
        scan_is_over(run_at(sources, news, k), canceled),
    ensures
        task_after(run_at(sources, news, k), canceled) == ScanTask::Finish(
            ScanMsg::Done(found_by(news, k) as usize),
        ),
{
    lemma_total(sources, news, k);
}

proof fn lemma_total(sources: usize, news: Seq<ScanNews>, k: nat)
    requires
        found_by(news, k) <= usize::MAX,
    ensures
        run_at(sources, news, k).total == found_by(news, k),
    decreases k,
{
    if k > 0 {
        lemma_total(sources, news, (k - 1) as nat);
    }
}

/// A scan takes the files of a source one after the other and then the next
/// source, and ends when it is canceled or nothing is left.
pub proof fn law_every_file_has_its_turn(run: ScanRun, found: usize)
    ensures
        run.met < run.files ==> task_after(run, false) == ScanTask::File(run.met) && run_after(
            run,
            false,
        ).met == run.met + 1,
        run.met >= run.files && run.begun < run.sources ==> task_after(run, false)
            == ScanTask::Source(run.begun) && run_after(run, false).begun == run.begun + 1,
        run.met >= run.files && run.begun >= run.sources ==> task_after(run, false) is Finish,
        task_after(run, true) is Finish,
        run_with(run, found).met == 0 && run_with(run, found).files == found,
        run_after(run, false).files == run.files && run_after(run, false).sources == run.sources,
{
}

/// A file whose output exists is listed without a look at what it holds; any other
/// is probed; one that cannot be probed is reported, with the reason; and subtitle
/// files are listed in merge mode alone, before the file is.
pub proof fn law_steps_of_a_scanned_file(
    plan: ScanPlan,
    file: ScannedFile,
    step: ScanStep,
    info: VideoInfo,
    cause: String,
    found: Vec<SidecarSubtitle>,
)
    ensures
        is_next_step(plan, file, ScanEvent::Output(false), step) ==> step is Probe,
        is_next_step(plan, file, ScanEvent::Output(true), step) ==> (step matches ScanStep::Send(
            ScanMsg::Discovered(e),
        ) && e.abs@ == file.abs@ && e.rel@ == file.rel@ && e.output@ == file.output@ && e.decision
            == crate::listing::Decision::SkipOutputExists),
        is_next_step(plan, file, ScanEvent::Probed(Err(cause)), step) ==> (
        step matches ScanStep::Send(ScanMsg::Error(m)) && m@ == "probe failed for "@ + file.rel@
            + ": "@ + cause@),
        is_next_step(plan, file, ScanEvent::Probed(Ok(info)), step) && plan.merge_subtitles ==> step
            == ScanStep::ListSubtitles(info),
        is_next_step(plan, file, ScanEvent::Probed(Ok(info)), step) && !plan.merge_subtitles ==> (
        step matches ScanStep::Send(ScanMsg::Discovered(e)) && e.abs@ == file.abs@
            && e.source_codec == Some(info.codec) && e.discovered_subtitles@.len() == 0),
        is_next_step(plan, file, ScanEvent::Listed(info, found), step) ==> (
        step matches ScanStep::Send(ScanMsg::Discovered(e)) && e.abs@ == file.abs@
            && e.source_codec == Some(info.codec) && (plan.merge_subtitles
            ==> e.discovered_subtitles@ == found@)),
{
}

/// The report on a job that was not canceled says how the job ended.
pub proof fn law_reports_say_how_a_job_ended(c: Course, result: Result<(), String>)
    requires
        is_valid(c),
        c.phase == Phase::Running,
    ensures
        report_on(c, BatchEvent::Ran { canceled: false, result }) == Some(
            EncodeMsg::Finished(c.jobs[c.taken as int], result),
        ),
        report_on(c, BatchEvent::Ran { canceled: true, result }) == Some(
            EncodeMsg::Canceled(c.jobs[c.taken as int]),
        ),
{
}

} // verus!
