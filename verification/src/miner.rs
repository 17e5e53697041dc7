//! The control loop: what the miner does when the pool reports a block and
//! when a worker reports a nonce.

use crate::buffer::{BufferPool, PoolView};
use crate::clock::RoundTimer;
use crate::order::is_sorted_newest_first;
use crate::plot::{plot_spec, views, FileMeta, Plot, PlotView, SCOOPS_IN_NONCE, SCOOP_SIZE};
use crate::reader::{
    all_drives_wf, distinct_ids, drive_index, drive_views, lemma_drive_index_is,
    lemma_drive_index_range, Drive, DriveView, Reader, ReaderView, Round,
};
use crate::task::TaskView;
use crate::worker::NonceData;
use vstd::prelude::*;

verus! {

/// The deadline that stands for "none found yet".
pub const UNBOUNDED: u64 = u64::MAX;

/// What the control loop does after it has asked the pool for the block.
#[derive(Clone, Copy, Debug, PartialEq, Eq)]
pub enum Poll {
    /// A new block: interrupt the readers and read the new block's scoop.
    NewRound,
    /// The drives have been idle for long: seek on each of them.
    Wakeup,
    /// Nothing.
    Idle,
}

/// What the control loop does after a worker's report.
#[derive(Clone, Copy, Debug, PartialEq, Eq)]
pub struct Intake {
    /// The deadline to submit, divided by the base target, if the report improves on the best.
    pub submit: Option<u64>,
    /// Whether the report was the one that completes the round.
    pub round_finished: bool,
    /// The milliseconds that the round took, if the report completes it.
    pub round_time_ms: Option<i64>,
}

/// Where the miner stands: the block, the best deadline and the round's progress.
pub struct State {
    height: u64,
    best_deadline: u64,
    base_target: u64,
    sw: RoundTimer,
    scanning: bool,
    // how many readers have had their last buffer hashed
    processed_reader_tasks: usize,
}

/// The state as contracts see it. Of the stopwatch it shows how often it
/// was set to zero.
pub struct StateView {
    pub height: u64,
    /// The best deadline of the round, divided by the base target.
    pub best_deadline: u64,
    pub base_target: u64,
    /// Whether a round is under way.
    pub scanning: bool,
    /// Readers of the round whose last buffer has been hashed.
    pub processed_reader_tasks: nat,
    /// How often the round's stopwatch has been set to zero.
    pub restarts: nat,
}

impl View for State {
    type V = StateView;

    closed spec fn view(&self) -> StateView {
        StateView {
            height: self.height,
            best_deadline: self.best_deadline,
            base_target: self.base_target,
            scanning: self.scanning,
            processed_reader_tasks: self.processed_reader_tasks as nat,
            restarts: self.sw.restarts(),
        }
    }
}

impl StateView {
    /// The count of readers fits the machine. Nothing is asked of the base
    /// target: it is what the pool says, and the pool may say 0.
    pub open spec fn wf(self) -> bool {
        self.processed_reader_tasks <= usize::MAX
    }

    /// The state before the first block.
    pub open spec fn initial() -> StateView {
        StateView {
            height: 0,
            best_deadline: UNBOUNDED,
            base_target: 1,
            scanning: false,
            processed_reader_tasks: 0,
            restarts: 0,
        }
    }

    /// The state at the start of the round of a new block.
    pub open spec fn new_round(self, height: u64, base_target: u64) -> StateView {
        StateView {
            height,
            best_deadline: UNBOUNDED,
            base_target,
            scanning: true,
            processed_reader_tasks: 0,
            ..self
        }
    }

    /// Whether drives that have been idle for `elapsed_ms` are due for a seek.
    pub open spec fn wakeup_due(self, elapsed_ms: i64, wakeup_after: i64) -> bool {
        !self.scanning && wakeup_after > 0 && elapsed_ms >= wakeup_after
    }

    /// What to do when the pool reports the block at `height`.
    pub open spec fn poll(self, height: u64, elapsed_ms: i64, wakeup_after: i64) -> Poll {
        if height > self.height {
            Poll::NewRound
        } else if self.wakeup_due(elapsed_ms, wakeup_after) {
            Poll::Wakeup
        } else {
            Poll::Idle
        }
    }

    /// The state after the pool has reported the block at `height`, the
    /// stopwatch left as it was.
    pub open spec fn polled(self, height: u64, base_target: u64) -> StateView {
        if height > self.height {
            self.new_round(height, base_target)
        } else {
            self
        }
    }

    /// The state with the stopwatch set to zero once more, if `restart` says so.
    pub open spec fn timed(self, restart: bool) -> StateView {
        StateView {
            restarts: if restart {
                self.restarts + 1
            } else {
                self.restarts
            },
            ..self
        }
    }

    /// A raw deadline in seconds: divided by the base target. Under a base
    /// target of 0 there is nothing to divide by, and every deadline counts
    /// as the worst.
    pub open spec fn scaled(self, deadline: u64) -> u64 {
        if self.base_target == 0 {
            UNBOUNDED
        } else {
            deadline / self.base_target
        }
    }

    /// Whether a report is worth a submission: its deadline beats the best
    /// of the round and lies under the miner's target. Under a base target
    /// of 0 no report is.
    pub open spec fn improves(self, data: NonceData, target_deadline: u64) -> bool {
        self.scaled(data.deadline) < self.best_deadline && self.scaled(data.deadline)
            < target_deadline
    }

    /// Whether a report counts as the last of a reader: it says so, and not
    /// all of the `readers` have been counted yet.
    pub open spec fn counts(self, data: NonceData, readers: nat) -> bool {
        data.reader_task_processed && self.processed_reader_tasks < readers
    }

    /// Whether a report completes the round: it counts, and it is the last to do so.
    pub open spec fn completes(self, data: NonceData, readers: nat) -> bool {
        self.counts(data, readers) && self.processed_reader_tasks + 1 == readers
    }

    /// The state after a worker's report. The stopwatch is set to zero by
    /// the report that completes the round, and by no other.
    pub open spec fn took(self, data: NonceData, target_deadline: u64, readers: nat) -> StateView {
        StateView {
            best_deadline: if self.improves(data, target_deadline) {
                self.scaled(data.deadline)
            } else {
                self.best_deadline
            },
            processed_reader_tasks: if self.counts(data, readers) {
                self.processed_reader_tasks + 1
            } else {
                self.processed_reader_tasks
            },
            scanning: self.scanning && !self.completes(data, readers),
            restarts: if self.completes(data, readers) {
                self.restarts + 1
            } else {
                self.restarts
            },
            ..self
        }
    }

    /// The state after the reports `reports`, one after another.
    pub open spec fn took_all(self, reports: Seq<NonceData>, target_deadline: u64, readers: nat)
        -> StateView
        decreases reports.len(),
    {
        if reports.len() == 0 {
            self
        } else {
            self.took_all(reports.drop_last(), target_deadline, readers).took(
                reports.last(),
                target_deadline,
                readers,
            )
        }
    }

    /// How many of the reports `reports` complete the round.
    pub open spec fn completions(self, reports: Seq<NonceData>, target_deadline: u64, readers: nat)
        -> nat
        decreases reports.len(),
    {
        if reports.len() == 0 {
            0
        } else {
            let before = self.took_all(reports.drop_last(), target_deadline, readers);
            self.completions(reports.drop_last(), target_deadline, readers) + if before.completes(
                reports.last(),
                readers,
            ) {
                1nat
            } else {
                0nat
            }
        }
    }
}

/// How many of the reports say that they are the last of their reader.
pub open spec fn last_reports(reports: Seq<NonceData>) -> nat
    decreases reports.len(),
{
    if reports.len() == 0 {
        0
    } else {
        last_reports(reports.drop_last()) + if reports.last().reader_task_processed {
            1nat
        } else {
            0nat
        }
    }
}

impl State {
    /// The state before the first block, with a stopwatch that does not run.
    pub fn new() -> (state: State)
        ensures
            state@ == StateView::initial(),
            state@.wf(),
    {
        State {
            height: 0,
            best_deadline: UNBOUNDED,
            base_target: 1,
            sw: RoundTimer::new(),
            scanning: false,
            processed_reader_tasks: 0,
        }
    }

    pub fn height(&self) -> (r: u64)
        ensures
            r == self@.height,
    {
        self.height
    }

    pub fn best_deadline(&self) -> (r: u64)
        ensures
            r == self@.best_deadline,
    {
        self.best_deadline
    }

    pub fn base_target(&self) -> (r: u64)
        ensures
            r == self@.base_target,
    {
        self.base_target
    }

    pub fn scanning(&self) -> (r: bool)
        ensures
            r == self@.scanning,
    {
        self.scanning
    }

    pub fn processed_reader_tasks(&self) -> (r: usize)
        ensures
            r == self@.processed_reader_tasks,
    {
        self.processed_reader_tasks
    }

    /// Takes in the block that the pool reports, with the stopwatch's
    /// reading given. A block above the current one begins a round: its
    /// height and base target are taken over, the best deadline is
    /// forgotten and no reader counts as done. Else, if no round is under
    /// way and the reading has reached `wakeup_after`, the drives are due
    /// for a seek. The stopwatch itself is not touched.
    pub fn decide(
        &mut self,
        height: u64,
        base_target: u64,
        elapsed_ms: i64,
        wakeup_after: i64,
    ) -> (poll: Poll)
        requires
            old(self)@.wf(),
        ensures
            poll == old(self)@.poll(height, elapsed_ms, wakeup_after),
            final(self)@ == old(self)@.polled(height, base_target),
            final(self)@.wf(),
    {
        if height > self.height {
            self.best_deadline = UNBOUNDED;
            self.height = height;
            self.base_target = base_target;
            self.processed_reader_tasks = 0;
            self.scanning = true;
            Poll::NewRound
        } else if !self.scanning && wakeup_after > 0 && elapsed_ms >= wakeup_after {
            Poll::Wakeup
        } else {
            Poll::Idle
        }
    }

    /// Takes in the block that the pool reports, reads the stopwatch, and
    /// sets it to zero where a round begins or the drives are woken, and
    /// then only.
    pub fn on_mining_info(&mut self, height: u64, base_target: u64, wakeup_after: i64) -> (poll:
        Poll)
        requires
            old(self)@.wf(),
        ensures
            final(self)@ == old(self)@.polled(height, base_target).timed(poll != Poll::Idle),
            final(self)@.wf(),
            exists|elapsed_ms: i64|
                poll == #[trigger] old(self)@.poll(height, elapsed_ms, wakeup_after),
            height > old(self)@.height ==> poll == Poll::NewRound,
            height <= old(self)@.height ==> poll != Poll::NewRound,
            height <= old(self)@.height && (old(self)@.scanning || wakeup_after <= 0) ==> poll
                == Poll::Idle,
    {
        let elapsed_ms: i64 = self.sw.elapsed_ms();
        let poll = self.decide(height, base_target, elapsed_ms, wakeup_after);
        match poll {
            Poll::NewRound => {
                self.sw.restart();
            },
            Poll::Wakeup => {
                self.sw.restart();
            },
            Poll::Idle => {},
        }
        poll
    }

    /// Takes in a worker's report. A deadline that beats the best of the
    /// round and lies under `target_deadline` becomes the best and is to be
    /// submitted; under a base target of 0 none does, and nothing is
    /// divided. A report that is the last of its reader is counted, unless
    /// all `reader_task_count` readers have been counted already; the one
    /// that makes the count full ends the round, and the stopwatch is read
    /// and set to zero.
    pub fn on_nonce_data(
        &mut self,
        data: &NonceData,
        target_deadline: u64,
        reader_task_count: usize,
    ) -> (intake: Intake)
        requires
            old(self)@.wf(),
        ensures
            final(self)@ == old(self)@.took(*data, target_deadline, reader_task_count as nat),
            final(self)@.wf(),
            intake.submit == if old(self)@.improves(*data, target_deadline) {
                Some(old(self)@.scaled(data.deadline))
            } else {
                None
            },
            intake.round_finished == old(self)@.completes(*data, reader_task_count as nat),
            intake.round_time_ms is Some == intake.round_finished,
    {
        let deadline: u64 = if self.base_target == 0 {
            UNBOUNDED
        } else {
            data.deadline / self.base_target
        };
        let mut submit: Option<u64> = None;
        if self.best_deadline > deadline && deadline < target_deadline {
            self.best_deadline = deadline;
            submit = Some(deadline);
        }
        let mut round_finished: bool = false;
        let mut round_time_ms: Option<i64> = None;
        if data.reader_task_processed && self.processed_reader_tasks < reader_task_count {
            self.processed_reader_tasks = self.processed_reader_tasks + 1;
            if self.processed_reader_tasks == reader_task_count {
                round_time_ms = Some(self.sw.elapsed_ms());
                self.sw.restart();
                self.scanning = false;
                round_finished = true;
            }
        }
        Intake { submit, round_finished, round_time_ms }
    }
}

/// Reports leave the block alone, count no reader twice, and never make the
/// best deadline worse.
pub proof fn lemma_took_all(
    state: StateView,
    reports: Seq<NonceData>,
    target_deadline: u64,
    readers: nat,
)
    requires
        state.processed_reader_tasks <= readers,
    ensures
        ({
            let after = state.took_all(reports, target_deadline, readers);
            &&& after.height == state.height
            &&& after.base_target == state.base_target
            &&& after.best_deadline <= state.best_deadline
            &&& after.processed_reader_tasks == if state.processed_reader_tasks + last_reports(
                reports,
            ) <= readers {
                state.processed_reader_tasks + last_reports(reports)
            } else {
                readers
            }
            &&& state.wf() && readers <= usize::MAX ==> after.wf()
        }),
    decreases reports.len(),
{
    if reports.len() > 0 {
        lemma_took_all(state, reports.drop_last(), target_deadline, readers);
    }
}

/// Within a round the best deadline only gets better: a report either
/// leaves it as it is or puts a smaller one in its place, and what it puts
/// there lies under the target.
pub proof fn lemma_best_deadline_improves(
    state: StateView,
    data: NonceData,
    target_deadline: u64,
    readers: nat,
)
    ensures
        ({
            let after = state.took(data, target_deadline, readers);
            &&& after.height == state.height
            &&& after.best_deadline != state.best_deadline ==> after.best_deadline
                < state.best_deadline && after.best_deadline < target_deadline
                && after.best_deadline == state.scaled(data.deadline)
        }),
{
}

/// A round is completed once and only once: of the reports of a round, one
/// completes it if as many say they are the last of their reader as readers
/// are still out, and none does otherwise. Scanning ends with that report
/// and with no other, and the stopwatch is set to zero by that report and
/// by no other.
pub proof fn lemma_round_completes_once(
    state: StateView,
    reports: Seq<NonceData>,
    target_deadline: u64,
    readers: nat,
)
    requires
        state.processed_reader_tasks <= readers,
    ensures
        state.completions(reports, target_deadline, readers) == if state.processed_reader_tasks
            < readers && state.processed_reader_tasks + last_reports(reports) >= readers {
            1nat
        } else {
            0nat
        },
        state.took_all(reports, target_deadline, readers).scanning == (state.scanning
            && state.completions(reports, target_deadline, readers) == 0),
        state.took_all(reports, target_deadline, readers).restarts == state.restarts
            + state.completions(reports, target_deadline, readers),
    decreases reports.len(),
{
    if reports.len() > 0 {
        lemma_round_completes_once(state, reports.drop_last(), target_deadline, readers);
        lemma_took_all(state, reports.drop_last(), target_deadline, readers);
    }
}

/// A report that arrives after the round is complete changes nothing but,
/// if it is good enough, the best deadline.
pub proof fn lemma_late_report(
    state: StateView,
    data: NonceData,
    target_deadline: u64,
    readers: nat,
)
    requires
        state.processed_reader_tasks == readers,
    ensures
        state.took(data, target_deadline, readers) == (StateView {
            best_deadline: state.took(data, target_deadline, readers).best_deadline,
            ..state
        }),
        !state.completes(data, readers),
{
}

/// A file that the scan of the plot directories found.
#[derive(Debug, PartialEq, Eq)]
pub struct PlotFile {
    /// The file's name, without its directory.
    pub name: String,
    /// The drive that holds the file.
    pub drive_id: String,
    /// What the file system tells of the file.
    pub meta: FileMeta,
}

/// A found file as contracts see it.
pub struct FileView {
    pub name: Seq<char>,
    pub drive_id: Seq<char>,
    pub meta: FileMeta,
}

impl View for PlotFile {
    type V = FileView;

    open spec fn view(&self) -> FileView {
        FileView { name: self.name@, drive_id: self.drive_id@, meta: self.meta }
    }
}

/// The found files as contracts see them.
pub open spec fn file_views(files: Seq<PlotFile>) -> Seq<FileView> {
    files.map_values(|f: PlotFile| f@)
}

/// The drives with one more plot: behind the plots of the drive `id`, or, if
/// there is no such drive yet, as the first plot of a new last drive.
pub open spec fn placed(drives: Seq<DriveView>, id: Seq<char>, plot: PlotView) -> Seq<DriveView> {
    let i = drive_index(drives, id);
    if i < drives.len() {
        drives.update(i, DriveView { plots: drives[i].plots.push(plot), ..drives[i] })
    } else {
        drives.push(DriveView { id, plots: seq![plot] })
    }
}

/// The drives that the found files make up: every file that is a plot, on
/// its drive, in the order in which the files were found; drives in the
/// order in which their first plot was found.
pub open spec fn scanned(files: Seq<FileView>, use_direct_io: bool) -> Seq<DriveView>
    decreases files.len(),
{
    if files.len() == 0 {
        Seq::empty()
    } else {
        let drives = scanned(files.drop_last(), use_direct_io);
        let file = files.last();
        match plot_spec(file.name, file.meta, use_direct_io, false) {
            Ok(plot) => placed(drives, file.drive_id, plot),
            Err(_) => drives,
        }
    }
}

/// Placing a well-formed plot keeps the drives in order: each has a plot,
/// all plots are well-formed, no two drives share an id.
pub proof fn lemma_placed(drives: Seq<DriveView>, id: Seq<char>, plot: PlotView)
    requires
        all_drives_wf(drives),
        distinct_ids(drives),
        plot.wf(),
    ensures
        all_drives_wf(placed(drives, id, plot)),
        distinct_ids(placed(drives, id, plot)),
{
    let i = drive_index(drives, id);
    lemma_drive_index_range(drives, id);
    let after = placed(drives, id, plot);
    if i < drives.len() {
        assert forall|k: int| 0 <= k < after.len() implies (#[trigger] after[k]).wf() by {
            if k == i {
                assert(drives[i].wf());
                assert forall|n: int| 0 <= n < after[k].plots.len() implies (
                #[trigger] after[k].plots[n]).wf() by {
                    if n < drives[i].plots.len() {
                        assert(after[k].plots[n] == drives[i].plots[n]);
                    }
                }
            } else {
                assert(drives[k].wf());
            }
        }
        assert forall|a: int, b: int| 0 <= a < b < after.len() implies (#[trigger] after[a]).id != (
        #[trigger] after[b]).id by {
            assert(after[a].id == drives[a].id && after[b].id == drives[b].id);
        }
    } else {
        assert forall|k: int| 0 <= k < after.len() implies (#[trigger] after[k]).wf() by {
            if k < drives.len() {
                assert(drives[k].wf());
            }
        }
        assert forall|a: int, b: int| 0 <= a < b < after.len() implies (#[trigger] after[a]).id != (
        #[trigger] after[b]).id by {
            if b < drives.len() {
                assert(after[a].id == drives[a].id && after[b].id == drives[b].id);
            } else {
                assert(after[a] == drives[a]);
            }
        }
    }
}

/// The drives of a scan are in order: each has a plot, all plots are
/// well-formed, no two drives share an id.
pub proof fn lemma_scanned(files: Seq<FileView>, use_direct_io: bool)
    ensures
        all_drives_wf(scanned(files, use_direct_io)),
        distinct_ids(scanned(files, use_direct_io)),
        scanned(files, use_direct_io).len() <= files.len(),
    decreases files.len(),
{
    if files.len() > 0 {
        lemma_scanned(files.drop_last(), use_direct_io);
        let drives = scanned(files.drop_last(), use_direct_io);
        let file = files.last();
        lemma_drive_index_range(drives, file.drive_id);
        match plot_spec(file.name, file.meta, use_direct_io, false) {
            Ok(plot) => {
                crate::plot::lemma_plot_spec_wf(file.name, file.meta, use_direct_io, false);
                lemma_placed(drives, file.drive_id, plot);
            },
            Err(_) => {},
        }
    }
}

/// How many plots the drives hold in all.
pub open spec fn total_plots(drives: Seq<DriveView>) -> nat
    decreases drives.len(),
{
    if drives.len() == 0 {
        0
    } else {
        total_plots(drives.drop_last()) + drives.last().plots.len()
    }
}

/// How many of the found files are plots.
pub open spec fn plots_among(files: Seq<FileView>, use_direct_io: bool) -> nat
    decreases files.len(),
{
    if files.len() == 0 {
        0
    } else {
        plots_among(files.drop_last(), use_direct_io) + if plot_spec(
            files.last().name,
            files.last().meta,
            use_direct_io,
            false,
        ) is Ok {
            1nat
        } else {
            0nat
        }
    }
}

/// One more plot on drive number `i` is one more plot in all.
proof fn lemma_total_plots_update(drives: Seq<DriveView>, i: int, plot: PlotView)
    requires
        0 <= i < drives.len(),
    ensures
        total_plots(
            drives.update(i, DriveView { plots: drives[i].plots.push(plot), ..drives[i] }),
        ) == total_plots(drives) + 1,
    decreases drives.len(),
{
    let after = drives.update(i, DriveView { plots: drives[i].plots.push(plot), ..drives[i] });
    if i == drives.len() - 1 {
        assert(after.drop_last() =~= drives.drop_last());
    } else {
        lemma_total_plots_update(drives.drop_last(), i, plot);
        assert(after.drop_last() =~= drives.drop_last().update(
            i,
            DriveView { plots: drives[i].plots.push(plot), ..drives[i] },
        ));
    }
}

/// The scan loses no plot and doubles none: the drives hold as many plots
/// as there are plots among the found files.
pub proof fn lemma_scanned_holds_every_plot(files: Seq<FileView>, use_direct_io: bool)
    ensures
        total_plots(scanned(files, use_direct_io)) == plots_among(files, use_direct_io),
    decreases files.len(),
{
    if files.len() > 0 {
        lemma_scanned_holds_every_plot(files.drop_last(), use_direct_io);
        let drives = scanned(files.drop_last(), use_direct_io);
        let file = files.last();
        match plot_spec(file.name, file.meta, use_direct_io, false) {
            Ok(plot) => {
                let i = drive_index(drives, file.drive_id);
                lemma_drive_index_range(drives, file.drive_id);
                if i < drives.len() {
                    lemma_total_plots_update(drives, i, plot);
                } else {
                    let more = drives.push(DriveView { id: file.drive_id, plots: seq![plot] });
                    assert(more.drop_last() =~= drives);
                }
            },
            Err(_) => {},
        }
    }
}

/// Sorts the found files into drives. A file that is no plot (its name does
/// not read as one, or its length is not what the name announces) is left out.
pub fn scan_plots(files: &Vec<PlotFile>, use_direct_io: bool) -> (drives: Vec<Drive>)
    ensures
        drive_views(drives@) == scanned(file_views(files@), use_direct_io),
        all_drives_wf(drive_views(drives@)),
        distinct_ids(drive_views(drives@)),
        drives.len() <= files.len(),
{
    let mut drives: Vec<Drive> = Vec::new();
    let mut i: usize = 0;
    assert(file_views(files@).take(0) =~= Seq::<FileView>::empty());
    assert(drive_views(drives@) =~= Seq::<DriveView>::empty());
    while i < files.len()
        invariant
            i <= files.len(),
            drive_views(drives@) == scanned(file_views(files@).take(i as int), use_direct_io),
        decreases files.len() - i,
    {
        let file = &files[i];
        let ghost found = file_views(files@).take(i + 1);
        let ghost before = drive_views(drives@);
        proof {
            assert(found.drop_last() =~= file_views(files@).take(i as int));
            assert(found.last() == file@);
            lemma_scanned(file_views(files@).take(i as int), use_direct_io);
        }
        match Plot::new(file.name.as_str(), file.meta, use_direct_io, false) {
            Ok(plot) => {
                let mut j: usize = 0;
                while j < drives.len() && !(*drives[j].id() == file.drive_id)
                    invariant
                        j <= drives.len(),
                        drive_views(drives@) == before,
                        forall|k: int| 0 <= k < j ==> (#[trigger] before[k]).id != file.drive_id@,
                    decreases drives.len() - j,
                {
                    assert(drives[j as int]@ == before[j as int]);
                    j = j + 1;
                }
                proof {
                    if j < drives.len() {
                        assert(drives[j as int]@ == before[j as int]);
                    }
                    lemma_drive_index_is(before, file.drive_id@, j as int);
                }
                if j < drives.len() {
                    let mut drive = drives[j].clone_drive();
                    drive.push(plot);
                    drives.set(j, drive);
                    assert(drive_views(drives@) =~= placed(before, file.drive_id@, plot@));
                } else {
                    let mut plots: Vec<Plot> = Vec::new();
                    plots.push(plot);
                    assert(views(plots@) =~= seq![plot@]);
                    let drive = Drive::new(file.drive_id.clone(), plots);
                    drives.push(drive);
                    assert(drive_views(drives@) =~= placed(before, file.drive_id@, plot@));
                }
            },
            Err(_) => {},
        }
        i = i + 1;
    }
    proof {
        assert(file_views(files@).take(files.len() as int) =~= file_views(files@));
        lemma_scanned(file_views(files@), use_direct_io);
    }
    drives
}

/// The options that the miner knows.
#[derive(Debug, PartialEq, Eq)]
pub struct Cfg {
    /// Directories to look for plots in.
    pub plot_dirs: Vec<String>,
    /// Whether plots are read unbuffered.
    pub hdd_use_direct_io: bool,
    /// Threads that run reader tasks; 0 for one per drive.
    pub hdd_reader_thread_count: usize,
    pub cpu_worker_thread_count: usize,
    pub gpu_worker_thread_count: usize,
    /// Nonces that a CPU buffer takes.
    pub cpu_nonces_per_cache: usize,
    /// Nonces that a GPU buffer is asked to take.
    pub gpu_nonces_per_cache: usize,
    pub gpu_platform: usize,
    pub gpu_device: usize,
    /// Whether each CPU worker is pinned to a core.
    pub cpu_thread_pinning: bool,
    pub account_id: u64,
    /// Deadlines at or above this one are not submitted.
    pub target_deadline: u64,
    pub url: String,
    pub secret_phrase: String,
    pub timeout: u64,
    /// Milliseconds between two requests for the current block.
    pub get_mining_info_interval: u64,
    /// Seconds of idleness after which the drives are woken; 0 for never.
    pub hdd_wakeup_after: i64,
}

impl Cfg {
    /// Whether the sizes that follow from the options fit the machine.
    pub open spec fn fits(&self, gpu_work_group_size: usize) -> bool {
        &&& 2 * self.cpu_worker_thread_count + 2 * self.gpu_worker_thread_count <= usize::MAX
        &&& self.cpu_nonces_per_cache * SCOOP_SIZE <= usize::MAX
        &&& self.gpu_worker_thread_count > 0 ==> gpu_work_group_size * SCOOP_SIZE <= usize::MAX
        &&& i64::MIN <= self.hdd_wakeup_after * 1000 <= i64::MAX
    }

    /// Bytes in a GPU buffer: a scoop for each item of the device's work
    /// group, and nothing where no GPU worker runs.
    pub open spec fn gpu_buffer_size(&self, gpu_work_group_size: usize) -> nat {
        if self.gpu_worker_thread_count > 0 {
            (gpu_work_group_size * SCOOP_SIZE) as nat
        } else {
            0
        }
    }

    /// Threads that run reader tasks.
    pub open spec fn reader_threads(&self, drives: nat) -> nat {
        if self.hdd_reader_thread_count == 0 {
            drives
        } else {
            self.hdd_reader_thread_count as nat
        }
    }
}

/// The miner: its drives, its buffers and where it stands.
pub struct Miner {
    reader: Reader,
    pool: BufferPool,
    account_id: u64,
    target_deadline: u64,
    state: State,
    reader_task_count: usize,
    reader_thread_count: usize,
    worker_count: usize,
    get_mining_info_interval: u64,
    wakeup_after: i64,
}

/// The miner as contracts see it.
pub struct MinerView {
    pub reader: ReaderView,
    pub pool: PoolView,
    pub account_id: u64,
    pub target_deadline: u64,
    pub state: StateView,
    /// Reader tasks in a round: one for each drive.
    pub reader_task_count: nat,
    pub reader_thread_count: nat,
    /// Workers of both kinds: the capacity of the channel that carries their reports.
    pub worker_count: nat,
    pub get_mining_info_interval: u64,
    /// Milliseconds of idleness after which the drives are woken.
    pub wakeup_after: i64,
}

impl View for Miner {
    type V = MinerView;

    closed spec fn view(&self) -> MinerView {
        MinerView {
            reader: self.reader@,
            pool: self.pool@,
            account_id: self.account_id,
            target_deadline: self.target_deadline,
            state: self.state@,
            reader_task_count: self.reader_task_count as nat,
            reader_thread_count: self.reader_thread_count as nat,
            worker_count: self.worker_count as nat,
            get_mining_info_interval: self.get_mining_info_interval,
            wakeup_after: self.wakeup_after,
        }
    }
}

impl MinerView {
    /// The parts are well-formed, and a round has one reader task for each drive.
    pub open spec fn wf(self) -> bool {
        &&& self.reader.wf()
        &&& self.pool.wf()
        &&& self.state.wf()
        &&& self.reader_task_count == self.reader.drives.len()
        &&& self.worker_count <= usize::MAX
    }
}

impl Miner {
    /// The miner for the given options and the files found in the plot
    /// directories. `gpu_work_group_size` is the number of nonces that the
    /// GPU takes at once; it does not matter where no GPU worker runs.
    pub fn new(cfg: &Cfg, files: &Vec<PlotFile>, gpu_work_group_size: usize) -> (miner: Miner)
        requires
            cfg.fits(gpu_work_group_size),
        ensures
            miner@.wf(),
            miner@.state == StateView::initial(),
            miner@.pool == PoolView::fresh(
                cfg.cpu_worker_thread_count as nat,
                cfg.gpu_worker_thread_count as nat,
                (cfg.cpu_nonces_per_cache * SCOOP_SIZE) as nat,
                cfg.gpu_buffer_size(gpu_work_group_size),
            ),
            miner@.reader.running == 0,
            miner@.reader.drives.len() == scanned(file_views(files@), cfg.hdd_use_direct_io).len(),
            forall|i: int|
                0 <= i < miner@.reader.drives.len() ==> (#[trigger] miner@.reader.drives[i]).id
                    == scanned(file_views(files@), cfg.hdd_use_direct_io)[i].id
                    && miner@.reader.drives[i].plots.len() == scanned(
                    file_views(files@),
                    cfg.hdd_use_direct_io,
                )[i].plots.len() && is_sorted_newest_first(
                    miner@.reader.drives[i].plots,
                    scanned(file_views(files@), cfg.hdd_use_direct_io)[i].plots,
                ),
            miner@.reader_task_count == miner@.reader.drives.len(),
            miner@.reader_thread_count == cfg.reader_threads(miner@.reader.drives.len()),
            miner@.worker_count == cfg.cpu_worker_thread_count + cfg.gpu_worker_thread_count,
            miner@.account_id == cfg.account_id,
            miner@.target_deadline == cfg.target_deadline,
            miner@.get_mining_info_interval == cfg.get_mining_info_interval,
            miner@.wakeup_after == cfg.hdd_wakeup_after * 1000,
    {
        let drives = scan_plots(files, cfg.hdd_use_direct_io);
        let ghost found = drive_views(drives@);
        let reader_task_count: usize = drives.len();
        let reader_thread_count: usize = if cfg.hdd_reader_thread_count == 0 {
            drives.len()
        } else {
            cfg.hdd_reader_thread_count
        };
        let buffer_size_cpu: usize = cfg.cpu_nonces_per_cache * (SCOOP_SIZE as usize);
        let mut buffer_size_gpu: usize = 0;
        if cfg.gpu_worker_thread_count > 0 {
            buffer_size_gpu = gpu_work_group_size * (SCOOP_SIZE as usize);
        }
        let pool = BufferPool::new(
            cfg.cpu_worker_thread_count,
            cfg.gpu_worker_thread_count,
            buffer_size_cpu,
            buffer_size_gpu,
        );
        let reader = Reader::new(drives);
        assert forall|i: int| 0 <= i < reader@.drives.len() implies (
        #[trigger] reader@.drives[i]).id == found[i].id && reader@.drives[i].plots.len()
            == found[i].plots.len()
            && is_sorted_newest_first(reader@.drives[i].plots, found[i].plots) by {
            assert(drives@[i]@ == found[i]);
        }
        Miner {
            reader,
            pool,
            account_id: cfg.account_id,
            target_deadline: cfg.target_deadline,
            state: State::new(),
            reader_task_count,
            reader_thread_count,
            worker_count: cfg.cpu_worker_thread_count + cfg.gpu_worker_thread_count,
            get_mining_info_interval: cfg.get_mining_info_interval,
            wakeup_after: cfg.hdd_wakeup_after * 1000,
        }
    }

    pub fn reader(&self) -> (r: &Reader)
        ensures
            r@ == self@.reader,
    {
        &self.reader
    }

    pub fn pool(&self) -> (r: &BufferPool)
        ensures
            r@ == self@.pool,
    {
        &self.pool
    }

    pub fn state(&self) -> (r: &State)
        ensures
            r@ == self@.state,
    {
        &self.state
    }

    pub fn account_id(&self) -> (r: u64)
        ensures
            r == self@.account_id,
    {
        self.account_id
    }

    pub fn target_deadline(&self) -> (r: u64)
        ensures
            r == self@.target_deadline,
    {
        self.target_deadline
    }

    pub fn reader_task_count(&self) -> (r: usize)
        ensures
            r == self@.reader_task_count,
    {
        self.reader_task_count
    }

    pub fn reader_thread_count(&self) -> (r: usize)
        ensures
            r == self@.reader_thread_count,
    {
        self.reader_thread_count
    }

    /// Workers of both kinds: the capacity of the channel that carries their reports.
    pub fn worker_count(&self) -> (r: usize)
        ensures
            r == self@.worker_count,
    {
        self.worker_count
    }

    pub fn get_mining_info_interval(&self) -> (r: u64)
        ensures
            r == self@.get_mining_info_interval,
    {
        self.get_mining_info_interval
    }

    pub fn wakeup_after(&self) -> (r: i64)
        ensures
            r == self@.wakeup_after,
    {
        self.wakeup_after
    }

    /// Takes in the block that the pool reports; see `State::on_mining_info`.
    /// Where a round begins, `start_reading` is to follow.
    pub fn on_mining_info(&mut self, height: u64, base_target: u64) -> (poll: Poll)
        requires
            old(self)@.wf(),
        ensures
            final(self)@ == (MinerView {
                state: old(self)@.state.polled(height, base_target).timed(poll != Poll::Idle),
                ..old(self)@
            }),
            final(self)@.wf(),
            exists|elapsed_ms: i64|
                poll == #[trigger] old(self)@.state.poll(
                    height,
                    elapsed_ms,
                    old(self)@.wakeup_after,
                ),
            height > old(self)@.state.height ==> poll == Poll::NewRound,
            height <= old(self)@.state.height ==> poll != Poll::NewRound,
            height <= old(self)@.state.height && (old(self)@.state.scanning || old(
                self,
            )@.wakeup_after <= 0) ==> poll == Poll::Idle,
    {
        self.state.on_mining_info(height, base_target, self.wakeup_after)
    }

    /// Begins the round of the current block: the tasks of the round before
    /// are to be interrupted, then one task for each drive reads `scoop`.
    pub fn start_reading(&mut self, scoop: u32, gensig: &[u8; 32]) -> (round: Round)
        requires
            old(self)@.wf(),
            scoop < SCOOPS_IN_NONCE,
        ensures
            round.interrupts == old(self)@.reader.running,
            round.tasks.len() == old(self)@.reader_task_count,
            forall|i: int|
                0 <= i < round.tasks.len() ==> (#[trigger] round.tasks[i])@ == TaskView::start(
                    old(self)@.reader.drives[i].plots,
                    old(self)@.state.height,
                    scoop,
                    *gensig,
                ),
            final(self)@ == (MinerView {
                reader: ReaderView {
                    running: old(self)@.reader.drives.len(),
                    ..old(self)@.reader
                },
                ..old(self)@
            }),
            final(self)@.wf(),
    {
        self.reader.start_reading(self.state.height(), scoop, gensig)
    }

    /// For each drive a position to seek to; see `Reader::wakeup`.
    pub fn wakeup(&self) -> (seeks: Vec<u64>)
        requires
            self@.wf(),
        ensures
            seeks.len() == self@.reader.drives.len(),
            forall|i: int|
                0 <= i < seeks.len() ==> self@.reader.drives[i].plots[0].begins_scoop(
                    (#[trigger] seeks[i]) as nat,
                ),
    {
        self.reader.wakeup()
    }

    /// Takes in a worker's report; see `State::on_nonce_data`. What is to be
    /// submitted goes to the pool under the miner's account, with the nonce
    /// and the height of the report.
    pub fn on_nonce_data(&mut self, data: &NonceData) -> (intake: Intake)
        requires
            old(self)@.wf(),
        ensures
            final(self)@ == (MinerView {
                state: old(self)@.state.took(
                    *data,
                    old(self)@.target_deadline,
                    old(self)@.reader_task_count,
                ),
                ..old(self)@
            }),
            final(self)@.wf(),
            intake.submit == if old(self)@.state.improves(*data, old(self)@.target_deadline) {
                Some(old(self)@.state.scaled(data.deadline))
            } else {
                None
            },
            intake.round_finished == old(self)@.state.completes(
                *data,
                old(self)@.reader_task_count,
            ),
            intake.round_time_ms is Some == intake.round_finished,
    {
        self.state.on_nonce_data(data, self.target_deadline, self.reader_task_count)
    }
}

} // verus!
