//! The readers: the drives with their plots, and the rounds in which one
//! task for each drive reads the scoop of a block.

use crate::buffer::Buffer;
use crate::order::{is_sorted_newest_first, sort_newest_first};
use crate::plot::{all_wf, views, Plot, PlotView, SCOOPS_IN_NONCE};
use crate::task::{ReadTask, TaskView};
use vstd::prelude::*;

verus! {

/// What a reader hands to a worker: a filled buffer and what it holds.
#[derive(Clone, Copy, Debug, PartialEq, Eq)]
pub struct ReadReply {
    /// The buffer that was filled.
    pub buffer: Buffer,
    /// Bytes written to it.
    pub len: usize,
    /// The block that the scoop was read for.
    pub height: u64,
    /// That block's generation signature.
    pub gensig: [u8; 32],
    /// The nonce of the first scoop in the buffer.
    pub start_nonce: u64,
    /// Whether this is the last reply of its reader in this round.
    pub finished: bool,
}

/// The plots of one physical drive.
#[derive(Debug)]
pub struct Drive {
    id: String,
    plots: Vec<Plot>,
}

/// A drive as contracts see it.
pub struct DriveView {
    pub id: Seq<char>,
    pub plots: Seq<PlotView>,
}

impl DriveView {
    /// A drive has a plot, and its plots are well-formed.
    pub open spec fn wf(self) -> bool {
        &&& self.plots.len() > 0
        &&& all_wf(self.plots)
    }
}

impl View for Drive {
    type V = DriveView;

    closed spec fn view(&self) -> DriveView {
        DriveView { id: self.id@, plots: views(self.plots@) }
    }
}

/// The drives as contracts see them.
pub open spec fn drive_views(drives: Seq<Drive>) -> Seq<DriveView> {
    drives.map_values(|d: Drive| d@)
}

/// Whether all of the drives are well-formed.
pub open spec fn all_drives_wf(drives: Seq<DriveView>) -> bool {
    forall|i: int| 0 <= i < drives.len() ==> (#[trigger] drives[i]).wf()
}

/// No two drives share an id.
pub open spec fn distinct_ids(drives: Seq<DriveView>) -> bool {
    forall|a: int, b: int|
        0 <= a < b < drives.len() ==> (#[trigger] drives[a]).id != (#[trigger] drives[b]).id
}

/// The place of the first drive with the id `id`; the number of drives if there is none.
pub open spec fn drive_index(drives: Seq<DriveView>, id: Seq<char>) -> int
    decreases drives.len(),
{
    if drives.len() == 0 {
        0
    } else if drives[0].id == id {
        0
    } else {
        1 + drive_index(drives.drop_first(), id)
    }
}

pub proof fn lemma_drive_index_range(drives: Seq<DriveView>, id: Seq<char>)
    ensures
        0 <= drive_index(drives, id) <= drives.len(),
        drive_index(drives, id) < drives.len() ==> drives[drive_index(drives, id)].id == id,
        forall|j: int| 0 <= j < drive_index(drives, id) ==> (#[trigger] drives[j]).id != id,
    decreases drives.len(),
{
    if drives.len() > 0 && drives[0].id != id {
        let rest = drives.drop_first();
        lemma_drive_index_range(rest, id);
        assert forall|j: int| 0 <= j < drive_index(drives, id) implies (#[trigger] drives[j]).id
            != id by {
            if j > 0 {
                assert(drives[j] == rest[j - 1]);
            }
        }
    }
}

/// `drive_index` is the place of the first drive with the id: no drive before it has it.
pub proof fn lemma_drive_index_is(drives: Seq<DriveView>, id: Seq<char>, k: int)
    requires
        0 <= k <= drives.len(),
        forall|j: int| 0 <= j < k ==> (#[trigger] drives[j]).id != id,
        k < drives.len() ==> drives[k].id == id,
    ensures
        drive_index(drives, id) == k,
    decreases k,
{
    if k > 0 {
        let rest = drives.drop_first();
        assert forall|j: int| 0 <= j < k - 1 implies (#[trigger] rest[j]).id != id by {
            assert(rest[j] == drives[j + 1]);
        }
        lemma_drive_index_is(rest, id, k - 1);
    }
}

/// A copy of `plots`.
fn copy_plots(plots: &Vec<Plot>) -> (copy: Vec<Plot>)
    ensures
        copy@ == plots@,
{
    let mut copy: Vec<Plot> = Vec::new();
    let mut i: usize = 0;
    while i < plots.len()
        invariant
            i <= plots.len(),
            copy@ == plots@.take(i as int),
        decreases plots.len() - i,
    {
        copy.push(plots[i]);
        i = i + 1;
        assert(copy@ =~= plots@.take(i as int));
    }
    assert(plots@.take(plots.len() as int) =~= plots@);
    copy
}

impl Drive {
    /// The drive `id` with the plots found on it.
    pub fn new(id: String, plots: Vec<Plot>) -> (drive: Drive)
        ensures
            drive@ == (DriveView { id: id@, plots: views(plots@) }),
    {
        Drive { id, plots }
    }

    pub fn id(&self) -> (id: &String)
        ensures
            id@ == self@.id,
    {
        &self.id
    }

    pub fn plots(&self) -> (plots: &Vec<Plot>)
        ensures
            views(plots@) == self@.plots,
    {
        &self.plots
    }

    /// A copy of the drive.
    pub fn clone_drive(&self) -> (drive: Drive)
        ensures
            drive@ == self@,
    {
        Drive { id: self.id.clone(), plots: copy_plots(&self.plots) }
    }

    /// Puts one more plot behind those of the drive.
    pub fn push(&mut self, plot: Plot)
        ensures
            final(self)@ == (DriveView { plots: old(self)@.plots.push(plot@), ..old(self)@ }),
    {
        let ghost before = self@.plots;
        self.plots.push(plot);
        assert(views(self.plots@) =~= before.push(plot@));
    }
}

/// What begins a round: how many tasks of the round before are to be
/// interrupted, and the tasks to run, one for each drive.
#[derive(Debug)]
pub struct Round {
    pub interrupts: usize,
    pub tasks: Vec<ReadTask>,
}

/// All drives, and how many reader tasks are out.
#[derive(Debug)]
pub struct Reader {
    drives: Vec<Drive>,
    running: usize,
}

/// The reader as contracts see it.
pub struct ReaderView {
    pub drives: Seq<DriveView>,
    /// Tasks handed out for the last round, each with an interrupt of its own.
    pub running: nat,
}

impl ReaderView {
    /// Every drive has a plot, all plots are well-formed, and no more
    /// tasks are out than there are drives.
    pub open spec fn wf(self) -> bool {
        &&& all_drives_wf(self.drives)
        &&& self.running <= self.drives.len() <= usize::MAX
    }
}

impl View for Reader {
    type V = ReaderView;

    closed spec fn view(&self) -> ReaderView {
        ReaderView { drives: drive_views(self.drives@), running: self.running as nat }
    }
}

impl Reader {
    /// The reader of `drives`. Each drive's plots are put in the order in
    /// which they will be read: the newest first.
    pub fn new(drives: Vec<Drive>) -> (reader: Reader)
        requires
            all_drives_wf(drive_views(drives@)),
        ensures
            reader@.wf(),
            reader@.running == 0,
            reader@.drives.len() == drives.len(),
            forall|i: int|
                0 <= i < drives.len() ==> (#[trigger] reader@.drives[i]).id == drives[i]@.id
                    && reader@.drives[i].plots.len() == drives[i]@.plots.len()
                    && is_sorted_newest_first(reader@.drives[i].plots, drives[i]@.plots),
    {
        let mut sorted: Vec<Drive> = Vec::new();
        let mut i: usize = 0;
        while i < drives.len()
            invariant
                i <= drives.len(),
                sorted.len() == i,
                all_drives_wf(drive_views(drives@)),
                all_drives_wf(drive_views(sorted@)),
                forall|k: int|
                    0 <= k < i ==> (#[trigger] drive_views(sorted@)[k]).id == drives[k]@.id
                        && drive_views(sorted@)[k].plots.len() == drives[k]@.plots.len()
                        && is_sorted_newest_first(drive_views(sorted@)[k].plots, drives[k]@.plots),
            decreases drives.len() - i,
        {
            let drive = &drives[i];
            assert(drive@ == drive_views(drives@)[i as int]);
            let plots = sort_newest_first(&drive.plots);
            let ghost before = drive_views(sorted@);
            let newest = Drive { id: drive.id.clone(), plots };
            sorted.push(newest);
            assert(drive_views(sorted@) =~= before.push(newest@));
            i = i + 1;
        }
        Reader { drives: sorted, running: 0 }
    }

    /// How many drives there are: the number of reader tasks in a round.
    pub fn drive_count(&self) -> (n: usize)
        ensures
            n == self@.drives.len(),
    {
        self.drives.len()
    }

    /// Drive number `i`.
    pub fn drive(&self, i: usize) -> (drive: &Drive)
        requires
            i < self@.drives.len(),
        ensures
            drive@ == self@.drives[i as int],
    {
        &self.drives[i]
    }

    /// Begins the round of the block at `height`: every task that is still
    /// out is to be interrupted, then one new task for each drive reads
    /// `scoop` of the drive's plots.
    pub fn start_reading(&mut self, height: u64, scoop: u32, gensig: &[u8; 32]) -> (round: Round)
        requires
            old(self)@.wf(),
            scoop < SCOOPS_IN_NONCE,
        ensures
            round.interrupts == old(self)@.running,
            round.tasks.len() == old(self)@.drives.len(),
            forall|i: int|
                0 <= i < round.tasks.len() ==> (#[trigger] round.tasks[i])@ == TaskView::start(
                    old(self)@.drives[i].plots,
                    height,
                    scoop,
                    *gensig,
                ),
            final(self)@ == (ReaderView { running: old(self)@.drives.len(), ..old(self)@ }),
            final(self)@.wf(),
    {
        let interrupts: usize = self.running;
        let mut tasks: Vec<ReadTask> = Vec::new();
        let mut i: usize = 0;
        while i < self.drives.len()
            invariant
                i <= self.drives.len(),
                tasks.len() == i,
                self@.wf(),
                scoop < SCOOPS_IN_NONCE,
                forall|k: int|
                    0 <= k < i ==> (#[trigger] tasks[k])@ == TaskView::start(
                        self@.drives[k].plots,
                        height,
                        scoop,
                        *gensig,
                    ),
            decreases self.drives.len() - i,
        {
            let drive = &self.drives[i];
            assert(drive@ == self@.drives[i as int]);
            let plots = copy_plots(&drive.plots);
            let task = ReadTask::new(plots, height, scoop, *gensig);
            tasks.push(task);
            i = i + 1;
        }
        self.running = self.drives.len();
        Round { interrupts, tasks }
    }

    /// For each drive, a position in its first plot, picked at random: a
    /// seek to it keeps the drive from falling asleep.
    pub fn wakeup(&self) -> (seeks: Vec<u64>)
        requires
            self@.wf(),
        ensures
            seeks.len() == self@.drives.len(),
            forall|i: int|
                0 <= i < seeks.len() ==> self@.drives[i].plots[0].begins_scoop(
                    (#[trigger] seeks[i]) as nat,
                ),
    {
        let mut seeks: Vec<u64> = Vec::new();
        let mut i: usize = 0;
        while i < self.drives.len()
            invariant
                i <= self.drives.len(),
                seeks.len() == i,
                self@.wf(),
                forall|k: int|
                    0 <= k < i ==> self@.drives[k].plots[0].begins_scoop(
                        (#[trigger] seeks[k]) as nat,
                    ),
            decreases self.drives.len() - i,
        {
            let drive = &self.drives[i];
            assert(drive@ == self@.drives[i as int]);
            let plot: Plot = drive.plots[0];
            assert(plot@ == drive@.plots[0]);
            let seek_addr: u64 = plot.seek_random();
            seeks.push(seek_addr);
            i = i + 1;
        }
        seeks
    }
}

} // verus!
