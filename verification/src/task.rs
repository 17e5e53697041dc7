//! The work of one drive's reader in one round, step by step.
//!
//! A task does no reading itself. It says what is to be done next (a seek,
//! the wait for a buffer, a read, the sending of a reply, a look for the
//! interrupt), is told how that went, and says what follows.

use crate::buffer::Buffer;
use crate::plot::{
    all_wf, lemma_finished_read_spends, lemma_read_is_bounded, views, Chunk, Plot, PlotView,
    SCOOPS_IN_NONCE,
};
use crate::reader::ReadReply;
use vstd::prelude::*;

verus! {

/// What a reader task asks of the thread that runs it.
#[derive(Clone, Copy, Debug, PartialEq, Eq)]
pub enum Action {
    /// Move the file of plot number `plot` to `seek_addr`; then report `Event::Seeked`.
    Seek { plot: usize, seek_addr: u64 },
    /// Take an empty buffer from the pool; then report `Event::Buffer`.
    TakeBuffer,
    /// Read `chunk.len` bytes at `chunk.seek_addr` of plot number `plot` into
    /// the buffer; then report `Event::Filled`. The plot's cursor moves when
    /// the read is reported to have succeeded, not before.
    Fill { plot: usize, chunk: Chunk, buffer: Buffer },
    /// Put the reply in the queue of its buffer's kind; then report `Event::Sent`.
    Send { reply: ReadReply },
    /// Look whether the round was interrupted, without waiting; then report
    /// `Event::Polled`. This is due behind every reply but a task's last.
    Poll,
    /// Nothing more: the task is over.
    Stop,
}

/// What the thread that runs a reader task reports to it.
#[derive(Clone, Copy, Debug, PartialEq, Eq)]
pub enum Event {
    /// The seek was made; `ok` tells whether it succeeded.
    Seeked { ok: bool },
    /// An empty buffer arrived.
    Buffer { buffer: Buffer },
    /// The read was made; `ok` tells whether it succeeded.
    Filled { ok: bool },
    /// The reply is in its queue.
    Sent,
    /// The interrupt was looked for; `interrupted` tells whether it was there.
    Polled { interrupted: bool },
}

/// The work of one drive's reader in one round.
#[derive(Debug)]
pub struct ReadTask {
    plots: Vec<Plot>,
    height: u64,
    scoop: u32,
    gensig: [u8; 32],
    cursor: usize,
    due: Action,
    leaving: bool,
}

/// A reader task as contracts see it.
pub struct TaskView {
    /// The drive's plots, in the order in which they are read.
    pub plots: Seq<PlotView>,
    pub height: u64,
    pub scoop: u32,
    pub gensig: [u8; 32],
    /// The number of the plot at hand; the number of plots once all are done.
    pub cursor: nat,
    /// What the task waits for.
    pub due: Action,
    /// Whether the plot at hand is done with: its last chunk was read, or a read failed.
    pub leaving: bool,
}

impl View for ReadTask {
    type V = TaskView;

    closed spec fn view(&self) -> TaskView {
        TaskView {
            plots: views(self.plots@),
            height: self.height,
            scoop: self.scoop,
            gensig: self.gensig,
            cursor: self.cursor as nat,
            due: self.due,
            leaving: self.leaving,
        }
    }
}

impl TaskView {
    /// What holds of every task: its plots are well-formed, its scoop is
    /// one, the plot at hand is one of its plots until the task stops, and
    /// what is due concerns the plot at hand. A reply is the task's last
    /// exactly if it leaves the last plot, and behind the last reply no
    /// look for the interrupt is due.
    pub open spec fn wf(self) -> bool {
        &&& all_wf(self.plots)
        &&& self.plots.len() <= usize::MAX
        &&& self.scoop < SCOOPS_IN_NONCE
        &&& self.cursor <= self.plots.len()
        &&& self.due !is Stop ==> self.cursor < self.plots.len()
        &&& self.due matches Action::Seek { plot, .. } ==> plot == self.cursor
        &&& self.due matches Action::Fill { plot, chunk, buffer } ==> plot == self.cursor && chunk
            == self.plots[self.cursor as int].chunk(buffer.capacity as nat, self.scoop as nat)
        &&& self.due matches Action::Send { reply } ==> reply.finished == (self.leaving
            && self.cursor + 1 == self.plots.len())
        &&& self.due is Poll ==> !(self.leaving && self.cursor + 1 == self.plots.len())
    }

    /// The task as it turns to plot number `cursor`: the plot's cursor is set
    /// to the scoop and a seek is due; or, behind the last plot, the task stops.
    pub open spec fn enter(self, cursor: nat) -> TaskView {
        if cursor < self.plots.len() {
            TaskView {
                plots: self.plots.update(
                    cursor as int,
                    self.plots[cursor as int].prepared(self.scoop as nat),
                ),
                cursor,
                due: Action::Seek {
                    plot: cursor as usize,
                    seek_addr: self.plots[cursor as int].first_seek(self.scoop as nat) as u64,
                },
                leaving: false,
                ..self
            }
        } else {
            TaskView { cursor: self.plots.len(), due: Action::Stop, leaving: false, ..self }
        }
    }

    /// The task of a round at its start.
    pub open spec fn start(plots: Seq<PlotView>, height: u64, scoop: u32, gensig: [u8; 32])
        -> TaskView {
        (TaskView { plots, height, scoop, gensig, cursor: 0, due: Action::Stop, leaving: false })
            .enter(0)
    }

    /// The reply for the read that was made into `buffer`.
    pub open spec fn reply(self, chunk: Chunk, buffer: Buffer, ok: bool) -> ReadReply {
        ReadReply {
            buffer,
            len: if ok {
                chunk.len
            } else {
                0
            },
            height: self.height,
            gensig: self.gensig,
            start_nonce: if ok {
                chunk.start_nonce
            } else {
                0
            },
            finished: (!ok || chunk.finished) && self.cursor + 1 == self.plots.len(),
        }
    }

    /// The task after `event`. An event that the task does not wait for changes nothing.
    pub open spec fn after(self, event: Event) -> TaskView {
        match (self.due, event) {
            (Action::Seek { .. }, Event::Seeked { ok }) => {
                if ok {
                    TaskView { due: Action::TakeBuffer, ..self }
                } else {
                    self.enter(self.cursor + 1)
                }
            },
            (Action::TakeBuffer, Event::Buffer { buffer }) => {
                let plot = self.plots[self.cursor as int];
                TaskView {
                    due: Action::Fill {
                        plot: self.cursor as usize,
                        chunk: plot.chunk(buffer.capacity as nat, self.scoop as nat),
                        buffer,
                    },
                    ..self
                }
            },
            (Action::Fill { chunk, buffer, .. }, Event::Filled { ok }) => {
                let plot = self.plots[self.cursor as int];
                TaskView {
                    plots: if ok {
                        self.plots.update(self.cursor as int, plot.advanced(buffer.capacity as nat))
                    } else {
                        self.plots
                    },
                    due: Action::Send { reply: self.reply(chunk, buffer, ok) },
                    leaving: !ok || chunk.finished,
                    ..self
                }
            },
            (Action::Send { reply }, Event::Sent) => {
                if reply.finished {
                    self.enter(self.cursor + 1)
                } else {
                    TaskView { due: Action::Poll, ..self }
                }
            },
            (Action::Poll, Event::Polled { interrupted }) => {
                if interrupted {
                    TaskView { due: Action::Stop, ..self }
                } else if self.leaving {
                    self.enter(self.cursor + 1)
                } else {
                    TaskView { due: Action::TakeBuffer, ..self }
                }
            },
            _ => self,
        }
    }

    /// The task after the events `events`, one after another.
    pub open spec fn after_all(self, events: Seq<Event>) -> TaskView
        decreases events.len(),
    {
        if events.len() == 0 {
            self
        } else {
            self.after_all(events.drop_last()).after(events.last())
        }
    }
}

impl ReadTask {
    /// The task that reads `scoop` of all `plots`, in their order, for the
    /// block at `height`.
    pub fn new(plots: Vec<Plot>, height: u64, scoop: u32, gensig: [u8; 32]) -> (task: ReadTask)
        requires
            all_wf(views(plots@)),
            scoop < SCOOPS_IN_NONCE,
        ensures
            task@ == TaskView::start(views(plots@), height, scoop, gensig),
            task@.wf(),
    {
        let mut task = ReadTask {
            plots,
            height,
            scoop,
            gensig,
            cursor: 0,
            due: Action::Stop,
            leaving: false,
        };
        task.enter(0);
        task
    }

    /// Turns to plot number `cursor`.
    fn enter(&mut self, cursor: usize)
        requires
            all_wf(old(self)@.plots),
            old(self)@.scoop < SCOOPS_IN_NONCE,
        ensures
            final(self)@ == old(self)@.enter(cursor as nat),
            final(self)@.wf(),
    {
        if cursor < self.plots.len() {
            let mut plot: Plot = self.plots[cursor];
            assert(plot@ == self@.plots[cursor as int]);
            let seek_addr: u64 = plot.prepare(self.scoop);
            let ghost before = self@.plots;
            self.plots.set(cursor, plot);
            assert(views(self.plots@) =~= before.update(cursor as int, plot@));
            self.cursor = cursor;
            self.due = Action::Seek { plot: cursor, seek_addr };
        } else {
            self.cursor = self.plots.len();
            self.due = Action::Stop;
        }
        self.leaving = false;
    }

    /// What the task waits for.
    pub fn due(&self) -> (action: Action)
        ensures
            action == self@.due,
    {
        self.due
    }

    /// The number of the plot at hand.
    pub fn cursor(&self) -> (cursor: usize)
        ensures
            cursor == self@.cursor,
    {
        self.cursor
    }

    /// How many plots the task reads.
    pub fn plot_count(&self) -> (n: usize)
        ensures
            n == self@.plots.len(),
    {
        self.plots.len()
    }

    /// Plot number `i`, with its cursor where the task has left it.
    pub fn plot(&self, i: usize) -> (plot: Plot)
        requires
            i < self@.plots.len(),
        ensures
            plot@ == self@.plots[i as int],
    {
        self.plots[i]
    }

    /// Takes in what happened and says what to do next.
    pub fn step(&mut self, event: Event) -> (action: Action)
        requires
            old(self)@.wf(),
        ensures
            final(self)@ == old(self)@.after(event),
            final(self)@.wf(),
            action == final(self)@.due,
    {
        match (self.due, event) {
            (Action::Seek { .. }, Event::Seeked { ok }) => {
                if ok {
                    self.due = Action::TakeBuffer;
                } else {
                    self.enter(self.cursor + 1);
                }
            },
            (Action::TakeBuffer, Event::Buffer { buffer }) => {
                let plot: Plot = self.plots[self.cursor];
                assert(plot@ == self@.plots[self.cursor as int]);
                let chunk: Chunk = plot.plan_read(buffer.capacity, self.scoop);
                self.due = Action::Fill { plot: self.cursor, chunk, buffer };
            },
            (Action::Fill { chunk, buffer, .. }, Event::Filled { ok }) => {
                if ok {
                    let mut plot: Plot = self.plots[self.cursor];
                    assert(plot@ == self@.plots[self.cursor as int]);
                    let _ = plot.read(buffer.capacity, self.scoop, Ok::<(), ()>(()));
                    let ghost before = self@.plots;
                    self.plots.set(self.cursor, plot);
                    assert(views(self.plots@) =~= before.update(self.cursor as int, plot@));
                }
                let leaving: bool = !ok || chunk.finished;
                let reply = ReadReply {
                    buffer,
                    len: if ok {
                        chunk.len
                    } else {
                        0
                    },
                    height: self.height,
                    gensig: self.gensig,
                    start_nonce: if ok {
                        chunk.start_nonce
                    } else {
                        0
                    },
                    finished: leaving && self.cursor + 1 == self.plots.len(),
                };
                self.due = Action::Send { reply };
                self.leaving = leaving;
            },
            (Action::Send { reply }, Event::Sent) => {
                if reply.finished {
                    self.enter(self.cursor + 1);
                } else {
                    self.due = Action::Poll;
                }
            },
            (Action::Poll, Event::Polled { interrupted }) => {
                if interrupted {
                    self.due = Action::Stop;
                } else if self.leaving {
                    self.enter(self.cursor + 1);
                } else {
                    self.due = Action::TakeBuffer;
                }
            },
            _ => {},
        }
        self.due
    }
}

/// Behind every reply the task looks for the interrupt before it does
/// anything else, unless the reply was its last and the task is over.
pub proof fn lemma_poll_follows_reply(task: TaskView)
    requires
        task.wf(),
        task.due is Send,
    ensures
        task.after(Event::Sent).due is Poll || task.after(Event::Sent).due is Stop,
        task.after(Event::Sent).due is Poll <==> !(task.due->reply.finished),
{
}

/// A task that is to look for the interrupt does nothing until it is told
/// what the look has shown: no reply follows a reply without the look between them.
pub proof fn lemma_task_waits_for_poll(task: TaskView, events: Seq<Event>)
    requires
        task.due is Poll,
        forall|k: int| 0 <= k < events.len() ==> !((#[trigger] events[k]) is Polled),
    ensures
        task.after_all(events) == task,
    decreases events.len(),
{
    if events.len() > 0 {
        assert forall|k: int| 0 <= k < events.drop_last().len() implies !((
        #[trigger] events.drop_last()[k]) is Polled) by {
            assert(events.drop_last()[k] == events[k]);
        }
        lemma_task_waits_for_poll(task, events.drop_last());
        assert(!(events[events.len() - 1] is Polled));
    }
}

/// A task that has seen the interrupt stops, and a stopped task stays
/// stopped: whatever is reported to it, it asks for nothing and sends nothing.
pub proof fn lemma_interrupt_stops(task: TaskView, events: Seq<Event>)
    requires
        task.due is Poll || task.due is Stop,
    ensures
        task.after(Event::Polled { interrupted: true }).after_all(events) == (TaskView {
            due: Action::Stop,
            ..task
        }),
    decreases events.len(),
{
    if events.len() > 0 {
        lemma_interrupt_stops(task, events.drop_last());
    }
}

/// Plots are read in their order: a task never turns back to an earlier
/// plot, it moves on by one plot at a time, and what it asks for concerns
/// the plot at hand.
pub proof fn lemma_plots_in_order(task: TaskView, event: Event)
    requires
        task.wf(),
    ensures
        task.after(event).wf(),
        task.cursor <= task.after(event).cursor <= task.cursor + 1,
        task.after(event).plots.len() == task.plots.len(),
        task.after(event).due matches Action::Seek { plot, .. } ==> plot == task.after(
            event,
        ).cursor,
        task.after(event).due matches Action::Fill { plot, .. } ==> plot == task.after(
            event,
        ).cursor,
{
    if task.cursor < task.plots.len() {
        lemma_read_is_bounded(task.plots[task.cursor as int], 0);
        match task.due {
            Action::Fill { buffer, .. } => {
                lemma_read_is_bounded(task.plots[task.cursor as int], buffer.capacity as nat);
            },
            _ => {},
        }
    }
}

/// Over any run of events the cursor only moves forward.
pub proof fn lemma_cursor_moves_forward(task: TaskView, events: Seq<Event>)
    requires
        task.wf(),
    ensures
        task.after_all(events).wf(),
        task.cursor <= task.after_all(events).cursor,
        task.after_all(events).plots.len() == task.plots.len(),
    decreases events.len(),
{
    if events.len() > 0 {
        lemma_cursor_moves_forward(task, events.drop_last());
        lemma_plots_in_order(task.after_all(events.drop_last()), events.last());
    }
}

/// Whether no seek and no read failed and no interrupt was seen.
pub open spec fn undisturbed(events: Seq<Event>) -> bool {
    forall|k: int|
        0 <= k < events.len() ==> (#[trigger] events[k]) != (Event::Seeked { ok: false })
            && events[k] != (Event::Filled { ok: false }) && events[k] != (Event::Polled {
            interrupted: true,
        })
}

impl TaskView {
    /// Every plot that the task has left was read to its end, and so is the
    /// plot at hand once its last chunk is read.
    pub open spec fn thorough(self) -> bool {
        &&& forall|i: int| 0 <= i < self.cursor ==> (#[trigger] self.plots[i]).spent()
        &&& self.due is Send || self.due is Poll ==> (self.leaving
            ==> self.plots[self.cursor as int].spent())
        &&& self.due is Stop ==> self.cursor == self.plots.len()
    }
}

/// A round that nothing disturbs reads every plot to its end: a task leaves
/// a plot only behind the read that finishes the scoop's region, and stops
/// only behind the last plot.
pub proof fn lemma_undisturbed_round_is_thorough(
    plots: Seq<PlotView>,
    height: u64,
    scoop: u32,
    gensig: [u8; 32],
    events: Seq<Event>,
)
    requires
        all_wf(plots),
        plots.len() <= usize::MAX,
        scoop < SCOOPS_IN_NONCE,
        undisturbed(events),
    ensures
        TaskView::start(plots, height, scoop, gensig).after_all(events).thorough(),
        TaskView::start(plots, height, scoop, gensig).after_all(events).wf(),
    decreases events.len(),
{
    let start = TaskView::start(plots, height, scoop, gensig);
    if plots.len() > 0 {
        lemma_read_is_bounded(plots[0], 0);
    }
    if events.len() > 0 {
        let before = start.after_all(events.drop_last());
        let event = events.last();
        assert forall|k: int| 0 <= k < events.drop_last().len() implies (
        #[trigger] events.drop_last()[k]) != (Event::Seeked { ok: false }) && events.drop_last()[k]
            != (Event::Filled { ok: false }) && events.drop_last()[k] != (Event::Polled {
            interrupted: true,
        }) by {
            assert(events.drop_last()[k] == events[k]);
        }
        lemma_undisturbed_round_is_thorough(plots, height, scoop, gensig, events.drop_last());
        lemma_plots_in_order(before, event);
        assert(events[events.len() - 1] == event);
        if before.cursor < before.plots.len() {
            let plot = before.plots[before.cursor as int];
            match before.due {
                Action::Fill { buffer, .. } => {
                    if plot.chunk_finished(buffer.capacity as nat) {
                        lemma_finished_read_spends(plot, buffer.capacity as nat);
                    }
                },
                _ => {},
            }
        }
    }
}

/// Whether no seek failed and no interrupt was seen. Reads may have failed.
pub open spec fn unbroken(events: Seq<Event>) -> bool {
    forall|k: int|
        0 <= k < events.len() ==> (#[trigger] events[k]) != (Event::Seeked { ok: false })
            && events[k] != (Event::Polled { interrupted: true })
}

/// Bytes in all the replies.
pub open spec fn total_len(replies: Seq<ReadReply>) -> nat
    decreases replies.len(),
{
    if replies.len() == 0 {
        0
    } else {
        total_len(replies.drop_last()) + replies.last().len as nat
    }
}

/// The nonce of the scoop that lies `offset` bytes into a region of `plot`,
/// counted modulo 2^64.
pub open spec fn nonce_at(plot: PlotView, offset: nat) -> nat {
    (PlotView { read_offset: offset, ..plot }).chunk_start_nonce()
}

/// Each reply begins at the nonce that follows the scoops of the replies before it.
pub open spec fn chained(plot: PlotView, replies: Seq<ReadReply>) -> bool {
    forall|k: int|
        0 <= k < replies.len() ==> (#[trigger] replies[k]).start_nonce == nonce_at(
            plot,
            total_len(replies.take(k)),
        )
}

impl TaskView {
    /// The reply that leaves the task with `event`, if one does.
    pub open spec fn sent_by(self, event: Event) -> Option<ReadReply> {
        match (self.due, event) {
            (Action::Send { reply }, Event::Sent) => Some(reply),
            _ => None,
        }
    }

    /// The replies that leave the task over the events `events`, in their order.
    pub open spec fn replies(self, events: Seq<Event>) -> Seq<ReadReply>
        decreases events.len(),
    {
        if events.len() == 0 {
            Seq::empty()
        } else {
            let earlier = self.replies(events.drop_last());
            match self.after_all(events.drop_last()).sent_by(events.last()) {
                Some(reply) => earlier.push(reply),
                None => earlier,
            }
        }
    }

    /// Those of the replies that are made from plot number `i`.
    pub open spec fn replies_from(self, events: Seq<Event>, i: nat) -> Seq<ReadReply>
        decreases events.len(),
    {
        if events.len() == 0 {
            Seq::empty()
        } else {
            let earlier = self.replies_from(events.drop_last(), i);
            let before = self.after_all(events.drop_last());
            match before.sent_by(events.last()) {
                Some(reply) => if before.cursor == i {
                    earlier.push(reply)
                } else {
                    earlier
                },
                None => earlier,
            }
        }
    }

    /// Whether the plots are `plots`, but for where their cursors stand.
    pub open spec fn reads(self, plots: Seq<PlotView>) -> bool {
        &&& self.plots.len() == plots.len()
        &&& forall|j: int|
            0 <= j < plots.len() ==> (#[trigger] self.plots[j]) == (PlotView {
                read_offset: self.plots[j].read_offset,
                ..plots[j]
            })
    }

    /// The reply that is made from plot number `i` and has not left yet.
    pub open spec fn pending(self, i: nat) -> Option<ReadReply> {
        match self.due {
            Action::Send { reply } => if self.cursor == i {
                Some(reply)
            } else {
                None
            },
            _ => None,
        }
    }

    /// Whether the replies `sent` are what has left the task from plot
    /// number `i` of `plots`, read buffered and without a failure: none
    /// before the task has come to the plot; then as many bytes as lie
    /// behind the plot's cursor, but for those of the pending reply; the
    /// whole region once the task has left the plot.
    pub open spec fn books(self, plots: Seq<PlotView>, sent: Seq<ReadReply>, i: nat) -> bool {
        let plot = self.plots[i as int];
        &&& self.reads(plots)
        &&& chained(plots[i as int], sent)
        &&& i < self.cursor ==> total_len(sent) == plots[i as int].region_len()
        &&& i == self.cursor ==> {
            &&& plot.read_offset <= plot.region_len()
            &&& match self.pending(i) {
                Some(reply) => total_len(sent) + reply.len == plot.read_offset
                    && reply.start_nonce == nonce_at(plots[i as int], total_len(sent)),
                None => total_len(sent) == plot.read_offset,
            }
            &&& (self.due is Send || self.due is Poll) && self.leaving ==> plot.read_offset
                == plot.region_len()
        }
        &&& i > self.cursor ==> sent.len() == 0
    }
}

/// The start of a round is a well-formed task.
pub proof fn lemma_start_is_wf(plots: Seq<PlotView>, height: u64, scoop: u32, gensig: [u8; 32])
    requires
        all_wf(plots),
        plots.len() <= usize::MAX,
        scoop < SCOOPS_IN_NONCE,
    ensures
        TaskView::start(plots, height, scoop, gensig).wf(),
{
    if plots.len() > 0 {
        lemma_read_is_bounded(plots[0], 0);
    }
}

/// A task sends one reply that is marked as its last, and it is its last:
/// over a run in which no seek fails and no interrupt is seen, no reply
/// but the last is marked, and the task stops exactly behind a marked reply.
pub proof fn lemma_one_finished_reply(
    plots: Seq<PlotView>,
    height: u64,
    scoop: u32,
    gensig: [u8; 32],
    events: Seq<Event>,
)
    requires
        all_wf(plots),
        0 < plots.len() <= usize::MAX,
        scoop < SCOOPS_IN_NONCE,
        unbroken(events),
    ensures
        ({
            let start = TaskView::start(plots, height, scoop, gensig);
            let sent = start.replies(events);
            &&& forall|k: int| 0 <= k < sent.len() - 1 ==> !(#[trigger] sent[k]).finished
            &&& start.after_all(events).due is Stop <==> sent.len() > 0 && sent.last().finished
        }),
    decreases events.len(),
{
    let start = TaskView::start(plots, height, scoop, gensig);
    lemma_start_is_wf(plots, height, scoop, gensig);
    if events.len() > 0 {
        let earlier = events.drop_last();
        assert forall|k: int| 0 <= k < earlier.len() implies (#[trigger] earlier[k]) != (
        Event::Seeked { ok: false }) && earlier[k] != (Event::Polled { interrupted: true }) by {
            assert(earlier[k] == events[k]);
        }
        lemma_one_finished_reply(plots, height, scoop, gensig, earlier);
        lemma_cursor_moves_forward(start, earlier);
        let before = start.after_all(earlier);
        let sent = start.replies(earlier);
        let event = events.last();
        assert(events[events.len() - 1] == event);
        lemma_plots_in_order(before, event);
        match before.sent_by(event) {
            Some(reply) => {
                let more = sent.push(reply);
                assert(more.last() == reply);
                assert forall|k: int| 0 <= k < more.len() - 1 implies !(
                #[trigger] more[k]).finished by {
                    assert(more[k] == sent[k]);
                }
            },
            None => {},
        }
    }
}

/// One more reply begins where the replies before it end.
proof fn lemma_chained_push(plot: PlotView, sent: Seq<ReadReply>, reply: ReadReply)
    requires
        chained(plot, sent),
        reply.start_nonce == nonce_at(plot, total_len(sent)),
    ensures
        chained(plot, sent.push(reply)),
        total_len(sent.push(reply)) == total_len(sent) + reply.len,
{
    let more = sent.push(reply);
    assert(more.drop_last() =~= sent);
    assert forall|k: int| 0 <= k < more.len() implies (#[trigger] more[k]).start_nonce
        == nonce_at(plot, total_len(more.take(k))) by {
        if k < sent.len() {
            assert(more.take(k) =~= sent.take(k));
            assert(more[k] == sent[k]);
        } else {
            assert(more.take(k) =~= sent);
        }
    }
}

/// One event keeps the books of a plot.
proof fn lemma_books_step(
    plots: Seq<PlotView>,
    task: TaskView,
    sent: Seq<ReadReply>,
    i: nat,
    event: Event,
)
    requires
        task.wf(),
        i < plots.len(),
        forall|j: int| 0 <= j < plots.len() ==> !(#[trigger] plots[j]).aligns(),
        task.books(plots, sent, i),
        event != (Event::Seeked { ok: false }),
        event != (Event::Filled { ok: false }),
        event != (Event::Polled { interrupted: true }),
    ensures
        task.after(event).books(
            plots,
            match task.sent_by(event) {
                Some(reply) => if task.cursor == i {
                    sent.push(reply)
                } else {
                    sent
                },
                None => sent,
            },
            i,
        ),
{
    let after = task.after(event);
    lemma_plots_in_order(task, event);
    if task.cursor < task.plots.len() {
        let c = task.cursor as int;
        let plot = task.plots[c];
        assert(plot == (PlotView { read_offset: plot.read_offset, ..plots[c] }));
        assert(!plots[c].aligns());
        if c + 1 < plots.len() {
            assert(!plots[c + 1].aligns());
            assert(task.plots[c + 1] == (PlotView {
                read_offset: task.plots[c + 1].read_offset,
                ..plots[c + 1]
            }));
        }
        match task.due {
            Action::Fill { buffer, .. } => {
                lemma_read_is_bounded(plot, buffer.capacity as nat);
            },
            _ => {},
        }
        match task.sent_by(event) {
            Some(reply) => {
                if task.cursor == i {
                    lemma_chained_push(plots[i as int], sent, reply);
                }
            },
            None => {},
        }
        assert forall|j: int| 0 <= j < plots.len() implies (#[trigger] after.plots[j]) == (
        PlotView { read_offset: after.plots[j].read_offset, ..plots[j] }) by {
            assert(task.plots[j] == (PlotView {
                read_offset: task.plots[j].read_offset,
                ..plots[j]
            }));
        }
    }
}

/// The books of a plot are kept over a whole undisturbed run.
proof fn lemma_books(
    plots: Seq<PlotView>,
    height: u64,
    scoop: u32,
    gensig: [u8; 32],
    events: Seq<Event>,
    i: nat,
)
    requires
        all_wf(plots),
        plots.len() <= usize::MAX,
        scoop < SCOOPS_IN_NONCE,
        undisturbed(events),
        i < plots.len(),
        forall|j: int| 0 <= j < plots.len() ==> !(#[trigger] plots[j]).aligns(),
    ensures
        ({
            let start = TaskView::start(plots, height, scoop, gensig);
            start.after_all(events).wf() && start.after_all(events).books(
                plots,
                start.replies_from(events, i),
                i,
            )
        }),
    decreases events.len(),
{
    let start = TaskView::start(plots, height, scoop, gensig);
    lemma_start_is_wf(plots, height, scoop, gensig);
    if events.len() == 0 {
        assert(!plots[0].aligns());
        assert forall|j: int| 0 <= j < plots.len() implies (#[trigger] start.plots[j]) == (
        PlotView { read_offset: start.plots[j].read_offset, ..plots[j] }) by {}
    } else {
        let earlier = events.drop_last();
        assert forall|k: int| 0 <= k < earlier.len() implies (#[trigger] earlier[k]) != (
        Event::Seeked { ok: false }) && earlier[k] != (Event::Filled { ok: false }) && earlier[k]
            != (Event::Polled { interrupted: true }) by {
            assert(earlier[k] == events[k]);
        }
        lemma_books(plots, height, scoop, gensig, earlier, i);
        assert(events[events.len() - 1] == events.last());
        lemma_books_step(
            plots,
            start.after_all(earlier),
            start.replies_from(earlier, i),
            i,
            events.last(),
        );
        lemma_plots_in_order(start.after_all(earlier), events.last());
    }
}

/// A round that nothing disturbs sends every byte once: where plots are
/// read buffered and the task has run to its end, the replies made from a
/// plot hold as many bytes as the scoop's region has, and each begins at
/// the nonce that follows the scoops of the replies before it.
pub proof fn lemma_round_sends_every_byte_once(
    plots: Seq<PlotView>,
    height: u64,
    scoop: u32,
    gensig: [u8; 32],
    events: Seq<Event>,
    i: nat,
)
    requires
        all_wf(plots),
        plots.len() <= usize::MAX,
        scoop < SCOOPS_IN_NONCE,
        undisturbed(events),
        i < plots.len(),
        forall|j: int| 0 <= j < plots.len() ==> !(#[trigger] plots[j]).aligns(),
        TaskView::start(plots, height, scoop, gensig).after_all(events).due is Stop,
    ensures
        ({
            let sent = TaskView::start(plots, height, scoop, gensig).replies_from(events, i);
            &&& total_len(sent) == plots[i as int].nonces * 64
            &&& chained(plots[i as int], sent)
        }),
{
    lemma_books(plots, height, scoop, gensig, events, i);
    lemma_undisturbed_round_is_thorough(plots, height, scoop, gensig, events);
}

} // verus!
