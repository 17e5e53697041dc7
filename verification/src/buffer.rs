//! The buffers that carry scoops from the readers to the workers.
//!
//! Every worker owns two buffers of its kind, made once at startup. A buffer
//! is empty in the pool, or filled and queued for a worker of its kind, or
//! held by a worker that hashes it; then it is empty again. The pool here is
//! the ledger of that cycle: it counts, it does not hold memory.

use vstd::prelude::*;

verus! {

/// Which workers a buffer feeds.
#[derive(Clone, Copy, Debug, PartialEq, Eq)]
pub enum BufferKind {
    Cpu,
    Gpu,
}

/// What the pipeline has to know of a buffer: its kind and how many bytes it takes.
#[derive(Clone, Copy, Debug, PartialEq, Eq)]
pub struct Buffer {
    pub kind: BufferKind,
    pub capacity: usize,
}

impl Buffer {
    pub fn is_gpu(&self) -> (r: bool)
        ensures
            r == (self.kind == BufferKind::Gpu),
    {
        match self.kind {
            BufferKind::Gpu => true,
            BufferKind::Cpu => false,
        }
    }
}

/// Where the buffers of one kind are.
pub struct Stock {
    /// All buffers of the kind.
    pub total: nat,
    /// Those in the pool.
    pub empty: nat,
    /// Those in the kind's reply queue.
    pub filled: nat,
    /// Those that a worker holds.
    pub held: nat,
}

impl Stock {
    pub open spec fn conserved(self) -> bool {
        self.empty + self.filled + self.held == self.total
    }
}

/// The pool as contracts see it.
pub struct PoolView {
    pub cpu: Stock,
    pub gpu: Stock,
    pub cpu_buffer_size: nat,
    pub gpu_buffer_size: nat,
}

impl PoolView {
    pub open spec fn stock(self, kind: BufferKind) -> Stock {
        match kind {
            BufferKind::Cpu => self.cpu,
            BufferKind::Gpu => self.gpu,
        }
    }

    pub open spec fn with_stock(self, kind: BufferKind, stock: Stock) -> PoolView {
        match kind {
            BufferKind::Cpu => PoolView { cpu: stock, ..self },
            BufferKind::Gpu => PoolView { gpu: stock, ..self },
        }
    }

    /// All buffers, of both kinds.
    pub open spec fn capacity(self) -> nat {
        self.cpu.total + self.gpu.total
    }

    /// No buffer is ever made or lost, and their number fits the machine.
    pub open spec fn wf(self) -> bool {
        &&& self.cpu.conserved()
        &&& self.gpu.conserved()
        &&& self.capacity() <= usize::MAX
        &&& self.cpu_buffer_size <= usize::MAX
        &&& self.gpu_buffer_size <= usize::MAX
    }

    /// The pool at startup: two buffers for each worker, all empty.
    pub open spec fn fresh(
        cpu_workers: nat,
        gpu_workers: nat,
        cpu_buffer_size: nat,
        gpu_buffer_size: nat,
    ) -> PoolView {
        PoolView {
            cpu: Stock { total: 2 * cpu_workers, empty: 2 * cpu_workers, filled: 0, held: 0 },
            gpu: Stock { total: 2 * gpu_workers, empty: 2 * gpu_workers, filled: 0, held: 0 },
            cpu_buffer_size,
            gpu_buffer_size,
        }
    }

    /// A reader takes an empty buffer of `kind`, fills it and queues it.
    pub open spec fn filled(self, kind: BufferKind) -> PoolView {
        let s = self.stock(kind);
        if s.empty > 0 {
            self.with_stock(
                kind,
                Stock { empty: (s.empty - 1) as nat, filled: s.filled + 1, ..s },
            )
        } else {
            self
        }
    }

    /// A worker takes a filled buffer of `kind` off its queue.
    pub open spec fn taken(self, kind: BufferKind) -> PoolView {
        let s = self.stock(kind);
        if s.filled > 0 {
            self.with_stock(kind, Stock { filled: (s.filled - 1) as nat, held: s.held + 1, ..s })
        } else {
            self
        }
    }

    /// A worker hands a buffer of `kind` back to the pool.
    pub open spec fn recycled(self, kind: BufferKind) -> PoolView {
        let s = self.stock(kind);
        if s.held > 0 {
            self.with_stock(kind, Stock { held: (s.held - 1) as nat, empty: s.empty + 1, ..s })
        } else {
            self
        }
    }

    /// The buffers in the order in which the pool is filled at startup: those
    /// for the GPU workers, then those for the CPU workers.
    pub open spec fn population(self) -> Seq<Buffer> {
        Seq::new(
            self.capacity(),
            |i: int|
                if i < self.gpu.total {
                    Buffer { kind: BufferKind::Gpu, capacity: self.gpu_buffer_size as usize }
                } else {
                    Buffer { kind: BufferKind::Cpu, capacity: self.cpu_buffer_size as usize }
                },
        )
    }
}

/// The count of one kind's buffers.
#[derive(Clone, Copy, Debug, PartialEq, Eq)]
struct Counts {
    total: usize,
    empty: usize,
    filled: usize,
    held: usize,
}

impl View for Counts {
    type V = Stock;

    closed spec fn view(&self) -> Stock {
        Stock {
            total: self.total as nat,
            empty: self.empty as nat,
            filled: self.filled as nat,
            held: self.held as nat,
        }
    }
}

/// The ledger of all buffers.
#[derive(Clone, Copy, Debug, PartialEq, Eq)]
pub struct BufferPool {
    cpu: Counts,
    gpu: Counts,
    cpu_buffer_size: usize,
    gpu_buffer_size: usize,
}

impl View for BufferPool {
    type V = PoolView;

    closed spec fn view(&self) -> PoolView {
        PoolView {
            cpu: self.cpu@,
            gpu: self.gpu@,
            cpu_buffer_size: self.cpu_buffer_size as nat,
            gpu_buffer_size: self.gpu_buffer_size as nat,
        }
    }
}

impl BufferPool {
    /// The pool for the given numbers of workers, with every buffer empty.
    pub fn new(
        cpu_workers: usize,
        gpu_workers: usize,
        cpu_buffer_size: usize,
        gpu_buffer_size: usize,
    ) -> (pool: BufferPool)
        requires
            2 * cpu_workers + 2 * gpu_workers <= usize::MAX,
        ensures
            pool@ == PoolView::fresh(
                cpu_workers as nat,
                gpu_workers as nat,
                cpu_buffer_size as nat,
                gpu_buffer_size as nat,
            ),
            pool@.wf(),
    {
        let cpu_total: usize = cpu_workers * 2;
        let gpu_total: usize = gpu_workers * 2;
        BufferPool {
            cpu: Counts { total: cpu_total, empty: cpu_total, filled: 0, held: 0 },
            gpu: Counts { total: gpu_total, empty: gpu_total, filled: 0, held: 0 },
            cpu_buffer_size,
            gpu_buffer_size,
        }
    }

    /// All buffers: the capacity of the pool's own channel.
    pub fn capacity(&self) -> (n: usize)
        requires
            self@.wf(),
        ensures
            n == self@.capacity(),
    {
        self.cpu.total + self.gpu.total
    }

    /// The buffers of `kind`: the capacity of that kind's reply queue.
    pub fn queue_capacity(&self, kind: BufferKind) -> (n: usize)
        ensures
            n == self@.stock(kind).total,
    {
        match kind {
            BufferKind::Cpu => self.cpu.total,
            BufferKind::Gpu => self.gpu.total,
        }
    }

    /// The buffers to make at startup, in the order in which they enter the pool.
    pub fn population(&self) -> (buffers: Vec<Buffer>)
        requires
            self@.wf(),
        ensures
            buffers@ == self@.population(),
    {
        let mut buffers: Vec<Buffer> = Vec::new();
        let mut i: usize = 0;
        while i < self.gpu.total
            invariant
                i <= self.gpu.total,
                buffers@ == self@.population().take(i as int),
                self@.wf(),
            decreases self.gpu.total - i,
        {
            buffers.push(Buffer { kind: BufferKind::Gpu, capacity: self.gpu_buffer_size });
            i = i + 1;
            assert(buffers@ =~= self@.population().take(i as int));
        }
        let mut j: usize = 0;
        while j < self.cpu.total
            invariant
                j <= self.cpu.total,
                buffers@ == self@.population().take(self.gpu.total + j),
                self@.wf(),
            decreases self.cpu.total - j,
        {
            buffers.push(Buffer { kind: BufferKind::Cpu, capacity: self.cpu_buffer_size });
            j = j + 1;
            assert(buffers@ =~= self@.population().take(self.gpu.total + j));
        }
        assert(buffers@ =~= self@.population());
        buffers
    }

    /// Books that a reader took an empty buffer of `kind`, filled it and put
    /// it in the kind's reply queue. Returns whether there was one to take:
    /// where there is none, nothing changes and the reader has to wait.
    pub fn fill(&mut self, kind: BufferKind) -> (moved: bool)
        requires
            old(self)@.wf(),
        ensures
            moved == (old(self)@.stock(kind).empty > 0),
            final(self)@ == old(self)@.filled(kind),
            final(self)@.wf(),
    {
        match kind {
            BufferKind::Cpu => {
                if self.cpu.empty == 0 {
                    return false;
                }
                self.cpu.empty = self.cpu.empty - 1;
                self.cpu.filled = self.cpu.filled + 1;
            },
            BufferKind::Gpu => {
                if self.gpu.empty == 0 {
                    return false;
                }
                self.gpu.empty = self.gpu.empty - 1;
                self.gpu.filled = self.gpu.filled + 1;
            },
        }
        true
    }

    /// Books that a worker took a filled buffer of `kind` off its queue.
    /// Returns whether there was one to take.
    pub fn take(&mut self, kind: BufferKind) -> (moved: bool)
        requires
            old(self)@.wf(),
        ensures
            moved == (old(self)@.stock(kind).filled > 0),
            final(self)@ == old(self)@.taken(kind),
            final(self)@.wf(),
    {
        match kind {
            BufferKind::Cpu => {
                if self.cpu.filled == 0 {
                    return false;
                }
                self.cpu.filled = self.cpu.filled - 1;
                self.cpu.held = self.cpu.held + 1;
            },
            BufferKind::Gpu => {
                if self.gpu.filled == 0 {
                    return false;
                }
                self.gpu.filled = self.gpu.filled - 1;
                self.gpu.held = self.gpu.held + 1;
            },
        }
        true
    }

    /// Books that a worker handed a buffer of `kind` back to the pool.
    /// Returns whether a worker held one.
    pub fn recycle(&mut self, kind: BufferKind) -> (moved: bool)
        requires
            old(self)@.wf(),
        ensures
            moved == (old(self)@.stock(kind).held > 0),
            final(self)@ == old(self)@.recycled(kind),
            final(self)@.wf(),
    {
        match kind {
            BufferKind::Cpu => {
                if self.cpu.held == 0 {
                    return false;
                }
                self.cpu.held = self.cpu.held - 1;
                self.cpu.empty = self.cpu.empty + 1;
            },
            BufferKind::Gpu => {
                if self.gpu.held == 0 {
                    return false;
                }
                self.gpu.held = self.gpu.held - 1;
                self.gpu.empty = self.gpu.empty + 1;
            },
        }
        true
    }

    /// How many buffers of `kind` lie empty in the pool.
    pub fn empty(&self, kind: BufferKind) -> (n: usize)
        ensures
            n == self@.stock(kind).empty,
    {
        match kind {
            BufferKind::Cpu => self.cpu.empty,
            BufferKind::Gpu => self.gpu.empty,
        }
    }

    /// How many buffers of `kind` wait in the kind's reply queue.
    pub fn filled(&self, kind: BufferKind) -> (n: usize)
        ensures
            n == self@.stock(kind).filled,
    {
        match kind {
            BufferKind::Cpu => self.cpu.filled,
            BufferKind::Gpu => self.gpu.filled,
        }
    }

    /// How many buffers of `kind` the workers hold.
    pub fn held(&self, kind: BufferKind) -> (n: usize)
        ensures
            n == self@.stock(kind).held,
    {
        match kind {
            BufferKind::Cpu => self.cpu.held,
            BufferKind::Gpu => self.gpu.held,
        }
    }
}

/// One movement of a buffer.
pub enum Move {
    Fill(BufferKind),
    Take(BufferKind),
    Recycle(BufferKind),
}

impl PoolView {
    /// The pool after one movement.
    pub open spec fn moved(self, m: Move) -> PoolView {
        match m {
            Move::Fill(kind) => self.filled(kind),
            Move::Take(kind) => self.taken(kind),
            Move::Recycle(kind) => self.recycled(kind),
        }
    }

    /// The pool after the movements `moves`, one after another.
    pub open spec fn after(self, moves: Seq<Move>) -> PoolView
        decreases moves.len(),
    {
        if moves.len() == 0 {
            self
        } else {
            self.after(moves.drop_last()).moved(moves.last())
        }
    }

    /// Buffers that are somewhere: in the pool, in a reply queue or with a worker.
    pub open spec fn accounted(self) -> nat {
        self.cpu.empty + self.cpu.filled + self.cpu.held + self.gpu.empty + self.gpu.filled
            + self.gpu.held
    }
}

/// Buffers are conserved: whatever readers and workers do, and in whatever
/// order, the buffers in the pool, in the reply queues and with the workers
/// add up to those made at startup, kind by kind and in all.
pub proof fn lemma_buffers_conserved(
    cpu_workers: nat,
    gpu_workers: nat,
    cpu_buffer_size: nat,
    gpu_buffer_size: nat,
    moves: Seq<Move>,
)
    ensures
        ({
            let start = PoolView::fresh(cpu_workers, gpu_workers, cpu_buffer_size, gpu_buffer_size);
            let now = start.after(moves);
            &&& now.cpu.conserved()
            &&& now.gpu.conserved()
            &&& now.cpu.total == 2 * cpu_workers
            &&& now.gpu.total == 2 * gpu_workers
            &&& now.accounted() == 2 * cpu_workers + 2 * gpu_workers
        }),
    decreases moves.len(),
{
    if moves.len() > 0 {
        lemma_buffers_conserved(
            cpu_workers,
            gpu_workers,
            cpu_buffer_size,
            gpu_buffer_size,
            moves.drop_last(),
        );
    }
}

/// No queue can overflow: a reply queue that holds as many replies as there
/// are buffers of its kind, and a pool that holds as many as there are
/// buffers, always have room for the buffer that arrives.
pub proof fn lemma_queues_have_room(pool: PoolView, kind: BufferKind)
    requires
        pool.wf(),
    ensures
        pool.stock(kind).filled <= pool.stock(kind).total,
        pool.cpu.empty + pool.gpu.empty <= pool.capacity(),
{
}

} // verus!
