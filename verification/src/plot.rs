//! One plot file: its identity, its layout on disk and the cursor of a read.
//!
//! A plot holds `nonces` nonces of [`SCOOPS_IN_NONCE`] scoops each, stored
//! scoop by scoop: scoop `s` of every nonce lies in one stretch of
//! `nonces * SCOOP_SIZE` bytes that starts at `s * nonces * SCOOP_SIZE`. That
//! stretch is the scoop's region. A round reads one region per plot, in
//! chunks as large as the buffer at hand.

use crate::decimal::{parse_u64, parse_u64_spec};
use crate::fields::{chars_of, split, split_spans};
use crate::random::random_in_range;
use vstd::arithmetic::div_mod::{
    lemma_add_mod_noop, lemma_mod_decreases, lemma_mod_twice, lemma_small_mod, lemma_sub_mod_noop,
};
use vstd::prelude::*;

verus! {

/// Scoops in one nonce.
pub const SCOOPS_IN_NONCE: u64 = 4096;

/// Bytes in one Shabal-256 hash.
pub const SHABAL256_HASH_SIZE: u64 = 32;

/// Bytes in one scoop: two hashes.
pub const SCOOP_SIZE: u64 = 64;

/// Bytes in one nonce: all its scoops.
pub const NONCE_SIZE: u64 = 262144;

/// The character between the fields of a plot file's name.
pub const SEPARATOR: char = '_';

/// Why a file is no plot.
#[derive(Clone, Copy, Debug, PartialEq, Eq)]
pub enum PlotError {
    /// The name does not consist of three fields.
    WrongFormat,
    /// A field of the name is not a number that fits in 64 bits.
    InvalidNumber,
    /// The file does not hold as many bytes as its name announces.
    SizeMismatch { expected: u128, actual: u64 },
}

/// What the file system tells of a plot file.
#[derive(Clone, Copy, Debug, PartialEq, Eq)]
pub struct FileMeta {
    /// The number under which the caller keeps the open file.
    pub fh: usize,
    /// Length of the file in bytes.
    pub size: u64,
    /// Sector size of the device that holds the file; 0 if unknown.
    pub sector_size: u64,
    /// Time of the last modification, in seconds since the epoch.
    pub modified: i64,
}

/// A plot file and the cursor of the read in progress.
#[derive(Clone, Copy, Debug, PartialEq, Eq)]
pub struct Plot {
    account_id: u64,
    start_nonce: u64,
    nonces: u64,
    fh: usize,
    read_offset: u64,
    use_direct_io: bool,
    sector_size: u64,
    dummy: bool,
    modified: i64,
}

/// One read of a plot, as planned: from where, how much, and what it holds.
#[derive(Clone, Copy, Debug, PartialEq, Eq)]
pub struct Chunk {
    /// Where in the file the read begins.
    pub seek_addr: u64,
    /// Bytes to read.
    pub len: usize,
    /// The nonce of the first scoop read.
    pub start_nonce: u64,
    /// Whether this read is the last of the scoop's region.
    pub finished: bool,
}

/// A plot as contracts see it.
pub struct PlotView {
    pub account_id: nat,
    pub start_nonce: nat,
    pub nonces: nat,
    /// The number under which the caller keeps the open file.
    pub fh: nat,
    /// Bytes of the current scoop region that lie behind the cursor.
    pub read_offset: nat,
    pub use_direct_io: bool,
    pub sector_size: nat,
    pub dummy: bool,
    pub modified: int,
}

impl View for Plot {
    type V = PlotView;

    closed spec fn view(&self) -> PlotView {
        PlotView {
            account_id: self.account_id as nat,
            start_nonce: self.start_nonce as nat,
            nonces: self.nonces as nat,
            fh: self.fh as nat,
            read_offset: self.read_offset as nat,
            use_direct_io: self.use_direct_io,
            sector_size: self.sector_size as nat,
            dummy: self.dummy,
            modified: self.modified as int,
        }
    }
}

/// The least multiple of `unit` that is not below `addr`, as a distance from `addr`.
pub open spec fn gap_to_multiple(addr: nat, unit: nat) -> nat {
    if unit == 0 || addr % unit == 0 {
        0
    } else {
        (unit - addr % unit) as nat
    }
}

impl PlotView {
    /// What holds of every plot: its fields fit in 64 bits, and so does its
    /// length in bytes; unbuffered reads are on only where the plot has at
    /// least a sector's worth of nonces; and the cursor is not past the last nonce.
    pub open spec fn wf(self) -> bool {
        &&& self.account_id <= u64::MAX
        &&& self.start_nonce <= u64::MAX
        &&& self.fh <= usize::MAX
        &&& self.sector_size <= u64::MAX
        &&& i64::MIN <= self.modified <= i64::MAX
        &&& self.nonces * NONCE_SIZE <= u64::MAX
        &&& self.use_direct_io ==> self.sector_size / (SCOOP_SIZE as nat) <= self.nonces
        &&& self.read_offset / (SCOOP_SIZE as nat) <= self.nonces
    }

    /// Bytes in the region of one scoop.
    pub open spec fn region_len(self) -> nat {
        self.nonces * (SCOOP_SIZE as nat)
    }

    /// Where the region of `scoop` begins in the file.
    pub open spec fn region_start(self, scoop: nat) -> nat {
        scoop * self.nonces * (SCOOP_SIZE as nat)
    }

    /// Whether reads are moved to sector boundaries.
    pub open spec fn aligns(self) -> bool {
        self.use_direct_io && self.sector_size != 0
    }

    /// Bytes between `addr` and the next position a read may start at.
    pub open spec fn gap(self, addr: nat) -> nat {
        if self.aligns() {
            gap_to_multiple(addr, self.sector_size)
        } else {
            0
        }
    }

    /// Where the first read of `scoop` begins in the file.
    pub open spec fn first_seek(self, scoop: nat) -> nat {
        self.region_start(scoop) + self.gap(self.region_start(scoop))
    }

    /// The plot with its cursor at the first read of `scoop`.
    pub open spec fn prepared(self, scoop: nat) -> PlotView {
        PlotView { read_offset: self.gap(self.region_start(scoop)), ..self }
    }

    /// Bytes of the region that lie ahead of the cursor.
    pub open spec fn remaining(self) -> nat {
        if self.read_offset <= self.region_len() {
            (self.region_len() - self.read_offset) as nat
        } else {
            0
        }
    }

    /// Whether a read into a buffer of `cap` bytes is the region's last.
    pub open spec fn chunk_finished(self, cap: nat) -> bool {
        cap >= self.remaining()
    }

    /// Bytes at the region's end that no read delivers: what is left over
    /// behind the last full sector when reads must end on a sector boundary.
    pub open spec fn lost_tail(self) -> nat {
        if self.aligns() {
            self.remaining() % self.sector_size
        } else {
            0
        }
    }

    /// Bytes that a read into a buffer of `cap` bytes delivers.
    pub open spec fn chunk_len(self, cap: nat) -> nat {
        if self.chunk_finished(cap) {
            (self.remaining() - self.lost_tail()) as nat
        } else {
            cap
        }
    }

    /// The nonce that the scoop at the cursor belongs to, counted modulo 2^64.
    pub open spec fn chunk_start_nonce(self) -> nat {
        (self.start_nonce + self.read_offset / (SCOOP_SIZE as nat)) % 0x1_0000_0000_0000_0000
    }

    /// The read of `scoop` into a buffer of `cap` bytes that is due at the cursor.
    pub open spec fn chunk(self, cap: nat, scoop: nat) -> Chunk {
        Chunk {
            seek_addr: (self.region_start(scoop) + self.read_offset) as u64,
            len: self.chunk_len(cap) as usize,
            start_nonce: self.chunk_start_nonce() as u64,
            finished: self.chunk_finished(cap),
        }
    }

    /// Whether the region has been read to its end: nothing is left, or,
    /// where reads are unbuffered, less than a sector.
    pub open spec fn spent(self) -> bool {
        if self.aligns() {
            self.remaining() < self.sector_size
        } else {
            self.remaining() == 0
        }
    }

    /// The plot after a read into a buffer of `cap` bytes.
    pub open spec fn advanced(self, cap: nat) -> PlotView {
        PlotView { read_offset: self.read_offset + self.chunk_len(cap), ..self }
    }

    /// Whether two plots of one account have a nonce in common. A plot
    /// without nonces has none in common with any.
    pub open spec fn overlaps(self, other: PlotView) -> bool {
        &&& self.nonces > 0
        &&& other.nonces > 0
        &&& self.account_id == other.account_id
        &&& self.start_nonce < other.start_nonce + other.nonces
        &&& other.start_nonce < self.start_nonce + self.nonces
    }

    /// Whether a read of some scoop may begin at `seek_addr`.
    pub open spec fn begins_scoop(self, seek_addr: nat) -> bool {
        exists|scoop: nat| scoop < SCOOPS_IN_NONCE && seek_addr == #[trigger] self.first_seek(scoop)
    }

    /// Whether the plot holds the nonce `n`.
    pub open spec fn holds_nonce(self, n: nat) -> bool {
        self.start_nonce <= n < self.start_nonce + self.nonces
    }

    /// The plot after reads into buffers of the sizes `caps`, one after another.
    pub open spec fn after_reads(self, caps: Seq<nat>) -> PlotView
        decreases caps.len(),
    {
        if caps.len() == 0 {
            self
        } else {
            self.after_reads(caps.drop_last()).advanced(caps.last())
        }
    }

    /// Bytes that reads into buffers of the sizes `caps` deliver in all.
    pub open spec fn delivered(self, caps: Seq<nat>) -> nat
        decreases caps.len(),
    {
        if caps.len() == 0 {
            0
        } else {
            self.delivered(caps.drop_last()) + self.after_reads(caps.drop_last()).chunk_len(
                caps.last(),
            )
        }
    }

    /// Whether `caps` are the buffers of one whole pass over a region: the
    /// read into the last of them is the first that finishes.
    pub open spec fn completes_with(self, caps: Seq<nat>) -> bool {
        &&& caps.len() > 0
        &&& forall|k: int|
            0 <= k < caps.len() - 1 ==> !(#[trigger] self.after_reads(caps.take(k))).chunk_finished(
                caps[k],
            )
        &&& self.after_reads(caps.drop_last()).chunk_finished(caps.last())
    }
}

/// A read never delivers more than the buffer holds nor more than is left,
/// and leaves a well-formed plot well-formed.
pub proof fn lemma_read_is_bounded(v: PlotView, cap: nat)
    requires
        v.wf(),
    ensures
        v.chunk_len(cap) <= cap,
        v.chunk_len(cap) <= v.remaining(),
        v.lost_tail() <= v.remaining(),
        v.advanced(cap).wf(),
{
    if v.aligns() {
        lemma_mod_decreases(v.remaining(), v.sector_size);
    }
}

/// Reading does not disturb what a plot is: only the cursor moves, by what
/// was delivered, and a well-formed plot stays so.
pub proof fn lemma_after_reads(v: PlotView, caps: Seq<nat>)
    requires
        v.wf(),
    ensures
        v.after_reads(caps).wf(),
        v.after_reads(caps) == (PlotView { read_offset: v.read_offset + v.delivered(caps), ..v }),
    decreases caps.len(),
{
    if caps.len() > 0 {
        lemma_after_reads(v, caps.drop_last());
        lemma_read_is_bounded(v.after_reads(caps.drop_last()), caps.last());
    }
}

/// Each read begins where the one before it ended: no byte is delivered
/// twice and none is skipped between two reads.
pub proof fn lemma_reads_adjoin(v: PlotView, caps: Seq<nat>, k: int)
    requires
        v.wf(),
        0 <= k < caps.len(),
    ensures
        v.after_reads(caps.take(k + 1)).read_offset == v.after_reads(caps.take(k)).read_offset
            + v.after_reads(caps.take(k)).chunk_len(caps[k]),
{
    assert(caps.take(k + 1).drop_last() =~= caps.take(k));
    assert(caps.take(k + 1).last() == caps[k]);
}

/// The read that finishes a region leaves it spent.
pub proof fn lemma_finished_read_spends(v: PlotView, cap: nat)
    requires
        v.wf(),
        v.chunk_finished(cap),
    ensures
        v.advanced(cap).spent(),
        v.advanced(cap).remaining() == v.lost_tail(),
{
    lemma_read_is_bounded(v, cap);
    if v.aligns() {
        vstd::arithmetic::div_mod::lemma_mod_bound(v.remaining() as int, v.sector_size as int);
    }
}

/// Every read that does not finish the region fills its buffer and leaves
/// the cursor inside the region.
pub proof fn lemma_unfinished_read(v: PlotView, cap: nat)
    requires
        v.wf(),
        !v.chunk_finished(cap),
    ensures
        v.chunk_len(cap) == cap,
        v.advanced(cap).read_offset < v.region_len(),
        v.advanced(cap).remaining() == v.remaining() - cap,
{
}

/// One whole pass over a region delivers it all, once: the reads cover the
/// bytes from the cursor's first position to the region's end, but for the
/// tail behind the last full sector where reads are unbuffered.
pub proof fn lemma_pass_covers_region(v: PlotView, caps: Seq<nat>)
    requires
        v.wf(),
        v.read_offset <= v.region_len(),
        v.completes_with(caps),
    ensures
        v.after_reads(caps).read_offset + v.after_reads(caps.drop_last()).lost_tail()
            == v.region_len(),
        v.delivered(caps) + v.after_reads(caps.drop_last()).lost_tail() == v.region_len()
            - v.read_offset,
        !v.aligns() ==> v.delivered(caps) == v.region_len() - v.read_offset,
        v.after_reads(caps).remaining() == v.after_reads(caps.drop_last()).lost_tail(),
{
    let init = caps.drop_last();
    let before = v.after_reads(init);
    lemma_after_reads(v, init);
    lemma_after_reads(v, caps);
    assert forall|k: int| 0 <= k < init.len() implies !(#[trigger] v.after_reads(
        init.take(k),
    )).chunk_finished(init[k]) by {
        assert(init.take(k) =~= caps.take(k));
    }
    lemma_cursor_stays_inside(v, init);
    lemma_read_is_bounded(before, caps.last());
}

/// A pass that begins with `prepare` delivers the scoop's region once, but
/// for what unbuffered reads leave out at both ends: the bytes before the
/// first sector boundary and those behind the last. Buffered reads leave
/// out nothing.
pub proof fn lemma_prepared_pass_covers_region(v: PlotView, scoop: nat, caps: Seq<nat>)
    requires
        v.wf(),
        scoop < SCOOPS_IN_NONCE,
        v.gap(v.region_start(scoop)) <= v.region_len(),
        v.prepared(scoop).completes_with(caps),
    ensures
        v.gap(v.region_start(scoop)) + v.prepared(scoop).delivered(caps) + v.prepared(
            scoop,
        ).after_reads(caps.drop_last()).lost_tail() == v.region_len(),
        !v.aligns() ==> v.prepared(scoop).delivered(caps) == v.region_len(),
        v.prepared(scoop).after_reads(caps).spent(),
{
    let p = v.prepared(scoop);
    assert(p.read_offset / (SCOOP_SIZE as nat) <= p.nonces);
    lemma_pass_covers_region(p, caps);
    lemma_after_reads(p, caps.drop_last());
    lemma_finished_read_spends(p.after_reads(caps.drop_last()), caps.last());
}

/// As long as no read has finished the region, the cursor is inside it.
pub proof fn lemma_cursor_stays_inside(v: PlotView, caps: Seq<nat>)
    requires
        v.wf(),
        v.read_offset <= v.region_len(),
        forall|k: int|
            0 <= k < caps.len() ==> !(#[trigger] v.after_reads(caps.take(k))).chunk_finished(
                caps[k],
            ),
    ensures
        v.after_reads(caps).read_offset <= v.region_len(),
    decreases caps.len(),
{
    if caps.len() > 0 {
        let init = caps.drop_last();
        assert forall|k: int| 0 <= k < init.len() implies !(#[trigger] v.after_reads(
            init.take(k),
        )).chunk_finished(init[k]) by {
            assert(init.take(k) =~= caps.take(k));
        }
        lemma_cursor_stays_inside(v, init);
        assert(caps.take(caps.len() - 1) =~= init);
        lemma_after_reads(v, init);
    }
}

/// Where every buffer but the last holds a whole number of sectors, the
/// tail that an unbuffered pass leaves unread depends on the plot alone.
pub proof fn lemma_lost_tail_is_fixed(v: PlotView, caps: Seq<nat>)
    requires
        v.wf(),
        v.aligns(),
        v.read_offset <= v.region_len(),
        v.completes_with(caps),
        forall|k: int| 0 <= k < caps.len() - 1 ==> #[trigger] caps[k] % v.sector_size == 0,
    ensures
        v.after_reads(caps.drop_last()).lost_tail() == (v.region_len() - v.read_offset)
            % (v.sector_size as int),
{
    let init = caps.drop_last();
    assert forall|k: int| 0 <= k < init.len() implies !(#[trigger] v.after_reads(
        init.take(k),
    )).chunk_finished(init[k]) by {
        assert(init.take(k) =~= caps.take(k));
    }
    lemma_whole_sector_reads(v, init);
    lemma_after_reads(v, init);
    lemma_cursor_stays_inside(v, init);
    let d = v.delivered(init) as int;
    let r = (v.region_len() - v.read_offset) as int;
    let m = v.sector_size as int;
    lemma_sub_mod_noop(r, d, m);
    lemma_mod_twice(r, m);
}

/// Unfinished reads into buffers of whole sectors deliver whole sectors.
pub proof fn lemma_whole_sector_reads(v: PlotView, caps: Seq<nat>)
    requires
        v.wf(),
        v.sector_size > 0,
        forall|k: int|
            0 <= k < caps.len() ==> !(#[trigger] v.after_reads(caps.take(k))).chunk_finished(
                caps[k],
            ),
        forall|k: int| 0 <= k < caps.len() ==> #[trigger] caps[k] % v.sector_size == 0,
    ensures
        v.delivered(caps) % v.sector_size == 0,
    decreases caps.len(),
{
    lemma_small_mod(0, v.sector_size);
    if caps.len() > 0 {
        let init = caps.drop_last();
        assert forall|k: int| 0 <= k < init.len() implies !(#[trigger] v.after_reads(
            init.take(k),
        )).chunk_finished(init[k]) by {
            assert(init.take(k) =~= caps.take(k));
        }
        lemma_whole_sector_reads(v, init);
        assert(caps.take(caps.len() - 1) =~= init);
        let a = v.delivered(init) as int;
        let b = caps.last() as int;
        let m = v.sector_size as int;
        assert(v.after_reads(init).chunk_len(caps.last()) == b);
        lemma_add_mod_noop(a, b, m);
    }
}

/// Overlap does not depend on which of the two plots is asked.
pub proof fn lemma_overlaps_symmetric(a: PlotView, b: PlotView)
    ensures
        a.overlaps(b) == b.overlaps(a),
{
}

/// Two plots overlap exactly if they are of one account and some nonce lies
/// in both.
pub proof fn lemma_overlaps_means_shared_nonce(a: PlotView, b: PlotView)
    ensures
        a.overlaps(b) <==> a.account_id == b.account_id && exists|n: nat|
            a.holds_nonce(n) && #[trigger] b.holds_nonce(n),
{
    if a.overlaps(b) {
        let n = if a.start_nonce >= b.start_nonce {
            a.start_nonce
        } else {
            b.start_nonce
        };
        assert(a.holds_nonce(n) && b.holds_nonce(n));
    }
}

/// The plots as contracts see them.
pub open spec fn views(plots: Seq<Plot>) -> Seq<PlotView> {
    plots.map_values(|p: Plot| p@)
}

/// Whether all of the plots are well-formed.
pub open spec fn all_wf(plots: Seq<PlotView>) -> bool {
    forall|i: int| 0 <= i < plots.len() ==> (#[trigger] plots[i]).wf()
}

/// The three numbers that a plot file's name holds: account, first nonce,
/// number of nonces.
pub open spec fn parse_name_spec(name: Seq<char>) -> Result<(u64, u64, u64), PlotError> {
    let f = split(name, SEPARATOR);
    if f.len() != 3 {
        Err(PlotError::WrongFormat)
    } else {
        match (parse_u64_spec(f[0]), parse_u64_spec(f[1]), parse_u64_spec(f[2])) {
            (Some(account_id), Some(start_nonce), Some(nonces)) => Ok(
                (account_id, start_nonce, nonces),
            ),
            _ => Err(PlotError::InvalidNumber),
        }
    }
}

/// The plot that a file of the given name and length is, if it is one.
pub open spec fn plot_spec(name: Seq<char>, file: FileMeta, use_direct_io: bool, dummy: bool)
    -> Result<PlotView, PlotError> {
    match parse_name_spec(name) {
        Err(e) => Err(e),
        Ok((account_id, start_nonce, nonces)) => {
            if nonces * NONCE_SIZE != file.size {
                Err(
                    PlotError::SizeMismatch {
                        expected: (nonces * NONCE_SIZE) as u128,
                        actual: file.size,
                    },
                )
            } else {
                Ok(
                    PlotView {
                        account_id: account_id as nat,
                        start_nonce: start_nonce as nat,
                        nonces: nonces as nat,
                        fh: file.fh as nat,
                        read_offset: 0,
                        use_direct_io: use_direct_io && file.sector_size / SCOOP_SIZE <= nonces,
                        sector_size: file.sector_size as nat,
                        dummy,
                        modified: file.modified as int,
                    },
                )
            }
        },
    }
}

/// What is made of a file is a well-formed plot.
pub proof fn lemma_plot_spec_wf(name: Seq<char>, file: FileMeta, use_direct_io: bool, dummy: bool)
    ensures
        plot_spec(name, file, use_direct_io, dummy) matches Ok(v) ==> v.wf() && v.read_offset == 0,
{
}

/// Reads the three numbers in a plot file's name.
pub fn parse_name(name: &str) -> (r: Result<(u64, u64, u64), PlotError>)
    ensures
        r == parse_name_spec(name@),
{
    let chars = chars_of(name);
    let spans = split_spans(&chars, SEPARATOR);
    if spans.len() != 3 {
        return Err(PlotError::WrongFormat);
    }
    let ghost f = split(name@, SEPARATOR);
    assert(f[0] == chars@.subrange(spans[0].start as int, spans[0].end as int));
    assert(f[1] == chars@.subrange(spans[1].start as int, spans[1].end as int));
    assert(f[2] == chars@.subrange(spans[2].start as int, spans[2].end as int));
    let account_id = parse_u64(&chars, spans[0].start, spans[0].end);
    let start_nonce = parse_u64(&chars, spans[1].start, spans[1].end);
    let nonces = parse_u64(&chars, spans[2].start, spans[2].end);
    match (account_id, start_nonce, nonces) {
        (Some(account_id), Some(start_nonce), Some(nonces)) => Ok(
            (account_id, start_nonce, nonces),
        ),
        _ => Err(PlotError::InvalidNumber),
    }
}

impl Plot {
    /// Makes the plot that the file `name` is. The name must read
    /// `<account>_<first nonce>_<nonces>` and the file must hold exactly
    /// `nonces * NONCE_SIZE` bytes. Unbuffered reads are given up for a plot
    /// that has fewer nonces than a sector has scoops.
    pub fn new(name: &str, file: FileMeta, use_direct_io: bool, dummy: bool) -> (r: Result<
        Plot,
        PlotError,
    >)
        ensures
            match plot_spec(name@, file, use_direct_io, dummy) {
                Ok(v) => r matches Ok(p) && p@ == v && v.wf(),
                Err(e) => r == Err::<Plot, PlotError>(e),
            },
    {
        let (account_id, start_nonce, nonces) = match parse_name(name) {
            Ok(numbers) => numbers,
            Err(e) => {
                return Err(e);
            },
        };
        let expected: u128 = nonces as u128 * NONCE_SIZE as u128;
        if file.size as u128 != expected {
            return Err(PlotError::SizeMismatch { expected, actual: file.size });
        }
        let direct: bool = use_direct_io && file.sector_size / SCOOP_SIZE <= nonces;
        Ok(
            Plot {
                account_id,
                start_nonce,
                nonces,
                fh: file.fh,
                read_offset: 0,
                use_direct_io: direct,
                sector_size: file.sector_size,
                dummy,
                modified: file.modified,
            },
        )
    }

    pub fn account_id(&self) -> (r: u64)
        ensures
            r == self@.account_id,
    {
        self.account_id
    }

    pub fn start_nonce(&self) -> (r: u64)
        ensures
            r == self@.start_nonce,
    {
        self.start_nonce
    }

    pub fn nonces(&self) -> (r: u64)
        ensures
            r == self@.nonces,
    {
        self.nonces
    }

    /// The number under which the caller keeps the open file.
    pub fn fh(&self) -> (r: usize)
        ensures
            r == self@.fh,
    {
        self.fh
    }

    pub fn read_offset(&self) -> (r: u64)
        ensures
            r == self@.read_offset,
    {
        self.read_offset
    }

    pub fn use_direct_io(&self) -> (r: bool)
        ensures
            r == self@.use_direct_io,
    {
        self.use_direct_io
    }

    pub fn sector_size(&self) -> (r: u64)
        ensures
            r == self@.sector_size,
    {
        self.sector_size
    }

    /// Whether reads of this plot are to be skipped and only counted.
    pub fn is_dummy(&self) -> (r: bool)
        ensures
            r == self@.dummy,
    {
        self.dummy
    }

    pub fn modified(&self) -> (r: i64)
        ensures
            r == self@.modified,
    {
        self.modified
    }

    /// Where the region of `scoop` begins in the file.
    pub fn region_start(&self, scoop: u32) -> (addr: u64)
        requires
            self@.wf(),
            scoop < SCOOPS_IN_NONCE,
        ensures
            addr == self@.region_start(scoop as nat),
            addr + self@.region_len() <= self@.nonces * NONCE_SIZE,
    {
        assert(scoop * self.nonces <= 4095 * self.nonces) by (nonlinear_arith)
            requires
                scoop <= 4095,
        ;
        scoop as u64 * self.nonces * SCOOP_SIZE
    }

    /// Moves `seek_addr` up to the next sector boundary, unless it is on one
    /// or the sector size is unknown, and returns by how much.
    fn round_seek_addr(&self, seek_addr: &mut u64) -> (offset: u64)
        requires
            *old(seek_addr) + self@.sector_size <= u64::MAX,
        ensures
            offset == gap_to_multiple(*old(seek_addr) as nat, self@.sector_size),
            *final(seek_addr) == *old(seek_addr) + offset,
    {
        if self.sector_size == 0 {
            return 0;
        }
        let r: u64 = *seek_addr % self.sector_size;
        if r != 0 {
            let offset: u64 = self.sector_size - r;
            *seek_addr = *seek_addr + offset;
            offset
        } else {
            0
        }
    }

    /// Where a read of `scoop` may begin: the start of its region, moved up
    /// to a sector boundary where reads are unbuffered.
    pub fn first_seek(&self, scoop: u32) -> (seek_addr: u64)
        requires
            self@.wf(),
            scoop < SCOOPS_IN_NONCE,
        ensures
            seek_addr == self@.first_seek(scoop as nat),
    {
        let mut seek_addr: u64 = self.region_start(scoop);
        if self.use_direct_io {
            self.round_seek_addr(&mut seek_addr);
        }
        seek_addr
    }

    /// Sets the cursor to the start of `scoop` and returns the position in
    /// the file at which its first read begins. Where reads are unbuffered
    /// that position is the next sector boundary, and the bytes skipped on
    /// the way count as read.
    pub fn prepare(&mut self, scoop: u32) -> (seek_addr: u64)
        requires
            old(self)@.wf(),
            scoop < SCOOPS_IN_NONCE,
        ensures
            final(self)@ == old(self)@.prepared(scoop as nat),
            final(self)@.wf(),
            seek_addr == old(self)@.first_seek(scoop as nat),
    {
        self.read_offset = 0;
        let mut seek_addr: u64 = self.region_start(scoop);
        if self.use_direct_io {
            self.read_offset = self.round_seek_addr(&mut seek_addr);
        }
        seek_addr
    }

    /// Plans the next read of `scoop` into a buffer of `buffer_cap` bytes,
    /// without moving the cursor. The read takes what is left of the region
    /// if the buffer can hold it, cut down to whole sectors where reads are
    /// unbuffered, and is then the last one; else it fills the buffer.
    pub fn plan_read(&self, buffer_cap: usize, scoop: u32) -> (chunk: Chunk)
        requires
            self@.wf(),
            scoop < SCOOPS_IN_NONCE,
        ensures
            chunk == self@.chunk(buffer_cap as nat, scoop as nat),
            chunk.seek_addr == self@.region_start(scoop as nat) + self@.read_offset,
            chunk.len == self@.chunk_len(buffer_cap as nat),
            chunk.len <= buffer_cap,
            chunk.start_nonce == self@.chunk_start_nonce(),
    {
        let region: u64 = SCOOP_SIZE * self.nonces;
        let start_nonce: u64 = self.start_nonce.wrapping_add(self.read_offset / SCOOP_SIZE);
        let remaining: u64 = if self.read_offset <= region {
            region - self.read_offset
        } else {
            0
        };
        let mut len: usize = buffer_cap;
        let finished: bool = buffer_cap as u64 >= remaining;
        if finished {
            let mut bytes_to_read: u64 = remaining;
            if self.use_direct_io && self.sector_size != 0 {
                let r: u64 = bytes_to_read % self.sector_size;
                assert(r <= bytes_to_read) by (nonlinear_arith)
                    requires
                        r == bytes_to_read % self.sector_size,
                        self.sector_size > 0,
                ;
                if r != 0 {
                    bytes_to_read = bytes_to_read - r;
                }
            }
            len = bytes_to_read as usize;
        }
        let seek_addr: u64 = self.read_offset + self.region_start(scoop);
        Chunk { seek_addr, len, start_nonce, finished }
    }

    /// Takes in how the read went that `plan_read` has planned for `scoop`
    /// and a buffer of `buffer_cap` bytes. `io` is what the seek and the read
    /// of the file gave. Where they succeeded the cursor moves behind the
    /// bytes read, and the chunk is returned. Where they failed the error is
    /// handed back and the cursor stays where it was.
    pub fn read<E>(&mut self, buffer_cap: usize, scoop: u32, io: Result<(), E>) -> (r: Result<
        Chunk,
        E,
    >)
        requires
            old(self)@.wf(),
            scoop < SCOOPS_IN_NONCE,
        ensures
            match io {
                Ok(_) => r == Ok::<Chunk, E>(old(self)@.chunk(buffer_cap as nat, scoop as nat))
                    && final(self)@ == old(self)@.advanced(buffer_cap as nat),
                Err(e) => r == Err::<Chunk, E>(e) && final(self)@ == old(self)@,
            },
            final(self)@.wf(),
    {
        match io {
            Ok(_) => {
                let chunk: Chunk = self.plan_read(buffer_cap, scoop);
                proof {
                    lemma_read_is_bounded(self@, buffer_cap as nat);
                }
                self.read_offset = self.read_offset + chunk.len as u64;
                Ok(chunk)
            },
            Err(e) => Err(e),
        }
    }

    /// Picks a scoop at random and returns the position at which a read of
    /// it may begin. A seek to that position wakes a sleeping disk.
    pub fn seek_random(&self) -> (seek_addr: u64)
        requires
            self@.wf(),
        ensures
            self@.begins_scoop(seek_addr as nat),
    {
        let rand_scoop: u64 = random_in_range(0, SCOOPS_IN_NONCE);
        let seek_addr: u64 = self.first_seek(rand_scoop as u32);
        assert(seek_addr == self@.first_seek(rand_scoop as nat));
        seek_addr
    }

    /// Whether this plot and `plot` belong to one account and have a nonce in common.
    pub fn overlaps_with(&self, plot: &Plot) -> (r: bool)
        ensures
            r == self@.overlaps(plot@),
    {
        self.nonces > 0 && plot.nonces > 0 && self.account_id == plot.account_id && (
        self.start_nonce as u128) < plot.start_nonce as u128 + plot.nonces as u128 && (
        plot.start_nonce as u128) < self.start_nonce as u128 + self.nonces as u128
    }
}

} // verus!
