//! The mining side: how nonce space is shared among workers, what a worker
//! does with one batch, when it gives up on its work, and the coordinator's
//! reactions to results and to stale work.
use vstd::prelude::*;

use crate::block::{Block, Header, Transaction, txs_view};
use crate::chain::{Blockchain, accepts, template_header};
use crate::consensus::{least_nonce, next_difficulty, pow_ok, validate_pow, with_nonce};

verus! {

/// Nonces a worker tries between two checks for cancellation.
pub const BATCH_SIZE: u64 = 10000;

/// Seconds after which a template counts as stale.
pub const STALE_AFTER_SECS: u64 = 60;

/// Builds a template on the tail of `chain` at the required difficulty and
/// mines it; `None` only when no nonce meets the target.
pub fn mine_new_block(chain: &Blockchain, txs: Vec<Transaction>, timestamp: u32) -> (r: Option<
    Block,
>)
    requires
        chain.blocks@.len() > 0,
    ensures
        match r {
            Some(b) => {
                &&& template_header(
                    chain.blocks@.last(),
                    txs_view(txs@),
                    next_difficulty(chain.blocks@),
                    timestamp,
                    b.header,
                )
                &&& b.transactions == txs
                &&& accepts(chain.blocks@.last(), b, false)
                &&& least_nonce(b.header)
            },
            None => forall|h: Header|
                template_header(
                    chain.blocks@.last(),
                    txs_view(txs@),
                    next_difficulty(chain.blocks@),
                    timestamp,
                    h,
                ) ==> !pow_ok(h),
        },
{
    Blockchain::mine_new_block(chain, txs, timestamp)
}

/// A contiguous share of the nonce space: `len` nonces from `start`.
#[derive(Clone, Copy, Debug, PartialEq, Eq)]
pub struct NonceRange {
    pub start: u64,
    pub len: u64,
}

/// Splits the nonce space among `workers`: each gets `u64::MAX / workers`
/// nonces, worker `i` starting at `i` times that width.
pub fn nonce_ranges(workers: u64) -> (r: Vec<NonceRange>)
    requires
        workers > 0,
    ensures
        r@.len() == workers,
        forall|i: int|
            0 <= i < workers ==> #[trigger] r@[i] == (NonceRange {
                start: (i * (u64::MAX / workers)) as u64,
                len: u64::MAX / workers,
            }),
{
    let width = u64::MAX / workers;
    let mut out: Vec<NonceRange> = Vec::new();
    let mut i: u64 = 0;
    while i < workers
        invariant
            workers > 0,
            width == u64::MAX / workers,
            0 <= i <= workers,
            out@.len() == i,
            forall|k: int|
                0 <= k < i ==> #[trigger] out@[k] == (NonceRange {
                    start: (k * width) as u64,
                    len: width,
                }),
        decreases workers - i,
    {
        assert(i * width <= u64::MAX) by (nonlinear_arith)
            requires
                i < workers,
                width == u64::MAX / workers,
                workers > 0,
        ;
        out.push(NonceRange { start: i * width, len: width });
        i += 1;
    }
    out
}

/// The end of one batch that starts at `batch_start`, within a range
/// ending at `end`.
pub fn batch_end(batch_start: u64, end: u64) -> (r: u64)
    ensures
        r == if (batch_start as int) + (BATCH_SIZE as int) < (end as int) {
            (batch_start + BATCH_SIZE) as u64
        } else {
            end
        },
{
    if batch_start < end && end - batch_start > BATCH_SIZE {
        batch_start + BATCH_SIZE
    } else {
        end
    }
}

/// What one batch of nonces gave: the first nonce that met the target, if
/// any, and how many nonces failed before it.
#[derive(Clone, Copy, Debug, PartialEq, Eq)]
pub struct BatchOutcome {
    pub found: Option<u64>,
    pub attempts: u64,
}

/// Tries the nonces `start..end` on `header` in order and stops at the
/// first that meets the target.
pub fn mine_batch(header: &Header, start: u64, end: u64) -> (r: BatchOutcome)
    requires
        start <= end,
    ensures
        match r.found {
            Some(n) => {
                &&& start <= n < end
                &&& pow_ok(with_nonce(*header, n))
                &&& forall|m: u64| start <= m < n ==> !pow_ok(#[trigger] with_nonce(*header, m))
                &&& r.attempts == n - start
            },
            None => {
                &&& forall|m: u64| start <= m < end ==> !pow_ok(#[trigger] with_nonce(*header, m))
                &&& r.attempts == end - start
            },
        },
{
    let mut candidate = *header;
    let mut nonce = start;
    while nonce < end
        invariant
            start <= nonce <= end,
            candidate == with_nonce(*header, candidate.nonce),
            forall|m: u64| start <= m < nonce ==> !pow_ok(#[trigger] with_nonce(*header, m)),
        decreases end - nonce,
    {
        candidate.nonce = nonce;
        if validate_pow(&candidate) {
            return BatchOutcome { found: Some(nonce), attempts: nonce - start };
        }
        nonce += 1;
    }
    BatchOutcome { found: None, attempts: end - start }
}

/// A solution found by a worker: the completed block and who found it.
#[derive(Clone, Debug, PartialEq, Eq)]
pub struct MiningResult {
    pub block: Block,
    pub nonce: u64,
    pub worker_id: usize,
}

/// A worker gives up its current work when it has been stopped, when the
/// work was cancelled or already solved, or when newer work has arrived.
pub fn should_abandon(
    running: bool,
    cancelled: bool,
    solution_found: bool,
    current_work_id: u64,
    work_id: u64,
) -> (r: bool)
    ensures
        r == (!running || cancelled || solution_found || current_work_id != work_id),
{
    !running || cancelled || solution_found || current_work_id != work_id
}

/// The state of one mining worker.
#[derive(Clone, Copy, Debug, PartialEq, Eq)]
pub struct MiningWorker {
    pub id: usize,
    pub running: bool,
    pub hashes_computed: u64,
    pub current_work_id: u64,
}

impl MiningWorker {
    pub fn new(id: usize) -> (r: MiningWorker)
        ensures
            r == (MiningWorker { id, running: false, hashes_computed: 0, current_work_id: 0 }),
    {
        MiningWorker { id, running: false, hashes_computed: 0, current_work_id: 0 }
    }

    /// Asks the worker to stop at its next check.
    pub fn stop(&mut self)
        ensures
            *final(self) == (MiningWorker { running: false, ..*old(self) }),
    {
        self.running = false;
    }

    /// Lets the worker run again.
    pub fn restart(&mut self)
        ensures
            *final(self) == (MiningWorker { running: true, ..*old(self) }),
    {
        self.running = true;
    }

    /// Records that the worker took up the work `work_id`.
    pub fn begin_work(&mut self, work_id: u64)
        ensures
            *final(self) == (MiningWorker { current_work_id: work_id, ..*old(self) }),
    {
        self.current_work_id = work_id;
    }

    /// Counts `n` more hash attempts; the counter wraps as an atomic one does.
    pub fn record_hashes(&mut self, n: u64)
        ensures
            *final(self) == (MiningWorker {
                hashes_computed: ((old(self).hashes_computed as int + n as int) % 0x1_0000_0000_0000_0000) as u64,
                ..*old(self)
            }),
    {
        self.hashes_computed = self.hashes_computed.wrapping_add(n);
    }
}

/// Counters that the coordinator reports.
#[derive(Clone, Copy, Debug, PartialEq, Eq)]
pub struct MiningStats {
    pub blocks_found: u64,
    pub last_hash_count: u64,
}

impl MiningStats {
    pub fn new() -> (r: MiningStats)
        ensures
            r == (MiningStats { blocks_found: 0, last_hash_count: 0 }),
    {
        MiningStats { blocks_found: 0, last_hash_count: 0 }
    }

    /// The hashes done since the last report, given the running total;
    /// the total is remembered for the next report.
    pub fn hashes_since_last(&mut self, total_hashes: u64) -> (r: u64)
        ensures
            r == if total_hashes >= old(self).last_hash_count {
                (total_hashes - old(self).last_hash_count) as u64
            } else {
                0
            },
            *final(self) == (MiningStats { last_hash_count: total_hashes, ..*old(self) }),
    {
        let last = self.last_hash_count;
        self.last_hash_count = total_hashes;
        if total_hashes >= last {
            total_hashes - last
        } else {
            0
        }
    }

    /// Counts one more accepted block, saturating at the largest count.
    pub fn record_block(&mut self)
        ensures
            final(self).blocks_found == if old(self).blocks_found < u64::MAX {
                (old(self).blocks_found + 1) as u64
            } else {
                u64::MAX
            },
            final(self).last_hash_count == old(self).last_hash_count,
    {
        if self.blocks_found < u64::MAX {
            self.blocks_found = self.blocks_found + 1;
        }
    }
}

/// The coordinator's view of the current work generation.
#[derive(Clone, Copy, Debug, PartialEq, Eq)]
pub struct Coordinator {
    /// Identifier of the next work generation.
    pub next_work_id: u64,
    /// Identifier of the generation being mined, once there is one.
    pub current_work_id: Option<u64>,
    pub solution_found: bool,
    pub cancelled: bool,
    /// When the current template was fetched, in seconds.
    pub last_template_time: u64,
}

/// What the coordinator does next.
#[derive(Clone, Copy, Debug, PartialEq, Eq)]
pub enum CoordinatorAction {
    /// Submit the block that arrived, then fetch and hand out fresh work.
    SubmitAndRefresh,
    /// Fetch and hand out fresh work.
    Refresh,
    /// Drop the result: its generation was already solved or replaced.
    Discard,
    /// Nothing to do yet.
    Wait,
}

/// Whether a result for `work_id` is submitted in state `c`.
pub open spec fn takes_result(c: Coordinator, work_id: u64) -> bool {
    c.current_work_id == Some(work_id) && !c.solution_found
}

/// The state after a result is taken: the generation is solved and cancelled.
pub open spec fn after_result(c: Coordinator) -> Coordinator {
    Coordinator { solution_found: true, cancelled: true, ..c }
}

impl Coordinator {
    pub fn new() -> (r: Coordinator)
        ensures
            r == (Coordinator {
                next_work_id: 0,
                current_work_id: None,
                solution_found: false,
                cancelled: false,
                last_template_time: 0,
            }),
    {
        Coordinator {
            next_work_id: 0,
            current_work_id: None,
            solution_found: false,
            cancelled: false,
            last_template_time: 0,
        }
    }

    /// Starts a new work generation with a template fetched at `now`, and
    /// returns its identifier; the flags of the old generation are cleared.
    pub fn start_generation(&mut self, now: u64) -> (r: u64)
        ensures
            r == old(self).next_work_id,
            *final(self) == (Coordinator {
                next_work_id: if old(self).next_work_id < u64::MAX {
                    (old(self).next_work_id + 1) as u64
                } else {
                    0
                },
                current_work_id: Some(r),
                solution_found: false,
                cancelled: false,
                last_template_time: now,
            }),
    {
        let id = self.next_work_id;
        self.next_work_id = if id < u64::MAX {
            id + 1
        } else {
            0
        };
        self.current_work_id = Some(id);
        self.solution_found = false;
        self.cancelled = false;
        self.last_template_time = now;
        id
    }

    /// A worker reports a solution for `work_id`. Only the first solution of
    /// the current generation is submitted: it marks the generation solved
    /// and cancelled.
    pub fn on_result(&mut self, work_id: u64) -> (r: CoordinatorAction)
        ensures
            takes_result(*old(self), work_id) ==> {
                &&& r == CoordinatorAction::SubmitAndRefresh
                &&& *final(self) == after_result(*old(self))
            },
            !takes_result(*old(self), work_id) ==> {
                &&& r == CoordinatorAction::Discard
                &&& *final(self) == *old(self)
            },
    {
        match self.current_work_id {
            Some(id) => {
                if id == work_id && !self.solution_found {
                    self.solution_found = true;
                    self.cancelled = true;
                    CoordinatorAction::SubmitAndRefresh
                } else {
                    CoordinatorAction::Discard
                }
            },
            None => CoordinatorAction::Discard,
        }
    }

    /// The periodic staleness check at time `now`: fresh work is fetched
    /// once the template is more than a minute old.
    pub fn on_stale_check(&self, now: u64) -> (r: CoordinatorAction)
        ensures
            r == if now > self.last_template_time && now - self.last_template_time
                > STALE_AFTER_SECS {
                CoordinatorAction::Refresh
            } else {
                CoordinatorAction::Wait
            },
    {
        if now > self.last_template_time && now - self.last_template_time > STALE_AFTER_SECS {
            CoordinatorAction::Refresh
        } else {
            CoordinatorAction::Wait
        }
    }
}

/// At most one solution is submitted per work generation: once a result has
/// been taken for submission, no further result is taken, whatever its work
/// identifier, until a new generation starts.
pub proof fn lemma_one_submission_per_generation(c: Coordinator, first: u64, later: u64)
    requires
        takes_result(c, first),
    ensures
        !takes_result(after_result(c), later),
{
}

/// Relies on `num_cpus::get`: the number of logical CPUs this process may
/// use; it depends on the machine, so nothing is promised of it.
#[verifier::external_body]
fn cpu_count() -> usize {
    num_cpus::get()
}

/// Worker threads for `cpu_count` CPUs: one CPU is left to the system when
/// there are more than two.
pub fn optimal_threads(cpu_count: usize) -> (r: usize)
    ensures
        r == if cpu_count > 2 {
            (cpu_count - 1) as usize
        } else {
            cpu_count
        },
{
    if cpu_count > 2 {
        cpu_count - 1
    } else {
        cpu_count
    }
}

/// Worker threads for this machine.
pub fn detect_optimal_threads() -> usize {
    optimal_threads(cpu_count())
}

/// The CPUs of this machine and the worker count chosen for them.
#[derive(Clone, Copy, Debug, PartialEq, Eq)]
pub struct SystemInfo {
    pub cpu_cores: usize,
    pub optimal_threads: usize,
}

pub fn get_system_info() -> (r: SystemInfo)
    ensures
        r.optimal_threads == if r.cpu_cores > 2 {
            (r.cpu_cores - 1) as usize
        } else {
            r.cpu_cores
        },
{
    let cpu_cores = cpu_count();
    SystemInfo { cpu_cores, optimal_threads: optimal_threads(cpu_cores) }
}

/// Settings of the miner.
#[derive(Clone, Debug, PartialEq, Eq)]
pub struct MiningConfig {
    pub node_url: String,
    pub threads: usize,
    /// Seconds to wait before retrying the node.
    pub reconnect_delay: u64,
    /// Milliseconds between work updates.
    pub work_update_interval: u64,
    /// Seconds between statistics reports.
    pub stats_interval: u64,
    pub log_level: String,
}

impl Default for MiningConfig {
    fn default() -> (r: MiningConfig)
        ensures
            r.node_url@ == "http://127.0.0.1:45154"@,
            r.log_level@ == "info"@,
            r.reconnect_delay == 5,
            r.work_update_interval == 1000,
            r.stats_interval == 30,
    {
        MiningConfig {
            node_url: "http://127.0.0.1:45154".to_owned(),
            threads: cpu_count(),
            reconnect_delay: 5,
            work_update_interval: 1000,
            stats_interval: 30,
            log_level: "info".to_owned(),
        }
    }
}

} // verus!
