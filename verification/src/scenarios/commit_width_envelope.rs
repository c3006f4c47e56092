//! How many accounts one commit can carry: cells of growing width must stay
//! on the path without lookup tables, and probes beyond the envelope must be
//! refused.
use crate::chain::Pubkey;
use crate::suite::Tier;
use vstd::prelude::*;

verus! {

/// The size of an account of this suite.
pub const ACCOUNT_SPACE: u32 = 128;

/// Commits before the measured ones of a cell.
pub const WARMUP_COMMITS: u64 = 2;

/// Signatures that a scan of the base chain asks for.
pub const SIGNATURE_SCAN_LIMIT: usize = 1000;

/// The width of the probe that no longer fits without lookup tables.
pub const WIDE_PROBE: usize = 15;

/// The width of the probe that does not fit at all.
pub const OVERSIZED_PROBE: usize = 30;

/// The suite.
pub struct CommitWidthEnvelope;

impl CommitWidthEnvelope {
    /// The name that the suite reports under.
    pub fn name(&self) -> (r: &'static str)
        ensures
            r@ == "redline/commit_width_envelope"@,
    {
        "redline/commit_width_envelope"
    }
}

/// The size of a run. Every run measures cells of width one, two and four.
#[derive(Clone, Copy, Debug)]
pub struct Profile {
    pub name: &'static str,
    pub commits: u64,
    pub rate: u32,
    pub concurrency: usize,
    pub pool: u8,
    pub probes: bool,
}

/// The size of a run at a tier: the full one, or the lite one for any other.
pub open spec fn profile_of(tier: Tier) -> Profile {
    if tier == Tier::Full {
        Profile { name: "full", commits: 30, rate: 2, concurrency: 8, pool: 48, probes: true }
    } else {
        Profile { name: "lite", commits: 8, rate: 2, concurrency: 4, pool: 16, probes: false }
    }
}

/// The size of a run at `tier`.
pub fn profile(tier: Tier) -> (r: Profile)
    ensures
        r == profile_of(tier),
{
    if tier == Tier::Full {
        Profile { name: "full", commits: 30, rate: 2, concurrency: 8, pool: 48, probes: true }
    } else {
        Profile { name: "lite", commits: 8, rate: 2, concurrency: 4, pool: 16, probes: false }
    }
}

/// The widths of the cells.
pub fn widths() -> (r: [usize; 3])
    ensures
        r@ == seq![1usize, 2, 4],
{
    [1, 2, 4]
}

/// Where in the pool the account at `position` of a commit stands.
pub open spec fn set_index(pool: int, width: int, id: int, position: int) -> int {
    (((id - 1) * width) % pool + position) % pool
}

/// The accounts that the commit with this id carries: `width` neighbours in
/// the pool, moving on by `width` with every id.
pub fn commit_set(pdas: &[Pubkey], width: usize, id: u64) -> (r: Vec<Pubkey>)
    requires
        pdas@.len() > 0,
        1 <= id <= usize::MAX,
        (id - 1) * width <= usize::MAX,
        pdas@.len() + width <= usize::MAX,
    ensures
        r@ == Seq::new(
            width as nat,
            |position: int|
                pdas@[set_index(pdas@.len() as int, width as int, id as int, position)],
        ),
{
    assert(pdas.len() == pdas@.len());
    let pool: usize = pdas.len();
    let start: usize = ((id as usize - 1) * width) % pool;
    let mut out: Vec<Pubkey> = Vec::new();
    let mut position: usize = 0;
    while position < width
        invariant
            position <= width,
            pool == pdas@.len(),
            pool > 0,
            pool + width <= usize::MAX,
            start < pool,
            start == ((id - 1) * width) % (pool as int),
            out@ == Seq::new(
                position as nat,
                |p: int| pdas@[set_index(pool as int, width as int, id as int, p)],
            ),
        decreases width - position,
    {
        out.push(pdas[(start + position) % pool]);
        position = position + 1;
        assert(out@ =~= Seq::new(
            position as nat,
            |p: int| pdas@[set_index(pool as int, width as int, id as int, p)],
        ));
    }
    out
}

/// A commit no wider than the pool lists no account twice.
pub proof fn commit_set_has_no_duplicates(pool: int, width: int, id: int, one: int, other: int)
    requires
        0 < pool,
        0 <= width <= pool,
        1 <= id,
        0 <= one < other < width,
    ensures
        set_index(pool, width, id, one) != set_index(pool, width, id, other),
{
    let start = ((id - 1) * width) % pool;
    assert(0 <= start < pool) by (nonlinear_arith)
        requires
            start == ((id - 1) * width) % pool,
            pool > 0,
    ;
    let a = start + one;
    let b = start + other;
    assert(a % pool == if a < pool {
        a
    } else {
        a - pool
    }) by (nonlinear_arith)
        requires
            0 <= a < 2 * pool,
    ;
    assert(b % pool == if b < pool {
        b
    } else {
        b - pool
    }) by (nonlinear_arith)
        requires
            0 <= b < 2 * pool,
    ;
}

/// The last id before the warm-up of the cell at place `cell`.
pub open spec fn warmup_offset(commits: int, cell: int) -> int {
    cell * (WARMUP_COMMITS + commits)
}

/// The last id before the measured commits of the cell at place `cell`.
pub open spec fn measured_offset(commits: int, cell: int) -> int {
    warmup_offset(commits, cell) + WARMUP_COMMITS
}

/// The ids that the two windows of a cell start behind.
pub fn cell_offsets(commits: u64, cell: u64) -> (r: (u64, u64))
    requires
        warmup_offset(commits as int, cell + 1) <= u64::MAX,
        WARMUP_COMMITS + commits <= u64::MAX,
    ensures
        r.0 == warmup_offset(commits as int, cell as int),
        r.1 == measured_offset(commits as int, cell as int),
{
    assert(warmup_offset(commits as int, cell + 1) == warmup_offset(commits as int, cell as int)
        + WARMUP_COMMITS + commits) by (nonlinear_arith)
        requires
            warmup_offset(commits as int, cell + 1) == (cell + 1) * (WARMUP_COMMITS + commits),
            warmup_offset(commits as int, cell as int) == cell * (WARMUP_COMMITS + commits),
    ;
    let warmup: u64 = cell * (WARMUP_COMMITS + commits);
    (warmup, warmup + WARMUP_COMMITS)
}

/// No id is used in two windows of a run, be they of the same cell or of
/// different ones.
pub proof fn windows_share_no_id(commits: int, cell: int, later: int, id: int)
    requires
        0 <= commits,
        0 <= cell < later,
        measured_offset(commits, cell) < id <= measured_offset(commits, cell) + commits
            || warmup_offset(commits, cell) < id <= measured_offset(commits, cell),
    ensures
        id <= warmup_offset(commits, later),
        id <= warmup_offset(commits, cell + 1),
{
    assert(warmup_offset(commits, cell + 1) <= warmup_offset(commits, later)) by (nonlinear_arith)
        requires
            warmup_offset(commits, cell + 1) == (cell + 1) * (WARMUP_COMMITS + commits),
            warmup_offset(commits, later) == later * (WARMUP_COMMITS + commits),
            cell + 1 <= later,
            0 <= commits,
    ;
    assert(warmup_offset(commits, cell + 1) == warmup_offset(commits, cell) + WARMUP_COMMITS
        + commits) by (nonlinear_arith)
        requires
            warmup_offset(commits, cell + 1) == (cell + 1) * (WARMUP_COMMITS + commits),
            warmup_offset(commits, cell) == cell * (WARMUP_COMMITS + commits),
    ;
}

/// A commit that probes the envelope, once the cells are through.
#[derive(Clone, Copy, Debug, PartialEq, Eq, Structural)]
pub enum Probe {
    /// A commit that is too wide to go without lookup tables.
    Wide,
    /// A commit that is too wide altogether.
    Oversized,
    /// A commit that is sponsored, the first being the first.
    Sponsored { round: u64 },
    /// The commit after the last that is sponsored.
    OverLimit,
}

/// How many cells are run before the probes.
pub const CELLS: u64 = 3;

/// How far the id of a probe lies behind those of the cells.
pub open spec fn probe_step(probe: Probe, sponsored: int) -> int {
    match probe {
        Probe::Wide => 1,
        Probe::Oversized => 2,
        Probe::Sponsored { round } => 2 + round,
        Probe::OverLimit => 3 + sponsored,
    }
}

/// The id of a probe.
pub open spec fn probe_number(commits: int, probe: Probe, sponsored: int) -> int {
    warmup_offset(commits, CELLS as int) + probe_step(probe, sponsored)
}

/// The id of a probe, where a number of commits is sponsored.
pub fn probe_id(commits: u64, probe: Probe, sponsored: u64) -> (r: u64)
    requires
        probe_number(commits as int, Probe::OverLimit, sponsored as int) <= u64::MAX,
        probe matches Probe::Sponsored { round } ==> round <= sponsored,
    ensures
        r == probe_number(commits as int, probe, sponsored as int),
{
    let first: u64 = CELLS * (WARMUP_COMMITS + commits);
    match probe {
        Probe::Wide => first + 1,
        Probe::Oversized => first + 2,
        Probe::Sponsored { round } => first + 2 + round,
        Probe::OverLimit => first + 3 + sponsored,
    }
}

/// No two probes have the same id, and none has an id of a cell.
pub proof fn probes_share_no_id(commits: int, sponsored: int, one: Probe, other: Probe, id: int)
    requires
        0 <= commits,
        0 <= sponsored,
        one matches Probe::Sponsored { round } ==> 1 <= round <= sponsored,
        other matches Probe::Sponsored { round } ==> 1 <= round <= sponsored,
        0 < id <= warmup_offset(commits, CELLS as int),
    ensures
        probe_number(commits, one, sponsored) == probe_number(commits, other, sponsored) ==> one
            == other,
        probe_number(commits, one, sponsored) != id,
{
}

/// The signatures that a scan of the base chain found: of the programs that a
/// commit goes through, and of lookup tables.
#[derive(Debug)]
pub struct BaseFlowSnapshot {
    pub flow: Vec<String>,
    pub alt: Vec<String>,
}

/// The texts of several signatures.
pub open spec fn texts(signatures: Seq<String>) -> Seq<Seq<char>> {
    Seq::new(signatures.len(), |i: int| signatures[i]@)
}

/// The set of several signatures.
pub open spec fn text_set(signatures: Seq<String>) -> Set<Seq<char>> {
    texts(signatures).to_set()
}

/// Whether a signature is among others.
fn lists(signatures: &[String], wanted: &String) -> (r: bool)
    ensures
        r == text_set(signatures@).contains(wanted@),
{
    let mut i: usize = 0;
    while i < signatures.len()
        invariant
            i <= signatures@.len(),
            forall|j: int| 0 <= j < i ==> (#[trigger] texts(signatures@)[j]) != wanted@,
        decreases signatures@.len() - i,
    {
        if signatures[i] == *wanted {
            assert(texts(signatures@)[i as int] == wanted@);
            return true;
        }
        i = i + 1;
    }
    false
}

/// Appends the signatures that are not there yet.
fn add_signatures(into: &mut Vec<String>, more: &[String])
    requires
        texts(old(into)@).no_duplicates(),
    ensures
        texts(final(into)@).no_duplicates(),
        text_set(final(into)@) == text_set(old(into)@).union(text_set(more@)),
{
    let mut i: usize = 0;
    assert(text_set(more@.take(0)) =~= Set::<Seq<char>>::empty());
    assert(text_set(into@) =~= text_set(old(into)@).union(text_set(more@.take(0))));
    while i < more.len()
        invariant
            i <= more@.len(),
            texts(into@).no_duplicates(),
            text_set(into@) == text_set(old(into)@).union(text_set(more@.take(i as int))),
        decreases more@.len() - i,
    {
        let ghost before = into@;
        if !lists(into.as_slice(), &more[i]) {
            into.push(more[i].clone());
            proof {
                assert(texts(into@) =~= texts(before).push(more@[i as int]@));
                assert(!texts(before).contains(more@[i as int]@));
                assert(text_set(into@) =~= text_set(before).insert(more@[i as int]@)) by {
                    lemma_push_set(texts(before), more@[i as int]@);
                }
            }
        }
        proof {
            assert(texts(more@.take(i as int + 1)) =~= texts(more@.take(i as int)).push(
                more@[i as int]@,
            ));
            lemma_push_set(texts(more@.take(i as int)), more@[i as int]@);
        }
        i = i + 1;
        assert(text_set(into@) =~= text_set(old(into)@).union(text_set(more@.take(i as int))));
    }
    assert(more@.take(i as int) =~= more@);
}

/// One more item makes the set larger by that item.
proof fn lemma_push_set(s: Seq<Seq<char>>, x: Seq<char>)
    ensures
        s.push(x).to_set() == s.to_set().insert(x),
{
    assert forall|y: Seq<char>|
        s.push(x).to_set().contains(y) == s.to_set().insert(x).contains(y) by {
        if s.to_set().contains(y) {
            let i = choose|i: int| 0 <= i < s.len() && s[i] == y;
            assert(s.push(x)[i] == y);
        }
        if y == x {
            assert(s.push(x)[s.len() as int] == x);
        }
        if s.push(x).contains(y) && y != x {
            let i = choose|i: int| 0 <= i < s.push(x).len() && s.push(x)[i] == y;
            assert(s[i] == y);
        }
    }
    assert(s.push(x).to_set() =~= s.to_set().insert(x));
}

/// Counts the signatures that are not among the earlier ones.
fn count_new(now: &[String], earlier: &[String]) -> (r: usize)
    requires
        texts(now@).no_duplicates(),
    ensures
        r == text_set(now@).difference(text_set(earlier@)).len(),
{
    let mut count: usize = 0;
    let mut i: usize = 0;
    let ghost mut fresh: Seq<Seq<char>> = Seq::empty();
    while i < now.len()
        invariant
            i <= now@.len(),
            texts(now@).no_duplicates(),
            count == fresh.len(),
            count <= i,
            fresh.no_duplicates(),
            forall|x: Seq<char>| #[trigger]
                fresh.contains(x) <==> texts(now@).take(i as int).contains(x) && !text_set(
                    earlier@,
                ).contains(x),
        decreases now@.len() - i,
    {
        let ghost text = now@[i as int]@;
        let ghost before = fresh;
        proof {
            assert(texts(now@).take(i as int + 1) =~= texts(now@).take(i as int).push(text));
            assert(!texts(now@).take(i as int).contains(text)) by {
                if texts(now@).take(i as int).contains(text) {
                    let j = choose|j: int|
                        0 <= j < i && texts(now@).take(i as int)[j] == text;
                    assert(texts(now@)[j] == texts(now@)[i as int]);
                }
            }
        }
        if !lists(earlier, &now[i]) {
            count = count + 1;
            proof {
                fresh = before.push(text);
                assert(!before.contains(text));
            }
        }
        proof {
            assert forall|x: Seq<char>| #[trigger]
                fresh.contains(x) <==> texts(now@).take(i as int + 1).contains(x) && !text_set(
                    earlier@,
                ).contains(x) by {
                lemma_push_contains(texts(now@).take(i as int), text, x);
                lemma_push_contains(before, text, x);
            }
        }
        i = i + 1;
    }
    proof {
        assert(texts(now@).take(i as int) =~= texts(now@));
        fresh.unique_seq_to_set();
        assert(fresh.to_set() =~= text_set(now@).difference(text_set(earlier@)));
    }
    count
}

/// What an appended sequence contains.
proof fn lemma_push_contains(s: Seq<Seq<char>>, x: Seq<char>, y: Seq<char>)
    ensures
        s.push(x).contains(y) <==> s.contains(y) || y == x,
{
    if s.contains(y) {
        let i = choose|i: int| 0 <= i < s.len() && s[i] == y;
        assert(s.push(x)[i] == y);
    }
    if y == x {
        assert(s.push(x)[s.len() as int] == x);
    }
    if s.push(x).contains(y) && y != x {
        let i = choose|i: int| 0 <= i < s.push(x).len() && s.push(x)[i] == y;
        assert(s[i] == y);
    }
}

impl BaseFlowSnapshot {
    /// No signature is listed twice.
    pub open spec fn wf(&self) -> bool {
        &&& texts(self.flow@).no_duplicates()
        &&& texts(self.alt@).no_duplicates()
    }

    /// A snapshot of what the scans of the delegation program, of the
    /// committor program and of lookup tables found.
    pub fn new(delegation: &[String], committor: &[String], lookup_tables: &[String]) -> (r:
        BaseFlowSnapshot)
        ensures
            r.wf(),
            text_set(r.flow@) == text_set(delegation@).union(text_set(committor@)),
            text_set(r.alt@) == text_set(lookup_tables@),
    {
        let mut flow: Vec<String> = Vec::new();
        assert(text_set(flow@) =~= Set::<Seq<char>>::empty());
        add_signatures(&mut flow, delegation);
        add_signatures(&mut flow, committor);
        assert(text_set(flow@) =~= text_set(delegation@).union(text_set(committor@)));
        let mut alt: Vec<String> = Vec::new();
        assert(text_set(alt@) =~= Set::<Seq<char>>::empty());
        add_signatures(&mut alt, lookup_tables);
        assert(text_set(alt@) =~= text_set(lookup_tables@));
        BaseFlowSnapshot { flow, alt }
    }

    /// The transactions of a commit that were not there before.
    pub fn new_flow_since(&self, earlier: &BaseFlowSnapshot) -> (r: usize)
        requires
            self.wf(),
        ensures
            r == text_set(self.flow@).difference(text_set(earlier.flow@)).len(),
    {
        count_new(self.flow.as_slice(), earlier.flow.as_slice())
    }

    /// The transactions of lookup tables that were not there before.
    pub fn new_alt_since(&self, earlier: &BaseFlowSnapshot) -> (r: usize)
        requires
            self.wf(),
        ensures
            r == text_set(self.alt@).difference(text_set(earlier.alt@)).len(),
    {
        count_new(self.alt.as_slice(), earlier.alt.as_slice())
    }
}

/// What a cell came to.
#[derive(Clone, Copy, Debug)]
pub struct CellFacts {
    pub failed: u64,
    pub intents: Option<u64>,
    pub failed_intents: u64,
    pub alt_tables_used: u64,
    pub alt_base_txs: usize,
    pub backlog: u64,
    pub included_mismatch: usize,
    pub round_trips: u64,
    pub base_signatures: u64,
}

/// What a cell can be faulted for.
#[derive(Clone, Copy, Debug, PartialEq, Eq, Structural)]
pub enum CellFault {
    /// A commit failed.
    CommitFailed,
    /// Fewer intents ran than commits were sent.
    IntentsMissing,
    /// An intent failed.
    IntentFailed,
    /// The cell left the path without lookup tables.
    LookupTablesUsed,
    /// Lookup tables were written on the base chain.
    LookupTablesWritten,
    /// Intents were left over at the end.
    Backlog,
    /// A receipt listed other accounts than the commit.
    WrongAccounts,
    /// A commit had no receipt.
    ReceiptMissing,
    /// There were fewer base transactions than commits.
    TooFewBaseTxs,
}

/// The first thing that a cell is faulted for, in the order of the checks.
pub open spec fn cell_fault(facts: CellFacts, commits: u64) -> Option<CellFault> {
    if facts.failed != 0 {
        Some(CellFault::CommitFailed)
    } else if facts.intents matches Some(intents) && intents < commits {
        Some(CellFault::IntentsMissing)
    } else if facts.failed_intents != 0 {
        Some(CellFault::IntentFailed)
    } else if facts.alt_tables_used != 0 {
        Some(CellFault::LookupTablesUsed)
    } else if facts.alt_base_txs != 0 {
        Some(CellFault::LookupTablesWritten)
    } else if facts.backlog != 0 {
        Some(CellFault::Backlog)
    } else if facts.included_mismatch != 0 {
        Some(CellFault::WrongAccounts)
    } else if facts.round_trips != commits {
        Some(CellFault::ReceiptMissing)
    } else if facts.base_signatures < commits {
        Some(CellFault::TooFewBaseTxs)
    } else {
        None
    }
}

/// Checks what a cell came to.
pub fn check_cell(facts: &CellFacts, commits: u64) -> (r: Result<(), CellFault>)
    ensures
        match r {
            Ok(_) => cell_fault(*facts, commits) is None,
            Err(fault) => cell_fault(*facts, commits) == Some(fault),
        },
{
    if facts.failed != 0 {
        return Err(CellFault::CommitFailed);
    }
    if let Some(intents) = facts.intents {
        if intents < commits {
            return Err(CellFault::IntentsMissing);
        }
    }
    if facts.failed_intents != 0 {
        return Err(CellFault::IntentFailed);
    }
    if facts.alt_tables_used != 0 {
        return Err(CellFault::LookupTablesUsed);
    }
    if facts.alt_base_txs != 0 {
        return Err(CellFault::LookupTablesWritten);
    }
    if facts.backlog != 0 {
        return Err(CellFault::Backlog);
    }
    if facts.included_mismatch != 0 {
        return Err(CellFault::WrongAccounts);
    }
    if facts.round_trips != commits {
        return Err(CellFault::ReceiptMissing);
    }
    if facts.base_signatures < commits {
        return Err(CellFault::TooFewBaseTxs);
    }
    Ok(())
}

/// The accounts of a probe: the first `width` of the pool, or all of a
/// smaller pool.
pub fn probe_accounts(pdas: &[Pubkey], width: usize) -> (r: Vec<Pubkey>)
    ensures
        r@ == pdas@.take(
            if width <= pdas@.len() {
                width as int
            } else {
                pdas@.len() as int
            },
        ),
{
    let mut out: Vec<Pubkey> = Vec::new();
    let mut i: usize = 0;
    while i < width && i < pdas.len()
        invariant
            i <= width,
            i <= pdas@.len(),
            out@ == pdas@.take(i as int),
        decreases pdas@.len() - i,
    {
        out.push(pdas[i]);
        i = i + 1;
        assert(out@ =~= pdas@.take(i as int));
    }
    out
}

/// What the scheduler did with a probe.
#[derive(Clone, Copy, Debug, PartialEq, Eq, Structural)]
pub enum SchedulingOutcome {
    Confirmed,
    Rejected(Option<u32>),
}

/// What a probe showed.
#[derive(Clone, Copy, Debug, PartialEq, Eq, Structural)]
pub enum ProbeNote {
    /// The scheduler refused it for its size.
    RefusedAtScheduling,
    /// It went through with lookup tables.
    DeliveredViaTables,
    /// Its intent failed.
    IntentFailed,
    /// Its receipt cannot be had, but a failed intent was counted.
    NoReceipt,
}

/// What a probe can be faulted for.
#[derive(Clone, Copy, Debug, PartialEq, Eq, Structural)]
pub enum ProbeFault {
    /// It was refused for another reason.
    UnexpectedCode,
    /// Its intent failed.
    IntentFailed,
    /// It went through without lookup tables.
    NoTablesUsed,
    /// No lookup table was written on the base chain.
    NoTablesWritten,
    /// It went through.
    Succeeded,
    /// Its receipt carries another code.
    WrongReceiptCode,
    /// There is neither a failed receipt nor a failed intent.
    NoTrace,
}

/// What is known of a wide probe that was scheduled.
#[derive(Clone, Copy, Debug)]
pub struct WideProbeFacts {
    pub intent_failed: bool,
    pub alt_tables_used: Option<u64>,
    pub alt_base_txs: usize,
}

/// The verdict on the probe that needs lookup tables: a scheduler may refuse
/// it for its size; one that takes it must deliver it over lookup tables.
pub fn judge_wide_probe(outcome: SchedulingOutcome, facts: WideProbeFacts, too_large: u32) -> (r:
    Result<ProbeNote, ProbeFault>)
    ensures
        r == match outcome {
            SchedulingOutcome::Rejected(code) => if code == Some(too_large) {
                Ok::<_, ProbeFault>(ProbeNote::RefusedAtScheduling)
            } else {
                Err::<ProbeNote, _>(ProbeFault::UnexpectedCode)
            },
            SchedulingOutcome::Confirmed => if facts.intent_failed {
                Err(ProbeFault::IntentFailed)
            } else if facts.alt_tables_used == Some(0u64) {
                Err(ProbeFault::NoTablesUsed)
            } else if facts.alt_base_txs == 0 {
                Err(ProbeFault::NoTablesWritten)
            } else {
                Ok(ProbeNote::DeliveredViaTables)
            },
        },
        r == Ok::<_, ProbeFault>(ProbeNote::RefusedAtScheduling) <==> outcome
            == SchedulingOutcome::Rejected(Some(too_large)),
        r == Ok::<_, ProbeFault>(ProbeNote::DeliveredViaTables) <==> outcome
            == SchedulingOutcome::Confirmed && !facts.intent_failed && facts.alt_tables_used != Some(
            0u64,
        ) && facts.alt_base_txs > 0,
{
    match outcome {
        SchedulingOutcome::Rejected(code) => {
            if let Some(found) = code {
                if found == too_large {
                    return Ok(ProbeNote::RefusedAtScheduling);
                }
            }
            Err(ProbeFault::UnexpectedCode)
        },
        SchedulingOutcome::Confirmed => {
            if facts.intent_failed {
                return Err(ProbeFault::IntentFailed);
            }
            if let Some(used) = facts.alt_tables_used {
                if used == 0 {
                    return Err(ProbeFault::NoTablesUsed);
                }
            }
            if facts.alt_base_txs == 0 {
                return Err(ProbeFault::NoTablesWritten);
            }
            Ok(ProbeNote::DeliveredViaTables)
        },
    }
}

/// What the receipt of a scheduled probe says.
#[derive(Clone, Copy, Debug, PartialEq, Eq, Structural)]
pub enum ProbeReceipt {
    /// There is one.
    Fetched { succeeded: bool, code: Option<u32> },
    /// It cannot be had.
    Missing,
}

/// The verdict on the probe that fits in no way: it must be refused for its
/// size, or its intent must fail; where the receipt cannot be had, a failed
/// intent must have been counted.
pub fn judge_oversized_probe(
    outcome: SchedulingOutcome,
    receipt: ProbeReceipt,
    failed_intents: u64,
    too_large: u32,
    intent_failed_code: u32,
) -> (r: Result<ProbeNote, ProbeFault>)
    ensures
        r == match outcome {
            SchedulingOutcome::Rejected(code) => if code == Some(too_large) {
                Ok::<_, ProbeFault>(ProbeNote::RefusedAtScheduling)
            } else {
                Err::<ProbeNote, _>(ProbeFault::UnexpectedCode)
            },
            SchedulingOutcome::Confirmed => match receipt {
                ProbeReceipt::Fetched { succeeded, code } => if succeeded {
                    Err(ProbeFault::Succeeded)
                } else if code != Some(intent_failed_code) {
                    Err(ProbeFault::WrongReceiptCode)
                } else {
                    Ok(ProbeNote::IntentFailed)
                },
                ProbeReceipt::Missing => if failed_intents >= 1 {
                    Ok(ProbeNote::NoReceipt)
                } else {
                    Err(ProbeFault::NoTrace)
                },
            },
        },
        outcome == SchedulingOutcome::Confirmed ==> (r == Ok::<_, ProbeFault>(
            ProbeNote::IntentFailed,
        ) <==> receipt == (ProbeReceipt::Fetched {
            succeeded: false,
            code: Some(intent_failed_code),
        })),
        outcome == SchedulingOutcome::Confirmed ==> (r == Ok::<_, ProbeFault>(ProbeNote::NoReceipt)
            <==> receipt is Missing && failed_intents > 0),
{
    match outcome {
        SchedulingOutcome::Rejected(code) => {
            if let Some(found) = code {
                if found == too_large {
                    return Ok(ProbeNote::RefusedAtScheduling);
                }
            }
            Err(ProbeFault::UnexpectedCode)
        },
        SchedulingOutcome::Confirmed => match receipt {
            ProbeReceipt::Fetched { succeeded, code } => {
                if succeeded {
                    return Err(ProbeFault::Succeeded);
                }
                if let Some(found) = code {
                    if found == intent_failed_code {
                        return Ok(ProbeNote::IntentFailed);
                    }
                }
                Err(ProbeFault::WrongReceiptCode)
            },
            ProbeReceipt::Missing => if failed_intents >= 1 {
                Ok(ProbeNote::NoReceipt)
            } else {
                Err(ProbeFault::NoTrace)
            },
        },
    }
}

/// The verdict on the commit past the sponsored allowance: it must be refused
/// with the code of that limit.
pub fn judge_commit_limit(outcome: SchedulingOutcome, limit_code: u32) -> (r: Result<
    (),
    ProbeFault,
>)
    ensures
        r == match outcome {
            SchedulingOutcome::Confirmed => Err::<(), _>(ProbeFault::Succeeded),
            SchedulingOutcome::Rejected(code) => if code == Some(limit_code) {
                Ok::<(), ProbeFault>(())
            } else {
                Err(ProbeFault::UnexpectedCode)
            },
        },
        r is Ok <==> outcome == SchedulingOutcome::Rejected(Some(limit_code)),
{
    match outcome {
        SchedulingOutcome::Confirmed => Err(ProbeFault::Succeeded),
        SchedulingOutcome::Rejected(code) => {
            if let Some(found) = code {
                if found == limit_code {
                    return Ok(());
                }
            }
            Err(ProbeFault::UnexpectedCode)
        },
    }
}

/// Commits walk round the pool: every place is behind the one before it, and
/// the next commit goes on where this one ends.
pub proof fn commits_walk_round_the_pool(pool: int, width: int, id: int, position: int)
    requires
        0 < pool,
        0 <= width,
        1 <= id,
        0 <= position,
    ensures
        0 <= set_index(pool, width, id, position) < pool,
        set_index(pool, width, 1, 0) == 0,
        set_index(pool, width, id, position + 1) == (set_index(pool, width, id, position) + 1)
            % pool,
        set_index(pool, width, id + 1, 0) == set_index(pool, width, id, width),
{
    let start = (id - 1) * width;
    vstd::arithmetic::div_mod::lemma_add_mod_noop(start % pool + position, 1, pool);
    vstd::arithmetic::div_mod::lemma_add_mod_noop_right(1, start % pool + position, pool);
    vstd::arithmetic::div_mod::lemma_mod_bound(start % pool + position, pool);
    vstd::arithmetic::div_mod::lemma_mod_bound(start, pool);
    vstd::arithmetic::div_mod::lemma_small_mod(0, pool as nat);
    assert(0 * width == 0) by (nonlinear_arith);
    assert(id * width == start + width) by (nonlinear_arith)
        requires
            start == (id - 1) * width,
    ;
    vstd::arithmetic::div_mod::lemma_add_mod_noop_right(width, start, pool);
    vstd::arithmetic::div_mod::lemma_mod_twice(id * width, pool);
    assert(set_index(pool, width, id + 1, 0) == (id * width) % pool);
}

/// A cell is accepted exactly where nothing failed, nothing is left over, no
/// lookup table was touched, every commit came back with its own accounts, and
/// there are as many intents and transactions on the base chain as commits.
pub proof fn what_makes_a_cell_good(facts: CellFacts, commits: u64)
    ensures
        cell_fault(facts, commits) is None <==> {
            &&& facts.failed == 0
            &&& facts.failed_intents == 0
            &&& facts.alt_tables_used == 0
            &&& facts.alt_base_txs == 0
            &&& facts.backlog == 0
            &&& facts.included_mismatch == 0
            &&& facts.round_trips == commits
            &&& facts.base_signatures >= commits
            &&& facts.intents matches Some(intents) ==> intents >= commits
        },
        cell_fault(facts, commits) == Some(CellFault::CommitFailed) <==> facts.failed > 0,
        cell_fault(facts, commits) == Some(CellFault::IntentFailed) ==> facts.failed_intents > 0,
        cell_fault(facts, commits) == Some(CellFault::Backlog) ==> facts.backlog > 0,
        cell_fault(facts, commits) == Some(CellFault::WrongAccounts) ==> facts.included_mismatch
            > 0,
        cell_fault(facts, commits) == Some(CellFault::ReceiptMissing) ==> facts.round_trips
            != commits,
        cell_fault(facts, commits) == Some(CellFault::TooFewBaseTxs) ==> facts.base_signatures
            < commits,
        cell_fault(facts, commits) == Some(CellFault::LookupTablesUsed) ==> facts.alt_tables_used
            > 0,
        cell_fault(facts, commits) == Some(CellFault::LookupTablesWritten) ==> facts.alt_base_txs
            > 0,
        cell_fault(facts, commits) == Some(CellFault::IntentsMissing) ==> (
        facts.intents matches Some(intents) && intents < commits),
{
}

/// Two commits warm a cell up, the measured ones follow, and the next cell
/// begins where they end.
pub proof fn cells_follow_each_other(commits: int, cell: int)
    ensures
        warmup_offset(commits, 0) == 0,
        measured_offset(commits, cell) == warmup_offset(commits, cell) + 2,
        warmup_offset(commits, cell + 1) == measured_offset(commits, cell) + commits,
{
    assert((cell + 1) * (2 + commits) == cell * (2 + commits) + (2 + commits)) by (nonlinear_arith);
}

} // verus!
