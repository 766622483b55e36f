//! Schema migrations: an ordered list of one-shot schema transformation
//! steps, a durable ledger of the identifiers already applied, and the runner
//! that applies every pending step in ascending order, each in its own
//! transaction, aborting on the first failure.
//!
//! The store itself is outside this crate. A [`Migration`] models one step:
//! its identifier and the outcome its transaction has when it is executed
//! against the store (known only at run time in the real system; data here,
//! so the runner's behaviour is stated for every outcome).

use vstd::prelude::*;

verus! {

/// One schema migration step: a unique, monotonically ordered identifier and
/// the outcome of executing its transaction against the store.
#[derive(Clone, Copy, Debug, PartialEq, Eq, Structural)]
pub struct Migration {
    pub id: u64,
    pub succeeds: bool,
}

/// A migration run stopped: the transaction of the named step failed and was
/// rolled back; no later step was attempted.
#[derive(Clone, Copy, Debug, PartialEq, Eq, Structural)]
pub struct MigrationError {
    pub failed_id: u64,
}

/// The identifiers of a migration list, in order.
pub open spec fn ids(ms: Seq<Migration>) -> Seq<u64> {
    ms.map_values(|m: Migration| m.id)
}

/// Identifiers are strictly ascending, hence unique.
pub open spec fn strictly_ascending(ms: Seq<Migration>) -> bool {
    forall|i: int, j: int| 0 <= i < j < ms.len() ==> #[trigger] ms[i].id < #[trigger] ms[j].id
}

/// Index of the first migration at or after `k` whose transaction fails;
/// the length of the list when every one from `k` on succeeds.
pub open spec fn first_failure_from(ms: Seq<Migration>, k: int) -> int
    decreases ms.len() - k when 0 <= k <= ms.len()
{
    if k >= ms.len() {
        ms.len() as int
    } else if !ms[k].succeeds {
        k
    } else {
        first_failure_from(ms, k + 1)
    }
}

/// `first_failure_from` lands between `k` and the end of the list, every
/// step before it (from `k`) succeeds, and the step at it (if any) fails.
pub proof fn lemma_first_failure_from(ms: Seq<Migration>, k: int)
    requires
        0 <= k <= ms.len(),
    ensures
        k <= first_failure_from(ms, k) <= ms.len(),
        forall|i: int| k <= i < first_failure_from(ms, k) ==> #[trigger] ms[i].succeeds,
        first_failure_from(ms, k) < ms.len() ==> !ms[first_failure_from(ms, k)].succeeds,
    decreases ms.len() - k,
{
    if k < ms.len() && ms[k].succeeds {
        lemma_first_failure_from(ms, k + 1);
    }
}

/// A run that starts where nothing is pending applies nothing: once a run
/// has applied every migration, a second run over the same list finds no
/// pending step, applies zero migrations, and reports no error (by the
/// contract of `run_migrations`, since the first failure index of an
/// exhausted list is the list's length and the ledger already equals the full
/// identifier list).
pub proof fn lemma_second_run_applies_none(ms: Seq<Migration>)
    ensures
        first_failure_from(ms, ms.len() as int) == ms.len(),
        ids(ms).subrange(0, ms.len() as int) == ids(ms),
{
    assert(ids(ms).subrange(0, ms.len() as int) =~= ids(ms));
}

/// After a run stopped by a failing step, neither the failing step's
/// identifier nor any later one is in the ledger the run leaves behind.
pub proof fn lemma_failure_leaves_later_unapplied(ms: Seq<Migration>, k: int)
    requires
        strictly_ascending(ms),
        0 <= k <= ms.len(),
    ensures
        forall|j: int|
            first_failure_from(ms, k) <= j < ms.len() ==> !ids(ms).subrange(
                0,
                first_failure_from(ms, k),
            ).contains(#[trigger] ms[j].id),
{
    let ff = first_failure_from(ms, k);
    lemma_first_failure_from(ms, k);
    assert forall|j: int| ff <= j < ms.len() implies !ids(ms).subrange(0, ff).contains(
        #[trigger] ms[j].id,
    ) by {
        let led = ids(ms).subrange(0, ff);
        assert forall|l: int| 0 <= l < led.len() implies led[l] != ms[j].id by {
            assert(led[l] == ms[l].id);
            assert(ms[l].id < ms[j].id);
        }
    }
}

/// The durable ledger of applied migration identifiers, in application
/// order.
pub struct Ledger {
    applied: Vec<u64>,
}

impl Ledger {
    /// The applied identifiers, oldest first.
    pub closed spec fn view(&self) -> Seq<u64> {
        self.applied@
    }

    /// The ledger holds exactly the identifiers of the first `n` migrations
    /// of `ms`: applied versions form a prefix of the full ordered list.
    pub open spec fn is_prefix_of(&self, ms: Seq<Migration>) -> bool {
        &&& self@.len() <= ms.len()
        &&& self@ == ids(ms).subrange(0, self@.len() as int)
    }

    /// An empty ledger, as a fresh store holds.
    pub fn new() -> (r: Ledger)
        ensures
            r@ == Seq::<u64>::empty(),
    {
        Ledger { applied: Vec::new() }
    }

    /// How many migrations have been applied.
    pub fn count(&self) -> (r: usize)
        ensures
            r == self@.len(),
    {
        self.applied.len()
    }

    /// Whether the migration with identifier `id` has been applied.
    pub fn is_applied(&self, id: u64) -> (r: bool)
        ensures
            r == self@.contains(id),
    {
        let mut i: usize = 0;
        while i < self.applied.len()
            invariant
                0 <= i <= self@.len(),
                forall|j: int| 0 <= j < i ==> self@[j] != id,
            decreases self@.len() - i,
        {
            if self.applied[i] == id {
                return true;
            }
            i = i + 1;
        }
        false
    }

    /// The applied identifier at position `i`.
    pub fn applied_at(&self, i: usize) -> (r: u64)
        requires
            i < self@.len(),
        ensures
            r == self@[i as int],
    {
        self.applied[i]
    }

    /// Records one successfully committed migration; the moment its
    /// transaction commits is the only time a record is created, and the
    /// record is immutable thereafter.
    fn record(&mut self, id: u64)
        ensures
            final(self)@ == old(self)@.push(id),
    {
        self.applied.push(id);
    }
}

/// Applies every pending migration of `migrations` to the ledger, in
/// ascending order, one transaction per step.
///
/// Pending steps start where the ledger ends. On success returns how many
/// steps were applied and the ledger holds every identifier; on the first
/// failing step the run stops, that step's transaction leaves no trace, the
/// ledger holds exactly the identifiers before the failure, and the error
/// names the failing identifier.
pub fn run_migrations(ledger: &mut Ledger, migrations: &Vec<Migration>) -> (r: Result<
    usize,
    MigrationError,
>)
    requires
        strictly_ascending(migrations@),
        old(ledger).is_prefix_of(migrations@),
    ensures
        final(ledger).is_prefix_of(migrations@),
        old(ledger)@ == final(ledger)@.subrange(0, old(ledger)@.len() as int),
        ({
            let k = old(ledger)@.len() as int;
            let ff = first_failure_from(migrations@, k);
            &&& final(ledger)@ == ids(migrations@).subrange(0, ff)
            &&& (ff == migrations@.len() ==> r == Ok::<usize, MigrationError>((ff - k) as usize))
            &&& (ff < migrations@.len() ==> r == Err::<usize, MigrationError>(
                MigrationError { failed_id: migrations@[ff].id },
            ))
        }),
{
    let start = ledger.count();
    let ghost k = start as int;
    let mut i: usize = start;
    let n = migrations.len();
    proof {
        lemma_first_failure_from(migrations@, k);
        assert(ids(migrations@).len() == migrations@.len());
        assert(ledger@ =~= ids(migrations@).subrange(0, k));
    }
    while i < n
        invariant
            n == migrations@.len(),
            ids(migrations@).len() == migrations@.len(),
            strictly_ascending(migrations@),
            0 <= k == old(ledger)@.len(),
            k == start as int,
            k <= i <= n,
            first_failure_from(migrations@, k) == first_failure_from(migrations@, i as int),
            ledger@ == ids(migrations@).subrange(0, i as int),
            old(ledger)@ == ids(migrations@).subrange(0, k),
        decreases n - i,
    {
        let m = migrations[i];
        if !m.succeeds {
            proof {
                assert(first_failure_from(migrations@, i as int) == i);
                assert(old(ledger)@.len() == k);
                assert(ledger@.len() == i);
                assert(ledger@.subrange(0, k).len() == k);
                assert forall|j: int| 0 <= j < k implies #[trigger] ledger@.subrange(0, k)[j]
                    == old(ledger)@[j] by {
                    assert(ledger@.subrange(0, k)[j] == ledger@[j]);
                    assert(ledger@[j] == ids(migrations@).subrange(0, i as int)[j]);
                    assert(ids(migrations@).subrange(0, i as int)[j] == ids(migrations@)[j]);
                    assert(old(ledger)@[j] == ids(migrations@).subrange(0, k)[j]);
                    assert(ids(migrations@).subrange(0, k)[j] == ids(migrations@)[j]);
                }
                assert(old(ledger)@ =~= ledger@.subrange(0, k));
            }
            return Err(MigrationError { failed_id: m.id });
        }
        ledger.record(m.id);
        proof {
            assert(migrations@[i as int].succeeds);
            assert(first_failure_from(migrations@, i as int) == first_failure_from(
                migrations@,
                i as int + 1,
            ));
            assert(ledger@ =~= ids(migrations@).subrange(0, i + 1));
        }
        i = i + 1;
    }
    proof {
        assert(first_failure_from(migrations@, n as int) == n);
        assert(ledger@ =~= ids(migrations@).subrange(0, n as int));
        assert forall|j: int| 0 <= j < k implies #[trigger] ledger@.subrange(0, k)[j] == old(
            ledger,
        )@[j] by {
            assert(ledger@[j] == ids(migrations@).subrange(0, n as int)[j]);
            assert(old(ledger)@[j] == ids(migrations@).subrange(0, k)[j]);
        }
        assert(old(ledger)@ =~= ledger@.subrange(0, k));
    }
    Ok(n - start)
}

} // verus!
