//! Backups of a package's previous installs: how a backup directory is
//! named, and which backups are deleted once an update is over. Of a
//! package's backups the newest few survive; the others go, oldest first.

use crate::text::{signed_decimal, signed_decimal_string};
use vstd::prelude::*;
use vstd::string::*;

verus! {

/// The number of backups that survive an update.
pub const RETAINED_BACKUPS: usize = 3;

/// One backup below a package's backup root.
#[derive(Debug)]
pub struct BackupEntry {
    /// The name of the backup's directory.
    pub name: String,
    /// When the backup was created, on any clock that grows with time.
    pub created: u64,
}

/// The mathematical content of a [`BackupEntry`].
pub struct BackupEntryView {
    pub name: Seq<char>,
    pub created: u64,
}

impl View for BackupEntry {
    type V = BackupEntryView;

    open spec fn view(&self) -> BackupEntryView {
        BackupEntryView { name: self.name@, created: self.created }
    }
}

/// The views of a list of backups, one by one.
pub open spec fn entry_views(entries: Seq<BackupEntry>) -> Seq<BackupEntryView> {
    entries.map_values(|e: BackupEntry| e@)
}

/// The creation times of a list of backups, one by one.
pub open spec fn creation_times(entries: Seq<BackupEntryView>) -> Seq<u64> {
    entries.map_values(|e: BackupEntryView| e.created)
}

/// The backup at position `a` is older than the one at position `b`. Of
/// two backups created at the same time, the one listed first counts as older.
pub open spec fn older(created: Seq<u64>, a: int, b: int) -> bool {
    created[a] < created[b] || (created[a] == created[b] && a < b)
}

/// How many of `count` backups are deleted when `keep` may survive.
pub open spec fn excess(count: nat, keep: nat) -> nat {
    if count > keep {
        (count - keep) as nat
    } else {
        0
    }
}

/// `pruned` lists the positions of the backups to delete: the right number
/// of them, oldest first, and each of them older than every backup that stays.
pub open spec fn is_pruning(created: Seq<u64>, keep: nat, pruned: Seq<usize>) -> bool {
    &&& pruned.len() == excess(created.len(), keep)
    &&& forall|k: int| 0 <= k < pruned.len() ==> (#[trigger] pruned[k]) < created.len()
    &&& forall|a: int, b: int|
        0 <= a < b < pruned.len() ==> older(created, #[trigger] pruned[a] as int, #[trigger] pruned[b] as int)
    &&& forall|a: int, j: int|
        #![trigger older(created, pruned[a] as int, j)]
        0 <= a < pruned.len() && 0 <= j < created.len() && !pruned.contains(j as usize) ==> older(
            created,
            pruned[a] as int,
            j,
        )
}

/// The positions of the backups to delete, oldest first.
pub open spec fn pruning_of(created: Seq<u64>, keep: nat) -> Seq<usize> {
    choose|pruned: Seq<usize>| is_pruning(created, keep, pruned)
}

/// The names of the backups to delete, oldest first.
pub open spec fn names_to_remove(entries: Seq<BackupEntryView>, keep: nat) -> Seq<Seq<char>> {
    pruning_of(creation_times(entries), keep).map_values(|at: usize| entries[at as int].name)
}

/// `order` lists the first `n` positions, oldest first.
spec fn is_order(created: Seq<u64>, n: int, order: Seq<usize>) -> bool {
    &&& order.len() == n
    &&& forall|k: int| 0 <= k < order.len() ==> (#[trigger] order[k]) < n
    &&& forall|a: int, b: int|
        0 <= a < b < order.len() ==> older(
            created,
            #[trigger] order[a] as int,
            #[trigger] order[b] as int,
        )
    &&& forall|j: usize| j < n ==> #[trigger] order.contains(j)
}

/// Where position `x` goes among the first `at` of `order`: behind every
/// backup that is no younger than it.
spec fn place(created: Seq<u64>, order: Seq<usize>, x: int, at: nat) -> nat
    decreases at,
{
    if at > 0 && created[order[at - 1] as int] > created[x] {
        place(created, order, x, (at - 1) as nat)
    } else {
        at
    }
}

proof fn lemma_place(created: Seq<u64>, order: Seq<usize>, x: int, at: nat)
    requires
        at <= order.len(),
    ensures
        place(created, order, x, at) <= at,
        forall|k: int|
            place(created, order, x, at) <= k < at ==> created[(#[trigger] order[k]) as int]
                > created[x],
        place(created, order, x, at) > 0 ==> created[order[place(created, order, x, at) - 1] as int]
            <= created[x],
    decreases at,
{
    if at > 0 && created[order[at - 1] as int] > created[x] {
        lemma_place(created, order, x, (at - 1) as nat);
    }
}

/// Putting position `n` in its place keeps the order.
proof fn lemma_insert_keeps_order(created: Seq<u64>, n: int, order: Seq<usize>, at: int)
    requires
        0 <= n < created.len(),
        n < usize::MAX,
        is_order(created, n, order),
        0 <= at <= order.len(),
        forall|k: int| at <= k < order.len() ==> created[(#[trigger] order[k]) as int] > created[n],
        at > 0 ==> created[order[at - 1] as int] <= created[n],
    ensures
        is_order(created, n + 1, order.insert(at, n as usize)),
{
    let after = order.insert(at, n as usize);
    assert forall|k: int| 0 <= k < after.len() implies (#[trigger] after[k]) < n + 1 by {
        if k < at {
            assert(after[k] == order[k]);
        } else if k > at {
            assert(after[k] == order[k - 1]);
        }
    }
    assert forall|a: int, b: int| 0 <= a < b < after.len() implies older(
        created,
        #[trigger] after[a] as int,
        #[trigger] after[b] as int,
    ) by {
        if b < at {
            assert(after[a] == order[a] && after[b] == order[b]);
        } else if b == at {
            assert(after[a] == order[a]);
            if a < at - 1 {
                assert(older(created, order[a] as int, order[at - 1] as int));
            }
            assert(order[a] < n);
        } else if a < at {
            assert(after[a] == order[a] && after[b] == order[b - 1]);
        } else if a == at {
            assert(after[b] == order[b - 1]);
        } else {
            assert(after[a] == order[a - 1] && after[b] == order[b - 1]);
        }
    }
    assert forall|j: usize| j < n + 1 implies #[trigger] after.contains(j) by {
        if j < n {
            assert(order.contains(j));
            let p = choose|p: int| 0 <= p < order.len() && order[p] == j;
            if p < at {
                assert(after[p] == j);
            } else {
                assert(after[p + 1] == j);
            }
        } else {
            assert(after[at] == j);
        }
    }
}

/// The oldest of an ordered list are a pruning.
proof fn lemma_prefix_is_pruning(created: Seq<u64>, keep: nat, order: Seq<usize>)
    requires
        created.len() <= usize::MAX,
        is_order(created, created.len() as int, order),
    ensures
        is_pruning(created, keep, order.take(excess(created.len(), keep) as int)),
{
    let count = excess(created.len(), keep) as int;
    let pruned = order.take(count);
    assert forall|a: int, j: int|
        0 <= a < pruned.len() && 0 <= j < created.len() && !pruned.contains(
            j as usize,
        ) implies #[trigger] older(created, pruned[a] as int, j) by {
        assert(order.contains(j as usize));
        let p = choose|p: int| 0 <= p < order.len() && order[p] == j as usize;
        if p < count {
            assert(pruned[p] == j as usize);
        }
        assert(older(created, order[a] as int, order[p] as int));
    }
}

proof fn lemma_order_exists(created: Seq<u64>, n: int)
    requires
        0 <= n <= created.len() <= usize::MAX,
    ensures
        exists|order: Seq<usize>| is_order(created, n, order),
    decreases n,
{
    if n == 0 {
        assert(is_order(created, n, Seq::<usize>::empty()));
    } else {
        let m = n - 1;
        lemma_order_exists(created, m);
        let order = choose|order: Seq<usize>| is_order(created, m, order);
        let at = place(created, order, m, order.len());
        lemma_place(created, order, m, order.len());
        lemma_insert_keeps_order(created, m, order, at as int);
        assert(is_order(created, n, order.insert(at as int, m as usize)));
    }
}

/// Every list of backups has its pruning: `pruning_of` names the backups
/// to delete.
pub proof fn lemma_pruning_of(created: Seq<u64>, keep: nat)
    requires
        created.len() <= usize::MAX,
    ensures
        is_pruning(created, keep, pruning_of(created, keep)),
{
    let n = created.len() as int;
    lemma_order_exists(created, n);
    let order = choose|order: Seq<usize>| is_order(created, n, order);
    lemma_prefix_is_pruning(created, keep, order);
}

/// The name of the backup directory made at `timestamp`.
pub open spec fn backup_name(timestamp: int) -> Seq<char> {
    "backup_"@ + signed_decimal(timestamp)
}

/// After pruning, no more than `keep` backups are left, and none is
/// deleted while no more than `keep` exist.
pub proof fn lemma_survivors_within_retention(created: Seq<u64>, keep: nat, pruned: Seq<usize>)
    requires
        is_pruning(created, keep, pruned),
    ensures
        created.len() - pruned.len() <= keep,
        created.len() <= keep ==> pruned.len() == 0,
        created.len() >= keep ==> created.len() - pruned.len() == keep,
{
}

/// No backup is listed twice for deletion.
pub proof fn lemma_pruning_has_no_repeats(created: Seq<u64>, keep: nat, pruned: Seq<usize>)
    requires
        is_pruning(created, keep, pruned),
    ensures
        pruned.no_duplicates(),
{
    assert forall|a: int, b: int| 0 <= a < pruned.len() && 0 <= b < pruned.len() && a != b implies pruned[a]
        != pruned[b] by {
        if a < b {
            assert(older(created, pruned[a] as int, pruned[b] as int));
        } else {
            assert(older(created, pruned[b] as int, pruned[a] as int));
        }
    }
}

/// The backups to delete are determined by the creation times and the
/// retention count: two prunings of one list are the same.
pub proof fn lemma_pruning_is_unique(
    created: Seq<u64>,
    keep: nat,
    first: Seq<usize>,
    second: Seq<usize>,
)
    requires
        is_pruning(created, keep, first),
        is_pruning(created, keep, second),
    ensures
        first == second,
{
    lemma_same_prefix(created, keep, first, second, first.len() as int);
    assert(first =~= second);
}

proof fn lemma_same_prefix(
    created: Seq<u64>,
    keep: nat,
    first: Seq<usize>,
    second: Seq<usize>,
    k: int,
)
    requires
        is_pruning(created, keep, first),
        is_pruning(created, keep, second),
        0 <= k <= first.len(),
    ensures
        forall|i: int| 0 <= i < k ==> first[i] == second[i],
    decreases k,
{
    if k > 0 {
        lemma_same_prefix(created, keep, first, second, k - 1);
        let at = k - 1;
        let x = first[at];
        let y = second[at];
        if x != y {
            // `x` is not among the first `at` of `second`, so `y` is older than `x`.
            if second.contains(x) {
                let p = choose|p: int| 0 <= p < second.len() && second[p] == x;
                if p < at {
                    assert(first[p] == second[p]);
                    assert(older(created, first[p] as int, first[at] as int));
                }
                assert(older(created, second[at] as int, second[p] as int));
            } else {
                assert(older(created, second[at] as int, x as int));
            }
            // In the same way `x` is older than `y`.
            if first.contains(y) {
                let q = choose|q: int| 0 <= q < first.len() && first[q] == y;
                if q < at {
                    assert(first[q] == second[q]);
                    assert(older(created, second[q] as int, second[at] as int));
                }
                assert(older(created, first[at] as int, first[q] as int));
            } else {
                assert(older(created, first[at] as int, y as int));
            }
            assert(false);
        }
    }
}

/// Lists the backups to delete so that no more than `keep` are left: their
/// positions in `entries`, oldest first.
pub fn backups_to_prune(entries: &Vec<BackupEntry>, keep: usize) -> (pruned: Vec<usize>)
    ensures
        is_pruning(creation_times(entry_views(entries@)), keep as nat, pruned@),
        pruned@ == pruning_of(creation_times(entry_views(entries@)), keep as nat),
{
    let n = entries.len();
    let ghost created = creation_times(entry_views(entries@));
    // The positions seen so far, oldest first.
    let mut order: Vec<usize> = Vec::new();
    let mut i: usize = 0;
    while i < n
        invariant
            n == entries.len(),
            created == creation_times(entry_views(entries@)),
            i <= n,
            is_order(created, i as int, order@),
        decreases n - i,
    {
        let stamp = entries[i].created;
        let mut at: usize = order.len();
        while at > 0 && entries[order[at - 1]].created > stamp
            invariant
                n == entries.len(),
                created == creation_times(entry_views(entries@)),
                i < n,
                is_order(created, i as int, order@),
                at <= order.len(),
                stamp == created[i as int],
                forall|k: int|
                    at <= k < order.len() ==> created[(#[trigger] order@[k]) as int] > stamp,
            decreases at,
        {
            at -= 1;
        }
        proof {
            lemma_insert_keeps_order(created, i as int, order@, at as int);
        }
        order.insert(at, i);
        i += 1;
    }
    let count: usize = if n > keep {
        n - keep
    } else {
        0
    };
    let mut pruned: Vec<usize> = Vec::new();
    let mut k: usize = 0;
    while k < count
        invariant
            k <= count <= order.len(),
            pruned@ == order@.take(k as int),
        decreases count - k,
    {
        pruned.push(order[k]);
        k += 1;
        assert(pruned@ =~= order@.take(k as int));
    }
    proof {
        lemma_prefix_is_pruning(created, keep as nat, order@);
        lemma_pruning_is_unique(created, keep as nat, pruned@, pruning_of(created, keep as nat));
    }
    pruned
}

/// Lists the backups to delete so that no more than `keep` are left: their
/// names, oldest first.
pub fn backups_to_remove(entries: &Vec<BackupEntry>, keep: usize) -> (names: Vec<String>)
    ensures
        names.deep_view() == names_to_remove(entry_views(entries@), keep as nat),
{
    let pruned = backups_to_prune(entries, keep);
    let mut names: Vec<String> = Vec::new();
    let mut k: usize = 0;
    while k < pruned.len()
        invariant
            k <= pruned.len(),
            names.len() == k,
            forall|a: int| 0 <= a < pruned.len() ==> (#[trigger] pruned[a]) < entries.len(),
            forall|a: int| 0 <= a < k ==> (#[trigger] names[a])@ == entries[pruned[a] as int].name@,
        decreases pruned.len() - k,
    {
        names.push(entries[pruned[k]].name.clone());
        k += 1;
    }
    proof {
        let expected = names_to_remove(entry_views(entries@), keep as nat);
        assert(names.deep_view().len() == expected.len());
        assert forall|a: int| 0 <= a < expected.len() implies names.deep_view()[a] == expected[a] by {
            assert(names.deep_view()[a] == names[a]@);
        }
        assert(names.deep_view() =~= expected);
    }
    names
}

/// The name of the backup directory made at `timestamp`, a number of
/// seconds since the Unix epoch.
pub fn backup_dir_name(timestamp: i64) -> (name: String)
    ensures
        name@ == backup_name(timestamp as int),
{
    let mut name = String::from_str("backup_");
    let digits = signed_decimal_string(timestamp);
    name.append(digits.as_str());
    name
}

/// Reads the clock: hands `std::time::SystemTime::now()` to chrono's
/// conversion into `DateTime<Utc>` and takes its `timestamp()`, the seconds
/// since the Unix epoch. A clock that stands before the epoch gives a
/// negative number. Nothing is claimed of the number.
#[verifier::external_body]
fn unix_seconds_now() -> (seconds: i64) {
    chrono::DateTime::<chrono::Utc>::from(std::time::SystemTime::now()).timestamp()
}

/// The name of a backup directory made now.
pub fn fresh_backup_dir_name() -> (name: String)
    ensures
        exists|timestamp: i64| name@ == backup_name(timestamp as int),
{
    let timestamp = unix_seconds_now();
    backup_dir_name(timestamp)
}

} // verus!
