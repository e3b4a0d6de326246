//! Snapshots of the state: when one is taken, what it is called, and which ones are kept.
use vstd::prelude::*;
use vstd::string::*;

verus! {

/// How often snapshots are taken, where they are stored and how many are kept.
#[derive(Debug, Clone)]
pub struct SnapshotConfig {
    /// Interval between consecutive snapshots, in nanoseconds.
    pub interval: u128,
    /// Directory to store snapshots.
    pub directory: String,
    /// Maximum number of snapshots to retain.
    pub max_snapshots: usize,
}

impl Default for SnapshotConfig {
    /// A snapshot a minute in `./snapshots`, the last five of which are kept.
    fn default() -> (r: SnapshotConfig)
        ensures
            r.interval == 60_000_000_000,
            r.directory@ == "./snapshots"@,
            r.max_snapshots == 5,
    {
        SnapshotConfig {
            interval: 60_000_000_000,
            directory: "./snapshots".to_string(),
            max_snapshots: 5,
        }
    }
}

/// The hook that takes snapshots. Times are in nanoseconds since it was made.
#[derive(Debug, Clone)]
pub struct SnapshotHook {
    pub config: SnapshotConfig,
    /// When the last snapshot that was written was begun; zero where none was.
    pub last: u128,
}

/// What is to be done next for a snapshot.
#[derive(Debug, Clone, Copy, PartialEq, Eq)]
pub enum SnapshotStep {
    /// Create the directory.
    CreateDirectory,
    /// Create the snapshot's file.
    CreateFile,
    /// Write the state to the file.
    WriteState,
    /// List the directory.
    ListDirectory,
    /// Remove the files that are not kept.
    RemoveExpired,
    /// Nothing.
    Finished,
}

/// What follows a step of a snapshot. Without a file, a written state or a listing the rest is
/// left; a directory that cannot be created may be there already.
pub open spec fn step_after(step: SnapshotStep, succeeded: bool) -> SnapshotStep {
    match step {
        SnapshotStep::CreateDirectory => SnapshotStep::CreateFile,
        SnapshotStep::CreateFile if succeeded => SnapshotStep::WriteState,
        SnapshotStep::WriteState if succeeded => SnapshotStep::ListDirectory,
        SnapshotStep::ListDirectory if succeeded => SnapshotStep::RemoveExpired,
        _ => SnapshotStep::Finished,
    }
}

/// What a step of a snapshot that was begun at a time makes of the hook, and what follows the step.
pub open spec fn step_outcome(
    before: SnapshotHook,
    after: SnapshotHook,
    step: SnapshotStep,
    succeeded: bool,
    begun: u128,
    next: SnapshotStep,
) -> bool {
    &&& next == step_after(step, succeeded)
    &&& after.config == before.config
    &&& after.last == if step == SnapshotStep::WriteState && succeeded {
        begun
    } else {
        before.last
    }
}

/// Whether the file with number `i` comes before the one with number `j`, in the order of their
/// modification times. A file without one comes before those with one; of files with the same
/// time the one with the lower number comes first.
pub open spec fn older(modified: Seq<Option<i128>>, i: int, j: int) -> bool {
    match (modified[i], modified[j]) {
        (None, None) => i < j,
        (None, Some(_)) => true,
        (Some(_), None) => false,
        (Some(a), Some(b)) => a < b || (a == b && i < j),
    }
}

/// Whether `r` lists the oldest files, oldest first, such that `max` files are left.
pub open spec fn are_expired(modified: Seq<Option<i128>>, max: int, r: Seq<usize>) -> bool {
    &&& r.len() == if modified.len() > max {
        modified.len() - max
    } else {
        0
    }
    &&& forall|i: int| 0 <= i < r.len() ==> #[trigger] r[i] < modified.len()
    &&& forall|i: int, j: int|
        0 <= i < j < r.len() ==> older(modified, #[trigger] r[i] as int, #[trigger] r[j] as int)
    &&& forall|i: int, k: usize|
        0 <= i < r.len() && k < modified.len() && !(#[trigger] r.contains(k)) ==> older(
            modified,
            #[trigger] r[i] as int,
            k as int,
        )
}

/// The digits of the date and time of a number of seconds since the epoch under a format.
pub uninterp spec fn utc_stamp(secs: i64, format: Seq<char>) -> Option<Seq<char>>;

/// The name of the snapshot with a time stamp.
pub open spec fn file_name(stamp: Seq<char>) -> Seq<char> {
    "snapshot_"@ + stamp + ".json"@
}

/// Calls `chrono::DateTime::<chrono::Utc>::from_timestamp` and formats the date and time that it
/// gives with `DateTime::format`. Trusted: the text, and whether there is one, is a function of
/// the seconds and the format alone. A format that `chrono` does not know would panic.
#[verifier::external_body]
fn format_utc(secs: i64, format: &str) -> (r: Option<String>)
    requires
        format@ == "%Y%m%d%H%M%S"@,
    ensures
        match r {
            Some(text) => utc_stamp(secs, format@) == Some(text@),
            None => utc_stamp(secs, format@) is None,
        },
{
    let time = chrono::DateTime::<chrono::Utc>::from_timestamp(secs, 0)?;
    Some(time.format(format).to_string())
}

/// The name of the snapshot with a time stamp.
pub fn snapshot_file_name(stamp: &str) -> (r: String)
    ensures
        r@ == file_name(stamp@),
{
    let mut name: String = "snapshot_".to_string();
    name.append(stamp);
    name.append(".json");
    name
}

impl SnapshotConfig {
    /// A snapshot every `interval` nanoseconds in `directory`, the last `max_snapshots` of which
    /// are kept.
    pub fn new(interval: u128, directory: String, max_snapshots: usize) -> (r: SnapshotConfig)
        ensures
            r.interval == interval,
            r.directory == directory,
            r.max_snapshots == max_snapshots,
    {
        SnapshotConfig { interval, directory, max_snapshots }
    }

    /// The hook that takes the snapshots.
    pub fn into_state_hook(self) -> (r: SnapshotHook)
        ensures
            r.config == self,
            r.last == 0,
    {
        SnapshotHook { config: self, last: 0 }
    }
}

impl SnapshotHook {
    /// Whether the interval has passed since the last snapshot, or since the hook was made.
    pub open spec fn is_due(&self, elapsed: int) -> bool {
        elapsed - self.last >= self.config.interval
    }

    /// What to do on a state change `elapsed` nanoseconds after the hook was made.
    pub fn notified(&self, elapsed: u128) -> (r: SnapshotStep)
        ensures
            r == if self.is_due(elapsed as int) {
                SnapshotStep::CreateDirectory
            } else {
                SnapshotStep::Finished
            },
    {
        if elapsed >= self.last && elapsed - self.last >= self.config.interval {
            SnapshotStep::CreateDirectory
        } else {
            SnapshotStep::Finished
        }
    }

    /// What follows a step of the snapshot that was begun `begun` nanoseconds after the hook was
    /// made. A snapshot counts once its state is written.
    pub fn step_done(&mut self, step: SnapshotStep, succeeded: bool, begun: u128) -> (r:
        SnapshotStep)
        ensures
            step_outcome(*old(self), *final(self), step, succeeded, begun, r),
    {
        match step {
            SnapshotStep::CreateDirectory => SnapshotStep::CreateFile,
            SnapshotStep::CreateFile => if succeeded {
                SnapshotStep::WriteState
            } else {
                SnapshotStep::Finished
            },
            SnapshotStep::WriteState => if succeeded {
                self.last = begun;
                SnapshotStep::ListDirectory
            } else {
                SnapshotStep::Finished
            },
            SnapshotStep::ListDirectory => if succeeded {
                SnapshotStep::RemoveExpired
            } else {
                SnapshotStep::Finished
            },
            SnapshotStep::RemoveExpired => SnapshotStep::Finished,
            SnapshotStep::Finished => SnapshotStep::Finished,
        }
    }

    /// The name of a snapshot that is taken `secs` seconds after the epoch, where that is a date.
    pub fn snapshot_name(&self, secs: i64) -> (r: Option<String>)
        ensures
            match r {
                Some(name) => {
                    &&& utc_stamp(secs, "%Y%m%d%H%M%S"@) is Some
                    &&& name@ == file_name(utc_stamp(secs, "%Y%m%d%H%M%S"@)->Some_0)
                },
                None => utc_stamp(secs, "%Y%m%d%H%M%S"@) is None,
            },
    {
        match format_utc(secs, "%Y%m%d%H%M%S") {
            Some(stamp) => Some(snapshot_file_name(stamp.as_str())),
            None => None,
        }
    }

    /// The numbers of the files to remove from a directory, oldest first, given the files'
    /// modification times.
    pub fn expired(&self, modified: &Vec<Option<i128>>) -> (r: Vec<usize>)
        ensures
            are_expired(modified@, self.config.max_snapshots as int, r@),
    {
        let mut order: Vec<usize> = Vec::new();
        let mut i: usize = 0;
        while i < modified.len()
            invariant
                i <= modified@.len(),
                order@.len() == i,
                forall|k: int| 0 <= k < i ==> #[trigger] order@[k] < i,
                forall|k: usize| k < i ==> #[trigger] order@.contains(k),
                forall|a: int, b: int|
                    0 <= a < b < i ==> older(
                        modified@,
                        #[trigger] order@[a] as int,
                        #[trigger] order@[b] as int,
                    ),
            decreases modified@.len() - i,
        {
            insert_by_age(modified, &mut order, i);
            i = i + 1;
        }
        let n: usize = if modified.len() > self.config.max_snapshots {
            modified.len() - self.config.max_snapshots
        } else {
            0
        };
        let ghost all = order@;
        order.truncate(n);
        proof {
            assert(order@ =~= all.take(n as int));
            assert forall|a: int, k: usize|
                0 <= a < order@.len() && k < modified@.len() && !(#[trigger] order@.contains(
                    k,
                )) implies older(modified@, #[trigger] order@[a] as int, k as int) by {
                assert(all.contains(k));
                let p = choose|p: int| 0 <= p < all.len() && all[p] == k;
                if p < n {
                    assert(order@[p] == k);
                }
                assert(older(modified@, all[a] as int, all[p] as int));
            }
        }
        order
    }
}

/// Whether the file with number `i` comes before the one with number `j`.
fn is_older(modified: &Vec<Option<i128>>, i: usize, j: usize) -> (r: bool)
    requires
        i < modified@.len(),
        j < modified@.len(),
    ensures
        r == older(modified@, i as int, j as int),
{
    match (modified[i], modified[j]) {
        (None, None) => i < j,
        (None, Some(_)) => true,
        (Some(_), None) => false,
        (Some(a), Some(b)) => a < b || (a == b && i < j),
    }
}

/// Inserts the file with number `i` into the files with lower numbers, which are in order.
fn insert_by_age(modified: &Vec<Option<i128>>, order: &mut Vec<usize>, i: usize)
    requires
        i < modified@.len(),
        old(order)@.len() == i,
        forall|k: int| 0 <= k < i ==> #[trigger] old(order)@[k] < i,
        forall|k: usize| k < i ==> #[trigger] old(order)@.contains(k),
        forall|a: int, b: int|
            0 <= a < b < i ==> older(
                modified@,
                #[trigger] old(order)@[a] as int,
                #[trigger] old(order)@[b] as int,
            ),
    ensures
        final(order)@.len() == i + 1,
        forall|k: int| 0 <= k < i + 1 ==> #[trigger] final(order)@[k] < i + 1,
        forall|k: usize| k < i + 1 ==> #[trigger] final(order)@.contains(k),
        forall|a: int, b: int|
            0 <= a < b < i + 1 ==> older(
                modified@,
                #[trigger] final(order)@[a] as int,
                #[trigger] final(order)@[b] as int,
            ),
{
    let ghost before = order@;
    let mut at: usize = order.len();
    while at > 0 && is_older(modified, i, order[at - 1])
        invariant
            i < modified@.len(),
            order@ == before,
            before.len() == i,
            at <= i,
            forall|k: int| 0 <= k < i ==> #[trigger] before[k] < i,
            forall|k: int|
                at <= k < i ==> older(modified@, i as int, #[trigger] before[k] as int),
        decreases at,
    {
        at = at - 1;
    }
    order.insert(at, i);
    proof {
        let after = order@;
        assert(after == before.insert(at as int, i));
        assert forall|k: usize| k < i + 1 implies #[trigger] after.contains(k) by {
            if k == i {
                assert(after[at as int] == k);
            } else {
                assert(before.contains(k));
                let p = choose|p: int| 0 <= p < before.len() && before[p] == k;
                if p < at {
                    assert(after[p] == k);
                } else {
                    assert(after[p + 1] == k);
                }
            }
        }
        assert forall|a: int, b: int| 0 <= a < b < i + 1 implies older(
            modified@,
            #[trigger] after[a] as int,
            #[trigger] after[b] as int,
        ) by {
            let x = if a < at {
                a
            } else {
                a - 1
            };
            let y = if b < at {
                b
            } else {
                b - 1
            };
            if a == at {
                assert(after[b] == before[y]);
            } else if b == at {
                assert(after[a] == before[x]);
                assert(0 < at);
                let last = before[at - 1] as int;
                assert(older(modified@, last, i as int));
                if x < at - 1 {
                    assert(older(modified@, before[x] as int, last));
                }
            } else {
                assert(after[a] == before[x] && after[b] == before[y]);
            }
        }
    }
}

/// Once the expired files are removed, no more files are left than may be kept, and where there
/// were enough, exactly as many. None of those left is older than one that was removed.
pub proof fn law_retention(modified: Seq<Option<i128>>, max: int, r: Seq<usize>)
    requires
        0 <= max,
        modified.len() <= usize::MAX,
        are_expired(modified, max, r),
    ensures
        r.no_duplicates(),
        modified.len() - r.len() <= max,
        modified.len() >= max ==> modified.len() - r.len() == max,
        forall|i: usize, k: usize|
            r.contains(i) && k < modified.len() && !r.contains(k) ==> !(#[trigger] older(
                modified,
                k as int,
                i as int,
            )),
{
    assert forall|i: int, j: int| 0 <= i < r.len() && 0 <= j < r.len() && i != j implies r[i]
        != r[j] by {
        if i < j {
            assert(older(modified, r[i] as int, r[j] as int));
        } else {
            assert(older(modified, r[j] as int, r[i] as int));
        }
    }
    assert forall|i: usize, k: usize|
        r.contains(i) && k < modified.len() && !r.contains(k) implies !(#[trigger] older(
        modified,
        k as int,
        i as int,
    )) by {
        let p = choose|p: int| 0 <= p < r.len() && r[p] == i;
        assert(older(modified, r[p] as int, k as int));
    }
}

/// The files to remove are determined by the modification times and the number to keep.
pub proof fn law_retention_unique(
    modified: Seq<Option<i128>>,
    max: int,
    a: Seq<usize>,
    b: Seq<usize>,
)
    requires
        are_expired(modified, max, a),
        are_expired(modified, max, b),
    ensures
        a == b,
{
    assert forall|n: int| 0 <= n <= a.len() implies a.take(n) == b.take(n) by {
        lemma_same_prefix(modified, max, a, b, n);
    }
    assert(a.take(a.len() as int) =~= a);
    assert(b.take(b.len() as int) =~= b);
}

/// Two lists of the files to remove agree up to every place.
proof fn lemma_same_prefix(
    modified: Seq<Option<i128>>,
    max: int,
    a: Seq<usize>,
    b: Seq<usize>,
    n: int,
)
    requires
        are_expired(modified, max, a),
        are_expired(modified, max, b),
        0 <= n <= a.len(),
    ensures
        a.take(n) == b.take(n),
    decreases n,
{
    if n > 0 {
        lemma_same_prefix(modified, max, a, b, n - 1);
        let x = a[n - 1];
        let y = b[n - 1];
        if x != y {
            assert forall|k: int| 0 <= k < n - 1 implies a[k] == b[k] by {
                assert(a.take(n - 1)[k] == b.take(n - 1)[k]);
            }
            lemma_no_older_at(modified, max, b, a, n - 1);
            lemma_no_older_at(modified, max, a, b, n - 1);
        }
        assert(a.take(n) =~= a.take(n - 1).push(x));
        assert(b.take(n) =~= b.take(n - 1).push(y));
    }
}

/// Of two lists that agree before place `n`, the second has no older file at that place.
proof fn lemma_no_older_at(
    modified: Seq<Option<i128>>,
    max: int,
    a: Seq<usize>,
    b: Seq<usize>,
    n: int,
)
    requires
        are_expired(modified, max, a),
        are_expired(modified, max, b),
        0 <= n < a.len(),
        forall|k: int| 0 <= k < n ==> a[k] == b[k],
    ensures
        !older(modified, b[n] as int, a[n] as int),
{
    let y = b[n];
    if a.contains(y) {
        let p = choose|p: int| 0 <= p < a.len() && a[p] == y;
        if p < n {
            assert(older(modified, b[p] as int, b[n] as int));
        } else if p > n {
            assert(older(modified, a[n] as int, a[p] as int));
        }
    } else {
        assert(older(modified, a[n] as int, y as int));
    }
}

/// A state change less than the interval after the last snapshot that was written begins none.
pub proof fn law_snapshots_spaced(hook: SnapshotHook, begun: u128, elapsed: u128)
    requires
        hook.last == begun,
        elapsed < begun + hook.config.interval,
    ensures
        !hook.is_due(elapsed as int),
{
}

/// Snapshots with different time stamps have different names.
pub proof fn law_file_names_differ(a: Seq<char>, b: Seq<char>)
    requires
        file_name(a) == file_name(b),
    ensures
        a == b,
{
    let prefix = "snapshot_"@;
    let suffix = ".json"@;
    assert(file_name(a).len() == prefix.len() + a.len() + suffix.len());
    assert(file_name(b).len() == prefix.len() + b.len() + suffix.len());
    assert forall|i: int| 0 <= i < a.len() implies a[i] == b[i] by {
        assert(file_name(a)[prefix.len() + i] == a[i]);
        assert(file_name(b)[prefix.len() + i] == b[i]);
    }
    assert(a =~= b);
}

/// Once a snapshot's state is written, the next snapshot is due from one interval after that
/// snapshot was begun on, and not before. Any other step, and a state that could not be written,
/// leaves it due when it was.
pub proof fn law_next_snapshot(
    before: SnapshotHook,
    after: SnapshotHook,
    step: SnapshotStep,
    succeeded: bool,
    begun: u128,
    next: SnapshotStep,
    elapsed: int,
)
    requires
        step_outcome(before, after, step, succeeded, begun, next),
    ensures
        step == SnapshotStep::WriteState && succeeded ==> (after.is_due(elapsed) <==> elapsed
            >= begun + before.config.interval),
        step != SnapshotStep::WriteState || !succeeded ==> (after.is_due(elapsed)
            <==> before.is_due(elapsed)),
        before.is_due(elapsed) <==> elapsed >= before.last + before.config.interval,
{
}

/// A snapshot's steps follow each other in one order: files are removed only after a listing, a
/// listing is made only after a written state, the state is written only after the file was created,
/// and the file is created whether or not the directory could be. After anything else it is over.
pub proof fn law_step_order(
    before: SnapshotHook,
    after: SnapshotHook,
    step: SnapshotStep,
    succeeded: bool,
    begun: u128,
    next: SnapshotStep,
)
    requires
        step_outcome(before, after, step, succeeded, begun, next),
    ensures
        next == SnapshotStep::RemoveExpired <==> step == SnapshotStep::ListDirectory && succeeded,
        next == SnapshotStep::ListDirectory <==> step == SnapshotStep::WriteState && succeeded,
        next == SnapshotStep::WriteState <==> step == SnapshotStep::CreateFile && succeeded,
        next == SnapshotStep::CreateFile <==> step == SnapshotStep::CreateDirectory,
        next != SnapshotStep::CreateDirectory,
{
}

/// The files that are removed are the oldest: as many as there are beyond the number to keep, and none
/// of them was modified later than one that is left. Files without a modification time count as
/// oldest, and of files of the same age those that come first in the listing go first.
pub proof fn law_removed_files_are_oldest(modified: Seq<Option<i128>>, max: int, r: Seq<usize>)
    requires
        0 <= max,
        are_expired(modified, max, r),
    ensures
        modified.len() <= max ==> r.len() == 0,
        modified.len() > max ==> r.len() == modified.len() - max,
        forall|i: int| 0 <= i < r.len() ==> #[trigger] r[i] < modified.len(),
        forall|i: int, k: usize|
            0 <= i < r.len() && k < modified.len() && !(#[trigger] r.contains(k)) ==> {
                let gone = modified[#[trigger] r[i] as int];
                let left = modified[k as int];
                &&& left is None ==> gone is None
                &&& gone is Some && left is Some ==> gone->Some_0 <= left->Some_0
                &&& gone == left ==> r[i] < k
            },
        forall|i: int, j: int|
            0 <= i < j < r.len() ==> {
                let first = modified[#[trigger] r[i] as int];
                let later = modified[#[trigger] r[j] as int];
                &&& later is None ==> first is None
                &&& first is Some && later is Some ==> first->Some_0 <= later->Some_0
                &&& first == later ==> r[i] < r[j]
            },
{
    assert forall|i: int, k: usize|
        0 <= i < r.len() && k < modified.len() && !(#[trigger] r.contains(k)) implies {
        let gone = modified[#[trigger] r[i] as int];
        let left = modified[k as int];
        &&& left is None ==> gone is None
        &&& gone is Some && left is Some ==> gone->Some_0 <= left->Some_0
        &&& gone == left ==> r[i] < k
    } by {
        assert(older(modified, r[i] as int, k as int));
    }
    assert forall|i: int, j: int| 0 <= i < j < r.len() implies {
        let first = modified[#[trigger] r[i] as int];
        let later = modified[#[trigger] r[j] as int];
        &&& later is None ==> first is None
        &&& first is Some && later is Some ==> first->Some_0 <= later->Some_0
        &&& first == later ==> r[i] < r[j]
    } by {
        assert(older(modified, r[i] as int, r[j] as int));
    }
}

/// A snapshot's name is `snapshot_`, the time stamp and `.json`.
pub proof fn law_file_name_parts(stamp: Seq<char>)
    ensures
        file_name(stamp).len() == 14 + stamp.len(),
        file_name(stamp).take(9) == seq!['s', 'n', 'a', 'p', 's', 'h', 'o', 't', '_'],
        file_name(stamp).subrange(9, 9 + stamp.len() as int) == stamp,
        file_name(stamp).skip(9 + stamp.len() as int) == seq!['.', 'j', 's', 'o', 'n'],
{
    reveal_strlit("snapshot_");
    reveal_strlit(".json");
    assert(file_name(stamp).take(9) =~= seq!['s', 'n', 'a', 'p', 's', 'h', 'o', 't', '_']);
    assert(file_name(stamp).subrange(9, 9 + stamp.len() as int) =~= stamp);
    assert(file_name(stamp).skip(9 + stamp.len() as int) =~= seq!['.', 'j', 's', 'o', 'n']);
}

} // verus!
