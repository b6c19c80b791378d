//! Rotating logs, pruning their backups, and reading them as one history.

use vstd::prelude::*;

use crate::logs::files::{backup_number, rotation_number};
use crate::text::texts;

verus! {

// ---------------------------------------------------------------------------
// Ordering
// ---------------------------------------------------------------------------

/// Whether position `a` comes before position `b` in the order of `keys`: the smaller key first,
/// equal keys in their given order.
pub open spec fn comes_first(keys: Seq<i128>, a: int, b: int) -> bool {
    keys[a] < keys[b] || (keys[a] == keys[b] && a < b)
}

/// Whether `order` lists the positions below `n`, each once, in the order of `keys`.
pub open spec fn is_order(keys: Seq<i128>, order: Seq<usize>, n: int) -> bool {
    &&& order.len() == n
    &&& forall|i: int| 0 <= i < n ==> (#[trigger] order[i]) < n
    &&& forall|i: int, j: int|
        #![trigger order[i], order[j]]
        0 <= i < j < n ==> comes_first(keys, order[i] as int, order[j] as int)
}

/// The positions of `keys`, from the smallest key to the largest, equal keys in their given order.
pub fn ordered(keys: &Vec<i128>) -> (r: Vec<usize>)
    ensures
        is_order(keys@, r@, keys@.len() as int),
{
    let mut order: Vec<usize> = Vec::new();
    let mut k: usize = 0;
    while k < keys.len()
        invariant
            k <= keys.len(),
            is_order(keys@, order@, k as int),
        decreases keys.len() - k,
    {
        let ghost before = order@;
        let mut p: usize = k;
        while p > 0 && keys[order[p - 1]] > keys[k]
            invariant
                p <= k < keys.len(),
                order@ == before,
                is_order(keys@, before, k as int),
                forall|i: int| p <= i < k ==> keys@[(#[trigger] before[i]) as int] > keys@[k as int],
            decreases p,
        {
            p = p - 1;
        }
        proof {
            assert forall|i: int| 0 <= i < p implies keys@[(#[trigger] before[i]) as int]
                <= keys@[k as int] by {
                assert(before[i] < k);
                assert(before[p - 1] < k);
                if i < p - 1 {
                    assert(comes_first(keys@, before[i] as int, before[p - 1] as int));
                }
            }
        }
        order.insert(p, k);
        proof {
            assert(order@ =~= before.insert(p as int, k));
            assert forall|i: int, j: int|
                #![trigger order@[i], order@[j]]
                0 <= i < j < k + 1 implies comes_first(keys@, order@[i] as int, order@[j] as int) by {
                if i < p && j < p {
                    assert(comes_first(keys@, before[i] as int, before[j] as int));
                } else if i < p && j > p {
                    assert(comes_first(keys@, before[i] as int, before[j - 1] as int));
                } else if i > p {
                    assert(comes_first(keys@, before[i - 1] as int, before[j - 1] as int));
                } else if j == p {
                    assert(before[i] < k);
                } else {
                    assert(before[j - 1] < k);
                }
            }
            assert forall|i: int| 0 <= i < k + 1 implies (#[trigger] order@[i]) < k + 1 by {
                if i < p {
                    assert(before[i] < k);
                } else if i > p {
                    assert(before[i - 1] < k);
                }
            }
        }
        k = k + 1;
    }
    order
}

// ---------------------------------------------------------------------------
// Rotation
// ---------------------------------------------------------------------------

/// One step of a rotation. Number zero is the active log, the others are its backups.
#[derive(Debug, Clone, Copy, PartialEq, Eq, Structural)]
pub enum RotationStep {
    /// Remove a file, if it is there.
    Remove(usize),
    /// Rename a file, if it is there, over whatever has the new name.
    Rename {
        /// The number it has.
        from: usize,
        /// The number it gets.
        to: usize,
    },
}

/// The files after one step; `files` maps numbers to contents.
pub open spec fn after_step(files: Map<int, Seq<u8>>, step: RotationStep) -> Map<int, Seq<u8>> {
    match step {
        RotationStep::Remove(n) => files.remove(n as int),
        RotationStep::Rename { from, to } => if files.contains_key(from as int) {
            files.remove(from as int).insert(to as int, files[from as int])
        } else {
            files
        },
    }
}

/// The files after several steps.
pub open spec fn after_steps(files: Map<int, Seq<u8>>, steps: Seq<RotationStep>) -> Map<
    int,
    Seq<u8>,
>
    decreases steps.len(),
{
    if steps.len() == 0 {
        files
    } else {
        after_step(after_steps(files, steps.drop_last()), steps.last())
    }
}

/// The files after a rotation that keeps `max_files` backups: every file has moved up by one, and
/// what would have moved beyond the last backup is gone. Files beyond it are left alone.
pub open spec fn rotated(files: Map<int, Seq<u8>>, max_files: nat) -> Map<int, Seq<u8>> {
    if max_files == 0 {
        files.remove(0)
    } else {
        moved_up(files, 0, max_files as int)
    }
}

/// The files once those with numbers from `k` up have moved up by one, with `max` the last number
/// that is kept.
pub open spec fn moved_up(files: Map<int, Seq<u8>>, k: int, max: int) -> Map<int, Seq<u8>> {
    Map::new(
        |i: int|
            if k < i <= max {
                files.contains_key(i - 1)
            } else if i == k {
                false
            } else {
                files.contains_key(i)
            },
        |i: int|
            if k < i <= max {
                files[i - 1]
            } else {
                files[i]
            },
    )
}

/// The steps that rotate a log, keeping at most `max_files` backups.
pub fn rotate_log_file(max_files: usize) -> (r: Vec<RotationStep>)
    ensures
        forall|files: Map<int, Seq<u8>>| #[trigger]
            after_steps(files, r@) == rotated(files, max_files as nat),
{
    let mut steps: Vec<RotationStep> = Vec::new();
    if max_files == 0 {
        steps.push(RotationStep::Remove(0));
        proof {
            assert forall|files: Map<int, Seq<u8>>| #[trigger]
                after_steps(files, steps@) == rotated(files, max_files as nat) by {
                assert(steps@.drop_last() =~= Seq::<RotationStep>::empty());
                assert(steps@.last() == RotationStep::Remove(0));
                reveal_with_fuel(after_steps, 2);
            }
        }
        return steps;
    }
    steps.push(RotationStep::Remove(max_files));
    proof {
        assert forall|files: Map<int, Seq<u8>>| #[trigger]
            after_steps(files, steps@) == moved_up(files, max_files as int, max_files as int) by {
            assert(steps@.drop_last() =~= Seq::<RotationStep>::empty());
            assert(steps@.last() == RotationStep::Remove(max_files));
            reveal_with_fuel(after_steps, 2);
            assert(files.remove(max_files as int) =~= moved_up(
                files,
                max_files as int,
                max_files as int,
            ));
        }
    }
    let mut k: usize = max_files;
    while k > 0
        invariant
            k <= max_files,
            max_files > 0,
            forall|files: Map<int, Seq<u8>>| #[trigger]
                after_steps(files, steps@) == moved_up(files, k as int, max_files as int),
        decreases k,
    {
        let ghost before = steps@;
        k = k - 1;
        steps.push(RotationStep::Rename { from: k, to: k + 1 });
        proof {
            assert forall|files: Map<int, Seq<u8>>| #[trigger]
                after_steps(files, steps@) == moved_up(files, k as int, max_files as int) by {
                assert(steps@.drop_last() =~= before);
                let m = after_steps(files, before);
                assert(m == moved_up(files, k + 1, max_files as int));
                assert(after_step(m, steps@.last()) =~= moved_up(files, k as int, max_files as int));
            }
        }
    }
    steps
}

/// A rotation loses no more than the oldest backup, and there are never more backups than wanted.
pub proof fn law_rotation_shifts(files: Map<int, Seq<u8>>, max_files: nat, i: int)
    requires
        max_files > 0,
        forall|n: int| #[trigger] files.contains_key(n) ==> 0 <= n <= max_files,
    ensures
        rotated(files, max_files).contains_key(i) ==> 1 <= i <= max_files,
        files.contains_key(i) && i < max_files ==> rotated(files, max_files).contains_key(i + 1)
            && rotated(files, max_files)[i + 1] == files[i],
{
}

/// How full the active log is, and when it is rotated.
#[derive(Debug, Clone, Copy, PartialEq, Eq, Structural)]
pub struct ActiveLog {
    /// How many bytes the active log holds.
    pub active_len: u64,
    /// The most it should hold; no limit when zero.
    pub max_bytes: u64,
}

/// The sum, or the largest number when it is larger.
pub open spec fn capped_sum(a: u64, b: u64) -> u64 {
    if a + b > u64::MAX {
        u64::MAX
    } else {
        (a + b) as u64
    }
}

impl ActiveLog {
    /// Whether the log is rotated before a line of this length is written.
    pub open spec fn overflows(self, line_len: u64) -> bool {
        self.max_bytes > 0 && self.active_len > 0 && capped_sum(self.active_len, line_len)
            > self.max_bytes
    }

    /// Accounts for a line about to be written, and says whether the log is rotated first.
    pub fn write_line(&mut self, line_len: u64) -> (r: bool)
        ensures
            r == old(self).overflows(line_len),
            final(self).max_bytes == old(self).max_bytes,
            final(self).active_len == if r {
                line_len
            } else {
                capped_sum(old(self).active_len, line_len)
            },
    {
        let sum: u64 = self.active_len.saturating_add(line_len);
        let rotate = self.max_bytes > 0 && self.active_len > 0 && sum > self.max_bytes;
        self.active_len = if rotate {
            line_len
        } else {
            sum
        };
        rotate
    }
}

/// A log with a limit exceeds it only by a single line that is too long by itself.
pub proof fn law_active_log_is_bounded(log: ActiveLog, line_len: u64)
    requires
        log.max_bytes > 0,
    ensures
        ({
            let after = if log.overflows(line_len) {
                line_len
            } else {
                capped_sum(log.active_len, line_len)
            };
            after <= log.max_bytes || after == line_len
        }),
{
}

// ---------------------------------------------------------------------------
// History
// ---------------------------------------------------------------------------

/// The numbered backups among `files`, by their number.
pub open spec fn numbered(base: Seq<char>, files: Seq<Seq<char>>) -> Seq<(nat, Seq<char>)>
    decreases files.len(),
{
    if files.len() == 0 {
        seq![]
    } else {
        let before = numbered(base, files.drop_last());
        match backup_number(base, files.last()) {
            Some(n) => before.push((n, files.last())),
            None => before,
        }
    }
}

/// Whether `names` lists the backups `found` from the highest number to the lowest, equal numbers
/// in their given order.
pub open spec fn newest_last(found: Seq<(nat, Seq<char>)>, order: Seq<usize>, names: Seq<Seq<char>>) -> bool {
    &&& is_order(found.map_values(|f: (nat, Seq<char>)| (-(f.0 as int)) as i128), order, found.len() as int)
    &&& names.len() == found.len()
    &&& forall|i: int| 0 <= i < names.len() ==> #[trigger] names[i] == found[order[i] as int].1
}

/// The files that hold a log's history, oldest first: its backups from the highest number to the
/// lowest, then the active log when it exists or when there is nothing else.
pub fn rotated_history_paths(base: &str, files: &Vec<String>, active_exists: bool) -> (r: Vec<String>)
    ensures
        ({
            let found = numbered(base@, texts(files@));
            let with_active = active_exists || found.len() == 0;
            &&& texts(r@).len() == found.len() + if with_active {
                1int
            } else {
                0int
            }
            &&& with_active ==> texts(r@).last() == base@
            &&& exists|order: Seq<usize>| #[trigger]
                newest_last(found, order, texts(r@).take(found.len() as int))
        }),
{
    let ghost all = texts(files@);
    let ghost found = numbered(base@, all);
    let mut keys: Vec<i128> = Vec::new();
    let mut places: Vec<usize> = Vec::new();
    let mut i: usize = 0;
    assert(all.take(0) =~= Seq::<Seq<char>>::empty());
    while i < files.len()
        invariant
            i <= files.len(),
            all == texts(files@),
            keys@.len() == places@.len(),
            keys@.len() == numbered(base@, all.take(i as int)).len(),
            forall|j: int|
                #![trigger keys@[j]]
                #![trigger places@[j]]
                0 <= j < keys@.len() ==> {
                    let f = numbered(base@, all.take(i as int))[j];
                    &&& f.0 <= u64::MAX
                    &&& keys@[j] == -(f.0 as int)
                    &&& places@[j] < files@.len()
                    &&& all[places@[j] as int] == f.1
                },
        decreases files.len() - i,
    {
        assert(all.take(i + 1).drop_last() =~= all.take(i as int));
        assert(all[i as int] == files@[i as int]@);
        let ghost before = numbered(base@, all.take(i as int));
        let ghost keys0 = keys@;
        let ghost places0 = places@;
        match rotation_number(base, files[i].as_str()) {
            Some(n) => {
                keys.push(-(n as i128));
                places.push(i);
                assert(numbered(base@, all.take(i + 1)) == before.push((n as nat, all[i as int])));
            },
            None => {
                assert(numbered(base@, all.take(i + 1)) == before);
            },
        }
        proof {
            let after = numbered(base@, all.take(i + 1));
            assert forall|j: int| 0 <= j < keys@.len() implies {
                let f = #[trigger] after[j];
                &&& f.0 <= u64::MAX
                &&& keys@[j] == -(f.0 as int)
                &&& places@[j] < files@.len()
                &&& all[places@[j] as int] == f.1
            } by {
                if j < before.len() {
                    assert(keys0[j] == keys@[j] && places0[j] == places@[j]);
                }
            }
        }
        i = i + 1;
    }
    assert(all.take(all.len() as int) =~= all);
    let order = ordered(&keys);
    assert(found.map_values(|f: (nat, Seq<char>)| (-(f.0 as int)) as i128) =~= keys@);
    let mut out: Vec<String> = Vec::new();
    let mut k: usize = 0;
    while k < order.len()
        invariant
            k <= order.len(),
            order@.len() == found.len(),
            keys@.len() == found.len(),
            places@.len() == found.len(),
            all == texts(files@),
            is_order(keys@, order@, found.len() as int),
            forall|j: int|
                #![trigger places@[j]]
                0 <= j < places@.len() ==> places@[j] < files@.len() && all[places@[j] as int]
                    == found[j].1,
            out@.len() == k,
            forall|j: int| 0 <= j < k ==> (#[trigger] out@[j])@ == found[order@[j] as int].1,
        decreases order.len() - k,
    {
        let p: usize = order[k];
        let q: usize = places[p];
        assert(all[q as int] == files@[q as int]@);
        out.push(files[q].clone());
        k = k + 1;
    }
    let n: usize = out.len();
    let ghost names = texts(out@);
    assert forall|j: int| 0 <= j < names.len() implies #[trigger] names[j] == found[order@[j] as int].1 by {
        assert(names[j] == out@[j]@);
    }
    assert(newest_last(found, order@, names));
    if active_exists || n == 0 {
        out.push(base.to_owned());
        assert(texts(out@).take(n as int) =~= names);
    } else {
        assert(texts(out@).take(n as int) =~= names);
    }
    out
}

// ---------------------------------------------------------------------------
// Pruning
// ---------------------------------------------------------------------------

/// What a prune removed.
#[derive(Debug, Clone, Copy, PartialEq, Eq, Structural)]
pub struct PruneSummary {
    /// How many files.
    pub removed_files: usize,
    /// How many bytes.
    pub reclaimed_bytes: u64,
}

impl Default for PruneSummary {
    fn default() -> (r: Self)
        ensures
            r.removed_files == 0,
            r.reclaimed_bytes == 0,
    {
        PruneSummary { removed_files: 0, reclaimed_bytes: 0 }
    }
}

/// A backup that might be pruned.
#[derive(Debug, Clone, Copy, PartialEq, Eq, Structural)]
pub struct Backup {
    /// Its size.
    pub len: u64,
    /// When it was last written, as a count that grows with time.
    pub modified: i128,
    /// How many seconds ago that was.
    pub age: u64,
}

/// The sizes of the backups from `at` on.
pub open spec fn sizes_from(backups: Seq<Backup>, queue: Seq<usize>, at: int) -> int
    decreases queue.len() - at,
{
    if 0 <= at < queue.len() {
        backups[queue[at] as int].len + sizes_from(backups, queue, at + 1)
    } else {
        0
    }
}

/// The pruning of backups in progress, oldest first. Too old ones go first; those that are left
/// then go until they are small enough together.
pub struct PruneRun {
    /// The backups.
    pub backups: Vec<Backup>,
    /// The order in which they are looked at, oldest first.
    pub queue: Vec<usize>,
    /// The largest age that is kept.
    pub max_age: Option<u64>,
    /// The most bytes that are kept together.
    pub max_bytes: Option<u64>,
    /// Whether the ages are still being looked at.
    pub by_age: bool,
    /// The next place in the queue.
    pub at: usize,
    /// The backups that are not too old, oldest first.
    pub kept: Vec<usize>,
    /// The bytes that are left, once ages no longer matter.
    pub total: u128,
    /// What was removed.
    pub summary: PruneSummary,
}

/// Whether every place in `queue` is one of a backup.
pub open spec fn in_range(queue: Seq<usize>, n: int) -> bool {
    forall|i: int| 0 <= i < queue.len() ==> (#[trigger] queue[i]) < n
}

impl PruneRun {
    /// What always holds. Once ages no longer matter, the bytes that are counted are at least those
    /// of the backups that have not been looked at.
    pub open spec fn sound(&self) -> bool {
        &&& in_range(self.queue@, self.backups@.len() as int)
        &&& in_range(self.kept@, self.backups@.len() as int)
        &&& self.at <= self.queue@.len()
        &&& !self.by_age ==> sizes_from(self.backups@, self.queue@, self.at as int) <= self.total
    }

    /// The backup at the head of the queue.
    pub open spec fn head(&self) -> Backup {
        self.backups@[self.queue@[self.at as int] as int]
    }

    /// Whether the backup at the head of the queue is to be removed.
    pub open spec fn removes_next(&self) -> bool {
        self.at < self.queue@.len() && if self.by_age {
            too_old(self.max_age, self.head())
        } else {
            self.max_bytes is Some && self.total > self.max_bytes->0
        }
    }

    /// Begins to prune.
    pub fn begin(backups: Vec<Backup>, max_bytes: Option<u64>, max_age: Option<u64>) -> (r: Self)
        ensures
            r.sound(),
            r.backups == backups,
            r.max_bytes == max_bytes,
            r.max_age == max_age,
            is_order(
                backups@.map_values(|b: Backup| b.modified),
                r.queue@,
                backups@.len() as int,
            ),
            r.by_age,
            r.at == 0,
            r.kept@ == Seq::<usize>::empty(),
            r.summary.removed_files == 0,
            r.summary.reclaimed_bytes == 0,
    {
        let mut keys: Vec<i128> = Vec::new();
        let mut i: usize = 0;
        while i < backups.len()
            invariant
                i <= backups.len(),
                keys@ == backups@.take(i as int).map_values(|b: Backup| b.modified),
            decreases backups.len() - i,
        {
            keys.push(backups[i].modified);
            i = i + 1;
            assert(keys@ =~= backups@.take(i as int).map_values(|b: Backup| b.modified));
        }
        assert(backups@.take(backups@.len() as int) =~= backups@);
        let queue = ordered(&keys);
        PruneRun {
            backups,
            queue,
            max_age,
            max_bytes,
            by_age: true,
            at: 0,
            kept: Vec::new(),
            total: 0,
            summary: PruneSummary::default(),
        }
    }

    /// The next backup to remove, if there is one. What is kept is passed over.
    pub fn next(&mut self) -> (r: Option<usize>)
        requires
            old(self).sound(),
        ensures
            final(self).sound(),
            final(self).backups == old(self).backups,
            final(self).max_age == old(self).max_age,
            final(self).max_bytes == old(self).max_bytes,
            final(self).summary == old(self).summary,
            old(self).by_age && final(self).by_age ==> {
                &&& final(self).queue == old(self).queue
                &&& old(self).at <= final(self).at
                &&& final(self).kept@ == old(self).kept@ + old(self).queue@.subrange(
                    old(self).at as int,
                    final(self).at as int,
                )
                &&& forall|i: int|
                    old(self).at <= i < final(self).at ==> !too_old(
                        old(self).max_age,
                        old(self).backups@[(#[trigger] old(self).queue@[i]) as int],
                    )
            },
            old(self).by_age && !final(self).by_age ==> {
                &&& final(self).queue@ == old(self).kept@ + old(self).queue@.skip(old(self).at as int)
                &&& final(self).at == 0
                &&& final(self).total == sizes_from(final(self).backups@, final(self).queue@, 0)
                &&& forall|i: int|
                    old(self).at <= i < old(self).queue@.len() ==> !too_old(
                        old(self).max_age,
                        old(self).backups@[(#[trigger] old(self).queue@[i]) as int],
                    )
            },
            !old(self).by_age ==> *final(self) == *old(self),
            r is Some ==> final(self).removes_next() && r->0 == final(self).queue@[final(self).at as int],
            r is None ==> !final(self).by_age && !final(self).removes_next(),
    {
        if self.by_age {
            let ghost start = self.at as int;
            let ghost kept0 = self.kept@;
            assert(kept0 + self.queue@.subrange(start, start) =~= kept0);
            while self.at < self.queue.len()
                invariant
                    self.sound(),
                    self.by_age,
                    old(self).by_age,
                    self.backups == old(self).backups,
                    self.queue == old(self).queue,
                    self.max_age == old(self).max_age,
                    self.max_bytes == old(self).max_bytes,
                    self.summary == old(self).summary,
                    start == old(self).at,
                    kept0 == old(self).kept@,
                    start <= self.at <= self.queue@.len(),
                    self.kept@ == kept0 + self.queue@.subrange(start, self.at as int),
                    forall|i: int|
                        start <= i < self.at ==> !too_old(
                            self.max_age,
                            self.backups@[(#[trigger] self.queue@[i]) as int],
                        ),
                decreases self.queue@.len() - self.at,
            {
                let p: usize = self.queue[self.at];
                let old_one = match self.max_age {
                    Some(limit) => self.backups[p].age > limit,
                    None => false,
                };
                if old_one {
                    return Some(p);
                }
                let ghost before = self.kept@;
                self.kept.push(p);
                self.at = self.at + 1;
                proof {
                    assert(self.queue@.subrange(start, self.at as int) =~= self.queue@.subrange(
                        start,
                        self.at - 1,
                    ).push(p));
                    assert(self.kept@ =~= kept0 + self.queue@.subrange(start, self.at as int));
                    assert forall|i: int| 0 <= i < self.kept@.len() implies (#[trigger] self.kept@[i])
                        < self.backups@.len() by {
                        if i < before.len() {
                            assert(before[i] < self.backups@.len());
                        }
                    }
                }
            }
            let ghost whole = self.kept@;
            assert(self.queue@.subrange(start, self.at as int) =~= self.queue@.skip(start));
            let mut queue: Vec<usize> = Vec::new();
            std::mem::swap(&mut queue, &mut self.kept);
            assert(queue@ == whole);
            self.queue = queue;
            self.by_age = false;
            self.at = 0;
            self.total = self.sum();
        }
        if self.at < self.queue.len() {
            let full = match self.max_bytes {
                Some(limit) => self.total > limit as u128,
                None => false,
            };
            if full {
                return Some(self.queue[self.at]);
            }
        }
        None
    }

    fn sum(&self) -> (r: u128)
        requires
            in_range(self.queue@, self.backups@.len() as int),
        ensures
            r == sizes_from(self.backups@, self.queue@, 0),
    {
        let mut total: u128 = 0;
        let n: usize = self.queue.len();
        let mut i: usize = n;
        while i > 0
            invariant
                i <= n == self.queue@.len(),
                in_range(self.queue@, self.backups@.len() as int),
                total == sizes_from(self.backups@, self.queue@, i as int),
                total <= (self.queue@.len() - i) * u64::MAX,
            decreases i,
        {
            i = i - 1;
            let p: usize = self.queue[i];
            assert(total + self.backups@[p as int].len <= (self.queue@.len() - i) * u64::MAX)
                by (nonlinear_arith)
                requires
                    total <= (self.queue@.len() - (i + 1)) * u64::MAX,
                    self.backups@[p as int].len <= u64::MAX,
            ;
            assert((self.queue@.len() - i) * u64::MAX <= u128::MAX) by (nonlinear_arith)
                requires
                    0 <= self.queue@.len() - i <= u64::MAX,
            ;
            total = total + self.backups[p].len as u128;
        }
        total
    }

    /// Reports whether the backup at the head of the queue could be removed. One that could not
    /// still takes up room, but is not tried again.
    pub fn removed(&mut self, ok: bool)
        requires
            old(self).sound(),
            old(self).removes_next(),
            ok ==> old(self).summary.removed_files < usize::MAX,
            ok ==> old(self).summary.reclaimed_bytes + old(self).head().len <= u64::MAX,
        ensures
            final(self).sound(),
            final(self).backups == old(self).backups,
            final(self).queue == old(self).queue,
            final(self).max_age == old(self).max_age,
            final(self).max_bytes == old(self).max_bytes,
            final(self).by_age == old(self).by_age,
            final(self).kept == old(self).kept,
            final(self).at == old(self).at + 1,
            ({
                let len = old(self).head().len;
                &&& final(self).summary == if ok {
                    PruneSummary {
                        removed_files: (old(self).summary.removed_files + 1) as usize,
                        reclaimed_bytes: (old(self).summary.reclaimed_bytes + len) as u64,
                    }
                } else {
                    old(self).summary
                }
                &&& final(self).total == if !ok || old(self).by_age {
                    old(self).total as int
                } else if old(self).total < len {
                    0
                } else {
                    old(self).total - len
                }
            }),
    {
        let p: usize = self.queue[self.at];
        let len: u64 = self.backups[p].len;
        let n: usize = self.queue.len();
        assert(self.at < n);
        self.at = self.at + 1;
        if ok {
            self.summary = PruneSummary {
                removed_files: self.summary.removed_files + 1,
                reclaimed_bytes: self.summary.reclaimed_bytes + len,
            };
            if !self.by_age {
                self.total = if self.total < len as u128 {
                    0
                } else {
                    self.total - len as u128
                };
            }
        }
    }
}

/// Whether a backup is older than wanted.
pub open spec fn too_old(max_age: Option<u64>, b: Backup) -> bool {
    max_age is Some && b.age > max_age->0
}

/// While backups are pruned by size, removing the oldest one leaves exactly the others to be
/// counted.
pub proof fn law_removal_is_accounted(backups: Seq<Backup>, queue: Seq<usize>, at: int, total: int)
    requires
        0 <= at < queue.len(),
        total == sizes_from(backups, queue, at),
    ensures
        total - backups[queue[at] as int].len == sizes_from(backups, queue, at + 1),
{
}

/// When pruning by size ends, the backups that are left fit, but for those that could not be removed.
pub proof fn law_pruned_backups_fit(run: PruneRun)
    requires
        run.sound(),
        !run.by_age,
        run.max_bytes is Some,
        !run.removes_next(),
    ensures
        sizes_from(run.backups@, run.queue@, run.at as int) <= run.max_bytes->0,
{
}

/// A rotation leaves backups beyond the last number alone and drops what was in the last one; with no
/// backups to keep, only the active log goes.
pub proof fn law_rotation_drops_the_last(files: Map<int, Seq<u8>>, max_files: nat, i: int)
    ensures
        i > max_files ==> (rotated(files, max_files).contains_key(i) <==> files.contains_key(i))
            && (files.contains_key(i) ==> rotated(files, max_files)[i] == files[i]),
        !rotated(files, max_files).contains_key(0),
        0 < i <= max_files ==> (rotated(files, max_files).contains_key(i) <==> files.contains_key(
            i - 1,
        )) && (files.contains_key(i - 1) ==> rotated(files, max_files)[i] == files[i - 1]),
{
}

/// The log is rotated exactly when it has a limit, holds something, and would exceed the limit with
/// the next line.
pub proof fn law_log_rotates_at_its_limit(log: ActiveLog, line_len: u64)
    ensures
        log.overflows(line_len) <==> log.max_bytes > 0 && log.active_len > 0 && (log.active_len
            + line_len > log.max_bytes && (log.active_len + line_len <= u64::MAX || log.max_bytes
            < u64::MAX)),
        log.active_len == 0 ==> !log.overflows(line_len),
        log.max_bytes == 0 ==> !log.overflows(line_len),
{
}

/// While ages are looked at, the backup at the head of the queue goes exactly when it is older than
/// allowed; afterwards exactly when what is left takes up more than allowed.
pub proof fn law_pruning_goes_by_age_and_size(run: PruneRun)
    requires
        run.at < run.queue@.len(),
    ensures
        ({
            let head = run.backups@[run.queue@[run.at as int] as int];
            &&& run.by_age && run.max_age is Some ==> (run.removes_next() <==> head.age
                > run.max_age->0)
            &&& run.by_age && run.max_age is None ==> !run.removes_next()
            &&& !run.by_age && run.max_bytes is Some ==> (run.removes_next() <==> run.total
                > run.max_bytes->0)
            &&& !run.by_age && run.max_bytes is None ==> !run.removes_next()
        }),
{
}

/// The backups that are found are just the files that are backups by their name, each with its
/// number.
pub proof fn law_backups_are_found_by_name(base: Seq<char>, files: Seq<Seq<char>>, n: nat, f: Seq<char>)
    ensures
        numbered(base, files).contains((n, f)) <==> files.contains(f) && backup_number(base, f)
            == Some(n),
    decreases files.len(),
{
    if files.len() > 0 {
        let front = files.drop_last();
        law_backups_are_found_by_name(base, front, n, f);
        let before = numbered(base, front);
        assert(files[files.len() - 1] == files.last());
        if front.contains(f) {
            let k = choose|k: int| 0 <= k < front.len() && front[k] == f;
            assert(files[k] == f);
        }
        if files.contains(f) {
            let k = choose|k: int| 0 <= k < files.len() && files[k] == f;
            if k < front.len() {
                assert(front[k] == f);
            }
        }
        if backup_number(base, files.last()) is Some {
            let x = (backup_number(base, files.last())->0, files.last());
            let all = before.push(x);
            assert(all[before.len() as int] == x);
            if before.contains((n, f)) {
                let k = choose|k: int| 0 <= k < before.len() && before[k] == (n, f);
                assert(all[k] == (n, f));
            }
            if all.contains((n, f)) {
                let k = choose|k: int| 0 <= k < all.len() && all[k] == (n, f);
                if k < before.len() {
                    assert(before[k] == (n, f));
                }
            }
        }
    }
}

/// An order lists every position once, smaller keys before larger ones, and equal keys as they came.
pub proof fn law_order_is_by_key(keys: Seq<i128>, order: Seq<usize>, n: int, i: int, j: int)
    requires
        is_order(keys, order, n),
        0 <= i < j < n,
    ensures
        keys[order[i] as int] <= keys[order[j] as int],
        keys[order[i] as int] == keys[order[j] as int] ==> order[i] < order[j],
        order[i] != order[j],
        order.len() == n,
{
    assert(comes_first(keys, order[i] as int, order[j] as int));
}

/// A file that is removed is gone and one that is renamed is found under its new number with what it
/// held; a file that is not there is not renamed, and no other file changes.
pub proof fn law_steps_do_what_they_say(
    files: Map<int, Seq<u8>>,
    from: usize,
    to: usize,
    other: int,
)
    requires
        from != to,
    ensures
        !after_step(files, RotationStep::Remove(from)).contains_key(from as int),
        files.contains_key(from as int) ==> after_step(
            files,
            RotationStep::Rename { from, to },
        ).contains_key(to as int) && after_step(files, RotationStep::Rename { from, to })[to as int]
            == files[from as int] && !after_step(
            files,
            RotationStep::Rename { from, to },
        ).contains_key(from as int),
        !files.contains_key(from as int) ==> after_step(files, RotationStep::Rename { from, to })
            == files,
        other != from && other != to && files.contains_key(other) ==> after_step(
            files,
            RotationStep::Rename { from, to },
        ).contains_key(other) && after_step(files, RotationStep::Rename { from, to })[other]
            == files[other] && after_step(files, RotationStep::Remove(from)).contains_key(other)
            && after_step(files, RotationStep::Remove(from))[other] == files[other],
{
}

} // verus!
