//! Keeping evicted history on disk, in segments of bounded size.

use vstd::prelude::*;

use crate::paths::{join_path, joined_path};
use crate::text::{decimal, push_decimal, same};

verus! {

/// A segment on disk.
#[derive(Debug, PartialEq, Eq)]
pub struct SegmentMeta {
    /// Its path.
    pub path: String,
    /// Its size when it was closed.
    pub bytes: u64,
}

/// The segment being written.
#[derive(Debug, PartialEq, Eq)]
pub struct OpenSegment {
    /// Its path.
    pub path: String,
    /// How much was written to it.
    pub written: u64,
}

/// The segments of evicted history.
pub struct MetricsSpillover {
    /// The directory.
    pub base: String,
    /// The most bytes of all segments together.
    pub max_bytes: u64,
    /// The size at which a segment is closed.
    pub segment_bytes: u64,
    /// The bytes of all segments together.
    pub total_bytes: u64,
    /// The segments, oldest first.
    pub segments: Vec<SegmentMeta>,
    /// The segment being written.
    pub current: Option<OpenSegment>,
}

/// The sum, capped.
pub open spec fn capped(a: u64, b: u64) -> u64 {
    if a + b > u64::MAX {
        u64::MAX
    } else {
        (a + b) as u64
    }
}

/// The segments once `written` more bytes are counted for the newest one.
pub open spec fn credited(segments: Seq<SegmentMeta>, written: u64) -> Seq<SegmentMeta> {
    if segments.len() == 0 {
        segments
    } else {
        let last = segments.last();
        segments.update(
            segments.len() - 1,
            SegmentMeta { path: last.path, bytes: capped(last.bytes, written) },
        )
    }
}

impl MetricsSpillover {
    /// Begins with the segments that are there, oldest first.
    pub fn new(base: String, max_bytes: u64, segment_bytes: u64, found: Vec<SegmentMeta>) -> (r: Self)
        ensures
            r.base == base,
            r.max_bytes == max_bytes,
            r.segment_bytes == segment_bytes,
            r.segments == found,
            r.current is None,
            r.total_bytes == capped_total(found@, found@.len() as int),
    {
        let mut total: u64 = 0;
        let mut i: usize = 0;
        while i < found.len()
            invariant
                i <= found.len(),
                total == capped_total(found@, i as int),
            decreases found.len() - i,
        {
            total = total.saturating_add(found[i].bytes);
            i = i + 1;
        }
        MetricsSpillover {
            base,
            max_bytes,
            segment_bytes,
            total_bytes: total,
            segments: found,
            current: None,
        }
    }

    /// Makes sure that a segment is open, and says which file to open when none was. `now` is in
    /// seconds.
    pub fn ensure_writer(&mut self, now: u64) -> (r: Option<String>)
        ensures
            final(self).base == old(self).base,
            final(self).max_bytes == old(self).max_bytes,
            final(self).segment_bytes == old(self).segment_bytes,
            final(self).total_bytes == old(self).total_bytes,
            old(self).current is Some ==> r is None && *final(self) == *old(self),
            old(self).current is None ==> {
                &&& r is Some
                &&& r->0@ == joined_path(
                    old(self).base@,
                    "metrics-"@ + decimal(now as nat) + ".jsonl"@,
                )
                &&& final(self).current is Some
                &&& final(self).current->0.path@ == r->0@
                &&& final(self).current->0.written == 0
                &&& final(self).segments@.len() == old(self).segments@.len() + 1
                &&& final(self).segments@.drop_last() == old(self).segments@
                &&& final(self).segments@.last().path@ == r->0@
                &&& final(self).segments@.last().bytes == 0
            },
    {
        if self.current.is_some() {
            return None;
        }
        let mut name = "metrics-".to_owned();
        push_decimal(&mut name, now);
        name.append(".jsonl");
        let path = join_path(self.base.as_str(), name.as_str());
        let ghost before = self.segments@;
        self.segments.push(SegmentMeta { path: path.clone(), bytes: 0 });
        assert(self.segments@.drop_last() =~= before);
        self.current = Some(OpenSegment { path: path.clone(), written: 0 });
        Some(path)
    }

    /// Accounts for a record of `len` bytes, its newline included, written to the open segment. A
    /// segment that has reached its size is closed.
    pub fn wrote(&mut self, len: u64)
        requires
            old(self).current is Some,
            old(self).current->0.written + len <= u64::MAX,
        ensures
            final(self).base == old(self).base,
            final(self).max_bytes == old(self).max_bytes,
            final(self).segment_bytes == old(self).segment_bytes,
            final(self).total_bytes == capped(old(self).total_bytes, len),
            ({
                let written = (old(self).current->0.written + len) as u64;
                if written >= old(self).segment_bytes {
                    &&& final(self).current is None
                    &&& final(self).segments@ == credited(old(self).segments@, written)
                } else {
                    &&& final(self).current == Some(
                        OpenSegment { path: old(self).current->0.path, written },
                    )
                    &&& final(self).segments == old(self).segments
                }
            }),
    {
        self.total_bytes = self.total_bytes.saturating_add(len);
        let mut open: Option<OpenSegment> = None;
        std::mem::swap(&mut open, &mut self.current);
        if let Some(segment) = open {
            let written: u64 = segment.written + len;
            if written >= self.segment_bytes {
                credit(&mut self.segments, written);
            } else {
                self.current = Some(OpenSegment { path: segment.path, written });
            }
        }
    }

    /// The next segment to remove while there are too many bytes: the oldest one. When it is the
    /// one being written, it is closed.
    pub fn enforce_budget(&mut self) -> (r: Option<String>)
        ensures
            final(self).base == old(self).base,
            final(self).max_bytes == old(self).max_bytes,
            final(self).segment_bytes == old(self).segment_bytes,
            final(self).total_bytes == old(self).total_bytes,
            if old(self).total_bytes > old(self).max_bytes && old(self).segments@.len() > 0 {
                let oldest = old(self).segments@[0];
                let rest = old(self).segments@.drop_first();
                &&& r is Some
                &&& r->0 == oldest.path
                &&& if old(self).current is Some && old(self).current->0.path@ == oldest.path@ {
                    &&& final(self).current is None
                    &&& final(self).segments@ == credited(rest, old(self).current->0.written)
                } else {
                    &&& final(self).current == old(self).current
                    &&& final(self).segments@ == rest
                }
            } else {
                r is None && *final(self) == *old(self)
            },
    {
        if self.total_bytes <= self.max_bytes || self.segments.len() == 0 {
            return None;
        }
        let ghost before = self.segments@;
        let oldest = self.segments.remove(0);
        assert(self.segments@ =~= before.drop_first());
        let open = match &self.current {
            Some(c) => same(c.path.as_str(), oldest.path.as_str()),
            None => false,
        };
        if open {
            let mut closing: Option<OpenSegment> = None;
            std::mem::swap(&mut closing, &mut self.current);
            if let Some(segment) = closing {
                credit(&mut self.segments, segment.written);
            }
        }
        Some(oldest.path)
    }

    /// Accounts for a removed segment, by the size it had on disk when that could be told.
    pub fn removed(&mut self, size: Option<u64>)
        ensures
            final(self).base == old(self).base,
            final(self).max_bytes == old(self).max_bytes,
            final(self).segment_bytes == old(self).segment_bytes,
            final(self).segments == old(self).segments,
            final(self).current == old(self).current,
            final(self).total_bytes == (match size {
                Some(n) => if n > old(self).total_bytes {
                    0
                } else {
                    old(self).total_bytes - n
                },
                None => old(self).total_bytes as int,
            }),
    {
        match size {
            Some(n) => {
                self.total_bytes = if n > self.total_bytes {
                    0
                } else {
                    self.total_bytes - n
                };
            },
            None => {},
        }
    }
}

/// The sizes of the first `n` segments together, capped.
pub open spec fn capped_total(segments: Seq<SegmentMeta>, n: int) -> u64
    decreases n,
{
    if n <= 0 {
        0
    } else {
        capped(capped_total(segments, n - 1), segments[n - 1].bytes)
    }
}

fn credit(segments: &mut Vec<SegmentMeta>, written: u64)
    ensures
        final(segments)@ == credited(old(segments)@, written),
{
    let n: usize = segments.len();
    if n > 0 {
        let ghost before = segments@;
        let last = segments.pop().unwrap();
        segments.push(
            SegmentMeta { path: last.path, bytes: last.bytes.saturating_add(written) },
        );
        assert(segments@ =~= credited(before, written));
    }
}

/// Sizes add up as long as they fit, and are capped beyond.
pub proof fn law_sizes_add_up(a: u64, b: u64)
    ensures
        a + b <= u64::MAX ==> capped(a, b) == a + b,
        a + b > u64::MAX ==> capped(a, b) == u64::MAX,
        capped(a, 0) == a,
        capped(a, b) >= a && capped(a, b) >= b,
{
}

/// What was written is counted for the newest segment and for no other; no segment comes or goes.
pub proof fn law_newest_segment_is_credited(segments: Seq<SegmentMeta>, written: u64, i: int)
    ensures
        credited(segments, written).len() == segments.len(),
        0 <= i < segments.len() - 1 ==> credited(segments, written)[i] == segments[i],
        segments.len() > 0 && segments.last().bytes + written <= u64::MAX ==> credited(
            segments,
            written,
        ).last().bytes == segments.last().bytes + written && credited(segments, written).last().path
            == segments.last().path,
{
}

/// All segments together are as large as their sizes add up to, one after the other.
pub proof fn law_total_counts_every_segment(segments: Seq<SegmentMeta>, n: int)
    requires
        0 < n <= segments.len(),
    ensures
        capped_total(segments, 0) == 0,
        capped_total(segments, n - 1) + segments[n - 1].bytes <= u64::MAX ==> capped_total(
            segments,
            n,
        ) == capped_total(segments, n - 1) + segments[n - 1].bytes,
        capped_total(segments, n) >= segments[n - 1].bytes,
{
}

} // verus!
