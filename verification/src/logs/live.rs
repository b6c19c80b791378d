//! The most recent output of each service, kept in memory.

use vstd::prelude::*;

use crate::logs::bytes::{flat, last_n, tail, tail_log_bytes, LogStream};
use crate::logs::filter::LogFilter;
use crate::logs::tail::{filter_captured_log_bytes, of_one_kind};
use crate::names::NameMap;

verus! {

/// How much of a service's output is kept in memory.
pub const LIVE_LOG_BUFFER_LIMIT: usize = 262144;

/// The most recent output of each service, by stream.
pub struct LiveLogs {
    /// Standard output.
    pub stdout: NameMap<Vec<u8>>,
    /// Standard error.
    pub stderr: NameMap<Vec<u8>>,
    /// Both, merged.
    pub combined: NameMap<Vec<u8>>,
}

/// What a map of buffers holds.
pub open spec fn buffers(m: NameMap<Vec<u8>>) -> Map<Seq<char>, Seq<u8>> {
    m@.map_values(|v: Vec<u8>| v@)
}

/// What is kept of one service's stream.
pub open spec fn kept(m: Map<Seq<char>, Seq<u8>>, service: Seq<char>) -> Seq<u8> {
    if m.contains_key(service) {
        m[service]
    } else {
        seq![]
    }
}

fn append_to(m: &mut NameMap<Vec<u8>>, service: &str, chunk: &[u8])
    requires
        kept(buffers(*old(m)), service@).len() + chunk@.len() <= usize::MAX,
    ensures
        buffers(*final(m)) == buffers(*old(m)).insert(
            service@,
            last_n(kept(buffers(*old(m)), service@) + chunk@, LIVE_LOG_BUFFER_LIMIT as nat),
        ),
{
    let ghost before = buffers(*m);
    let mut buffer = match m.remove(service) {
        Some(b) => b,
        None => Vec::new(),
    };
    assert(buffer@ =~= kept(before, service@));
    crate::daemon::command::keep_tail(&mut buffer, chunk, LIVE_LOG_BUFFER_LIMIT);
    let ghost after = buffer@;
    m.insert(service, buffer);
    assert(buffers(*m) =~= before.insert(service@, after));
}

fn copy_of(m: &NameMap<Vec<u8>>, service: &str) -> (r: Option<Vec<u8>>)
    ensures
        match r {
            Some(b) => buffers(*m).contains_key(service@) && b@ == buffers(*m)[service@],
            None => !buffers(*m).contains_key(service@),
        },
{
    match m.get(service) {
        Some(b) => Some(vstd::slice::slice_to_vec(b.as_slice())),
        None => None,
    }
}

impl LiveLogs {
    /// The output kept for one stream.
    pub open spec fn of(&self, stream: LogStream) -> Map<Seq<char>, Seq<u8>> {
        match stream {
            LogStream::Stdout => buffers(self.stdout),
            LogStream::Stderr => buffers(self.stderr),
            LogStream::Combined => buffers(self.combined),
        }
    }

    /// Nothing kept yet.
    pub fn new() -> (r: Self)
        ensures
            forall|s: LogStream| #[trigger] r.of(s) == Map::<Seq<char>, Seq<u8>>::empty(),
    {
        let r = LiveLogs {
            stdout: NameMap::new(),
            stderr: NameMap::new(),
            combined: NameMap::new(),
        };
        assert forall|s: LogStream| #[trigger] r.of(s) == Map::<Seq<char>, Seq<u8>>::empty() by {
            assert(r.of(s) =~= Map::<Seq<char>, Seq<u8>>::empty());
        }
        r
    }

    /// Takes in new output of a service, keeping only the most recent bytes.
    pub fn append(&mut self, service: &str, stream: LogStream, chunk: &[u8])
        requires
            kept(old(self).of(stream), service@).len() + chunk@.len() <= usize::MAX,
        ensures
            final(self).of(stream) == old(self).of(stream).insert(
                service@,
                last_n(
                    kept(old(self).of(stream), service@) + chunk@,
                    LIVE_LOG_BUFFER_LIMIT as nat,
                ),
            ),
            forall|s: LogStream| s != stream ==> #[trigger] final(self).of(s) == old(self).of(s),
    {
        match stream {
            LogStream::Stdout => append_to(&mut self.stdout, service, chunk),
            LogStream::Stderr => append_to(&mut self.stderr, service, chunk),
            LogStream::Combined => append_to(&mut self.combined, service, chunk),
        }
    }

    /// What is kept of a service's stream.
    pub fn snapshot(&self, service: &str, stream: LogStream) -> (r: Option<Vec<u8>>)
        ensures
            match r {
                Some(b) => self.of(stream).contains_key(service@) && b@ == self.of(
                    stream,
                )[service@],
                None => !self.of(stream).contains_key(service@),
            },
    {
        match stream {
            LogStream::Stdout => copy_of(&self.stdout, service),
            LogStream::Stderr => copy_of(&self.stderr, service),
            LogStream::Combined => copy_of(&self.combined, service),
        }
    }
}

/// Forgets the output kept of every stream of a service. Emptying the files alone would leave it
/// to be shown from memory.
pub fn clear_live_log(logs: &mut LiveLogs, service: &str)
    ensures
        forall|s: LogStream| #[trigger] final(logs).of(s) == old(logs).of(s).remove(service@),
{
    let _ = logs.stdout.remove(service);
    let _ = logs.stderr.remove(service);
    let _ = logs.combined.remove(service);
    assert forall|s: LogStream| #[trigger] logs.of(s) == old(logs).of(s).remove(service@) by {
        assert(logs.of(s) =~= old(logs).of(s).remove(service@));
    }
}

/// Kept output never exceeds its limit, and is the end of what came in.
pub proof fn law_live_log_is_bounded(before: Seq<u8>, chunk: Seq<u8>)
    ensures
        ({
            let after = last_n(before + chunk, LIVE_LOG_BUFFER_LIMIT as nat);
            &&& after.len() <= LIVE_LOG_BUFFER_LIMIT
            &&& after == (before + chunk).skip((before + chunk).len() - after.len())
        }),
{
    let whole = before + chunk;
    assert(whole.skip(0) =~= whole);
}

/// Whether a log can be shown from memory: not when the whole history is asked for, nor for a kind
/// that is no stream.
pub fn shown_from_memory(filter: &LogFilter, kind: Option<&str>) -> (r: bool)
    ensures
        r == (!filter.all && (kind is Some ==> LogStream::named(kind->0@) is Some)),
{
    !filter.all && match kind {
        Some(k) => LogStream::from_filter(k).is_some(),
        None => true,
    }
}

/// What is shown of kept output.
pub open spec fn chosen(bytes: Seq<u8>, kind: Option<&str>, filter: LogFilter) -> Seq<u8> {
    filter.shown(
        match kind {
            Some(k) => flat(of_one_kind(bytes, k@)),
            None => bytes,
        },
    )
}

/// What is shown of a piece of kept output: the lines of the stream that the filter keeps.
pub fn live_chunk(bytes: &[u8], kind: Option<&str>, filter: &LogFilter) -> (r: Vec<u8>)
    ensures
        r@ == chosen(bytes@, kind, *filter),
{
    match kind {
        Some(k) => {
            let picked = filter_captured_log_bytes(bytes, k);
            filter.apply(picked.as_slice())
        },
        None => filter.apply(bytes),
    }
}

/// What is shown first of kept output: the last lines that the filter keeps.
pub fn live_tail(bytes: &[u8], lines: usize, kind: Option<&str>, filter: &LogFilter) -> (r: Vec<u8>)
    ensures
        r@ == tail(chosen(bytes@, kind, *filter), lines as nat),
{
    let shown = live_chunk(bytes, kind, filter);
    tail_log_bytes(shown.as_slice(), lines)
}

/// What is shown of kept output: all of it that the filter shows, or, where a stream is asked for,
/// what the filter shows of that stream's lines.
pub proof fn law_kept_output_is_shown_by_stream(bytes: Seq<u8>, kind: &str, filter: LogFilter)
    ensures
        chosen(bytes, None, filter) == filter.shown(bytes),
        chosen(bytes, Some(kind), filter) == filter.shown(flat(of_one_kind(bytes, kind@))),
        !filter.filters_content() ==> chosen(bytes, None, filter) == bytes,
{
}

} // verus!
