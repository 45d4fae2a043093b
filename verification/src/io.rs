//! Stream adapters used on the data path.
//!
//! [`Counting`] is the only thing standing between the two sockets of a tunnel, so it does the
//! minimum possible work: one addition per successful read or write, plus an optional branch for
//! verbose logging. No buffering, no copying — the caller's buffer is passed straight through to
//! the inner stream.

use vstd::prelude::*;

use crate::stats;
use crate::stats::{EndpointId, EndpointStats, Registry};
use crate::text;
use crate::text::push_decimal;

verus! {

/// Which end of the proxy a [`Counting`] stream is attached to.
///
/// The direction labels are always relative to the *child process*: egress is what the child
/// sends, ingress is what it receives. Reading from the client socket is therefore egress,
/// while reading from the upstream socket is ingress.
#[derive(Debug, Clone, Copy, PartialEq, Eq, Structural)]
pub enum Side {
    /// Socket facing the child process.
    Client,
    /// Socket facing the remote host.
    Upstream,
}

/// Verbose per-connection wire logger.
#[derive(Debug)]
pub struct ConnLog {
    id: u64,
    target: String,
}

/// Whether `stamp` is a time of day with milliseconds, `HH:MM:SS.mmm`.
pub open spec fn is_stamp(stamp: Seq<char>) -> bool {
    &&& stamp.len() == 12
    &&& stamp[2] == ':' && stamp[5] == ':' && stamp[8] == '.'
    &&& forall|i: int|
        0 <= i < 12 && i != 2 && i != 5 && i != 8 ==> '0' <= #[trigger] stamp[i] <= '9'
}

/// Reads the clock with `chrono::Local::now` and formats it with `DateTime::format` as
/// `%H:%M:%S%.3f`: two digits each for the hour, the minute and the second, and three for the
/// millisecond. Which time it is, nothing says. `now` panics where the clock of the system stands
/// before 1970, and where the time zone data of the system cannot be used.
#[verifier::external_body]
fn time_of_day() -> (r: String)
    ensures
        is_stamp(r@),
{
    chrono::Local::now().format("%H:%M:%S%.3f").to_string()
}

impl ConnLog {
    /// The number of the connection.
    pub closed spec fn id(&self) -> u64 {
        self.id
    }

    /// The target of the connection.
    pub closed spec fn target(&self) -> Seq<char> {
        self.target@
    }

    /// The line of an event at a time.
    pub open spec fn line(&self, stamp: Seq<char>, body: Seq<char>) -> Seq<char> {
        "["@ + stamp + "] [CONN #"@ + text::decimal(self.id() as nat) + "] "@ + body
    }

    /// Whether `line` is the line of an event at some time.
    pub open spec fn logs(&self, line: Seq<char>, body: Seq<char>) -> bool {
        exists|stamp: Seq<char>| is_stamp(stamp) && line == #[trigger] self.line(stamp, body)
    }

    /// What is logged of bytes sent by the child process.
    pub open spec fn tx_body(&self, n: nat) -> Seq<char> {
        "TX    -> "@ + text::decimal(n) + " bytes "@ + self.target()
    }

    /// What is logged of bytes received by the child process.
    pub open spec fn rx_body(&self, n: nat) -> Seq<char> {
        "RX    <- "@ + text::decimal(n) + " bytes "@ + self.target()
    }

    /// Creates a logger for connection `id` to `target` (`host:port`).
    pub fn new(id: u64, target: &str) -> (r: Self)
        ensures
            r.id() == id,
            r.target() == target@,
    {
        ConnLog { id, target: target.to_owned() }
    }

    /// The line of an event that happened at `stamp`.
    pub fn line_at(&self, stamp: &str, body: &str) -> (r: String)
        ensures
            r@ == self.line(stamp@, body@),
    {
        let mut out = String::new();
        out.append("[");
        out.append(stamp);
        out.append("] [CONN #");
        push_decimal(&mut out, self.id as u128);
        out.append("] ");
        out.append(body);
        assert(out@ =~= self.line(stamp@, body@));
        out
    }

    /// The line of an arbitrary event that happens now, e.g. `OPEN  -> host:443 (1.2.3.4)`.
    pub fn event(&self, body: &str) -> (r: String)
        ensures
            self.logs(r@, body@),
    {
        let stamp: String = time_of_day();
        self.line_at(stamp.as_str(), body)
    }

    fn traffic(&self, arrow: &str, n: usize) -> (r: String)
        ensures
            r@ == arrow@ + text::decimal(n as nat) + " bytes "@ + self.target(),
    {
        let mut out: String = arrow.to_owned();
        push_decimal(&mut out, n as u128);
        out.append(" bytes ");
        out.append(self.target.as_str());
        out
    }

    /// The line for bytes sent by the child process.
    pub fn tx(&self, n: usize) -> (r: String)
        ensures
            self.logs(r@, self.tx_body(n as nat)),
    {
        self.event(self.traffic("TX    -> ", n).as_str())
    }

    /// The line for bytes received by the child process.
    pub fn rx(&self, n: usize) -> (r: String)
        ensures
            self.logs(r@, self.rx_body(n as nat)),
    {
        self.event(self.traffic("RX    <- ", n).as_str())
    }
}

impl Clone for ConnLog {
    fn clone(&self) -> (r: Self)
        ensures
            r.id() == self.id(),
            r.target() == self.target(),
    {
        ConnLog { id: self.id, target: self.target.clone() }
    }
}

/// Wraps a stream and attributes every byte crossing it to a cell of a [`Registry`].
#[derive(Debug)]
pub struct Counting<S> {
    inner: S,
    stats: EndpointId,
    side: Side,
    log: Option<ConnLog>,
}

/// Whether bytes that cross a socket in one direction are received by the child process: those
/// read from the remote host, and those written to the child.
pub open spec fn is_ingress(side: Side, reading: bool) -> bool {
    (side == Side::Upstream) == reading
}

/// Counters after `n` more bytes in one direction.
pub open spec fn with_bytes(s: EndpointStats, ingress: bool, n: u64) -> EndpointStats {
    if ingress {
        EndpointStats { ingress: s.ingress.wrapping_add(n), ..s }
    } else {
        EndpointStats { egress: s.egress.wrapping_add(n), ..s }
    }
}

/// How a registry changes when one cell does.
pub open spec fn cell_set(before: Registry, after: Registry, id: EndpointId, s: EndpointStats) -> bool {
    &&& after.cells() == before.cells().update(id.index as int, s)
    &&& after.names() == before.names()
    &&& after.ids() == before.ids()
    &&& stats::same_connections(before, after)
}

impl<S> Counting<S> {
    /// The wrapped stream.
    pub closed spec fn stream(&self) -> S {
        self.inner
    }

    /// The cell that traffic goes to.
    pub closed spec fn cell(&self) -> EndpointId {
        self.stats
    }

    /// The end of the proxy that the stream is.
    pub closed spec fn end(&self) -> Side {
        self.side
    }

    /// The logger, in verbose mode.
    pub closed spec fn logger(&self) -> Option<ConnLog> {
        self.log
    }

    /// What `n` bytes that crossed the stream do to the counters and to the log.
    pub open spec fn counts(
        &self,
        before: Registry,
        after: Registry,
        reading: bool,
        n: usize,
        line: Option<String>,
    ) -> bool {
        let ingress = is_ingress(self.end(), reading);
        if n == 0 {
            after == before && line is None
        } else {
            &&& cell_set(
                before,
                after,
                self.cell(),
                with_bytes(before.cells()[self.cell().index as int], ingress, n as u64),
            )
            &&& line is Some <==> self.logger() is Some
            &&& self.logger() matches Some(log) ==> log.logs(
                line->0@,
                if ingress {
                    log.rx_body(n as nat)
                } else {
                    log.tx_body(n as nat)
                },
            )
        }
    }

    /// Wraps `inner`, attributing traffic to `stats` from the perspective of `side`.
    pub fn new(inner: S, stats: EndpointId, side: Side, log: Option<ConnLog>) -> (r: Self)
        ensures
            r.stream() == inner,
            r.cell() == stats,
            r.end() == side,
            r.logger() == log,
    {
        Counting { inner, stats, side, log }
    }

    /// Borrows the wrapped stream.
    pub fn inner(&self) -> (r: &S)
        ensures
            *r == self.stream(),
    {
        &self.inner
    }

    /// Borrows the wrapped stream, to be read from and written to.
    pub fn inner_mut(&mut self) -> (r: &mut S)
        ensures
            *r == old(self).stream(),
            final(self).stream() == *final(r),
            final(self).cell() == old(self).cell(),
            final(self).end() == old(self).end(),
            final(self).logger() == old(self).logger(),
    {
        &mut self.inner
    }

    /// Unwraps back to the underlying stream.
    pub fn into_inner(self) -> (r: S)
        ensures
            r == self.stream(),
    {
        self.inner
    }

    fn count(&self, registry: &mut Registry, reading: bool, n: usize) -> (line: Option<String>)
        requires
            old(registry).wf(),
            old(registry).issued(self.cell()),
        ensures
            final(registry).wf(),
            self.counts(*old(registry), *final(registry), reading, n, line),
    {
        if n == 0 {
            return None;
        }
        let ingress: bool = (self.side == Side::Upstream) == reading;
        let cell: &mut EndpointStats = registry.stats_mut(self.stats);
        if ingress {
            cell.add_ingress(n as u64);
        } else {
            cell.add_egress(n as u64);
        }
        match &self.log {
            Some(log) => Some(
                if ingress {
                    log.rx(n)
                } else {
                    log.tx(n)
                },
            ),
            None => None,
        }
    }

    /// Counts `n` bytes that were read from the stream; in verbose mode, returns the line to log.
    pub fn on_read(&self, registry: &mut Registry, n: usize) -> (line: Option<String>)
        requires
            old(registry).wf(),
            old(registry).issued(self.cell()),
        ensures
            final(registry).wf(),
            self.counts(*old(registry), *final(registry), true, n, line),
    {
        self.count(registry, true, n)
    }

    /// Counts `n` bytes that were written to the stream; in verbose mode, returns the line to
    /// log.
    pub fn on_write(&self, registry: &mut Registry, n: usize) -> (line: Option<String>)
        requires
            old(registry).wf(),
            old(registry).issued(self.cell()),
        ensures
            final(registry).wf(),
            self.counts(*old(registry), *final(registry), false, n, line),
    {
        self.count(registry, false, n)
    }
}

/// A stream that replays a prefix of already-read bytes before continuing with the real stream.
///
/// The proxy has to sniff the first request line to decide between `CONNECT` tunnelling and
/// plain-HTTP forwarding. Those bytes are already consumed by then, so the HTTP path needs
/// them handed back before hyper takes over the connection.
#[derive(Debug)]
pub struct Rewind<S> {
    prefix: Option<Vec<u8>>,
    offset: usize,
    inner: S,
}

impl<S> Rewind<S> {
    /// The bytes that are still to be replayed.
    pub closed spec fn pending(&self) -> Seq<u8> {
        match self.prefix {
            Some(bytes) => bytes@.skip(self.offset as int),
            None => Seq::empty(),
        }
    }

    /// The real stream.
    pub closed spec fn stream(&self) -> S {
        self.inner
    }

    /// A prefix is kept only as long as some of it is to be replayed.
    pub closed spec fn wf(&self) -> bool {
        self.prefix matches Some(bytes) ==> self.offset < bytes@.len()
    }

    /// Creates a stream that yields `prefix` first, then whatever `inner` produces.
    pub fn new(prefix: Vec<u8>, inner: S) -> (r: Self)
        ensures
            r.wf(),
            r.pending() == prefix@,
            r.stream() == inner,
    {
        if prefix.len() == 0 {
            let r = Rewind { prefix: None, offset: 0, inner };
            assert(r.pending() =~= prefix@);
            r
        } else {
            let r = Rewind { prefix: Some(prefix), offset: 0, inner };
            assert(r.pending() =~= prefix@);
            r
        }
    }

    /// What a read with room for `room` bytes replays, or `None` if the prefix is used up and
    /// the read is the real stream's.
    pub fn replay(&mut self, room: usize) -> (r: Option<Vec<u8>>)
        requires
            old(self).wf(),
        ensures
            final(self).wf(),
            final(self).stream() == old(self).stream(),
            r is None <==> old(self).pending().len() == 0,
            r is None ==> final(self).pending() == old(self).pending(),
            r matches Some(bytes) ==> {
                &&& bytes@.len() == (if room < old(self).pending().len() {
                    room as int
                } else {
                    old(self).pending().len() as int
                })
                &&& bytes@ + final(self).pending() == old(self).pending()
            },
    {
        let ghost before = self.pending();
        let (out, done): (Vec<u8>, bool) = match &self.prefix {
            None => {
                return None;
            },
            Some(bytes) => {
                let left: usize = bytes.len() - self.offset;
                let n: usize = if room < left {
                    room
                } else {
                    left
                };
                let end: usize = self.offset + n;
                let mut out: Vec<u8> = Vec::new();
                out.extend_from_slice(&bytes.as_slice()[self.offset..end]);
                self.offset = end;
                assert(out@ + bytes@.skip(end as int) =~= before);
                (out, end == bytes.len())
            },
        };
        if done {
            self.prefix = None;
            assert(out@ + self.pending() =~= before);
        }
        Some(out)
    }

    /// Borrows the real stream.
    pub fn inner(&self) -> (r: &S)
        ensures
            *r == self.stream(),
    {
        &self.inner
    }

    /// Borrows the real stream, to be read from and written to.
    pub fn inner_mut(&mut self) -> (r: &mut S)
        requires
            old(self).wf(),
        ensures
            *r == old(self).stream(),
            final(self).stream() == *final(r),
            final(self).pending() == old(self).pending(),
            final(self).wf(),
    {
        &mut self.inner
    }
}

} // verus!
