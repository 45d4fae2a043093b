//! What the counters of a connection come to.

use vstd::prelude::*;

use crate::io;
use crate::io::Side;
use crate::stats::EndpointStats;
use crate::sums;

verus! {

/// A successful read (`true`) or write on a counted stream, and its size.
pub struct Transfer {
    /// Whether it was a read.
    pub reading: bool,
    /// How many bytes it moved.
    pub size: u64,
}

/// Counters after a series of transfers on one side of the proxy.
pub open spec fn counted(s: EndpointStats, side: Side, moved: Seq<Transfer>) -> EndpointStats
    decreases moved.len(),
{
    if moved.len() == 0 {
        s
    } else {
        io::with_bytes(
            counted(s, side, moved.drop_last()),
            io::is_ingress(side, moved.last().reading),
            moved.last().size,
        )
    }
}

/// The sizes of the transfers that the child received, or of those that it sent.
pub open spec fn sizes(side: Side, moved: Seq<Transfer>, ingress: bool) -> Seq<int> {
    Seq::new(
        moved.len(),
        |i: int|
            if io::is_ingress(side, moved[i].reading) == ingress {
                moved[i].size as int
            } else {
                0
            },
    )
}

/// However a stream was split into reads and writes, the bytes received and the bytes sent come
/// to exactly the bytes that crossed it, as far as 64 bits go, and to nothing else.
pub proof fn counters_add_up(s: EndpointStats, side: Side, moved: Seq<Transfer>)
    ensures
        counted(s, side, moved).ingress == (s.ingress + sums::sum(sizes(side, moved, true)))
            % 0x1_0000_0000_0000_0000,
        counted(s, side, moved).egress == (s.egress + sums::sum(sizes(side, moved, false)))
            % 0x1_0000_0000_0000_0000,
        counted(s, side, moved).connections == s.connections,
        counted(s, side, moved).ip == s.ip,
    decreases moved.len(),
{
    if moved.len() > 0 {
        let before = moved.drop_last();
        counters_add_up(s, side, before);
        assert(sizes(side, moved, true).drop_last() =~= sizes(side, before, true));
        assert(sizes(side, moved, false).drop_last() =~= sizes(side, before, false));
    }
}

/// The same transfers seen from the other end of the tunnel: what is read here is written there.
pub open spec fn mirrored(moved: Seq<Transfer>) -> Seq<Transfer> {
    Seq::new(moved.len(), |i: int| Transfer { reading: !moved[i].reading, size: moved[i].size })
}

/// It makes no difference to the counters at which end of a tunnel the bytes are counted.
pub proof fn both_ends_agree(s: EndpointStats, moved: Seq<Transfer>)
    ensures
        counted(s, Side::Client, moved) == counted(s, Side::Upstream, mirrored(moved)),
    decreases moved.len(),
{
    if moved.len() > 0 {
        both_ends_agree(s, moved.drop_last());
        assert(mirrored(moved).drop_last() =~= mirrored(moved.drop_last()));
    }
}

/// Pieces, one after the other.
pub open spec fn joined(pieces: Seq<Seq<u8>>) -> Seq<u8>
    decreases pieces.len(),
{
    if pieces.len() == 0 {
        Seq::empty()
    } else {
        joined(pieces.drop_last()) + pieces.last()
    }
}

/// However reads split it up, a prefix that is replayed comes out whole, in order and once:
/// `pending[i]` is what is left before the `i`th read, and `pieces[i]` is what that read gives.
pub proof fn replays_give_the_prefix(pending: Seq<Seq<u8>>, pieces: Seq<Seq<u8>>)
    requires
        pending.len() == pieces.len() + 1,
        forall|i: int| 0 <= i < pieces.len() ==> #[trigger] pieces[i] + pending[i + 1] == pending[i],
    ensures
        joined(pieces) + pending.last() == pending[0],
    decreases pieces.len(),
{
    if pieces.len() > 0 {
        let n = pieces.len() - 1;
        assert(pieces[n] + pending[n + 1] == pending[n]);
        assert forall|i: int| 0 <= i < n implies #[trigger] pieces.drop_last()[i]
            + pending.drop_last()[i + 1] == pending.drop_last()[i] by {
            assert(pieces[i] + pending[i + 1] == pending[i]);
        }
        replays_give_the_prefix(pending.drop_last(), pieces.drop_last());
        assert(joined(pieces) + pending.last() =~= joined(pieces.drop_last()) + (pieces[n]
            + pending[n + 1]));
    } else {
        assert(joined(pieces) + pending.last() =~= pending[0]);
    }
}

} // verus!
