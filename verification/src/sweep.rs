//! The sweep itself: the ports that are attempted, what one attempt reports,
//! and the collector that gathers the reports and puts them in order.

use vstd::prelude::*;
use vstd::relations::*;
use vstd::seq_lib::*;

verus! {

/// The character that a scan prints when its connection was made, before it
/// reports the port.
pub const PROGRESS_MARKER: char = '.';

/// The ports that a sweep from `start_port` to `end_port` attempts: each port
/// from the first up to, and without, the second, in ascending order.
pub open spec fn port_range(start_port: u16, end_port: u16) -> Seq<u16> {
    Seq::new(
        if start_port < end_port {
            (end_port - start_port) as nat
        } else {
            0
        },
        |i: int| (start_port + i) as u16,
    )
}

/// What one scan reports: its port where the connection was made, else nothing.
pub open spec fn scan_report(port: u16, connected: bool) -> Option<u16> {
    if connected {
        Some(port)
    } else {
        None
    }
}

/// Whether the scan of a port reports it, where `listening` holds the ports at
/// which a connection is made.
pub open spec fn is_reported(listening: Set<u16>) -> spec_fn(u16) -> bool {
    |p: u16| scan_report(p, listening.contains(p)).is_some()
}

/// The ports that the scans of a sweep report, where `listening` holds the
/// ports at which a connection is made: in the order of the attempts.
pub open spec fn open_ports(start_port: u16, end_port: u16, listening: Set<u16>) -> Seq<u16> {
    port_range(start_port, end_port).filter(is_reported(listening))
}

/// No port stands before a smaller one.
pub open spec fn non_descending(ports: Seq<u16>) -> bool {
    forall|i: int, j: int| 0 <= i < j < ports.len() ==> ports[i] <= ports[j]
}

/// Each port is smaller than those behind it.
pub open spec fn ascending(ports: Seq<u16>) -> bool {
    forall|i: int, j: int| 0 <= i < j < ports.len() ==> ports[i] < ports[j]
}

/// `listing` holds what `arrivals` holds, as often, in non-descending order.
pub open spec fn is_listing_of(listing: Seq<u16>, arrivals: Seq<u16>) -> bool {
    non_descending(listing) && listing.to_multiset() == arrivals.to_multiset()
}

/// The ports to attempt, one scan each: no port stands in them twice, and
/// none where `start_port` is not below `end_port`.
pub fn ports(start_port: u16, end_port: u16) -> (r: Vec<u16>)
    ensures
        r@ == port_range(start_port, end_port),
        ascending(r@),
        start_port >= end_port ==> r@.len() == 0,
        start_port < end_port ==> r@.len() == end_port - start_port,
{
    let mut r: Vec<u16> = Vec::new();
    let mut p: u16 = start_port;
    while p < end_port
        invariant
            start_port < end_port ==> start_port <= p <= end_port,
            start_port >= end_port ==> p == start_port,
            r@ == port_range(start_port, p),
        decreases end_port - p,
    {
        r.push(p);
        p = p + 1;
        assert(r@ =~= port_range(start_port, p));
    }
    assert(r@ =~= port_range(start_port, end_port));
    r
}

/// The decision of one scan, once its connection attempt has ended: a
/// connection that was made is reported with its port, any failure is
/// passed over in silence.
pub fn scan(port: u16, connected: bool) -> (r: Option<u16>)
    ensures
        r == scan_report(port, connected),
{
    if connected {
        Some(port)
    } else {
        None
    }
}

/// `slice::sort` of std, on port numbers: afterwards the vector holds the same
/// numbers, each as often as before, and none stands before a smaller one.
#[verifier::external_body]
fn sort_ports(ports: &mut Vec<u16>)
    ensures
        is_listing_of(final(ports)@, old(ports)@),
{
    ports.sort();
}

/// The one place where the reports of all scans arrive.
pub struct Collector {
    out: Vec<u16>,
}

impl View for Collector {
    type V = Seq<u16>;

    /// The ports received so far, in the order of their arrival.
    closed spec fn view(&self) -> Seq<u16> {
        self.out@
    }
}

impl Collector {
    /// A collector that has received nothing.
    pub fn new() -> (r: Collector)
        ensures
            r@ == Seq::<u16>::empty(),
    {
        Collector { out: Vec::new() }
    }

    /// Takes in one reported port.
    pub fn receive(&mut self, port: u16)
        ensures
            final(self)@ == old(self)@.push(port),
    {
        self.out.push(port);
    }

    /// Ends the collection, once every scan is over: the ports received, each
    /// as often as it arrived, in ascending order. Where no port arrived twice
    /// the order is strict.
    pub fn finish(self) -> (r: Vec<u16>)
        ensures
            is_listing_of(r@, self@),
            r@.len() == self@.len(),
            self@.no_duplicates() ==> ascending(r@) && r@.no_duplicates(),
    {
        let mut r = self.out;
        sort_ports(&mut r);
        proof {
            listing_keeps_length(self@, r@);
            if self@.no_duplicates() {
                listing_is_ascending(self@, r@);
            }
        }
        r
    }
}

/// A listing is as long as what arrived.
pub proof fn listing_keeps_length(arrivals: Seq<u16>, listing: Seq<u16>)
    requires
        is_listing_of(listing, arrivals),
    ensures
        listing.len() == arrivals.len(),
{
    broadcast use to_multiset_len;
    assert(listing.to_multiset().len() == listing.len());
    assert(arrivals.to_multiset().len() == arrivals.len());
}

/// Where no port arrived twice, the listing is strictly ascending and names
/// no port twice, whichever ports arrived and in whatever order.
pub proof fn listing_is_ascending(arrivals: Seq<u16>, listing: Seq<u16>)
    requires
        arrivals.no_duplicates(),
        is_listing_of(listing, arrivals),
    ensures
        ascending(listing),
        listing.no_duplicates(),
{
    arrivals.lemma_multiset_has_no_duplicates();
    listing.lemma_multiset_has_no_duplicates_conv();
}

/// The listing depends on which ports arrived and how often, not on the order
/// of their arrival: two collections of the same reports end in the same
/// listing.
pub proof fn listing_is_determined(
    first_arrivals: Seq<u16>,
    first_listing: Seq<u16>,
    second_arrivals: Seq<u16>,
    second_listing: Seq<u16>,
)
    requires
        is_listing_of(first_listing, first_arrivals),
        is_listing_of(second_listing, second_arrivals),
        first_arrivals.to_multiset() == second_arrivals.to_multiset(),
    ensures
        first_listing == second_listing,
{
    let leq = |a: u16, b: u16| a <= b;
    assert(sorted_by(first_listing, leq));
    assert(sorted_by(second_listing, leq));
    assert(total_ordering(leq));
    lemma_sorted_unique(first_listing, second_listing, leq);
}

/// What is kept of an ascending sequence is ascending, and holds exactly the
/// kept values of the sequence.
proof fn lemma_filter_ascending(ports: Seq<u16>, keep: spec_fn(u16) -> bool)
    requires
        ascending(ports),
    ensures
        ascending(ports.filter(keep)),
        forall|p: u16| ports.filter(keep).contains(p) <==> ports.contains(p) && keep(p),
    decreases ports.len(),
{
    reveal(Seq::filter);
    if ports.len() > 0 {
        let front = ports.drop_last();
        let last = ports.last();
        lemma_filter_ascending(front, keep);
        assert(front.push(last) =~= ports);
        front.lemma_filter_push(last, keep);
        let kept = front.filter(keep);
        assert forall|p: u16| ports.filter(keep).contains(p) <==> ports.contains(p) && keep(p) by {
            if ports.contains(p) {
                let i = choose|i: int| 0 <= i < ports.len() && ports[i] == p;
                if i < front.len() {
                    assert(front[i] == p);
                    assert(front.contains(p));
                }
            }
            if front.contains(p) {
                let i = choose|i: int| 0 <= i < front.len() && front[i] == p;
                assert(ports[i] == p);
            }
            if keep(last) {
                assert(kept.push(last)[kept.len() as int] == last);
                if kept.contains(p) {
                    let i = choose|i: int| 0 <= i < kept.len() && kept[i] == p;
                    assert(kept.push(last)[i] == p);
                }
            }
            assert(ports[ports.len() - 1] == last);
        }
        if keep(last) {
            assert forall|i: int, j: int| 0 <= i < j < kept.push(last).len() implies kept.push(
                last,
            )[i] < kept.push(last)[j] by {
                if j == kept.len() {
                    assert(kept.contains(kept[i]));
                    assert(front.contains(kept[i]));
                    let k = choose|k: int| 0 <= k < front.len() && front[k] == kept[i];
                    assert(ports[k] < ports[ports.len() - 1]);
                }
            }
        }
    } else {
        assert(ports.filter(keep).len() == 0);
    }
}

/// A sweep lists the open ports of its range and no others. Where every port
/// of the range was scanned once and the reports arrived in whatever order,
/// the listing names each port of the range at which a connection was made
/// exactly once, names no other port, and is strictly ascending: it is the
/// open ports of the range in ascending order.
pub proof fn sweep_lists_open_ports(
    start_port: u16,
    end_port: u16,
    listening: Set<u16>,
    arrivals: Seq<u16>,
    listing: Seq<u16>,
)
    requires
        arrivals.to_multiset() == open_ports(start_port, end_port, listening).to_multiset(),
        is_listing_of(listing, arrivals),
    ensures
        listing == open_ports(start_port, end_port, listening),
        ascending(listing),
        forall|p: u16|
            start_port <= p < end_port && listening.contains(p)
                ==> #[trigger] listing.to_multiset().count(p) == 1,
        forall|p: u16|
            !(start_port <= p < end_port && listening.contains(p))
                ==> #[trigger] listing.to_multiset().count(p) == 0,
{
    broadcast use to_multiset_contains;
    let range = port_range(start_port, end_port);
    let open = open_ports(start_port, end_port, listening);
    lemma_filter_ascending(range, is_reported(listening));
    listing_is_determined(arrivals, listing, open, open);
    assert(open.no_duplicates());
    open.lemma_multiset_has_no_duplicates();
    assert forall|p: u16| range.contains(p) <==> start_port <= p < end_port by {
        if start_port <= p < end_port {
            assert(range[p - start_port] == p);
        }
    }
    assert forall|p: u16|
        start_port <= p < end_port && listening.contains(p)
        implies #[trigger] listing.to_multiset().count(p) == 1 by {
        assert(range.contains(p) && is_reported(listening)(p));
        assert(range.filter(is_reported(listening)).contains(p));
    }
    assert forall|p: u16|
        !(start_port <= p < end_port && listening.contains(p))
        implies #[trigger] listing.to_multiset().count(p) == 0 by {
        assert(!(range.contains(p) && is_reported(listening)(p)));
        assert(!range.filter(is_reported(listening)).contains(p));
    }
}

/// A sweep whose first port is not below its end attempts no port and lists
/// none.
pub proof fn empty_range_lists_nothing(start_port: u16, end_port: u16, listening: Set<u16>)
    requires
        start_port >= end_port,
    ensures
        port_range(start_port, end_port) == Seq::<u16>::empty(),
        open_ports(start_port, end_port, listening) == Seq::<u16>::empty(),
{
    reveal(Seq::filter);
    assert(port_range(start_port, end_port) =~= Seq::<u16>::empty());
    assert(open_ports(start_port, end_port, listening) =~= Seq::<u16>::empty());
}

} // verus!
