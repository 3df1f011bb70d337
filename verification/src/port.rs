//! A port: the receive and transmit rings of one opened device, with the
//! readiness scan across the receive rings.

use vstd::prelude::*;
use vstd::string::StringExecFns;
use crate::ring::{Ring, RingState, RingType, RingView};
use crate::slot::Slot;
use crate::window::{lemma_next_head_is_increment_mod, window_at, window_rank};

verus! {

/// What the device reports once it is open: its pollable descriptor, the
/// ranges of its transmit and receive queues, and the state of each ring.
///
/// `tx_rings[k]` is the report of transmit queue `first_tx_ring + k`, and
/// `rx_rings[k]` that of receive queue `first_rx_ring + k`.
#[derive(Debug)]
pub struct DeviceState {
    pub fd: i32,
    pub first_tx_ring: u16,
    pub last_tx_ring: u16,
    pub first_rx_ring: u16,
    pub last_rx_ring: u16,
    pub tx_rings: Vec<RingState>,
    pub rx_rings: Vec<RingState>,
}

/// The number of queues from `first` to `last`, both included.
pub open spec fn range_len(first: u16, last: u16) -> nat {
    if first <= last {
        (last - first + 1) as nat
    } else {
        0
    }
}

/// Each queue from `first` to `last` has a report in `rings`, with its
/// positions inside the ring.
pub open spec fn reports_cover(rings: Seq<RingState>, first: u16, last: u16) -> bool {
    &&& range_len(first, last) <= rings.len()
    &&& forall|k: int| 0 <= k < range_len(first, last) ==> (#[trigger] rings[k]).wf()
}

/// The rings that are built for the queues from `first` to `last`.
pub open spec fn fresh_rings(
    ring_type: RingType,
    rings: Seq<RingState>,
    first: u16,
    last: u16,
) -> Seq<RingView> {
    Seq::new(
        range_len(first, last),
        |k: int| RingView::fresh(ring_type, rings[k], (first + k) as u16),
    )
}

impl DeviceState {
    /// The first queue of one direction.
    pub open spec fn first_ring(&self, ring_type: RingType) -> u16 {
        match ring_type {
            RingType::Rx => self.first_rx_ring,
            RingType::Tx => self.first_tx_ring,
        }
    }

    /// The last queue of one direction.
    pub open spec fn last_ring(&self, ring_type: RingType) -> u16 {
        match ring_type {
            RingType::Rx => self.last_rx_ring,
            RingType::Tx => self.last_tx_ring,
        }
    }

    /// The reports of the rings of one direction.
    pub open spec fn reports(&self, ring_type: RingType) -> Seq<RingState> {
        match ring_type {
            RingType::Rx => self.rx_rings@,
            RingType::Tx => self.tx_rings@,
        }
    }

    /// Every queue of one direction has a usable report.
    pub open spec fn covers(&self, ring_type: RingType) -> bool {
        reports_cover(
            self.reports(ring_type),
            self.first_ring(ring_type),
            self.last_ring(ring_type),
        )
    }

    /// The rings that are built for the queues of one direction.
    pub open spec fn fresh_rings(&self, ring_type: RingType) -> Seq<RingView> {
        fresh_rings(
            ring_type,
            self.reports(ring_type),
            self.first_ring(ring_type),
            self.last_ring(ring_type),
        )
    }

    /// Every queue of the device has a usable report.
    pub open spec fn wf(&self) -> bool {
        self.covers(RingType::Tx) && self.covers(RingType::Rx)
    }
}

/// The device could not be opened.
#[derive(Debug)]
pub struct OpenError {
    pub spec: String,
}

impl OpenError {
    /// The error for the device selection `spec`.
    pub fn new(spec: &str) -> (error: OpenError)
        ensures
            error.spec@ == spec@,
    {
        OpenError { spec: String::from_str(spec) }
    }

    /// The text of the error: `Failed to open: ` and the device selection.
    pub fn message(&self) -> (text: String)
        ensures
            text@ == "Failed to open: "@ + self.spec@,
    {
        String::from_str("Failed to open: ").concat(self.spec.as_str())
    }
}

/// The wait for readiness failed.
#[derive(Debug)]
pub struct PollError {
    pub message: String,
}

/// What a [`Port`] holds.
pub struct PortView {
    pub fd: i32,
    pub rx_rings: Seq<RingView>,
    pub tx_rings: Seq<RingView>,
    pub scan_start: nat,
}

impl PortView {
    /// Every ring is well formed, and the scan starts at one of the receive
    /// rings (at 0 where there is none).
    pub open spec fn wf(self) -> bool {
        &&& forall|i: int| 0 <= i < self.rx_rings.len() ==> (#[trigger] self.rx_rings[i]).wf()
        &&& forall|i: int| 0 <= i < self.tx_rings.len() ==> (#[trigger] self.tx_rings[i]).wf()
        &&& self.rx_rings.len() == 0 ==> self.scan_start == 0
        &&& self.rx_rings.len() > 0 ==> self.scan_start < self.rx_rings.len()
    }

    /// No receive ring has a slot queued.
    pub open spec fn idle(self) -> bool {
        forall|j: int| 0 <= j < self.rx_rings.len() ==> (#[trigger] self.rx_rings[j]).is_empty()
    }

    /// How many rings the scan looks at before it reaches ring `i`.
    pub open spec fn scan_rank(self, i: int) -> int {
        window_rank(self.scan_start as int, self.rx_rings.len() as int, i)
    }

    /// Ring `i` is the first receive ring with a queued slot that the scan
    /// meets: the scan starts at `scan_start`, goes up through the rings and
    /// wraps once to ring 0.
    pub open spec fn is_next_ready(self, i: int) -> bool {
        &&& 0 <= i < self.rx_rings.len()
        &&& !self.rx_rings[i].is_empty()
        &&& forall|j: int|
            0 <= j < self.rx_rings.len() && self.scan_rank(j) < self.scan_rank(i) ==> (
            #[trigger] self.rx_rings[j]).is_empty()
    }

    /// The port after one slot of receive ring `i` was consumed: that ring
    /// advanced, and the scan now starts at it.
    pub open spec fn consumed_from(self, i: int) -> PortView {
        PortView {
            rx_rings: self.rx_rings.update(i, self.rx_rings[i].advanced()),
            scan_start: i as nat,
            ..self
        }
    }

    /// The port after receive ring `i` took over the positions that the
    /// device reports.
    pub open spec fn synced(self, i: int, state: RingState) -> PortView {
        PortView { rx_rings: self.rx_rings.update(i, self.rx_rings[i].synced(state)), ..self }
    }

    /// The port after the device stored `bytes` in slot `slot` of receive
    /// ring `i`.
    pub open spec fn filled(self, i: int, slot: int, bytes: Seq<u8>) -> PortView {
        PortView {
            rx_rings: self.rx_rings.update(i, self.rx_rings[i].filled(slot, bytes)),
            ..self
        }
    }

    /// The port at the start of a polling cycle: the scan starts at the first
    /// receive ring again.
    pub open spec fn polled(self) -> PortView {
        PortView { scan_start: 0, ..self }
    }

    /// The port that is built from what the device reports.
    pub open spec fn opened(device: DeviceState) -> PortView {
        PortView {
            fd: device.fd,
            rx_rings: device.fresh_rings(RingType::Rx),
            tx_rings: device.fresh_rings(RingType::Tx),
            scan_start: 0,
        }
    }
}

/// The rings of one opened device and the place where the readiness scan
/// starts.
#[derive(Debug)]
pub struct Port {
    fd: i32,
    rx_rings: Vec<Ring>,
    tx_rings: Vec<Ring>,
    cur_rxring: usize,
}

/// The views of `rings`, in order.
pub open spec fn ring_views(rings: Seq<Ring>) -> Seq<RingView> {
    Seq::new(rings.len(), |i: int| rings[i]@)
}

/// Consuming a slot of a receive ring that has one queued leaves every ring
/// well formed and the scan inside the receive rings.
pub proof fn lemma_consumption_keeps_port_well_formed(port: PortView, i: int)
    requires
        port.wf(),
        0 <= i < port.rx_rings.len(),
    ensures
        port.consumed_from(i).wf(),
{
    lemma_next_head_is_increment_mod(
        port.rx_rings[i].head as int,
        port.rx_rings[i].slots.len() as int,
    );
}

/// At most one receive ring is the one that the scan stops at.
pub proof fn lemma_next_ready_is_unique(port: PortView, i: int, j: int)
    requires
        port.wf(),
        port.is_next_ready(i),
        port.is_next_ready(j),
    ensures
        i == j,
{
    if i != j {
        if port.scan_rank(i) < port.scan_rank(j) {
            assert(port.rx_rings[i].is_empty());
        } else {
            assert(port.scan_rank(j) < port.scan_rank(i));
            assert(port.rx_rings[j].is_empty());
        }
    }
}

/// The scan stops at some ring exactly when some receive ring has a slot
/// queued.
pub proof fn lemma_next_ready_exists_unless_idle(port: PortView)
    requires
        port.wf(),
    ensures
        !port.idle() <==> exists|i: int| port.is_next_ready(i),
{
    if !port.idle() {
        let n = port.rx_rings.len() as int;
        let witness = choose|j: int| 0 <= j < n && !(#[trigger] port.rx_rings[j]).is_empty();
        lemma_first_ready_up_to(port, port.scan_rank(witness) + 1);
    }
    if exists|i: int| port.is_next_ready(i) {
        let i = choose|i: int| port.is_next_ready(i);
        assert(!port.rx_rings[i].is_empty());
    }
}

/// Among the first `k` rings that the scan looks at, either all are empty or
/// one is the ring that the scan stops at.
proof fn lemma_first_ready_up_to(port: PortView, k: int)
    requires
        port.wf(),
        0 <= k <= port.rx_rings.len(),
    ensures
        (exists|i: int| port.is_next_ready(i)) || forall|j: int|
            0 <= j < port.rx_rings.len() && port.scan_rank(j) < k ==> (
            #[trigger] port.rx_rings[j]).is_empty(),
    decreases k,
{
    if k > 0 {
        lemma_first_ready_up_to(port, k - 1);
        if !(exists|i: int| port.is_next_ready(i)) {
            let n = port.rx_rings.len() as int;
            let i = window_at(port.scan_start as int, n, k - 1);
            assert(port.scan_rank(i) == k - 1);
            if !port.rx_rings[i].is_empty() {
                assert(port.is_next_ready(i));
            } else {
                assert forall|j: int|
                    0 <= j < n && port.scan_rank(j) < k implies (
                #[trigger] port.rx_rings[j]).is_empty() by {
                    if port.scan_rank(j) == k - 1 {
                        assert(j == i);
                    }
                }
            }
        }
    }
}

/// After a consumption the scan starts at the ring that was consumed from:
/// while that ring still has a slot queued, the next consumption takes from
/// it again, and only once it is drained does the scan move on.
pub proof fn lemma_scan_stays_until_ring_is_drained(port: PortView, i: int)
    requires
        port.wf(),
        port.is_next_ready(i),
        !port.rx_rings[i].advanced().is_empty(),
    ensures
        port.consumed_from(i).is_next_ready(i),
{
}

/// At the start of a polling cycle the scan stops at the lowest receive ring
/// that has a slot queued.
pub proof fn lemma_poll_restarts_at_lowest_ring(port: PortView, i: int)
    requires
        port.wf(),
    ensures
        port.polled().wf(),
        port.polled().is_next_ready(i) <==> 0 <= i < port.rx_rings.len()
            && !port.rx_rings[i].is_empty() && forall|j: int|
            0 <= j < i ==> (#[trigger] port.rx_rings[j]).is_empty(),
{
    let p = port.polled();
    if 0 <= i < port.rx_rings.len() {
        assert forall|j: int| 0 <= j < port.rx_rings.len() implies p.scan_rank(j) == j by {}
    }
}

/// Putting a well-formed ring in the place of a receive ring leaves the port
/// well formed.
proof fn lemma_replaced_ring_keeps_port_well_formed(port: PortView, i: int, ring: RingView)
    requires
        port.wf(),
        0 <= i < port.rx_rings.len(),
        ring.wf(),
    ensures
        (PortView { rx_rings: port.rx_rings.update(i, ring), ..port }).wf(),
{
}

/// Replacing one ring replaces its view.
proof fn lemma_ring_views_update(rings: Seq<Ring>, i: int, ring: Ring)
    requires
        0 <= i < rings.len(),
    ensures
        ring_views(rings.update(i, ring)) == ring_views(rings).update(i, ring@),
{
    assert(ring_views(rings.update(i, ring)) =~= ring_views(rings).update(i, ring@));
}

impl View for Port {
    type V = PortView;

    closed spec fn view(&self) -> PortView {
        PortView {
            fd: self.fd,
            rx_rings: ring_views(self.rx_rings@),
            tx_rings: ring_views(self.tx_rings@),
            scan_start: self.cur_rxring as nat,
        }
    }
}

impl Port {
    /// The invariant of every port that this crate hands out: that of its
    /// view.
    pub open spec fn wf(&self) -> bool {
        self@.wf()
    }

    /// Builds the port of the device selected by `spec` from what the device
    /// reported when it was opened; `None` stands for a device that did not
    /// open.
    fn open(spec: &str, device: Option<DeviceState>) -> (port: Result<Port, OpenError>)
        ensures
            port is Ok <==> device is Some && device->0.wf(),
            port matches Ok(p) ==> p.wf() && p@ == PortView::opened(device->0),
            port matches Err(e) ==> e.spec@ == spec@,
    {
        let port = match Port::open_port(spec, device) {
            Ok(port) => port,
            Err(e) => { return Err(e); },
        };
        let tx_rings = Port::tx_rings_from_port(&port);
        let rx_rings = Port::rx_rings_from_port(&port);
        let fd = port.fd;
        match (tx_rings, rx_rings) {
            (Some(tx_rings), Some(rx_rings)) => {
                let opened = Port { fd, rx_rings, tx_rings, cur_rxring: 0 };
                assert(opened@.rx_rings =~= PortView::opened(port).rx_rings);
                assert(opened@.tx_rings =~= PortView::opened(port).tx_rings);
                Ok(opened)
            },
            _ => Err(OpenError::new(spec)),
        }
    }

    /// The receive rings, in queue order.
    pub fn rx_rings(&self) -> (rings: &Vec<Ring>)
        ensures
            ring_views(rings@) == self@.rx_rings,
    {
        &self.rx_rings
    }

    /// The transmit rings, in queue order.
    pub fn tx_rings(&self) -> (rings: &Vec<Ring>)
        ensures
            ring_views(rings@) == self@.tx_rings,
    {
        &self.tx_rings
    }

    /// The descriptor on which to wait for readiness.
    pub fn fd(&self) -> (fd: i32)
        ensures
            fd == self@.fd,
    {
        self.fd
    }

    /// The receive ring at which the next scan starts.
    pub fn scan_start(&self) -> (start: usize)
        ensures
            start == self@.scan_start,
    {
        self.cur_rxring
    }

    /// Starts a polling cycle and says what the wait for readiness on the
    /// port's descriptor gave.
    ///
    /// `waited` is what the wait returned: the number of descriptors that
    /// became ready, or its failure. The scan starts at the first receive
    /// ring again, whatever the wait returned, and no ring changes. The port
    /// is ready if at least one descriptor was.
    pub fn poll(&mut self, waited: Result<usize, PollError>) -> (ready: Result<bool, PollError>)
        requires
            old(self).wf(),
        ensures
            final(self).wf(),
            final(self)@ == old(self)@.polled(),
            waited matches Ok(n) ==> ready == Ok::<bool, PollError>(n > 0),
            waited matches Err(e) ==> ready == Err::<bool, PollError>(e),
    {
        self.reset_before_poll();
        match waited {
            Ok(n) => Ok(n > 0),
            Err(e) => Err(e),
        }
    }

    /// Consumes one slot of the first receive ring that has one queued, and
    /// hands it out.
    ///
    /// The scan starts at `scan_start`, goes up through the rings and wraps
    /// once to ring 0. The ring that it stops at advances by one slot and
    /// becomes the new `scan_start`. Where no ring has a slot queued, nothing
    /// changes.
    pub fn get_rx_slot(&mut self) -> (slot: Option<&Slot>)
        requires
            old(self).wf(),
        ensures
            final(self).wf(),
            slot is None <==> old(self)@.idle(),
            slot is None ==> final(self)@ == old(self)@,
            slot matches Some(s) ==> {
                let i = final(self)@.scan_start as int;
                &&& old(self)@.is_next_ready(i)
                &&& final(self)@ == old(self)@.consumed_from(i)
                &&& s@ == old(self)@.rx_rings[i].slots[old(self)@.rx_rings[i].head as int]
            },
    {
        self.get_cur_rx_slot()
    }

    /// Makes the next scan start at the first receive ring.
    fn reset_before_poll(&mut self)
        requires
            old(self).wf(),
        ensures
            final(self).wf(),
            final(self)@ == old(self)@.polled(),
    {
        self.cur_rxring = 0;
    }

    /// Consumes one slot of the ring that the scan stops at.
    fn get_cur_rx_slot(&mut self) -> (slot: Option<&Slot>)
        requires
            old(self).wf(),
        ensures
            final(self).wf(),
            slot is None <==> old(self)@.idle(),
            slot is None ==> final(self)@ == old(self)@,
            slot matches Some(s) ==> {
                let i = final(self)@.scan_start as int;
                &&& old(self)@.is_next_ready(i)
                &&& final(self)@ == old(self)@.consumed_from(i)
                &&& s@ == old(self)@.rx_rings[i].slots[old(self)@.rx_rings[i].head as int]
            },
    {
        let ring = self.find_non_empty_ring()?;
        ring.get_next_slot()
    }

    /// Scans the receive rings for the first that has a slot queued, and
    /// makes it the place where the next scan starts.
    fn find_non_empty_ring(&mut self) -> (ring: Option<&mut Ring>)
        requires
            old(self).wf(),
        ensures
            ring is None <==> old(self)@.idle(),
            ring is None ==> *final(self) == *old(self),
            ring matches Some(r) ==> {
                let i = final(self)@.scan_start as int;
                &&& old(self)@.is_next_ready(i)
                &&& r@ == old(self)@.rx_rings[i]
                &&& final(self)@ == PortView {
                    rx_rings: old(self)@.rx_rings.update(i, final(r)@),
                    scan_start: i as nat,
                    ..old(self)@
                }
            },
    {
        let n = self.rx_rings.len();
        let mut i: usize = self.cur_rxring;
        let mut seen: usize = 0;
        while seen < n
            invariant
                *self == *old(self),
                self.wf(),
                n == self.rx_rings@.len(),
                seen <= n,
                n > 0 ==> i < n,
                seen < n ==> self@.scan_rank(i as int) == seen,
                forall|j: int|
                    0 <= j < n && self@.scan_rank(j) < seen ==> (#[trigger] self@.rx_rings[j]).is_empty(),
            decreases n - seen,
        {
            if !self.rx_rings[i].is_empty() {
                assert(!old(self)@.rx_rings[i as int].is_empty());
                self.cur_rxring = i;
                let ring = &mut self.rx_rings[i];
                proof {
                    lemma_ring_views_update(old(self).rx_rings@, i as int, *final(ring));
                }
                return Some(ring);
            }
            i = Ring::next_head(i, n);
            seen += 1;
        }
        None
    }

    /// Takes over the positions that the device reports of receive ring
    /// `ring`.
    ///
    /// A report for a ring that the port does not have, for a ring of another
    /// size, or with a position outside the ring is refused, and the port
    /// stays as it was.
    pub fn sync_rx_ring(&mut self, ring: usize, state: &RingState) -> (accepted: bool)
        requires
            old(self).wf(),
        ensures
            final(self).wf(),
            accepted <==> ring < old(self)@.rx_rings.len() && state.wf() && state.num_slots == old(
                self,
            )@.rx_rings[ring as int].num_slots(),
            accepted ==> final(self)@ == old(self)@.synced(ring as int, *state),
            !accepted ==> final(self)@ == old(self)@,
    {
        if ring >= self.rx_rings.len() {
            return false;
        }
        assert(self.rx_rings@[ring as int]@ == self@.rx_rings[ring as int]);
        let accepted = self.rx_rings[ring].sync(state);
        proof {
            let after = self.rx_rings@[ring as int];
            lemma_ring_views_update(old(self).rx_rings@, ring as int, after);
            lemma_replaced_ring_keeps_port_well_formed(old(self)@, ring as int, after@);
            if !accepted {
                assert(self@.rx_rings =~= old(self)@.rx_rings);
            }
        }
        accepted
    }

    /// Records that the device stored `bytes` in slot `slot` of receive ring
    /// `ring`.
    ///
    /// A ring or a slot that the port does not have, or a packet that does
    /// not fit the slot, is refused, and the port stays as it was.
    pub fn fill_rx_slot(&mut self, ring: usize, slot: usize, bytes: &[u8]) -> (stored: bool)
        requires
            old(self).wf(),
        ensures
            final(self).wf(),
            stored <==> ring < old(self)@.rx_rings.len() && slot < old(
                self,
            )@.rx_rings[ring as int].num_slots() && bytes@.len() <= old(
                self,
            )@.rx_rings[ring as int].slots[slot as int].capacity(),
            stored ==> final(self)@ == old(self)@.filled(ring as int, slot as int, bytes@),
            !stored ==> final(self)@ == old(self)@,
    {
        if ring >= self.rx_rings.len() {
            return false;
        }
        assert(self.rx_rings@[ring as int]@ == self@.rx_rings[ring as int]);
        let stored = self.rx_rings[ring].fill_slot(slot, bytes);
        proof {
            let after = self.rx_rings@[ring as int];
            lemma_ring_views_update(old(self).rx_rings@, ring as int, after);
            lemma_replaced_ring_keeps_port_well_formed(old(self)@, ring as int, after@);
            if !stored {
                assert(self@.rx_rings =~= old(self)@.rx_rings);
            }
        }
        stored
    }

    /// What the device reported, or the error for a device that did not open.
    fn open_port(spec: &str, device: Option<DeviceState>) -> (port: Result<DeviceState, OpenError>)
        ensures
            port is Ok <==> device is Some,
            port matches Ok(d) ==> d == device->0,
            port matches Err(e) ==> e.spec@ == spec@,
    {
        match device {
            None => Err(OpenError::new(spec)),
            Some(port) => Ok(port),
        }
    }

    /// One ring for each transmit queue of the device, in queue order.
    fn tx_rings_from_port(port: &DeviceState) -> (rings: Option<Vec<Ring>>)
        ensures
            rings is Some <==> port.covers(RingType::Tx),
            rings matches Some(v) ==> ring_views(v@) == port.fresh_rings(RingType::Tx) && forall|
                i: int,
            | 0 <= i < v@.len() ==> (#[trigger] v@[i]).wf(),
    {
        Port::rings_from_port(port, RingType::Tx)
    }

    /// One ring for each receive queue of the device, in queue order.
    fn rx_rings_from_port(port: &DeviceState) -> (rings: Option<Vec<Ring>>)
        ensures
            rings is Some <==> port.covers(RingType::Rx),
            rings matches Some(v) ==> ring_views(v@) == port.fresh_rings(RingType::Rx) && forall|
                i: int,
            | 0 <= i < v@.len() ==> (#[trigger] v@[i]).wf(),
    {
        Port::rings_from_port(port, RingType::Rx)
    }

    /// One ring for each queue of one direction, from the first to the last,
    /// or nothing if the report of one of them is missing or unusable.
    fn rings_from_port(port: &DeviceState, ring_type: RingType) -> (rings: Option<Vec<Ring>>)
        ensures
            rings is Some <==> port.covers(ring_type),
            rings matches Some(v) ==> ring_views(v@) == port.fresh_rings(ring_type) && forall|
                i: int,
            | 0 <= i < v@.len() ==> (#[trigger] v@[i]).wf(),
    {
        let (first, last) = match ring_type {
            RingType::Rx => (port.first_rx_ring, port.last_rx_ring),
            RingType::Tx => (port.first_tx_ring, port.last_tx_ring),
        };
        let ghost reports = port.reports(ring_type);
        let mut rings: Vec<Ring> = Vec::new();
        let mut ri: u32 = first as u32;
        while ri <= last as u32
            invariant
                first == port.first_ring(ring_type),
                last == port.last_ring(ring_type),
                reports == port.reports(ring_type),
                ri == first || first < ri <= last + 1,
                rings@.len() == ri - first,
                forall|k: int| 0 <= k < rings@.len() ==> (#[trigger] rings@[k]).wf(),
                rings@.len() <= reports.len(),
                forall|k: int| 0 <= k < rings@.len() ==> (#[trigger] reports[k]).wf(),
                forall|k: int|
                    0 <= k < rings@.len() ==> (#[trigger] rings@[k])@ == RingView::fresh(
                        ring_type,
                        reports[k],
                        (first + k) as u16,
                    ),
            decreases last + 1 - ri,
        {
            match Port::ring_from_index(port, ring_type, ri as u16) {
                Some(ring) => rings.push(ring),
                None => {
                    assert(!(ri - first < reports.len() && reports[ri - first].wf()));
                    return None;
                },
            }
            ri += 1;
        }
        assert(ring_views(rings@) =~= port.fresh_rings(ring_type));
        Some(rings)
    }

    /// The ring of queue `index` of one direction, from the device's report
    /// of it.
    fn ring_from_index(port: &DeviceState, ring_type: RingType, index: u16) -> (ring: Option<
        Ring,
    >)
        ensures
            ring is Some <==> port.first_ring(ring_type) <= index && index - port.first_ring(
                ring_type,
            ) < port.reports(ring_type).len() && port.reports(ring_type)[index - port.first_ring(
                ring_type,
            )].wf(),
            ring matches Some(r) ==> r.wf() && r@ == RingView::fresh(
                ring_type,
                port.reports(ring_type)[index - port.first_ring(ring_type)],
                index,
            ),
    {
        let (first, reports) = match ring_type {
            RingType::Rx => (port.first_rx_ring, &port.rx_rings),
            RingType::Tx => (port.first_tx_ring, &port.tx_rings),
        };
        if index < first {
            return None;
        }
        let k: usize = (index - first) as usize;
        if k >= reports.len() {
            return None;
        }
        Ring::new(ring_type, &reports[k], index)
    }
}

/// A device selection, as it is handed to the device when a port is opened.
#[derive(Debug)]
pub struct PortSpec {
    spec: String,
}

impl View for PortSpec {
    type V = Seq<char>;

    closed spec fn view(&self) -> Seq<char> {
        self.spec@
    }
}

impl PortSpec {
    /// The selection `spec`, taken as it is.
    pub fn from(spec: &str) -> (port_spec: PortSpec)
        ensures
            port_spec@ == spec@,
    {
        let spec = String::from_str(spec);
        PortSpec { spec }
    }

    /// The selection as text.
    pub fn as_str(&self) -> (spec: &str)
        ensures
            spec@ == self@,
    {
        self.spec.as_str()
    }

    /// Builds the port of this selection from what the device reported when
    /// it was opened; `None` stands for a device that did not open.
    ///
    /// The port has one ring for each queue of the device, with the
    /// positions that the device reports, and its scan starts at the first
    /// receive ring. Where the device did not open, or its reports do not
    /// cover its queues, the error carries the selection.
    pub fn open_port(&self, device: Option<DeviceState>) -> (port: Result<Port, OpenError>)
        ensures
            port is Ok <==> device is Some && device->0.wf(),
            port matches Ok(p) ==> p.wf() && p@ == PortView::opened(device->0),
            port matches Err(e) ==> e.spec@ == self@,
    {
        Port::open(self.spec.as_str(), device)
    }
}

} // verus!
