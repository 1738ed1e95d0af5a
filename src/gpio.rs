use vstd::prelude::*;
use vstd::std_specs::bits::axiom_u32_trailing_zeros;

verus! {

/// Pins of the chip that the default table is sized for.
pub const PIN_COUNT: usize = 26;

/// Width of the pending-interrupt register: at most this many pins.
pub const MAX_PINS: usize = 32;

/// The condition a pin is configured to detect before a wait is armed.
#[derive(Clone, Copy, Debug, PartialEq, Eq, Structural)]
pub enum Event {
    RisingEdge,
    FallingEdge,
    HighLevel,
    LowLevel,
    AnyEdge,
}

/// Per-pin wake slot, with the pin's interrupt-enable bit.
///
/// `listening` mirrors the enable bit: set when a wait begins, cleared by the
/// interrupt dispatcher when the event has been seen. `W` is a waker.
pub struct PinWakerSlot<W> {
    pub listening: bool,
    pub event: Option<Event>,
    pub waker: Option<W>,
}

/// A slot with no wait armed and nobody registered.
pub open spec fn idle_slot<W>() -> PinWakerSlot<W> {
    PinWakerSlot { listening: false, event: None, waker: None }
}

/// Result of polling a pin wait.
#[derive(Clone, Copy, Debug, PartialEq, Eq, Structural)]
pub enum WaitPoll {
    Ready,
    Pending,
}

/// A pin whose number the dispatcher acknowledged, and the waker to wake.
pub struct PinWake<W> {
    pub pin: u8,
    pub waker: Option<W>,
}

/// Whether bit `i` of `mask` is set.
pub open spec fn bit_set(mask: u32, i: int) -> bool {
    (mask >> (i as u32)) & 1u32 == 1u32
}

/// Whether `mask` names only pins below `pin_count`.
pub open spec fn pins_in_range(mask: u32, pin_count: int) -> bool {
    forall|i: int| pin_count <= i < MAX_PINS ==> !#[trigger] bit_set(mask, i)
}

/// The slot after a wait for `event` began on it.
pub open spec fn armed_slot<W>(slot: PinWakerSlot<W>, event: Event) -> PinWakerSlot<W> {
    PinWakerSlot { listening: true, event: Some(event), ..slot }
}

/// The slot after a poll registered `waker` in it.
pub open spec fn registered_slot<W>(slot: PinWakerSlot<W>, waker: W) -> PinWakerSlot<W> {
    PinWakerSlot { waker: Some(waker), ..slot }
}

/// The slot after the dispatcher serviced its pin: disabled, waker consumed.
pub open spec fn serviced_slot<W>(slot: PinWakerSlot<W>) -> PinWakerSlot<W> {
    PinWakerSlot { listening: false, waker: None, ..slot }
}

/// What a poll of a pin in this slot reports: the dispatcher has run for it
/// exactly when its enable bit is clear.
pub open spec fn poll_outcome<W>(slot: PinWakerSlot<W>) -> WaitPoll {
    if slot.listening {
        WaitPoll::Pending
    } else {
        WaitPoll::Ready
    }
}

/// The table after the dispatcher serviced the pins of `mask`.
pub open spec fn dispatched<W>(slots: Seq<PinWakerSlot<W>>, mask: u32) -> Seq<PinWakerSlot<W>> {
    Seq::new(
        slots.len(),
        |i: int|
            if bit_set(mask, i) {
                serviced_slot(slots[i])
            } else {
                slots[i]
            },
    )
}

/// The wakes the dispatcher delivers for the pins of `mask` from pin `i` up,
/// in ascending pin order.
pub open spec fn wakes_from<W>(slots: Seq<PinWakerSlot<W>>, mask: u32, i: int) -> Seq<PinWake<W>>
    decreases slots.len() - i,
{
    if i < 0 || i >= slots.len() {
        Seq::empty()
    } else if bit_set(mask, i) {
        seq![PinWake { pin: i as u8, waker: slots[i].waker }] + wakes_from(slots, mask, i + 1)
    } else {
        wakes_from(slots, mask, i + 1)
    }
}

/// The wakes delivered for the pins of `mask`, in ascending pin order.
pub open spec fn wakes<W>(slots: Seq<PinWakerSlot<W>>, mask: u32) -> Seq<PinWake<W>> {
    wakes_from(slots, mask, 0)
}

/// One wake slot per pin.
pub struct PinWakerTable<W> {
    pub slots: Vec<PinWakerSlot<W>>,
}

impl<W> PinWakerTable<W> {
    pub open spec fn wf(&self) -> bool {
        self.slots@.len() <= MAX_PINS
    }

    /// Whether `pin` is a pin of this table.
    pub open spec fn has_pin(&self, pin: u8) -> bool {
        pin < self.slots@.len()
    }

    /// A table for `pin_count` pins, all idle.
    pub fn new(pin_count: usize) -> (r: Self)
        requires
            pin_count <= MAX_PINS,
        ensures
            r.wf(),
            r.slots@ == Seq::new(pin_count as nat, |_i: int| idle_slot::<W>()),
    {
        let mut slots: Vec<PinWakerSlot<W>> = Vec::new();
        let mut i: usize = 0;
        while i < pin_count
            invariant
                i <= pin_count,
                slots@ == Seq::new(i as nat, |_j: int| idle_slot::<W>()),
            decreases pin_count - i,
        {
            slots.push(PinWakerSlot { listening: false, event: None, waker: None });
            i = i + 1;
        }
        assert(slots@ =~= Seq::new(pin_count as nat, |_j: int| idle_slot::<W>()));
        PinWakerTable { slots }
    }

    /// Begins a wait on `pin`: configures detection of `event` and sets the
    /// pin's interrupt-enable bit. A waker already registered stays.
    pub fn listen(&mut self, pin: u8, event: Event)
        requires
            old(self).wf(),
            old(self).has_pin(pin),
        ensures
            final(self).wf(),
            final(self).slots@ == old(self).slots@.update(
                pin as int,
                armed_slot(old(self).slots@[pin as int], event),
            ),
    {
        let i = pin as usize;
        self.slots[i].listening = true;
        self.slots[i].event = Some(event);
    }

    /// Stores `waker` as the one waiter of `pin`, replacing any earlier one.
    pub fn register(&mut self, pin: u8, waker: W)
        requires
            old(self).wf(),
            old(self).has_pin(pin),
        ensures
            final(self).wf(),
            final(self).slots@ == old(self).slots@.update(
                pin as int,
                registered_slot(old(self).slots@[pin as int], waker),
            ),
    {
        let i = pin as usize;
        self.slots[i].waker = Some(waker);
    }

    /// Whether `pin`'s interrupt-enable bit is still set.
    pub fn is_listening(&self, pin: u8) -> (r: bool)
        requires
            self.has_pin(pin),
        ensures
            r == self.slots@[pin as int].listening,
    {
        self.slots[pin as usize].listening
    }

    /// Interrupt entry for the GPIO block, given the snapshot `pending` of
    /// the pending-bit register, which the caller has acknowledged as a whole.
    ///
    /// Services the set bits in ascending pin order: clears the pin's
    /// interrupt-enable bit and takes its waker. The result lists each
    /// serviced pin with the waker to wake; the caller clears the pin's
    /// hardware enable bit before it wakes.
    pub fn on_interrupt(&mut self, pending: u32) -> (r: Vec<PinWake<W>>)
        requires
            old(self).wf(),
            pins_in_range(pending, old(self).slots@.len() as int),
        ensures
            final(self).wf(),
            final(self).slots@ == dispatched(old(self).slots@, pending),
            r@ == wakes(old(self).slots@, pending),
    {
        let ghost start = self.slots@;
        let ghost n = start.len() as int;
        let mut woken: Vec<PinWake<W>> = Vec::new();
        let mut intrs: u32 = pending;
        let ghost mut k: int = 0;
        while intrs != 0
            invariant
                start == old(self).slots@,
                n == start.len(),
                n <= MAX_PINS,
                pins_in_range(pending, n),
                0 <= k <= n,
                self.slots@.len() == n,
                forall|j: int| k <= j < MAX_PINS ==> #[trigger] bit_set(intrs, j) == bit_set(pending, j),
                forall|j: int| 0 <= j < k ==> !#[trigger] bit_set(intrs, j),
                wakes(start, pending) == woken@ + wakes_from(start, pending, k),
                forall|j: int|
                    0 <= j < n ==> #[trigger] self.slots@[j] == if j < k && bit_set(pending, j) {
                        serviced_slot(start[j])
                    } else {
                        start[j]
                    },
            decreases MAX_PINS - k,
        {
            let pin_nr = intrs.trailing_zeros();
            proof {
                axiom_u32_trailing_zeros(intrs);
                assert(bit_set(intrs, pin_nr as int));
                assert forall|j: int| k <= j < pin_nr implies !bit_set(pending, j) by {
                    assert((intrs >> (j as u32)) & 1u32 == 0u32);
                    assert(!bit_set(intrs, j));
                    assert(bit_set(intrs, j) == bit_set(pending, j));
                }
                if pin_nr < k {
                    assert(!bit_set(intrs, pin_nr as int));
                }
                assert(bit_set(pending, pin_nr as int));
                lemma_wakes_skip(start, pending, k, pin_nr as int);
            }
            let i = pin_nr as usize;
            self.slots[i].listening = false;
            let waker = self.slots[i].waker.take();
            woken.push(PinWake { pin: pin_nr as u8, waker });
            let ghost before = intrs;
            intrs = intrs & !(1u32 << pin_nr);
            proof {
                assert forall|j: int| 0 <= j < MAX_PINS implies #[trigger] bit_set(intrs, j) == (j
                    != pin_nr && bit_set(before, j)) by {
                    lemma_clear_bit(before, pin_nr, j as u32);
                }
                k = pin_nr + 1;
                assert(woken@ + wakes_from(start, pending, k) =~= wakes(start, pending));
            }
        }
        proof {
            assert forall|j: int| k <= j < MAX_PINS implies !bit_set(pending, j) by {
                lemma_zero_has_no_bits(j as u32);
                assert(!bit_set(intrs, j));
                assert(bit_set(intrs, j) == bit_set(pending, j));
            }
            lemma_wakes_none(start, pending, k);
            assert(woken@ =~= wakes(start, pending));
            assert(self.slots@ =~= dispatched(start, pending));
        }
        woken
    }
}

/// A pin that tasks can wait on, by its number.
pub struct AsyncPin(pub u8);

impl AsyncPin {
    fn wait_for<W>(&self, wakers: &mut PinWakerTable<W>, event: Event) -> (r: PinFuture)
        requires
            old(wakers).wf(),
            old(wakers).has_pin(self.0),
        ensures
            final(wakers).wf(),
            final(wakers).slots@ == old(wakers).slots@.update(
                self.0 as int,
                armed_slot(old(wakers).slots@[self.0 as int], event),
            ),
            r.pin == self.0,
    {
        wakers.listen(self.0, event);
        PinFuture::new(self.0)
    }

    /// Begins a wait for the pin to read high.
    pub fn wait_for_high<W>(&self, wakers: &mut PinWakerTable<W>) -> (r: PinFuture)
        requires
            old(wakers).wf(),
            old(wakers).has_pin(self.0),
        ensures
            final(wakers).wf(),
            final(wakers).slots@ == old(wakers).slots@.update(
                self.0 as int,
                armed_slot(old(wakers).slots@[self.0 as int], Event::HighLevel),
            ),
            r.pin == self.0,
    {
        self.wait_for(wakers, Event::HighLevel)
    }

    /// Begins a wait for the pin to read low.
    pub fn wait_for_low<W>(&self, wakers: &mut PinWakerTable<W>) -> (r: PinFuture)
        requires
            old(wakers).wf(),
            old(wakers).has_pin(self.0),
        ensures
            final(wakers).wf(),
            final(wakers).slots@ == old(wakers).slots@.update(
                self.0 as int,
                armed_slot(old(wakers).slots@[self.0 as int], Event::LowLevel),
            ),
            r.pin == self.0,
    {
        self.wait_for(wakers, Event::LowLevel)
    }

    /// Begins a wait for a rising edge on the pin.
    pub fn wait_for_rising_edge<W>(&self, wakers: &mut PinWakerTable<W>) -> (r: PinFuture)
        requires
            old(wakers).wf(),
            old(wakers).has_pin(self.0),
        ensures
            final(wakers).wf(),
            final(wakers).slots@ == old(wakers).slots@.update(
                self.0 as int,
                armed_slot(old(wakers).slots@[self.0 as int], Event::RisingEdge),
            ),
            r.pin == self.0,
    {
        self.wait_for(wakers, Event::RisingEdge)
    }

    /// Begins a wait for a falling edge on the pin.
    pub fn wait_for_falling_edge<W>(&self, wakers: &mut PinWakerTable<W>) -> (r: PinFuture)
        requires
            old(wakers).wf(),
            old(wakers).has_pin(self.0),
        ensures
            final(wakers).wf(),
            final(wakers).slots@ == old(wakers).slots@.update(
                self.0 as int,
                armed_slot(old(wakers).slots@[self.0 as int], Event::FallingEdge),
            ),
            r.pin == self.0,
    {
        self.wait_for(wakers, Event::FallingEdge)
    }

    /// Begins a wait for any edge on the pin.
    pub fn wait_for_any_edge<W>(&self, wakers: &mut PinWakerTable<W>) -> (r: PinFuture)
        requires
            old(wakers).wf(),
            old(wakers).has_pin(self.0),
        ensures
            final(wakers).wf(),
            final(wakers).slots@ == old(wakers).slots@.update(
                self.0 as int,
                armed_slot(old(wakers).slots@[self.0 as int], Event::AnyEdge),
            ),
            r.pin == self.0,
    {
        self.wait_for(wakers, Event::AnyEdge)
    }
}

/// A suspension point bound to one pin, resolved once the dispatcher has
/// serviced that pin.
pub struct PinFuture {
    pub pin: u8,
}

impl PinFuture {
    pub fn new(pin: u8) -> (r: Self)
        ensures
            r.pin == pin,
    {
        PinFuture { pin }
    }

    /// Registers `waker` for the pin, then reports `Ready` exactly when the
    /// pin's interrupt-enable bit is already clear. Registering first means
    /// that a dispatch after this poll finds the waker.
    pub fn poll<W>(&self, wakers: &mut PinWakerTable<W>, waker: W) -> (r: WaitPoll)
        requires
            old(wakers).wf(),
            old(wakers).has_pin(self.pin),
        ensures
            final(wakers).wf(),
            final(wakers).slots@ == old(wakers).slots@.update(
                self.pin as int,
                registered_slot(old(wakers).slots@[self.pin as int], waker),
            ),
            r == poll_outcome(old(wakers).slots@[self.pin as int]),
    {
        wakers.register(self.pin, waker);
        if wakers.is_listening(self.pin) {
            WaitPoll::Pending
        } else {
            WaitPoll::Ready
        }
    }
}

/// Clearing bit `p` changes no other bit.
pub proof fn lemma_clear_bit(x: u32, p: u32, j: u32)
    by (bit_vector)
    requires
        p < 32,
        j < 32,
    ensures
        (((x & !(1u32 << p)) >> j) & 1u32 == 1u32) == (j != p && (x >> j) & 1u32 == 1u32),
{
}

/// Zero has no bit set.
pub proof fn lemma_zero_has_no_bits(j: u32)
    by (bit_vector)
    requires
        j < 32,
    ensures
        (0u32 >> j) & 1u32 != 1u32,
{
}

/// Pins `k` to `p - 1` are not pending and pin `p` is: the next wake is `p`'s.
pub proof fn lemma_wakes_skip<W>(slots: Seq<PinWakerSlot<W>>, mask: u32, k: int, p: int)
    requires
        0 <= k <= p < slots.len(),
        forall|j: int| k <= j < p ==> !#[trigger] bit_set(mask, j),
        bit_set(mask, p),
    ensures
        wakes_from(slots, mask, k) == seq![PinWake { pin: p as u8, waker: slots[p].waker }]
            + wakes_from(slots, mask, p + 1),
    decreases p - k,
{
    if k < p {
        lemma_wakes_skip(slots, mask, k + 1, p);
    }
}

/// No pin from `k` up is pending: no wake is left.
pub proof fn lemma_wakes_none<W>(slots: Seq<PinWakerSlot<W>>, mask: u32, k: int)
    requires
        0 <= k,
        forall|j: int| k <= j < slots.len() ==> !#[trigger] bit_set(mask, j),
    ensures
        wakes_from(slots, mask, k) == Seq::<PinWake<W>>::empty(),
    decreases slots.len() - k,
{
    if k < slots.len() {
        lemma_wakes_none(slots, mask, k + 1);
    }
}

/// Pins of `w` strictly increase.
pub open spec fn ascending_pins<W>(w: Seq<PinWake<W>>) -> bool {
    forall|a: int, b: int| 0 <= a < b < w.len() ==> w[a].pin < w[b].pin
}

/// Each wake of `w` is for a pending pin from `lo` up, with that pin's waker.
pub open spec fn wakes_registered<W>(
    w: Seq<PinWake<W>>,
    slots: Seq<PinWakerSlot<W>>,
    mask: u32,
    lo: int,
) -> bool {
    forall|a: int|
        0 <= a < w.len() ==> {
            &&& lo <= #[trigger] w[a].pin < slots.len()
            &&& bit_set(mask, w[a].pin as int)
            &&& w[a].waker == slots[w[a].pin as int].waker
        }
}

/// Each pending pin of the table from `lo` up has a wake in `w`.
pub open spec fn covers_pending<W>(
    w: Seq<PinWake<W>>,
    slots: Seq<PinWakerSlot<W>>,
    mask: u32,
    lo: int,
) -> bool {
    forall|p: int|
        lo <= p < slots.len() && #[trigger] bit_set(mask, p) ==> exists|a: int|
            0 <= a < w.len() && #[trigger] w[a].pin == p
}

proof fn lemma_wakes_from_shape<W>(slots: Seq<PinWakerSlot<W>>, mask: u32, k: int)
    requires
        0 <= k,
        slots.len() <= MAX_PINS,
    ensures
        ascending_pins(wakes_from(slots, mask, k)),
        wakes_registered(wakes_from(slots, mask, k), slots, mask, k),
        covers_pending(wakes_from(slots, mask, k), slots, mask, k),
    decreases slots.len() - k,
{
    if k < slots.len() {
        lemma_wakes_from_shape(slots, mask, k + 1);
        let rest = wakes_from(slots, mask, k + 1);
        let w = wakes_from(slots, mask, k);
        if bit_set(mask, k) {
            let head = PinWake { pin: k as u8, waker: slots[k].waker };
            assert(w == seq![head] + rest);
            assert forall|a: int| 0 < a < w.len() implies w[a] == rest[a - 1] by {}
            assert forall|p: int|
                k <= p < slots.len() && #[trigger] bit_set(mask, p) implies exists|a: int|
                0 <= a < w.len() && #[trigger] w[a].pin == p by {
                if p == k {
                    assert(w[0].pin == p);
                } else {
                    let b = choose|b: int| 0 <= b < rest.len() && #[trigger] rest[b].pin == p;
                    assert(w[b + 1].pin == p);
                }
            }
        } else {
            assert(w == rest);
            assert forall|p: int|
                k <= p < slots.len() && #[trigger] bit_set(mask, p) implies exists|a: int|
                0 <= a < w.len() && #[trigger] w[a].pin == p by {
                assert(p != k);
            }
        }
    }
}

/// The dispatcher wakes exactly the pending pins, each once and in ascending
/// order, each with the waker registered for it; every other pin keeps its
/// registration and its interrupt-enable bit.
pub proof fn lemma_dispatch_wakes_exactly_pending<W>(slots: Seq<PinWakerSlot<W>>, mask: u32)
    requires
        slots.len() <= MAX_PINS,
    ensures
        ascending_pins(wakes(slots, mask)),
        wakes_registered(wakes(slots, mask), slots, mask, 0),
        covers_pending(wakes(slots, mask), slots, mask, 0),
        forall|j: int|
            0 <= j < slots.len() && !bit_set(mask, j) ==> #[trigger] dispatched(slots, mask)[j]
                == slots[j],
        forall|j: int|
            0 <= j < slots.len() && bit_set(mask, j) ==> !(#[trigger] dispatched(
                slots,
                mask,
            )[j]).listening,
{
    lemma_wakes_from_shape(slots, mask, 0);
}

/// A poll made after the dispatcher serviced its pin resolves at once,
/// without a later wake, and so does every poll after it.
pub proof fn lemma_poll_after_service_is_ready<W>(
    slots: Seq<PinWakerSlot<W>>,
    mask: u32,
    p: int,
    waker: W,
)
    requires
        0 <= p < slots.len(),
        bit_set(mask, p),
    ensures
        poll_outcome(dispatched(slots, mask)[p]) == WaitPoll::Ready,
        poll_outcome(registered_slot(dispatched(slots, mask)[p], waker)) == WaitPoll::Ready,
{
}

/// Two events on one pin before its task polls again give one resolution:
/// the second service finds the waker already consumed, so it wakes nobody,
/// and it leaves the pin as the first service did.
pub proof fn lemma_repeated_events_coalesce<W>(
    slots: Seq<PinWakerSlot<W>>,
    first: u32,
    second: u32,
    p: int,
)
    requires
        slots.len() <= MAX_PINS,
        0 <= p < slots.len(),
        bit_set(first, p),
        bit_set(second, p),
    ensures
        dispatched(dispatched(slots, first), second)[p] == dispatched(slots, first)[p],
        forall|a: int|
            0 <= a < wakes(dispatched(slots, first), second).len() && (#[trigger] wakes(
                dispatched(slots, first),
                second,
            )[a]).pin == p ==> wakes(dispatched(slots, first), second)[a].waker is None,
{
    lemma_wakes_from_shape(dispatched(slots, first), second, 0);
}

} // verus!
