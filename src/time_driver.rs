use vstd::prelude::*;

verus! {

/// Number of hardware comparator channels behind the time source.
pub const ALARM_COUNT: usize = 3;

/// Deadline held by a slot that has not been armed.
pub const TIMESTAMP_UNSET: u64 = 0xffff_ffff_ffff_ffff;

/// One alarm slot, bound for life to the comparator channel of the same index.
///
/// `C` is the callback stored by value: a function together with its context.
pub struct AlarmState<C> {
    pub timestamp: u64,
    pub callback: Option<C>,
    pub allocated: bool,
}

/// The state of a slot that was never allocated.
pub open spec fn fresh_alarm<C>() -> AlarmState<C> {
    AlarmState { timestamp: TIMESTAMP_UNSET, callback: None, allocated: false }
}

/// The table before any allocation: every slot fresh.
pub open spec fn fresh_table<C>() -> Seq<AlarmState<C>> {
    Seq::new(ALARM_COUNT as nat, |_i: int| fresh_alarm::<C>())
}

impl<C> AlarmState<C> {
    pub fn new() -> (r: Self)
        ensures
            r == fresh_alarm::<C>(),
    {
        AlarmState { timestamp: TIMESTAMP_UNSET, callback: None, allocated: false }
    }
}

/// Capability for one allocated alarm slot; `id` is the slot's index.
#[derive(Clone, Copy, Debug, PartialEq, Eq, Structural)]
pub struct AlarmHandle {
    pub id: u8,
}

impl AlarmHandle {
    pub fn id(&self) -> (r: u8)
        ensures
            r == self.id,
    {
        self.id
    }
}

/// What the caller has to do after `set_alarm`, still inside the exclusion.
#[derive(Debug)]
pub enum AlarmAction<C> {
    /// The deadline has already passed: invoke this callback now.
    Fire(C),
    /// Program comparator `channel` with `target` and enable its interrupt.
    Arm { channel: u8, target: u64 },
}

/// First unallocated slot at index `i` or later.
pub open spec fn first_free_from<C>(alarms: Seq<AlarmState<C>>, i: int) -> Option<int>
    decreases alarms.len() - i,
{
    if i < 0 || i >= alarms.len() {
        None
    } else if !alarms[i].allocated {
        Some(i)
    } else {
        first_free_from(alarms, i + 1)
    }
}

/// The slot that the next allocation grants, if any is left.
pub open spec fn first_free<C>(alarms: Seq<AlarmState<C>>) -> Option<int> {
    first_free_from(alarms, 0)
}

/// The table after one allocation request.
pub open spec fn allocation_step<C>(alarms: Seq<AlarmState<C>>) -> Seq<AlarmState<C>> {
    match first_free(alarms) {
        Some(i) => alarms.update(i, AlarmState { allocated: true, ..alarms[i] }),
        None => alarms,
    }
}

/// The table after `n` allocation requests.
pub open spec fn allocation_steps<C>(alarms: Seq<AlarmState<C>>, n: nat) -> Seq<AlarmState<C>>
    decreases n,
{
    if n == 0 {
        alarms
    } else {
        allocation_step(allocation_steps(alarms, (n - 1) as nat))
    }
}

/// The table after storing `callback` in slot `id`.
pub open spec fn with_callback<C>(alarms: Seq<AlarmState<C>>, id: int, callback: C) -> Seq<
    AlarmState<C>,
> {
    alarms.update(id, AlarmState { callback: Some(callback), ..alarms[id] })
}

/// Whether a deadline counts as elapsed at counter value `now`.
pub open spec fn elapsed(timestamp: u64, now: u64) -> bool {
    timestamp <= now
}

/// What `set_alarm` asks of the caller.
pub open spec fn set_alarm_action<C>(alarms: Seq<AlarmState<C>>, id: int, timestamp: u64, now: u64) -> AlarmAction<C> {
    if elapsed(timestamp, now) {
        AlarmAction::Fire(alarms[id].callback.unwrap())
    } else {
        AlarmAction::Arm { channel: id as u8, target: timestamp }
    }
}

/// The table after `set_alarm`: an elapsed deadline leaves it as it was.
pub open spec fn set_alarm_table<C>(alarms: Seq<AlarmState<C>>, id: int, timestamp: u64, now: u64) -> Seq<AlarmState<C>> {
    if elapsed(timestamp, now) {
        alarms
    } else {
        alarms.update(id, AlarmState { timestamp, ..alarms[id] })
    }
}

/// The callback that an interrupt of channel `id` invokes.
pub open spec fn interrupt_callback<C>(alarms: Seq<AlarmState<C>>, id: int) -> C {
    alarms[id].callback.unwrap()
}

/// The time source: the alarm table, one slot per comparator channel.
pub struct EmbassyTimer<C> {
    pub alarms: Vec<AlarmState<C>>,
}

impl<C: Copy> EmbassyTimer<C> {
    pub open spec fn wf(&self) -> bool {
        self.alarms@.len() == ALARM_COUNT
    }

    /// Whether `alarm` names a slot that has been allocated.
    pub open spec fn granted(&self, alarm: AlarmHandle) -> bool {
        &&& alarm.id < ALARM_COUNT
        &&& self.alarms@[alarm.id as int].allocated
    }

    /// Creates the time source with every slot free and unarmed.
    pub fn init() -> (r: Self)
        ensures
            r.wf(),
            r.alarms@ == fresh_table::<C>(),
    {
        let mut alarms: Vec<AlarmState<C>> = Vec::new();
        let mut i: usize = 0;
        while i < ALARM_COUNT
            invariant
                i <= ALARM_COUNT,
                alarms@ == Seq::new(i as nat, |_j: int| fresh_alarm::<C>()),
            decreases ALARM_COUNT - i,
        {
            alarms.push(AlarmState::new());
            i = i + 1;
        }
        assert(alarms@ =~= fresh_table::<C>());
        EmbassyTimer { alarms }
    }

    /// Reserves the first free slot for good; `None` once every slot is taken.
    pub fn allocate_alarm(&mut self) -> (r: Option<AlarmHandle>)
        requires
            old(self).wf(),
        ensures
            final(self).wf(),
            final(self).alarms@ == allocation_step(old(self).alarms@),
            r == match first_free(old(self).alarms@) {
                Some(i) => Some(AlarmHandle { id: i as u8 }),
                None => None::<AlarmHandle>,
            },
            r matches Some(h) ==> {
                &&& h.id < ALARM_COUNT
                &&& !old(self).alarms@[h.id as int].allocated
                &&& forall|j: int| 0 <= j < h.id ==> old(self).alarms@[j].allocated
            },
            r is None <==> forall|j: int| 0 <= j < ALARM_COUNT ==> old(self).alarms@[j].allocated,
            r matches Some(h) ==> final(self).alarms@ == old(self).alarms@.update(
                h.id as int,
                (AlarmState { allocated: true, ..old(self).alarms@[h.id as int] }),
            ),
            r is None ==> final(self).alarms@ == old(self).alarms@,
    {
        let ghost start = self.alarms@;
        let mut i: usize = 0;
        while i < ALARM_COUNT
            invariant
                i <= ALARM_COUNT,
                self.alarms@ == start,
                start == old(self).alarms@,
                start.len() == ALARM_COUNT,
                first_free(start) == first_free_from(start, i as int),
                forall|j: int| 0 <= j < i ==> start[j].allocated,
            decreases ALARM_COUNT - i,
        {
            if !self.alarms[i].allocated {
                assert(first_free(start) == Some(i as int));
                self.alarms[i].allocated = true;
                assert(self.alarms@ =~= allocation_step(start));

                return Some(AlarmHandle { id: i as u8 });
            }
            i = i + 1;
        }
        None
    }

    /// Stores the callback that fires for `alarm`, replacing any earlier one.
    pub fn set_alarm_callback(&mut self, alarm: AlarmHandle, callback: C)
        requires
            old(self).wf(),
            old(self).granted(alarm),
        ensures
            final(self).wf(),
            final(self).alarms@ == with_callback(old(self).alarms@, alarm.id as int, callback),
    {
        let id = alarm.id as usize;
        self.alarms[id].callback = Some(callback);
    }

    /// Arms `alarm` for `timestamp`, given the counter value `now`.
    ///
    /// An elapsed deadline is not programmed: the stored callback is handed
    /// back to be invoked at once. Otherwise the deadline is recorded and the
    /// caller programs the slot's comparator channel.
    pub fn set_alarm(&mut self, alarm: AlarmHandle, timestamp: u64, now: u64) -> (r: AlarmAction<C>)
        requires
            old(self).wf(),
            old(self).granted(alarm),
            old(self).alarms@[alarm.id as int].callback is Some,
        ensures
            final(self).wf(),
            r == set_alarm_action(old(self).alarms@, alarm.id as int, timestamp, now),
            final(self).alarms@ == set_alarm_table(old(self).alarms@, alarm.id as int, timestamp, now),
    {
        let id = alarm.id as usize;
        if timestamp <= now {
            return AlarmAction::Fire(self.trigger_alarm(id));
        }
        self.alarms[id].timestamp = timestamp;
        AlarmAction::Arm { channel: alarm.id, target: timestamp }
    }

    /// The callback stored in slot `n`.
    fn trigger_alarm(&self, n: usize) -> (r: C)
        requires
            self.wf(),
            n < ALARM_COUNT,
            self.alarms@[n as int].callback is Some,
        ensures
            r == interrupt_callback(self.alarms@, n as int),
    {
        match self.alarms[n].callback {
            Some(f) => f,
            None => {
                assert(false);
                self.alarms[n].callback.unwrap()
            }
        }
    }

    /// Interrupt entry for comparator channel `id`, once the caller has
    /// acknowledged the channel's pending flag: the callback to invoke.
    pub fn on_interrupt(&self, id: u8) -> (r: C)
        requires
            self.wf(),
            id < ALARM_COUNT,
            self.alarms@[id as int].callback is Some,
        ensures
            r == interrupt_callback(self.alarms@, id as int),
    {
        self.trigger_alarm(id as usize)
    }
}

/// The slot that an allocation grants is in the table and was free.
pub proof fn lemma_first_free_is_free<C>(alarms: Seq<AlarmState<C>>, i: int)
    requires
        0 <= i,
    ensures
        first_free_from(alarms, i) matches Some(k) ==> i <= k < alarms.len() && !alarms[k].allocated,
    decreases alarms.len() - i,
{
    if i < alarms.len() && alarms[i].allocated {
        lemma_first_free_is_free(alarms, i + 1);
    }
}

/// Allocation only ever sets flags: a reserved slot stays reserved.
pub proof fn lemma_allocation_keeps_reservations<C>(alarms: Seq<AlarmState<C>>, n: nat)
    ensures
        allocation_steps(alarms, n).len() == alarms.len(),
        forall|j: int|
            0 <= j < alarms.len() && alarms[j].allocated ==> #[trigger] allocation_steps(
                alarms,
                n,
            )[j].allocated,
    decreases n,
{
    if n > 0 {
        lemma_allocation_keeps_reservations(alarms, (n - 1) as nat);
        lemma_first_free_is_free(allocation_steps(alarms, (n - 1) as nat), 0);
    }
}

/// From a fresh table the first three requests get slots 0, 1 and 2, in that
/// order, and the fourth request finds nothing left.
pub proof fn lemma_allocation_exhaustion<C>()
    ensures
        first_free(allocation_steps(fresh_table::<C>(), 0)) == Some(0int),
        first_free(allocation_steps(fresh_table::<C>(), 1)) == Some(1int),
        first_free(allocation_steps(fresh_table::<C>(), 2)) == Some(2int),
        first_free(allocation_steps(fresh_table::<C>(), 3)) is None,
{
    let t0 = fresh_table::<C>();
    assert(first_free(t0) == Some(0int));
    let t1 = allocation_steps(t0, 1);
    assert(t1 == allocation_step(t0));
    assert(first_free_from(t1, 1) == Some(1int));
    assert(first_free(t1) == Some(1int));
    let t2 = allocation_steps(t0, 2);
    assert(t2 == allocation_step(t1));
    assert(first_free_from(t2, 2) == Some(2int));
    assert(first_free_from(t2, 1) == Some(2int));
    assert(first_free(t2) == Some(2int));
    let t3 = allocation_steps(t0, 3);
    assert(t3 == allocation_step(t2));
    assert(first_free_from(t3, 3) is None);
    assert(first_free_from(t3, 2) is None);
    assert(first_free_from(t3, 1) is None);
}

/// A slot, once granted, is never granted again, however many allocation
/// requests follow.
pub proof fn lemma_granted_slot_never_reused<C>(alarms: Seq<AlarmState<C>>, n: nat)
    requires
        first_free(alarms) is Some,
    ensures
        first_free(allocation_steps(allocation_step(alarms), n)) != first_free(alarms),
{
    let i = first_free(alarms).unwrap();
    lemma_first_free_is_free(alarms, 0);
    let after = allocation_step(alarms);
    assert(after[i].allocated);
    lemma_allocation_keeps_reservations(after, n);
    let later = allocation_steps(after, n);
    assert(later[i].allocated);
    lemma_first_free_is_free(later, 0);
}

/// A deadline that has already passed when it is set fires the callback last
/// stored for that slot, once, and programs no comparator.
pub proof fn lemma_elapsed_deadline_fires_at_once<C>(
    alarms: Seq<AlarmState<C>>,
    id: int,
    callback: C,
    timestamp: u64,
    now: u64,
)
    requires
        0 <= id < alarms.len(),
        timestamp <= now,
    ensures
        set_alarm_action(with_callback(alarms, id, callback), id, timestamp, now)
            == AlarmAction::Fire(callback),
        set_alarm_table(with_callback(alarms, id, callback), id, timestamp, now) == with_callback(
            alarms,
            id,
            callback,
        ),
{
}

/// A deadline still ahead fires nothing when it is set: it programs the
/// slot's own comparator with exactly that deadline, and the interrupt of
/// that comparator later invokes the stored callback.
pub proof fn lemma_future_deadline_fires_on_interrupt<C>(
    alarms: Seq<AlarmState<C>>,
    id: int,
    callback: C,
    timestamp: u64,
    now: u64,
)
    requires
        0 <= id < alarms.len() <= ALARM_COUNT,
        now < timestamp,
    ensures
        set_alarm_action(with_callback(alarms, id, callback), id, timestamp, now)
            == (AlarmAction::<C>::Arm { channel: id as u8, target: timestamp }),
        set_alarm_table(with_callback(alarms, id, callback), id, timestamp, now)[id].timestamp
            == timestamp,
        interrupt_callback(
            set_alarm_table(with_callback(alarms, id, callback), id, timestamp, now),
            id,
        ) == callback,
{
}

/// What happens to one slot never changes the callback that another
/// channel's interrupt invokes.
pub proof fn lemma_channel_isolation<C>(
    alarms: Seq<AlarmState<C>>,
    i: int,
    j: int,
    callback: C,
    timestamp: u64,
    now: u64,
)
    requires
        0 <= i < alarms.len(),
        0 <= j < alarms.len(),
        i != j,
    ensures
        interrupt_callback(with_callback(alarms, j, callback), i) == interrupt_callback(alarms, i),
        interrupt_callback(set_alarm_table(alarms, j, timestamp, now), i) == interrupt_callback(
            alarms,
            i,
        ),
{
}

} // verus!
