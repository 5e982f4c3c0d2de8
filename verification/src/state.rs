//! The shared state store and the single-slot command mailbox.
//!
//! The store holds the latest sampled measurements; each writer replaces
//! its fields in one exclusive step, so a reader's snapshot is never torn
//! across a sampling pass. The mailbox is a depth-one handoff from the
//! dispatcher to the actuation task: a send into an occupied slot does not
//! go through, which is the backpressure that paces a remote peer to the
//! actuation loop.

use vstd::prelude::*;

verus! {

/// One control command: shutdown flag, PWM duty percentage, and the four
/// DAC set-points.
#[derive(Clone, Copy, PartialEq, Eq, Structural, Debug)]
pub struct LoadControl {
    pub sdn: i32,
    pub pwm: i32,
    pub dac0: i32,
    pub dac1: i32,
    pub dac2: i32,
    pub dac3: i32,
}

/// The continuously updated snapshot of the hardware's state: four raw
/// load-channel codes, the calibration reference, the bus voltage, the
/// temperature, and the shutdown mirror.
#[derive(Clone, Copy, PartialEq, Eq, Structural, Debug)]
pub struct LoadState {
    pub ch0: i32,
    pub ch1: i32,
    pub ch2: i32,
    pub ch3: i32,
    pub cal: i32,
    pub v: i32,
    pub temp: i32,
    pub sdn: i32,
}

impl LoadState {
    /// The all-zero snapshot the store starts from.
    pub fn zeroed() -> (s: LoadState)
        ensures
            s == (LoadState { ch0: 0, ch1: 0, ch2: 0, ch3: 0, cal: 0, v: 0, temp: 0, sdn: 0 }),
    {
        LoadState { ch0: 0, ch1: 0, ch2: 0, ch3: 0, cal: 0, v: 0, temp: 0, sdn: 0 }
    }
}

/// The store of the latest measurements, read by the status handler and
/// written by the sampling tasks. A write replaces all of a pass's fields
/// at once, so no snapshot mixes two passes.
pub struct Store {
    state: LoadState,
}

impl View for Store {
    type V = LoadState;

    closed spec fn view(&self) -> LoadState {
        self.state
    }
}

impl Store {
    pub fn new() -> (s: Store)
        ensures
            s@ == (LoadState { ch0: 0, ch1: 0, ch2: 0, ch3: 0, cal: 0, v: 0, temp: 0, sdn: 0 }),
    {
        Store { state: LoadState::zeroed() }
    }

    /// One consistent snapshot of the latest written values.
    pub fn read(&self) -> (s: LoadState)
        ensures
            s == self@,
    {
        self.state
    }

    /// Publish one ADC pass: the six sampled codes replace their fields
    /// together; the temperature and shutdown mirror are untouched.
    pub fn apply_adc_samples(&mut self, samples: &[u16; 6])
        ensures
            final(self)@ == (LoadState {
                ch0: samples@[0] as i32,
                ch1: samples@[1] as i32,
                ch2: samples@[2] as i32,
                ch3: samples@[3] as i32,
                cal: samples@[4] as i32,
                v: samples@[5] as i32,
                temp: old(self)@.temp,
                sdn: old(self)@.sdn,
            }),
    {
        self.state.ch0 = samples[0] as i32;
        self.state.ch1 = samples[1] as i32;
        self.state.ch2 = samples[2] as i32;
        self.state.ch3 = samples[3] as i32;
        self.state.cal = samples[4] as i32;
        self.state.v = samples[5] as i32;
    }

    /// Publish one temperature reading; every other field is untouched.
    pub fn apply_temp_reading(&mut self, temp: i32)
        ensures
            final(self)@ == (LoadState { temp, ..old(self)@ }),
    {
        self.state.temp = temp;
    }
}

/// What a send does to the single slot: fills a free slot and reports
/// success, or leaves an occupied slot as it is — the sender then has to
/// wait for the consumer.
pub open spec fn mailbox_send(slot: Option<LoadControl>, cmd: LoadControl) -> (
    Option<LoadControl>,
    bool,
) {
    match slot {
        None => (Some(cmd), true),
        Some(prev) => (Some(prev), false),
    }
}

/// What a receive does to the single slot: takes whatever is there and
/// leaves the slot free.
pub open spec fn mailbox_receive(slot: Option<LoadControl>) -> (
    Option<LoadControl>,
    Option<LoadControl>,
) {
    (None, slot)
}

/// The depth-one command mailbox between the dispatcher and the actuation
/// task.
pub struct Mailbox {
    slot: Option<LoadControl>,
}

impl View for Mailbox {
    type V = Option<LoadControl>;

    closed spec fn view(&self) -> Option<LoadControl> {
        self.slot
    }
}

impl Mailbox {
    pub fn new() -> (m: Mailbox)
        ensures
            m@ is None,
    {
        Mailbox { slot: None }
    }

    /// One send attempt. `false` means the slot still holds an unconsumed
    /// command: the caller must let the consumer run and try again, which
    /// is the suspension of a blocking send.
    pub fn try_send(&mut self, cmd: LoadControl) -> (ok: bool)
        ensures
            (final(self)@, ok) == mailbox_send(old(self)@, cmd),
    {
        match self.slot {
            None => {
                self.slot = Some(cmd);
                true
            },
            Some(_) => false,
        }
    }

    /// One receive attempt. `None` means the slot is empty: the caller
    /// must wait for a producer, which is the suspension of a blocking
    /// receive.
    pub fn try_receive(&mut self) -> (r: Option<LoadControl>)
        ensures
            (final(self)@, r) == mailbox_receive(old(self)@),
    {
        let r = self.slot;
        self.slot = None;
        r
    }
}

/// Sending one command twice through the depth-one mailbox delivers that
/// command twice, in order, and the first delivery happens before the
/// second send can go through: a full slot refuses the send, so the
/// repeat is only accepted once the consumer has taken the first copy.
pub proof fn lemma_mailbox_repeat_delivery(cmd: LoadControl)
    ensures
        ({
            let (s1, ok1) = mailbox_send(None, cmd);
            let (s2, r1) = mailbox_receive(s1);
            let (s3, ok2) = mailbox_send(s2, cmd);
            let (s4, r2) = mailbox_receive(s3);
            ok1 && ok2 && r1 == Some(cmd) && r2 == Some(cmd) && s4 is None
        }),
        forall|prev: LoadControl, c: LoadControl|
            #[trigger] mailbox_send(Some(prev), c) == (Some(prev), false),
{
}

} // verus!
