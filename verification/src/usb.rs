//! The USB host session: the EP1 command queue, and what input reports change
//! and publish.

use crate::input::{
    changed_buttons, ep1_content, is_pressed, pad_number, pad_words, parse_pads, printed_pad,
    Button, ButtonStates, Ep1Content, Ep1Message,
};
use crate::leds::{frame_bytes, pad_led, Led, LedState, Leds};
use crate::{auto_msg, DeviceInfo, CMD_AUTO_MSG};
use vstd::prelude::*;

verus! {

/// Messages that the EP1 OUT queue holds.
pub const QUEUE_SLOTS: usize = 8;

/// Longest message that the EP1 OUT queue takes.
pub const MESSAGE_MAX: usize = 40;

/// EP1 OUT command queue (a command may come while a send is in flight).
pub struct TxQueue {
    buf: [[u8; 40]; 8],
    len: [u8; 8],
    head: u8,
    tail: u8,
    busy: bool,
}

/// The command queue: messages not yet handed to the endpoint, oldest first,
/// and whether the endpoint is at work on one.
#[verifier::ext_equal]
pub struct Outbox {
    pub waiting: Seq<Seq<u8>>,
    pub busy: bool,
}

impl Outbox {
    pub open spec fn empty() -> Outbox {
        Outbox { waiting: Seq::empty(), busy: false }
    }

    pub open spec fn wf(self) -> bool {
        &&& self.waiting.len() <= QUEUE_SLOTS
        &&& forall|i: int|
            0 <= i < self.waiting.len() ==> (#[trigger] self.waiting[i]).len() <= MESSAGE_MAX
    }

    /// The message to submit now, if the endpoint is free and one waits.
    pub open spec fn next(self) -> Option<Seq<u8>> {
        if self.busy || self.waiting.len() == 0 {
            None
        } else {
            Some(self.waiting[0])
        }
    }

    /// The queue after the next message, if any, went to the endpoint.
    pub open spec fn pumped(self) -> Outbox {
        if self.next() is None {
            self
        } else {
            Outbox { waiting: self.waiting.skip(1), busy: true }
        }
    }

    /// The queue with one more message at its end.
    pub open spec fn queued(self, msg: Seq<u8>) -> Outbox {
        Outbox { waiting: self.waiting.push(msg), busy: self.busy }
    }

    pub open spec fn full(self) -> bool {
        self.waiting.len() >= QUEUE_SLOTS
    }

    /// The queue once the endpoint has nothing in flight any more.
    pub open spec fn idle(self) -> Outbox {
        Outbox { waiting: self.waiting, busy: false }
    }

    /// The queue after a send: a full queue drops the message, else it is
    /// queued and the endpoint put to work.
    pub open spec fn after_send(self, msg: Seq<u8>) -> Outbox {
        if self.full() {
            self
        } else {
            self.queued(msg).pumped()
        }
    }
}

/// What became of a message handed to the queue.
#[derive(Debug, PartialEq, Eq)]
pub enum Sent {
    /// The queue was full.
    Dropped,
    /// It waits; the endpoint is at work on another one.
    Queued,
    /// The endpoint is free: submit this one (the oldest that waits).
    Submit(Vec<u8>),
}

/// Messages between two wrapping counters.
spec fn distance(head: u8, tail: u8) -> int {
    (head - tail) % 256
}

/// Slot of the `j`-th waiting message.
spec fn slot_of(tail: u8, j: int) -> int {
    (tail + j) % 8
}

impl View for TxQueue {
    type V = Outbox;

    closed spec fn view(&self) -> Outbox {
        Outbox {
            waiting: Seq::new(
                distance(self.head, self.tail) as nat,
                |j: int|
                    self.buf@[slot_of(self.tail, j)]@.take(
                        self.len@[slot_of(self.tail, j)] as int,
                    ),
            ),
            busy: self.busy,
        }
    }
}

impl TxQueue {
    pub closed spec fn wf(&self) -> bool {
        &&& distance(self.head, self.tail) <= 8
        &&& forall|i: int| 0 <= i < 8 ==> #[trigger] self.len@[i] <= 40
    }

    /// A well-formed queue never holds more messages, or longer ones, than
    /// there is room for.
    pub proof fn law_queue_fits(&self)
        requires
            self.wf(),
        ensures
            self@.wf(),
    {
        assert forall|i: int| 0 <= i < self@.waiting.len() implies (
        #[trigger] self@.waiting[i]).len() <= MESSAGE_MAX by {
            assert(self.len@[slot_of(self.tail, i)] <= 40);
        }
    }

    pub fn new() -> (r: Self)
        ensures
            r.wf(),
            r@ == Outbox::empty(),
    {
        let r = TxQueue { buf: [[0;40];8], len: [0;8], head: 0, tail: 0, busy: false };
        assert(r@ =~= Outbox::empty());
        r
    }

    /// How many messages wait.
    pub fn backlog(&self) -> (r: usize)
        requires
            self.wf(),
        ensures
            r == self@.waiting.len(),
            r <= QUEUE_SLOTS,
    {
        self.head.wrapping_sub(self.tail) as usize
    }

    /// Take the next message to submit, if the endpoint is free.
    pub fn ep1_pump(&mut self) -> (r: Option<Vec<u8>>)
        requires
            old(self).wf(),
        ensures
            final(self).wf(),
            final(self)@ == old(self)@.pumped(),
            match r {
                Some(m) => old(self)@.next() == Some(m@),
                None => old(self)@.next() is None,
            },
    {
        if self.busy || self.head == self.tail {
            return None;
        }
        let i: usize = (self.tail % 8) as usize;
        let n: usize = self.len[i] as usize;
        let row = self.buf[i];
        let mut msg: Vec<u8> = Vec::new();
        let mut k: usize = 0;
        assert(n <= 40);
        while k < n
            invariant
                k <= n <= 40,
                msg@ == row@.take(k as int),
            decreases n - k,
        {
            msg.push(row[k]);
            k += 1;
            assert(msg@ =~= row@.take(k as int));
        }
        let ghost before = self@;
        assert(msg@ == before.waiting[0]);
        self.tail = self.tail.wrapping_add(1);
        self.busy = true;
        assert(self@ =~= before.pumped());
        Some(msg)
    }

    /// Queue one command and put the endpoint to work.
    pub fn ep1_send(&mut self, data: &[u8]) -> (r: Sent)
        requires
            old(self).wf(),
            data@.len() <= MESSAGE_MAX,
        ensures
            final(self).wf(),
            final(self)@ == old(self)@.after_send(data@),
            match r {
                Sent::Dropped => old(self)@.full(),
                Sent::Queued => !old(self)@.full() && old(self)@.queued(data@).next() is None,
                Sent::Submit(m) => !old(self)@.full() && old(self)@.queued(data@).next() == Some(
                    m@,
                ),
            },
    {
        if self.head.wrapping_sub(self.tail) >= 8 {
            return Sent::Dropped;
        }
        let i: usize = (self.head % 8) as usize;
        let mut row = self.buf[i];
        let mut k: usize = 0;
        while k < data.len()
            invariant
                k <= data@.len() <= 40,
                row@.take(k as int) == data@.take(k as int),
            decreases data.len() - k,
        {
            let ghost before = row@;
            row[k] = data[k];
            k += 1;
            assert(row@.take(k as int) =~= before.take(k - 1).push(data@[k - 1]));
            assert(data@.take(k as int) =~= data@.take(k - 1).push(data@[k - 1]));
        }
        let ghost before = self@;
        self.buf[i] = row;
        self.len[i] = data.len() as u8;
        self.head = self.head.wrapping_add(1);
        assert(data@.take(data@.len() as int) == data@);
        assert(self@ =~= before.queued(data@));
        match self.ep1_pump() {
            Some(m) => Sent::Submit(m),
            None => Sent::Queued,
        }
    }

    /// The endpoint would not take the message it was just given: it is free
    /// again, and the message is lost.
    pub fn submit_failed(&mut self)
        requires
            old(self).wf(),
        ensures
            final(self).wf(),
            final(self)@ == old(self)@.idle(),
    {
        self.busy = false;
        assert(self@ =~= old(self)@.idle());
    }

    /// The endpoint is done with a message: take the next one, if any waits.
    pub fn ep1_out_done(&mut self) -> (r: Option<Vec<u8>>)
        requires
            old(self).wf(),
        ensures
            final(self).wf(),
            final(self)@ == old(self)@.idle().pumped(),
            match r {
                Some(m) => old(self)@.idle().next() == Some(m@),
                None => old(self)@.idle().next() is None,
            },
    {
        self.busy = false;
        assert(self@ =~= old(self)@.idle());
        self.ep1_pump()
    }
}

/// The messages that leave a queue when the endpoint finishes `n` times.
pub open spec fn drained(q: Outbox, n: nat) -> Seq<Seq<u8>>
    decreases n,
{
    if n == 0 || q.waiting.len() == 0 {
        Seq::empty()
    } else {
        seq![q.waiting[0]] + drained(q.idle().pumped(), (n - 1) as nat)
    }
}

/// Waiting messages leave in the order in which they came, each once.
pub proof fn law_queue_is_first_in_first_out(q: Outbox)
    ensures
        drained(q, q.waiting.len()) == q.waiting,
    decreases q.waiting.len(),
{
    if q.waiting.len() > 0 {
        let rest = q.idle().pumped();
        law_queue_is_first_in_first_out(rest);
        assert(q.waiting =~= seq![q.waiting[0]] + rest.waiting);
    }
}

/// A queue that is not full loses nothing: what a send submits, followed by
/// what then waits, is what waited before, followed by the new message.
pub proof fn law_send_loses_nothing(q: Outbox, msg: Seq<u8>)
    requires
        !q.full(),
    ensures
        (match q.queued(msg).next() {
            Some(m) => seq![m],
            None => Seq::empty(),
        }) + q.after_send(msg).waiting == q.waiting.push(msg),
{
    let all = q.waiting.push(msg);
    if q.queued(msg).next() is Some {
        assert(seq![all[0]] + all.skip(1) =~= all);
    } else {
        assert(Seq::<Seq<u8>>::empty() + all =~= all);
    }
}

/// What the device reported last, and the LEDs it shows.
pub struct Session {
    leds: LedState,
    knobs: [Option<u16>; 11],
    buttons: ButtonStates,
    pads: [u16; 16],
}

/// What the device reported last, and the LEDs it shows.
#[verifier::ext_equal]
pub struct SessionState {
    pub leds: Leds,
    /// Last published position of each knob, `Knob::ALL` order.
    pub knobs: Seq<Option<u16>>,
    pub buttons: ButtonStates,
    /// Last published pressure of each pad, by raw id.
    pub pads: Seq<u16>,
}

impl View for Session {
    type V = SessionState;

    closed spec fn view(&self) -> SessionState {
        SessionState {
            leds: self.leds@,
            knobs: self.knobs@,
            buttons: self.buttons,
            pads: self.pads@,
        }
    }
}

/// What the USB side does next about an EP 0x81 message.
#[derive(Debug, PartialEq, Eq)]
pub enum UsbAction {
    /// Queue this EP1 command.
    Send(Vec<u8>),
    /// Queue the pending LED frames.
    FlushLeds,
    /// Start reading the pads.
    ListenPads,
    /// The session is up: the device has said hello, with this firmware version.
    SessionUp { fw_version: u16 },
    /// A knob (index into `Knob::ALL`) moved.
    Knob(usize, u16),
    /// A button changed.
    Button(Button, bool),
    /// DIN MIDI came in, this many bytes.
    MidiIn(usize),
}

/// What the USB side does next about an EP 0x81 message.
pub enum UsbEffect {
    Send(Seq<u8>),
    FlushLeds,
    ListenPads,
    SessionUp { fw_version: u16 },
    Knob(int, u16),
    Button(Button, bool),
    MidiIn(int),
}

impl View for UsbAction {
    type V = UsbEffect;

    open spec fn view(&self) -> UsbEffect {
        match *self {
            UsbAction::Send(m) => UsbEffect::Send(m@),
            UsbAction::FlushLeds => UsbEffect::FlushLeds,
            UsbAction::ListenPads => UsbEffect::ListenPads,
            UsbAction::SessionUp { fw_version } => UsbEffect::SessionUp { fw_version },
            UsbAction::Knob(i, v) => UsbEffect::Knob(i as int, v),
            UsbAction::Button(b, down) => UsbEffect::Button(b, down),
            UsbAction::MidiIn(n) => UsbEffect::MidiIn(n as int),
        }
    }
}

pub open spec fn usb_effects(actions: Seq<UsbAction>) -> Seq<UsbEffect> {
    actions.map_values(|a: UsbAction| a@)
}

/// Backlight brightness once the device has said hello.
pub const HELLO_BACKLIGHT: u8 = 0x2e;

/// Smaller pressures are noise from a resting pad.
pub const PAD_DEADZONE: u16 = 6;

/// A knob position counts as a move only if it is further than jitter from
/// the last published one.
pub open spec fn knob_moved(last: Option<u16>, now: u16) -> bool {
    match last {
        Some(p) => now > p + 4 || p > now + 4,
        None => false,
    }
}

/// The published position of a knob after a report: the first one counts, then
/// only moves do.
pub open spec fn knob_published(last: Option<u16>, now: u16) -> Option<u16> {
    if last is None || knob_moved(last, now) {
        Some(now)
    } else {
        last
    }
}

/// The moves among the first `n` knobs.
pub open spec fn moved_knobs(last: Seq<Option<u16>>, now: Seq<u16>, n: int) -> Seq<UsbEffect>
    decreases n,
{
    if n <= 0 {
        Seq::empty()
    } else {
        let before = moved_knobs(last, now, n - 1);
        if knob_moved(last[n - 1], now[n - 1]) {
            before.push(UsbEffect::Knob(n - 1, now[n - 1]))
        } else {
            before
        }
    }
}

/// The session right after the device identified itself.
pub open spec fn hello_effects(info: DeviceInfo) -> Seq<UsbEffect> {
    seq![
        UsbEffect::Send(seq![CMD_AUTO_MSG, 1u8, 10u8, 5u8]),
        UsbEffect::FlushLeds,
        UsbEffect::ListenPads,
        UsbEffect::SessionUp { fw_version: info.fw_version },
    ]
}

/// Button changes as effects.
pub open spec fn button_effects(changes: Seq<(Button, bool)>) -> Seq<UsbEffect> {
    changes.map_values(|c: (Button, bool)| UsbEffect::Button(c.0, c.1))
}

/// Pressure of a pad word, noise taken out.
pub open spec fn settled(pressure: u16) -> u16 {
    if pressure < PAD_DEADZONE {
        0
    } else {
        pressure
    }
}

/// Whether a pressure differs enough from the last published one to be
/// published: by 128, or a release.
pub open spec fn pad_changed(last: u16, now: u16) -> bool {
    now >= last + 128 || last >= now + 128 || (now == 0 && last != 0)
}

impl SessionState {
    pub open spec fn initial() -> SessionState {
        SessionState {
            leds: Leds::initial(),
            knobs: Seq::new(11, |i: int| None),
            buttons: ButtonStates(0),
            pads: Seq::new(16, |i: int| 0u16),
        }
    }

    pub open spec fn wf(self) -> bool {
        self.leds.wf() && self.knobs.len() == 11 && self.pads.len() == 16
    }

    /// The session after an EP 0x81 message.
    pub open spec fn after_ep1(self, msg: Option<Ep1Content>) -> SessionState {
        match msg {
            Some(Ep1Content::DeviceInfo(_)) => SessionState {
                leds: self.leds.with(Led::Backlight, HELLO_BACKLIGHT),
                ..self
            },
            Some(Ep1Content::Knobs(now)) => SessionState {
                knobs: Seq::new(11, |i: int| knob_published(self.knobs[i], now[i])),
                ..self
            },
            Some(Ep1Content::Buttons(now)) => SessionState { buttons: now, ..self },
            _ => self,
        }
    }

    /// What follows from an EP 0x81 message.
    pub open spec fn ep1_effects(self, msg: Option<Ep1Content>) -> Seq<UsbEffect> {
        match msg {
            Some(Ep1Content::DeviceInfo(info)) => hello_effects(info),
            Some(Ep1Content::Knobs(now)) => moved_knobs(self.knobs, now, 11),
            Some(Ep1Content::Buttons(now)) => button_effects(changed_buttons(now, self.buttons)),
            Some(Ep1Content::Midi { port, data }) => seq![UsbEffect::MidiIn(data.len() as int)],
            _ => Seq::empty(),
        }
    }

    /// The LED frames that a flush hands out with this queue.
    pub open spec fn flush_frames(self, q: Outbox) -> Seq<Seq<u8>> {
        if q.waiting.len() >= FLUSH_BACKLOG {
            Seq::empty()
        } else {
            self.leds.pending()
        }
    }

    /// The session after a flush with this queue.
    pub open spec fn after_flush(self, q: Outbox) -> SessionState {
        if q.waiting.len() >= FLUSH_BACKLOG {
            self
        } else {
            SessionState { leds: self.leds.flushed(), ..self }
        }
    }

    /// The session after one pad word: a changed pressure is published, and
    /// the pad's LED always shows it.
    pub open spec fn after_pad(self, word: (u8, u16)) -> SessionState {
        let p = settled(word.1);
        SessionState {
            pads: if pad_changed(self.pads[word.0 as int], p) {
                self.pads.update(word.0 as int, p)
            } else {
                self.pads
            },
            leds: self.leds.with(pad_led(printed_pad(word.0 as int)), (p / 64) as u8),
            ..self
        }
    }

    /// The session after pad words, in order.
    pub open spec fn after_pads(self, words: Seq<(u8, u16)>) -> SessionState
        decreases words.len(),
    {
        if words.len() == 0 {
            self
        } else {
            self.after_pads(words.drop_last()).after_pad(words.last())
        }
    }

    /// The pressures that pad words publish: (raw id, pressure).
    pub open spec fn published_pads(self, words: Seq<(u8, u16)>) -> Seq<(u8, u16)>
        decreases words.len(),
    {
        if words.len() == 0 {
            Seq::empty()
        } else {
            let before = self.published_pads(words.drop_last());
            let (raw, pressure) = words.last();
            let p = settled(pressure);
            if pad_changed(self.after_pads(words.drop_last()).pads[raw as int], p) {
                before.push((raw, p))
            } else {
                before
            }
        }
    }
}

/// LED frames wait while this many commands do: the state keeps the latest.
pub const FLUSH_BACKLOG: usize = 6;

impl Session {
    pub fn new() -> (r: Self)
        ensures
            r@ == SessionState::initial(),
            r@.wf(),
    {
        let r = Session {
            leds: LedState::new(),
            knobs: [None;11],
            buttons: ButtonStates(0),
            pads: [0;16],
        };
        assert(r@ =~= SessionState::initial());
        r
    }

    /// Set one LED.
    pub fn set_led(&mut self, led: Led, brightness: u8)
        requires
            old(self)@.wf(),
        ensures
            final(self)@.wf(),
            final(self)@ == (SessionState {
                leds: old(self)@.leds.with(led, brightness),
                ..old(self)@
            }),
    {
        self.leds.set(led, brightness);
    }

    /// Whether the last button report had both of these down.
    pub fn buttons_held(&self, a: Button, b: Button) -> (r: bool)
        ensures
            r == (is_pressed(self@.buttons, a) && is_pressed(self@.buttons, b)),
    {
        self.buttons.pressed(a) && self.buttons.pressed(b)
    }

    /// The LED frames to queue now: none while commands pile up, since LEDs
    /// coalesce in the state and the next event flushes the latest.
    pub fn led_flush(&mut self, queue: &TxQueue) -> (r: Vec<[u8; 34]>)
        requires
            old(self)@.wf(),
            queue.wf(),
        ensures
            final(self)@.wf(),
            frame_bytes(r@) == old(self)@.flush_frames(queue@),
            final(self)@ == old(self)@.after_flush(queue@),
            queue@.waiting.len() >= FLUSH_BACKLOG ==> r@.len() == 0 && final(self)@ == old(self)@,
            queue@.waiting.len() < FLUSH_BACKLOG ==> {
                &&& frame_bytes(r@) == old(self)@.leds.pending()
                &&& final(self)@ == (SessionState {
                    leds: old(self)@.leds.flushed(),
                    ..old(self)@
                })
            },
    {
        if queue.backlog() >= FLUSH_BACKLOG {
            let none: Vec<[u8; 34]> = Vec::new();
            assert(frame_bytes(none@) =~= Seq::empty());
            return none;
        }
        self.leds.frames()
    }

    /// Take in one EP 0x81 message.
    pub fn handle_ep1(&mut self, buf: &[u8]) -> (r: Vec<UsbAction>)
        requires
            old(self)@.wf(),
        ensures
            final(self)@.wf(),
            final(self)@ == old(self)@.after_ep1(ep1_content(buf@)),
            usb_effects(r@) == old(self)@.ep1_effects(ep1_content(buf@)),
    {
        let mut out: Vec<UsbAction> = Vec::new();
        match Ep1Message::parse(buf) {
            Some(Ep1Message::DeviceInfo(info)) => {
                let start = auto_msg(1, 10, 5);
                let mut msg: Vec<u8> = Vec::new();
                msg.extend_from_slice(start.as_slice());
                assert(msg@ =~= seq![CMD_AUTO_MSG, 1u8, 10u8, 5u8]);
                out.push(UsbAction::Send(msg));
                self.leds.set(Led::Backlight, HELLO_BACKLIGHT);
                out.push(UsbAction::FlushLeds);
                out.push(UsbAction::ListenPads);
                out.push(UsbAction::SessionUp { fw_version: info.fw_version });
                assert(usb_effects(out@) =~= hello_effects(info));
                assert(self@ =~= old(self)@.after_ep1(ep1_content(buf@)));
            },
            Some(Ep1Message::Knobs(now)) => {
                let mut i: usize = 0;
                assert(usb_effects(out@) =~= Seq::empty());
                while i < 11
                    invariant
                        i <= 11,
                        self.leds@ == old(self).leds@,
                        self.buttons == old(self).buttons,
                        self.pads@ == old(self).pads@,
                        forall|j: int|
                            0 <= j < i ==> self.knobs@[j] == knob_published(
                                old(self).knobs@[j],
                                now@[j],
                            ),
                        forall|j: int| i <= j < 11 ==> self.knobs@[j] == old(self).knobs@[j],
                        usb_effects(out@) == moved_knobs(old(self).knobs@, now@, i as int),
                    decreases 11 - i,
                {
                    let v: u16 = now[i];
                    let last = self.knobs[i];
                    match last {
                        Some(p) => {
                            let moved: bool = if v > p {
                                v - p > 4
                            } else {
                                p - v > 4
                            };
                            if moved {
                                let ghost before = out@;
                                out.push(UsbAction::Knob(i, v));
                                assert(usb_effects(out@) =~= usb_effects(before).push(
                                    UsbEffect::Knob(i as int, v),
                                ));
                                self.knobs[i] = Some(v);
                            }
                        },
                        None => {
                            self.knobs[i] = Some(v);
                        },
                    }
                    i += 1;
                }
                assert(self@ =~= old(self)@.after_ep1(ep1_content(buf@)));
            },
            Some(Ep1Message::Buttons(now)) => {
                let changes = now.diff(self.buttons);
                let mut i: usize = 0;
                while i < changes.len()
                    invariant
                        i <= changes@.len(),
                        usb_effects(out@) =~= button_effects(changes@.take(i as int)),
                    decreases changes.len() - i,
                {
                    let (b, down) = changes[i];
                    let ghost before = out@;
                    out.push(UsbAction::Button(b, down));
                    assert(usb_effects(out@) =~= usb_effects(before).push(
                        UsbEffect::Button(b, down),
                    ));
                    assert(button_effects(changes@.take(i + 1)) =~= button_effects(
                        changes@.take(i as int),
                    ).push(UsbEffect::Button(b, down)));
                    i += 1;
                }
                assert(changes@.take(changes@.len() as int) == changes@);
                self.buttons = now;
                assert(self@ =~= old(self)@.after_ep1(ep1_content(buf@)));
            },
            Some(Ep1Message::Midi { port, data }) => {
                out.push(UsbAction::MidiIn(data.len()));
                assert(usb_effects(out@) =~= seq![UsbEffect::MidiIn(data@.len() as int)]);
            },
            _ => {
                assert(usb_effects(out@) =~= Seq::empty());
            },
        }
        out
    }

    /// Take in the pressure of one pad; gives the pressure to publish, if any.
    fn handle_pad(&mut self, raw: u8, pressure: u16) -> (r: Option<u16>)
        requires
            old(self)@.wf(),
            raw < 16,
            pressure < 4096,
        ensures
            final(self)@.wf(),
            final(self)@ == old(self)@.after_pad((raw, pressure)),
            r == if pad_changed(old(self)@.pads[raw as int], settled(pressure)) {
                Some(settled(pressure))
            } else {
                None
            },
    {
        let p: u16 = if pressure < PAD_DEADZONE {
            0
        } else {
            pressure
        };
        let last: u16 = self.pads[raw as usize];
        let printed = pad_number(raw);
        let far: bool = if p > last {
            p - last >= 128
        } else {
            last - p >= 128
        };
        let changed = far || (p == 0 && last != 0);
        if changed {
            self.pads[raw as usize] = p;
        }
        self.leds.set(Led::pad(printed as usize - 1), (p / 64) as u8);
        assert(self@ =~= old(self)@.after_pad((raw, pressure)));
        if changed {
            Some(p)
        } else {
            None
        }
    }

    /// Take in one EP 0x84 pad report; gives the pressures to publish, as
    /// (raw id, pressure).
    pub fn handle_pads(&mut self, buf: &[u8]) -> (r: Vec<(u8, u16)>)
        requires
            old(self)@.wf(),
        ensures
            final(self)@.wf(),
            final(self)@ == old(self)@.after_pads(pad_words(buf@)),
            r@ == old(self)@.published_pads(pad_words(buf@)),
    {
        let words = parse_pads(buf);
        let mut out: Vec<(u8, u16)> = Vec::new();
        let mut i: usize = 0;
        assert(words@.take(0) =~= Seq::empty());
        while i < words.len()
            invariant
                i <= words@.len(),
                forall|j: int|
                    0 <= j < words@.len() ==> (#[trigger] words@[j]).0 < 16 && words@[j].1 < 4096,
                self@.wf(),
                self@ == old(self)@.after_pads(words@.take(i as int)),
                out@ == old(self)@.published_pads(words@.take(i as int)),
            decreases words.len() - i,
        {
            assert(words@.take(i + 1).drop_last() =~= words@.take(i as int));
            let (raw, pressure) = words[i];
            if let Some(p) = self.handle_pad(raw, pressure) {
                out.push((raw, p));
            }
            i += 1;
        }
        assert(words@.take(words@.len() as int) == words@);
        out
    }
}

/// The frames that a flush hands out always find room: none of them is
/// dropped.
pub proof fn law_flushed_frames_fit(q: Outbox, leds: Leds)
    requires
        q.waiting.len() < FLUSH_BACKLOG,
    ensures
        leds.pending().len() <= 2,
        leds.pending().len() >= 1 ==> !q.full(),
        leds.pending().len() == 2 ==> !q.after_send(leds.pending()[0]).full(),
        leds.wf() ==> forall|i: int|
            0 <= i < leds.pending().len() ==> (#[trigger] leds.pending()[i]).len() <= MESSAGE_MAX,
{
}

/// A pad at rest after any report is published as released: a settled zero
/// pressure never leaves a nonzero published one behind.
pub proof fn law_release_is_always_published(s: SessionState, word: (u8, u16))
    requires
        s.wf(),
        word.0 < 16,
        settled(word.1) == 0,
    ensures
        s.after_pad(word).pads[word.0 as int] == 0,
{
}

/// The published position of a knob is never further than jitter from the one
/// last reported.
pub proof fn law_knobs_track_reports(last: Option<u16>, now: u16)
    ensures
        knob_published(last, now) matches Some(p) && p <= now + 4 && now <= p + 4,
{
}

} // verus!
