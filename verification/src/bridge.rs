//! The desktop bridge: what the controls report over OSC, and what LED
//! messages do.

use vstd::prelude::*;
use vstd::string::StringExecFns;

use crate::controls::{numbered, read_number};
use crate::input::{
    button_by_name, button_name, changed_buttons, ep1_content, knob_name, named_button, pad_number,
    pad_words, parse_pads, printed_pad, Button, ButtonStates, Ep1Content, Ep1Message, Knob,
};
use crate::leds::{button_led, pad_led, Led, LedState, Leds, MAX_BRIGHTNESS};
use crate::profile::opt_bytes;
use crate::text::{after_prefix, decimal, push_decimal, same_text, starts_with, strip_prefix};
use crate::DeviceInfo;

verus! {

/// Port that controls are sent to.
pub const OSC_OUT_PORT: u16 = 9000;

/// Port that LED messages arrive on.
pub const OSC_IN_PORT: u16 = 9001;

/// Brightness of the backlight once the bridge is up; the LEDs cap it.
pub const BACKLIGHT: u8 = 0x5c;

/// A control's value to send: `num / den` to `/maschine/<name>`.
#[derive(Debug, PartialEq, Eq)]
pub struct Report {
    pub name: String,
    pub num: u16,
    pub den: u16,
}

/// A report by its contents.
pub struct ReportView {
    pub name: Seq<char>,
    pub num: u16,
    pub den: u16,
}

impl View for Report {
    type V = ReportView;

    open spec fn view(&self) -> ReportView {
        ReportView { name: self.name@, num: self.num, den: self.den }
    }
}

/// Reports by their contents.
pub open spec fn reports(r: Seq<Report>) -> Seq<ReportView> {
    r.map_values(|x: Report| x@)
}

fn report(out: &mut Vec<Report>, name: String, num: u16, den: u16)
    ensures
        reports(final(out)@) == reports(old(out)@).push(ReportView { name: name@, num, den }),
{
    out.push(Report { name, num, den });
    assert(reports(out@) =~= reports(old(out)@).push(ReportView { name: name@, num, den }));
}

impl Report {
    /// The address that it goes to.
    pub fn address(&self) -> (r: String)
        ensures
            r@ == "/maschine/"@ + self@.name,
    {
        let mut out = "/maschine/".to_owned();
        out.append(self.name.as_str());
        out
    }
}

/// The LED that a name means: `pad/<1-16>`, `backlight`, or a button's name.
pub open spec fn led_of_bridge_name(name: Seq<char>) -> Option<Led> {
    match after_prefix(name, "pad/"@) {
        Some(n) => match numbered(n, 16) {
            Some(i) => Some(pad_led(i + 1)),
            None => None,
        },
        None => if name == "backlight"@ {
            Some(Led::Backlight)
        } else {
            match named_button(name) {
                Some(b) => Some(button_led(b)),
                None => None,
            }
        },
    }
}

/// The LED that a name means.
pub fn led_by_name(name: &str) -> (r: Option<Led>)
    ensures
        r == led_of_bridge_name(name@),
{
    if let Some(n) = strip_prefix(name, "pad/") {
        return match read_number(n, 16) {
            Some(i) => Some(Led::pad(i)),
            None => None,
        };
    }
    if same_text(name, "backlight") {
        return Some(Led::Backlight);
    }
    match button_by_name(name) {
        Some(b) => Led::for_button(b),
        None => None,
    }
}

/// The LED that a message to this address sets: `/maschine/led/<name>`.
pub open spec fn led_of_bridge_address(addr: Seq<char>) -> Option<Led> {
    match after_prefix(addr, "/maschine/led/"@) {
        Some(name) => led_of_bridge_name(name),
        None => None,
    }
}

/// The LED that a message to this address sets: `/maschine/led/<name>`.
pub fn led_by_address(addr: &str) -> (r: Option<Led>)
    ensures
        r == led_of_bridge_address(addr@),
        r == match after_prefix(addr@, "/maschine/led/"@) {
            Some(name) => led_of_bridge_name(name),
            None => None,
        },
{
    match strip_prefix(addr, "/maschine/led/") {
        Some(name) => led_by_name(name),
        None => None,
    }
}

/// Pressure below this is noise.
pub const PAD_DEADZONE: u16 = 6;

/// Pressure steps below this are not reported.
pub const PAD_STEP: u16 = 32;

/// A pressure without the noise.
pub open spec fn quieted(pressure: u16) -> u16 {
    if pressure < PAD_DEADZONE {
        0
    } else {
        pressure
    }
}

/// Whether a pressure is reported: it moved by a step, or the pad was let go.
pub open spec fn pad_moved(last: u16, now: u16) -> bool {
    now >= last + PAD_STEP || last >= now + PAD_STEP || (now == 0 && last != 0)
}

/// The last reported pressures, and the LEDs.
#[verifier::ext_equal]
pub struct PadsState {
    pub last: Seq<u16>,
    pub leds: Leds,
}

impl PadsState {
    pub open spec fn wf(self) -> bool {
        self.last.len() == 16 && self.leds.wf()
    }

    /// After one pad word: what is reported also lights the pad that was hit,
    /// by the number printed next to it.
    pub open spec fn after_word(self, word: (u8, u16)) -> PadsState {
        let p = quieted(word.1);
        if pad_moved(self.last[word.0 as int], p) {
            PadsState {
                last: self.last.update(word.0 as int, p),
                leds: self.leds.with(pad_led(printed_pad(word.0 as int)), (p / 64) as u8),
            }
        } else {
            self
        }
    }

    /// What one pad word reports: pads are named by their raw id, counted from 1.
    pub open spec fn word_reports(self, word: (u8, u16)) -> Seq<ReportView> {
        let p = quieted(word.1);
        if pad_moved(self.last[word.0 as int], p) {
            seq![
                ReportView {
                    name: "pad/"@ + decimal((word.0 + 1) as nat),
                    num: p,
                    den: 4095,
                },
            ]
        } else {
            Seq::empty()
        }
    }

    /// After pad words, in order.
    pub open spec fn after_words(self, words: Seq<(u8, u16)>) -> PadsState
        decreases words.len(),
    {
        if words.len() == 0 {
            self
        } else {
            self.after_words(words.drop_last()).after_word(words.last())
        }
    }

    pub open spec fn words_reports(self, words: Seq<(u8, u16)>) -> Seq<ReportView>
        decreases words.len(),
    {
        if words.len() == 0 {
            Seq::empty()
        } else {
            self.words_reports(words.drop_last()) + self.after_words(
                words.drop_last(),
            ).word_reports(words.last())
        }
    }
}

/// The pads: what was last reported of each.
pub struct Pads {
    last: [u16; 16],
}

impl View for Pads {
    type V = Seq<u16>;

    closed spec fn view(&self) -> Seq<u16> {
        self.last@
    }
}

impl Pads {
    pub fn new() -> (r: Self)
        ensures
            r@ == Seq::new(16, |i: int| 0u16),
    {
        let r = Pads { last: [0; 16] };
        assert(r@ =~= Seq::new(16, |i: int| 0u16));
        r
    }

    fn on_word(&mut self, raw: u8, pressure: u16, leds: &mut LedState, out: &mut Vec<Report>)
        requires
            raw < 16,
            pressure < 4096,
            old(self)@.len() == 16,
            old(leds)@.wf(),
        ensures
            ({
                let before = PadsState { last: old(self)@, leds: old(leds)@ };
                let after = PadsState { last: final(self)@, leds: final(leds)@ };
                &&& after == before.after_word((raw, pressure))
                &&& after.wf()
                &&& reports(final(out)@) == reports(old(out)@) + before.word_reports(
                    (raw, pressure),
                )
            }),
    {
        let p: u16 = if pressure < PAD_DEADZONE {
            0
        } else {
            pressure
        };
        let last: u16 = self.last[raw as usize];
        let moved: bool = if p > last {
            p - last >= PAD_STEP
        } else {
            last - p >= PAD_STEP || (p == 0 && last != 0)
        };
        let ghost before = PadsState { last: self@, leds: leds@ };
        if moved {
            self.last[raw as usize] = p;
            let mut name = "pad/".to_owned();
            push_decimal(&mut name, raw as u64 + 1);
            report(out, name, p, 4095);
            leds.set(Led::pad(pad_number(raw) as usize - 1), (p / 64) as u8);
        }
        assert(PadsState { last: self@, leds: leds@ } =~= before.after_word((raw, pressure)));
        assert(reports(out@) =~= reports(old(out)@) + before.word_reports((raw, pressure)));
    }

    /// Take in one EP 0x84 pad report: light the pads that moved, and report
    /// them.
    pub fn on_report(&mut self, buf: &[u8], leds: &mut LedState) -> (r: Vec<Report>)
        requires
            old(self)@.len() == 16,
            old(leds)@.wf(),
        ensures
            ({
                let before = PadsState { last: old(self)@, leds: old(leds)@ };
                let after = PadsState { last: final(self)@, leds: final(leds)@ };
                &&& after == before.after_words(pad_words(buf@))
                &&& after.wf()
                &&& reports(r@) == before.words_reports(pad_words(buf@))
            }),
    {
        let words = parse_pads(buf);
        let mut out: Vec<Report> = Vec::new();
        let ghost before = PadsState { last: self@, leds: leds@ };
        assert(words@.take(0) =~= Seq::empty());
        assert(reports(out@) =~= Seq::empty());
        let mut i: usize = 0;
        while i < words.len()
            invariant
                i <= words@.len(),
                forall|j: int|
                    0 <= j < words@.len() ==> (#[trigger] words@[j]).0 < 16 && words@[j].1 < 4096,
                self@.len() == 16,
                leds@.wf(),
                (PadsState { last: self@, leds: leds@ }) == before.after_words(
                    words@.take(i as int),
                ),
                reports(out@) == before.words_reports(words@.take(i as int)),
            decreases words.len() - i,
        {
            assert(words@.take(i + 1).drop_last() =~= words@.take(i as int));
            assert(words@.take(i + 1).last() == words@[i as int]);
            let (raw, pressure) = words[i];
            self.on_word(raw, pressure, leds, &mut out);
            i += 1;
        }
        assert(words@.take(words@.len() as int) =~= words@);
        out
    }
}

/// A pad that is let go is always reported, and its LED goes dark.
pub proof fn law_let_go_is_reported(s: PadsState, word: (u8, u16))
    requires
        s.wf(),
        word.0 < 16,
        quieted(word.1) == 0,
    ensures
        s.after_word(word).last[word.0 as int] == 0,
        s.last[word.0 as int] != 0 ==> s.word_reports(word).len() == 1 && s.word_reports(
            word,
        )[0].num == 0 && s.after_word(word).leds == s.leds.with(
            pad_led(printed_pad(word.0 as int)),
            0,
        ),
{
}

/// The knobs that changed among the first `n`; all of them in a first report.
pub open spec fn knob_reports(prev: Option<Seq<u16>>, now: Seq<u16>, n: int) -> Seq<ReportView>
    decreases n,
{
    if n <= 0 {
        Seq::empty()
    } else {
        let before = knob_reports(prev, now, n - 1);
        if prev is None || prev->0[n - 1] != now[n - 1] {
            before.push(
                ReportView { name: knob_name(Knob::ALL@[n - 1]), num: now[n - 1], den: 999 },
            )
        } else {
            before
        }
    }
}

/// The report of a button that went down or up.
pub open spec fn button_report(change: (Button, bool)) -> ReportView {
    ReportView {
        name: "button/"@ + button_name(change.0),
        num: if change.1 {
            1
        } else {
            0
        },
        den: 1,
    }
}

/// The LEDs after buttons went down and up: a held button is lit.
pub open spec fn leds_after_buttons(leds: Leds, changes: Seq<(Button, bool)>) -> Leds
    decreases changes.len(),
{
    if changes.len() == 0 {
        leds
    } else {
        let (b, down) = changes.last();
        leds_after_buttons(leds, changes.drop_last()).with(
            button_led(b),
            if down {
                MAX_BRIGHTNESS
            } else {
                0
            },
        )
    }
}

/// The knobs and buttons as last reported.
pub struct PanelState {
    pub knobs: Option<Seq<u16>>,
    pub buttons: ButtonStates,
}

impl PanelState {
    pub open spec fn wf(self) -> bool {
        self.knobs matches Some(k) ==> k.len() == 11
    }

    pub open spec fn after(self, msg: Option<Ep1Content>) -> PanelState {
        match msg {
            Some(Ep1Content::Knobs(now)) => PanelState { knobs: Some(now), ..self },
            Some(Ep1Content::Buttons(now)) => PanelState { buttons: now, ..self },
            _ => self,
        }
    }

    pub open spec fn leds_after(self, leds: Leds, msg: Option<Ep1Content>) -> Leds {
        match msg {
            Some(Ep1Content::Buttons(now)) => leds_after_buttons(
                leds,
                changed_buttons(now, self.buttons),
            ),
            _ => leds,
        }
    }

    pub open spec fn reports(self, msg: Option<Ep1Content>) -> Seq<ReportView> {
        match msg {
            Some(Ep1Content::Knobs(now)) => knob_reports(self.knobs, now, 11),
            Some(Ep1Content::Buttons(now)) => changed_buttons(now, self.buttons).map_values(
                |c: (Button, bool)| button_report(c),
            ),
            _ => Seq::empty(),
        }
    }
}

pub struct Panel {
    knobs: Option<[u16; 11]>,
    buttons: ButtonStates,
}

impl View for Panel {
    type V = PanelState;

    closed spec fn view(&self) -> PanelState {
        PanelState {
            knobs: match self.knobs {
                Some(k) => Some(k@),
                None => None,
            },
            buttons: self.buttons,
        }
    }
}

impl Panel {
    pub fn new() -> (r: Self)
        ensures
            r@ == (PanelState { knobs: None, buttons: ButtonStates(0) }),
            r@.wf(),
    {
        Panel { knobs: None, buttons: ButtonStates(0) }
    }

    fn on_knobs(&mut self, now: [u16; 11]) -> (r: Vec<Report>)
        ensures
            final(self)@ == (PanelState { knobs: Some(now@), ..old(self)@ }),
            reports(r@) == knob_reports(old(self)@.knobs, now@, 11),
    {
        let mut out: Vec<Report> = Vec::new();
        assert(reports(out@) =~= Seq::empty());
        let ghost prev = self@.knobs;
        let mut i: usize = 0;
        while i < 11
            invariant
                i <= 11,
                self == old(self),
                prev == self@.knobs,
                reports(out@) == knob_reports(prev, now@, i as int),
            decreases 11 - i,
        {
            let changed: bool = match self.knobs {
                Some(k) => k[i] != now[i],
                None => true,
            };
            if changed {
                report(&mut out, Knob::ALL[i].name().to_owned(), now[i], 999);
            }
            i += 1;
        }
        self.knobs = Some(now);
        out
    }

    fn on_buttons(&mut self, now: ButtonStates, leds: &mut LedState) -> (r: Vec<Report>)
        requires
            old(leds)@.wf(),
        ensures
            final(self)@ == (PanelState { buttons: now, ..old(self)@ }),
            final(leds)@ == leds_after_buttons(
                old(leds)@,
                changed_buttons(now, old(self)@.buttons),
            ),
            final(leds)@.wf(),
            reports(r@) == changed_buttons(now, old(self)@.buttons).map_values(
                |c: (Button, bool)| button_report(c),
            ),
    {
        let changes = now.diff(self.buttons);
        let ghost wanted = changes@.map_values(|c: (Button, bool)| button_report(c));
        let mut out: Vec<Report> = Vec::new();
        assert(reports(out@) =~= wanted.take(0));
        assert(changes@.take(0) =~= Seq::empty());
        let mut i: usize = 0;
        while i < changes.len()
            invariant
                i <= changes@.len(),
                leds@.wf(),
                wanted == changes@.map_values(|c: (Button, bool)| button_report(c)),
                leds@ == leds_after_buttons(old(leds)@, changes@.take(i as int)),
                reports(out@) == wanted.take(i as int),
            decreases changes.len() - i,
        {
            let (b, down) = changes[i];
            assert(changes@.take(i + 1).drop_last() =~= changes@.take(i as int));
            assert(changes@.take(i + 1).last() == changes@[i as int]);
            let mut name = "button/".to_owned();
            name.append(b.name());
            report(
                &mut out,
                name,
                if down {
                    1
                } else {
                    0
                },
                1,
            );
            assert(wanted.take(i + 1) =~= wanted.take(i as int).push(wanted[i as int]));
            if let Some(led) = Led::for_button(b) {
                leds.set(
                    led,
                    if down {
                        MAX_BRIGHTNESS
                    } else {
                        0
                    },
                );
            }
            i += 1;
        }
        assert(changes@.take(changes@.len() as int) =~= changes@);
        assert(wanted.take(wanted.len() as int) =~= wanted);
        self.buttons = now;
        out
    }

    /// Take in one EP 0x81 message: light the buttons that are held, and report
    /// what changed.
    pub fn on_message(&mut self, msg: &Option<Ep1Message>, leds: &mut LedState) -> (r: Vec<Report>)
        requires
            old(leds)@.wf(),
        ensures
            ({
                let said = match *msg {
                    Some(m) => Some(m@),
                    None => None,
                };
                &&& final(self)@ == old(self)@.after(said)
                &&& final(leds)@ == old(self)@.leds_after(old(leds)@, said)
                &&& final(leds)@.wf()
                &&& reports(r@) == old(self)@.reports(said)
            }),
    {
        match msg {
            Some(Ep1Message::Knobs(now)) => self.on_knobs(*now),
            Some(Ep1Message::Buttons(now)) => self.on_buttons(*now, leds),
            _ => {
                let out: Vec<Report> = Vec::new();
                assert(reports(out@) =~= Seq::empty());
                out
            },
        }
    }
}

/// How many reads the handshake waits for the device.
pub const HANDSHAKE_READS: u8 = 20;

/// What follows a read of the handshake.
#[derive(Debug, Clone, Copy, PartialEq, Eq, Structural)]
pub enum Handshake {
    /// The device has said who it is.
    Done(DeviceInfo),
    /// Read again.
    Again,
    /// The device has not answered.
    TimedOut,
}

/// What follows the `done`-th read, counted from 1.
pub open spec fn handshake_after(done: u8, read: Option<Seq<u8>>) -> Handshake {
    match read {
        Some(buf) => match ep1_content(buf) {
            Some(Ep1Content::DeviceInfo(info)) => Handshake::Done(info),
            _ => handshake_waits(done),
        },
        None => handshake_waits(done),
    }
}

/// What the `done`-th read, counted from 1, brings: a message, or nothing
/// where it timed out. Other messages than the device's are passed over.
pub fn handshake_read(done: u8, read: Option<&[u8]>) -> (r: Handshake)
    ensures
        r == handshake_after(done, opt_bytes(read)),
        r == match read {
            Some(buf) => match ep1_content(buf@) {
                Some(Ep1Content::DeviceInfo(info)) => Handshake::Done(info),
                _ => handshake_waits(done),
            },
            None => handshake_waits(done),
        },
{
    if let Some(buf) = read {
        if let Some(Ep1Message::DeviceInfo(info)) = Ep1Message::parse(buf) {
            return Handshake::Done(info);
        }
    }
    if done < HANDSHAKE_READS {
        Handshake::Again
    } else {
        Handshake::TimedOut
    }
}

/// The handshake reads on until it has read often enough.
pub open spec fn handshake_waits(done: u8) -> Handshake {
    if done < HANDSHAKE_READS {
        Handshake::Again
    } else {
        Handshake::TimedOut
    }
}

/// What the bridge is started with.
#[derive(Debug, PartialEq, Eq)]
pub struct Arguments {
    /// Address that controls are sent to.
    pub target: String,
    /// Print every report.
    pub dump: bool,
}

/// The first argument that is no option.
pub open spec fn first_plain(args: Seq<String>) -> Option<Seq<char>>
    decreases args.len(),
{
    if args.len() == 0 {
        None
    } else if !starts_with(args[0]@, "--"@) {
        Some(args[0]@)
    } else {
        first_plain(args.skip(1))
    }
}

/// The target that the command line names.
pub open spec fn target_argument(args: Seq<String>) -> Seq<char> {
    match first_plain(args) {
        Some(target) => target,
        None => "192.168.1.137"@,
    }
}

/// Whether the command line asks to print every report.
pub open spec fn asks_to_dump(args: Seq<String>) -> bool {
    exists|i: int| 0 <= i < args.len() && (#[trigger] args[i])@ == "--dump"@
}

/// Read the command line: a target, and `--dump`.
pub fn arguments(args: &Vec<String>) -> (r: Arguments)
    ensures
        r.dump == asks_to_dump(args@),
        r.target@ == target_argument(args@),
        r.dump == (exists|i: int| 0 <= i < args@.len() && (#[trigger] args@[i])@ == "--dump"@),
        r.target@ == match first_plain(args@) {
            Some(target) => target,
            None => "192.168.1.137"@,
        },
{
    let mut dump = false;
    let mut target: Option<String> = None;
    let mut i: usize = 0;
    assert(args@.skip(0) =~= args@);
    while i < args.len()
        invariant
            i <= args@.len(),
            dump == (exists|k: int| 0 <= k < i && (#[trigger] args@[k])@ == "--dump"@),
            match target {
                Some(t) => first_plain(args@) == Some(t@),
                None => first_plain(args@) == first_plain(args@.skip(i as int)),
            },
        decreases args.len() - i,
    {
        assert(args@.skip(i as int)[0] == args@[i as int]);
        assert(args@.skip(i as int).skip(1) =~= args@.skip(i + 1));
        let a = &args[i];
        if same_text(a.as_str(), "--dump") {
            dump = true;
        }
        if target.is_none() && strip_prefix(a.as_str(), "--").is_none() {
            target = Some(a.clone());
        }
        i += 1;
    }
    Arguments {
        target: match target {
            Some(t) => t,
            None => "192.168.1.137".to_owned(),
        },
        dump,
    }
}

} // verus!
