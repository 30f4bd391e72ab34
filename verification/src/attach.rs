//! Finding and attaching to the device.
//!
//! At full speed the device serves a truncated config descriptor: alt setting
//! 0 only, two endpoints, packet sizes of 512. The host clamps the packet
//! sizes, claims alt setting 0, rewrites the descriptor so that it describes
//! the pad and display endpoints as alt setting 1, claims that too, and sends
//! SET_INTERFACE.

use vstd::prelude::*;

use crate::{EP_DISPLAY_OUT, EP_PADS_IN, PRODUCT_ID, VENDOR_ID};

verus! {

pub const DESCRIPTOR_INTERFACE: u8 = 0x04;

pub const DESCRIPTOR_ENDPOINT: u8 = 0x05;

/// Largest packet on a full-speed wire.
pub const FULL_SPEED_PACKET: u16 = 64;

/// Whether a whole descriptor starts at `off`: `[length, type, ..]`, length at
/// least two and within the bytes.
pub open spec fn descriptor_at(cfg: Seq<u8>, off: int) -> bool {
    0 <= off && off + 2 <= cfg.len() && cfg[off] >= 2 && off + cfg[off] <= cfg.len()
}

/// The descriptor at `off`, as its type and the offset of the one after it.
pub fn next_descriptor(cfg: &[u8], off: usize) -> (r: Option<(u8, usize)>)
    requires
        off <= cfg@.len(),
    ensures
        match r {
            Some((ty, next)) => descriptor_at(cfg@, off as int) && ty == cfg@[off + 1] && next
                == off + cfg@[off as int] && next <= cfg@.len(),
            None => !descriptor_at(cfg@, off as int),
        },
{
    if cfg.len() - off < 2 {
        return None;
    }
    let len: usize = cfg[off] as usize;
    if len < 2 || cfg.len() - off < len {
        return None;
    }
    Some((cfg[off + 1], off + len))
}

/// What the host needs to know of a config descriptor: where its first
/// interface and its first four endpoints are described.
#[derive(Debug, PartialEq, Eq)]
pub struct Survey {
    pub interface: Option<usize>,
    pub endpoints: Vec<usize>,
}

/// A walk over a config descriptor: the bytes as changed so far, and what was
/// found in them.
#[verifier::ext_equal]
pub struct Walk {
    pub cfg: Seq<u8>,
    pub interface: Option<int>,
    pub endpoints: Seq<int>,
}

/// The bytes with the packet size (little-endian, offset 4) of the endpoint
/// described at `off` cut to what full speed allows.
pub open spec fn packet_size_clamped(cfg: Seq<u8>, off: int) -> Seq<u8> {
    if off + 6 <= cfg.len() && cfg[off + 4] + 256 * cfg[off + 5] > FULL_SPEED_PACKET {
        cfg.update(off + 4, 64).update(off + 5, 0)
    } else {
        cfg
    }
}

impl Walk {
    /// The walk after the descriptor at `off`.
    pub open spec fn step(self, off: int) -> Walk {
        if self.cfg[off + 1] == DESCRIPTOR_INTERFACE {
            Walk {
                interface: if self.interface is Some {
                    self.interface
                } else {
                    Some(off)
                },
                ..self
            }
        } else if self.cfg[off + 1] == DESCRIPTOR_ENDPOINT {
            Walk {
                cfg: packet_size_clamped(self.cfg, off),
                endpoints: if self.endpoints.len() < 4 {
                    self.endpoints.push(off)
                } else {
                    self.endpoints
                },
                ..self
            }
        } else {
            self
        }
    }

    /// The walk from `off` to the last whole descriptor.
    pub open spec fn from(self, off: int) -> Walk
        decreases self.cfg.len() - off,
    {
        if descriptor_at(self.cfg, off) {
            self.step(off).from(off + self.cfg[off])
        } else {
            self
        }
    }

    pub open spec fn start(cfg: Seq<u8>) -> Walk {
        Walk { cfg, interface: None, endpoints: Seq::empty() }
    }
}

/// What a survey says, as offsets.
pub open spec fn survey_of(s: Survey) -> (Option<int>, Seq<int>) {
    (
        match s.interface {
            Some(i) => Some(i as int),
            None => None,
        },
        s.endpoints@.map_values(|e: usize| e as int),
    )
}

/// Walk a config descriptor: cut every endpoint's packet size to what full
/// speed allows, and note where the interface and the endpoints are.
pub fn survey_config(cfg: &mut [u8]) -> (r: Survey)
    ensures
        ({
            let w = Walk::start(old(cfg)@).from(0);
            final(cfg)@ == w.cfg && survey_of(r) == (w.interface, w.endpoints)
        }),
        final(cfg)@.len() == old(cfg)@.len(),
        r.endpoints@.len() <= 4,
        r.interface matches Some(i) ==> i + 2 <= old(cfg)@.len(),
        forall|k: int|
            0 <= k < r.endpoints@.len() ==> (#[trigger] r.endpoints@[k]) + 2 <= old(cfg)@.len(),
{
    let mut found = Survey { interface: None, endpoints: Vec::new() };
    let mut off: usize = 0;
    let ghost goal = Walk::start(cfg@).from(0);
    let ghost mut w = Walk::start(cfg@);
    assert(survey_of(found).1 =~= Seq::<int>::empty());
    loop
        invariant_except_break
            off <= cfg@.len(),
            w.from(off as int) == goal,
        invariant
            cfg@.len() == old(cfg)@.len(),
            w.cfg == cfg@,
            survey_of(found) == (w.interface, w.endpoints),
            found.endpoints@.len() <= 4,
            found.interface matches Some(i) ==> i + 2 <= cfg@.len(),
            forall|k: int|
                0 <= k < found.endpoints@.len() ==> (#[trigger] found.endpoints@[k]) + 2
                    <= cfg@.len(),
        ensures
            w == goal,
        decreases cfg@.len() - off,
    {
        match next_descriptor(cfg, off) {
            None => {
                break ;
            },
            Some((ty, next)) => {
                let ghost after = w.step(off as int);
                assert(w.from(off as int) == after.from(next as int));
                if ty == DESCRIPTOR_INTERFACE {
                    if found.interface.is_none() {
                        found.interface = Some(off);
                    }
                } else if ty == DESCRIPTOR_ENDPOINT {
                    if cfg.len() - off >= 6 {
                        let size: u16 = cfg[off + 4] as u16 + 256 * (cfg[off + 5] as u16);
                        if size > FULL_SPEED_PACKET {
                            cfg[off + 4] = 64;
                            cfg[off + 5] = 0;
                        }
                    }
                    if found.endpoints.len() < 4 {
                        let ghost before = survey_of(found).1;
                        found.endpoints.push(off);
                        assert(survey_of(found).1 =~= before.push(off as int));
                    }
                }
                proof {
                    w = after;
                }
                off = next;
            },
        }
    }
    found
}

/// Whether the device serves the truncated full-speed config: an interface
/// with two endpoints.
pub open spec fn looks_truncated(interface: Option<int>, endpoints: Seq<int>) -> bool {
    endpoints.len() == 2 && interface is Some
}

/// Whether the device serves the truncated full-speed config.
pub fn is_truncated(s: &Survey) -> (r: bool)
    ensures
        r == looks_truncated(survey_of(*s).0, survey_of(*s).1),
        r == (s.endpoints@.len() == 2 && s.interface is Some),
{
    s.endpoints.len() == 2 && s.interface.is_some()
}

/// The bytes with the endpoint described at `off` renamed: an IN endpoint
/// becomes the pads, an OUT endpoint the displays.
pub open spec fn endpoint_renamed(cfg: Seq<u8>, off: int) -> Seq<u8> {
    if off + 3 <= cfg.len() {
        cfg.update(
            off + 2,
            if cfg[off + 2] >= 0x80 {
                EP_PADS_IN
            } else {
                EP_DISPLAY_OUT
            },
        )
    } else {
        cfg
    }
}

/// The bytes with the interface described at `off` made alt setting 1.
pub open spec fn alt_setting_raised(cfg: Seq<u8>, off: int) -> Seq<u8> {
    if off + 4 <= cfg.len() {
        cfg.update(off + 3, 1)
    } else {
        cfg
    }
}

fn rename_endpoint(cfg: &mut [u8], off: usize)
    requires
        off <= old(cfg)@.len(),
    ensures
        final(cfg)@ == endpoint_renamed(old(cfg)@, off as int),
{
    if cfg.len() - off >= 3 {
        cfg[off + 2] = if cfg[off + 2] >= 0x80 {
            EP_PADS_IN
        } else {
            EP_DISPLAY_OUT
        };
    }
}

/// Rewrite a truncated config so that it describes the pad and display
/// endpoints as alt setting 1.
pub fn describe_alt1(cfg: &mut [u8], interface: usize, first: usize, second: usize)
    requires
        interface <= old(cfg)@.len(),
        first <= old(cfg)@.len(),
        second <= old(cfg)@.len(),
    ensures
        final(cfg)@ == endpoint_renamed(
            endpoint_renamed(alt_setting_raised(old(cfg)@, interface as int), first as int),
            second as int,
        ),
{
    if cfg.len() - interface >= 4 {
        cfg[interface + 3] = 1;
    }
    rename_endpoint(cfg, first);
    rename_endpoint(cfg, second);
}

/// The rewritten config describes alt setting 1 with the pads behind the IN
/// endpoint and the displays behind the OUT endpoint, and nothing else in it
/// changes.
pub proof fn law_rewritten_config_describes_alt1(
    cfg: Seq<u8>,
    interface: int,
    first: int,
    second: int,
    k: int,
)
    requires
        0 <= interface && interface + 4 <= first,
        first + 3 <= second,
        second + 3 <= cfg.len(),
        0 <= k < cfg.len(),
    ensures
        ({
            let after = endpoint_renamed(
                endpoint_renamed(alt_setting_raised(cfg, interface), first),
                second,
            );
            &&& after.len() == cfg.len()
            &&& after[k] == if k == interface + 3 {
                1u8
            } else if k == first + 2 || k == second + 2 {
                if cfg[k] >= 0x80 {
                    EP_PADS_IN
                } else {
                    EP_DISPLAY_OUT
                }
            } else {
                cfg[k]
            }
        }),
{
}

/// Whether every endpoint descriptor from `off` on is long enough to hold its
/// packet size.
pub open spec fn endpoints_whole(cfg: Seq<u8>, off: int) -> bool
    decreases cfg.len() - off,
{
    descriptor_at(cfg, off) ==> {
        &&& cfg[off + 1] == DESCRIPTOR_ENDPOINT ==> cfg[off] >= 6
        &&& endpoints_whole(cfg, off + cfg[off])
    }
}

/// Whether no endpoint descriptor from `off` on claims a larger packet than
/// full speed allows.
pub open spec fn endpoints_full_speed(cfg: Seq<u8>, off: int) -> bool
    decreases cfg.len() - off,
{
    descriptor_at(cfg, off) ==> {
        &&& cfg[off + 1] == DESCRIPTOR_ENDPOINT ==> cfg[off + 4] + 256 * cfg[off + 5]
            <= FULL_SPEED_PACKET
        &&& endpoints_full_speed(cfg, off + cfg[off])
    }
}

/// What `endpoints_whole` says of an offset depends on the bytes from there on.
proof fn lemma_whole_depends_on_rest(a: Seq<u8>, b: Seq<u8>, off: int)
    requires
        0 <= off,
        a.len() == b.len(),
        forall|k: int| off <= k < a.len() ==> a[k] == b[k],
        endpoints_whole(a, off),
    ensures
        endpoints_whole(b, off),
    decreases a.len() - off,
{
    if descriptor_at(b, off) {
        lemma_whole_depends_on_rest(a, b, off + a[off]);
    }
}

/// The walk from `off` leaves the bytes before it alone.
proof fn lemma_walk_keeps_earlier_bytes(w: Walk, off: int)
    requires
        0 <= off,
        endpoints_whole(w.cfg, off),
    ensures
        w.from(off).cfg.len() == w.cfg.len(),
        forall|k: int| 0 <= k < off && k < w.cfg.len() ==> w.from(off).cfg[k] == w.cfg[k],
    decreases w.cfg.len() - off,
{
    if descriptor_at(w.cfg, off) {
        let next = off + w.cfg[off];
        let after = w.step(off);
        lemma_whole_depends_on_rest(w.cfg, after.cfg, next);
        lemma_walk_keeps_earlier_bytes(after, next);
        assert forall|k: int| 0 <= k < off && k < w.cfg.len() implies w.from(off).cfg[k]
            == w.cfg[k] by {
            assert(after.from(next).cfg[k] == after.cfg[k]);
        }
    }
}

/// After a walk no endpoint descriptor claims a larger packet than full speed
/// allows.
pub proof fn law_walk_clamps_packet_sizes(w: Walk, off: int)
    requires
        0 <= off,
        endpoints_whole(w.cfg, off),
    ensures
        endpoints_full_speed(w.from(off).cfg, off),
    decreases w.cfg.len() - off,
{
    if descriptor_at(w.cfg, off) {
        let next = off + w.cfg[off];
        let after = w.step(off);
        lemma_whole_depends_on_rest(w.cfg, after.cfg, next);
        lemma_walk_keeps_earlier_bytes(after, next);
        law_walk_clamps_packet_sizes(after, next);
        let done = w.from(off).cfg;
        assert(done == after.from(next).cfg);
        assert(forall|k: int| off <= k < next ==> done[k] == #[trigger] after.cfg[k]);
        assert(done[off] == after.cfg[off] && done[off + 1] == after.cfg[off + 1]);
        if w.cfg[off + 1] == DESCRIPTOR_ENDPOINT {
            assert(done[off + 4] == after.cfg[off + 4] && done[off + 5] == after.cfg[off + 5]);
        }
    }
}

/// SET_INTERFACE(0, alt 1): claiming alone does not send it.
pub fn set_interface_setup() -> (r: [u8; 8])
    ensures
        r@ == seq![0x01u8, 0x0b, 0x01, 0x00, 0x00, 0x00, 0x00, 0x00],
{
    [0x01, 0x0b, 0x01, 0x00, 0x00, 0x00, 0x00, 0x00]
}

/// What attaching to the device asks of the host next.
#[derive(Debug, Clone, Copy, PartialEq, Eq, Structural)]
pub enum AttachStep {
    /// Claim alt setting 0, which the truncated config describes.
    ClaimAlt0,
    /// Rewrite the config, then claim the alt setting 1 it now describes.
    ClaimSynthesizedAlt1,
    /// Claim alt setting 1: the host runs at high speed and it is real.
    ClaimAlt1,
    /// Send SET_INTERFACE.
    SetInterface,
    /// Leave the device alone.
    GiveUp,
}

/// Where attaching starts.
pub open spec fn attach_first(truncated: bool) -> AttachStep {
    if truncated {
        AttachStep::ClaimAlt0
    } else {
        AttachStep::ClaimAlt1
    }
}

/// Where attaching starts. `truncated`: the config could be read and is the
/// truncated full-speed one.
pub fn attach_start(truncated: bool) -> (r: AttachStep)
    ensures
        r == attach_first(truncated),
        r == if truncated {
            AttachStep::ClaimAlt0
        } else {
            AttachStep::ClaimAlt1
        },
{
    if truncated {
        AttachStep::ClaimAlt0
    } else {
        AttachStep::ClaimAlt1
    }
}

/// What follows a step. Failing to claim ends it, but for the synthesized
/// alt setting: without it pads and displays stay dead and the rest works.
pub open spec fn attach_after(step: AttachStep, ok: bool) -> AttachStep {
    match step {
        AttachStep::ClaimAlt0 => if ok {
            AttachStep::ClaimSynthesizedAlt1
        } else {
            AttachStep::GiveUp
        },
        AttachStep::ClaimSynthesizedAlt1 => AttachStep::SetInterface,
        AttachStep::ClaimAlt1 => if ok {
            AttachStep::SetInterface
        } else {
            AttachStep::GiveUp
        },
        AttachStep::SetInterface => AttachStep::SetInterface,
        AttachStep::GiveUp => AttachStep::GiveUp,
    }
}

/// What follows a step that worked or not.
pub fn attach_next(step: AttachStep, ok: bool) -> (r: AttachStep)
    ensures
        r == attach_after(step, ok),
{
    match step {
        AttachStep::ClaimAlt0 => if ok {
            AttachStep::ClaimSynthesizedAlt1
        } else {
            AttachStep::GiveUp
        },
        AttachStep::ClaimSynthesizedAlt1 => AttachStep::SetInterface,
        AttachStep::ClaimAlt1 => if ok {
            AttachStep::SetInterface
        } else {
            AttachStep::GiveUp
        },
        AttachStep::SetInterface => AttachStep::SetInterface,
        AttachStep::GiveUp => AttachStep::GiveUp,
    }
}

/// Attaching ends after two steps at most.
pub proof fn law_attaching_ends(truncated: bool, first: bool, second: bool)
    ensures
        ({
            let start = attach_first(truncated);
            let end = attach_after(attach_after(start, first), second);
            end == AttachStep::SetInterface || end == AttachStep::GiveUp
        }),
{
}

/// Which device the host is dealing with.
#[derive(Debug, PartialEq, Eq)]
pub struct DeviceLink {
    /// Address of a device that has shown up, 0 if none.
    pub new_addr: u8,
    /// A device is open.
    pub open: bool,
    /// The session with it is up.
    pub session_up: bool,
}

impl DeviceLink {
    pub fn new() -> (r: Self)
        ensures
            r == (DeviceLink { new_addr: 0, open: false, session_up: false }),
    {
        DeviceLink { new_addr: 0, open: false, session_up: false }
    }

    /// The link once a device has shown up.
    pub open spec fn shown_up(self, addr: u8) -> DeviceLink {
        DeviceLink { new_addr: addr, ..self }
    }

    /// The link once the device is gone.
    pub open spec fn gone(self) -> DeviceLink {
        DeviceLink { open: false, session_up: false, ..self }
    }

    /// The address to open now.
    pub open spec fn to_open(self) -> Option<u8> {
        if self.new_addr != 0 && !self.open {
            Some(self.new_addr)
        } else {
            None
        }
    }

    /// The link once it was asked for an address to open.
    pub open spec fn asked(self) -> DeviceLink {
        DeviceLink { new_addr: 0, ..self }
    }

    /// The link once a device with these ids was opened.
    pub open spec fn opened(self, vid: u16, pid: u16) -> DeviceLink {
        DeviceLink { open: vid == VENDOR_ID && pid == PRODUCT_ID, ..self }
    }

    /// A device has shown up.
    pub fn on_new_device(&mut self, addr: u8)
        ensures
            *final(self) == old(self).shown_up(addr),
            *final(self) == (DeviceLink { new_addr: addr, ..*old(self) }),
    {
        self.new_addr = addr;
    }

    /// The device is gone; true if it has to be released and closed.
    pub fn on_device_gone(&mut self) -> (r: bool)
        ensures
            *final(self) == old(self).gone(),
            r == old(self).open,
            *final(self) == (DeviceLink { open: false, session_up: false, ..*old(self) }),
    {
        let close = self.open;
        self.session_up = false;
        self.open = false;
        close
    }

    /// The address to open now: that of a device that has shown up, unless one
    /// is open already. Asking forgets it.
    pub fn take_address(&mut self) -> (r: Option<u8>)
        ensures
            r == old(self).to_open(),
            *final(self) == old(self).asked(),
            r == if old(self).new_addr != 0 && !old(self).open {
                Some(old(self).new_addr)
            } else {
                None
            },
            *final(self) == (DeviceLink { new_addr: 0, ..*old(self) }),
    {
        let addr = self.new_addr;
        self.new_addr = 0;
        if addr != 0 && !self.open {
            Some(addr)
        } else {
            None
        }
    }

    /// A device with these ids was opened; true if it is ours to attach to,
    /// else it has to be closed again.
    pub fn on_opened(&mut self, vid: u16, pid: u16) -> (r: bool)
        ensures
            *final(self) == old(self).opened(vid, pid),
            r == (vid == VENDOR_ID && pid == PRODUCT_ID),
            *final(self) == (DeviceLink { open: r, ..*old(self) }),
    {
        self.open = vid == VENDOR_ID && pid == PRODUCT_ID;
        self.open
    }

    /// The device has said hello.
    pub fn on_session_up(&mut self)
        ensures
            *final(self) == (DeviceLink { session_up: true, ..*old(self) }),
    {
        self.session_up = true;
    }
}

/// Attaching succeeds exactly if the first claim does: that of the synthesized
/// alt setting may fail.
pub proof fn law_first_claim_decides(truncated: bool, first: bool, second: bool)
    ensures
        ({
            let start = attach_first(truncated);
            let end = attach_after(attach_after(start, first), second);
            end == AttachStep::SetInterface <==> first
        }),
        attach_after(AttachStep::ClaimAlt0, true) == AttachStep::ClaimSynthesizedAlt1,
{
}

/// A config whose packets are all small enough is left as it is.
pub proof fn law_full_speed_config_stays(w: Walk, off: int)
    requires
        0 <= off,
        endpoints_whole(w.cfg, off),
        endpoints_full_speed(w.cfg, off),
    ensures
        w.from(off).cfg == w.cfg,
    decreases w.cfg.len() - off,
{
    if descriptor_at(w.cfg, off) {
        assert(w.step(off).cfg == w.cfg);
        law_full_speed_config_stays(w.step(off), off + w.cfg[off]);
    }
}

/// What a walk finds is what it says: an interface descriptor, and up to four
/// endpoint descriptors in order. What was found before stays found, and
/// descriptors keep their kind.
pub proof fn law_walk_finds_descriptors(w: Walk, off: int, i: int)
    requires
        0 <= off,
        endpoints_whole(w.cfg, off),
        w.endpoints.len() <= 4,
    ensures
        ({
            let end = w.from(off);
            &&& end.endpoints.len() <= 4
            &&& w.endpoints.len() <= end.endpoints.len()
            &&& 0 <= i < w.endpoints.len() ==> end.endpoints[i] == w.endpoints[i]
            &&& w.endpoints.len() <= i < end.endpoints.len() ==> off <= end.endpoints[i]
                && end.endpoints[i] + 1 < w.cfg.len() && w.cfg[end.endpoints[i] + 1] == 5
            &&& w.interface is Some ==> end.interface == w.interface
            &&& w.interface is None ==> (end.interface matches Some(at) ==> off <= at && at + 1
                < w.cfg.len() && w.cfg[at + 1] == 4)
        }),
    decreases w.cfg.len() - off,
{
    if descriptor_at(w.cfg, off) {
        let next = off + w.cfg[off];
        let after = w.step(off);
        lemma_whole_depends_on_rest(w.cfg, after.cfg, next);
        law_walk_finds_descriptors(after, next, i);
        assert(forall|k: int| next <= k < w.cfg.len() ==> after.cfg[k] == #[trigger] w.cfg[k]);
    }
}

/// The first interface and endpoint that a walk comes to are found.
pub proof fn law_walk_misses_nothing(w: Walk, off: int)
    requires
        0 <= off,
        endpoints_whole(w.cfg, off),
        descriptor_at(w.cfg, off),
        w.endpoints.len() < 4,
    ensures
        w.cfg[off + 1] == 4 && w.interface is None ==> w.from(off).interface == Some(off),
        w.cfg[off + 1] == 5 ==> w.from(off).endpoints.len() > w.endpoints.len()
            && w.from(off).endpoints[w.endpoints.len() as int] == off,
        w.cfg[off + 1] != 4 && w.cfg[off + 1] != 5 ==> w.from(off) == w.from(off + w.cfg[off]),
{
    let next = off + w.cfg[off];
    lemma_whole_depends_on_rest(w.cfg, w.step(off).cfg, next);
    law_walk_finds_descriptors(w.step(off), next, w.endpoints.len() as int);
}

/// A device that shows up is opened once, while no other is open; one that shows
/// up later takes its place, and asking forgets it. Only our device stays open,
/// and one that is gone makes room for the next and ends its session.
pub proof fn law_one_device_at_a_time(link: DeviceLink, addr: u8, later: u8, vid: u16, pid: u16)
    requires
        addr != 0,
        later != 0,
    ensures
        !link.open ==> link.shown_up(addr).to_open() == Some(addr),
        link.open ==> link.shown_up(addr).to_open() is None,
        link.shown_up(addr).shown_up(later) == link.shown_up(later),
        link.asked().to_open() is None,
        link.asked().open == link.open && link.asked().session_up == link.session_up,
        link.opened(vid, pid).open <==> vid == 0x17cc && pid == 0x0808,
        link.opened(vid, pid).new_addr == link.new_addr,
        !link.gone().open && !link.gone().session_up,
        link.gone().shown_up(addr).to_open() == Some(addr),
        link.gone().new_addr == link.new_addr,
{
}

/// The truncated config is told by an interface with exactly two endpoints, and
/// only it takes the way round by alt setting 0.
pub proof fn law_two_endpoints_are_truncated(interface: Option<int>, endpoints: Seq<int>)
    ensures
        looks_truncated(interface, endpoints) <==> interface is Some && endpoints.len() == 2,
        attach_first(true) == AttachStep::ClaimAlt0,
        attach_first(false) == AttachStep::ClaimAlt1,
{
}

/// Descriptors lie end to end, however short: one that is no interface and no
/// endpoint is stepped over by its length, and the walk ends where none fits.
pub proof fn law_walk_goes_by_lengths(w: Walk, off: int)
    requires
        0 <= off <= w.cfg.len() - 2,
        w.cfg[off + 1] != 4,
        w.cfg[off + 1] != 5,
    ensures
        2 <= w.cfg[off] <= w.cfg.len() - off ==> w.from(off) == w.from(off + w.cfg[off]),
        w.cfg[off] < 2 || w.cfg[off] > w.cfg.len() - off ==> w.from(off) == w,
{
}

/// A packet size, least significant byte first, is cut to 64 bytes, and no
/// other byte changes.
pub proof fn law_packets_hold_up_to_64_bytes(cfg: Seq<u8>, off: int, i: int)
    requires
        0 <= off <= cfg.len() - 6,
        0 <= i < cfg.len(),
    ensures
        ({
            let cut = packet_size_clamped(cfg, off);
            let size = cfg[off + 4] + 256 * cfg[off + 5];
            &&& cut.len() == cfg.len()
            &&& cut[off + 4] + 256 * cut[off + 5] == if size < 64 {
                size
            } else {
                64
            }
            &&& i != off + 4 && i != off + 5 ==> cut[i] == cfg[i]
        }),
{
}

} // verus!
