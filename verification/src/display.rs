//! Display framebuffers and EP 0x08 message encoding.
//!
//! Two 255x64 panels, 32-level grayscale, 5 bits per pixel with 3 pixels
//! packed into 2 bytes. Stored values are inverted (0x1F = dark). Init and
//! frame sequences follow cabl (MIT), verbatim.

use vstd::prelude::*;

use crate::line::{messages_in, paused_in, Line, LineStep};

verus! {

pub const WIDTH: usize = 255;

pub const HEIGHT: usize = 64;

pub const ROW_BYTES: usize = 170;

pub const BUF_SIZE: usize = 10880;  // ROW_BYTES * HEIGHT

/// Framebuffer bytes in every data message but the last.
pub const CHUNK: usize = 502;

/// Framebuffer bytes in the last data message.
pub const LAST_CHUNK: usize = 338;

/// Messages in a whole frame: two window commands and 22 of data.
pub const FRAME_MESSAGES: usize = 24;

/// Panel initialization: command length, command bytes (the first `length`
/// count), and the delay in ms to wait after sending it.
pub const INIT_COMMANDS: [(usize, [u8; 4], u32); 22] = [
    (1, [0x30, 0, 0, 0], 0),
    (4, [0xCA, 0x04, 0x0F, 0x00], 20),
    (2, [0xBB, 0x00, 0, 0], 0),
    (1, [0xD1, 0, 0, 0], 0),
    (1, [0x94, 0, 0, 0], 0),
    (3, [0x81, 0x1E, 0x02, 0], 20),
    (2, [0x20, 0x08, 0, 0], 20),
    (2, [0x20, 0x0B, 0, 0], 20),
    (1, [0xA6, 0, 0, 0], 0),
    (1, [0x31, 0, 0, 0], 0),
    (4, [0x32, 0x00, 0x00, 0x05], 0),
    (1, [0x34, 0, 0, 0], 0),
    (1, [0x30, 0, 0, 0], 0),
    (4, [0xBC, 0x00, 0x01, 0x02], 0),
    (3, [0x75, 0x00, 0x3F, 0], 0),
    (3, [0x15, 0x00, 0x54, 0], 0),
    (1, [0x5C, 0, 0, 0], 0),
    (1, [0x25, 0, 0, 0], 20),
    (1, [0xAF, 0, 0, 0], 20),
    (4, [0xBC, 0x02, 0x01, 0x01], 0),
    (1, [0xA6, 0, 0, 0], 0),
    (3, [0x81, 0x25, 0x02, 0], 0),
];

/// First byte of a message that starts a command for `display`.
pub open spec fn command_id(display: u8) -> u8 {
    (2 * display % 256) as u8
}

/// First byte of a message that continues raw data for `display`.
pub open spec fn data_id(display: u8) -> u8 {
    (2 * display % 256 + 1) as u8
}

/// Whether `write` took a message with these bytes.
pub open spec fn wrote<E, W: FnMut(&[u8]) -> Result<(), E>>(write: W, msg: Seq<u8>) -> bool {
    exists|m: &[u8], o: Result<(), E>|
        m@ == msg && o is Ok && #[trigger] call_ensures(write, (m,), o)
}

/// Whether `write` failed with `e` on a message with these bytes.
pub open spec fn refused<E, W: FnMut(&[u8]) -> Result<(), E>>(
    write: W,
    msg: Seq<u8>,
    e: E,
) -> bool {
    exists|m: &[u8]| m@ == msg && #[trigger] call_ensures(write, (m,), Err(e))
}

/// What a sender that stops at the first error reports about `msgs`: success
/// when all were written, else the error of the first one refused.
pub open spec fn sent<E, W: FnMut(&[u8]) -> Result<(), E>>(
    write: W,
    msgs: Seq<Seq<u8>>,
    r: Result<(), E>,
) -> bool {
    match r {
        Ok(()) => forall|k: int| 0 <= k < msgs.len() ==> wrote::<E, W>(write, #[trigger] msgs[k]),
        Err(e) => exists|k: int|
            0 <= k < msgs.len() && refused::<E, W>(write, #[trigger] msgs[k], e) && forall|j: int|
                0 <= j < k ==> wrote::<E, W>(write, #[trigger] msgs[j]),
    }
}

/// The `k`-th message of the init sequence.
pub open spec fn init_message_bytes(display: u8, k: int) -> Seq<u8> {
    let (len, bytes, delay) = INIT_COMMANDS@[k];
    seq![command_id(display), 0u8, len as u8] + bytes@.take(len as int)
}

/// The init sequence for `display`.
pub open spec fn init_messages(display: u8) -> Seq<Seq<u8>> {
    Seq::new(22, |k: int| init_message_bytes(display, k))
}

/// The `k`-th message of the init sequence for `display`.
pub fn init_message(display: u8, k: usize) -> (r: Vec<u8>)
    requires
        k < 22,
    ensures
        r@ == init_message_bytes(display, k as int),
{
    let (len, bytes, delay) = INIT_COMMANDS[k];
    let mut msg: Vec<u8> = Vec::new();
    msg.push(2 * (display % 128));
    msg.push(0);
    msg.push(len as u8);
    let mut i: usize = 0;
    while i < len
        invariant
            i <= len <= 4,
            msg@ == seq![command_id(display), 0u8, len as u8] + bytes@.take(i as int),
        decreases len - i,
    {
        msg.push(bytes[i]);
        assert(bytes@.take(i + 1) == bytes@.take(i as int).push(bytes@[i as int]));
        i += 1;
    }
    msg
}

/// The first `n` steps of the init sequence: each message, and right after it
/// the pause that its command needs, if any.
pub open spec fn init_steps(display: u8, n: int) -> Seq<LineStep>
    decreases n,
{
    if n <= 0 {
        Seq::empty()
    } else {
        let written = init_steps(display, n - 1).push(
            LineStep::Wrote(init_message_bytes(display, n - 1)),
        );
        let delay = INIT_COMMANDS@[n - 1].2;
        if delay > 0 {
            written.push(LineStep::Slept(delay))
        } else {
            written
        }
    }
}

/// Whether `sleep_ms` can have made the pauses of the first `n` commands of the
/// init sequence.
pub open spec fn paused<S: FnMut(u32)>(sleep_ms: S, n: int) -> bool {
    forall|k: int|
        0 <= k < n && (#[trigger] INIT_COMMANDS@[k]).2 > 0 ==> call_ensures(
            sleep_ms,
            (INIT_COMMANDS@[k].2,),
            (),
        )
}

/// Send the init sequence for `display` over a line: every message once and in
/// order, every pause right after its message, and nothing more. A refused
/// message is the last thing done.
pub fn init_on<E, W: FnMut(&[u8]) -> Result<(), E>, S: FnMut(u32)>(
    display: u8,
    line: Line<W, S>,
) -> (r: (Line<W, S>, Result<(), E>))
    requires
        forall|m: &[u8]| #[trigger] call_requires(line.writer(), (m,)),
        forall|ms: u32| #[trigger] call_requires(line.sleeper(), (ms,)),
    ensures
        r.0.writer() == line.writer(),
        r.0.sleeper() == line.sleeper(),
        match r.1 {
            Ok(()) => r.0.log() == line.log() + init_steps(display, 22),
            Err(e) => exists|k: int|
                0 <= k < 22 && refused::<E, W>(
                    line.writer(),
                    #[trigger] init_message_bytes(display, k),
                    e,
                ) && r.0.log() == (line.log() + init_steps(display, k)).push(
                    LineStep::Refused(init_message_bytes(display, k)),
                ),
        },
        sent::<E, W>(line.writer(), init_messages(display), r.1),
        r.1 is Ok ==> paused::<S>(line.sleeper(), 22),
{
    let ghost msgs = init_messages(display);
    let ghost writer = line.writer();
    let ghost sleeper = line.sleeper();
    let ghost before = line.log();
    let mut at = line;
    let mut k: usize = 0;
    assert(before + init_steps(display, 0) =~= before);
    while k < 22
        invariant
            k <= 22,
            writer == line.writer(),
            sleeper == line.sleeper(),
            before == line.log(),
            at.writer() == writer,
            at.sleeper() == sleeper,
            at.log() == before + init_steps(display, k as int),
            msgs == init_messages(display),
            forall|m: &[u8]| #[trigger] call_requires(writer, (m,)),
            forall|ms: u32| #[trigger] call_requires(sleeper, (ms,)),
            forall|j: int| 0 <= j < k ==> wrote::<E, W>(writer, #[trigger] msgs[j]),
            paused::<S>(sleeper, k as int),
        decreases 22 - k,
    {
        let msg = init_message(display, k);
        let m = msg.as_slice();
        let (used, outcome) = at.write(m);
        at = used;
        assert(m@ == msgs[k as int] && call_ensures(writer, (m,), outcome));
        match outcome {
            Ok(()) => {
                assert(wrote::<E, W>(writer, msgs[k as int]));
            },
            Err(e) => {
                assert(refused::<E, W>(writer, msgs[k as int], e));
                assert(refused::<E, W>(writer, init_message_bytes(display, k as int), e));
                return (at, Err(e));
            },
        }
        let delay: u32 = INIT_COMMANDS[k].2;
        if delay > 0 {
            at = at.sleep(delay);
        }
        assert(at.log() =~= before + init_steps(display, k + 1));
        k += 1;
    }
    (at, Ok(()))
}

/// Send the init sequence for `display` (0 or 1). `write` sends one message
/// on EP 0x08; `sleep_ms` must actually wait. A contract cannot count the calls
/// of a closure: that each message and pause comes once, in its place, is what
/// `init_on` states, which does all the work.
pub fn init_display<E, W: FnMut(&[u8]) -> Result<(), E>, S: FnMut(u32)>(
    display: u8,
    write: W,
    sleep_ms: S,
) -> (r: Result<(), E>)
    requires
        forall|m: &[u8]| #[trigger] call_requires(write, (m,)),
        forall|ms: u32| #[trigger] call_requires(sleep_ms, (ms,)),
    ensures
        sent::<E, W>(write, init_messages(display), r),
        r is Ok ==> paused::<S>(sleep_ms, 22),
{
    init_on(display, Line::new(write, sleep_ms)).1
}

/// Milliseconds of pause in the first `n` commands of the init sequence.
spec fn delays(n: int) -> nat
    decreases n,
{
    if n <= 0 {
        0
    } else {
        delays(n - 1) + INIT_COMMANDS@[n - 1].2 as nat
    }
}

proof fn lemma_init_steps(display: u8, n: int)
    requires
        0 <= n <= 22,
    ensures
        messages_in(init_steps(display, n)) == n,
        paused_in(init_steps(display, n)) == delays(n),
    decreases n,
{
    if n > 0 {
        lemma_init_steps(display, n - 1);
        let earlier = init_steps(display, n - 1);
        let written = earlier.push(LineStep::Wrote(init_message_bytes(display, n - 1)));
        assert(written.drop_last() =~= earlier);
        assert(messages_in(written) == n && paused_in(written) == delays(n - 1));
        let delay = INIT_COMMANDS@[n - 1].2;
        if delay > 0 {
            let slept = written.push(LineStep::Slept(delay));
            assert(slept.drop_last() =~= written);
            assert(messages_in(slept) == n && paused_in(slept) == delays(n));
        }
    }
}

/// Each command of the init sequence is one message, and the whole sequence
/// pauses for 120 ms.
pub proof fn law_init_messages_and_pauses(display: u8, n: int)
    requires
        0 <= n <= 22,
    ensures
        messages_in(init_steps(display, n)) == n,
        paused_in(init_steps(display, 22)) == 120,
{
    lemma_init_steps(display, n);
    lemma_init_steps(display, 22);
    reveal_with_fuel(delays, 23);
}

/// One display's framebuffer.
#[derive(Clone)]
pub struct Display {
    buf: [u8; BUF_SIZE],
}

impl View for Display {
    type V = Seq<u8>;

    closed spec fn view(&self) -> Seq<u8> {
        self.buf@
    }
}

/// Gray level of a pixel: 0 = dark, 31 = fully lit. Three pixels share two
/// bytes, five bits each, stored inverted:
/// `[p0:7..3 | p1:2..0] [p1:7..6 | spare | p2:4..0]`.
pub open spec fn pixel(buf: Seq<u8>, x: int, y: int) -> int {
    let i = ROW_BYTES * y + 2 * (x / 3);
    31 - (if x % 3 == 0 {
        (buf[i] / 8) as int
    } else if x % 3 == 1 {
        buf[i] % 8 * 4 + buf[i + 1] / 64
    } else {
        (buf[i + 1] % 32) as int
    })
}

/// The bit of the `k`-th byte pair that no pixel uses.
pub open spec fn spare_bit(buf: Seq<u8>, k: int) -> int {
    (buf[2 * k + 1] / 32 % 2) as int
}

pub open spec fn on_screen(x: int, y: int) -> bool {
    0 <= x < WIDTH && 0 <= y < HEIGHT
}

/// Gray level as shown: never above the maximum.
pub open spec fn shown_gray(gray: u8) -> int {
    if gray > 31 {
        31
    } else {
        gray as int
    }
}

/// Pixels and spare bits are all there is in a framebuffer: two framebuffers
/// that agree on them are equal.
pub proof fn law_pixels_determine_buffer(a: Seq<u8>, b: Seq<u8>)
    requires
        a.len() == BUF_SIZE,
        b.len() == BUF_SIZE,
        forall|x: int, y: int| on_screen(x, y) ==> #[trigger] pixel(a, x, y) == pixel(b, x, y),
        forall|k: int| 0 <= k < 5440 ==> #[trigger] spare_bit(a, k) == spare_bit(b, k),
    ensures
        a == b,
{
    assert forall|i: int| 0 <= i < BUF_SIZE implies a[i] == b[i] by {
        let y = i / 170;
        let x = 3 * ((i % 170) / 2);
        let k = i / 2;
        assert(on_screen(x, y));
        assert(on_screen(x + 1, y));
        assert(on_screen(x + 2, y));
        assert(pixel(a, x, y) == pixel(b, x, y));
        assert(pixel(a, x + 1, y) == pixel(b, x + 1, y));
        assert(pixel(a, x + 2, y) == pixel(b, x + 2, y));
        assert(spare_bit(a, k) == spare_bit(b, k));
    }
    assert(a =~= b);
}

/// The byte pair `a`, `b` with the value `v` stored in one of its slots; the
/// other slots and the spare bit stay.
fn with_slot(a: u8, b: u8, slot: usize, v: u8) -> (r: (u8, u8))
    requires
        v < 32,
        slot < 3,
    ensures
        r.1 / 32 % 2 == b / 32 % 2,
        r.0 / 8 == (if slot == 0 {
            v
        } else {
            a / 8
        }),
        r.0 % 8 == (if slot == 1 {
            v / 4
        } else {
            a % 8
        }),
        r.1 / 64 == (if slot == 1 {
            v % 4
        } else {
            b / 64
        }),
        r.1 % 32 == (if slot == 2 {
            v
        } else {
            b % 32
        }),
{
    if slot == 0 {
        (a % 8 + 8 * v, b)
    } else if slot == 1 {
        (a / 8 * 8 + v / 4, b % 64 + 64 * (v % 4))
    } else {
        (a, b / 32 * 32 + v)
    }
}

/// Changing one pixel's slot within its byte pair, and no other byte, changes
/// no other pixel and no spare bit.
proof fn lemma_one_pair_changed(before: Seq<u8>, after: Seq<u8>, x: int, y: int)
    requires
        on_screen(x, y),
        before.len() == BUF_SIZE,
        after.len() == BUF_SIZE,
        ({
            let i = ROW_BYTES * y + 2 * (x / 3);
            let (a, b) = (before[i], before[i + 1]);
            let (c, d) = (after[i], after[i + 1]);
            &&& forall|j: int|
                0 <= j < BUF_SIZE && j != i && j != i + 1 ==> #[trigger] after[j] == before[j]
            &&& b / 32 % 2 == d / 32 % 2
            &&& x % 3 != 0 ==> a / 8 == c / 8
            &&& x % 3 != 1 ==> a % 8 == c % 8 && b / 64 == d / 64
            &&& x % 3 != 2 ==> b % 32 == d % 32
        }),
    ensures
        forall|px: int, py: int|
            on_screen(px, py) && !(px == x && py == y) ==> #[trigger] pixel(after, px, py)
                == pixel(before, px, py),
        forall|k: int|
            0 <= k < 5440 ==> #[trigger] spare_bit(after, k) == spare_bit(before, k),
{
    let i = ROW_BYTES * y + 2 * (x / 3);
    assert forall|px: int, py: int| on_screen(px, py) && !(px == x && py == y) implies #[trigger] pixel(
        after,
        px,
        py,
    ) == pixel(before, px, py) by {
        let j = ROW_BYTES * py + 2 * (px / 3);
        if j == i {
            assert(py == y && px / 3 == x / 3);
            assert(px % 3 != x % 3);
        } else {
            assert(after[j] == before[j]);
            assert(after[j + 1] == before[j + 1]);
        }
    }
    assert forall|k: int| 0 <= k < 5440 implies #[trigger] spare_bit(after, k) == spare_bit(
        before,
        k,
    ) by {
        if 2 * k + 1 != i + 1 {
            assert(after[2 * k + 1] == before[2 * k + 1]);
        }
    }
}

/// The part of the framebuffer that the `k`-th message of a frame carries.
pub open spec fn frame_chunk(buf: Seq<u8>, k: int) -> Seq<u8> {
    if k < 2 {
        Seq::empty()
    } else if k < 23 {
        buf.subrange(CHUNK * (k - 2), CHUNK * (k - 1))
    } else {
        buf.skip(BUF_SIZE - LAST_CHUNK)
    }
}

/// What precedes the framebuffer bytes in the `k`-th message of a frame: the
/// row window 0-63, the column window 0-84 (3 pixels each), the write-data
/// command, or a continuation header.
pub open spec fn frame_header(display: u8, k: int) -> Seq<u8> {
    if k == 0 {
        seq![command_id(display), 0x00, 0x03, 0x75, 0x00, 0x3F]
    } else if k == 1 {
        seq![command_id(display), 0x00, 0x03, 0x15, 0x00, 0x54]
    } else if k == 2 {
        seq![command_id(display), 0x01, 0xF7, 0x5C]
    } else if k < 23 {
        seq![data_id(display), 0x01, 0xF6]
    } else {
        seq![data_id(display), 0x01, 0x52]
    }
}

/// The messages that show a framebuffer on `display`.
pub open spec fn frame_messages(buf: Seq<u8>, display: u8) -> Seq<Seq<u8>> {
    Seq::new(
        FRAME_MESSAGES as nat,
        |k: int| frame_header(display, k) + frame_chunk(buf, k),
    )
}

/// Writing the first `n` messages of a frame.
pub open spec fn frame_steps(buf: Seq<u8>, display: u8, n: int) -> Seq<LineStep> {
    Seq::new(n as nat, |k: int| LineStep::Wrote(frame_messages(buf, display)[k]))
}

/// The framebuffer bytes in the first `n` messages of a frame, in order.
pub open spec fn carried(buf: Seq<u8>, n: int) -> Seq<u8>
    decreases n,
{
    if n <= 0 {
        Seq::empty()
    } else {
        carried(buf, n - 1) + frame_chunk(buf, n - 1)
    }
}

proof fn lemma_carried(buf: Seq<u8>, n: int)
    requires
        buf.len() == BUF_SIZE,
        2 <= n <= 23,
    ensures
        carried(buf, n) == buf.take(CHUNK * (n - 2)),
    decreases n,
{
    if n == 2 {
        reveal_with_fuel(carried, 3);
        assert(carried(buf, 2) =~= buf.take(0));
    } else {
        lemma_carried(buf, n - 1);
        assert(carried(buf, n) =~= buf.take(CHUNK * (n - 2)));
    }
}

/// A frame's messages carry the whole framebuffer, once and in order.
pub proof fn law_frame_carries_buffer(buf: Seq<u8>)
    requires
        buf.len() == BUF_SIZE,
    ensures
        carried(buf, FRAME_MESSAGES as int) == buf,
{
    lemma_carried(buf, 23);
    assert(carried(buf, 24) =~= buf);
}

/// The first `n` messages of a frame are `n` messages, without a pause.
pub proof fn law_frame_messages_without_pause(buf: Seq<u8>, display: u8, n: int)
    requires
        0 <= n <= FRAME_MESSAGES,
    ensures
        messages_in(frame_steps(buf, display, n)) == n,
        paused_in(frame_steps(buf, display, n)) == 0,
    decreases n,
{
    if n > 0 {
        law_frame_messages_without_pause(buf, display, n - 1);
        assert(frame_steps(buf, display, n).drop_last() =~= frame_steps(buf, display, n - 1));
    }
}

/// Every message on EP 0x08 is `[id, length high, length low, payload..]`,
/// and the length is that of its payload.
pub open spec fn well_framed(msg: Seq<u8>) -> bool {
    msg.len() >= 3 && 256 * msg[1] + msg[2] == msg.len() - 3
}

/// All frame and init messages are well framed.
pub proof fn law_messages_well_framed(buf: Seq<u8>, display: u8, k: int)
    requires
        buf.len() == BUF_SIZE,
    ensures
        0 <= k < 24 ==> well_framed(frame_messages(buf, display)[k]),
        0 <= k < 22 ==> well_framed(init_messages(display)[k]),
{
    if 0 <= k < 22 {
        assert(INIT_COMMANDS@[k].0 <= 4);
    }
}

impl Default for Display {
    fn default() -> (r: Self)
        ensures
            r@ == Seq::new(BUF_SIZE as nat, |i: int| 0xffu8),
    {
        Display::new()
    }
}

impl Display {
    /// A framebuffer always has all its bytes.
    pub proof fn law_buffer_is_whole(&self)
        ensures
            self@.len() == BUF_SIZE,
    {
    }

    /// Starts black.
    pub fn new() -> (r: Self)
        ensures
            r@ == Seq::new(BUF_SIZE as nat, |i: int| 0xffu8),
            forall|x: int, y: int| on_screen(x, y) ==> #[trigger] pixel(r@, x, y) == 0,
    {
        let r = Display { buf: [0xff;BUF_SIZE] };
        assert(r@ =~= Seq::new(BUF_SIZE as nat, |i: int| 0xffu8));
        r
    }

    /// gray: 0 = dark, 31 = fully lit. Off the screen nothing happens.
    pub fn set_pixel(&mut self, x: usize, y: usize, gray: u8)
        ensures
            final(self)@.len() == BUF_SIZE,
            on_screen(x as int, y as int) ==> pixel(final(self)@, x as int, y as int)
                == shown_gray(gray),
            forall|px: int, py: int|
                on_screen(px, py) && !(px == x && py == y) ==> #[trigger] pixel(
                    final(self)@,
                    px,
                    py,
                ) == pixel(old(self)@, px, py),
            forall|k: int|
                0 <= k < 5440 ==> #[trigger] spare_bit(final(self)@, k) == spare_bit(
                    old(self)@,
                    k,
                ),
            !on_screen(x as int, y as int) ==> final(self)@ == old(self)@,
    {
        if x >= WIDTH || y >= HEIGHT {
            return;
        }
        let v: u8 = 31 - (if gray > 31 {
            31
        } else {
            gray
        });  // stored inverted
        let i: usize = y * ROW_BYTES + (x / 3) * 2;
        let ghost before = self.buf@;
        let (first, second) = with_slot(self.buf[i], self.buf[i + 1], x % 3, v);
        self.buf[i] = first;
        self.buf[i + 1] = second;
        proof {
            lemma_one_pair_changed(before, self.buf@, x as int, y as int);
        }
    }

    /// Set every pixel to one gray level; spare bits become 0.
    pub fn fill(&mut self, gray: u8)
        ensures
            final(self)@.len() == BUF_SIZE,
            forall|x: int, y: int|
                on_screen(x, y) ==> #[trigger] pixel(final(self)@, x, y) == shown_gray(gray),
            forall|k: int| 0 <= k < 5440 ==> #[trigger] spare_bit(final(self)@, k) == 0,
    {
        let v: u8 = 31 - (if gray > 31 {
            31
        } else {
            gray
        });
        let first: u8 = 8 * v + v / 4;
        let second: u8 = 64 * (v % 4) + v;
        let mut i: usize = 0;
        while i < BUF_SIZE
            invariant
                i <= BUF_SIZE,
                i % 2 == 0,
                forall|j: int|
                    0 <= j < i ==> #[trigger] self.buf@[j] == (if j % 2 == 0 {
                        first
                    } else {
                        second
                    }),
            decreases BUF_SIZE - i,
        {
            self.buf[i] = first;
            self.buf[i + 1] = second;
            i += 2;
        }
    }

    pub fn raw(&self) -> (r: &[u8; BUF_SIZE])
        ensures
            r@ == self@,
    {
        &self.buf
    }

    pub fn raw_mut(&mut self) -> (r: &mut [u8; BUF_SIZE])
        ensures
            (*r)@ == old(self)@,
            final(self)@ == (*final(r))@,
    {
        &mut self.buf
    }

    /// The `k`-th message that shows the framebuffer on `display`.
    pub fn frame_message(&self, display: u8, k: usize) -> (r: Vec<u8>)
        requires
            k < FRAME_MESSAGES,
        ensures
            r@ == frame_messages(self@, display)[k as int],
    {
        let d: u8 = 2 * (display % 128);
        let buf = self.buf.as_slice();
        let mut msg: Vec<u8> = Vec::new();
        if k == 0 {
            msg.extend_from_slice(&[d, 0x00, 0x03, 0x75, 0x00, 0x3F]);
        } else if k == 1 {
            msg.extend_from_slice(&[d, 0x00, 0x03, 0x15, 0x00, 0x54]);
        } else if k == 2 {
            msg.extend_from_slice(&[d, 0x01, 0xF7, 0x5C]);
            msg.extend_from_slice(&buf[0..CHUNK]);
        } else if k < 23 {
            msg.extend_from_slice(&[d + 1, 0x01, 0xF6]);
            msg.extend_from_slice(&buf[CHUNK * (k - 2)..CHUNK * (k - 1)]);
        } else {
            msg.extend_from_slice(&[d + 1, 0x01, 0x52]);
            msg.extend_from_slice(&buf[BUF_SIZE - LAST_CHUNK..BUF_SIZE]);
        }
        assert(msg@ =~= frame_messages(self@, display)[k as int]);
        msg
    }

    /// Send the whole framebuffer to `display` over a line: every message of
    /// the frame once and in order, and nothing more. A refused message is the
    /// last thing done.
    pub fn send_frame_on<E, W: FnMut(&[u8]) -> Result<(), E>, S>(
        &self,
        display: u8,
        line: Line<W, S>,
    ) -> (r: (Line<W, S>, Result<(), E>))
        requires
            forall|m: &[u8]| #[trigger] call_requires(line.writer(), (m,)),
        ensures
            r.0.writer() == line.writer(),
            r.0.sleeper() == line.sleeper(),
            match r.1 {
                Ok(()) => r.0.log() == line.log() + frame_steps(
                    self@,
                    display,
                    FRAME_MESSAGES as int,
                ),
                Err(e) => exists|k: int|
                    0 <= k < FRAME_MESSAGES && refused::<E, W>(
                        line.writer(),
                        #[trigger] frame_messages(self@, display)[k],
                        e,
                    ) && r.0.log() == (line.log() + frame_steps(self@, display, k)).push(
                        LineStep::Refused(frame_messages(self@, display)[k]),
                    ),
            },
            sent::<E, W>(line.writer(), frame_messages(self@, display), r.1),
    {
        let ghost msgs = frame_messages(self@, display);
        let ghost writer = line.writer();
        let ghost sleeper = line.sleeper();
        let ghost before = line.log();
        let mut at = line;
        let mut k: usize = 0;
        assert(before + frame_steps(self@, display, 0) =~= before);
        while k < FRAME_MESSAGES
            invariant
                k <= FRAME_MESSAGES,
                writer == line.writer(),
                sleeper == line.sleeper(),
                before == line.log(),
                at.writer() == writer,
                at.sleeper() == sleeper,
                at.log() == before + frame_steps(self@, display, k as int),
                msgs == frame_messages(self@, display),
                forall|m: &[u8]| #[trigger] call_requires(writer, (m,)),
                forall|j: int| 0 <= j < k ==> wrote::<E, W>(writer, #[trigger] msgs[j]),
            decreases FRAME_MESSAGES - k,
        {
            let msg = self.frame_message(display, k);
            let m = msg.as_slice();
            let (used, outcome) = at.write(m);
            at = used;
            assert(m@ == msgs[k as int] && call_ensures(writer, (m,), outcome));
            match outcome {
                Ok(()) => {
                    assert(wrote::<E, W>(writer, msgs[k as int]));
                },
                Err(e) => {
                    assert(refused::<E, W>(writer, msgs[k as int], e));
                    return (at, Err(e));
                },
            }
            assert(at.log() =~= before + frame_steps(self@, display, k + 1));
            k += 1;
        }
        (at, Ok(()))
    }

    /// Send the whole framebuffer to `display` (0 or 1) as EP 0x08 messages.
    /// That each message is written once is what `send_frame_on` states, which
    /// does all the work.
    pub fn send_frame<E, W: FnMut(&[u8]) -> Result<(), E>>(
        &self,
        display: u8,
        write: W,
    ) -> (r: Result<(), E>)
        requires
            forall|m: &[u8]| #[trigger] call_requires(write, (m,)),
        ensures
            sent::<E, W>(write, frame_messages(self@, display), r),
    {
        self.send_frame_on(display, Line::new(write, ())).1
    }
}

/// A brighter gray is never shown darker, up to the maximum each one is shown as
/// it is, and beyond it as the maximum.
pub proof fn law_gray_is_shown_up_to_the_maximum(a: u8, b: u8)
    requires
        a <= b,
    ensures
        shown_gray(a) <= shown_gray(b) <= 31,
        a < 32 ==> shown_gray(a) == a,
        b >= 31 ==> shown_gray(b) == 31,
{
}

/// The first byte of a message is twice its display, and odd exactly where it
/// goes on with the data of a frame.
pub proof fn law_messages_name_their_display(buf: Seq<u8>, display: u8, k: int)
    requires
        buf.len() == BUF_SIZE,
        display < 128,
    ensures
        0 <= k < 24 ==> ({
            let first = frame_messages(buf, display)[k][0];
            first / 2 == display && (first % 2 == 1 <==> k >= 3)
        }),
        0 <= k < 22 ==> init_messages(display)[k][0] == 2 * display,
{
}

/// The window commands select all rows and columns, the first data message is
/// the write command, and the payloads from there on are the framebuffer.
pub proof fn law_frame_payloads(buf: Seq<u8>, display: u8, k: int, i: int)
    requires
        buf.len() == BUF_SIZE,
    ensures
        frame_messages(buf, display)[0].skip(3) == seq![0x75u8, 0x00, 0x3F],
        frame_messages(buf, display)[1].skip(3) == seq![0x15u8, 0x00, 0x54],
        frame_messages(buf, display)[2][3] == 0x5C,
        k == 2 && 0 <= i < 502 ==> frame_messages(buf, display)[k][4 + i] == buf[i],
        3 <= k < 24 && 0 <= i < 502 && 502 * (k - 2) + i < 10880 ==> frame_messages(
            buf,
            display,
        )[k][3 + i] == buf[502 * (k - 2) + i],
{
    assert(frame_messages(buf, display)[0].skip(3) =~= seq![0x75u8, 0x00, 0x3F]);
    assert(frame_messages(buf, display)[1].skip(3) =~= seq![0x15u8, 0x00, 0x54]);
}

/// The init payloads of the panel, as its maker's driver sends them.
pub open spec fn panel_payloads() -> Seq<Seq<u8>> {
    seq![
        seq![0x30u8],
        seq![0xCAu8, 0x04, 0x0F, 0x00],
        seq![0xBBu8, 0x00],
        seq![0xD1u8],
        seq![0x94u8],
        seq![0x81u8, 0x1E, 0x02],
        seq![0x20u8, 0x08],
        seq![0x20u8, 0x0B],
        seq![0xA6u8],
        seq![0x31u8],
        seq![0x32u8, 0x00, 0x00, 0x05],
        seq![0x34u8],
        seq![0x30u8],
        seq![0xBCu8, 0x00, 0x01, 0x02],
        seq![0x75u8, 0x00, 0x3F],
        seq![0x15u8, 0x00, 0x54],
        seq![0x5Cu8],
        seq![0x25u8],
        seq![0xAFu8],
        seq![0xBCu8, 0x02, 0x01, 0x01],
        seq![0xA6u8],
        seq![0x81u8, 0x25, 0x02],
    ]
}

/// Init sends the panel's payloads, one by one, each behind its header, and
/// pauses after the second, sixth to eighth, eighteenth and nineteenth.
pub proof fn law_init_sends_the_panel_payloads(display: u8, k: int)
    requires
        0 <= k < 22,
    ensures
        init_messages(display)[k].skip(3) == panel_payloads()[k],
        INIT_COMMANDS@[k].2 == if k == 1 || 5 <= k <= 7 || k == 17 || k == 18 {
            20
        } else {
            0int
        },
{
    assert(init_messages(display)[k].skip(3) =~= panel_payloads()[k]);
}

/// Three neighbouring pixels fill a 16-bit word from its top, five inverted
/// bits each, with one bit to spare above the last. Words follow each other
/// along a row, and 170 bytes on is the next row.
pub proof fn law_three_pixels_to_a_word(buf: Seq<u8>, n: int, y: int)
    requires
        buf.len() == BUF_SIZE,
        0 <= n < 85,
        0 <= y < 64,
    ensures
        ({
            let i = 170 * y + 2 * n;
            256 * buf[i] + buf[i + 1] == 2048 * (31 - pixel(buf, 3 * n, y)) + 64 * (31 - pixel(
                buf,
                3 * n + 1,
                y,
            )) + 32 * spare_bit(buf, i / 2) + (31 - pixel(buf, 3 * n + 2, y))
        }),
{
    let i = 170 * y + 2 * n;
    assert(2 * (i / 2) == i);
    let (a, b) = (buf[i] as int, buf[i + 1] as int);
    assert(a == 8 * (a / 8) + a % 8);
    assert(b == 64 * (b / 64) + 32 * (b / 32 % 2) + b % 32);
}

/// The screen has 255 columns and 64 rows, and each of its pixels is one of 32
/// gray levels.
pub proof fn law_screen_is_255_by_64(buf: Seq<u8>, x: int, y: int)
    ensures
        on_screen(x, y) <==> 0 <= x <= 254 && 0 <= y <= 63,
        on_screen(x, y) ==> 0 <= pixel(buf, x, y) <= 31,
{
}

} // verus!
