//! Protocol codecs and controller logic for the NI Maschine Mk1 (USB 17cc:0808).
//!
//! Everything here computes on plain values: packets in, packets out, no I/O.
//! A USB host driver, the standalone controller firmware and the desktop
//! bridge all sit on top of it.

use vstd::prelude::*;

pub mod attach;
pub mod boot;
pub mod bridge;
pub mod bridge_laws;
pub mod config;
pub mod control_laws;
pub mod controls;
pub mod display;
pub mod engine;
pub mod engine_laws;
pub mod input;
pub mod input_laws;
pub mod leds;
pub mod line;
pub mod osc;
pub mod patterns;
pub mod portal;
pub mod profile;
pub mod text;
pub mod usb;
pub mod usb_laws;
pub mod web;

verus! {

pub const VENDOR_ID: u16 = 0x17cc;

pub const PRODUCT_ID: u16 = 0x0808;

/// Interface 0 must be switched to alt setting 1 before anything else.
pub const INTERFACE: u8 = 0;

pub const ALT_SETTING: u8 = 1;

pub const EP_COMMAND_OUT: u8 = 0x01;

pub const EP_COMMAND_IN: u8 = 0x81;

pub const EP_PADS_IN: u8 = 0x84;

pub const EP_DISPLAY_OUT: u8 = 0x08;

/// EP1 messages are at most this long.
pub const EP1_BUFSIZE: usize = 64;

pub const CMD_GET_DEVICE_INFO: u8 = 0x01;

pub const CMD_READ_ERP: u8 = 0x02;

pub const CMD_READ_ANALOG: u8 = 0x03;

pub const CMD_READ_IO: u8 = 0x04;

pub const CMD_WRITE_IO: u8 = 0x05;

pub const CMD_MIDI_READ: u8 = 0x06;

pub const CMD_MIDI_WRITE: u8 = 0x07;

pub const CMD_AUTO_MSG: u8 = 0x0b;

pub const CMD_DIMM_LEDS: u8 = 0x0c;

/// Ask the device to identify itself.
pub fn get_device_info() -> (r: [u8; 1])
    ensures
        r@ == seq![CMD_GET_DEVICE_INFO],
{
    [CMD_GET_DEVICE_INFO]
}

/// Enable periodic input reports. The kernel driver uses (1, 10, 5).
pub fn auto_msg(digital: u8, analog: u8, erp: u8) -> (r: [u8; 4])
    ensures
        r@ == seq![CMD_AUTO_MSG, digital, analog, erp],
{
    [CMD_AUTO_MSG, digital, analog, erp]
}

/// The DIN MIDI OUT message for `data`: command, port 0, length, and as much
/// of the data as one EP1 message holds.
pub open spec fn midi_message(data: Seq<u8>) -> Seq<u8> {
    let len = if data.len() < EP1_BUFSIZE - 3 {
        data.len() as int
    } else {
        EP1_BUFSIZE - 3
    };
    seq![CMD_MIDI_WRITE, 0u8, len as u8] + data.take(len)
}

/// Encode a DIN MIDI OUT message into `out`; returns the byte count to send.
/// Data longer than one EP1 message must be split by the caller.
pub fn midi_write(data: &[u8], out: &mut [u8; EP1_BUFSIZE]) -> (n: usize)
    ensures
        n == midi_message(data@).len(),
        n <= EP1_BUFSIZE,
        final(out)@ == midi_message(data@) + old(out)@.skip(n as int),
{
    let room: usize = EP1_BUFSIZE - 3;
    let len: usize = if data.len() < room {
        data.len()
    } else {
        room
    };
    out[0] = CMD_MIDI_WRITE;
    out[1] = 0;  // port
    out[2] = len as u8;
    let mut i: usize = 0;
    while i < len
        invariant
            i <= len <= EP1_BUFSIZE - 3,
            len <= data@.len(),
            out@.len() == EP1_BUFSIZE,
            out@.take(3) == seq![CMD_MIDI_WRITE, 0u8, len as u8],
            forall|j: int| 0 <= j < i ==> out@[3 + j] == data@[j],
            forall|j: int| 3 + i <= j < EP1_BUFSIZE ==> out@[j] == old(out)@[j],
        decreases len - i,
    {
        let ghost before = out@;
        out[3 + i] = data[i];
        assert(out@.take(3) == before.take(3));
        i += 1;
    }
    assert(out@ == midi_message(data@) + old(out)@.skip(len + 3)) by {
        assert forall|j: int| 0 <= j < EP1_BUFSIZE implies out@[j] == (midi_message(data@) + old(
            out,
        )@.skip(len + 3))[j] by {
            if j < 3 {
                assert(out@[j] == out@.take(3)[j]);
            } else if j < 3 + len {
                assert(out@[3 + (j - 3)] == data@[j - 3]);
            }
        }
    }
    len + 3
}

/// Reply payload of GET_DEVICE_INFO.
#[derive(Debug, Clone, Copy, PartialEq, Eq, Structural)]
pub struct DeviceInfo {
    pub fw_version: u16,
    pub hw_subtype: u8,
    pub num_erp: u8,
    pub num_analog_in: u8,
    pub num_digital_in: u8,
    pub num_digital_out: u8,
    pub num_midi_out: u8,
    pub num_midi_in: u8,
}

/// What the 13 leading bytes of a GET_DEVICE_INFO reply say; a shorter reply
/// says nothing.
pub open spec fn device_info(p: Seq<u8>) -> Option<DeviceInfo> {
    if p.len() < 13 {
        None
    } else {
        Some(
            DeviceInfo {
                fw_version: (p[0] + 256 * p[1]) as u16,
                hw_subtype: p[2],
                num_erp: p[3],
                num_analog_in: p[4],
                num_digital_in: p[5],
                num_digital_out: p[6],
                num_midi_out: p[11],
                num_midi_in: p[12],
            },
        )
    }
}

impl DeviceInfo {
    /// Parse from the reply payload (bytes after the command byte).
    pub fn parse(p: &[u8]) -> (r: Option<Self>)
        ensures
            r == device_info(p@),
    {
        if p.len() < 13 {
            return None;
        }
        Some(
            DeviceInfo {
                fw_version: p[0] as u16 + 256 * (p[1] as u16),
                hw_subtype: p[2],
                num_erp: p[3],
                num_analog_in: p[4],
                num_digital_in: p[5],
                num_digital_out: p[6],
                num_midi_out: p[11],
                num_midi_in: p[12],
            },
        )
    }
}

/// A DIN MIDI message carries its data whole, up to what one EP1 message holds,
/// behind the command, the port and the length of the data.
pub proof fn law_midi_message_carries_its_data(data: Seq<u8>)
    ensures
        midi_message(data)[0] == 0x07,
        midi_message(data)[1] == 0,
        midi_message(data)[2] == midi_message(data).len() - 3,
        data.len() <= 61 ==> midi_message(data).skip(3) == data,
        data.len() > 61 ==> midi_message(data).skip(3) == data.take(61),
{
    let len = if data.len() < 61 {
        data.len() as int
    } else {
        61
    };
    assert(midi_message(data).skip(3) =~= data.take(len));
    if data.len() <= 61 {
        assert(data.take(len) =~= data);
    }
}

/// The commands of the first endpoint are numbered from 1 to 7 in this order,
/// and 11 and 12.
pub proof fn law_commands_are_numbered()
    ensures
        seq![
            CMD_GET_DEVICE_INFO,
            CMD_READ_ERP,
            CMD_READ_ANALOG,
            CMD_READ_IO,
            CMD_WRITE_IO,
            CMD_MIDI_READ,
            CMD_MIDI_WRITE,
            CMD_AUTO_MSG,
            CMD_DIMM_LEDS,
        ] == seq![1u8, 2, 3, 4, 5, 6, 7, 11, 12],
{
}

/// The device's ids, and its endpoints: commands go out and come in on number 1,
/// pads come in on 4 and frames go out on 8, in alt setting 1 of interface 0.
pub proof fn law_device_is_addressed()
    ensures
        VENDOR_ID == 6092 && PRODUCT_ID == 2056,
        INTERFACE == 0 && ALT_SETTING == 1,
        EP_COMMAND_OUT == 1 && EP_COMMAND_IN == 128 + EP_COMMAND_OUT,
        EP_PADS_IN == 128 + 4,
        EP_DISPLAY_OUT == 8,
        EP1_BUFSIZE == 64,
{
}

} // verus!
