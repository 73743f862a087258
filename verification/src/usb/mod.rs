//! The USB side of the controller: packets, control transfers and the attached devices.
pub mod control;
pub mod hid;

use vstd::prelude::*;

use control::{Answer, ControlEndpoint};
pub use control::{SetupPacket, UsbPacketResult};
use hid::keyboard::{HidKeyboard, Keyboard};
use hid::mouse::{HidMouse, Mouse};

verus! {

/// The kind of a token packet.
#[derive(Clone, Copy, Debug, PartialEq, Eq, Structural)]
pub enum UsbPid {
    Setup,
    In,
    Out,
}

/// A device on the bus. The spec functions say what its methods do to its state.
pub trait UsbDevice: View {
    spec fn device_valid(&self) -> bool;

    spec fn reset_to(device: Self::V) -> Self::V;

    spec fn address_of(device: Self::V) -> u8;

    spec fn answered(
        device: Self::V,
        pid: UsbPid,
        endpoint: u8,
        data: Seq<u8>,
        max_length: nat,
    ) -> (Self::V, Answer);

    fn reset(&mut self)
        requires
            old(self).device_valid(),
        ensures
            final(self).device_valid(),
            final(self)@ == Self::reset_to(old(self)@),
    ;

    fn address(&self) -> (r: u8)
        ensures
            r == Self::address_of(self@),
    ;

    fn packet(&mut self, pid: UsbPid, endpoint: u8, data: &[u8], max_length: usize) -> (r:
        UsbPacketResult)
        requires
            old(self).device_valid(),
        ensures
            final(self).device_valid(),
            (final(self)@, r@) == Self::answered(
                old(self)@,
                pid,
                endpoint,
                data@,
                max_length as nat,
            ),
    ;
}

/// Gives `device` one packet of its control pipe.
pub fn control_packet<D: control::ControlDevice>(
    control: &mut ControlEndpoint,
    device: &mut D,
    pid: UsbPid,
    data: &[u8],
    max_length: usize,
) -> (r: UsbPacketResult)
    requires
        old(control).valid(),
        old(device).valid(),
    ensures
        final(control).valid(),
        final(device).valid(),
        (final(control)@, final(device)@, r@) == control::control_step::<D>(
            old(control)@,
            old(device)@,
            pid,
            data@,
            max_length as nat,
        ),
{
    control.packet(device, pid, data, max_length)
}

/// The state of the two devices of the bus.
pub struct Bus {
    pub keyboard: Keyboard,
    pub mouse: Mouse,
}

impl Bus {
    pub open spec fn powered_on() -> Bus {
        Bus { keyboard: Keyboard::powered_on(), mouse: Mouse::powered_on() }
    }

    /// The address of the device behind a port: the keyboard at port 0, the mouse at port 1.
    pub open spec fn address(self, port: usize) -> Option<u8> {
        if port == 0 {
            Some(self.keyboard.address)
        } else if port == 1 {
            Some(self.mouse.address)
        } else {
            None
        }
    }

    pub open spec fn after_reset_port(self, port: usize) -> Bus {
        if port == 0 {
            Bus { keyboard: self.keyboard.after_reset(), ..self }
        } else if port == 1 {
            Bus { mouse: self.mouse.after_reset(), ..self }
        } else {
            self
        }
    }

    pub open spec fn after_packet(
        self,
        port: usize,
        pid: UsbPid,
        endpoint: u8,
        data: Seq<u8>,
        max_length: nat,
    ) -> (Bus, Answer) {
        if port == 0 {
            let (keyboard, answer) = self.keyboard.after_packet(pid, endpoint, data, max_length);
            (Bus { keyboard, ..self }, answer)
        } else if port == 1 {
            let (mouse, answer) = self.mouse.after_packet(pid, endpoint, data, max_length);
            (Bus { mouse, ..self }, answer)
        } else {
            (self, Answer::NoDevice)
        }
    }

    pub open spec fn after_release_all(self) -> Bus {
        Bus {
            keyboard: self.keyboard.after_release_all(),
            mouse: self.mouse.after_release_all(),
        }
    }
}

/// The keyboard and the mouse behind the two ports of the controller.
pub struct UsbBus {
    keyboard: HidKeyboard,
    mouse: HidMouse,
}

impl View for UsbBus {
    type V = Bus;

    closed spec fn view(&self) -> Bus {
        Bus { keyboard: self.keyboard@, mouse: self.mouse@ }
    }
}

impl UsbBus {
    pub closed spec fn valid(&self) -> bool {
        self.keyboard.device_valid() && self.mouse.device_valid()
    }

    pub fn new() -> (r: Self)
        ensures
            r.valid(),
            r@ == Bus::powered_on(),
    {
        UsbBus { keyboard: HidKeyboard::new(), mouse: HidMouse::new() }
    }

    pub fn reset_port(&mut self, port: usize)
        requires
            old(self).valid(),
        ensures
            final(self).valid(),
            final(self)@ == old(self)@.after_reset_port(port),
    {
        if port == 0 {
            self.keyboard.reset();
        } else if port == 1 {
            self.mouse.reset();
        }
    }

    pub fn address(&self, port: usize) -> (r: Option<u8>)
        ensures
            r == self@.address(port),
    {
        if port == 0 {
            Some(self.keyboard.address())
        } else if port == 1 {
            Some(self.mouse.address())
        } else {
            None
        }
    }

    pub fn packet(
        &mut self,
        port: usize,
        pid: UsbPid,
        endpoint: u8,
        data: &[u8],
        max_length: usize,
    ) -> (r: UsbPacketResult)
        requires
            old(self).valid(),
        ensures
            final(self).valid(),
            (final(self)@, r@) == old(self)@.after_packet(
                port,
                pid,
                endpoint,
                data@,
                max_length as nat,
            ),
    {
        if port == 0 {
            self.keyboard.packet(pid, endpoint, data, max_length)
        } else if port == 1 {
            self.mouse.packet(pid, endpoint, data, max_length)
        } else {
            UsbPacketResult::NoDevice
        }
    }

    pub fn key(&mut self, usage: u8, pressed: bool)
        requires
            old(self).valid(),
        ensures
            final(self).valid(),
            final(self)@ == (Bus {
                keyboard: old(self)@.keyboard.after_key(usage, pressed),
                ..old(self)@
            }),
    {
        self.keyboard.key(usage, pressed);
    }

    pub fn mouse(&mut self, dx: i32, dy: i32, wheel: i16, buttons: u8)
        requires
            old(self).valid(),
        ensures
            final(self).valid(),
            final(self)@ == (Bus {
                mouse: old(self)@.mouse.after_update(dx, dy, wheel, buttons),
                ..old(self)@
            }),
    {
        self.mouse.update(dx, dy, wheel, buttons);
    }

    pub fn release_all(&mut self)
        requires
            old(self).valid(),
        ensures
            final(self).valid(),
            final(self)@ == old(self)@.after_release_all(),
    {
        self.keyboard.release_all();
        self.mouse.release_all();
    }

    pub fn keyboard_leds(&self) -> (r: u8)
        ensures
            r == self@.keyboard.leds,
    {
        self.keyboard.leds()
    }

    /// Takes the oldest keyboard report.
    pub fn take_keyboard_report(&mut self) -> (r: Option<[u8; 8]>)
        requires
            old(self).valid(),
        ensures
            final(self).valid(),
            final(self)@ == (Bus {
                keyboard: old(self)@.keyboard.after_next_report().0,
                ..old(self)@
            }),
            r == old(self)@.keyboard.after_next_report().1,
    {
        self.keyboard.next_report()
    }

    /// Takes the next mouse report.
    pub fn take_mouse_report(&mut self) -> (r: Option<Vec<u8>>)
        requires
            old(self).valid(),
        ensures
            final(self).valid(),
            final(self)@ == (Bus {
                mouse: old(self)@.mouse.after_next_report().0,
                ..old(self)@
            }),
            match (r, old(self)@.mouse.after_next_report().1) {
                (Some(report), Some(bytes)) => report@ == bytes,
                (None, None) => true,
                _ => false,
            },
    {
        self.mouse.next_report()
    }
}

impl Default for UsbBus {
    fn default() -> (r: Self)
        ensures
            r.valid(),
            r@ == Bus::powered_on(),
    {
        Self::new()
    }
}

} // verus!
