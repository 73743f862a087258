//! A three-button wheel mouse.
use vstd::prelude::*;

use std::collections::VecDeque;

use crate::bytes::range_of;
use crate::usb::control::{
    Answer, ControlDevice, ControlEndpoint, ControlResponse, Response, SetupPacket, Stage,
    UsbPacketResult, HID_GET_IDLE, HID_GET_PROTOCOL, HID_GET_REPORT, HID_SET_IDLE,
    HID_SET_PROTOCOL, REQUEST_CLEAR_FEATURE, REQUEST_GET_CONFIGURATION, REQUEST_GET_DESCRIPTOR,
    REQUEST_GET_INTERFACE, REQUEST_GET_STATUS, REQUEST_SET_ADDRESS, REQUEST_SET_CONFIGURATION,
    REQUEST_SET_FEATURE, REQUEST_SET_INTERFACE,
};
use crate::usb::hid::{
    configuration_descriptor, device_descriptor, hid_descriptor, DESCRIPTOR_CONFIGURATION,
    DESCRIPTOR_DEVICE, DESCRIPTOR_HID, DESCRIPTOR_REPORT, REQUEST_TYPE_CLASS,
    REQUEST_TYPE_STANDARD,
};
use crate::usb::{UsbDevice, UsbPid};

verus! {

pub const REPORT_DESCRIPTOR: [u8; 52] = [
    0x05, 0x01, 0x09, 0x02, 0xa1, 0x01, 0x09, 0x01, 0xa1, 0x00, 0x05, 0x09, 0x19, 0x01, 0x29, 0x03,
    0x15, 0x00, 0x25, 0x01, 0x95, 0x03, 0x75, 0x01, 0x81, 0x02, 0x95, 0x01, 0x75, 0x05, 0x81, 0x01,
    0x05, 0x01, 0x09, 0x30, 0x09, 0x31, 0x09, 0x38, 0x15, 0x81, 0x25, 0x7f, 0x75, 0x08, 0x95, 0x03,
    0x81, 0x06, 0xc0, 0xc0,
];

pub const PRODUCT_ID: u16 = 0x0101;
pub const PROTOCOL_REPORT: u8 = 1;
pub const MAX_BUTTON_REPORTS: usize = 64;

/// The mouse's state: motion that no report has carried yet, and the button states that
/// are still to be reported.
#[verifier::ext_equal]
pub struct Mouse {
    pub address: u8,
    pub configuration: u8,
    pub protocol: u8,
    pub idle: u8,
    pub buttons: u8,
    pub reported_buttons: u8,
    pub button_reports: Seq<u8>,
    pub pending_dx: i64,
    pub pending_dy: i64,
    pub pending_wheel: i64,
    pub control: Stage,
}

/// `x` limited to the values of an `i64`.
pub open spec fn saturated(x: int) -> i64 {
    if x > i64::MAX {
        i64::MAX
    } else if x < i64::MIN {
        i64::MIN
    } else {
        x as i64
    }
}

/// The part of a pending motion that one report carries.
pub open spec fn portion(pending: i64) -> i8 {
    if pending > 127 {
        127
    } else if pending < -127 {
        (-127) as i8
    } else {
        pending as i8
    }
}

/// What a report leaves of a pending motion.
pub open spec fn remainder(pending: i64) -> i64 {
    (pending - portion(pending)) as i64
}

impl Mouse {
    /// The state of a mouse that was just attached.
    pub open spec fn powered_on() -> Mouse {
        Mouse {
            address: 0,
            configuration: 0,
            protocol: PROTOCOL_REPORT,
            idle: 0,
            buttons: 0,
            reported_buttons: 0,
            button_reports: Seq::empty(),
            pending_dx: 0,
            pending_dy: 0,
            pending_wheel: 0,
            control: Stage::Idle,
        }
    }

    /// The button state that the host has seen once every queued report is read.
    pub open spec fn queued_buttons(self) -> u8 {
        if self.button_reports.len() == 0 {
            self.reported_buttons
        } else {
            self.button_reports.last()
        }
    }

    pub open spec fn after_update(self, dx: i32, dy: i32, wheel: i16, buttons: u8) -> Mouse {
        let pressed = buttons & 0x07;
        let moved = Mouse {
            pending_dx: saturated(self.pending_dx + dx),
            pending_dy: saturated(self.pending_dy + dy),
            pending_wheel: saturated(self.pending_wheel + wheel),
            buttons: pressed,
            ..self
        };
        if self.buttons == pressed || self.queued_buttons() == pressed {
            moved
        } else {
            let kept = if self.button_reports.len() == MAX_BUTTON_REPORTS {
                self.button_reports.skip(1)
            } else {
                self.button_reports
            };
            Mouse { button_reports: kept.push(pressed), ..moved }
        }
    }

    pub open spec fn after_release_all(self) -> Mouse {
        Mouse {
            pending_dx: 0,
            pending_dy: 0,
            pending_wheel: 0,
            buttons: 0,
            button_reports: if self.reported_buttons != 0 {
                seq![0u8]
            } else {
                Seq::empty()
            },
            ..self
        }
    }

    /// Whether there is nothing to report.
    pub open spec fn quiet(self) -> bool {
        self.button_reports.len() == 0 && self.pending_dx == 0 && self.pending_dy == 0
            && self.pending_wheel == 0
    }

    /// The buttons that the next report carries.
    pub open spec fn next_buttons(self) -> u8 {
        if self.button_reports.len() == 0 {
            self.buttons
        } else {
            self.button_reports[0]
        }
    }

    /// A report with this motion; the boot protocol has no wheel.
    pub open spec fn report(self, buttons: u8, dx: i8, dy: i8, wheel: i8) -> Seq<u8> {
        if self.protocol == PROTOCOL_REPORT {
            seq![buttons, dx as u8, dy as u8, wheel as u8]
        } else {
            seq![buttons, dx as u8, dy as u8]
        }
    }

    pub open spec fn after_next_report(self) -> (Mouse, Option<Seq<u8>>) {
        if self.quiet() {
            (self, None)
        } else {
            (
                Mouse {
                    button_reports: if self.button_reports.len() == 0 {
                        self.button_reports
                    } else {
                        self.button_reports.skip(1)
                    },
                    reported_buttons: self.next_buttons(),
                    pending_dx: remainder(self.pending_dx),
                    pending_dy: remainder(self.pending_dy),
                    pending_wheel: remainder(self.pending_wheel),
                    ..self
                },
                Some(
                    self.report(
                        self.next_buttons(),
                        portion(self.pending_dx),
                        portion(self.pending_dy),
                        portion(self.pending_wheel),
                    ),
                ),
            )
        }
    }

    pub open spec fn after_reset(self) -> Mouse {
        Mouse {
            address: 0,
            configuration: 0,
            protocol: PROTOCOL_REPORT,
            idle: 0,
            control: Stage::Idle,
            reported_buttons: 0,
            button_reports: if self.buttons != 0 {
                seq![self.buttons]
            } else {
                Seq::empty()
            },
            pending_dx: 0,
            pending_dy: 0,
            pending_wheel: 0,
            ..self
        }
    }

    /// What the mouse answers to a setup packet.
    pub open spec fn response(self, setup: SetupPacket) -> Response {
        if setup.kind() == REQUEST_TYPE_STANDARD {
            if setup.request == REQUEST_GET_DESCRIPTOR && setup.reads() {
                let descriptor = (setup.value >> 8) as u8;
                if descriptor == DESCRIPTOR_DEVICE {
                    Response::Data(crate::usb::hid::device_descriptor_bytes(PRODUCT_ID))
                } else if descriptor == DESCRIPTOR_CONFIGURATION {
                    Response::Data(crate::usb::hid::configuration_descriptor_bytes(2, 52, 4))
                } else if descriptor == DESCRIPTOR_HID {
                    Response::Data(crate::usb::hid::hid_descriptor_bytes(52))
                } else if descriptor == DESCRIPTOR_REPORT {
                    Response::Data(REPORT_DESCRIPTOR@)
                } else {
                    Response::Stall
                }
            } else if setup.request == REQUEST_GET_STATUS && setup.reads() {
                Response::Data(seq![0u8, 0u8])
            } else if setup.request == REQUEST_GET_CONFIGURATION && setup.reads() {
                Response::Data(seq![self.configuration])
            } else if setup.request == REQUEST_GET_INTERFACE && setup.reads() {
                Response::Data(seq![0u8])
            } else if setup.request == REQUEST_SET_ADDRESS || setup.request
                == REQUEST_SET_CONFIGURATION || setup.request == REQUEST_CLEAR_FEATURE
                || setup.request == REQUEST_SET_FEATURE || setup.request == REQUEST_SET_INTERFACE {
                Response::Ack
            } else {
                Response::Stall
            }
        } else if setup.kind() == REQUEST_TYPE_CLASS {
            if setup.request == HID_GET_REPORT && setup.reads() {
                Response::Data(self.report(self.buttons, 0, 0, 0))
            } else if setup.request == HID_GET_IDLE && setup.reads() {
                Response::Data(seq![self.idle])
            } else if setup.request == HID_GET_PROTOCOL && setup.reads() {
                Response::Data(seq![self.protocol])
            } else if setup.request == HID_SET_IDLE || setup.request == HID_SET_PROTOCOL {
                Response::Ack
            } else {
                Response::Stall
            }
        } else {
            Response::Stall
        }
    }

    /// The mouse after the status stage of a request, and whether it accepts the request.
    pub open spec fn after_request(self, setup: SetupPacket) -> (Mouse, bool) {
        if setup.kind() == REQUEST_TYPE_STANDARD {
            if setup.request == REQUEST_SET_ADDRESS && setup.value <= 127 {
                (Mouse { address: setup.value as u8, ..self }, true)
            } else if setup.request == REQUEST_SET_CONFIGURATION && setup.value <= 1 {
                (Mouse { configuration: setup.value as u8, ..self }, true)
            } else {
                (
                    self,
                    setup.request == REQUEST_CLEAR_FEATURE || setup.request == REQUEST_SET_FEATURE
                        || setup.request == REQUEST_SET_INTERFACE,
                )
            }
        } else if setup.kind() == REQUEST_TYPE_CLASS {
            if setup.request == HID_SET_IDLE {
                (Mouse { idle: (setup.value >> 8) as u8, ..self }, true)
            } else if setup.request == HID_SET_PROTOCOL && setup.value <= 1 {
                (Mouse { protocol: setup.value as u8, ..self }, true)
            } else {
                (self, false)
            }
        } else {
            (self, false)
        }
    }

    /// The mouse after a packet to one of its endpoints, and its answer.
    pub open spec fn after_packet(
        self,
        pid: UsbPid,
        endpoint: u8,
        data: Seq<u8>,
        max_length: nat,
    ) -> (Mouse, Answer) {
        if endpoint == 0 {
            let (stage, mouse, answer) = crate::usb::control::control_step::<HidMouse>(
                self.control,
                Mouse { control: Stage::Idle, ..self },
                pid,
                data,
                max_length,
            );
            (Mouse { control: stage, ..mouse }, answer)
        } else if endpoint == 1 && pid == UsbPid::In && self.configuration != 0 {
            let (mouse, report) = self.after_next_report();
            match report {
                None => (mouse, Answer::Nak),
                Some(bytes) => (
                    mouse,
                    Answer::Success(
                        if max_length < bytes.len() {
                            bytes.take(max_length as int)
                        } else {
                            bytes
                        },
                    ),
                ),
            }
        } else {
            (self, Answer::Stall)
        }
    }
}

pub struct HidMouse {
    pub address: u8,
    pub configuration: u8,
    pub protocol: u8,
    pub idle: u8,
    pub buttons: u8,
    pub reported_buttons: u8,
    pub button_reports: VecDeque<u8>,
    pub pending_dx: i64,
    pub pending_dy: i64,
    pub pending_wheel: i64,
    pub control: ControlEndpoint,
}

impl View for HidMouse {
    type V = Mouse;

    open spec fn view(&self) -> Mouse {
        Mouse {
            address: self.address,
            configuration: self.configuration,
            protocol: self.protocol,
            idle: self.idle,
            buttons: self.buttons,
            reported_buttons: self.reported_buttons,
            button_reports: self.button_reports@,
            pending_dx: self.pending_dx,
            pending_dy: self.pending_dy,
            pending_wheel: self.pending_wheel,
            control: self.control@,
        }
    }
}

/// `value + delta`, limited to the values of an `i64`.
fn saturating_sum(value: i64, delta: i64) -> (r: i64)
    ensures
        r == saturated(value + delta),
{
    match value.checked_add(delta) {
        Some(sum) => sum,
        None => if delta > 0 {
            i64::MAX
        } else {
            i64::MIN
        },
    }
}

/// Takes from a pending motion what fits in one report.
pub fn take_delta(value: &mut i64) -> (r: i8)
    ensures
        r == portion(*old(value)),
        *final(value) == remainder(*old(value)),
        *final(value) + r == *old(value),
{
    let part: i64 = if *value > 127 {
        127
    } else if *value < -127 {
        -127
    } else {
        *value
    };
    *value = *value - part;
    part as i8
}

impl HidMouse {
    pub fn new() -> (r: Self)
        ensures
            r.valid(),
            r@ == Mouse::powered_on(),
    {
        HidMouse {
            address: 0,
            configuration: 0,
            protocol: PROTOCOL_REPORT,
            idle: 0,
            buttons: 0,
            reported_buttons: 0,
            button_reports: VecDeque::new(),
            pending_dx: 0,
            pending_dy: 0,
            pending_wheel: 0,
            control: ControlEndpoint::new(),
        }
    }

    /// Adds motion and sets the buttons. Each change of the buttons is queued, so that a
    /// quick press and release are both reported.
    pub fn update(&mut self, dx: i32, dy: i32, wheel: i16, buttons: u8)
        requires
            old(self).valid(),
        ensures
            final(self).valid(),
            final(self)@ == old(self)@.after_update(dx, dy, wheel, buttons),
    {
        self.pending_dx = saturating_sum(self.pending_dx, dx as i64);
        self.pending_dy = saturating_sum(self.pending_dy, dy as i64);
        self.pending_wheel = saturating_sum(self.pending_wheel, wheel as i64);
        let pressed: u8 = buttons & 0x07;
        if self.buttons != pressed {
            self.buttons = pressed;
            let n: usize = self.button_reports.len();
            let queued: u8 = if n == 0 {
                self.reported_buttons
            } else {
                self.button_reports[n - 1]
            };
            if queued != pressed {
                if n == MAX_BUTTON_REPORTS {
                    let ghost before = self.button_reports@;
                    let _ = self.button_reports.pop_front();
                    assert(self.button_reports@ =~= before.skip(1));
                }
                self.button_reports.push_back(pressed);
            }
        }
    }

    /// Releases every button and drops the motion that was not reported.
    pub fn release_all(&mut self)
        requires
            old(self).valid(),
        ensures
            final(self).valid(),
            final(self)@ == old(self)@.after_release_all(),
    {
        self.pending_dx = 0;
        self.pending_dy = 0;
        self.pending_wheel = 0;
        self.buttons = 0;
        self.button_reports.clear();
        if self.reported_buttons != 0 {
            self.button_reports.push_back(0);
            assert(self.button_reports@ =~= seq![0u8]);
        }
    }

    /// Builds the next report and takes what it carries.
    pub fn next_report(&mut self) -> (r: Option<Vec<u8>>)
        requires
            old(self).valid(),
        ensures
            final(self).valid(),
            final(self)@ == old(self)@.after_next_report().0,
            match (r, old(self)@.after_next_report().1) {
                (Some(report), Some(bytes)) => report@ == bytes,
                (None, None) => true,
                _ => false,
            },
    {
        if self.button_reports.len() == 0 && self.pending_dx == 0 && self.pending_dy == 0
            && self.pending_wheel == 0 {
            return None;
        }
        let ghost queue = self.button_reports@;
        let buttons: u8 = match self.button_reports.pop_front() {
            Some(buttons) => buttons,
            None => self.buttons,
        };
        assert(queue.len() > 0 ==> self.button_reports@ =~= queue.skip(1));
        let dx: i8 = take_delta(&mut self.pending_dx);
        let dy: i8 = take_delta(&mut self.pending_dy);
        let wheel: i8 = take_delta(&mut self.pending_wheel);
        self.reported_buttons = buttons;
        let mut report: Vec<u8> = vec![buttons, dx as u8, dy as u8];
        if self.protocol == PROTOCOL_REPORT {
            report.push(wheel as u8);
        }
        assert(report@ =~= self@.report(buttons, dx, dy, wheel));
        Some(report)
    }

    fn current_report(&self) -> (r: Vec<u8>)
        ensures
            r@ == self@.report(self.buttons, 0, 0, 0),
    {
        let mut report: Vec<u8> = vec![self.buttons, 0, 0];
        if self.protocol == PROTOCOL_REPORT {
            report.push(0);
        }
        assert(report@ =~= self@.report(self.buttons, 0, 0, 0));
        report
    }

    fn control_packet(&mut self, pid: UsbPid, data: &[u8], max_length: usize) -> (r:
        UsbPacketResult)
        requires
            old(self).valid(),
        ensures
            final(self).valid(),
            (final(self)@, r@) == old(self)@.after_packet(pid, 0, data@, max_length as nat),
    {
        let mut control = ControlEndpoint::new();
        std::mem::swap(&mut control, &mut self.control);
        let result = crate::usb::control_packet(&mut control, self, pid, data, max_length);
        self.control = control;
        result
    }
}

impl Default for HidMouse {
    fn default() -> (r: Self)
        ensures
            r.valid(),
            r@ == Mouse::powered_on(),
    {
        Self::new()
    }
}

impl UsbDevice for HidMouse {
    open spec fn device_valid(&self) -> bool {
        self.valid()
    }

    open spec fn reset_to(device: Mouse) -> Mouse {
        device.after_reset()
    }

    open spec fn address_of(device: Mouse) -> u8 {
        device.address
    }

    open spec fn answered(
        device: Mouse,
        pid: UsbPid,
        endpoint: u8,
        data: Seq<u8>,
        max_length: nat,
    ) -> (Mouse, Answer) {
        device.after_packet(pid, endpoint, data, max_length)
    }

    fn reset(&mut self) {
        self.address = 0;
        self.configuration = 0;
        self.protocol = PROTOCOL_REPORT;
        self.idle = 0;
        self.control.reset();
        self.reported_buttons = 0;
        self.button_reports.clear();
        if self.buttons != 0 {
            self.button_reports.push_back(self.buttons);
            assert(self.button_reports@ =~= seq![self.buttons]);
        }
        self.pending_dx = 0;
        self.pending_dy = 0;
        self.pending_wheel = 0;
    }

    fn address(&self) -> u8 {
        self.address
    }

    fn packet(&mut self, pid: UsbPid, endpoint: u8, data: &[u8], max_length: usize) -> (r:
        UsbPacketResult) {
        if endpoint == 0 {
            self.control_packet(pid, data, max_length)
        } else if endpoint == 1 && pid == UsbPid::In && self.configuration != 0 {
            match self.next_report() {
                None => UsbPacketResult::Nak,
                Some(report) => {
                    let end: usize = if max_length < report.len() {
                        max_length
                    } else {
                        report.len()
                    };
                    let bytes = range_of(&report, 0, end);
                    assert(bytes@ =~= if max_length < report@.len() {
                        report@.take(max_length as int)
                    } else {
                        report@
                    });
                    UsbPacketResult::Success(bytes)
                },
            }
        } else {
            UsbPacketResult::Stall
        }
    }
}

impl ControlDevice for HidMouse {
    open spec fn valid(&self) -> bool {
        &&& self.button_reports@.len() <= MAX_BUTTON_REPORTS
        &&& self.control.valid()
    }

    open spec fn prepared(device: Mouse, setup: SetupPacket) -> (Mouse, Response) {
        (device, device.response(setup))
    }

    open spec fn completed(device: Mouse, setup: SetupPacket, data: Seq<u8>) -> (Mouse, bool) {
        device.after_request(setup)
    }

    fn prepare_control(&mut self, setup: SetupPacket) -> (r: ControlResponse) {
        let kind: u8 = setup.request_kind();
        let reads = setup.direction_in();
        let request: u8 = setup.request;
        if kind == REQUEST_TYPE_STANDARD {
            if request == REQUEST_GET_DESCRIPTOR && reads {
                let descriptor_type: u8 = (setup.value >> 8) as u8;
                if descriptor_type == DESCRIPTOR_DEVICE {
                    ControlResponse::Data(device_descriptor(PRODUCT_ID))
                } else if descriptor_type == DESCRIPTOR_CONFIGURATION {
                    ControlResponse::Data(configuration_descriptor(2, 52, 4))
                } else if descriptor_type == DESCRIPTOR_HID {
                    ControlResponse::Data(hid_descriptor(52))
                } else if descriptor_type == DESCRIPTOR_REPORT {
                    let descriptor = REPORT_DESCRIPTOR;
                    let data = range_of(&descriptor, 0, 52);
                    assert(data@ =~= REPORT_DESCRIPTOR@);
                    ControlResponse::Data(data)
                } else {
                    ControlResponse::Stall
                }
            } else if request == REQUEST_GET_STATUS && reads {
                let data: Vec<u8> = vec![0, 0];
                assert(data@ =~= seq![0u8, 0u8]);
                ControlResponse::Data(data)
            } else if request == REQUEST_GET_CONFIGURATION && reads {
                let data: Vec<u8> = vec![self.configuration];
                assert(data@ =~= seq![self.configuration]);
                ControlResponse::Data(data)
            } else if request == REQUEST_GET_INTERFACE && reads {
                let data: Vec<u8> = vec![0];
                assert(data@ =~= seq![0u8]);
                ControlResponse::Data(data)
            } else if request == REQUEST_SET_ADDRESS || request == REQUEST_SET_CONFIGURATION
                || request == REQUEST_CLEAR_FEATURE || request == REQUEST_SET_FEATURE || request
                == REQUEST_SET_INTERFACE {
                ControlResponse::Ack
            } else {
                ControlResponse::Stall
            }
        } else if kind == REQUEST_TYPE_CLASS {
            if request == HID_GET_REPORT && reads {
                ControlResponse::Data(self.current_report())
            } else if request == HID_GET_IDLE && reads {
                let data: Vec<u8> = vec![self.idle];
                assert(data@ =~= seq![self.idle]);
                ControlResponse::Data(data)
            } else if request == HID_GET_PROTOCOL && reads {
                let data: Vec<u8> = vec![self.protocol];
                assert(data@ =~= seq![self.protocol]);
                ControlResponse::Data(data)
            } else if request == HID_SET_IDLE || request == HID_SET_PROTOCOL {
                ControlResponse::Ack
            } else {
                ControlResponse::Stall
            }
        } else {
            ControlResponse::Stall
        }
    }

    fn complete_control(&mut self, setup: SetupPacket, _data: &[u8]) -> (r: bool) {
        let kind: u8 = setup.request_kind();
        let request: u8 = setup.request;
        if kind == REQUEST_TYPE_STANDARD {
            if request == REQUEST_SET_ADDRESS && setup.value <= 127 {
                self.address = setup.value as u8;
                true
            } else if request == REQUEST_SET_CONFIGURATION && setup.value <= 1 {
                self.configuration = setup.value as u8;
                true
            } else {
                request == REQUEST_CLEAR_FEATURE || request == REQUEST_SET_FEATURE || request
                    == REQUEST_SET_INTERFACE
            }
        } else if kind == REQUEST_TYPE_CLASS {
            if request == HID_SET_IDLE {
                self.idle = (setup.value >> 8) as u8;
                true
            } else if request == HID_SET_PROTOCOL && setup.value <= 1 {
                self.protocol = setup.value as u8;
                true
            } else {
                false
            }
        } else {
            false
        }
    }
}

/// The mouse once `n` reports have been taken.
pub open spec fn after_reports(mouse: Mouse, n: nat) -> Mouse
    decreases n,
{
    if n == 0 {
        mouse
    } else {
        after_reports(mouse, (n - 1) as nat).after_next_report().0
    }
}

/// The horizontal, vertical and wheel motion that the first `n` reports carry in all.
pub open spec fn carried(mouse: Mouse, n: nat) -> (int, int, int)
    decreases n,
{
    if n == 0 {
        (0, 0, 0)
    } else {
        let (x, y, w) = carried(mouse, (n - 1) as nat);
        let now = after_reports(mouse, (n - 1) as nat);
        (x + portion(now.pending_dx), y + portion(now.pending_dy), w + portion(now.pending_wheel))
    }
}

/// Splitting motion over reports loses none of it: what the reports carried and what is
/// still pending add up to what was pending.
pub proof fn reports_lose_no_motion(mouse: Mouse, n: nat)
    ensures
        ({
            let rest = after_reports(mouse, n);
            let (x, y, w) = carried(mouse, n);
            &&& x + rest.pending_dx == mouse.pending_dx
            &&& y + rest.pending_dy == mouse.pending_dy
            &&& w + rest.pending_wheel == mouse.pending_wheel
        }),
    decreases n,
{
    if n != 0 {
        reports_lose_no_motion(mouse, (n - 1) as nat);
    }
}

/// How many reports a motion in one direction takes: one for each 127 steps, and one more for
/// what is left over.
pub open spec fn reports_of(pending: i64) -> nat {
    let steps: int = if pending < 0 {
        -pending
    } else {
        pending as int
    };
    ((steps + 126) / 127) as nat
}

/// The larger of two numbers.
pub open spec fn larger(a: nat, b: nat) -> nat {
    if a < b {
        b
    } else {
        a
    }
}

/// How many reports a mouse has to send.
pub open spec fn reports_due(mouse: Mouse) -> nat {
    larger(
        mouse.button_reports.len(),
        larger(
            reports_of(mouse.pending_dx),
            larger(reports_of(mouse.pending_dy), reports_of(mouse.pending_wheel)),
        ),
    )
}

/// What is left of a number of reports once some of them are sent.
pub open spec fn left_of(due: nat, sent: nat) -> nat {
    if sent < due {
        (due - sent) as nat
    } else {
        0
    }
}

/// A mouse is quiet once it has sent the reports that are due, and no sooner.
pub proof fn a_mouse_sends_the_reports_due(mouse: Mouse, n: nat)
    ensures
        after_reports(mouse, n).quiet() <==> n >= reports_due(mouse),
        n < reports_due(mouse) ==> after_reports(mouse, n).after_next_report().1 is Some,
{
    lemma_reports_left(mouse, n);
}

proof fn lemma_reports_left(mouse: Mouse, n: nat)
    ensures
        ({
            let rest = after_reports(mouse, n);
            &&& rest.button_reports.len() == left_of(mouse.button_reports.len(), n)
            &&& reports_of(rest.pending_dx) == left_of(reports_of(mouse.pending_dx), n)
            &&& reports_of(rest.pending_dy) == left_of(reports_of(mouse.pending_dy), n)
            &&& reports_of(rest.pending_wheel) == left_of(reports_of(mouse.pending_wheel), n)
        }),
    decreases n,
{
    if n > 0 {
        lemma_reports_left(mouse, (n - 1) as nat);
    }
}

/// The sum of some motions.
pub open spec fn sum_of(parts: Seq<i8>) -> int
    decreases parts.len(),
{
    if parts.len() == 0 {
        0
    } else {
        sum_of(parts.drop_last()) + parts.last()
    }
}

/// Fewer reports could not carry a motion, for a report carries 127 steps at most.
pub proof fn fewer_reports_carry_too_little(pending: i64, parts: Seq<i8>)
    requires
        forall|i: int| 0 <= i < parts.len() ==> -127 <= #[trigger] parts[i] <= 127,
        sum_of(parts) == pending,
    ensures
        parts.len() >= reports_of(pending),
{
    lemma_sum_bounded(parts);
}

proof fn lemma_sum_bounded(parts: Seq<i8>)
    requires
        forall|i: int| 0 <= i < parts.len() ==> -127 <= #[trigger] parts[i] <= 127,
    ensures
        -127 * parts.len() <= sum_of(parts) <= 127 * parts.len(),
    decreases parts.len(),
{
    if parts.len() > 0 {
        assert(-127 <= parts[parts.len() - 1] <= 127);
        lemma_sum_bounded(parts.drop_last());
    }
}

/// A press and a release between two reports are both reported, in their order.
pub proof fn a_quick_click_is_reported(mouse: Mouse, pressed: u8)
    requires
        mouse.quiet(),
        mouse.buttons == 0,
        mouse.reported_buttons == 0,
        pressed & 0x07 != 0,
    ensures
        ({
            let clicked = mouse.after_update(0, 0, 0, pressed).after_update(0, 0, 0, 0);
            let (after_press, press) = clicked.after_next_report();
            let (after_release, release) = after_press.after_next_report();
            &&& press == Some(mouse.report(pressed & 0x07, 0, 0, 0))
            &&& release == Some(mouse.report(0, 0, 0, 0))
            &&& after_release.quiet()
        }),
{
    crate::bytes::lemma_byte_bits(0);
}

/// Releasing everything leaves no button pressed and no motion pending, and the host
/// learns of the release where it had seen a button.
pub proof fn release_all_stops_the_mouse(mouse: Mouse)
    ensures
        ({
            let after = mouse.after_release_all();
            &&& after.buttons == 0
            &&& after.pending_dx == 0 && after.pending_dy == 0 && after.pending_wheel == 0
            &&& after.queued_buttons() == 0
        }),
{
}

/// An address that a host sets takes effect at the status stage, not at the setup stage.
pub proof fn address_waits_for_the_status_stage(mouse: Mouse, packet: Seq<u8>, max_length: nat)
    requires
        crate::usb::hid::parsed_as_set_address(packet),
    ensures
        ({
            let (prepared, answer) = mouse.after_packet(UsbPid::Setup, 0, packet, max_length);
            let (done, status) = prepared.after_packet(UsbPid::In, 0, Seq::empty(), 0);
            &&& answer == crate::usb::control::acknowledged()
            &&& prepared.address == mouse.address
            &&& status == crate::usb::control::acknowledged()
            &&& done.address == crate::usb::control::parsed_setup(packet)->0.value
        }),
{
}

/// A byte of a report in two's complement.
pub open spec fn signed(byte: u8) -> int {
    if byte >= 128 {
        byte - 256
    } else {
        byte as int
    }
}

/// A report carries its motion in signed bytes, after the buttons: what a host reads from it, and
/// what is still pending, add up to what was pending, and no step goes the wrong way. The buttons
/// are the oldest that are still to be reported. In the boot protocol there is no wheel.
pub proof fn a_report_carries_its_motion(mouse: Mouse)
    requires
        !mouse.quiet(),
    ensures
        ({
            let (after, report) = mouse.after_next_report();
            &&& report matches Some(bytes) && bytes.len() == (if mouse.protocol == 1 {
                4int
            } else {
                3
            }) && bytes[0] == (if mouse.button_reports.len() == 0 {
                mouse.buttons
            } else {
                mouse.button_reports[0]
            }) && signed(bytes[1]) + after.pending_dx == mouse.pending_dx && signed(bytes[2])
                + after.pending_dy == mouse.pending_dy && (mouse.protocol == 1 ==> signed(bytes[3])
                + after.pending_wheel == mouse.pending_wheel)
            &&& magnitude_left(mouse.pending_dx as int, after.pending_dx as int)
            &&& magnitude_left(mouse.pending_dy as int, after.pending_dy as int)
            &&& magnitude_left(mouse.pending_wheel as int, after.pending_wheel as int)
        }),
{
    crate::legacy::i8042::lemma_two_complement(portion(mouse.pending_dx));
    crate::legacy::i8042::lemma_two_complement(portion(mouse.pending_dy));
    crate::legacy::i8042::lemma_two_complement(portion(mouse.pending_wheel));
}

/// Whether a motion has come as near to zero as one report allows.
pub open spec fn magnitude_left(before: int, after: int) -> bool {
    if before > 127 {
        after == before - 127
    } else if before < -127 {
        after == before + 127
    } else {
        after == 0
    }
}

/// Motion is added to what is pending, as far as the numbers reach, and the buttons are the three
/// lowest bits.
pub proof fn motion_is_added_up(mouse: Mouse, dx: i32, dy: i32, wheel: i16, buttons: u8)
    requires
        -0x4000_0000_0000_0000 <= mouse.pending_dx <= 0x4000_0000_0000_0000,
        -0x4000_0000_0000_0000 <= mouse.pending_dy <= 0x4000_0000_0000_0000,
        -0x4000_0000_0000_0000 <= mouse.pending_wheel <= 0x4000_0000_0000_0000,
    ensures
        ({
            let after = mouse.after_update(dx, dy, wheel, buttons);
            &&& after.pending_dx == mouse.pending_dx + dx
            &&& after.pending_dy == mouse.pending_dy + dy
            &&& after.pending_wheel == mouse.pending_wheel + wheel
            &&& after.buttons == buttons % 8
            &&& after.button_reports.len() > mouse.button_reports.len() ==> after.button_reports.last()
                == buttons % 8
        }),
{
    crate::bytes::lemma_byte_bits(buttons);
}

} // verus!
