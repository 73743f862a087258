//! A boot-protocol keyboard.
use vstd::prelude::*;

use std::collections::{BTreeSet, VecDeque};

use crate::bytes::range_of;
use crate::usb::control::{
    Answer, ControlDevice, ControlEndpoint, ControlResponse, Response, SetupPacket,
    Stage, UsbPacketResult, HID_GET_IDLE, HID_GET_PROTOCOL, HID_GET_REPORT, HID_SET_IDLE,
    HID_SET_PROTOCOL, HID_SET_REPORT, REQUEST_CLEAR_FEATURE, REQUEST_GET_CONFIGURATION,
    REQUEST_GET_DESCRIPTOR, REQUEST_GET_INTERFACE, REQUEST_GET_STATUS, REQUEST_SET_ADDRESS,
    REQUEST_SET_CONFIGURATION, REQUEST_SET_FEATURE, REQUEST_SET_INTERFACE,
};
use crate::usb::hid::{
    configuration_descriptor, device_descriptor, hid_descriptor, DESCRIPTOR_CONFIGURATION,
    DESCRIPTOR_DEVICE, DESCRIPTOR_HID, DESCRIPTOR_REPORT, REQUEST_TYPE_CLASS,
    REQUEST_TYPE_STANDARD,
};
use crate::usb::{UsbDevice, UsbPid};

verus! {

pub const REPORT_DESCRIPTOR: [u8; 63] = [
    0x05, 0x01, 0x09, 0x06, 0xa1, 0x01, 0x05, 0x07, 0x19, 0xe0, 0x29, 0xe7, 0x15, 0x00, 0x25, 0x01,
    0x75, 0x01, 0x95, 0x08, 0x81, 0x02, 0x95, 0x01, 0x75, 0x08, 0x81, 0x01, 0x95, 0x05, 0x75, 0x01,
    0x05, 0x08, 0x19, 0x01, 0x29, 0x05, 0x91, 0x02, 0x95, 0x01, 0x75, 0x03, 0x91, 0x01, 0x95, 0x06,
    0x75, 0x08, 0x15, 0x00, 0x25, 0x65, 0x05, 0x07, 0x19, 0x00, 0x29, 0x65, 0x81, 0x00, 0xc0,
];

pub const PRODUCT_ID: u16 = 0x0100;
pub const MAX_REPORTS: usize = 64;
pub const PROTOCOL_REPORT: u8 = 1;


/// The keyboard's state: `keys` are the usages of the pressed keys other than modifiers.
#[verifier::ext_equal]
pub struct Keyboard {
    pub address: u8,
    pub configuration: u8,
    pub protocol: u8,
    pub idle: u8,
    pub leds: u8,
    pub modifiers: u8,
    pub keys: Set<u8>,
    pub reports: Seq<[u8; 8]>,
    pub current_report: [u8; 8],
    pub control: Stage,
}

/// The members of `keys` below `bound`, in ascending order.
pub open spec fn ascending(keys: Set<u8>, bound: nat) -> Seq<u8>
    decreases bound,
{
    if bound == 0 {
        Seq::empty()
    } else {
        let last = (bound - 1) as u8;
        let before = ascending(keys, (bound - 1) as nat);
        if keys.contains(last) {
            before.push(last)
        } else {
            before
        }
    }
}

/// Whether `usage` is one of the eight modifier keys.
pub open spec fn is_modifier(usage: u8) -> bool {
    0xe0 <= usage <= 0xe7
}

/// The modifier byte with one modifier pressed or released.
pub open spec fn modifiers_after(modifiers: u8, usage: u8, pressed: bool) -> u8 {
    let bit: u8 = 1u8 << ((usage - 0xe0) as u8);
    if pressed {
        modifiers | bit
    } else {
        modifiers & !bit
    }
}

/// The input report of a set of pressed keys: the modifiers, a reserved byte, and up to
/// six usages in ascending order. With more keys than that every slot holds the usage
/// that reports an overflow.
pub open spec fn report_of(modifiers: u8, keys: Set<u8>) -> Seq<u8> {
    let listed = ascending(keys, 256);
    Seq::new(
        8,
        |i: int|
            if i == 0 {
                modifiers
            } else if i == 1 {
                0u8
            } else if listed.len() > 6 {
                1u8
            } else if i - 2 < listed.len() {
                listed[i - 2]
            } else {
                0u8
            },
    )
}

impl Keyboard {
    /// The state of a keyboard that was just attached.
    pub open spec fn powered_on() -> Keyboard {
        Keyboard {
            address: 0,
            configuration: 0,
            protocol: PROTOCOL_REPORT,
            idle: 0,
            leds: 0,
            modifiers: 0,
            keys: Set::empty(),
            reports: Seq::empty(),
            current_report: report_array(crate::bytes::zeros(8)),
            control: Stage::Idle,
        }
    }

    /// The state once a report has been offered to the queue. Nothing happens where the
    /// report is the current one and the last of the queue; a full queue loses its oldest.
    pub open spec fn queued(self, report: [u8; 8]) -> Keyboard {
        if self.current_report == report && (self.reports.len() == 0 || self.reports.last()
            == report) {
            self
        } else {
            let kept = if self.reports.len() == MAX_REPORTS {
                self.reports.skip(1)
            } else {
                self.reports
            };
            Keyboard {
                current_report: report,
                reports: if kept.len() == 0 || kept.last() != report {
                    kept.push(report)
                } else {
                    kept
                },
                ..self
            }
        }
    }

    /// The state with the report of its keys offered to the queue.
    pub open spec fn reporting(self) -> Keyboard {
        self.queued(report_array(report_of(self.modifiers, self.keys)))
    }

    pub open spec fn after_key(self, usage: u8, pressed: bool) -> Keyboard {
        if is_modifier(usage) {
            let modifiers = modifiers_after(self.modifiers, usage, pressed);
            if modifiers == self.modifiers {
                self
            } else {
                (Keyboard { modifiers, ..self }).reporting()
            }
        } else if usage == 0 || self.keys.contains(usage) == pressed {
            self
        } else if pressed {
            (Keyboard { keys: self.keys.insert(usage), ..self }).reporting()
        } else {
            (Keyboard { keys: self.keys.remove(usage), ..self }).reporting()
        }
    }

    pub open spec fn after_release_all(self) -> Keyboard {
        if self.modifiers != 0 || self.keys != Set::<u8>::empty() {
            (Keyboard { modifiers: 0, keys: Set::empty(), ..self }).reporting()
        } else {
            self
        }
    }

    pub open spec fn after_next_report(self) -> (Keyboard, Option<[u8; 8]>) {
        if self.reports.len() == 0 {
            (self, None)
        } else {
            (Keyboard { reports: self.reports.skip(1), ..self }, Some(self.reports[0]))
        }
    }

    pub open spec fn after_reset(self) -> Keyboard {
        Keyboard {
            address: 0,
            configuration: 0,
            protocol: PROTOCOL_REPORT,
            idle: 0,
            control: Stage::Idle,
            reports: if self.current_report@ == crate::bytes::zeros(8) {
                Seq::empty()
            } else {
                seq![self.current_report]
            },
            ..self
        }
    }

    /// What the keyboard answers to a setup packet.
    pub open spec fn response(self, setup: SetupPacket) -> Response {
        if setup.kind() == REQUEST_TYPE_STANDARD {
            if setup.request == REQUEST_GET_DESCRIPTOR && setup.reads() {
                let descriptor = (setup.value >> 8) as u8;
                if descriptor == DESCRIPTOR_DEVICE {
                    Response::Data(crate::usb::hid::device_descriptor_bytes(PRODUCT_ID))
                } else if descriptor == DESCRIPTOR_CONFIGURATION {
                    Response::Data(crate::usb::hid::configuration_descriptor_bytes(1, 63, 8))
                } else if descriptor == DESCRIPTOR_HID {
                    Response::Data(crate::usb::hid::hid_descriptor_bytes(63))
                } else if descriptor == DESCRIPTOR_REPORT {
                    Response::Data(REPORT_DESCRIPTOR@)
                } else {
                    Response::Stall
                }
            } else if setup.request == REQUEST_GET_STATUS && setup.reads() {
                Response::Data(seq![0u8, 0u8])
            } else if setup.request == REQUEST_GET_CONFIGURATION && setup.reads() {
                Response::Data(seq![self.configuration])
            } else if setup.request == REQUEST_GET_INTERFACE && setup.reads() {
                Response::Data(seq![0u8])
            } else if setup.request == REQUEST_SET_ADDRESS || setup.request
                == REQUEST_SET_CONFIGURATION || setup.request == REQUEST_CLEAR_FEATURE
                || setup.request == REQUEST_SET_FEATURE || setup.request == REQUEST_SET_INTERFACE {
                Response::Ack
            } else {
                Response::Stall
            }
        } else if setup.kind() == REQUEST_TYPE_CLASS {
            if setup.request == HID_GET_REPORT && setup.reads() {
                Response::Data(self.current_report@)
            } else if setup.request == HID_GET_IDLE && setup.reads() {
                Response::Data(seq![self.idle])
            } else if setup.request == HID_GET_PROTOCOL && setup.reads() {
                Response::Data(seq![self.protocol])
            } else if setup.request == HID_SET_REPORT && !setup.reads() {
                Response::Out
            } else if setup.request == HID_SET_IDLE || setup.request == HID_SET_PROTOCOL {
                Response::Ack
            } else {
                Response::Stall
            }
        } else {
            Response::Stall
        }
    }

    /// The keyboard after the status stage of a request, and whether it accepts the request.
    pub open spec fn after_request(self, setup: SetupPacket, data: Seq<u8>) -> (Keyboard, bool) {
        if setup.kind() == REQUEST_TYPE_STANDARD {
            if setup.request == REQUEST_SET_ADDRESS && setup.value <= 127 {
                (Keyboard { address: setup.value as u8, ..self }, true)
            } else if setup.request == REQUEST_SET_CONFIGURATION && setup.value <= 1 {
                (Keyboard { configuration: setup.value as u8, ..self }, true)
            } else {
                (
                    self,
                    setup.request == REQUEST_CLEAR_FEATURE || setup.request == REQUEST_SET_FEATURE
                        || setup.request == REQUEST_SET_INTERFACE,
                )
            }
        } else if setup.kind() == REQUEST_TYPE_CLASS {
            if setup.request == HID_SET_IDLE {
                (Keyboard { idle: (setup.value >> 8) as u8, ..self }, true)
            } else if setup.request == HID_SET_PROTOCOL && setup.value <= 1 {
                (Keyboard { protocol: setup.value as u8, ..self }, true)
            } else if setup.request == HID_SET_REPORT && data.len() != 0 {
                (Keyboard { leds: data[0] & 0x07, ..self }, true)
            } else {
                (self, false)
            }
        } else {
            (self, false)
        }
    }

    /// The keyboard after a packet to one of its endpoints, and its answer.
    pub open spec fn after_packet(
        self,
        pid: UsbPid,
        endpoint: u8,
        data: Seq<u8>,
        max_length: nat,
    ) -> (Keyboard, Answer) {
        if endpoint == 0 {
            let (stage, keyboard, answer) = crate::usb::control::control_step::<HidKeyboard>(
                self.control,
                Keyboard { control: Stage::Idle, ..self },
                pid,
                data,
                max_length,
            );
            (Keyboard { control: stage, ..keyboard }, answer)
        } else if endpoint == 1 && pid == UsbPid::In && self.configuration != 0 {
            let (keyboard, report) = self.after_next_report();
            match report {
                None => (keyboard, Answer::Nak),
                Some(bytes) => (
                    keyboard,
                    Answer::Success(
                        if max_length < 8 {
                            bytes@.take(max_length as int)
                        } else {
                            bytes@
                        },
                    ),
                ),
            }
        } else {
            (self, Answer::Stall)
        }
    }
}

/// The eight bytes of `s` as an array.
pub open spec fn report_array(s: Seq<u8>) -> [u8; 8] {
    choose|a: [u8; 8]| a@ == s
}

pub struct HidKeyboard {
    pub address: u8,
    pub configuration: u8,
    pub protocol: u8,
    pub idle: u8,
    pub leds: u8,
    pub modifiers: u8,
    pub keys: BTreeSet<u8>,
    pub reports: VecDeque<[u8; 8]>,
    pub current_report: [u8; 8],
    pub control: ControlEndpoint,
}

impl View for HidKeyboard {
    type V = Keyboard;

    open spec fn view(&self) -> Keyboard {
        Keyboard {
            address: self.address,
            configuration: self.configuration,
            protocol: self.protocol,
            idle: self.idle,
            leds: self.leds,
            modifiers: self.modifiers,
            keys: self.keys@,
            reports: self.reports@,
            current_report: self.current_report,
            control: self.control@,
        }
    }
}

/// Whether a key list is in ascending order without repetitions.
pub open spec fn sorted_keys(keys: Seq<u8>) -> bool {
    forall|i: int, j: int| 0 <= i < j < keys.len() ==> keys[i] < keys[j]
}

/// How many of the first `n` entries of a key list are below `bound`.
spec fn below(keys: Seq<u8>, bound: nat, n: nat) -> nat
    decreases n,
{
    if n == 0 {
        0
    } else if keys[n - 1] < bound {
        n
    } else {
        below(keys, bound, (n - 1) as nat)
    }
}

proof fn lemma_below(keys: Seq<u8>, bound: nat, n: nat)
    requires
        sorted_keys(keys),
        n <= keys.len(),
    ensures
        below(keys, bound, n) <= n,
        forall|i: int| 0 <= i < below(keys, bound, n) ==> keys[i] < bound,
        forall|i: int| below(keys, bound, n) <= i < n ==> keys[i] >= bound,
    decreases n,
{
    if n != 0 && keys[n - 1] >= bound {
        lemma_below(keys, bound, (n - 1) as nat);
    }
}

/// A sorted key list is the ascending enumeration of its members.
proof fn lemma_ascending(keys: Seq<u8>, bound: nat)
    requires
        sorted_keys(keys),
        bound <= 256,
    ensures
        ascending(keys.to_set(), bound) == keys.take(below(keys, bound, keys.len()) as int),
    decreases bound,
{
    let n = keys.len();
    lemma_below(keys, bound, n);
    let p = below(keys, bound, n) as int;
    if bound == 0 {
        assert(p == 0) by {
            if p > 0 {
                assert(keys[0] < bound);
            }
        }
        assert(keys.take(p) =~= Seq::empty());
    } else {
        let prev = (bound - 1) as nat;
        lemma_ascending(keys, prev);
        lemma_below(keys, prev, n);
        let q = below(keys, prev, n) as int;
        let last = (bound - 1) as u8;
        if keys.to_set().contains(last) {
            let i = choose|i: int| 0 <= i < keys.len() && keys[i] == last;
            assert(q == i) by {
                if q < i {
                    assert(keys[q] < keys[i]);
                }
                if i < q {
                    assert(keys[i] < prev);
                }
            }
            assert(p == i + 1) by {
                if p > i + 1 {
                    assert(keys[i + 1] > keys[i]);
                }
            }
            assert(keys.take(p) =~= keys.take(q).push(last));
        } else {
            assert(p == q) by {
                if p > q {
                    assert(keys[q] == last);
                    assert(keys.contains(last));
                }
                if q > p {
                    assert(keys[p] < prev);
                }
            }
        }
    }
}

proof fn lemma_ascending_all(keys: Seq<u8>)
    requires
        sorted_keys(keys),
    ensures
        ascending(keys.to_set(), 256) == keys,
{
    lemma_ascending(keys, 256);
    lemma_below(keys, 256, keys.len());
    assert(keys.take(keys.len() as int) =~= keys);
    if below(keys, 256, keys.len()) < keys.len() {
        assert(keys[below(keys, 256, keys.len()) as int] >= 256);
    }
}

/// The report of no key.
fn blank_report() -> (r: [u8; 8])
    ensures
        r@ == crate::bytes::zeros(8),
{
    let r: [u8; 8] = [0, 0, 0, 0, 0, 0, 0, 0];
    assert(r@ =~= crate::bytes::zeros(8));
    r
}

/// The pressed keys in ascending order.
fn listed_keys(keys: &BTreeSet<u8>) -> (r: Vec<u8>)
    ensures
        r@ == ascending(keys@, 256),
{
    let mut listed: Vec<u8> = Vec::new();
    for key in pressed: keys.iter()
        invariant
            listed@ == pressed.seq().unref().take(pressed.index()),
    {
        listed.push(*key);
    }
    proof {
        broadcast use vstd::laws_cmp::group_laws_cmp;

        let refs = vstd::std_specs::iter::IteratorSpec::remaining(
            &vstd::std_specs::btree::spec_btree_keys_iter(keys),
        );
        assert(listed@ =~= refs.unref());
        assert(vstd::laws_cmp::obeys_cmp::<u8>());
        assert(vstd::laws_cmp::obeys_cmp::<&u8>());
        assert(vstd::std_specs::btree::increasing_seq(refs));
        assert forall|i: int, j: int| 0 <= i < j < listed@.len() implies listed@[i]
            < listed@[j] by {
            assert(*refs[i] == listed@[i] && *refs[j] == listed@[j]);
            assert(vstd::std_specs::cmp::OrdSpec::cmp_spec(&refs[i], &refs[j]) is Less);
        }
        lemma_ascending_all(listed@);
    }
    listed
}

fn same_report(a: &[u8; 8], b: &[u8; 8]) -> (r: bool)
    ensures
        r == (*a == *b),
{
    let r = crate::bytes::same_bytes(a, b);
    assert(r ==> *a =~= *b);
    r
}

impl HidKeyboard {
    pub fn new() -> (r: Self)
        ensures
            r.valid(),
            r@ == Keyboard::powered_on(),
    {
        let r = HidKeyboard {
            address: 0,
            configuration: 0,
            protocol: PROTOCOL_REPORT,
            idle: 0,
            leds: 0,
            modifiers: 0,
            keys: BTreeSet::new(),
            reports: VecDeque::new(),
            current_report: blank_report(),
            control: ControlEndpoint::new(),
        };
        proof {
            lemma_report_array(r.current_report, crate::bytes::zeros(8));
        }
        r
    }

    /// Presses or releases a key. A change queues a report; a repetition does not.
    pub fn key(&mut self, usage: u8, pressed: bool)
        requires
            old(self).valid(),
        ensures
            final(self).valid(),
            final(self)@ == old(self)@.after_key(usage, pressed),
    {
        if 0xe0 <= usage && usage <= 0xe7 {
            let shift: u8 = usage - 0xe0;
            let bit: u8 = 1u8 << shift;
            let before: u8 = self.modifiers;
            if pressed {
                self.modifiers = self.modifiers | bit;
            } else {
                self.modifiers = self.modifiers & !bit;
            }
            if before != self.modifiers {
                self.queue_current_report();
            }
            return;
        }
        if usage == 0 {
            return;
        }
        let changed = if pressed {
            self.keys.insert(usage)
        } else {
            self.keys.remove(&usage)
        };
        if changed {
            self.queue_current_report();
        } else {
            assert(self.keys@ =~= old(self).keys@);
        }
    }

    /// Releases every key.
    pub fn release_all(&mut self)
        requires
            old(self).valid(),
        ensures
            final(self).valid(),
            final(self)@ == old(self)@.after_release_all(),
    {
        assert(self.keys@.is_empty() == (self.keys@ =~= Set::<u8>::empty()));
        if self.modifiers != 0 || !self.keys.is_empty() {
            self.modifiers = 0;
            self.keys.clear();
            self.queue_current_report();
        }
    }

    pub fn leds(&self) -> (r: u8)
        ensures
            r == self@.leds,
    {
        self.leds
    }

    /// Takes the oldest queued report.
    pub fn next_report(&mut self) -> (r: Option<[u8; 8]>)
        requires
            old(self).valid(),
        ensures
            final(self).valid(),
            (final(self)@, r) == old(self)@.after_next_report(),
    {
        let r = self.reports.pop_front();
        assert(old(self).reports@.len() > 0 ==> self.reports@ =~= old(self).reports@.skip(1));
        r
    }

    fn build_report(&self) -> (r: [u8; 8])
        requires
            self.valid(),
        ensures
            r@ == report_of(self.modifiers, self.keys@),
    {
        let listed = listed_keys(&self.keys);
        let mut report = blank_report();
        report[0] = self.modifiers;
        if listed.len() > 6 {
            let mut i: usize = 2;
            while i < 8
                invariant
                    2 <= i <= 8,
                    report@[0] == self.modifiers,
                    report@[1] == 0,
                    forall|k: int| 2 <= k < i ==> report@[k] == 1,
                decreases 8 - i,
            {
                report[i] = 1;
                i = i + 1;
            }
        } else {
            let mut i: usize = 0;
            while i < listed.len()
                invariant
                    i <= listed@.len() <= 6,
                    report@[0] == self.modifiers,
                    report@[1] == 0,
                    forall|k: int| 2 <= k < 8 ==> report@[k] == (if k - 2 < i {
                        listed@[k - 2]
                    } else {
                        0
                    }),
                decreases listed@.len() - i,
            {
                report[2 + i] = listed[i];
                i = i + 1;
            }
        }
        assert(report@ =~= report_of(self.modifiers, self.keys@));
        report
    }

    fn last_is(&self, report: &[u8; 8]) -> (r: bool)
        ensures
            r == (self.reports@.len() != 0 && self.reports@.last() == *report),
    {
        let n: usize = self.reports.len();
        if n == 0 {
            false
        } else {
            same_report(&self.reports[n - 1], report)
        }
    }

    fn queue_current_report(&mut self)
        requires
            old(self).valid(),
        ensures
            final(self).valid(),
            final(self)@ == old(self)@.reporting(),
    {
        let report = self.build_report();
        proof {
            lemma_report_array(report, report_of(self.modifiers, self.keys@));
        }
        if same_report(&self.current_report, &report) && (self.reports.len() == 0 || self.last_is(
            &report,
        )) {
            return;
        }
        self.current_report = report;
        if self.reports.len() == MAX_REPORTS {
            let ghost before = self.reports@;
            let _ = self.reports.pop_front();
            assert(self.reports@ =~= before.skip(1));
        }
        if self.reports.len() == 0 || !self.last_is(&report) {
            self.reports.push_back(report);
        }
    }

    fn control_packet(&mut self, pid: UsbPid, data: &[u8], max_length: usize) -> (r:
        UsbPacketResult)
        requires
            old(self).valid(),
        ensures
            final(self).valid(),
            (final(self)@, r@) == old(self)@.after_packet(pid, 0, data@, max_length as nat),
    {
        let mut control = ControlEndpoint::new();
        std::mem::swap(&mut control, &mut self.control);
        let result = crate::usb::control_packet(&mut control, self, pid, data, max_length);
        self.control = control;
        result
    }
}

proof fn lemma_report_array(a: [u8; 8], s: Seq<u8>)
    requires
        a@ == s,
    ensures
        report_array(s) == a,
{
    let b = report_array(s);
    assert(b@ == s);
    assert(a =~= b);
}

impl Default for HidKeyboard {
    fn default() -> (r: Self)
        ensures
            r.valid(),
            r@ == Keyboard::powered_on(),
    {
        Self::new()
    }
}

impl UsbDevice for HidKeyboard {
    open spec fn device_valid(&self) -> bool {
        self.valid()
    }

    open spec fn reset_to(device: Keyboard) -> Keyboard {
        device.after_reset()
    }

    open spec fn address_of(device: Keyboard) -> u8 {
        device.address
    }

    open spec fn answered(
        device: Keyboard,
        pid: UsbPid,
        endpoint: u8,
        data: Seq<u8>,
        max_length: nat,
    ) -> (Keyboard, Answer) {
        device.after_packet(pid, endpoint, data, max_length)
    }

    fn reset(&mut self) {
        self.address = 0;
        self.configuration = 0;
        self.protocol = PROTOCOL_REPORT;
        self.idle = 0;
        self.control.reset();
        self.reports.clear();
        let zero = blank_report();
        if !same_report(&self.current_report, &zero) {
            self.reports.push_back(self.current_report);
            assert(self.current_report@ != zero@) by {
                if self.current_report@ == zero@ {
                    assert(self.current_report =~= zero);
                }
            }
            assert(self.reports@ =~= seq![self.current_report]);
        }
    }

    fn address(&self) -> u8 {
        self.address
    }

    fn packet(&mut self, pid: UsbPid, endpoint: u8, data: &[u8], max_length: usize) -> (r:
        UsbPacketResult) {
        if endpoint == 0 {
            self.control_packet(pid, data, max_length)
        } else if endpoint == 1 && pid == UsbPid::In && self.configuration != 0 {
            match self.next_report() {
                None => UsbPacketResult::Nak,
                Some(report) => {
                    let end: usize = if max_length < 8 {
                        max_length
                    } else {
                        8
                    };
                    let bytes = range_of(&report, 0, end);
                    assert(bytes@ =~= if max_length < 8 {
                        report@.take(max_length as int)
                    } else {
                        report@
                    });
                    UsbPacketResult::Success(bytes)
                },
            }
        } else {
            UsbPacketResult::Stall
        }
    }
}

impl ControlDevice for HidKeyboard {
    open spec fn valid(&self) -> bool {
        &&& self.reports@.len() <= MAX_REPORTS
        &&& self.control.valid()
    }

    open spec fn prepared(device: Keyboard, setup: SetupPacket) -> (Keyboard, Response) {
        (device, device.response(setup))
    }

    open spec fn completed(device: Keyboard, setup: SetupPacket, data: Seq<u8>) -> (
        Keyboard,
        bool,
    ) {
        device.after_request(setup, data)
    }

    fn prepare_control(&mut self, setup: SetupPacket) -> (r: ControlResponse) {
        let kind: u8 = setup.request_kind();
        let reads = setup.direction_in();
        let request: u8 = setup.request;
        if kind == REQUEST_TYPE_STANDARD {
            if request == REQUEST_GET_DESCRIPTOR && reads {
                let descriptor_type: u8 = (setup.value >> 8) as u8;
                if descriptor_type == DESCRIPTOR_DEVICE {
                    ControlResponse::Data(device_descriptor(PRODUCT_ID))
                } else if descriptor_type == DESCRIPTOR_CONFIGURATION {
                    ControlResponse::Data(configuration_descriptor(1, 63, 8))
                } else if descriptor_type == DESCRIPTOR_HID {
                    ControlResponse::Data(hid_descriptor(63))
                } else if descriptor_type == DESCRIPTOR_REPORT {
                    let descriptor = REPORT_DESCRIPTOR;
                    let data = range_of(&descriptor, 0, 63);
                    assert(data@ =~= REPORT_DESCRIPTOR@);
                    ControlResponse::Data(data)
                } else {
                    ControlResponse::Stall
                }
            } else if request == REQUEST_GET_STATUS && reads {
                let data: Vec<u8> = vec![0, 0];
                assert(data@ =~= seq![0u8, 0u8]);
                ControlResponse::Data(data)
            } else if request == REQUEST_GET_CONFIGURATION && reads {
                let data: Vec<u8> = vec![self.configuration];
                assert(data@ =~= seq![self.configuration]);
                ControlResponse::Data(data)
            } else if request == REQUEST_GET_INTERFACE && reads {
                let data: Vec<u8> = vec![0];
                assert(data@ =~= seq![0u8]);
                ControlResponse::Data(data)
            } else if request == REQUEST_SET_ADDRESS || request == REQUEST_SET_CONFIGURATION
                || request == REQUEST_CLEAR_FEATURE || request == REQUEST_SET_FEATURE || request
                == REQUEST_SET_INTERFACE {
                ControlResponse::Ack
            } else {
                ControlResponse::Stall
            }
        } else if kind == REQUEST_TYPE_CLASS {
            if request == HID_GET_REPORT && reads {
                let report = self.current_report;
                let data = range_of(&report, 0, 8);
                assert(data@ =~= report@);
                ControlResponse::Data(data)
            } else if request == HID_GET_IDLE && reads {
                let data: Vec<u8> = vec![self.idle];
                assert(data@ =~= seq![self.idle]);
                ControlResponse::Data(data)
            } else if request == HID_GET_PROTOCOL && reads {
                let data: Vec<u8> = vec![self.protocol];
                assert(data@ =~= seq![self.protocol]);
                ControlResponse::Data(data)
            } else if request == HID_SET_REPORT && !reads {
                ControlResponse::Out
            } else if request == HID_SET_IDLE || request == HID_SET_PROTOCOL {
                ControlResponse::Ack
            } else {
                ControlResponse::Stall
            }
        } else {
            ControlResponse::Stall
        }
    }

    fn complete_control(&mut self, setup: SetupPacket, data: &[u8]) -> (r: bool) {
        let kind: u8 = setup.request_kind();
        let request: u8 = setup.request;
        if kind == REQUEST_TYPE_STANDARD {
            if request == REQUEST_SET_ADDRESS && setup.value <= 127 {
                self.address = setup.value as u8;
                true
            } else if request == REQUEST_SET_CONFIGURATION && setup.value <= 1 {
                self.configuration = setup.value as u8;
                true
            } else {
                request == REQUEST_CLEAR_FEATURE || request == REQUEST_SET_FEATURE || request
                    == REQUEST_SET_INTERFACE
            }
        } else if kind == REQUEST_TYPE_CLASS {
            if request == HID_SET_IDLE {
                self.idle = (setup.value >> 8) as u8;
                true
            } else if request == HID_SET_PROTOCOL && setup.value <= 1 {
                self.protocol = setup.value as u8;
                true
            } else if request == HID_SET_REPORT && data.len() != 0 {
                self.leds = data[0] & 0x07;
                true
            } else {
                false
            }
        } else {
            false
        }
    }
}

/// Releasing everything leaves no key and no modifier pressed.
pub proof fn release_all_releases_everything(keyboard: Keyboard)
    ensures
        keyboard.after_release_all().keys == Set::<u8>::empty(),
        keyboard.after_release_all().modifiers == 0,
{
}

/// A key that is pressed and then released leaves the set of pressed keys as it was.
pub proof fn press_and_release_restores_the_keys(keyboard: Keyboard, usage: u8)
    requires
        !is_modifier(usage),
        !keyboard.keys.contains(usage),
    ensures
        keyboard.after_key(usage, true).after_key(usage, false).keys == keyboard.keys,
{
    assert(keyboard.keys.insert(usage).remove(usage) =~= keyboard.keys);
}

/// Pressing a pressed key again, or releasing one that is not pressed, changes nothing.
pub proof fn a_repeated_key_event_changes_nothing(keyboard: Keyboard, usage: u8, pressed: bool)
    requires
        !is_modifier(usage),
        keyboard.keys.contains(usage) == pressed,
    ensures
        keyboard.after_key(usage, pressed) == keyboard,
{
}

/// A change of the pressed keys makes their report the current one and the last of the queue.
pub proof fn a_change_is_reported(keyboard: Keyboard, usage: u8, pressed: bool)
    requires
        keyboard.after_key(usage, pressed).keys != keyboard.keys,
    ensures
        ({
            let after = keyboard.after_key(usage, pressed);
            let report = report_array(report_of(after.modifiers, after.keys));
            &&& after.current_report == report
            &&& after.current_report != keyboard.current_report ==> after.reports.len() > 0
                && after.reports.last() == report
        }),
{
}

/// Whether a keyboard's reports are up to date: the current report is that of its keys, and so
/// is the last one of the queue.
pub open spec fn in_step(keyboard: Keyboard) -> bool {
    let current = report_array(report_of(keyboard.modifiers, keyboard.keys));
    &&& keyboard.current_report == current
    &&& keyboard.reports.len() == 0 || keyboard.reports.last() == current
}

proof fn lemma_no_keys(bound: nat)
    ensures
        ascending(Set::empty(), bound) == Seq::<u8>::empty(),
    decreases bound,
{
    if bound > 0 {
        lemma_no_keys((bound - 1) as nat);
    }
}

/// A keyboard's reports are up to date from the start, and whatever happens to it keeps them
/// so.
pub proof fn reports_stay_up_to_date(
    keyboard: Keyboard,
    usage: u8,
    pressed: bool,
    pid: UsbPid,
    endpoint: u8,
    data: Seq<u8>,
    max_length: nat,
)
    ensures
        in_step(Keyboard::powered_on()),
        in_step(keyboard) ==> {
            &&& in_step(keyboard.after_key(usage, pressed))
            &&& in_step(keyboard.after_release_all())
            &&& in_step(keyboard.after_next_report().0)
            &&& in_step(keyboard.after_reset())
            &&& in_step(keyboard.after_packet(pid, endpoint, data, max_length).0)
        },
{
    lemma_no_keys(256);
    assert(report_of(0, Set::empty()) =~= crate::bytes::zeros(8));
}

/// What the queue of reports holds once a report is added; a full queue loses its oldest one.
pub open spec fn with_report(reports: Seq<[u8; 8]>, report: [u8; 8]) -> Seq<[u8; 8]> {
    if reports.len() == MAX_REPORTS {
        reports.skip(1).push(report)
    } else {
        reports.push(report)
    }
}

/// The queue of reports after some key events: each event that changes the report of the keys
/// adds that report, and no other event adds any.
pub open spec fn changes_reported(keyboard: Keyboard, events: Seq<(u8, bool)>) -> Seq<[u8; 8]>
    decreases events.len(),
{
    if events.len() == 0 {
        keyboard.reports
    } else {
        let before = after_keys(keyboard, events.drop_last());
        let after = after_keys(keyboard, events);
        let old_report = report_array(report_of(before.modifiers, before.keys));
        let new_report = report_array(report_of(after.modifiers, after.keys));
        let reports = changes_reported(keyboard, events.drop_last());
        if old_report == new_report {
            reports
        } else {
            with_report(reports, new_report)
        }
    }
}

/// The keyboard after some keys were pressed and released.
pub open spec fn after_keys(keyboard: Keyboard, events: Seq<(u8, bool)>) -> Keyboard
    decreases events.len(),
{
    if events.len() == 0 {
        keyboard
    } else {
        let (usage, pressed) = events.last();
        after_keys(keyboard, events.drop_last()).after_key(usage, pressed)
    }
}

/// The keyboard sends one report for each change, and none where nothing changes.
pub proof fn each_change_is_reported_once(keyboard: Keyboard, events: Seq<(u8, bool)>)
    requires
        in_step(keyboard),
        keyboard.reports.len() <= MAX_REPORTS,
    ensures
        ({
            let after = after_keys(keyboard, events);
            &&& in_step(after)
            &&& after.reports == changes_reported(keyboard, events)
            &&& after.reports.len() <= MAX_REPORTS
        }),
    decreases events.len(),
{
    if events.len() > 0 {
        each_change_is_reported_once(keyboard, events.drop_last());
        let before = after_keys(keyboard, events.drop_last());
        let after = after_keys(keyboard, events);
        if before.reports.len() == MAX_REPORTS {
            assert(before.reports.skip(1).last() == before.reports.last());
        }
    }
}

/// With more than six keys pressed each of the six slots reports the overflow.
pub proof fn overflow_fills_every_slot(modifiers: u8, keys: Set<u8>)
    requires
        ascending(keys, 256).len() > 6,
    ensures
        report_of(modifiers, keys) == seq![modifiers, 0u8, 1u8, 1u8, 1u8, 1u8, 1u8, 1u8],
{
    assert(report_of(modifiers, keys) =~= seq![modifiers, 0u8, 1u8, 1u8, 1u8, 1u8, 1u8, 1u8]);
}

/// An address that a host sets takes effect at the status stage, not at the setup stage.
pub proof fn address_waits_for_the_status_stage(keyboard: Keyboard, packet: Seq<u8>, max_length: nat)
    requires
        crate::usb::hid::parsed_as_set_address(packet),
    ensures
        ({
            let (prepared, answer) = keyboard.after_packet(UsbPid::Setup, 0, packet, max_length);
            let (done, status) = prepared.after_packet(UsbPid::In, 0, Seq::empty(), 0);
            &&& answer == crate::usb::control::acknowledged()
            &&& prepared.address == keyboard.address
            &&& status == crate::usb::control::acknowledged()
            &&& done.address == crate::usb::control::parsed_setup(packet)->0.value
        }),
{
}

/// What setting and clearing one bit of eight leads to.
pub proof fn lemma_modifier_bits(modifiers: u8, k: u8, j: u8)
    by (bit_vector)
    requires
        k < 8,
        j < 8,
    ensures
        k == 0 ==> 1u8 << k == 1,
        k == 1 ==> 1u8 << k == 2,
        k == 2 ==> 1u8 << k == 4,
        ((modifiers | (1u8 << k)) >> k) % 2 == 1,
        ((modifiers & !(1u8 << k)) >> k) % 2 == 0,
        j != k ==> ((modifiers | (1u8 << k)) >> j) % 2 == (modifiers >> j) % 2,
        j != k ==> ((modifiers & !(1u8 << k)) >> j) % 2 == (modifiers >> j) % 2,
{
}

/// Each of the eight modifiers has a bit of its own: it is set while the modifier is pressed, and
/// no other modifier changes it.
pub proof fn a_modifier_has_its_own_bit(modifiers: u8, usage: u8, pressed: bool, other: u8)
    requires
        0xe0 <= usage <= 0xe7,
        other < 8,
    ensures
        ({
            let after = modifiers_after(modifiers, usage, pressed);
            let own = (usage - 0xe0) as u8;
            &&& (after >> own) % 2 == (if pressed {
                1u8
            } else {
                0u8
            })
            &&& other != own ==> (after >> other) % 2 == (modifiers >> other) % 2
        }),
{
    lemma_modifier_bits(modifiers, (usage - 0xe0) as u8, other);
}

proof fn lemma_ascending_set(keys: Set<u8>, bound: nat)
    requires
        bound <= 256,
    ensures
        forall|i: int|
            0 <= i < ascending(keys, bound).len() ==> keys.contains(
                #[trigger] ascending(keys, bound)[i],
            ) && ascending(keys, bound)[i] < bound,
        forall|key: u8|
            key < bound && keys.contains(key) ==> #[trigger] ascending(keys, bound).contains(key),
        forall|i: int, j: int|
            0 <= i < j < ascending(keys, bound).len() ==> ascending(keys, bound)[i] < ascending(
                keys,
                bound,
            )[j],
    decreases bound,
{
    if bound > 0 {
        lemma_ascending_set(keys, (bound - 1) as nat);
        let before = ascending(keys, (bound - 1) as nat);
        let all = ascending(keys, bound);
        let last = (bound - 1) as u8;
        assert forall|key: u8| key < bound && keys.contains(key) implies #[trigger] all.contains(
            key,
        ) by {
            if key < bound - 1 {
                assert(before.contains(key));
                let k = choose|k: int| 0 <= k < before.len() && before[k] == key;
                assert(all[k] == key);
            } else {
                assert(all[all.len() - 1] == key);
            }
        }
    }
}

/// A report has the modifiers in its first byte, and after an empty byte the pressed keys: each of
/// them once, in ascending order and without gaps, as long as there are no more than six.
pub proof fn a_report_lists_the_pressed_keys(modifiers: u8, keys: Set<u8>, key: u8, i: int, j: int)
    requires
        ascending(keys, 256).len() <= 6,
        !keys.contains(0),
    ensures
        ({
            let report = report_of(modifiers, keys);
            &&& report.len() == 8
            &&& report[0] == modifiers
            &&& report[1] == 0
            &&& keys.contains(key) <==> key != 0 && report.skip(2).contains(key)
            &&& 2 <= i < j < 8 && report[j] != 0 ==> 0 < report[i] < report[j]
        }),
{
    let report = report_of(modifiers, keys);
    let listed = ascending(keys, 256);
    lemma_ascending_set(keys, 256);
    let slots = report.skip(2);
    if keys.contains(key) {
        assert(listed.contains(key));
        let k = choose|k: int| 0 <= k < listed.len() && listed[k] == key;
        assert(slots[k] == key);
    }
    if key != 0 && slots.contains(key) {
        let k = choose|k: int| 0 <= k < slots.len() && slots[k] == key;
        assert(report[k + 2] == key);
        assert(listed[k] == key);
    }
    if 2 <= i < j < 8 && report[j] != 0 {
        assert(report[j] == listed[j - 2]);
        assert(report[i] == listed[i - 2]);
        assert(keys.contains(listed[i - 2]));
    }
}

/// The keyboard holds the keys that were pressed and not released. Zero is no key.
pub proof fn the_keyboard_holds_the_pressed_keys(
    keyboard: Keyboard,
    usage: u8,
    pressed: bool,
    other: u8,
)
    requires
        usage != 0,
        !(0xe0 <= usage <= 0xe7),
    ensures
        ({
            let after = keyboard.after_key(usage, pressed);
            &&& after.keys.contains(usage) == pressed
            &&& other != usage ==> after.keys.contains(other) == keyboard.keys.contains(other)
            &&& after.modifiers == keyboard.modifiers
            &&& keyboard.after_key(0, pressed) == keyboard
        }),
{
}

} // verus!
