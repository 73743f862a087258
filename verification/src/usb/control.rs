//! The default control pipe: setup, data and status stages.
use vstd::prelude::*;

use super::UsbPid;
use crate::bytes::{get_le16, range_of};

verus! {

pub const REQUEST_GET_STATUS: u8 = 0x00;
pub const REQUEST_CLEAR_FEATURE: u8 = 0x01;
pub const REQUEST_SET_FEATURE: u8 = 0x03;
pub const REQUEST_SET_ADDRESS: u8 = 0x05;
pub const REQUEST_GET_DESCRIPTOR: u8 = 0x06;
pub const REQUEST_GET_CONFIGURATION: u8 = 0x08;
pub const REQUEST_SET_CONFIGURATION: u8 = 0x09;
pub const REQUEST_GET_INTERFACE: u8 = 0x0a;
pub const REQUEST_SET_INTERFACE: u8 = 0x0b;

pub const HID_GET_REPORT: u8 = 0x01;
pub const HID_GET_IDLE: u8 = 0x02;
pub const HID_GET_PROTOCOL: u8 = 0x03;
pub const HID_SET_REPORT: u8 = 0x09;
pub const HID_SET_IDLE: u8 = 0x0a;
pub const HID_SET_PROTOCOL: u8 = 0x0b;

/// The eight bytes of a setup stage, decoded.
#[derive(Clone, Copy, Debug, PartialEq, Eq)]
pub struct SetupPacket {
    pub request_type: u8,
    pub request: u8,
    pub value: u16,
    pub index: u16,
    pub length: u16,
}

/// The setup packet that `data` encodes; only eight bytes are one.
pub open spec fn parsed_setup(data: Seq<u8>) -> Option<SetupPacket> {
    if data.len() == 8 {
        Some(
            SetupPacket {
                request_type: data[0],
                request: data[1],
                value: crate::bytes::le16(data, 2),
                index: crate::bytes::le16(data, 4),
                length: crate::bytes::le16(data, 6),
            },
        )
    } else {
        None
    }
}

impl SetupPacket {
    pub open spec fn reads(self) -> bool {
        self.request_type & 0x80 != 0
    }

    pub open spec fn kind(self) -> u8 {
        self.request_type & 0x60
    }

    pub fn parse(data: &[u8]) -> (r: Option<Self>)
        ensures
            r == parsed_setup(data@),
    {
        if data.len() == 8 {
            Some(
                SetupPacket {
                    request_type: data[0],
                    request: data[1],
                    value: get_le16(data, 2),
                    index: get_le16(data, 4),
                    length: get_le16(data, 6),
                },
            )
        } else {
            None
        }
    }

    pub fn direction_in(self) -> (r: bool)
        ensures
            r == self.reads(),
    {
        self.request_type & 0x80 != 0
    }

    pub fn request_kind(self) -> (r: u8)
        ensures
            r == self.kind(),
    {
        self.request_type & 0x60
    }
}

/// What a device answers to one packet.
#[derive(Clone, Debug, PartialEq, Eq)]
pub enum UsbPacketResult {
    Success(Vec<u8>),
    Nak,
    Stall,
    NoDevice,
}

/// The answer to a packet with its payload as a sequence.
pub enum Answer {
    Success(Seq<u8>),
    Nak,
    Stall,
    NoDevice,
}

impl View for UsbPacketResult {
    type V = Answer;

    open spec fn view(&self) -> Answer {
        match self {
            UsbPacketResult::Success(data) => Answer::Success(data@),
            UsbPacketResult::Nak => Answer::Nak,
            UsbPacketResult::Stall => Answer::Stall,
            UsbPacketResult::NoDevice => Answer::NoDevice,
        }
    }
}

/// The answer that acknowledges a packet and carries no data.
pub open spec fn acknowledged() -> Answer {
    Answer::Success(Seq::empty())
}

/// What a device makes of a setup packet.
pub enum ControlResponse {
    Data(Vec<u8>),
    Out,
    Ack,
    Stall,
}

/// The response to a setup packet with its data as a sequence.
pub enum Response {
    Data(Seq<u8>),
    Out,
    Ack,
    Stall,
}

impl View for ControlResponse {
    type V = Response;

    open spec fn view(&self) -> Response {
        match self {
            ControlResponse::Data(data) => Response::Data(data@),
            ControlResponse::Out => Response::Out,
            ControlResponse::Ack => Response::Ack,
            ControlResponse::Stall => Response::Stall,
        }
    }
}

/// A device behind a control endpoint. `prepared` and `completed` say what its two
/// methods do to the device's state and what they return.
pub trait ControlDevice: View {
    spec fn valid(&self) -> bool;

    spec fn prepared(device: Self::V, setup: SetupPacket) -> (Self::V, Response);

    spec fn completed(device: Self::V, setup: SetupPacket, data: Seq<u8>) -> (Self::V, bool);

    fn prepare_control(&mut self, setup: SetupPacket) -> (r: ControlResponse)
        requires
            old(self).valid(),
        ensures
            final(self).valid(),
            (final(self)@, r@) == Self::prepared(old(self)@, setup),
    ;

    fn complete_control(&mut self, setup: SetupPacket, data: &[u8]) -> (r: bool)
        requires
            old(self).valid(),
        ensures
            final(self).valid(),
            (final(self)@, r) == Self::completed(old(self)@, setup, data@),
    ;
}

pub enum ControlState {
    Idle,
    DataIn { setup: SetupPacket, data: Vec<u8>, offset: usize },
    DataOut { setup: SetupPacket, data: Vec<u8> },
    StatusIn { setup: SetupPacket, data: Vec<u8> },
    StatusOut,
    Stalled,
}

/// The stage that a control transfer has reached.
pub enum Stage {
    Idle,
    DataIn { setup: SetupPacket, data: Seq<u8>, offset: nat },
    DataOut { setup: SetupPacket, data: Seq<u8> },
    StatusIn { setup: SetupPacket, data: Seq<u8> },
    StatusOut,
    Stalled,
}

impl View for ControlState {
    type V = Stage;

    open spec fn view(&self) -> Stage {
        match self {
            ControlState::Idle => Stage::Idle,
            ControlState::DataIn { setup, data, offset } => Stage::DataIn {
                setup: *setup,
                data: data@,
                offset: *offset as nat,
            },
            ControlState::DataOut { setup, data } => Stage::DataOut { setup: *setup, data: data@ },
            ControlState::StatusIn { setup, data } => Stage::StatusIn {
                setup: *setup,
                data: data@,
            },
            ControlState::StatusOut => Stage::StatusOut,
            ControlState::Stalled => Stage::Stalled,
        }
    }
}

/// What holds of every stage between packets: data to send is never overrun, and never
/// more is collected than the setup packet announced.
pub open spec fn stage_valid(stage: Stage) -> bool {
    match stage {
        Stage::DataIn { setup, data, offset } => offset < data.len() <= setup.length,
        Stage::DataOut { setup, data } => data.len() < setup.length,
        Stage::StatusIn { setup, data } => data.len() == setup.length,
        _ => true,
    }
}

/// The stage that a setup packet leads to, given the device's response to it.
pub open spec fn stage_after_setup(setup: SetupPacket, response: Response) -> Stage {
    match response {
        Response::Data(data) => if !setup.reads() {
            Stage::Stalled
        } else if data.len() == 0 || setup.length == 0 {
            Stage::StatusOut
        } else if data.len() <= setup.length {
            Stage::DataIn { setup, data, offset: 0 }
        } else {
            Stage::DataIn { setup, data: data.take(setup.length as int), offset: 0 }
        },
        Response::Out => if !setup.reads() && setup.length != 0 {
            Stage::DataOut { setup, data: Seq::empty() }
        } else {
            Stage::Stalled
        },
        Response::Ack => if setup.length == 0 {
            Stage::StatusIn { setup, data: Seq::empty() }
        } else {
            Stage::Stalled
        },
        Response::Stall => Stage::Stalled,
    }
}

/// A packet in the state of the control pipe: the next stage, the next state of the
/// device, and the answer.
pub open spec fn control_step<D: ControlDevice>(
    stage: Stage,
    device: D::V,
    pid: UsbPid,
    packet: Seq<u8>,
    max_length: nat,
) -> (Stage, D::V, Answer) {
    if pid == UsbPid::Setup {
        match parsed_setup(packet) {
            None => (Stage::Stalled, device, Answer::Stall),
            Some(setup) => {
                let (device2, response) = D::prepared(device, setup);
                let next = stage_after_setup(setup, response);
                (
                    next,
                    device2,
                    if next is Stalled {
                        Answer::Stall
                    } else {
                        acknowledged()
                    },
                )
            },
        }
    } else {
        match stage {
            Stage::DataIn { setup, data, offset } if pid == UsbPid::In => {
                let left = data.skip(offset as int);
                if left.len() <= max_length {
                    (Stage::StatusOut, device, Answer::Success(left))
                } else {
                    (
                        Stage::DataIn { setup, data, offset: offset + max_length },
                        device,
                        Answer::Success(left.take(max_length as int)),
                    )
                }
            },
            Stage::DataOut { setup, data } if pid == UsbPid::Out => {
                if data.len() + packet.len() > setup.length {
                    (Stage::Stalled, device, Answer::Stall)
                } else if data.len() + packet.len() == setup.length {
                    (Stage::StatusIn { setup, data: data + packet }, device, acknowledged())
                } else {
                    (Stage::DataOut { setup, data: data + packet }, device, acknowledged())
                }
            },
            Stage::StatusIn { setup, data } if pid == UsbPid::In && max_length == 0 => {
                let (device2, success) = D::completed(device, setup, data);
                if success {
                    (Stage::Idle, device2, acknowledged())
                } else {
                    (Stage::Stalled, device2, Answer::Stall)
                }
            },
            Stage::StatusOut if pid == UsbPid::Out && packet.len() == 0 => (
                Stage::Idle,
                device,
                acknowledged(),
            ),
            Stage::Idle => (Stage::Idle, device, Answer::Stall),
            _ => (Stage::Stalled, device, Answer::Stall),
        }
    }
}

pub struct ControlEndpoint {
    state: ControlState,
}

impl View for ControlEndpoint {
    type V = Stage;

    closed spec fn view(&self) -> Stage {
        self.state@
    }
}

impl ControlEndpoint {
    pub open spec fn valid(&self) -> bool {
        stage_valid(self@)
    }

    pub fn new() -> (r: Self)
        ensures
            r@ == Stage::Idle,
            r.valid(),
    {
        ControlEndpoint { state: ControlState::Idle }
    }

    pub fn reset(&mut self)
        ensures
            final(self)@ == Stage::Idle,
            final(self).valid(),
    {
        self.state = ControlState::Idle;
    }

    /// Gives the device one packet of the control pipe.
    pub fn packet<D: ControlDevice>(
        &mut self,
        device: &mut D,
        pid: UsbPid,
        packet_data: &[u8],
        max_length: usize,
    ) -> (r: UsbPacketResult)
        requires
            old(self).valid(),
            old(device).valid(),
        ensures
            final(self).valid(),
            final(device).valid(),
            (final(self)@, final(device)@, r@) == control_step::<D>(
                old(self)@,
                old(device)@,
                pid,
                packet_data@,
                max_length as nat,
            ),
    {
        if pid == UsbPid::Setup {
            let setup = match SetupPacket::parse(packet_data) {
                Some(setup) => setup,
                None => {
                    self.state = ControlState::Stalled;
                    return UsbPacketResult::Stall;
                },
            };
            let state = match device.prepare_control(setup) {
                ControlResponse::Data(mut data) => {
                    if setup.direction_in() {
                        let ghost whole = data@;
                        data.truncate(setup.length as usize);
                        if data.len() == 0 {
                            ControlState::StatusOut
                        } else {
                            assert(whole.len() > setup.length ==> data@ =~= whole.take(
                                setup.length as int,
                            ));
                            assert(whole.len() == setup.length ==> data@ =~= whole);
                            ControlState::DataIn { setup, data, offset: 0 }
                        }
                    } else {
                        ControlState::Stalled
                    }
                },
                ControlResponse::Out => {
                    if !setup.direction_in() && setup.length != 0 {
                        ControlState::DataOut { setup, data: Vec::new() }
                    } else {
                        ControlState::Stalled
                    }
                },
                ControlResponse::Ack => {
                    if setup.length == 0 {
                        ControlState::StatusIn { setup, data: Vec::new() }
                    } else {
                        ControlState::Stalled
                    }
                },
                ControlResponse::Stall => ControlState::Stalled,
            };
            let stalled = matches!(state, ControlState::Stalled);
            self.state = state;
            return if stalled {
                UsbPacketResult::Stall
            } else {
                UsbPacketResult::Success(Vec::new())
            };
        }
        let mut state = ControlState::Stalled;
        std::mem::swap(&mut state, &mut self.state);
        match state {
            ControlState::DataIn { setup, data, offset } => {
                if pid != UsbPid::In {
                    return UsbPacketResult::Stall;
                }
                let left: usize = data.len() - offset;
                let ghost rest = data@.skip(offset as int);
                if left <= max_length {
                    let result = range_of(&data, offset, data.len());
                    assert(result@ =~= rest);
                    self.state = ControlState::StatusOut;
                    UsbPacketResult::Success(result)
                } else {
                    let result = range_of(&data, offset, offset + max_length);
                    assert(result@ =~= rest.take(max_length as int));
                    self.state = ControlState::DataIn { setup, data, offset: offset + max_length };
                    UsbPacketResult::Success(result)
                }
            },
            ControlState::DataOut { setup, mut data } => {
                if pid != UsbPid::Out {
                    return UsbPacketResult::Stall;
                }
                let remaining: usize = setup.length as usize - data.len();
                if packet_data.len() > remaining {
                    return UsbPacketResult::Stall;
                }
                let ghost before = data@;
                data.extend_from_slice(packet_data);
                assert(data@ =~= before + packet_data@);
                if data.len() == setup.length as usize {
                    self.state = ControlState::StatusIn { setup, data };
                } else {
                    self.state = ControlState::DataOut { setup, data };
                }
                UsbPacketResult::Success(Vec::new())
            },
            ControlState::StatusIn { setup, data } => {
                if pid != UsbPid::In || max_length != 0 {
                    return UsbPacketResult::Stall;
                }
                if device.complete_control(setup, &data) {
                    self.state = ControlState::Idle;
                    UsbPacketResult::Success(Vec::new())
                } else {
                    UsbPacketResult::Stall
                }
            },
            ControlState::StatusOut => {
                if pid != UsbPid::Out || packet_data.len() != 0 {
                    return UsbPacketResult::Stall;
                }
                self.state = ControlState::Idle;
                UsbPacketResult::Success(Vec::new())
            },
            ControlState::Idle => {
                self.state = ControlState::Idle;
                UsbPacketResult::Stall
            },
            ControlState::Stalled => UsbPacketResult::Stall,
        }
    }
}

impl Default for ControlEndpoint {
    fn default() -> (r: Self)
        ensures
            r@ == Stage::Idle,
            r.valid(),
    {
        Self::new()
    }
}

/// Whatever the device answers, a control transfer keeps its stage valid.
pub proof fn stage_stays_valid<D: ControlDevice>(
    stage: Stage,
    device: D::V,
    pid: UsbPid,
    packet: Seq<u8>,
    max_length: nat,
)
    requires
        stage_valid(stage),
    ensures
        stage_valid(control_step::<D>(stage, device, pid, packet, max_length).0),
{
}

/// Only a status stage that the host reads completes a request: every other packet but a
/// setup packet leaves the device as it is.
pub proof fn device_changes_only_at_setup_and_status<D: ControlDevice>(
    stage: Stage,
    device: D::V,
    pid: UsbPid,
    packet: Seq<u8>,
    max_length: nat,
)
    requires
        pid != UsbPid::Setup,
        !(stage is StatusIn && pid == UsbPid::In && max_length == 0),
    ensures
        control_step::<D>(stage, device, pid, packet, max_length).1 == device,
{
}

/// The stage and the device after the host has read some packets, with room for a number of
/// bytes each, and the answers.
pub open spec fn packets_read<D: ControlDevice>(stage: Stage, device: D::V, rooms: Seq<nat>) -> (
    Stage,
    D::V,
    Seq<Answer>,
)
    decreases rooms.len(),
{
    if rooms.len() == 0 {
        (stage, device, Seq::empty())
    } else {
        let (stage2, device2, answers) = packets_read::<D>(stage, device, rooms.drop_last());
        let (stage3, device3, answer) = control_step::<D>(
            stage2,
            device2,
            UsbPid::In,
            Seq::empty(),
            rooms.last(),
        );
        (stage3, device3, answers.push(answer))
    }
}

/// The stage and the device after the host has written some packets, and the answers.
pub open spec fn packets_written<D: ControlDevice>(
    stage: Stage,
    device: D::V,
    packets: Seq<Seq<u8>>,
) -> (Stage, D::V, Seq<Answer>)
    decreases packets.len(),
{
    if packets.len() == 0 {
        (stage, device, Seq::empty())
    } else {
        let (stage2, device2, answers) = packets_written::<D>(stage, device, packets.drop_last());
        let (stage3, device3, answer) = control_step::<D>(
            stage2,
            device2,
            UsbPid::Out,
            packets.last(),
            0,
        );
        (stage3, device3, answers.push(answer))
    }
}

/// What some answers deliver together, if each of them is a success.
pub open spec fn delivered(answers: Seq<Answer>) -> Option<Seq<u8>>
    decreases answers.len(),
{
    if answers.len() == 0 {
        Some(Seq::empty())
    } else {
        match (delivered(answers.drop_last()), answers.last()) {
            (Some(before), Answer::Success(data)) => Some(before + data),
            _ => None,
        }
    }
}

/// How many bytes there is room for in all.
pub open spec fn room_of(rooms: Seq<nat>) -> nat
    decreases rooms.len(),
{
    if rooms.len() == 0 {
        0
    } else {
        room_of(rooms.drop_last()) + rooms.last()
    }
}

/// The bytes of some packets, one after the other.
pub open spec fn joined(packets: Seq<Seq<u8>>) -> Seq<u8>
    decreases packets.len(),
{
    if packets.len() == 0 {
        Seq::empty()
    } else {
        joined(packets.drop_last()) + packets.last()
    }
}

proof fn lemma_packets_read<D: ControlDevice>(
    setup: SetupPacket,
    data: Seq<u8>,
    device: D::V,
    rooms: Seq<nat>,
)
    requires
        data.len() > 0,
        rooms.len() > 0 ==> room_of(rooms.drop_last()) < data.len(),
    ensures
        ({
            let (stage, device2, answers) = packets_read::<D>(
                Stage::DataIn { setup, data, offset: 0 },
                device,
                rooms,
            );
            let room = room_of(rooms);
            &&& device2 == device
            &&& room < data.len() ==> stage == (Stage::DataIn { setup, data, offset: room })
                && delivered(answers) == Some(data.take(room as int))
            &&& room >= data.len() ==> stage == Stage::StatusOut && delivered(answers) == Some(data)
        }),
    decreases rooms.len(),
{
    let first = Stage::DataIn { setup, data, offset: 0 };
    if rooms.len() == 0 {
        assert(data.take(0) =~= Seq::<u8>::empty());
    } else {
        let before = rooms.drop_last();
        if before.len() > 0 {
            assert(room_of(before) == room_of(before.drop_last()) + before.last());
        }
        lemma_packets_read::<D>(setup, data, device, before);
        let (stage2, device2, answers) = packets_read::<D>(first, device, before);
        let (stage3, device3, answer) = control_step::<D>(
            stage2,
            device2,
            UsbPid::In,
            Seq::empty(),
            rooms.last(),
        );
        let at = room_of(before) as int;
        let left = data.skip(at);
        assert(answers.push(answer).drop_last() =~= answers);
        if left.len() <= rooms.last() {
            assert(data.take(at) + left =~= data);
        } else {
            assert(data.take(at) + left.take(rooms.last() as int) =~= data.take(
                room_of(rooms) as int,
            ));
        }
    }
}

/// The packets of a transfer to the host make up its data: the host reads until it has what
/// the device offers, or what it asked for where that is less, and then ends the transfer.
pub proof fn packets_to_the_host_make_up_the_data<D: ControlDevice>(
    stage: Stage,
    device: D::V,
    packet: Seq<u8>,
    data: Seq<u8>,
    rooms: Seq<nat>,
)
    requires
        parsed_setup(packet) matches Some(setup) && setup.reads() && setup.length > 0
            && D::prepared(device, setup).1 == Response::Data(data),
        data.len() > 0,
        rooms.len() > 0,
        room_of(rooms.drop_last()) < data.len(),
        room_of(rooms.drop_last()) < parsed_setup(packet)->0.length,
        room_of(rooms) >= data.len() || room_of(rooms) >= parsed_setup(packet)->0.length,
    ensures
        ({
            let setup = parsed_setup(packet)->0;
            let prepared = D::prepared(device, setup).0;
            let wanted = if data.len() <= setup.length {
                data
            } else {
                data.take(setup.length as int)
            };
            let (first, device1, answer) = control_step::<D>(
                stage,
                device,
                UsbPid::Setup,
                packet,
                0,
            );
            let (second, device2, answers) = packets_read::<D>(first, device1, rooms);
            &&& answer == acknowledged()
            &&& delivered(answers) == Some(wanted)
            &&& device2 == prepared
            &&& control_step::<D>(second, device2, UsbPid::Out, Seq::empty(), 0) == (
                Stage::Idle,
                prepared,
                acknowledged(),
            )
        }),
{
    let setup = parsed_setup(packet)->0;
    let prepared = D::prepared(device, setup).0;
    let wanted = if data.len() <= setup.length {
        data
    } else {
        data.take(setup.length as int)
    };
    lemma_packets_read::<D>(setup, wanted, prepared, rooms);
}

proof fn lemma_packets_written<D: ControlDevice>(
    setup: SetupPacket,
    device: D::V,
    packets: Seq<Seq<u8>>,
)
    requires
        setup.length > 0,
        joined(packets).len() <= setup.length,
        packets.len() > 0 ==> joined(packets.drop_last()).len() < setup.length,
    ensures
        ({
            let (stage, device2, answers) = packets_written::<D>(
                Stage::DataOut { setup, data: Seq::empty() },
                device,
                packets,
            );
            let data = joined(packets);
            &&& device2 == device
            &&& answers.len() == packets.len()
            &&& forall|i: int|
                0 <= i < answers.len() ==> #[trigger] answers[i] == acknowledged()
            &&& stage == (if data.len() == setup.length {
                Stage::StatusIn { setup, data }
            } else {
                Stage::DataOut { setup, data }
            })
        }),
    decreases packets.len(),
{
    if packets.len() > 0 {
        let before = packets.drop_last();
        if before.len() > 0 {
            assert(joined(before) == joined(before.drop_last()) + before.last());
        }
        lemma_packets_written::<D>(setup, device, before);
    }
}

/// The packets of a transfer to the device are collected, and the device gets them once: the
/// status stage completes the request with all of them, and no packet before it nor after it
/// touches the device.
pub proof fn packets_to_the_device_complete_once<D: ControlDevice>(
    stage: Stage,
    device: D::V,
    packet: Seq<u8>,
    packets: Seq<Seq<u8>>,
    pid: UsbPid,
    later: Seq<u8>,
    room: nat,
)
    requires
        parsed_setup(packet) matches Some(setup) && !setup.reads() && setup.length > 0
            && D::prepared(device, setup).1 == Response::Out,
        packets.len() > 0,
        joined(packets).len() == parsed_setup(packet)->0.length,
        packets.last().len() > 0,
        pid != UsbPid::Setup,
    ensures
        ({
            let setup = parsed_setup(packet)->0;
            let prepared = D::prepared(device, setup).0;
            let (first, device1, answer) = control_step::<D>(
                stage,
                device,
                UsbPid::Setup,
                packet,
                0,
            );
            let (second, device2, answers) = packets_written::<D>(first, device1, packets);
            let (third, device3, status) = control_step::<D>(
                second,
                device2,
                UsbPid::In,
                Seq::empty(),
                0,
            );
            let (done, accepted) = D::completed(prepared, setup, joined(packets));
            let (fourth, device4, _) = control_step::<D>(third, device3, pid, later, room);
            &&& answer == acknowledged()
            &&& answers.len() == packets.len()
            &&& forall|i: int|
                0 <= i < answers.len() ==> #[trigger] answers[i] == acknowledged()
            &&& device2 == prepared
            &&& device3 == done
            &&& status == (if accepted {
                acknowledged()
            } else {
                Answer::Stall
            })
            &&& third == (if accepted {
                Stage::Idle
            } else {
                Stage::Stalled
            })
            &&& device4 == done
            &&& fourth == third
        }),
{
    let setup = parsed_setup(packet)->0;
    let prepared = D::prepared(device, setup).0;
    lemma_packets_written::<D>(setup, prepared, packets);
}

/// A setup packet names its request: the kind in byte 0, whose top bit tells whether the host
/// reads, the request in byte 1, and three numbers of two bytes each.
pub proof fn a_setup_packet_names_its_request(packet: Seq<u8>)
    requires
        packet.len() == 8,
    ensures
        parsed_setup(packet) matches Some(setup) && setup.reads() == (packet[0] >= 128)
            && setup.request_type == packet[0] && setup.request == packet[1] && setup.value
            == crate::bytes::number_at(packet, 2, 2) && setup.index == crate::bytes::number_at(
            packet,
            4,
            2,
        ) && setup.length == crate::bytes::number_at(packet, 6, 2),
{
    crate::bytes::le16_is_a_number(packet, 2);
    crate::bytes::le16_is_a_number(packet, 4);
    crate::bytes::le16_is_a_number(packet, 6);
    crate::bytes::lemma_byte_bits(packet[0]);
}

} // verus!
