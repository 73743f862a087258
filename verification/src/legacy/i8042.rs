//! A PS/2 controller with a keyboard and a mouse.
use vstd::prelude::*;

use std::collections::{HashMap, VecDeque};

use crate::legacy::keymap::KeyboardMap;

verus! {

pub const OFFSET_DATA: u64 = 0;
pub const OFFSET_PORT_B: u64 = 1;
pub const OFFSET_TIMER_LATCH: u64 = 2;
pub const OFFSET_MODE_SELECT: u64 = 3;
pub const OFFSET_COMMAND: u64 = 4;

pub const CTR_KBD_INT: u8 = 0x01;
pub const CTR_AUX_INT: u8 = 0x02;
pub const CTR_SYSTEM_FLAG: u8 = 0x04;
pub const CTR_KBD_DISABLE: u8 = 0x10;
pub const CTR_AUX_DISABLE: u8 = 0x20;
/// Translation of scan code set 2 to set 1.
pub const CTR_XLATE: u8 = 0x40;
/// Both interrupts, the system flag and the translation.
pub const CTR_RESET_VALUE: u8 = 0x47;

pub const CMD_READ_PORT_A: u8 = 0x20;
pub const CMD_READ_PORT_B: u8 = 0x21;
pub const CMD_WRITE_PORT_A: u8 = 0x60;
pub const CMD_DISABLE_SECONDARY: u8 = 0xa7;
pub const CMD_ENABLE_SECONDARY: u8 = 0xa8;
pub const CMD_TEST_SECONDARY: u8 = 0xa9;
pub const CMD_TEST_CONTROLLER: u8 = 0xaa;
pub const CMD_TEST_KEYBOARD: u8 = 0xab;
pub const CMD_DISABLE_KEYBOARD: u8 = 0xad;
pub const CMD_ENABLE_KEYBOARD: u8 = 0xae;
pub const CMD_READ_KBD_INPUT: u8 = 0xd0;
pub const CMD_WRITE_KBD_CTRL: u8 = 0xd1;
pub const CMD_WRITE_KBD_OUTPUT: u8 = 0xd2;
pub const CMD_WRITE_SECONDARY_OUTPUT: u8 = 0xd3;
pub const CMD_WRITE_TO_AUX: u8 = 0xd4;
pub const CMD_SELF_TEST: u8 = 0xf0;
pub const CMD_RESET_CONTROLLER: u8 = 0xfe;

pub const STATUS_OUTPUT_BUFFER_FULL: u8 = 0x01;
pub const STATUS_SYSTEM_FLAG: u8 = 0x04;
pub const STATUS_KEYLOCK: u8 = 0x10;
pub const STATUS_AUX_OUTPUT_BUFFER_FULL: u8 = 0x20;
/// The system flag and the keylock bit, which are always read as ones.
pub const STATUS_FIXED: u8 = 0x14;
/// Both output buffer bits.
pub const STATUS_OUTPUT_BITS: u8 = 0x21;

pub const MAX_DATA_BUFFER: usize = 32;

/// Acknowledges a command to a device.
pub const ACK: u8 = 0xfa;

/// An input event for the guest.
#[derive(Debug, Clone, Copy)]
pub enum InputEvent {
    /// A key, by its X11 keysym.
    Keyboard { key: u32, pressed: bool },
    /// The mouse buttons and a motion.
    Mouse { buttons: u8, dx: i16, dy: i16 },
}

/// Mouse input that no packet has carried yet.
#[derive(Debug, Clone, Copy)]
pub struct PendingMouseEvent {
    pub buttons: u8,
    pub buttons_dirty: bool,
    pub dx: i32,
    pub dy: i32,
}

/// One of the two interrupt lines of the controller.
#[derive(Debug, Clone, Copy, PartialEq, Eq)]
pub enum IrqLine {
    Keyboard,
    Mouse,
}

/// The state of the controller and its devices. `output` is what the guest reads at the data
/// port, and `output_aux` says of each byte whether it comes from the mouse; `interrupts` are
/// those still to be triggered.
pub struct Ps2 {
    pub status: u8,
    pub output: Seq<u8>,
    pub output_aux: Seq<bool>,
    pub port_a: u8,
    pub port_b: u8,
    pub ctr: u8,
    pub control_reg: u8,
    pub keyboard_enabled: bool,
    pub keyboard_scancode_set: u8,
    pub pressed_keys: Map<u32, bool>,
    pub mouse_enabled: bool,
    pub mouse_reporting_enabled: bool,
    pub mouse_resolution: u8,
    pub mouse_sample_rate: u8,
    pub mouse_scaling_21: bool,
    pub mouse_buttons: u8,
    pub pending_mouse_events: Seq<PendingMouseEvent>,
    pub pending_command: Option<u8>,
    pub pending_mouse_command: Option<u8>,
    pub pending_keyboard_command: Option<u8>,
    pub input: Seq<InputEvent>,
    pub keyboard_irq: bool,
    pub mouse_irq: bool,
    pub interrupts: Seq<IrqLine>,
    pub reset_requested: bool,
}

/// `x` limited to the values of an `i32`.
pub open spec fn saturated(x: int) -> i32 {
    if x > i32::MAX {
        i32::MAX
    } else if x < i32::MIN {
        i32::MIN
    } else {
        x as i32
    }
}

/// The part of a motion that one packet carries.
pub open spec fn packet_part(motion: i32) -> i8 {
    if motion > 127 {
        127
    } else if motion < -128 {
        (-128) as i8
    } else {
        motion as i8
    }
}

/// A mouse packet: buttons, a bit that is always set, the signs, and the motion.
pub open spec fn packet(buttons: u8, x: i8, y: i8) -> Seq<u8> {
    let first = 0x08 | buttons;
    let with_x = if x < 0 {
        first | 0x10
    } else {
        first
    };
    let with_y = if y < 0 {
        with_x | 0x20
    } else {
        with_x
    };
    seq![with_y, x as u8, y as u8]
}

impl Ps2 {
    pub open spec fn valid(self) -> bool {
        &&& self.output.len() <= MAX_DATA_BUFFER
        &&& self.output_aux.len() == self.output.len()
        &&& self.pending_mouse_command matches Some(command) ==> command == 0xe8 || command == 0xf3
    }

    /// Whether the byte that the guest reads next comes from the mouse.
    pub open spec fn next_is_aux(self) -> bool {
        self.output_aux.len() > 0 && self.output_aux[0]
    }

    /// The status bits follow the byte that the guest reads next.
    pub open spec fn status_updated(self) -> Ps2 {
        Ps2 {
            status: if self.output.len() == 0 {
                self.status & !STATUS_OUTPUT_BITS
            } else if self.next_is_aux() {
                (self.status | STATUS_OUTPUT_BUFFER_FULL) | STATUS_AUX_OUTPUT_BUFFER_FULL
            } else {
                (self.status | STATUS_OUTPUT_BUFFER_FULL) & !STATUS_AUX_OUTPUT_BUFFER_FULL
            },
            ..self
        }
    }

    /// The interrupt of the byte that the guest reads next, if it is enabled and wired.
    pub open spec fn interrupted(self) -> Ps2 {
        if self.next_is_aux() {
            if self.ctr & (CTR_AUX_INT | CTR_AUX_DISABLE) == CTR_AUX_INT && self.mouse_irq {
                Ps2 { interrupts: self.interrupts.push(IrqLine::Mouse), ..self }
            } else {
                self
            }
        } else if self.ctr & (CTR_KBD_INT | CTR_KBD_DISABLE) == CTR_KBD_INT && self.keyboard_irq {
            Ps2 { interrupts: self.interrupts.push(IrqLine::Keyboard), ..self }
        } else {
            self
        }
    }

    /// Some bytes for the guest, from the mouse or not; what does not fit is dropped. The
    /// first byte of an empty buffer updates the status and interrupts.
    pub open spec fn answered(self, bytes: Seq<u8>, aux: bool) -> Ps2 {
        let fitting = self.fitting(bytes);
        let queued = Ps2 {
            output: self.output + fitting,
            output_aux: self.output_aux + Seq::new(fitting.len(), |i: int| aux),
            ..self
        };
        if self.output.len() == 0 && fitting.len() > 0 {
            queued.status_updated().interrupted()
        } else {
            queued
        }
    }

    /// What the output buffer has room for.
    pub open spec fn fitting(self, bytes: Seq<u8>) -> Seq<u8> {
        let room = MAX_DATA_BUFFER - self.output.len();
        if bytes.len() <= room {
            bytes
        } else {
            bytes.take(room)
        }
    }

    /// A byte for the guest.
    pub open spec fn sent(self, byte: u8, aux: bool) -> Ps2 {
        self.answered(seq![byte], aux)
    }

    /// Some bytes for the guest, without an interrupt; what does not fit is dropped.
    pub open spec fn queued(self, bytes: Seq<u8>, aux: bool) -> Ps2 {
        let fitting = self.fitting(bytes);
        (Ps2 {
            output: self.output + fitting,
            output_aux: self.output_aux + Seq::new(fitting.len(), |i: int| aux),
            ..self
        }).status_updated()
    }

    /// A key event, and whether scan codes were added to the output buffer. A key that is
    /// already in the state of the event is ignored, and so is one that the keyboard lacks.
    pub open spec fn keyed(self, key: u32, pressed: bool) -> (Ps2, bool) {
        let send_set1 = self.ctr & CTR_XLATE != 0 || self.keyboard_scancode_set == 1;
        let codes = crate::legacy::keymap::scan_code_bytes(key, pressed, send_set1);
        if !self.keyboard_enabled {
            (self, false)
        } else if self.pressed_keys.contains_key(key) && self.pressed_keys[key] == pressed {
            (self, false)
        } else if codes.len() == 0 {
            (self, false)
        } else {
            (
                (Ps2 {
                    pressed_keys: self.pressed_keys.insert(key, pressed),
                    ..self
                }).queued(codes, false),
                self.output.len() < MAX_DATA_BUFFER,
            )
        }
    }

    /// A mouse event added to the pending ones: motion with the same buttons is summed up.
    pub open spec fn mouse_queued(self, buttons: u8, dx: i16, dy: i16) -> Ps2 {
        let pressed = buttons & 0x07;
        let changed = self.mouse_buttons != pressed;
        let pending = self.pending_mouse_events;
        let added = if dx == 0 && dy == 0 && !changed {
            pending
        } else if pending.len() > 0 && pending.last().buttons == pressed {
            pending.drop_last().push(
                PendingMouseEvent {
                    buttons: pressed,
                    buttons_dirty: pending.last().buttons_dirty || changed,
                    dx: saturated(pending.last().dx + dx),
                    dy: saturated(pending.last().dy + dy),
                },
            )
        } else {
            pending.push(
                PendingMouseEvent {
                    buttons: pressed,
                    buttons_dirty: changed,
                    dx: dx as i32,
                    dy: dy as i32,
                },
            )
        };
        Ps2 { mouse_buttons: pressed, pending_mouse_events: added, ..self }
    }

    /// A mouse event, and whether packets were made.
    pub open spec fn moused(self, buttons: u8, dx: i16, dy: i16) -> (Ps2, bool) {
        if !self.mouse_enabled || !self.mouse_reporting_enabled {
            (self, false)
        } else {
            self.mouse_queued(buttons, dx, dy).flushed()
        }
    }

    /// The oldest pending mouse event made into a packet; what the packet does not carry
    /// stays pending.
    pub open spec fn packet_made(self) -> Ps2 {
        let event = self.pending_mouse_events[0];
        let x = packet_part(event.dx);
        let y = packet_part(event.dy);
        let rest = PendingMouseEvent {
            buttons: event.buttons,
            buttons_dirty: false,
            dx: (event.dx - x) as i32,
            dy: (event.dy - y) as i32,
        };
        let others = self.pending_mouse_events.skip(1);
        let made = self.queued(packet(event.buttons, x, y), true);
        Ps2 {
            pending_mouse_events: if rest.dx == 0 && rest.dy == 0 {
                others
            } else {
                seq![rest] + others
            },
            ..made
        }
    }

    /// Packets made as long as there is room for a whole one.
    pub open spec fn packets_made(self) -> Ps2
        decreases MAX_DATA_BUFFER - self.output.len(),
    {
        if self.output.len() + 3 > MAX_DATA_BUFFER || self.pending_mouse_events.len() == 0 {
            self
        } else {
            self.packet_made().packets_made()
        }
    }

    pub open spec fn flushed(self) -> (Ps2, bool) {
        if !self.mouse_enabled || !self.mouse_reporting_enabled {
            (self, false)
        } else {
            (
                self.packets_made(),
                self.output.len() + 3 <= MAX_DATA_BUFFER && self.pending_mouse_events.len() > 0,
            )
        }
    }

    /// An input event handled.
    pub open spec fn event_handled(self, event: InputEvent) -> Ps2 {
        match event {
            InputEvent::Keyboard { key, pressed } => self.keyed(key, pressed).0,
            InputEvent::Mouse { buttons, dx, dy } => self.moused(buttons, dx, dy).0,
        }
    }

    /// The input events from the `n`th on handled.
    pub open spec fn events_handled(self, events: Seq<InputEvent>, n: nat) -> Ps2
        decreases events.len() - n,
    {
        if n >= events.len() {
            self
        } else {
            self.event_handled(events[n as int]).events_handled(events, n + 1)
        }
    }

    pub open spec fn input_drained(self) -> Ps2 {
        (Ps2 { input: Seq::empty(), ..self }).events_handled(self.input, 0)
    }

    /// A write to the command port.
    pub open spec fn commanded(self, cmd: u8) -> Ps2 {
        match cmd {
            CMD_RESET_CONTROLLER => Ps2 { reset_requested: true, ..self },
            CMD_TEST_CONTROLLER | CMD_SELF_TEST => self.sent(0x55, false),
            CMD_DISABLE_KEYBOARD => Ps2 {
                keyboard_enabled: false,
                port_a: self.port_a & !0x01,
                ctr: self.ctr | CTR_KBD_DISABLE,
                ..self
            },
            CMD_ENABLE_KEYBOARD => Ps2 {
                keyboard_enabled: true,
                port_a: self.port_a | 0x01,
                ctr: self.ctr & !CTR_KBD_DISABLE,
                ..self
            },
            CMD_DISABLE_SECONDARY => Ps2 {
                mouse_enabled: false,
                pending_mouse_events: Seq::empty(),
                port_a: self.port_a & !0x10,
                ctr: self.ctr | CTR_AUX_DISABLE,
                ..self
            },
            CMD_ENABLE_SECONDARY => Ps2 {
                mouse_enabled: true,
                port_a: self.port_a | 0x10,
                ctr: self.ctr & !CTR_AUX_DISABLE,
                ..self
            },
            CMD_TEST_KEYBOARD | CMD_TEST_SECONDARY => self.sent(0x00, false),
            CMD_READ_PORT_A => self.sent(self.ctr, false),
            CMD_READ_PORT_B => self.sent(self.port_b, false),
            CMD_READ_KBD_INPUT => self.sent(self.control_reg, false),
            CMD_WRITE_PORT_A | CMD_WRITE_KBD_OUTPUT | CMD_WRITE_SECONDARY_OUTPUT | CMD_WRITE_TO_AUX
            | CMD_WRITE_KBD_CTRL => Ps2 { pending_command: Some(cmd), ..self },
            _ => self,
        }
    }

    /// A write to the data port: the parameter of a pending command, or else a command to the
    /// keyboard.
    pub open spec fn data_written(self, data: u8) -> Ps2 {
        match self.pending_command {
            None => self.keyboard_commanded(data),
            Some(cmd) => {
                let done = match cmd {
                    CMD_WRITE_KBD_OUTPUT => self.sent(data, false),
                    CMD_WRITE_SECONDARY_OUTPUT => self.sent(data, true),
                    CMD_WRITE_TO_AUX => self.mouse_commanded(data),
                    CMD_WRITE_PORT_A => Ps2 { ctr: data, ..self },
                    CMD_WRITE_KBD_CTRL => Ps2 { control_reg: data, ..self },
                    _ => self,
                };
                Ps2 { pending_command: None, ..done }
            },
        }
    }

    /// A command to the keyboard, or the parameter of its pending one.
    pub open spec fn keyboard_commanded(self, command: u8) -> Ps2 {
        self.keyboard_set(command).answered(self.keyboard_reply(command), false)
    }

    /// What a command changes in the keyboard.
    pub open spec fn keyboard_set(self, command: u8) -> Ps2 {
        match self.pending_keyboard_command {
            Some(pending) => Ps2 {
                pending_keyboard_command: None,
                keyboard_scancode_set: if pending == 0xf0 && 1 <= command <= 3 {
                    command
                } else {
                    self.keyboard_scancode_set
                },
                ..self
            },
            None => match command {
                0xed | 0xf0 | 0xf3 => Ps2 { pending_keyboard_command: Some(command), ..self },
                0xf4 | 0xff => Ps2 { keyboard_enabled: true, ..self },
                0xf5 | 0xf6 => Ps2 { keyboard_enabled: false, ..self },
                _ => self,
            },
        }
    }

    /// What the keyboard answers to a command.
    pub open spec fn keyboard_reply(self, command: u8) -> Seq<u8> {
        match self.pending_keyboard_command {
            Some(pending) => if pending == 0xf0 && command == 0 {
                seq![ACK, self.keyboard_scancode_set]
            } else {
                seq![ACK]
            },
            None => match command {
                0xff => seq![ACK, 0xaa],
                0xf2 => seq![ACK, 0xab, 0x83],
                0xee => seq![0xee],
                _ => seq![ACK],
            },
        }
    }

    /// The mouse with its default settings, reporting nothing.
    pub open spec fn mouse_defaults(self) -> Ps2 {
        Ps2 {
            mouse_reporting_enabled: false,
            mouse_resolution: 2,
            mouse_sample_rate: 100,
            mouse_scaling_21: false,
            pending_mouse_events: Seq::empty(),
            ..self
        }
    }

    /// The status byte of the mouse.
    pub open spec fn mouse_status(self) -> u8 {
        (if self.mouse_reporting_enabled {
            0x20
        } else {
            0u8
        }) | (if self.mouse_scaling_21 {
            0x10
        } else {
            0u8
        })
    }

    /// A command to the mouse, or the parameter of its pending one.
    pub open spec fn mouse_commanded(self, command: u8) -> Ps2 {
        self.mouse_set(command).answered(self.mouse_reply(command), true)
    }

    /// What a command changes in the mouse.
    pub open spec fn mouse_set(self, command: u8) -> Ps2 {
        match self.pending_mouse_command {
            Some(pending) => if pending == 0xe8 {
                Ps2 { pending_mouse_command: None, mouse_resolution: command & 0x03, ..self }
            } else {
                Ps2 { pending_mouse_command: None, mouse_sample_rate: command, ..self }
            },
            None => match command {
                0xe8 | 0xf3 => Ps2 { pending_mouse_command: Some(command), ..self },
                0xe6 => Ps2 { mouse_scaling_21: false, ..self },
                0xe7 => Ps2 { mouse_scaling_21: true, ..self },
                0xf6 | 0xff => self.mouse_defaults(),
                0xf4 => Ps2 { mouse_reporting_enabled: true, ..self },
                0xf5 => Ps2 {
                    mouse_reporting_enabled: false,
                    pending_mouse_events: Seq::empty(),
                    ..self
                },
                _ => self,
            },
        }
    }

    /// What the mouse answers to a command.
    pub open spec fn mouse_reply(self, command: u8) -> Seq<u8> {
        match self.pending_mouse_command {
            Some(_) => seq![ACK],
            None => match command {
                0xe9 => seq![
                    ACK,
                    self.mouse_status(),
                    self.mouse_resolution,
                    self.mouse_sample_rate,
                ],
                0xeb => seq![ACK, 0x08, 0x00, 0x00],
                0xee => seq![0xee],
                0xf2 => seq![ACK, 0x00],
                0xff => seq![ACK, 0xaa, 0x00],
                _ => seq![ACK],
            },
        }
    }

    /// A read of the data port: pending input is handled first, and the mouse fills the room
    /// that the read makes. All ones are read where there is nothing.
    pub open spec fn data_read(self) -> (Ps2, u8) {
        let drained = self.input_drained();
        if drained.output.len() == 0 {
            (drained, 0xff)
        } else {
            let taken = Ps2 {
                output: drained.output.skip(1),
                output_aux: drained.output_aux.skip(1),
                ..drained
            };
            let updated = taken.flushed().0.status_updated();
            (
                if updated.output.len() == 0 {
                    updated
                } else {
                    updated.interrupted()
                },
                drained.output[0],
            )
        }
    }

    pub open spec fn read(self, offset: u64) -> (Ps2, u8) {
        if offset == OFFSET_DATA {
            self.data_read()
        } else if offset == OFFSET_PORT_B {
            (self, self.port_b)
        } else if offset == OFFSET_COMMAND {
            (self, self.status | STATUS_FIXED)
        } else {
            (self, 0x00)
        }
    }

    pub open spec fn written(self, offset: u64, data: u8) -> Ps2 {
        if offset == OFFSET_DATA {
            self.data_written(data)
        } else if offset == OFFSET_PORT_B {
            Ps2 { port_b: data, ..self }
        } else if offset == OFFSET_COMMAND {
            self.commanded(data)
        } else {
            self
        }
    }

    /// The state at power on.
    pub open spec fn powered_on(keyboard_irq: bool, mouse_irq: bool) -> Ps2 {
        Ps2 {
            status: STATUS_FIXED,
            output: Seq::empty(),
            output_aux: Seq::empty(),
            port_a: 0x00,
            port_b: 0x23,
            ctr: CTR_RESET_VALUE,
            control_reg: 0x00,
            keyboard_enabled: true,
            keyboard_scancode_set: 2,
            pressed_keys: Map::empty(),
            mouse_enabled: true,
            mouse_reporting_enabled: false,
            mouse_resolution: 2,
            mouse_sample_rate: 100,
            mouse_scaling_21: false,
            mouse_buttons: 0,
            pending_mouse_events: Seq::empty(),
            pending_command: None,
            pending_mouse_command: None,
            pending_keyboard_command: None,
            input: Seq::empty(),
            keyboard_irq,
            mouse_irq,
            interrupts: Seq::empty(),
            reset_requested: false,
        }
    }
}

pub struct I8042Device {
    pub status: u8,
    pub output_buffer: VecDeque<u8>,
    pub output_buffer_aux: VecDeque<bool>,
    pub port_a: u8,
    pub port_b: u8,
    pub ctr: u8,
    pub control_reg: u8,
    pub keyboard_enabled: bool,
    pub keyboard_scancode_set: u8,
    pub pressed_keys: HashMap<u32, bool>,
    pub mouse_enabled: bool,
    pub mouse_reporting_enabled: bool,
    pub mouse_resolution: u8,
    pub mouse_sample_rate: u8,
    pub mouse_scaling_21: bool,
    pub mouse_buttons: u8,
    pub pending_mouse_events: VecDeque<PendingMouseEvent>,
    pub pending_command: Option<u8>,
    pub pending_mouse_command: Option<u8>,
    pub pending_keyboard_command: Option<u8>,
    pub input_channel: VecDeque<InputEvent>,
    pub keyboard_irq: bool,
    pub mouse_irq: bool,
    pub interrupts: Vec<IrqLine>,
    pub reset_requested: bool,
}

impl View for I8042Device {
    type V = Ps2;

    open spec fn view(&self) -> Ps2 {
        Ps2 {
            status: self.status,
            output: self.output_buffer@,
            output_aux: self.output_buffer_aux@,
            port_a: self.port_a,
            port_b: self.port_b,
            ctr: self.ctr,
            control_reg: self.control_reg,
            keyboard_enabled: self.keyboard_enabled,
            keyboard_scancode_set: self.keyboard_scancode_set,
            pressed_keys: self.pressed_keys@,
            mouse_enabled: self.mouse_enabled,
            mouse_reporting_enabled: self.mouse_reporting_enabled,
            mouse_resolution: self.mouse_resolution,
            mouse_sample_rate: self.mouse_sample_rate,
            mouse_scaling_21: self.mouse_scaling_21,
            mouse_buttons: self.mouse_buttons,
            pending_mouse_events: self.pending_mouse_events@,
            pending_command: self.pending_command,
            pending_mouse_command: self.pending_mouse_command,
            pending_keyboard_command: self.pending_keyboard_command,
            input: self.input_channel@,
            keyboard_irq: self.keyboard_irq,
            mouse_irq: self.mouse_irq,
            interrupts: self.interrupts@,
            reset_requested: self.reset_requested,
        }
    }
}

fn saturating_sum(value: i32, delta: i16) -> (r: i32)
    ensures
        r == saturated(value + delta),
{
    match value.checked_add(delta as i32) {
        Some(sum) => sum,
        None => if delta > 0 {
            i32::MAX
        } else {
            i32::MIN
        },
    }
}

fn clamp_part(motion: i32) -> (r: i8)
    ensures
        r == packet_part(motion),
{
    if motion > 127 {
        127
    } else if motion < -128 {
        -128
    } else {
        motion as i8
    }
}

impl I8042Device {
    pub fn new(keyboard_irq: bool, mouse_irq: bool) -> (r: I8042Device)
        ensures
            r@ == Ps2::powered_on(keyboard_irq, mouse_irq),
            r@.valid(),
    {
        I8042Device {
            status: STATUS_FIXED,
            output_buffer: VecDeque::new(),
            output_buffer_aux: VecDeque::new(),
            port_a: 0x00,
            port_b: 0x23,
            ctr: CTR_RESET_VALUE,
            control_reg: 0x00,
            keyboard_enabled: true,
            keyboard_scancode_set: 2,
            pressed_keys: HashMap::new(),
            mouse_enabled: true,
            mouse_reporting_enabled: false,
            mouse_resolution: 2,
            mouse_sample_rate: 100,
            mouse_scaling_21: false,
            mouse_buttons: 0,
            pending_mouse_events: VecDeque::new(),
            pending_command: None,
            pending_mouse_command: None,
            pending_keyboard_command: None,
            input_channel: VecDeque::new(),
            keyboard_irq,
            mouse_irq,
            interrupts: Vec::new(),
            reset_requested: false,
        }
    }

    /// Whether the keyboard interrupt is wired.
    pub fn keyboard_irq(&self) -> (r: bool)
        ensures
            r == self@.keyboard_irq,
    {
        self.keyboard_irq
    }

    /// Whether the mouse interrupt is wired.
    pub fn mouse_irq(&self) -> (r: bool)
        ensures
            r == self@.mouse_irq,
    {
        self.mouse_irq
    }

    /// Whether fewer than four bytes fit into the output buffer besides what it holds, so
    /// that the caller can hold its events back before they are dropped.
    pub fn output_buffer_near_full(&self) -> (r: bool)
        ensures
            r == (MAX_DATA_BUFFER - self@.output.len() < 4),
    {
        self.output_buffer.len() > MAX_DATA_BUFFER - 4
    }

    /// Takes the interrupts that are to be triggered, oldest first.
    pub fn take_interrupts(&mut self) -> (r: Vec<IrqLine>)
        ensures
            r@ == old(self)@.interrupts,
            final(self)@ == (Ps2 { interrupts: Seq::empty(), ..old(self)@ }),
    {
        let mut taken: Vec<IrqLine> = Vec::new();
        taken.append(&mut self.interrupts);
        assert(taken@ =~= old(self)@.interrupts);
        taken
    }

    /// Whether the guest has asked for a reset since the last call.
    pub fn take_reset(&mut self) -> (r: bool)
        ensures
            r == old(self)@.reset_requested,
            final(self)@ == (Ps2 { reset_requested: false, ..old(self)@ }),
    {
        let requested = self.reset_requested;
        self.reset_requested = false;
        requested
    }

    fn next_is_aux(&self) -> (r: bool)
        ensures
            r == self@.next_is_aux(),
    {
        self.output_buffer_aux.len() > 0 && self.output_buffer_aux[0]
    }

    fn update_output_buffer_status(&mut self)
        ensures
            final(self)@ == old(self)@.status_updated(),
    {
        if self.output_buffer.len() == 0 {
            self.status = self.status & !STATUS_OUTPUT_BITS;
        } else {
            self.status = self.status | STATUS_OUTPUT_BUFFER_FULL;
            if self.next_is_aux() {
                self.status = self.status | STATUS_AUX_OUTPUT_BUFFER_FULL;
            } else {
                self.status = self.status & !STATUS_AUX_OUTPUT_BUFFER_FULL;
            }
        }
    }

    fn trigger_output_irq(&mut self)
        ensures
            final(self)@ == old(self)@.interrupted(),
    {
        if self.next_is_aux() {
            if self.ctr & (CTR_AUX_INT | CTR_AUX_DISABLE) == CTR_AUX_INT && self.mouse_irq {
                self.interrupts.push(IrqLine::Mouse);
            }
        } else if self.ctr & (CTR_KBD_INT | CTR_KBD_DISABLE) == CTR_KBD_INT && self.keyboard_irq {
            self.interrupts.push(IrqLine::Keyboard);
        }
    }

    /// Sends a byte of the keyboard or the controller.
    pub fn push_output(&mut self, byte: u8)
        requires
            old(self)@.valid(),
        ensures
            final(self)@.valid(),
            final(self)@ == old(self)@.sent(byte, false),
    {
        self.push_output_with_source(byte, false);
    }

    /// Sends a byte of the mouse.
    pub fn push_aux_output(&mut self, byte: u8)
        requires
            old(self)@.valid(),
        ensures
            final(self)@.valid(),
            final(self)@ == old(self)@.sent(byte, true),
    {
        self.push_output_with_source(byte, true);
    }

    fn push_output_with_source(&mut self, byte: u8, aux: bool)
        requires
            old(self)@.valid(),
        ensures
            final(self)@.valid(),
            final(self)@ == old(self)@.sent(byte, aux),
    {
        let bytes: Vec<u8> = vec![byte];
        assert(bytes@ =~= seq![byte]);
        self.push_outputs(&bytes, aux);
    }

    /// Sends the bytes of an answer.
    fn push_outputs(&mut self, bytes: &[u8], aux: bool)
        requires
            old(self)@.valid(),
        ensures
            final(self)@.valid(),
            final(self)@ == old(self)@.answered(bytes@, aux),
    {
        let was_empty = self.output_buffer.len() == 0;
        let count: usize = self.append_output(bytes, aux);
        if was_empty && count > 0 {
            self.update_output_buffer_status();
            self.trigger_output_irq();
        }
    }

    /// Puts as many bytes into the output buffer as it has room for, and tells how many they
    /// are.
    fn append_output(&mut self, bytes: &[u8], aux: bool) -> (r: usize)
        requires
            old(self)@.valid(),
        ensures
            final(self)@.valid(),
            r == old(self)@.fitting(bytes@).len(),
            final(self)@ == (Ps2 {
                output: old(self)@.output + old(self)@.fitting(bytes@),
                output_aux: old(self)@.output_aux + Seq::new(r as nat, |k: int| aux),
                ..old(self)@
            }),
    {
        let room: usize = MAX_DATA_BUFFER - self.output_buffer.len();
        let count: usize = if bytes.len() <= room {
            bytes.len()
        } else {
            room
        };
        let mut i: usize = 0;
        while i < count
            invariant
                i <= count,
                count <= bytes@.len(),
                old(self)@.valid(),
                old(self)@.output.len() + count <= MAX_DATA_BUFFER,
                self@.output == old(self)@.output + bytes@.take(i as int),
                self@.output_aux == old(self)@.output_aux + Seq::new(i as nat, |k: int| aux),
                self@ == (Ps2 {
                    output: self@.output,
                    output_aux: self@.output_aux,
                    ..old(self)@
                }),
            decreases count - i,
        {
            self.output_buffer.push_back(bytes[i]);
            self.output_buffer_aux.push_back(aux);
            i = i + 1;
            assert(self@.output =~= old(self)@.output + bytes@.take(i as int));
            assert(self@.output_aux =~= old(self)@.output_aux + Seq::new(i as nat, |k: int| aux));
        }
        assert(bytes@.len() == count ==> bytes@.take(count as int) =~= bytes@);
        count
    }

    /// Handles a key event; the result says whether scan codes were added to the output
    /// buffer.
    pub fn process_keyboard_event(&mut self, key: u32, pressed: bool) -> (r: bool)
        requires
            old(self)@.valid(),
        ensures
            final(self)@.valid(),
            (final(self)@, r) == old(self)@.keyed(key, pressed),
            r == (final(self)@.output.len() > old(self)@.output.len()),
            !r ==> final(self)@.output == old(self)@.output,
    {
        broadcast use vstd::std_specs::hash::group_hash_axioms;

        if !self.keyboard_enabled {
            return false;
        }
        if let Some(down) = self.pressed_keys.get(&key) {
            if *down == pressed {
                return false;
            }
        }
        let send_set1 = self.ctr & CTR_XLATE != 0 || self.keyboard_scancode_set == 1;
        let codes = KeyboardMap::scan_codes(key, pressed, send_set1);
        if codes.len() != 0 {
            self.pressed_keys.insert(key, pressed);
            let room = self.output_buffer.len() < MAX_DATA_BUFFER;
            self.push_output_bytes_no_irq(&codes);
            assert(!room ==> self@.output =~= old(self)@.output);
            room
        } else {
            false
        }
    }

    fn push_output_bytes_no_irq(&mut self, bytes: &[u8])
        requires
            old(self)@.valid(),
        ensures
            final(self)@.valid(),
            final(self)@ == old(self)@.queued(bytes@, false),
    {
        self.push_output_bytes_no_irq_with_source(bytes, false);
    }

    fn push_aux_output_bytes_no_irq(&mut self, bytes: &[u8])
        requires
            old(self)@.valid(),
        ensures
            final(self)@.valid(),
            final(self)@ == old(self)@.queued(bytes@, true),
    {
        self.push_output_bytes_no_irq_with_source(bytes, true);
    }

    fn push_output_bytes_no_irq_with_source(&mut self, bytes: &[u8], aux: bool)
        requires
            old(self)@.valid(),
        ensures
            final(self)@.valid(),
            final(self)@ == old(self)@.queued(bytes@, aux),
    {
        let _ = self.append_output(bytes, aux);
        self.update_output_buffer_status();
    }

    /// Handles a mouse event; the result says whether packets were queued.
    pub fn process_mouse_event(&mut self, buttons: u8, dx: i16, dy: i16) -> (r: bool)
        requires
            old(self)@.valid(),
        ensures
            final(self)@.valid(),
            (final(self)@, r) == old(self)@.moused(buttons, dx, dy),
    {
        if !self.mouse_enabled || !self.mouse_reporting_enabled {
            return false;
        }
        let pressed: u8 = buttons & 0x07;
        let buttons_changed = self.mouse_buttons != pressed;
        self.mouse_buttons = pressed;
        if dx != 0 || dy != 0 || buttons_changed {
            let n: usize = self.pending_mouse_events.len();
            if n > 0 && self.pending_mouse_events[n - 1].buttons == pressed {
                let ghost before = self.pending_mouse_events@;
                let mut event = self.pending_mouse_events.pop_back().unwrap();
                event.dx = saturating_sum(event.dx, dx);
                event.dy = saturating_sum(event.dy, dy);
                event.buttons_dirty = event.buttons_dirty || buttons_changed;
                self.pending_mouse_events.push_back(event);
                assert(self.pending_mouse_events@ =~= before.drop_last().push(event));
            } else {
                self.pending_mouse_events.push_back(
                    PendingMouseEvent {
                        buttons: pressed,
                        buttons_dirty: buttons_changed,
                        dx: dx as i32,
                        dy: dy as i32,
                    },
                );
            }
        }
        assert(self@ =~= old(self)@.mouse_queued(buttons, dx, dy));
        self.flush_mouse_packets()
    }

    /// Makes the oldest pending mouse event into a packet.
    fn make_packet(&mut self)
        requires
            old(self)@.valid(),
            old(self)@.pending_mouse_events.len() > 0,
            old(self)@.output.len() + 3 <= MAX_DATA_BUFFER,
        ensures
            final(self)@.valid(),
            final(self)@ == old(self)@.packet_made(),
            final(self)@.output.len() == old(self)@.output.len() + 3,
    {
        let ghost pending = self.pending_mouse_events@;
        let event = self.pending_mouse_events.pop_front().unwrap();
        let x_byte: i8 = clamp_part(event.dx);
        let y_byte: i8 = clamp_part(event.dy);
        let mut byte0: u8 = 0x08 | event.buttons;
        if x_byte < 0 {
            byte0 = byte0 | 0x10;
        }
        if y_byte < 0 {
            byte0 = byte0 | 0x20;
        }
        let bytes: Vec<u8> = vec![byte0, x_byte as u8, y_byte as u8];
        assert(bytes@ =~= packet(event.buttons, x_byte, y_byte));
        self.push_aux_output_bytes_no_irq(&bytes);
        let rest = PendingMouseEvent {
            buttons: event.buttons,
            buttons_dirty: false,
            dx: event.dx - x_byte as i32,
            dy: event.dy - y_byte as i32,
        };
        assert(self.pending_mouse_events@ =~= pending.skip(1));
        if rest.dx != 0 || rest.dy != 0 {
            self.pending_mouse_events.push_front(rest);
            assert(self.pending_mouse_events@ =~= seq![rest] + pending.skip(1));
        }
        assert(self@ =~= old(self)@.packet_made());
    }

    fn flush_mouse_packets(&mut self) -> (r: bool)
        requires
            old(self)@.valid(),
        ensures
            final(self)@.valid(),
            (final(self)@, r) == old(self)@.flushed(),
    {
        if !self.mouse_enabled || !self.mouse_reporting_enabled {
            return false;
        }
        let mut added = false;
        while self.output_buffer.len() <= MAX_DATA_BUFFER - 3 && self.pending_mouse_events.len() > 0
            invariant
                self@.valid(),
                self@.packets_made() == old(self)@.packets_made(),
                added || self@ == old(self)@,
                added ==> old(self)@.output.len() + 3 <= MAX_DATA_BUFFER && old(self)@.pending_mouse_events.len() > 0,
            decreases MAX_DATA_BUFFER - self@.output.len(),
        {
            self.make_packet();
            added = true;
        }
        added
    }

    fn clear_pending_mouse_movement(&mut self)
        ensures
            final(self)@ == (Ps2 { pending_mouse_events: Seq::empty(), ..old(self)@ }),
    {
        self.pending_mouse_events.clear();
    }

    /// Handles the input events that wait in the channel.
    fn drain_input_channel(&mut self)
        requires
            old(self)@.valid(),
        ensures
            final(self)@.valid(),
            final(self)@ == old(self)@.input_drained(),
    {
        let mut events: VecDeque<InputEvent> = VecDeque::new();
        std::mem::swap(&mut events, &mut self.input_channel);
        let ghost all = events@;
        let ghost mut n: nat = 0;
        assert(self@ =~= (Ps2 { input: Seq::empty(), ..old(self)@ }));
        assert(all.skip(0) =~= all);
        while events.len() > 0
            invariant
                self@.valid(),
                n <= all.len(),
                events@ == all.skip(n as int),
                self@.events_handled(all, n) == old(self)@.input_drained(),
            decreases all.len() - n,
        {
            let ghost left = events@;
            let event = events.pop_front().unwrap();
            assert(event == all[n as int]) by {
                assert(left[0] == all.skip(n as int)[0]);
            }
            assert(events@ =~= all.skip(n as int + 1));
            match event {
                InputEvent::Keyboard { key, pressed } => {
                    let _ = self.process_keyboard_event(key, pressed);
                },
                InputEvent::Mouse { buttons, dx, dy } => {
                    let _ = self.process_mouse_event(buttons, dx, dy);
                },
            }
            proof {
                n = n + 1;
            }
        }
    }

    /// Handles a command written to the command port.
    fn handle_command(&mut self, cmd: u8)
        requires
            old(self)@.valid(),
        ensures
            final(self)@.valid(),
            final(self)@ == old(self)@.commanded(cmd),
    {
        match cmd {
            CMD_RESET_CONTROLLER => {
                self.reset_requested = true;
            },
            CMD_TEST_CONTROLLER | CMD_SELF_TEST => {
                self.push_output(0x55);
            },
            CMD_DISABLE_KEYBOARD => {
                self.keyboard_enabled = false;
                self.port_a = self.port_a & !0x01;
                self.ctr = self.ctr | CTR_KBD_DISABLE;
            },
            CMD_ENABLE_KEYBOARD => {
                self.keyboard_enabled = true;
                self.port_a = self.port_a | 0x01;
                self.ctr = self.ctr & !CTR_KBD_DISABLE;
            },
            CMD_DISABLE_SECONDARY => {
                self.mouse_enabled = false;
                self.clear_pending_mouse_movement();
                self.port_a = self.port_a & !0x10;
                self.ctr = self.ctr | CTR_AUX_DISABLE;
            },
            CMD_ENABLE_SECONDARY => {
                self.mouse_enabled = true;
                self.port_a = self.port_a | 0x10;
                self.ctr = self.ctr & !CTR_AUX_DISABLE;
            },
            CMD_TEST_KEYBOARD | CMD_TEST_SECONDARY => {
                self.push_output(0x00);
            },
            CMD_READ_PORT_A => {
                let ctr: u8 = self.ctr;
                self.push_output(ctr);
            },
            CMD_READ_PORT_B => {
                let port_b: u8 = self.port_b;
                self.push_output(port_b);
            },
            CMD_READ_KBD_INPUT => {
                let control_reg: u8 = self.control_reg;
                self.push_output(control_reg);
            },
            CMD_WRITE_PORT_A | CMD_WRITE_KBD_OUTPUT | CMD_WRITE_SECONDARY_OUTPUT | CMD_WRITE_TO_AUX
            | CMD_WRITE_KBD_CTRL => {
                self.pending_command = Some(cmd);
            },
            _ => {},
        }
    }

    /// Handles data written to the data port.
    fn handle_data_write(&mut self, data: u8)
        requires
            old(self)@.valid(),
        ensures
            final(self)@.valid(),
            final(self)@ == old(self)@.data_written(data),
    {
        if let Some(cmd) = self.pending_command {
            match cmd {
                CMD_WRITE_KBD_OUTPUT => {
                    self.push_output(data);
                },
                CMD_WRITE_SECONDARY_OUTPUT => {
                    self.push_aux_output(data);
                },
                CMD_WRITE_TO_AUX => {
                    self.handle_mouse_command(data);
                },
                CMD_WRITE_PORT_A => {
                    self.ctr = data;
                },
                CMD_WRITE_KBD_CTRL => {
                    self.control_reg = data;
                },
                _ => {},
            }
            self.pending_command = None;
        } else {
            self.handle_keyboard_command(data);
        }
    }

    fn handle_keyboard_command(&mut self, command: u8)
        requires
            old(self)@.valid(),
        ensures
            final(self)@.valid(),
            final(self)@ == old(self)@.keyboard_commanded(command),
    {
        let reply = self.keyboard_answer(command);
        self.set_keyboard(command);
        self.push_outputs(&reply, false);
    }

    fn keyboard_answer(&self, command: u8) -> (r: Vec<u8>)
        ensures
            r@ == self@.keyboard_reply(command),
    {
        match self.pending_keyboard_command {
            Some(pending) => if pending == 0xf0 && command == 0 {
                vec![ACK, self.keyboard_scancode_set]
            } else {
                vec![ACK]
            },
            None => match command {
                0xff => vec![ACK, 0xaa],
                0xf2 => vec![ACK, 0xab, 0x83],
                0xee => vec![0xee],
                _ => vec![ACK],
            },
        }
    }

    fn set_keyboard(&mut self, command: u8)
        requires
            old(self)@.valid(),
        ensures
            final(self)@.valid(),
            final(self)@ == old(self)@.keyboard_set(command),
    {
        if let Some(pending) = self.pending_keyboard_command {
            self.pending_keyboard_command = None;
            if pending == 0xf0 && 1 <= command && command <= 3 {
                self.keyboard_scancode_set = command;
            }
            return;
        }
        match command {
            0xed | 0xf0 | 0xf3 => {
                self.pending_keyboard_command = Some(command);
            },
            0xf4 | 0xff => {
                self.keyboard_enabled = true;
            },
            0xf5 | 0xf6 => {
                self.keyboard_enabled = false;
            },
            _ => {},
        }
    }

    fn restore_mouse_defaults(&mut self)
        requires
            old(self)@.valid(),
        ensures
            final(self)@.valid(),
            final(self)@ == old(self)@.mouse_defaults(),
    {
        self.mouse_reporting_enabled = false;
        self.mouse_resolution = 2;
        self.mouse_sample_rate = 100;
        self.mouse_scaling_21 = false;
        self.clear_pending_mouse_movement();
    }

    fn handle_mouse_command(&mut self, command: u8)
        requires
            old(self)@.valid(),
        ensures
            final(self)@.valid(),
            final(self)@ == old(self)@.mouse_commanded(command),
    {
        let reply = self.mouse_answer(command);
        self.set_mouse(command);
        self.push_outputs(&reply, true);
    }

    fn mouse_answer(&self, command: u8) -> (r: Vec<u8>)
        ensures
            r@ == self@.mouse_reply(command),
    {
        if self.pending_mouse_command.is_some() {
            return vec![ACK];
        }
        match command {
            0xe9 => {
                let reporting: u8 = if self.mouse_reporting_enabled {
                    0x20
                } else {
                    0
                };
                let scaling: u8 = if self.mouse_scaling_21 {
                    0x10
                } else {
                    0
                };
                vec![ACK, reporting | scaling, self.mouse_resolution, self.mouse_sample_rate]
            },
            0xeb => vec![ACK, 0x08, 0x00, 0x00],
            0xee => vec![0xee],
            0xf2 => vec![ACK, 0x00],
            0xff => vec![ACK, 0xaa, 0x00],
            _ => vec![ACK],
        }
    }

    fn set_mouse(&mut self, command: u8)
        requires
            old(self)@.valid(),
        ensures
            final(self)@.valid(),
            final(self)@ == old(self)@.mouse_set(command),
    {
        if let Some(pending) = self.pending_mouse_command {
            self.pending_mouse_command = None;
            if pending == 0xe8 {
                self.mouse_resolution = command & 0x03;
            } else {
                self.mouse_sample_rate = command;
            }
            return;
        }
        match command {
            0xe8 | 0xf3 => {
                self.pending_mouse_command = Some(command);
            },
            0xe6 => {
                self.mouse_scaling_21 = false;
            },
            0xe7 => {
                self.mouse_scaling_21 = true;
            },
            0xf6 | 0xff => {
                self.restore_mouse_defaults();
            },
            0xf4 => {
                self.mouse_reporting_enabled = true;
            },
            0xf5 => {
                self.mouse_reporting_enabled = false;
                self.clear_pending_mouse_movement();
            },
            _ => {},
        }
    }

    fn read_data_port(&mut self) -> (r: u8)
        requires
            old(self)@.valid(),
        ensures
            final(self)@.valid(),
            (final(self)@, r) == old(self)@.data_read(),
    {
        self.drain_input_channel();
        let ghost drained = self@;
        match self.output_buffer.pop_front() {
            None => 0xff,
            Some(byte) => {
                let _ = self.output_buffer_aux.pop_front();
                assert(self@ =~= (Ps2 {
                    output: drained.output.skip(1),
                    output_aux: drained.output_aux.skip(1),
                    ..drained
                }));
                let _ = self.flush_mouse_packets();
                self.update_output_buffer_status();
                if self.output_buffer.len() != 0 {
                    self.trigger_output_irq();
                }
                byte
            },
        }
    }

    /// Reads the port at `offset`, one byte at a time.
    pub fn read(&mut self, _base: u64, offset: u64, data: &mut [u8])
        requires
            old(self)@.valid(),
        ensures
            final(self)@.valid(),
            if old(data)@.len() == 1 {
                &&& final(self)@ == old(self)@.read(offset).0
                &&& final(data)@ == seq![old(self)@.read(offset).1]
            } else {
                final(self)@ == old(self)@ && final(data)@ == old(data)@
            },
    {
        if data.len() != 1 {
            return;
        }
        let byte: u8 = match offset {
            OFFSET_DATA => self.read_data_port(),
            OFFSET_PORT_B => self.port_b,
            OFFSET_COMMAND => self.status | STATUS_FIXED,
            _ => 0x00,
        };
        data[0] = byte;
        assert(data@ =~= seq![byte]);
    }

    /// Writes the port at `offset`, one byte at a time.
    pub fn write(&mut self, _base: u64, offset: u64, data: &[u8])
        requires
            old(self)@.valid(),
        ensures
            final(self)@.valid(),
            final(self)@ == (if data@.len() == 1 {
                old(self)@.written(offset, data@[0])
            } else {
                old(self)@
            }),
    {
        if data.len() != 1 {
            return;
        }
        match offset {
            OFFSET_DATA => {
                self.handle_data_write(data[0]);
            },
            OFFSET_PORT_B => {
                self.port_b = data[0];
            },
            OFFSET_COMMAND => {
                self.handle_command(data[0]);
            },
            _ => {},
        }
    }
}

/// The motion that waits in the pending events, along `x` and along `y`.
pub open spec fn pending_motion(events: Seq<PendingMouseEvent>) -> (int, int)
    decreases events.len(),
{
    if events.len() == 0 {
        (0, 0)
    } else {
        let rest = pending_motion(events.skip(1));
        (events[0].dx + rest.0, events[0].dy + rest.1)
    }
}

/// The status that goes with the output buffer: the two fixed bits, one that there is a byte
/// to read, and one that it is of the mouse.
pub open spec fn status_of_output(state: Ps2) -> u8 {
    if state.output.len() == 0 {
        0x14
    } else if state.next_is_aux() {
        0x35
    } else {
        0x15
    }
}

/// The status bits tell whether there is a byte to read, and whether it is of the mouse. The
/// other ones do not change.
pub open spec fn status_follows_output(state: Ps2) -> bool {
    state.status == status_of_output(state)
}

/// The status that goes with one output buffer or another.
spec fn status_plain(state: Ps2) -> bool {
    state.status == 0x14 || state.status == 0x15 || state.status == 0x35
}

/// A key event is handled once: repeated, it changes nothing and makes no scan codes.
pub proof fn a_repeated_key_makes_no_codes(state: Ps2, key: u32, pressed: bool)
    requires
        state.valid(),
    ensures
        state.keyed(key, pressed).0.keyed(key, pressed) == (
            state.keyed(key, pressed).0,
            false,
        ),
{
}

/// A packet and what stays pending after it carry together the motion that was pending
/// before it.
pub proof fn packets_lose_no_motion(state: Ps2)
    requires
        state.pending_mouse_events.len() > 0,
    ensures
        ({
            let event = state.pending_mouse_events[0];
            let before = pending_motion(state.pending_mouse_events);
            let after = pending_motion(state.packet_made().pending_mouse_events);
            &&& before.0 == packet_part(event.dx) + after.0
            &&& before.1 == packet_part(event.dy) + after.1
        }),
{
    let events = state.pending_mouse_events;
    let left = state.packet_made().pending_mouse_events;
    if left != events.skip(1) {
        assert(left.skip(1) =~= events.skip(1));
        assert(left[0].dx == events[0].dx - packet_part(events[0].dx));
    }
}

proof fn lemma_status_updated_follows(state: Ps2)
    requires
        state.valid(),
        status_plain(state),
    ensures
        status_follows_output(state.status_updated()),
{
    let s = state.status;
    assert(s == 0x14 || s == 0x15 || s == 0x35 ==> s & !0x21u8 == 0x14 && (s | 0x01) | 0x20u8 == 0x35
        && (s | 0x01) & !0x20u8 == 0x15) by (bit_vector);
}

proof fn lemma_answers_keep_status(state: Ps2, bytes: Seq<u8>, aux: bool)
    requires
        state.valid(),
        status_follows_output(state),
    ensures
        state.answered(bytes, aux).valid(),
        status_follows_output(state.answered(bytes, aux)),
{
    let fitting = state.fitting(bytes);
    let queued = Ps2 {
        output: state.output + fitting,
        output_aux: state.output_aux + Seq::new(fitting.len(), |i: int| aux),
        ..state
    };
    if state.output.len() == 0 && fitting.len() > 0 {
        lemma_status_updated_follows(queued);
    } else if fitting.len() == 0 {
        assert(queued.output_aux =~= state.output_aux);
    } else {
        assert(queued.output_aux[0] == state.output_aux[0]);
    }
}

proof fn lemma_queued_follows(state: Ps2, bytes: Seq<u8>, aux: bool)
    requires
        state.valid(),
        status_plain(state),
    ensures
        state.queued(bytes, aux).valid(),
        status_follows_output(state.queued(bytes, aux)),
{
    let fitting = state.fitting(bytes);
    lemma_status_updated_follows(
        Ps2 {
            output: state.output + fitting,
            output_aux: state.output_aux + Seq::new(fitting.len(), |i: int| aux),
            ..state
        },
    );
}

proof fn lemma_packets_keep_status(state: Ps2)
    requires
        state.valid(),
        status_follows_output(state),
    ensures
        state.packets_made().valid(),
        status_follows_output(state.packets_made()),
    decreases MAX_DATA_BUFFER - state.output.len(),
{
    if state.output.len() + 3 <= MAX_DATA_BUFFER && state.pending_mouse_events.len() > 0 {
        let event = state.pending_mouse_events[0];
        let bytes = packet(event.buttons, packet_part(event.dx), packet_part(event.dy));
        lemma_queued_follows(state, bytes, true);
        lemma_packets_keep_status(state.packet_made());
    }
}

proof fn lemma_event_keeps_status(state: Ps2, event: InputEvent)
    requires
        state.valid(),
        status_follows_output(state),
    ensures
        state.event_handled(event).valid(),
        status_follows_output(state.event_handled(event)),
{
    match event {
        InputEvent::Keyboard { key, pressed } => {
            let codes = crate::legacy::keymap::scan_code_bytes(
                key,
                pressed,
                state.ctr & CTR_XLATE != 0 || state.keyboard_scancode_set == 1,
            );
            lemma_queued_follows(
                Ps2 { pressed_keys: state.pressed_keys.insert(key, pressed), ..state },
                codes,
                false,
            );
        },
        InputEvent::Mouse { buttons, dx, dy } => {
            lemma_packets_keep_status(state.mouse_queued(buttons, dx, dy));
        },
    }
}

proof fn lemma_events_keep_status(state: Ps2, events: Seq<InputEvent>, n: nat)
    requires
        state.valid(),
        status_follows_output(state),
    ensures
        state.events_handled(events, n).valid(),
        status_follows_output(state.events_handled(events, n)),
    decreases events.len() - n,
{
    if n < events.len() {
        lemma_event_keeps_status(state, events[n as int]);
        lemma_events_keep_status(state.event_handled(events[n as int]), events, n + 1);
    }
}

/// In every state that reads and writes of the ports and input events lead to from power on,
/// the output buffer holds at most its capacity, each byte with its source, and the status
/// tells whether there is a byte to read and whether it is of the mouse.
pub proof fn the_status_follows_the_output(state: Ps2, offset: u64, data: u8, event: InputEvent)
    requires
        state.valid(),
        status_follows_output(state),
    ensures
        state.output.len() <= 32,
        state.read(offset).0.valid(),
        status_follows_output(state.read(offset).0),
        state.written(offset, data).valid(),
        status_follows_output(state.written(offset, data)),
        state.event_handled(event).valid(),
        status_follows_output(state.event_handled(event)),
{
    lemma_reads_keep_status(state);
    lemma_data_keeps_status(state, data);
    lemma_commands_keep_status(state, data);
    lemma_event_keeps_status(state, event);
}

/// A read of the status port gives the status that goes with the output buffer, and takes
/// nothing from it.
pub proof fn a_status_read_takes_nothing(state: Ps2)
    requires
        status_follows_output(state),
    ensures
        state.read(4) == (state, status_of_output(state)),
{
    assert(0x14u8 | 0x14 == 0x14 && 0x15u8 | 0x14 == 0x15 && 0x35u8 | 0x14 == 0x35)
        by (bit_vector);
}

proof fn lemma_reads_keep_status(state: Ps2)
    requires
        state.valid(),
        status_follows_output(state),
    ensures
        state.data_read().0.valid(),
        status_follows_output(state.data_read().0),
{
    lemma_events_keep_status(Ps2 { input: Seq::empty(), ..state }, state.input, 0);
    let drained = state.input_drained();
    if drained.output.len() > 0 {
        let taken = Ps2 {
            output: drained.output.skip(1),
            output_aux: drained.output_aux.skip(1),
            ..drained
        };
        lemma_packets_stay_valid(taken);
        lemma_status_updated_follows(taken.flushed().0);
    }
}

proof fn lemma_devices_keep_status(state: Ps2, data: u8)
    requires
        state.valid(),
        status_follows_output(state),
    ensures
        state.mouse_commanded(data).valid(),
        status_follows_output(state.mouse_commanded(data)),
        state.keyboard_commanded(data).valid(),
        status_follows_output(state.keyboard_commanded(data)),
{
    lemma_settings_keep_output(state, data);
    lemma_answers_keep_status(state.mouse_set(data), state.mouse_reply(data), true);
    lemma_answers_keep_status(state.keyboard_set(data), state.keyboard_reply(data), false);
}

proof fn lemma_settings_keep_output(state: Ps2, data: u8)
    requires
        state.valid(),
        status_follows_output(state),
    ensures
        state.mouse_set(data).valid(),
        status_follows_output(state.mouse_set(data)),
        state.keyboard_set(data).valid(),
        status_follows_output(state.keyboard_set(data)),
{
}

proof fn lemma_data_keeps_status(state: Ps2, data: u8)
    requires
        state.valid(),
        status_follows_output(state),
    ensures
        state.data_written(data).valid(),
        status_follows_output(state.data_written(data)),
{
    match state.pending_command {
        None => {
            lemma_devices_keep_status(state, data);
        },
        Some(cmd) => {
            if cmd == CMD_WRITE_TO_AUX {
                lemma_devices_keep_status(state, data);
            } else {
                lemma_answers_keep_status(state, seq![data], false);
                lemma_answers_keep_status(state, seq![data], true);
            }
        },
    }
}

proof fn lemma_commands_keep_status(state: Ps2, cmd: u8)
    requires
        state.valid(),
        status_follows_output(state),
    ensures
        state.commanded(cmd).valid(),
        status_follows_output(state.commanded(cmd)),
{
    lemma_answers_keep_status(state, seq![0x55], false);
    lemma_answers_keep_status(state, seq![0x00], false);
    lemma_answers_keep_status(state, seq![state.ctr], false);
    lemma_answers_keep_status(state, seq![state.port_b], false);
    lemma_answers_keep_status(state, seq![state.control_reg], false);
}

proof fn lemma_packets_stay_valid(state: Ps2)
    requires
        state.valid(),
        status_plain(state),
    ensures
        state.packets_made().valid(),
        status_plain(state.packets_made()),
    decreases MAX_DATA_BUFFER - state.output.len(),
{
    if state.output.len() + 3 <= MAX_DATA_BUFFER && state.pending_mouse_events.len() > 0 {
        let event = state.pending_mouse_events[0];
        let bytes = packet(event.buttons, packet_part(event.dx), packet_part(event.dy));
        lemma_queued_follows(state, bytes, true);
        lemma_packets_stay_valid(state.packet_made());
    }
}

/// The controller starts with nothing to read, and its status says so.
pub proof fn the_status_is_right_at_power_on(keyboard_irq: bool, mouse_irq: bool)
    ensures
        Ps2::powered_on(keyboard_irq, mouse_irq).valid(),
        status_follows_output(Ps2::powered_on(keyboard_irq, mouse_irq)),
{
}

/// What a driver makes of the bytes of a mouse packet: the buttons, and the motion in two's
/// complement with the sign bits of the first byte.
pub open spec fn decoded(bytes: Seq<u8>) -> (int, int, int) {
    let first = bytes[0] as int;
    (
        first % 8,
        bytes[1] - 256 * (first / 16 % 2),
        bytes[2] - 256 * (first / 32 % 2),
    )
}

/// A packet is three bytes that a driver decodes to the buttons and the motion that it was made
/// of. The bit by which a driver finds the first byte is set, and no overflow is reported.
pub proof fn a_packet_decodes_to_its_motion(buttons: u8, x: i8, y: i8)
    requires
        buttons < 8,
    ensures
        packet(buttons, x, y).len() == 3,
        decoded(packet(buttons, x, y)) == (buttons as int, x as int, y as int),
        packet(buttons, x, y)[0] / 8 % 2 == 1,
        packet(buttons, x, y)[0] / 64 == 0,
{
    let first = packet(buttons, x, y)[0];
    let (negative_x, negative_y) = (x < 0, y < 0);
    let bits: u8 = (if negative_x {
        0x10u8
    } else {
        0u8
    }) | (if negative_y {
        0x20u8
    } else {
        0u8
    });
    assert(first == 0x08 | buttons | bits && first % 8 == buttons && first / 8 % 2 == 1
        && first / 64 == 0 && first / 16 % 2 == (if negative_x {
        1u8
    } else {
        0u8
    }) && first / 32 % 2 == (if negative_y {
        1u8
    } else {
        0u8
    })) by {
        lemma_packet_bits(buttons, negative_x, negative_y);
    }
    lemma_two_complement(x);
    lemma_two_complement(y);
}

proof fn lemma_packet_bits(buttons: u8, x: bool, y: bool)
    by (bit_vector)
    requires
        buttons < 8,
    ensures
        ({
            let start = 0x08u8 | buttons;
            let with_x = if x {
                start | 0x10u8
            } else {
                start
            };
            let first = if y {
                with_x | 0x20u8
            } else {
                with_x
            };
            &&& first == 0x08u8 | buttons | ((if x {
                0x10u8
            } else {
                0u8
            }) | (if y {
                0x20u8
            } else {
                0u8
            }))
            &&& first % 8 == buttons
            &&& first / 8 % 2 == 1
            &&& first / 64 == 0
            &&& first / 16 % 2 == (if x {
                1u8
            } else {
                0u8
            })
            &&& first / 32 % 2 == (if y {
                1u8
            } else {
                0u8
            })
        }),
{
}

pub proof fn lemma_two_complement(x: i8)
    by (bit_vector)
    ensures
        x as u8 as int == (if x < 0 {
            x + 256
        } else {
            x + 0
        }),
{
}

/// The motion that a driver decodes from some packets.
pub open spec fn decoded_motion(bytes: Seq<u8>) -> (int, int)
    decreases bytes.len(),
{
    if bytes.len() < 3 {
        (0, 0)
    } else {
        let (_, x, y) = decoded(bytes.take(3));
        let rest = decoded_motion(bytes.skip(3));
        (x + rest.0, y + rest.1)
    }
}

/// Whether the pending mouse events name the three buttons only.
pub open spec fn three_buttons(state: Ps2) -> bool {
    forall|i: int|
        0 <= i < state.pending_mouse_events.len() ==> (
        #[trigger] state.pending_mouse_events[i]).buttons < 8
}

proof fn lemma_packet_made(state: Ps2)
    requires
        state.valid(),
        three_buttons(state),
        state.output.len() + 3 <= MAX_DATA_BUFFER,
        state.pending_mouse_events.len() > 0,
    ensures
        ({
            let next = state.packet_made();
            let event = state.pending_mouse_events[0];
            let added = next.output.skip(state.output.len() as int);
            let (buttons, x, y) = decoded(added);
            let (before, after) = (
                pending_motion(state.pending_mouse_events),
                pending_motion(next.pending_mouse_events),
            );
            &&& next.valid()
            &&& three_buttons(next)
            &&& next.output.len() == state.output.len() + 3
            &&& next.output.take(state.output.len() as int) == state.output
            &&& next.output_aux.take(state.output.len() as int) == state.output_aux
            &&& forall|i: int|
                state.output.len() <= i < next.output.len() ==> #[trigger] next.output_aux[i]
            &&& buttons == event.buttons
            &&& before == (x + after.0, y + after.1)
        }),
{
    let next = state.packet_made();
    let event = state.pending_mouse_events[0];
    let (x, y) = (packet_part(event.dx), packet_part(event.dy));
    let bytes = packet(event.buttons, x, y);
    assert(event.buttons < 8);
    a_packet_decodes_to_its_motion(event.buttons, x, y);
    packets_lose_no_motion(state);
    assert(state.fitting(bytes) == bytes);
    assert(next.output.skip(state.output.len() as int) =~= bytes);
    assert(next.output.take(state.output.len() as int) =~= state.output);
    assert(next.output_aux.take(state.output.len() as int) =~= state.output_aux);
    assert forall|i: int| 0 <= i < next.pending_mouse_events.len() implies (
    #[trigger] next.pending_mouse_events[i]).buttons < 8 by {
        let events = state.pending_mouse_events;
        if next.pending_mouse_events == events.skip(1) {
            assert(events[i + 1].buttons < 8);
        } else if i > 0 {
            assert(events[i].buttons < 8);
        }
    }
}

proof fn lemma_first_packet(first: Seq<u8>, rest: Seq<u8>)
    requires
        first.len() == 3,
    ensures
        decoded_motion(first + rest) == (
            decoded(first).1 + decoded_motion(rest).0,
            decoded(first).2 + decoded_motion(rest).1,
        ),
{
    assert((first + rest).take(3) =~= first);
    assert((first + rest).skip(3) =~= rest);
}

/// Mouse motion reaches the driver whole: what is put into the output buffer are packets of three
/// bytes, marked as the mouse's, behind what was there; the motion that a driver decodes from
/// them, and what still waits, add up to the motion that waited. No packet waits that there is
/// room for.
pub proof fn packets_carry_the_motion(state: Ps2)
    requires
        state.valid(),
        three_buttons(state),
    ensures
        ({
            let after = state.packets_made();
            let added = after.output.skip(state.output.len() as int);
            let motion = decoded_motion(added);
            let (before, left) = (
                pending_motion(state.pending_mouse_events),
                pending_motion(after.pending_mouse_events),
            );
            &&& after.output.len() >= state.output.len()
            &&& added.len() % 3 == 0
            &&& after.output.take(state.output.len() as int) == state.output
            &&& after.output_aux.len() == after.output.len()
            &&& after.output_aux.take(state.output.len() as int) == state.output_aux
            &&& forall|i: int|
                state.output.len() <= i < after.output.len() ==> #[trigger] after.output_aux[i]
            &&& before == (motion.0 + left.0, motion.1 + left.1)
            &&& after.pending_mouse_events.len() == 0 || after.output.len() + 3 > MAX_DATA_BUFFER
        }),
    decreases MAX_DATA_BUFFER - state.output.len(),
{
    let n = state.output.len() as int;
    let after = state.packets_made();
    if state.output.len() + 3 > MAX_DATA_BUFFER || state.pending_mouse_events.len() == 0 {
        assert(state.output.take(n) =~= state.output);
        assert(state.output_aux.take(n) =~= state.output_aux);
    } else {
        let next = state.packet_made();
        lemma_packet_made(state);
        packets_carry_the_motion(next);
        let first = next.output.skip(n);
        let rest = after.output.skip(n + 3);
        assert(after.output.skip(n) =~= first + rest) by {
            assert forall|i: int| 0 <= i < 3 implies first[i] == after.output.skip(n)[i] by {
                assert(after.output.take(n + 3)[n + i] == next.output[n + i]);
            }
        }
        lemma_first_packet(first, rest);
        assert(after.output.take(n) =~= after.output.take(n + 3).take(n));
        assert(after.output_aux.take(n) =~= after.output_aux.take(n + 3).take(n));
        assert forall|i: int| n <= i < after.output.len() implies #[trigger] after.output_aux[i] by {
            if i < n + 3 {
                assert(after.output_aux.take(n + 3)[i] == next.output_aux[i]);
            }
        }
    }
}

/// A mouse event of an idle mouse that fits in one packet is that packet.
pub proof fn a_mouse_event_becomes_a_packet(state: Ps2, buttons: u8, dx: i16, dy: i16)
    requires
        state.valid(),
        state.mouse_enabled,
        state.mouse_reporting_enabled,
        state.pending_mouse_events.len() == 0,
        state.output.len() + 3 <= MAX_DATA_BUFFER,
        -128 <= dx <= 127,
        -128 <= dy <= 127,
        dx != 0 || dy != 0 || state.mouse_buttons != buttons % 8,
    ensures
        ({
            let (after, made) = state.moused(buttons, dx, dy);
            let added = after.output.skip(state.output.len() as int);
            &&& made
            &&& added.len() == 3
            &&& decoded(added) == (buttons as int % 8, dx as int, dy as int)
            &&& after.pending_mouse_events.len() == 0
            &&& after.mouse_buttons == buttons % 8
        }),
{
    let pressed = buttons & 0x07;
    crate::bytes::lemma_byte_bits(buttons);
    let queued = state.mouse_queued(buttons, dx, dy);
    assert(queued.pending_mouse_events.len() == 1);
    assert(queued.pending_mouse_events[0].buttons == pressed);
    lemma_packet_made(queued);
    let made = queued.packet_made();
    let (x, y) = (packet_part(dx as i32), packet_part(dy as i32));
    assert(x == dx && y == dy);
    assert(made.pending_mouse_events.len() == 0);
    assert(queued.packets_made() == made.packets_made());
    assert(made.packets_made() == made);
    a_packet_decodes_to_its_motion(pressed, x, y);
    assert(made.output.skip(state.output.len() as int) =~= packet(pressed, x, y));
}

/// The state after `n` reads of the data port.
pub open spec fn after_reads(state: Ps2, n: nat) -> Ps2
    decreases n,
{
    if n == 0 {
        state
    } else {
        after_reads(state, (n - 1) as nat).data_read().0
    }
}

/// The guest reads the bytes of the output buffer in their order, and all ones after the last.
pub proof fn bytes_are_read_in_their_order(state: Ps2, n: nat)
    requires
        state.valid(),
        state.input.len() == 0,
        state.pending_mouse_events.len() == 0,
    ensures
        after_reads(state, n).data_read().1 == (if n < state.output.len() {
            state.output[n as int]
        } else {
            0xff
        }),
{
    lemma_after_reads(state, n);
}

#[verifier::spinoff_prover]
#[verifier::rlimit(40)]
proof fn lemma_after_reads(state: Ps2, n: nat)
    requires
        state.valid(),
        state.input.len() == 0,
        state.pending_mouse_events.len() == 0,
    ensures
        ({
            let after = after_reads(state, n);
            &&& after.valid()
            &&& after.input.len() == 0
            &&& after.pending_mouse_events.len() == 0
            &&& after.output == (if n <= state.output.len() {
                state.output.skip(n as int)
            } else {
                Seq::empty()
            })
        }),
    decreases n,
{
    if n == 0 {
        assert(state.output.skip(0) =~= state.output);
    } else {
        lemma_after_reads(state, (n - 1) as nat);
        let before = after_reads(state, (n - 1) as nat);
        assert(before.input =~= Seq::<InputEvent>::empty());
        assert(before.input_drained().output == before.output);
        if before.output.len() > 0 {
            assert(before.output.skip(1) =~= state.output.skip(n as int));
        } else {
            assert(before.output =~= Seq::<u8>::empty());
            if n <= state.output.len() {
                assert(state.output.skip(n as int) =~= before.output);
            }
        }
    }
}

/// A key reaches the guest as its scan codes: those of set 1 where the translation is on, which is
/// bit 6 of the command byte, or where the keyboard uses set 1. They go behind what is already
/// there, marked as the keyboard's.
pub proof fn a_key_becomes_its_scan_codes(state: Ps2, key: u32, pressed: bool)
    requires
        state.valid(),
        state.keyboard_enabled,
        !state.pressed_keys.contains_key(key) || state.pressed_keys[key] != pressed,
        crate::legacy::keymap::set1_code(key) is Some,
        state.output.len() + 3 <= MAX_DATA_BUFFER,
    ensures
        ({
            let (after, added) = state.keyed(key, pressed);
            let set1 = state.ctr / 64 % 2 == 1 || state.keyboard_scancode_set == 1;
            let codes = crate::legacy::keymap::scan_code_bytes(key, pressed, set1);
            &&& added
            &&& codes.len() > 0
            &&& after.output == state.output + codes
            &&& forall|i: int|
                state.output.len() <= i < after.output.len() ==> !#[trigger] after.output_aux[i]
        }),
{
    crate::bytes::lemma_byte_bits(state.ctr);
    let set1 = state.ctr / 64 % 2 == 1 || state.keyboard_scancode_set == 1;
    crate::legacy::keymap::every_key_is_in_both_sets(key);
    crate::legacy::keymap::key_events_are_short(key, pressed, set1);
    crate::legacy::keymap::a_release_is_the_marked_press(key);
}

/// A byte that the guest can read interrupts it: a byte of the keyboard where bit 0 of the command
/// byte is set and bit 4 is not, a byte of the mouse where bit 1 is set and bit 5 is not.
pub proof fn interrupts_follow_the_command_byte(state: Ps2, byte: u8, aux: bool)
    requires
        state.valid(),
        state.output.len() == 0,
    ensures
        ({
            let after = state.sent(byte, aux);
            let ctr = state.ctr as int;
            let keyboard = !aux && ctr % 2 == 1 && ctr / 16 % 2 == 0 && state.keyboard_irq;
            let mouse = aux && ctr / 2 % 2 == 1 && ctr / 32 % 2 == 0 && state.mouse_irq;
            &&& after.output == seq![byte]
            &&& after.interrupts == (if keyboard {
                state.interrupts.push(IrqLine::Keyboard)
            } else if mouse {
                state.interrupts.push(IrqLine::Mouse)
            } else {
                state.interrupts
            })
        }),
{
    crate::bytes::lemma_byte_bits(state.ctr);
    assert(0x01u8 | 0x10u8 == 0x11u8 && 0x02u8 | 0x20u8 == 0x22u8) by (bit_vector);
    let after = state.sent(byte, aux);
    assert(state.fitting(seq![byte]) == seq![byte]);
    assert(after.output =~= seq![byte]);
    assert((state.output_aux + Seq::new(1, |i: int| aux))[0] == aux);
}

} // verus!
