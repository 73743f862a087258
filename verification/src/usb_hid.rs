//! A PCI device that is a USB controller with a keyboard and a mouse.
use vm_memory::MmapRegion;
use vstd::prelude::*;

use crate::guest_memory::{
    Answers, DmaMapFlags, GuestAddress, GuestMemoryError, GuestMemoryMap, GuestMemoryRegion,
};
use crate::input_protocol::InputEvent;
use crate::pci::PciConfig;
use crate::uhci::{InterruptLine, Uhci, UhciController};
use crate::usb::Bus;
use crate::vfio::{
    BackendError, IrqInfo, RegionInfo, BAR4_REGION_INDEX, CONFIG_REGION_INDEX, INTX_IRQ_INDEX,
    IRQ_COUNT, IRQ_SET_ACTION_ALL, IRQ_SET_ACTION_MASK, IRQ_SET_ACTION_TRIGGER,
    IRQ_SET_ACTION_UNMASK, IRQ_SET_DATA_EVENTFD, IRQ_SET_DATA_MASK, IRQ_SET_DATA_NONE,
    REGION_COUNT,
};

verus! {

/// What a client's interrupt setup asks for.
#[derive(Clone, Copy, Debug, PartialEq, Eq, Structural)]
pub enum IrqAction {
    Install,
    Disable,
    Mask,
    Unmask,
}

/// The action of an interrupt setup with `fds` events attached.
pub open spec fn irq_action(index: u32, flags: u32, start: u32, count: u32, fds: nat) -> Result<
    IrqAction,
    BackendError,
> {
    let action = flags & IRQ_SET_ACTION_ALL;
    let data = flags & IRQ_SET_DATA_MASK;
    if index != INTX_IRQ_INDEX || start != 0 {
        Err(BackendError::UnsupportedVector)
    } else if action == IRQ_SET_ACTION_TRIGGER && data == IRQ_SET_DATA_EVENTFD && count == 1 && fds
        == 1 {
        Ok(IrqAction::Install)
    } else if action == IRQ_SET_ACTION_TRIGGER && data == IRQ_SET_DATA_NONE && count == 0 {
        Ok(IrqAction::Disable)
    } else if action == IRQ_SET_ACTION_MASK && data == IRQ_SET_DATA_NONE && count == 1 {
        Ok(IrqAction::Mask)
    } else if action == IRQ_SET_ACTION_UNMASK && data == IRQ_SET_DATA_NONE && count == 1 {
        Ok(IrqAction::Unmask)
    } else {
        Err(BackendError::UnsupportedIrqSetup)
    }
}

/// The interrupt line after an action.
pub open spec fn line_after(line: InterruptLine, action: IrqAction) -> InterruptLine {
    match action {
        IrqAction::Install => (InterruptLine {
            installed: true,
            masked: false,
            ..line
        }).signalled(),
        IrqAction::Disable => InterruptLine { installed: false, masked: false, ..line },
        IrqAction::Mask => InterruptLine { masked: true, ..line },
        IrqAction::Unmask => (InterruptLine { masked: false, ..line }).signalled(),
    }
}

/// The controller after an input event. The lock states of a keyboard come from the guest,
/// so an event that carries them is ignored.
pub open spec fn after_event(controller: Uhci, event: InputEvent) -> Uhci {
    match event {
        InputEvent::Key { usage, pressed } => Uhci {
            bus: Bus {
                keyboard: controller.bus.keyboard.after_key(usage, pressed),
                ..controller.bus
            },
            ..controller
        },
        InputEvent::Mouse { dx, dy, wheel, buttons } => Uhci {
            bus: Bus {
                mouse: controller.bus.mouse.after_update(dx as i32, dy as i32, wheel, buttons),
                ..controller.bus
            },
            ..controller
        },
        InputEvent::ReleaseAll => Uhci { bus: controller.bus.after_release_all(), ..controller },
        InputEvent::KeyboardLeds { .. } => controller,
    }
}

/// Hands an input event to the devices of the controller.
pub fn apply_event(controller: &mut UhciController, event: InputEvent)
    requires
        old(controller).valid(),
    ensures
        final(controller).valid(),
        final(controller)@ == after_event(old(controller)@, event),
{
    match event {
        InputEvent::Key { usage, pressed } => controller.input_key(usage, pressed),
        InputEvent::Mouse { dx, dy, wheel, buttons } => controller.input_mouse(
            dx as i32,
            dy as i32,
            wheel,
            buttons,
        ),
        InputEvent::ReleaseAll => controller.release_all_input(),
        InputEvent::KeyboardLeds { .. } => {},
    }
}

pub struct VfioUsbHidBackend {
    pub config: PciConfig,
    pub controller: UhciController,
    pub memory: GuestMemoryMap,
}

impl VfioUsbHidBackend {
    pub open spec fn valid(&self) -> bool {
        self.config.valid() && self.controller.valid() && self.memory@.valid()
    }

    pub fn new() -> (r: Self)
        ensures
            r.valid(),
            r.config@ == crate::pci::config_after_reset(),
            r.controller@ == Uhci::powered_on(
                InterruptLine { installed: false, level: false, masked: false, due: false },
            ),
            r.memory@.regions.len() == 0,
            r.memory@.trace.accesses.len() == 0,
    {
        VfioUsbHidBackend {
            config: PciConfig::new(),
            controller: UhciController::new(InterruptLine::new()),
            memory: GuestMemoryMap::new(),
        }
    }

    pub fn regions() -> (r: Vec<RegionInfo>)
        ensures
            r@ == Seq::new(REGION_COUNT as nat, |i: int| crate::pci::region_info(i as u32)),
    {
        PciConfig::regions()
    }

    pub fn irqs() -> (r: Vec<IrqInfo>)
        ensures
            r@ == Seq::new(IRQ_COUNT as nat, |i: int| crate::pci::irq_info(i as u32)),
    {
        PciConfig::irqs()
    }

    pub fn controller(&self) -> (r: &UhciController)
        ensures
            *r == self.controller,
    {
        &self.controller
    }

    pub fn memory(&self) -> (r: &GuestMemoryMap)
        ensures
            *r == self.memory,
    {
        &self.memory
    }

    /// Processes one frame of the controller's schedule.
    pub fn tick(&mut self)
        requires
            old(self).valid(),
        ensures
            final(self).valid(),
            final(self).config == old(self).config,
            final(self).memory@.follows(old(self).memory@),
            final(self).memory@.settled(),
            forall|answers: Answers| #[trigger]
                final(self).memory@.agrees(answers) ==> (
                    final(self).controller@,
                    final(self).memory@.under(answers),
                ) == old(self).controller@.ticked(old(self).memory@.under(answers)),
    {
        self.controller.tick(&mut self.memory);
    }

    pub fn region_read(&self, region: u32, offset: u64, data: &mut [u8]) -> (r: Result<
        (),
        BackendError,
    >)
        requires
            self.valid(),
        ensures
            ({
                let length = old(data)@.len();
                let whole = if region == CONFIG_REGION_INDEX {
                    self.config@
                } else {
                    self.controller@.registers()
                };
                if region != CONFIG_REGION_INDEX && region != BAR4_REGION_INDEX {
                    r == Err::<(), BackendError>(BackendError::UnimplementedRegion(region))
                        && final(data)@ == old(data)@
                } else if offset + length <= whole.len() {
                    r is Ok && final(data)@ == whole.subrange(offset as int, offset + length)
                } else {
                    r == Err::<(), BackendError>(BackendError::OutOfRange) && final(data)@
                        == old(data)@
                }
            }),
    {
        if region == CONFIG_REGION_INDEX {
            self.config.read(offset, data)
        } else if region == BAR4_REGION_INDEX {
            match self.controller.read(offset, data) {
                Ok(()) => Ok(()),
                Err(_) => Err(BackendError::OutOfRange),
            }
        } else {
            Err(BackendError::UnimplementedRegion(region))
        }
    }

    pub fn region_write(&mut self, region: u32, offset: u64, data: &[u8]) -> (r: Result<
        (),
        BackendError,
    >)
        requires
            old(self).valid(),
        ensures
            final(self).valid(),
            final(self).memory == old(self).memory,
            if region == CONFIG_REGION_INDEX {
                &&& final(self).controller == old(self).controller
                &&& if offset + data@.len() <= crate::pci::PCI_CONFIG_SPACE_SIZE {
                    r is Ok && final(self).config@ == crate::pci::config_after_write(
                        old(self).config@,
                        offset,
                        data@,
                    )
                } else {
                    r == Err::<(), BackendError>(BackendError::OutOfRange) && final(self).config@
                        == old(self).config@
                }
            } else if region == BAR4_REGION_INDEX {
                &&& final(self).config == old(self).config
                &&& if offset + data@.len() <= crate::uhci::UHCI_IO_BAR_SIZE {
                    r is Ok && final(self).controller@ == old(self).controller@.after_write(
                        offset,
                        data@,
                    )
                } else {
                    r == Err::<(), BackendError>(BackendError::OutOfRange) && final(self).controller@ == old(self).controller@
                }
            } else {
                r == Err::<(), BackendError>(BackendError::UnimplementedRegion(region))
                    && *final(self) == *old(self)
            },
    {
        if region == CONFIG_REGION_INDEX {
            self.config.write(offset, data)
        } else if region == BAR4_REGION_INDEX {
            match self.controller.write(offset, data) {
                Ok(()) => Ok(()),
                Err(_) => Err(BackendError::OutOfRange),
            }
        } else {
            Err(BackendError::UnimplementedRegion(region))
        }
    }

    /// Adds a mapping of `memory` at `address`.
    pub fn dma_map(
        &mut self,
        flags: DmaMapFlags,
        address: u64,
        size: u64,
        memory: Option<MmapRegion<()>>,
    ) -> (r: Result<(), GuestMemoryError>)
        requires
            old(self).valid(),
        ensures
            final(self).valid(),
            final(self).config == old(self).config,
            final(self).controller == old(self).controller,
            final(self).memory@.trace == old(self).memory@.trace,
            r == crate::guest_memory::map_outcome(
                old(self).memory@,
                flags,
                address,
                size,
                memory,
            ),
            match r {
                Err(_) => final(self).memory == old(self).memory,
                Ok(()) => crate::guest_memory::region_added(
                    old(self).memory@.regions,
                    final(self).memory@.regions,
                    GuestMemoryRegion {
                        start: GuestAddress(address),
                        size,
                        readable: flags.read,
                        writable: flags.write,
                        memory: memory->0,
                    },
                ),
            },
    {
        self.memory.map(flags, GuestAddress(address), size, memory)
    }

    pub fn dma_unmap(&mut self, all: bool, address: u64, size: u64) -> (r: Result<
        (),
        GuestMemoryError,
    >)
        requires
            old(self).valid(),
        ensures
            final(self).valid(),
            final(self).config == old(self).config,
            final(self).controller == old(self).controller,
            final(self).memory@.trace == old(self).memory@.trace,
            if all {
                r is Ok && final(self).memory@.regions.len() == 0
            } else if address + size > u64::MAX {
                r == Err::<(), GuestMemoryError>(GuestMemoryError::RangeOverflow) && final(self).memory == old(self).memory
            } else {
                r is Ok && final(self).memory@.regions == old(self).memory@.regions.filter(
                    |region: crate::guest_memory::GuestMemoryRegion| !region.meets(address, size),
                )
            },
    {
        match self.memory.unmap(all, GuestAddress(address), size) {
            Ok(_) => Ok(()),
            Err(error) => Err(error),
        }
    }

    /// Resets the configuration space and the controller and drops every mapping.
    pub fn reset(&mut self)
        requires
            old(self).valid(),
        ensures
            final(self).valid(),
            final(self).config@ == crate::pci::config_after_reset(),
            final(self).controller@ == old(self).controller@.fresh(),
            final(self).memory@.regions.len() == 0,
            final(self).memory@.trace == old(self).memory@.trace,
    {
        self.config.reset();
        self.controller.reset();
        self.memory.clear();
    }

    /// Sets up the interrupt line. An installed event is kept by the caller, with `fds` the
    /// number of events that came with the request.
    pub fn set_irqs(&mut self, index: u32, flags: u32, start: u32, count: u32, fds: usize) -> (r:
        Result<IrqAction, BackendError>)
        requires
            old(self).valid(),
        ensures
            final(self).valid(),
            final(self).config == old(self).config,
            final(self).memory == old(self).memory,
            r == irq_action(index, flags, start, count, fds as nat),
            final(self).controller@ == (match r {
                Ok(action) => Uhci {
                    interrupt: line_after(old(self).controller@.interrupt, action),
                    ..old(self).controller@
                },
                Err(_) => old(self).controller@,
            }),
    {
        if index != INTX_IRQ_INDEX || start != 0 {
            return Err(BackendError::UnsupportedVector);
        }
        let action: u32 = flags & IRQ_SET_ACTION_ALL;
        let data: u32 = flags & IRQ_SET_DATA_MASK;
        if action == IRQ_SET_ACTION_TRIGGER && data == IRQ_SET_DATA_EVENTFD && count == 1 && fds
            == 1 {
            self.controller.interrupt.install();
            Ok(IrqAction::Install)
        } else if action == IRQ_SET_ACTION_TRIGGER && data == IRQ_SET_DATA_NONE && count == 0 {
            self.controller.interrupt.disable();
            Ok(IrqAction::Disable)
        } else if action == IRQ_SET_ACTION_MASK && data == IRQ_SET_DATA_NONE && count == 1 {
            self.controller.interrupt.mask();
            Ok(IrqAction::Mask)
        } else if action == IRQ_SET_ACTION_UNMASK && data == IRQ_SET_DATA_NONE && count == 1 {
            self.controller.interrupt.unmask();
            Ok(IrqAction::Unmask)
        } else {
            Err(BackendError::UnsupportedIrqSetup)
        }
    }
}

impl Default for VfioUsbHidBackend {
    fn default() -> (r: Self)
        ensures
            r.valid(),
            r.config@ == crate::pci::config_after_reset(),
            r.controller@ == Uhci::powered_on(
                InterruptLine { installed: false, level: false, masked: false, due: false },
            ),
            r.memory@.regions.len() == 0,
            r.memory@.trace.accesses.len() == 0,
    {
        Self::new()
    }
}

/// The length of a frame, a millisecond.
pub const FRAME_NANOS: u64 = 1_000_000;

/// The end of a frame that begins at `start`.
pub open spec fn frame_end(start: u64) -> u64 {
    if start + FRAME_NANOS <= u64::MAX {
        (start + FRAME_NANOS) as u64
    } else {
        u64::MAX
    }
}

/// When the controller is to process the next frame. Times are nanoseconds of a clock that
/// does not go back.
#[derive(Clone, Copy, Debug, PartialEq, Eq)]
pub struct FrameTimer {
    pub deadline: u64,
}

impl FrameTimer {
    pub fn new(now: u64) -> (r: Self)
        ensures
            r.deadline == frame_end(now),
    {
        FrameTimer { deadline: now.saturating_add(FRAME_NANOS) }
    }

    /// How long to wait for the next frame.
    pub fn pause(&self, now: u64) -> (r: u64)
        ensures
            r == (if now < self.deadline {
                self.deadline - now
            } else {
                0
            }),
    {
        self.deadline.saturating_sub(now)
    }

    /// A frame was processed: the next one ends a frame later, or, if that is over already,
    /// a frame from now.
    pub fn advance(&mut self, now: u64)
        ensures
            final(self).deadline == (if frame_end(old(self).deadline) < now {
                frame_end(now)
            } else {
                frame_end(old(self).deadline)
            }),
            final(self).deadline >= now,
    {
        self.deadline = self.deadline.saturating_add(FRAME_NANOS);
        if self.deadline < now {
            self.deadline = now.saturating_add(FRAME_NANOS);
        }
    }
}

/// A raised line is signalled once: no further signal is due until the client unmasks it.
pub proof fn a_signal_masks_the_line(line: InterruptLine, level: bool)
    requires
        line.masked,
    ensures
        line.at_level(level).due == line.due,
        line.at_level(level).masked,
{
}

/// Unmasking a line that is still raised signals it again.
pub proof fn unmasking_a_raised_line_signals_it(line: InterruptLine)
    requires
        line.installed,
        line.level,
    ensures
        line_after(line, IrqAction::Unmask).due,
{
}

/// An input event reaches the device that it is for, and no other: a key the keyboard, a motion
/// the mouse, in the directions that it has. All input is released on both.
pub proof fn an_event_reaches_its_device(
    controller: Uhci,
    usage: u8,
    pressed: bool,
    dx: i16,
    dy: i16,
    wheel: i16,
    buttons: u8,
)
    requires
        0 < usage < 0xe0 || usage > 0xe7,
        -0x4000_0000_0000_0000 <= controller.bus.mouse.pending_dx <= 0x4000_0000_0000_0000,
        -0x4000_0000_0000_0000 <= controller.bus.mouse.pending_dy <= 0x4000_0000_0000_0000,
        -0x4000_0000_0000_0000 <= controller.bus.mouse.pending_wheel <= 0x4000_0000_0000_0000,
    ensures
        ({
            let typed = after_event(controller, InputEvent::Key { usage, pressed });
            let moved = after_event(controller, InputEvent::Mouse { dx, dy, wheel, buttons });
            let released = after_event(controller, InputEvent::ReleaseAll);
            &&& typed.bus.keyboard.keys.contains(usage) == pressed
            &&& typed.bus.mouse == controller.bus.mouse
            &&& moved.bus.mouse.pending_dx == controller.bus.mouse.pending_dx + dx
            &&& moved.bus.mouse.pending_dy == controller.bus.mouse.pending_dy + dy
            &&& moved.bus.mouse.pending_wheel == controller.bus.mouse.pending_wheel + wheel
            &&& moved.bus.mouse.buttons == buttons % 8
            &&& moved.bus.keyboard == controller.bus.keyboard
            &&& !released.bus.keyboard.keys.contains(usage)
            &&& released.bus.keyboard.modifiers == 0
            &&& released.bus.mouse.buttons == 0
        }),
{
    crate::usb::hid::keyboard::the_keyboard_holds_the_pressed_keys(
        controller.bus.keyboard,
        usage,
        pressed,
        usage,
    );
    crate::usb::hid::mouse::motion_is_added_up(
        controller.bus.mouse,
        dx as i32,
        dy as i32,
        wheel,
        buttons,
    );
}

proof fn lemma_setup_flags(flags: u32)
    by (bit_vector)
    ensures
        flags & 0x38 == flags % 64 - flags % 8,
        flags & 5 == flags % 2 + 4 * (flags / 4 % 2),
        flags % 8 == flags % 2 + 2 * (flags / 2 % 2) + 4 * (flags / 4 % 2),
{
}

/// What an interrupt setup asks for stands in its six lowest flags, of which 2 does not count: 4
/// for an event that is attached, or 1 for none, together with 32 for the interrupt itself, 8 for
/// holding it back, or 16 for letting it through. Nothing else is accepted.
pub proof fn the_flags_name_the_action(index: u32, flags: u32, start: u32, count: u32, fds: nat)
    ensures
        ({
            let action = irq_action(index, flags, start, count, fds);
            let line = index == 0 && start == 0;
            let kind = flags % 64 - 2 * (flags / 2 % 2);
            &&& action == Ok::<IrqAction, BackendError>(IrqAction::Install) <==> line && kind == 36
                && count == 1 && fds == 1
            &&& action == Ok::<IrqAction, BackendError>(IrqAction::Disable) <==> line && kind == 33
                && count == 0
            &&& action == Ok::<IrqAction, BackendError>(IrqAction::Mask) <==> line && kind == 9
                && count == 1
            &&& action == Ok::<IrqAction, BackendError>(IrqAction::Unmask) <==> line && kind == 17
                && count == 1
            &&& action == Err::<IrqAction, BackendError>(BackendError::UnsupportedVector) <==> !line
        }),
{
    lemma_setup_flags(flags);
    let high = flags % 64 - flags % 8;
    assert(high % 8 == 0);
}

/// What a client asks for holds at once: an installed line can signal, and does so where it is
/// raised; a line that is disabled or masked does not; one that is let through signals where it is
/// still raised. No action changes the level.
pub proof fn the_line_follows_its_actions(line: InterruptLine, level: bool)
    ensures
        ({
            let installed = line_after(line, IrqAction::Install);
            let disabled = line_after(line, IrqAction::Disable);
            let masked = line_after(line, IrqAction::Mask);
            let unmasked = line_after(line, IrqAction::Unmask);
            &&& installed.installed && installed.due == (line.due || line.level)
            &&& installed.masked == line.level
            &&& !disabled.installed && disabled.at_level(level).due == line.due
            &&& masked.masked && masked.at_level(level).due == line.due
            &&& unmasked.due == (line.due || (line.level && line.installed))
            &&& !line.level ==> !unmasked.masked && (unmasked.at_level(true).due == (line.due
                || line.installed))
            &&& installed.level == line.level && disabled.level == line.level
            &&& masked.level == line.level && unmasked.level == line.level
        }),
{
}

} // verus!
