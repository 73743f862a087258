# hvdevices

Device models for a virtual machine monitor, verified with Verus.

- `src/` is the library. Every device is a state machine: a model of its state, pure functions
  from a state to the next one, and executable code that is proved to follow them. What holds
  across operations is stated as public proof functions next to the models.
- `tests/` runs the library on concrete values.
- `app/` holds the sockets, files, threads and command lines around the library, as one program
  with the subcommands `vfio-usb-hid` and `vfio-user-simplefb`. Its modules `disk`, `firmware` and
  `throttle` are for a monitor that embeds the NVMe controller, the firmware configuration or the
  throttle.

## Modules

| Module | Contents |
|--------|----------|
| `bytes` | Integers in bytes, ranges of bytes |
| `guest_memory` | The guest memory that a client maps for DMA |
| `ram` | The guest memory of the machine |
| `usb`, `uhci`, `pci`, `usb_hid` | A UHCI controller with a HID keyboard and a HID mouse |
| `input_protocol` | Records of keyboard and mouse events on a stream |
| `input_server`, `input_bridge` | The two ends of that stream: who reads the records, and who sends them |
| `framebuffer`, `simplefb` | A framebuffer in mapped guest memory, and its PCI function |
| `vnc`, `vnc_server`, `vnc_input` | The remote framebuffer protocol, its server, and its input |
| `cli` | Numbers, formats and listeners on a command line |
| `throttle` | vCPU throttling during a live migration |
| `legacy` | PS/2 controller, interval timer, firmware configuration with its ACPI loader |
| `nvme` | An NVMe controller with one namespace |

Guest CPUs write to guest memory whenever they like, and a machine may replace the memory of its
guest. A device therefore records its accesses, with the memory that it found and the bytes that
each read delivered. What it does is stated as a function of what the guest answers to each access,
and holds for all answers that agree with the record. Read-back of written data is
stated for a memory that only the device writes to.
