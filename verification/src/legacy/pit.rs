//! An interval timer for guests that calibrate against it early at boot.
use vstd::prelude::*;

use std::time::{Duration, Instant};

verus! {

pub const PIT_FREQUENCY_HZ: u128 = 1_193_182;
pub const NANOS_PER_SECOND: u128 = 1_000_000_000;
pub const PIT_CHANNELS: usize = 3;
pub const PIT_COUNTER_RELOAD: u32 = 0x1_0000;
pub const COMMAND_PORT: u64 = 3;
/// The nanoseconds of the longest duration: all seconds of a `u64`, and a second less one.
pub const MAX_NANOS: u128 = 18_446_744_073_709_551_615_999_999_999;

/// `std::time::Instant`, a point in time.
#[verifier::external_type_specification]
#[verifier::external_body]
pub struct ExInstant(std::time::Instant);

/// `Instant::now`: the present. Nothing is claimed of when it is.
pub assume_specification[ std::time::Instant::now ]() -> Instant
;

/// `Instant::elapsed`: the time since the instant. Nothing is claimed of how long it is.
pub assume_specification[ std::time::Instant::elapsed ](instant: &Instant) -> Duration
;

/// The nanoseconds of a duration.
pub uninterp spec fn nanos_of(duration: std::time::Duration) -> nat;

/// `Duration::as_nanos`: all of a duration in nanoseconds, which is never more than that of
/// the longest duration.
pub assume_specification[ std::time::Duration::as_nanos ](duration: &Duration) -> (r: u128)
    ensures
        r == nanos_of(*duration),
        r <= MAX_NANOS,
;

/// Whether an instant is one that `Instant::now` can give.
pub open spec fn read_off_the_clock(instant: Instant) -> bool {
    call_ensures(Instant::now, (), instant)
}

/// The count of a channel `nanos` nanoseconds after it was loaded. It counts down from the
/// reload value and starts over; ticks are counted modulo the values of a `u32`, and a full
/// count is read as zero.
pub open spec fn count_after(reload: u32, nanos: nat) -> u16 {
    let ticks = (nanos * PIT_FREQUENCY_HZ as nat / (NANOS_PER_SECOND as nat)) % 0x1_0000_0000;
    let count = reload - ticks % (reload as nat);
    if count == PIT_COUNTER_RELOAD {
        0
    } else {
        count as u16
    }
}

#[derive(Clone, Copy)]
pub struct PitChannel {
    pub reload: u32,
    pub started: Instant,
    pub access_mode: u8,
    pub write_lsb: Option<u8>,
    pub read_lsb_next: bool,
    pub latched_count: Option<u16>,
    pub latched_lsb_next: bool,
}

pub open spec fn low(count: u16) -> u8 {
    (count % 0x100) as u8
}

pub open spec fn high(count: u16) -> u8 {
    (count / 0x100) as u8
}

impl PitChannel {
    pub open spec fn valid(self) -> bool {
        0 < self.reload <= PIT_COUNTER_RELOAD
    }

    /// A channel that was just started with the longest count.
    pub open spec fn fresh(self) -> bool {
        read_off_the_clock(self.started) && self == (PitChannel {
            reload: PIT_COUNTER_RELOAD,
            started: self.started,
            access_mode: 3,
            write_lsb: None,
            read_lsb_next: true,
            latched_count: None,
            latched_lsb_next: true,
        })
    }

    /// Whether `nanos` are the nanoseconds of what `Instant::elapsed` can give for the instant
    /// at which the channel was loaded.
    pub open spec fn loaded_for(self, nanos: nat) -> bool {
        exists|passed: Duration| #[trigger]
            call_ensures(Instant::elapsed, (&self.started,), passed) && nanos == nanos_of(passed)
    }

    pub open spec fn latched(self, nanos: nat) -> PitChannel {
        PitChannel {
            latched_count: Some(count_after(self.reload, nanos)),
            latched_lsb_next: true,
            ..self
        }
    }

    /// The channel loaded with a value at some point in time; zero stands for the longest
    /// count.
    pub open spec fn loaded(self, value: u16, started: Instant) -> PitChannel {
        PitChannel {
            reload: if value == 0 {
                PIT_COUNTER_RELOAD
            } else {
                value as u32
            },
            started,
            read_lsb_next: true,
            latched_count: None,
            ..self
        }
    }

    pub open spec fn in_mode(self, access_mode: u8) -> PitChannel {
        PitChannel { access_mode, write_lsb: None, read_lsb_next: true, ..self }
    }

    /// A read of the counter `nanos` nanoseconds after it was loaded. A latched count is
    /// read first, low byte before high byte.
    pub open spec fn read(self, nanos: nat) -> (PitChannel, u8) {
        match self.latched_count {
            Some(count) => if self.latched_lsb_next {
                (PitChannel { latched_lsb_next: false, ..self }, low(count))
            } else {
                (
                    PitChannel { latched_count: None, latched_lsb_next: true, ..self },
                    high(count),
                )
            },
            None => {
                let count = count_after(self.reload, nanos);
                if self.access_mode == 1 {
                    (self, low(count))
                } else if self.access_mode == 2 {
                    (self, high(count))
                } else if self.read_lsb_next {
                    (PitChannel { read_lsb_next: false, ..self }, low(count))
                } else {
                    (PitChannel { read_lsb_next: true, ..self }, high(count))
                }
            },
        }
    }

    /// Whether the next write of the counter completes its value.
    pub open spec fn next_write_loads(self) -> bool {
        self.access_mode == 1 || self.access_mode == 2 || self.write_lsb is Some
    }

    /// A write of the counter, which is loaded at `started` where the value is complete.
    pub open spec fn written(self, value: u8, started: Instant) -> PitChannel {
        if self.access_mode == 1 {
            self.loaded(value as u16, started)
        } else if self.access_mode == 2 {
            self.loaded((0x100 * value) as u16, started)
        } else {
            match self.write_lsb {
                None => PitChannel { write_lsb: Some(value), ..self },
                Some(lsb) => (PitChannel { write_lsb: None, ..self }).loaded(
                    (lsb + 0x100 * value) as u16,
                    started,
                ),
            }
        }
    }

    pub fn new() -> (r: Self)
        ensures
            r.fresh(),
    {
        PitChannel {
            reload: PIT_COUNTER_RELOAD,
            started: Instant::now(),
            access_mode: 3,
            write_lsb: None,
            read_lsb_next: true,
            latched_count: None,
            latched_lsb_next: true,
        }
    }

    /// The nanoseconds since the channel was loaded.
    fn elapsed_nanos(&self) -> (r: u128)
        ensures
            self.loaded_for(r as nat),
            r <= MAX_NANOS,
    {
        self.started.elapsed().as_nanos()
    }

    /// The count `nanos` nanoseconds after the channel was loaded.
    pub fn count_at(&self, nanos: u128) -> (r: u16)
        requires
            self.valid(),
            nanos <= MAX_NANOS,
        ensures
            r == count_after(self.reload, nanos as nat),
    {
        assert(MAX_NANOS * 1_193_182 <= u128::MAX);
        assert(nanos * 1_193_182 <= MAX_NANOS * 1_193_182);
        let ticks: u32 = ((nanos * PIT_FREQUENCY_HZ / NANOS_PER_SECOND) % 0x1_0000_0000) as u32;
        let elapsed: u32 = ticks % self.reload;
        let count: u32 = self.reload - elapsed;
        if count == PIT_COUNTER_RELOAD {
            0
        } else {
            count as u16
        }
    }

    pub fn current_count(&self) -> (r: u16)
        requires
            self.valid(),
        ensures
            exists|nanos: nat|
                self.loaded_for(nanos) && r == #[trigger] count_after(self.reload, nanos),
    {
        let nanos: u128 = self.elapsed_nanos();
        self.count_at(nanos)
    }

    pub fn latch_count_at(&mut self, nanos: u128)
        requires
            old(self).valid(),
            nanos <= MAX_NANOS,
        ensures
            *final(self) == old(self).latched(nanos as nat),
            final(self).valid(),
    {
        self.latched_count = Some(self.count_at(nanos));
        self.latched_lsb_next = true;
    }

    /// Keeps the present count for the next two reads.
    pub fn latch_count(&mut self)
        requires
            old(self).valid(),
        ensures
            exists|nanos: nat|
                old(self).loaded_for(nanos) && *final(self) == #[trigger] old(self).latched(nanos),
            final(self).valid(),
    {
        let nanos: u128 = self.elapsed_nanos();
        self.latch_count_at(nanos);
        assert(*self == old(self).latched(nanos as nat));
    }

    pub fn set_reload(&mut self, value: u16)
        ensures
            read_off_the_clock(final(self).started),
            *final(self) == old(self).loaded(value, final(self).started),
            final(self).valid(),
    {
        self.reload = if value == 0 {
            PIT_COUNTER_RELOAD
        } else {
            value as u32
        };
        self.started = Instant::now();
        self.read_lsb_next = true;
        self.latched_count = None;
    }

    pub fn set_access_mode(&mut self, access_mode: u8)
        requires
            old(self).valid(),
        ensures
            *final(self) == old(self).in_mode(access_mode),
            final(self).valid(),
    {
        self.access_mode = access_mode;
        self.write_lsb = None;
        self.read_lsb_next = true;
    }

    pub fn read_counter_at(&mut self, nanos: u128) -> (r: u8)
        requires
            old(self).valid(),
            nanos <= MAX_NANOS,
        ensures
            (*final(self), r) == old(self).read(nanos as nat),
            final(self).valid(),
    {
        if let Some(count) = self.latched_count {
            if self.latched_lsb_next {
                self.latched_lsb_next = false;
                (count % 0x100) as u8
            } else {
                self.latched_count = None;
                self.latched_lsb_next = true;
                (count / 0x100) as u8
            }
        } else {
            let count: u16 = self.count_at(nanos);
            if self.access_mode == 1 {
                (count % 0x100) as u8
            } else if self.access_mode == 2 {
                (count / 0x100) as u8
            } else if self.read_lsb_next {
                self.read_lsb_next = false;
                (count % 0x100) as u8
            } else {
                self.read_lsb_next = true;
                (count / 0x100) as u8
            }
        }
    }

    /// Reads a byte of the counter.
    pub fn read_counter(&mut self) -> (r: u8)
        requires
            old(self).valid(),
        ensures
            exists|nanos: nat|
                old(self).loaded_for(nanos) && (*final(self), r) == #[trigger] old(self).read(
                    nanos,
                ),
            final(self).valid(),
    {
        let nanos: u128 = self.elapsed_nanos();
        let r: u8 = self.read_counter_at(nanos);
        assert((*self, r) == old(self).read(nanos as nat));
        r
    }

    /// Writes a byte of the counter.
    pub fn write_counter(&mut self, value: u8)
        requires
            old(self).valid(),
        ensures
            old(self).next_write_loads() ==> read_off_the_clock(final(self).started),
            *final(self) == old(self).written(value, final(self).started),
            final(self).valid(),
    {
        if self.access_mode == 1 {
            self.set_reload(value as u16);
        } else if self.access_mode == 2 {
            self.set_reload(0x100 * (value as u16));
        } else {
            match self.write_lsb {
                Some(lsb) => {
                    self.write_lsb = None;
                    self.set_reload(lsb as u16 + 0x100 * (value as u16));
                },
                None => {
                    self.write_lsb = Some(value);
                },
            }
        }
    }
}

/// The channels after a command, with the time since the addressed channel was loaded.
pub open spec fn after_command(channels: Seq<PitChannel>, command: u8, nanos: nat) -> Seq<
    PitChannel,
> {
    let channel = (command / 64) as int;
    let access_mode = (command / 16 % 4) as u8;
    if channel >= PIT_CHANNELS {
        channels
    } else if access_mode == 0 {
        channels.update(channel, channels[channel].latched(nanos))
    } else {
        channels.update(channel, channels[channel].in_mode(access_mode))
    }
}

/// Whether `after` are the channels after a command. A latched count is the one at the time
/// since its channel was loaded; no other command looks at the time.
pub open spec fn command_done(
    before: Seq<PitChannel>,
    command: u8,
    after: Seq<PitChannel>,
) -> bool {
    let channel = (command / 64) as int;
    if channel < PIT_CHANNELS && command / 16 % 4 == 0 {
        exists|nanos: nat|
            before[channel].loaded_for(nanos) && after == #[trigger] after_command(
                before,
                command,
                nanos,
            )
    } else {
        after == after_command(before, command, 0)
    }
}

/// A timer with three channels.
pub struct Pit {
    pub channels: [PitChannel; 3],
}

impl Pit {
    pub open spec fn valid(&self) -> bool {
        self.channels@[0].valid() && self.channels@[1].valid() && self.channels@[2].valid()
    }

    pub fn new() -> (r: Self)
        ensures
            r.valid(),
            forall|i: int| 0 <= i < PIT_CHANNELS ==> (#[trigger] r.channels@[i]).fresh(),
    {
        Pit { channels: [PitChannel::new(), PitChannel::new(), PitChannel::new()] }
    }

    /// Latches a count or sets the access mode of a channel.
    pub fn write_command(&mut self, command: u8)
        requires
            old(self).valid(),
        ensures
            final(self).valid(),
            command_done(old(self).channels@, command, final(self).channels@),
    {
        let channel: usize = (command / 64) as usize;
        if channel >= PIT_CHANNELS {
            assert(self.channels@ == after_command(old(self).channels@, command, 0));
            return;
        }
        let access_mode: u8 = command / 16 % 4;
        let mut selected = self.channels[channel];
        if access_mode == 0 {
            selected.latch_count();
            self.channels[channel] = selected;
            proof {
                let before = old(self).channels@;
                let nanos = choose|nanos: nat|
                    before[channel as int].loaded_for(nanos) && selected
                        == #[trigger] before[channel as int].latched(nanos);
                assert(self.channels@ =~= after_command(before, command, nanos));
            }
        } else {
            selected.set_access_mode(access_mode);
            self.channels[channel] = selected;
            assert(self.channels@ =~= after_command(old(self).channels@, command, 0));
        }
    }

    /// Reads the port at `offset`. Only single bytes of the three counters can be read.
    pub fn read(&mut self, _base: u64, offset: u64, data: &mut [u8])
        requires
            old(self).valid(),
        ensures
            final(self).valid(),
            if old(data)@.len() == 1 && offset < PIT_CHANNELS {
                exists|nanos: nat|
                    {
                        let (channel, byte) = #[trigger] old(self).channels@[offset as int].read(
                            nanos,
                        );
                        &&& old(self).channels@[offset as int].loaded_for(nanos)
                        &&& final(self).channels@ == old(self).channels@.update(
                            offset as int,
                            channel,
                        )
                        &&& final(data)@ == seq![byte]
                    }
            } else {
                final(self).channels@ == old(self).channels@ && final(data)@ == old(data)@
            },
    {
        if data.len() != 1 {
            return;
        }
        if offset < PIT_CHANNELS as u64 {
            let index: usize = offset as usize;
            let mut selected = self.channels[index];
            let byte: u8 = selected.read_counter();
            self.channels[index] = selected;
            data[0] = byte;
            assert(data@ =~= seq![byte]);
        }
    }

    /// Writes the port at `offset`: a counter or the command port.
    pub fn write(&mut self, _base: u64, offset: u64, data: &[u8])
        requires
            old(self).valid(),
        ensures
            final(self).valid(),
            if data@.len() == 1 && offset == COMMAND_PORT {
                command_done(old(self).channels@, data@[0], final(self).channels@)
            } else if data@.len() == 1 && offset < PIT_CHANNELS {
                &&& old(self).channels@[offset as int].next_write_loads() ==> read_off_the_clock(
                    final(self).channels@[offset as int].started,
                )
                &&& final(self).channels@ == old(self).channels@.update(
                    offset as int,
                    old(self).channels@[offset as int].written(
                        data@[0],
                        final(self).channels@[offset as int].started,
                    ),
                )
            } else {
                final(self).channels@ == old(self).channels@
            },
    {
        if data.len() != 1 {
            return;
        }
        if offset == COMMAND_PORT {
            self.write_command(data[0]);
        } else if offset < PIT_CHANNELS as u64 {
            let index: usize = offset as usize;
            let mut selected = self.channels[index];
            selected.write_counter(data[0]);
            self.channels[index] = selected;
        }
    }
}

impl Default for Pit {
    fn default() -> (r: Self)
        ensures
            r.valid(),
            forall|i: int| 0 <= i < PIT_CHANNELS ==> (#[trigger] r.channels@[i]).fresh(),
    {
        Self::new()
    }
}

/// A count never exceeds the reload value, and is zero only where it stands for the longest
/// count.
pub proof fn counts_stay_in_range(reload: u32, nanos: nat)
    requires
        0 < reload <= PIT_COUNTER_RELOAD,
    ensures
        count_after(reload, nanos) <= reload,
        count_after(reload, nanos) == 0 ==> reload == PIT_COUNTER_RELOAD,
        count_after(reload, 0) == reload % PIT_COUNTER_RELOAD,
{
    assert(0nat % (reload as nat) == 0) by (nonlinear_arith)
        requires
            reload > 0,
    ;
    assert(0nat * PIT_FREQUENCY_HZ as nat / (NANOS_PER_SECOND as nat) == 0);
}

/// The two reads after a latch give the low and the high byte of the count at the latch,
/// however much time passes between them.
pub proof fn a_latched_count_is_read_in_two_bytes(
    channel: PitChannel,
    at: nat,
    first: nat,
    second: nat,
)
    ensures
        ({
            let (channel1, byte1) = channel.latched(at).read(first);
            let (channel2, byte2) = channel1.read(second);
            &&& byte1 + 0x100 * byte2 == count_after(channel.reload, at)
            &&& channel2.latched_count is None
        }),
{
}

/// Two writes in the word mode load the value of both bytes.
pub proof fn two_writes_load_a_word(channel: PitChannel, lsb: u8, msb: u8, t1: Instant, t2: Instant)
    requires
        channel.access_mode == 3,
        channel.write_lsb is None,
        lsb + 0x100 * msb > 0,
    ensures
        channel.written(lsb, t1).written(msb, t2).reload == lsb + 0x100 * msb,
{
}

/// A count follows the clock of 1193182 ticks a second: once `ticks` of them have passed, it has
/// gone down by as many, and has started over as often as it reached the end. A full count of
/// 65536 is read as zero.
pub proof fn a_count_goes_down_with_the_clock(reload: u32, nanos: nat, ticks: nat)
    requires
        0 < reload <= 0x1_0000,
        ticks < 0x1_0000_0000,
        1_000_000_000 * ticks <= 1_193_182 * nanos < 1_000_000_000 * (ticks + 1),
    ensures
        ({
            let count: int = if count_after(reload, nanos) == 0 {
                0x1_0000
            } else {
                count_after(reload, nanos) as int
            };
            &&& 0 < count <= reload
            &&& (count + ticks) % reload as int == 0
        }),
{
    vstd::arithmetic::div_mod::lemma_fundamental_div_mod_converse(
        1_193_182 * nanos as int,
        1_000_000_000,
        ticks as int,
        1_193_182 * nanos - 1_000_000_000 * ticks,
    );
    assert(nanos * PIT_FREQUENCY_HZ as nat / (NANOS_PER_SECOND as nat) == ticks);
    let left = ticks % (reload as nat);
    vstd::arithmetic::div_mod::lemma_fundamental_div_mod(ticks as int, reload as int);
    vstd::arithmetic::div_mod::lemma_mod_bound(ticks as int, reload as int);
    let rounds = ticks as int / reload as int;
    assert(reload - left + ticks == reload * (rounds + 1)) by (nonlinear_arith)
        requires
            ticks == reload * rounds + left,
    ;
    vstd::arithmetic::div_mod::lemma_mod_multiples_basic(rounds + 1, reload as int);
    assert((reload * (rounds + 1)) == (rounds + 1) * reload) by (nonlinear_arith);
}

/// The two highest bits of a command name a channel, the two below them what is done with it: 0
/// latches its count, and 1, 2 and 3 have the values that follow be its low byte, its high byte,
/// or both of them. A value of zero stands for 65536. The other channels stay as they are.
pub proof fn a_command_prepares_a_channel(
    channels: Seq<PitChannel>,
    channel: u8,
    mode: u8,
    rest: u8,
    nanos: nat,
    first: u8,
    second: u8,
    at: Instant,
    later: Instant,
    other: int,
)
    requires
        channels.len() == 3,
        channel < 3,
        mode < 4,
        rest < 16,
        0 <= other < 3,
        other != channel,
    ensures
        ({
            let after = after_command(channels, (64 * channel + 16 * mode + rest) as u8, nanos);
            let prepared = after[channel as int];
            let one = prepared.written(first, at);
            let two = one.written(second, later);
            let full = |value: int|
                if value == 0 {
                    0x1_0000int
                } else {
                    value
                };
            &&& after.len() == 3 && after[other] == channels[other]
            &&& prepared.reload == channels[channel as int].reload
            &&& mode == 0 ==> prepared.latched_count == Some(
                count_after(channels[channel as int].reload, nanos),
            ) && prepared.latched_lsb_next
            &&& mode == 1 ==> one.reload == full(first as int) && one.started == at
            &&& mode == 2 ==> one.reload == full(256 * first) && one.started == at
            &&& mode == 3 ==> one.reload == prepared.reload && two.reload == full(
                first + 256 * second,
            ) && two.started == later
        }),
{
    let command = (64 * channel + 16 * mode + rest) as u8;
    assert(command / 64 == channel);
    assert(command / 16 % 4 == mode);
}

} // verus!
