use vstd::prelude::*;

use crate::device::{Device, DeviceKind, DeviceView, NUMBER_OF_REGISTERS};

verus! {

/// Why a transfer is refused: it would read and write the same device.
pub const ERR_SAME_DEVICE: &'static str = "'from' and 'to' must be different devices";

/// Position of a device of this kind in the device table.
pub open spec fn kind_index(kind: DeviceKind) -> int {
    match kind {
        DeviceKind::I2c => 0,
        DeviceKind::Spi => 1,
    }
}

/// Position of a device of kind `kind` in the device table.
pub fn device_index(kind: DeviceKind) -> (index: usize)
    ensures
        index == kind_index(kind),
{
    match kind {
        DeviceKind::I2c => 0,
        DeviceKind::Spi => 1,
    }
}

/// How one transfer between the devices of a table is carried out: which
/// device is read, which is written, in which order the two are locked, and
/// whether the transfer pauses (and reports the pause) while it holds the
/// first lock, which is what lets two opposite transfers deadlock.
#[derive(Clone, Copy, Debug, PartialEq, Eq, Structural)]
pub struct TransferPlan {
    pub source: usize,
    pub destination: usize,
    pub first_lock: usize,
    pub second_lock: usize,
    pub pause_between_locks: bool,
}

/// Table position of the device a transfer locks first. A transfer that
/// starts from the I²C device takes the source first; one that starts from
/// the SPI device takes the destination first, unless deadlock mode makes it
/// take the source first as well.
pub open spec fn first_locked(from: DeviceKind, to: DeviceKind, deadlock_mode: bool) -> int {
    if from == DeviceKind::Spi && !deadlock_mode {
        kind_index(to)
    } else {
        kind_index(from)
    }
}

/// Table position of the device a transfer locks second: the other one.
pub open spec fn second_locked(from: DeviceKind, to: DeviceKind, deadlock_mode: bool) -> int {
    if from == DeviceKind::Spi && !deadlock_mode {
        kind_index(from)
    } else {
        kind_index(to)
    }
}

/// Decides how a transfer from `from` to `to` runs. The two kinds must
/// differ (a transfer from a device to itself is refused with
/// `ERR_SAME_DEVICE`).
pub fn plan_transfer(from: DeviceKind, to: DeviceKind, deadlock_mode: bool) -> (plan: TransferPlan)
    requires
        from != to,
    ensures
        plan.source == kind_index(from),
        plan.destination == kind_index(to),
        plan.first_lock == first_locked(from, to, deadlock_mode),
        plan.second_lock == second_locked(from, to, deadlock_mode),
        plan.pause_between_locks == (from == DeviceKind::Spi && deadlock_mode),
{
    let source = device_index(from);
    let destination = device_index(to);
    match from {
        DeviceKind::I2c => TransferPlan {
            source,
            destination,
            first_lock: source,
            second_lock: destination,
            pause_between_locks: false,
        },
        DeviceKind::Spi => {
            if deadlock_mode {
                TransferPlan {
                    source,
                    destination,
                    first_lock: source,
                    second_lock: destination,
                    pause_between_locks: true,
                }
            } else {
                TransferPlan {
                    source,
                    destination,
                    first_lock: destination,
                    second_lock: source,
                    pause_between_locks: false,
                }
            }
        },
    }
}

/// The state a transfer leaves the destination in: the source's read
/// register is copied into the destination's write register, and the
/// destination counts one more use.
pub open spec fn transferred(source: DeviceView, destination: DeviceView) -> DeviceView {
    destination.written(Device::REG_TO_WRITE as int, source.registers[Device::REG_TO_READ as int])
}

/// The destination after `times` transfers from an unchanging source.
pub open spec fn transferred_times(source: DeviceView, destination: DeviceView, times: nat) -> DeviceView
    decreases times,
{
    if times == 0 {
        destination
    } else {
        transferred(source, transferred_times(source, destination, (times - 1) as nat))
    }
}

/// Copies the source's read register into the destination's write register.
pub fn transfer_register(source: &Device, destination: &mut Device)
    requires
        old(destination)@.usage_count < i32::MAX,
    ensures
        final(destination)@ == transferred(source@, old(destination)@),
        source@.is_valid(),
        old(destination)@.is_valid(),
        final(destination)@.is_valid(),
{
    proof {
        use_type_invariant(source);
        use_type_invariant(&*destination);
    }
    let value = source.read_register(Device::REG_TO_READ);
    destination.write_register(Device::REG_TO_WRITE, value);
}

/// True when the second command-line argument is exactly `deadlock`.
pub fn is_deadlock_allowed(args: &[String]) -> (allowed: bool)
    ensures
        allowed == (args@.len() > 1 && args@[1]@ == "deadlock"@),
{
    if args.len() < 2 {
        return false;
    }
    let expected = "deadlock".to_string();
    args[1] == expected
}

/// In normal mode every transfer, whichever its direction, locks the I²C
/// device before the SPI device: one global lock order, so two transfers
/// can never wait on each other. The two locks are always the source and the
/// destination.
pub proof fn lemma_normal_mode_locks_in_one_order(from: DeviceKind, to: DeviceKind)
    requires
        from != to,
    ensures
        first_locked(from, to, false) == kind_index(DeviceKind::I2c),
        second_locked(from, to, false) == kind_index(DeviceKind::Spi),
        first_locked(from, to, false) != second_locked(from, to, false),
        (first_locked(from, to, false) == kind_index(from) && second_locked(from, to, false)
            == kind_index(to)) || (first_locked(from, to, false) == kind_index(to)
            && second_locked(from, to, false) == kind_index(from)),
{
}

/// In deadlock mode every transfer locks its source first, so two opposite
/// transfers take the two devices in opposite orders (each may hold the lock
/// the other waits for).
pub proof fn lemma_deadlock_mode_locks_in_opposite_orders(from: DeviceKind, to: DeviceKind)
    requires
        from != to,
    ensures
        first_locked(from, to, true) == kind_index(from),
        second_locked(from, to, true) == kind_index(to),
        first_locked(from, to, true) == second_locked(to, from, true),
        second_locked(from, to, true) == first_locked(to, from, true),
        first_locked(from, to, true) != first_locked(to, from, true),
{
}

/// A transfer leaves the destination's read register as it was, so two
/// opposite transfers give the same two devices in either order.
pub proof fn lemma_opposite_transfers_commute(a: DeviceView, b: DeviceView)
    requires
        a.is_valid(),
        b.is_valid(),
    ensures
        transferred(a, b).registers[Device::REG_TO_READ as int] == b.registers[Device::REG_TO_READ as int],
        transferred(transferred(a, b), a) == transferred(b, a),
        transferred(transferred(b, a), b) == transferred(a, b),
{
}

/// After any positive number of transfers from a source that does not
/// change, the destination's write register holds the source's read
/// register, its other registers and its name are unchanged, and its usage
/// count has grown by that number.
pub proof fn lemma_repeated_transfers(source: DeviceView, destination: DeviceView, times: nat)
    requires
        source.is_valid(),
        destination.is_valid(),
        times >= 1,
    ensures
        transferred_times(source, destination, times).registers[Device::REG_TO_WRITE as int]
            == source.registers[Device::REG_TO_READ as int],
        forall|i: int|
            0 <= i < NUMBER_OF_REGISTERS && i != Device::REG_TO_WRITE ==> #[trigger] transferred_times(
                source,
                destination,
                times,
            ).registers[i] == destination.registers[i],
        transferred_times(source, destination, times).registers.len() == NUMBER_OF_REGISTERS,
        transferred_times(source, destination, times).name == destination.name,
        transferred_times(source, destination, times).usage_count == destination.usage_count + times,
    decreases times,
{
    let before = transferred_times(source, destination, (times - 1) as nat);
    if times > 1 {
        lemma_repeated_transfers(source, destination, (times - 1) as nat);
    } else {
        assert(before == destination);
    }
    assert(transferred_times(source, destination, times) == transferred(source, before));
}

/// Both devices after a schedule of transfers run one after another: a
/// `true` step copies from the I²C device into the SPI device, a `false`
/// step copies from the SPI device into the I²C device. The result is the
/// pair (I²C device, SPI device).
pub open spec fn run_schedule(i2c: DeviceView, spi: DeviceView, schedule: Seq<bool>) -> (
    DeviceView,
    DeviceView,
)
    decreases schedule.len(),
{
    if schedule.len() == 0 {
        (i2c, spi)
    } else {
        let (i2c_before, spi_before) = run_schedule(i2c, spi, schedule.drop_last());
        if schedule.last() {
            (i2c_before, transferred(i2c_before, spi_before))
        } else {
            (transferred(spi_before, i2c_before), spi_before)
        }
    }
}

/// How many steps of a schedule are transfers from the I²C device.
pub open spec fn forward_steps(schedule: Seq<bool>) -> nat
    decreases schedule.len(),
{
    if schedule.len() == 0 {
        0
    } else {
        forward_steps(schedule.drop_last()) + if schedule.last() {
            1nat
        } else {
            0nat
        }
    }
}

/// How many steps of a schedule are transfers from the SPI device.
pub open spec fn backward_steps(schedule: Seq<bool>) -> nat
    decreases schedule.len(),
{
    if schedule.len() == 0 {
        0
    } else {
        backward_steps(schedule.drop_last()) + if schedule.last() {
            0nat
        } else {
            1nat
        }
    }
}

/// Transfers never change the register that transfers read from.
proof fn lemma_read_register_kept(source: DeviceView, destination: DeviceView, times: nat)
    requires
        source.is_valid(),
        destination.is_valid(),
    ensures
        transferred_times(source, destination, times).registers[Device::REG_TO_READ as int]
            == destination.registers[Device::REG_TO_READ as int],
{
    if times >= 1 {
        lemma_repeated_transfers(source, destination, times);
        assert(transferred_times(source, destination, times).registers[Device::REG_TO_READ as int]
            == destination.registers[Device::REG_TO_READ as int]);
    }
}

/// A schedule ends as the two directions run one after the other.
proof fn lemma_schedule_separates(i2c: DeviceView, spi: DeviceView, schedule: Seq<bool>)
    requires
        i2c.is_valid(),
        spi.is_valid(),
    ensures
        run_schedule(i2c, spi, schedule) == (
            transferred_times(spi, i2c, backward_steps(schedule)),
            transferred_times(i2c, spi, forward_steps(schedule)),
        ),
    decreases schedule.len(),
{
    if schedule.len() > 0 {
        let prefix = schedule.drop_last();
        lemma_schedule_separates(i2c, spi, prefix);
        let forward = forward_steps(prefix);
        let backward = backward_steps(prefix);
        let i2c_before = transferred_times(spi, i2c, backward);
        let spi_before = transferred_times(i2c, spi, forward);
        lemma_read_register_kept(spi, i2c, backward);
        lemma_read_register_kept(i2c, spi, forward);
        if schedule.last() {
            assert(transferred(i2c_before, spi_before) == transferred(i2c, spi_before));
            assert(transferred_times(i2c, spi, forward + 1) == transferred(i2c, spi_before));
        } else {
            assert(transferred(spi_before, i2c_before) == transferred(spi, i2c_before));
            assert(transferred_times(spi, i2c, backward + 1) == transferred(spi, i2c_before));
        }
    }
}

/// However the transfers of the two directions interleave, both devices end
/// exactly as if each direction had run alone: the SPI device as after all
/// the transfers from the I²C device, and the I²C device as after all the
/// transfers from the SPI device. Each device's write register ends holding
/// the other's read register once a transfer into it ran, its other
/// registers and its name stay, and its count grows by the number of
/// transfers into it.
pub proof fn lemma_any_interleaving(i2c: DeviceView, spi: DeviceView, schedule: Seq<bool>)
    requires
        i2c.is_valid(),
        spi.is_valid(),
    ensures
        run_schedule(i2c, spi, schedule) == (
            transferred_times(spi, i2c, backward_steps(schedule)),
            transferred_times(i2c, spi, forward_steps(schedule)),
        ),
        forward_steps(schedule) + backward_steps(schedule) == schedule.len(),
        run_schedule(i2c, spi, schedule).0.usage_count == i2c.usage_count + backward_steps(
            schedule,
        ),
        run_schedule(i2c, spi, schedule).1.usage_count == spi.usage_count + forward_steps(
            schedule,
        ),
        run_schedule(i2c, spi, schedule).0.name == i2c.name,
        run_schedule(i2c, spi, schedule).1.name == spi.name,
        backward_steps(schedule) >= 1 ==> run_schedule(i2c, spi, schedule).0.registers[
            Device::REG_TO_WRITE as int
        ] == spi.registers[Device::REG_TO_READ as int],
        forward_steps(schedule) >= 1 ==> run_schedule(i2c, spi, schedule).1.registers[
            Device::REG_TO_WRITE as int
        ] == i2c.registers[Device::REG_TO_READ as int],
        forall|i: int|
            0 <= i < NUMBER_OF_REGISTERS && i != Device::REG_TO_WRITE ==> #[trigger] run_schedule(
                i2c,
                spi,
                schedule,
            ).0.registers[i] == i2c.registers[i] && run_schedule(i2c, spi, schedule).1.registers[i]
                == spi.registers[i],
{
    lemma_schedule_separates(i2c, spi, schedule);
    lemma_step_counts(schedule);
    let forward = forward_steps(schedule);
    let backward = backward_steps(schedule);
    if forward >= 1 {
        lemma_repeated_transfers(i2c, spi, forward);
    }
    if backward >= 1 {
        lemma_repeated_transfers(spi, i2c, backward);
    }
}

/// Every step of a schedule goes one way or the other.
proof fn lemma_step_counts(schedule: Seq<bool>)
    ensures
        forward_steps(schedule) + backward_steps(schedule) == schedule.len(),
    decreases schedule.len(),
{
    if schedule.len() > 0 {
        lemma_step_counts(schedule.drop_last());
    }
}

} // verus!
