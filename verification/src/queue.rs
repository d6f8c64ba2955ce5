//! The offline reading queue: readings that could not be delivered yet, and
//! the decision pass that removes delivered ones and counts retries.
//!
//! The host performs the deliveries and reports one outcome per entry; the
//! decision about what stays queued is made here.

use vstd::prelude::*;

verus! {

/// Deliveries attempted per queued reading before it is abandoned.
pub const MAX_RETRIES: u8 = 3;

/// One measurement from a device, in thousandths of the respective units.
#[derive(Clone, Debug)]
pub enum SensorReading {
    Electricity { voltage: u64, current: u64, power_factor: u64, kwh: u64 },
    Water { flow_rate: u64, total_liters: u64, temperature: Option<u64> },
}

/// A reading waiting for delivery, with its retry count.
#[derive(Clone, Debug)]
pub struct QueuedReading {
    pub device_id: String,
    pub reading: SensorReading,
    pub timestamp: u64,
    pub retries: u8,
}

/// The entry as it looks after one more failed delivery.
pub open spec fn bumped(r: QueuedReading) -> QueuedReading {
    QueuedReading { retries: (r.retries + 1) as u8, ..r }
}

/// What remains queued after one delivery pass: abandoned entries stay
/// untouched, delivered entries leave, failed entries stay with one more
/// retry counted.
pub open spec fn queue_step(q: Seq<QueuedReading>, outcomes: Seq<bool>) -> Seq<QueuedReading>
    recommends
        q.len() == outcomes.len(),
    decreases q.len(),
{
    if q.len() == 0 {
        Seq::empty()
    } else {
        let rest = queue_step(q.drop_last(), outcomes.drop_last());
        if q.last().retries >= MAX_RETRIES {
            rest.push(q.last())
        } else if outcomes[q.len() - 1] {
            rest
        } else {
            rest.push(bumped(q.last()))
        }
    }
}

/// Appends a reading to the delivery queue.
pub fn queue_reading(queue: &mut Vec<QueuedReading>, reading: QueuedReading)
    ensures
        final(queue)@ == old(queue)@.push(reading),
{
    queue.push(reading);
}

/// One delivery pass over the queue. `outcomes[i]` reports whether the
/// delivery of `queue[i]` succeeded; entries already at the retry bound are
/// never attempted and their outcome is ignored.
pub fn process_queued_readings(queue: &Vec<QueuedReading>, outcomes: &Vec<bool>) -> (r: Vec<
    QueuedReading,
>)
    requires
        queue@.len() == outcomes@.len(),
    ensures
        r@ == queue_step(queue@, outcomes@),
{
    let n = queue.len();
    let mut out: Vec<QueuedReading> = Vec::new();
    let mut i: usize = 0;
    proof {
        assert(queue@.take(0) =~= Seq::<QueuedReading>::empty());
        assert(outcomes@.take(0) =~= Seq::<bool>::empty());
    }
    while i < n
        invariant
            i <= n,
            out@ == queue_step(queue@.take(i as int), outcomes@.take(i as int)),
        decreases n - i,
    {
        proof {
            assert(queue@.take(i + 1).drop_last() =~= queue@.take(i as int));
            assert(outcomes@.take(i + 1).drop_last() =~= outcomes@.take(i as int));
            assert(queue@.take(i + 1).last() == queue@[i as int]);
            assert(outcomes@.take(i + 1)[queue@.take(i + 1).len() - 1] == outcomes@[i as int]);
        }
        let entry = &queue[i];
        if entry.retries >= MAX_RETRIES {
            out.push(copy_queued(entry));
        } else if outcomes[i] {
        } else {
            let mut kept = copy_queued(entry);
            kept.retries = kept.retries + 1;
            proof {
                assert(kept == bumped(queue@[i as int]));
            }
            out.push(kept);
        }
        i = i + 1;
    }
    proof {
        assert(queue@.take(n as int) =~= queue@);
        assert(outcomes@.take(n as int) =~= outcomes@);
    }
    out
}

/// A field-by-field copy of a sensor reading.
fn copy_sensor(r: &SensorReading) -> (c: SensorReading)
    ensures
        c == *r,
{
    match r {
        SensorReading::Electricity { voltage, current, power_factor, kwh } => {
            SensorReading::Electricity {
                voltage: *voltage,
                current: *current,
                power_factor: *power_factor,
                kwh: *kwh,
            }
        },
        SensorReading::Water { flow_rate, total_liters, temperature } => {
            SensorReading::Water {
                flow_rate: *flow_rate,
                total_liters: *total_liters,
                temperature: match temperature {
                    Some(t) => Some(*t),
                    None => None,
                },
            }
        },
    }
}

/// A field-by-field copy of a queued reading.
fn copy_queued(r: &QueuedReading) -> (c: QueuedReading)
    ensures
        c == *r,
{
    QueuedReading {
        device_id: r.device_id.clone(),
        reading: copy_sensor(&r.reading),
        timestamp: r.timestamp,
        retries: r.retries,
    }
}

} // verus!
