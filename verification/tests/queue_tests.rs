use icutil::queue::{process_queued_readings, queue_reading, QueuedReading, SensorReading};

fn entry(device: &str, kwh: u64, retries: u8) -> QueuedReading {
    QueuedReading {
        device_id: String::from(device),
        reading: SensorReading::Electricity {
            voltage: 230_000,
            current: 5_000,
            power_factor: 950,
            kwh,
        },
        timestamp: 100,
        retries,
    }
}

#[test]
fn queue_reading_appends() {
    let mut queue: Vec<QueuedReading> = Vec::new();
    queue_reading(&mut queue, entry("a", 1000, 0));
    queue_reading(&mut queue, entry("b", 2000, 1));
    assert_eq!(queue.len(), 2);
    assert_eq!(queue[1].device_id, "b");
}

#[test]
fn delivered_entries_leave_failed_ones_retry() {
    let queue = vec![
        entry("ok", 1000, 0),
        entry("fail", 2000, 1),
        entry("abandoned", 3000, 3),
        entry("fail-last", 4000, 2),
    ];
    let outcomes = vec![true, false, false, false];
    let next = process_queued_readings(&queue, &outcomes);
    assert_eq!(next.len(), 3);
    assert_eq!(next[0].device_id, "fail");
    assert_eq!(next[0].retries, 2);
    assert_eq!(next[1].device_id, "abandoned");
    assert_eq!(next[1].retries, 3);
    assert_eq!(next[2].device_id, "fail-last");
    assert_eq!(next[2].retries, 3);
}

#[test]
fn all_delivered_empties_the_queue() {
    let queue = vec![entry("a", 1000, 0), entry("b", 2000, 0)];
    let outcomes = vec![true, true];
    let next = process_queued_readings(&queue, &outcomes);
    assert!(next.is_empty());
}

#[test]
fn water_readings_survive_roundtrip() {
    let q = QueuedReading {
        device_id: String::from("w1"),
        reading: SensorReading::Water {
            flow_rate: 1500,
            total_liters: 890_000,
            temperature: Some(18_500),
        },
        timestamp: 7,
        retries: 0,
    };
    let next = process_queued_readings(&vec![q], &vec![false]);
    assert_eq!(next.len(), 1);
    match &next[0].reading {
        SensorReading::Water {
            flow_rate,
            total_liters,
            temperature,
        } => {
            assert_eq!(*flow_rate, 1500);
            assert_eq!(*total_liters, 890_000);
            assert_eq!(*temperature, Some(18_500));
        }
        _ => panic!("wrong reading kind"),
    }
}
