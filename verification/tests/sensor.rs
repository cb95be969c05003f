use azure_gateway::sensor::{
    AccelReading, Accelerometer, Binary32, ForceReading, ForceSensor, Producer, ThermoReading,
    Thermometer, MAX_QUEUE_SIZE,
};

/// A thermometer together with what its thread would hold, the thread being run by hand.
struct Bench {
    sensor: Thermometer,
    producer: Option<Producer<ThermoReading>>,
    made: u32,
}

impl Bench {
    fn new(id: &str, rate_per_sec: u32) -> Self {
        Bench {
            sensor: Thermometer::new(id.to_string(), rate_per_sec).unwrap(),
            producer: None,
            made: 0,
        }
    }

    fn start(&mut self) {
        if let Some(producer) = self.sensor.start() {
            self.producer = Some(producer);
        }
    }

    fn stop(&mut self) {
        if self.sensor.stop() {
            let producer = self.producer.take().unwrap();
            self.sensor.rejoin(producer);
        }
    }

    /// Lets the thread come round as often as it would in so many milliseconds.
    fn run_for(&mut self, ms: u64) {
        if let Some(producer) = &mut self.producer {
            for _ in 0..ms / producer.pause_ms() {
                self.made += 1;
                let reading = reading(20.0 + (self.made % 10) as f32);
                if !self.sensor.produce(producer, reading) {
                    return;
                }
            }
        }
    }

    fn wait_for_reading(&mut self, timeout_ms: u64) -> Option<ThermoReading> {
        let mut waited = 0;
        while waited < timeout_ms {
            if let Some(reading) = self.sensor.read() {
                return Some(reading);
            }
            self.run_for(5);
            waited += 5;
        }
        None
    }
}

fn single(x: f32) -> Binary32 {
    Binary32 { bits: x.to_bits() }
}

fn reading(celsius: f32) -> ThermoReading {
    ThermoReading { temperature_celsius: single(celsius) }
}

#[test]
fn start_produces_readings() {
    let mut bench = Bench::new("t-1", 200);
    bench.start();

    let reading = bench.wait_for_reading(500);
    assert!(reading.is_some());
}

#[test]
fn stop_halts_and_restart_resumes() {
    let mut bench = Bench::new("t-2", 200);
    bench.start();

    assert!(bench.wait_for_reading(500).is_some());

    bench.stop();

    while bench.sensor.read().is_some() {}
    bench.run_for(50);
    assert!(bench.sensor.read().is_none());

    bench.start();
    assert!(bench.wait_for_reading(500).is_some());
}

#[test]
fn available_matches_reader_len() {
    let mut bench = Bench::new("t-3", 200);
    bench.start();

    let _ = bench.wait_for_reading(500);
    bench.run_for(50);
    let available = bench.sensor.available();
    let mut read = 0usize;
    while bench.sensor.read().is_some() {
        read += 1;
    }
    assert_eq!(available, read);
    assert_eq!(available, 10);
    assert_eq!(bench.sensor.available(), 0);
}

#[test]
fn a_stopped_sensor_takes_no_reading_from_its_thread() {
    let mut sensor = Thermometer::new("t-4".to_string(), 10).unwrap();
    let mut producer = sensor.start_thread().unwrap();
    assert!(sensor.is_running());
    assert!(sensor.produce(&mut producer, reading(21.0)));
    assert!(sensor.stop());
    assert!(!sensor.is_running());
    assert!(!sensor.produce(&mut producer, reading(22.0)));
    assert_eq!(sensor.available(), 1);
    assert_eq!(sensor.read(), Some(reading(21.0)));
    assert_eq!(sensor.read(), None);
}

#[test]
fn a_second_start_hands_out_nothing() {
    let mut sensor = Thermometer::new("t-5".to_string(), 10).unwrap();
    let producer = sensor.start().unwrap();
    assert!(sensor.start().is_none());
    assert!(sensor.start_thread().is_none());
    assert!(sensor.stop());
    assert!(sensor.stop());
    sensor.rejoin(producer);
    assert!(!sensor.stop());
    assert!(sensor.start().is_some());
    assert!(sensor.is_running());
}

#[test]
fn a_sensor_that_is_not_read_keeps_the_newest_readings() {
    let mut sensor = Thermometer::new("t-6".to_string(), 1).unwrap();
    let mut producer = sensor.start().unwrap();
    for i in 0..200u32 {
        sensor.produce(&mut producer, reading(i as f32));
    }
    assert_eq!(sensor.available(), MAX_QUEUE_SIZE - 1);
    for i in 73..200u32 {
        assert_eq!(sensor.read(), Some(reading(i as f32)));
    }
    assert_eq!(sensor.read(), None);
}

#[test]
fn the_pause_follows_the_rate() {
    for (rate, ms) in [(1u32, 1000u64), (3, 333), (200, 5), (1000, 1), (1001, 0), (u32::MAX, 0)] {
        let mut sensor = Thermometer::new("t-7".to_string(), rate).unwrap();
        assert_eq!(sensor.start().unwrap().pause_ms(), ms);
    }
}

#[test]
fn all_kinds_of_sensors_hand_out_their_readings() {
    let mut accel = Accelerometer::new("accel-1".to_string(), 50).unwrap();
    let mut producer = accel.start().unwrap();
    let a = AccelReading {
        acceleration_x: single(1.0),
        acceleration_y: single(2.0),
        acceleration_z: single(3.0),
    };
    assert!(accel.produce(&mut producer, a));
    assert_eq!(accel.read(), Some(a));
    assert_eq!(accel.id(), "accel-1");

    let mut force = ForceSensor::new("force-1".to_string(), 50).unwrap();
    let mut producer = force.start().unwrap();
    let f = ForceReading { force_x: single(10.0), force_y: single(20.0), force_z: single(30.0) };
    assert!(force.produce(&mut producer, f));
    assert_eq!(force.available(), 1);
    assert_eq!(force.read(), Some(f));
    assert_eq!(force.id(), "force-1");
}
