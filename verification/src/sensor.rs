//! Simulated sensors: a thread of its own fills the ring of a sensor at a given rate, and the
//! gateway reads from it.
//!
//! A sensor here keeps the books; the thread runs elsewhere, holding the `Producer` that
//! `start_thread` hands out.

use crate::queue::{QueueError, QueueReader, QueueWriter, RWRoundQueue};
use vstd::prelude::*;

verus! {

/// A single-precision number, by its bits.
#[derive(Clone, Copy, Debug, PartialEq, Eq, Structural)]
pub struct Binary32 {
    pub bits: u32,
}

/// A reading of a thermometer.
#[derive(Clone, Copy, Debug, PartialEq, Eq, Structural)]
pub struct ThermoReading {
    pub temperature_celsius: Binary32,
}

/// A reading of an accelerometer.
#[derive(Clone, Copy, Debug, PartialEq, Eq, Structural)]
pub struct AccelReading {
    pub acceleration_x: Binary32,
    pub acceleration_y: Binary32,
    pub acceleration_z: Binary32,
}

/// A reading of a force sensor.
#[derive(Clone, Copy, Debug, PartialEq, Eq, Structural)]
pub struct ForceReading {
    pub force_x: Binary32,
    pub force_y: Binary32,
    pub force_z: Binary32,
}

/// A sensor of temperatures.
pub type Thermometer = SimulatedSensor<ThermoReading>;

/// A sensor of accelerations along three axes.
pub type Accelerometer = SimulatedSensor<AccelReading>;

/// A sensor of forces along three axes.
pub type ForceSensor = SimulatedSensor<ForceReading>;

/// The number of slots in the ring of a sensor.
pub const MAX_QUEUE_SIZE: usize = 128;

/// What a sensor is up to.
pub ghost struct SensorState<R> {
    pub id: Seq<char>,
    pub rate_per_sec: u32,
    /// The readings that wait to be read, oldest first.
    pub waiting: Seq<R>,
    /// Whether the thread is to go on.
    pub running: bool,
    /// Whether the thread has the writing end of the ring.
    pub started: bool,
}

impl<R> SensorState<R> {
    /// The state of a sensor that was just made.
    pub open spec fn fresh(id: Seq<char>, rate_per_sec: u32) -> Self {
        SensorState { id, rate_per_sec, waiting: Seq::empty(), running: true, started: false }
    }

    /// The state once the thread is set going; a sensor whose thread runs stays as it is.
    pub open spec fn after_start(self) -> Self {
        if self.started {
            self
        } else {
            SensorState { running: true, started: true, ..self }
        }
    }

    /// The state once the thread is told to stop.
    pub open spec fn after_stop(self) -> Self {
        SensorState { running: false, ..self }
    }

    /// The state once the thread has come to its end.
    pub open spec fn after_join(self) -> Self {
        SensorState { started: false, ..self }
    }

    /// The state once the thread has come round with a reading; nothing is added after the stop.
    pub open spec fn after_reading(self, reading: R) -> Self {
        if self.running {
            SensorState {
                waiting: crate::queue::keep_last(
                    self.waiting.push(reading),
                    (MAX_QUEUE_SIZE - 1) as nat,
                ),
                ..self
            }
        } else {
            self
        }
    }

    /// The state once a reading is taken.
    pub open spec fn after_read(self) -> Self {
        if self.waiting.len() == 0 {
            self
        } else {
            SensorState { waiting: self.waiting.skip(1), ..self }
        }
    }
}

/// What the thread of a sensor works with.
pub struct Producer<R: Copy> {
    writer: QueueWriter<R>,
    rate_per_sec: u32,
}

impl<R: Copy> Producer<R> {
    /// How many readings a second the thread makes.
    pub closed spec fn rate(self) -> u32 {
        self.rate_per_sec
    }

    /// How long the thread sleeps between two readings, in milliseconds.
    pub fn pause_ms(&self) -> (ms: u64)
        requires
            self.rate() > 0,
        ensures
            ms == 1000int / (self.rate() as int),
    {
        1000 / (self.rate_per_sec as u64)
    }
}

/// A sensor whose readings are made up by a thread.
pub struct SimulatedSensor<R: Copy> {
    id: String,
    rate_per_sec: u32,
    queue: RWRoundQueue<R>,
    reader: QueueReader<R>,
    writer: Option<QueueWriter<R>>,
    running: bool,
}

impl<R: Copy> View for SimulatedSensor<R> {
    type V = SensorState<R>;

    closed spec fn view(&self) -> SensorState<R> {
        SensorState {
            id: self.id@,
            rate_per_sec: self.rate_per_sec,
            waiting: self.queue@,
            running: self.running,
            started: self.writer is None,
        }
    }
}

impl<R: Copy> SimulatedSensor<R> {
    /// The ring is in order and of the size of all sensor rings.
    pub closed spec fn wf(self) -> bool {
        self.queue.wf() && self.queue.slot_count() == MAX_QUEUE_SIZE
    }

    /// Makes a sensor that has not been started. Only the allocator can refuse it.
    pub fn new(id: String, rate_per_sec: u32) -> (r: Result<Self, QueueError>)
        ensures
            r matches Ok(s) ==> s.wf() && s@ == SensorState::<R>::fresh(id@, rate_per_sec),
            r matches Err(e) ==> e is AllocationFailed,
    {
        proof {
            reveal_with_fuel(vstd::arithmetic::power2::is_pow2, 9);
        }
        let made: Result<RWRoundQueue<R>, QueueError> = RWRoundQueue::new(MAX_QUEUE_SIZE);
        Self::with_queue(id, rate_per_sec, made)
    }

    /// Makes a sensor on the ring that was made for it, if it was.
    pub fn with_queue(
        id: String,
        rate_per_sec: u32,
        made: Result<RWRoundQueue<R>, QueueError>,
    ) -> (r: Result<Self, QueueError>)
        requires
            made matches Ok(q) ==> q.wf() && q.slot_count() == MAX_QUEUE_SIZE && q@ == Seq::<
                R,
            >::empty(),
        ensures
            r is Ok <==> made is Ok,
            r matches Ok(s) ==> s.wf() && s@ == SensorState::<R>::fresh(id@, rate_per_sec),
            made matches Err(e) ==> r == Err::<Self, QueueError>(e),
    {
        match made {
            Err(e) => Err(e),
            Ok(mut queue) => {
                let (reader, writer) = queue.split();
                Ok(
                    SimulatedSensor {
                        id,
                        rate_per_sec,
                        queue,
                        reader,
                        writer: Some(writer),
                        running: true,
                    },
                )
            },
        }
    }

    /// Sets the thread going: gives what the thread is to work with, unless it runs already.
    pub fn start_thread(&mut self) -> (producer: Option<Producer<R>>)
        requires
            old(self).wf(),
        ensures
            final(self).wf(),
            final(self)@ == old(self)@.after_start(),
            producer is Some <==> !old(self)@.started,
            producer matches Some(p) ==> p.rate() == old(self)@.rate_per_sec,
    {
        match self.writer.take() {
            None => None,
            Some(writer) => {
                self.running = true;
                Some(Producer { writer, rate_per_sec: self.rate_per_sec })
            },
        }
    }

    /// Sets the sensor going, as `start_thread` does.
    pub fn start(&mut self) -> (producer: Option<Producer<R>>)
        requires
            old(self).wf(),
        ensures
            final(self).wf(),
            final(self)@ == old(self)@.after_start(),
            producer is Some <==> !old(self)@.started,
            producer matches Some(p) ==> p.rate() == old(self)@.rate_per_sec,
    {
        self.start_thread()
    }

    /// One round of the thread: adds a reading to the ring and tells to go on, unless the
    /// sensor was stopped.
    pub fn produce(&mut self, producer: &mut Producer<R>, reading: R) -> (go_on: bool)
        requires
            old(self).wf(),
        ensures
            final(self).wf(),
            final(self)@ == old(self)@.after_reading(reading),
            go_on == old(self)@.running,
            final(producer).rate() == old(producer).rate(),
    {
        if !self.running {
            return false;
        }
        let _ = producer.writer.write(&mut self.queue, reading);
        true
    }

    /// Tells the thread to stop, and the caller whether there is a thread to wait for; what it
    /// gives back then goes to `rejoin`.
    pub fn stop(&mut self) -> (must_join: bool)
        requires
            old(self).wf(),
        ensures
            final(self).wf(),
            final(self)@ == old(self)@.after_stop(),
            must_join == old(self)@.started,
    {
        self.running = false;
        self.writer.is_none()
    }

    /// Takes back what the thread worked with, once it has come to its end.
    pub fn rejoin(&mut self, producer: Producer<R>)
        requires
            old(self).wf(),
        ensures
            final(self).wf(),
            final(self)@ == old(self)@.after_join(),
    {
        self.writer = Some(producer.writer);
    }

    /// Takes the oldest reading, if there is one.
    pub fn read(&mut self) -> (reading: Option<R>)
        requires
            old(self).wf(),
        ensures
            final(self).wf(),
            final(self)@ == old(self)@.after_read(),
            reading == (if old(self)@.waiting.len() == 0 {
                None
            } else {
                Some(old(self)@.waiting[0])
            }),
    {
        self.reader.read(&mut self.queue)
    }

    /// How many readings wait to be read. Where that comes up to the limit, readings are lost.
    pub fn available(&self) -> (n: usize)
        requires
            self.wf(),
        ensures
            n == self@.waiting.len(),
            n < MAX_QUEUE_SIZE,
    {
        self.reader.len(&self.queue)
    }

    /// The name of the sensor.
    pub fn id(&self) -> (id: String)
        ensures
            id@ == self@.id,
    {
        self.id.clone()
    }

    /// Whether the thread is to go on.
    pub fn is_running(&self) -> (b: bool)
        ensures
            b == self@.running,
    {
        self.running
    }
}

/// After a stop no reading comes in, however often the thread comes round.
pub proof fn law_stop_halts<R>(s: SensorState<R>, reading: R)
    ensures
        s.after_stop().after_reading(reading) == s.after_stop(),
        s.after_stop().after_join().after_reading(reading) == s.after_stop().after_join(),
{
}

/// A sensor that was stopped and whose thread has ended can be started again, and then goes on
/// where it was: what waited before the stop waits still, and readings come in again.
pub proof fn law_restart_resumes<R>(s: SensorState<R>, reading: R)
    requires
        s.running,
    ensures
        ({
            let again = s.after_stop().after_join().after_start();
            &&& again.started && again.running
            &&& again.waiting == s.waiting
            &&& again.after_reading(reading).waiting == s.after_reading(reading).waiting
        }),
{
}

/// What holds of every reading that is made, such as a range, holds of every reading that waits
/// and of every reading that is read.
pub proof fn law_readings_are_those_made<R>(
    s: SensorState<R>,
    reading: R,
    holds: spec_fn(R) -> bool,
)
    requires
        holds(reading),
        forall|i: int| 0 <= i < s.waiting.len() ==> holds(#[trigger] s.waiting[i]),
    ensures
        forall|i: int|
            0 <= i < s.after_reading(reading).waiting.len() ==> holds(
                #[trigger] s.after_reading(reading).waiting[i],
            ),
        forall|i: int|
            0 <= i < s.after_read().waiting.len() ==> holds(#[trigger] s.after_read().waiting[i]),
        s.after_start().waiting == s.waiting,
        s.after_stop().waiting == s.waiting,
        s.after_join().waiting == s.waiting,
        s.waiting.len() < MAX_QUEUE_SIZE ==> s.after_reading(reading).waiting.len()
            < MAX_QUEUE_SIZE,
{
}

/// Starting a sensor whose thread runs changes nothing.
pub proof fn law_start_is_idempotent<R>(s: SensorState<R>)
    ensures
        s.after_start().after_start() == s.after_start(),
{
}

/// Readings are read in the order in which they were made, and a sensor that is read often
/// enough loses none.
pub proof fn law_readings_come_in_order<R>(s: SensorState<R>, reading: R)
    requires
        s.running,
        s.waiting.len() + 1 < MAX_QUEUE_SIZE,
    ensures
        s.after_reading(reading).waiting == s.waiting.push(reading),
        s.waiting.len() == 0 ==> s.after_reading(reading).waiting[0] == reading,
        s.waiting.len() > 0 ==> s.after_reading(reading).after_read().waiting
            == s.after_read().after_reading(reading).waiting,
{
    if s.waiting.len() > 0 {
        assert(s.after_reading(reading).after_read().waiting
            =~= s.after_read().after_reading(reading).waiting);
    }
}

/// A sensor is started once: what its thread works with is handed out only where none runs, and
/// from then on the thread is to go on. What waits stays.
pub proof fn law_a_sensor_is_started_once<R: Copy>(
    sensor: &mut SimulatedSensor<R>,
    likewise: &mut SimulatedSensor<R>,
    producer: Option<Producer<R>>,
    other: Option<Producer<R>>,
)
    requires
        call_ensures(SimulatedSensor::<R>::start_thread, (sensor,), producer),
        call_ensures(SimulatedSensor::<R>::start, (likewise,), other),
        old(sensor)@ == old(likewise)@,
        old(sensor).wf(),
    ensures
        producer is Some <==> !old(sensor)@.started,
        other is Some <==> producer is Some,
        producer matches Some(p) ==> p.rate() == old(sensor)@.rate_per_sec && p.rate()
            == other->Some_0.rate(),
        final(sensor)@.started,
        old(sensor)@.started ==> final(sensor)@.running == old(sensor)@.running,
        !old(sensor)@.started ==> final(sensor)@.running,
        final(sensor)@.waiting == old(sensor)@.waiting,
        final(sensor)@.id == old(sensor)@.id,
        final(sensor)@.rate_per_sec == old(sensor)@.rate_per_sec,
        final(likewise)@ == final(sensor)@,
{
}

/// While a sensor runs, a reading that is made waits behind all others, of which the oldest is
/// given up once there are as many as the ring can hold; once it was stopped, none comes in and
/// the thread is told to end.
pub proof fn law_readings_come_in_while_running<R: Copy>(
    sensor: &mut SimulatedSensor<R>,
    producer: &mut Producer<R>,
    reading: R,
    go_on: bool,
)
    requires
        call_ensures(SimulatedSensor::<R>::produce, (sensor, producer, reading), go_on),
        old(sensor).wf(),
    ensures
        go_on <==> old(sensor)@.running,
        final(sensor)@.running == old(sensor)@.running,
        final(sensor)@.started == old(sensor)@.started,
        final(sensor)@.id == old(sensor)@.id,
        final(sensor)@.rate_per_sec == old(sensor)@.rate_per_sec,
        final(producer).rate() == old(producer).rate(),
        !go_on ==> final(sensor)@.waiting == old(sensor)@.waiting,
        go_on && old(sensor)@.waiting.len() < 127 ==> final(sensor)@.waiting == old(
            sensor,
        )@.waiting + seq![reading],
        go_on && old(sensor)@.waiting.len() == 127 ==> final(sensor)@.waiting.len() == 127
            && seq![old(sensor)@.waiting[0]] + final(sensor)@.waiting == old(sensor)@.waiting
            + seq![reading],
{
    let before = old(sensor)@.waiting;
    let after = final(sensor)@.waiting;
    if go_on && before.len() < 127 {
        assert(after =~= before + seq![reading]);
    } else if go_on && before.len() == 127 {
        assert(seq![before[0]] + after =~= before + seq![reading]);
    }
}

/// A read takes the reading that has waited longest, and leaves the others.
pub proof fn law_a_sensor_is_read_in_order<R: Copy>(
    sensor: &mut SimulatedSensor<R>,
    reading: Option<R>,
)
    requires
        call_ensures(SimulatedSensor::<R>::read, (sensor,), reading),
        old(sensor).wf(),
    ensures
        reading is None <==> old(sensor)@.waiting.len() == 0,
        reading is None ==> final(sensor)@ == old(sensor)@,
        reading matches Some(r) ==> seq![r] + final(sensor)@.waiting == old(sensor)@.waiting,
        final(sensor)@.running == old(sensor)@.running,
        final(sensor)@.started == old(sensor)@.started,
        final(sensor)@.id == old(sensor)@.id,
        final(sensor)@.rate_per_sec == old(sensor)@.rate_per_sec,
{
    if reading is Some {
        assert(seq![reading->Some_0] + final(sensor)@.waiting =~= old(sensor)@.waiting);
    }
}

/// A stop ends the running, tells whether there is a thread to wait for, and leaves all else;
/// once that thread has ended, the sensor can be started again.
pub proof fn law_a_stop_ends_the_running<R: Copy>(
    sensor: &mut SimulatedSensor<R>,
    joined: &mut SimulatedSensor<R>,
    producer: Producer<R>,
    must_join: bool,
)
    requires
        call_ensures(SimulatedSensor::<R>::stop, (sensor,), must_join),
        call_ensures(SimulatedSensor::<R>::rejoin, (joined, producer), ()),
        old(sensor).wf(),
        old(joined).wf(),
    ensures
        must_join <==> old(sensor)@.started,
        !final(sensor)@.running,
        final(sensor)@.started == old(sensor)@.started,
        final(sensor)@.waiting == old(sensor)@.waiting,
        final(sensor)@.id == old(sensor)@.id,
        final(sensor)@.rate_per_sec == old(sensor)@.rate_per_sec,
        !final(joined)@.started,
        final(joined)@.running == old(joined)@.running,
        final(joined)@.waiting == old(joined)@.waiting,
        final(joined)@.id == old(joined)@.id,
        final(joined)@.rate_per_sec == old(joined)@.rate_per_sec,
{
}

/// A new sensor holds nothing, is to run and was not started; only the lack of a ring refuses it.
pub proof fn law_a_new_sensor_waits_to_be_started<R: Copy>(
    id: String,
    rate_per_sec: u32,
    made: Result<RWRoundQueue<R>, QueueError>,
    r: Result<SimulatedSensor<R>, QueueError>,
)
    requires
        call_ensures(SimulatedSensor::<R>::with_queue, (id, rate_per_sec, made), r),
    ensures
        r is Ok <==> made is Ok,
        made matches Err(e) ==> r->Err_0 == e,
        r matches Ok(s) ==> s@.id == id@ && s@.rate_per_sec == rate_per_sec && s@.waiting.len() == 0
            && s@.running && !s@.started,
{
}

/// What a sensor tells of itself.
pub proof fn law_a_sensor_tells_its_state<R: Copy>(
    sensor: &SimulatedSensor<R>,
    n: usize,
    id: String,
    running: bool,
    producer: &Producer<R>,
    pause: u64,
)
    requires
        sensor.wf(),
        producer.rate() > 0,
        call_ensures(SimulatedSensor::<R>::available, (sensor,), n),
        call_ensures(SimulatedSensor::<R>::id, (sensor,), id),
        call_ensures(SimulatedSensor::<R>::is_running, (sensor,), running),
        call_ensures(Producer::<R>::pause_ms, (producer,), pause),
    ensures
        n == sensor@.waiting.len(),
        n <= 127,
        id@ == sensor@.id,
        running == sensor@.running,
        pause * producer.rate() <= 1000 < (pause + 1) * producer.rate(),
{
    let rate = producer.rate() as int;
    vstd::arithmetic::div_mod::lemma_fundamental_div_mod(1000, rate);
    let q = 1000int / rate;
    assert(q * rate <= 1000 < (q + 1) * rate) by (nonlinear_arith)
        requires
            1000 == rate * q + (1000int % rate),
            0 <= 1000int % rate < rate,
    ;
}

} // verus!
