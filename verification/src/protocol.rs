//! The command handler that owns a store and answers queries about it.

use vstd::prelude::*;
use crate::temperature::Temperature;
use crate::store::{
    after_pushes, keep_last, lemma_pushes_keep_the_last, stats_describe, EmbeddedTemperatureReading,
    EmbeddedTemperatureStore, TemperatureStats,
};

verus! {

/// The number of readings that the monitor's store holds.
pub const READING_BUFFER_SIZE: usize = 64;

/// The nominal number of samples per second.
pub const SAMPLE_RATE_HZ: u32 = 10;

/// A query to the handler.
#[derive(Clone, Copy, Debug, PartialEq, Eq, Structural)]
pub enum EmbeddedCommand {
    GetStatus,
    GetStats,
    GetLatestReading,
    GetReadingCount,
}

/// The handler's answer to a query.
#[derive(Clone, Copy, Debug, PartialEq, Eq, Structural)]
pub enum EmbeddedResponse {
    Status { uptime_seconds: u32, reading_count: u32, sample_rate: u32, buffer_usage: u8 },
    Stats(TemperatureStats),
    Reading(EmbeddedTemperatureReading),
    ReadingCount(usize),
    /// The store holds no reading to answer from.
    NoData,
}

/// What a handler is, to its callers.
pub ghost struct HandlerState {
    /// The time at which the device started.
    pub boot_timestamp: u32,
    /// How many readings were accepted since the last start.
    pub total_reading_count: u32,
    /// The stored readings, oldest first.
    pub readings: Seq<EmbeddedTemperatureReading>,
}

/// The state of a handler that was started at `boot_timestamp`.
pub open spec fn started_at(boot_timestamp: u32) -> HandlerState {
    HandlerState {
        boot_timestamp,
        total_reading_count: 0,
        readings: Seq::<EmbeddedTemperatureReading>::empty(),
    }
}

/// Whether a handler in `state` accepts one more reading: its counter of
/// accepted readings must not be at its limit.
pub open spec fn accepts_reading(state: HandlerState) -> bool {
    state.total_reading_count < u32::MAX
}

/// The state after a handler of the given capacity accepted `reading`.
pub open spec fn with_reading(
    state: HandlerState,
    reading: EmbeddedTemperatureReading,
    capacity: nat,
) -> HandlerState {
    HandlerState {
        boot_timestamp: state.boot_timestamp,
        total_reading_count: (state.total_reading_count + 1) as u32,
        readings: keep_last(state.readings.push(reading), capacity),
    }
}

/// The seconds from `boot_timestamp` to `timestamp`; zero where `timestamp`
/// lies before `boot_timestamp`.
pub open spec fn uptime(boot_timestamp: u32, timestamp: u32) -> u32 {
    if timestamp >= boot_timestamp {
        (timestamp - boot_timestamp) as u32
    } else {
        0
    }
}

/// The share of `capacity` that `len` readings fill, in percent, rounded to
/// the nearest whole number, halves upwards; zero for a store without room.
pub open spec fn usage_percent(len: nat, capacity: nat) -> nat {
    if capacity == 0 {
        0
    } else {
        (200 * len + capacity) / (2 * capacity)
    }
}

/// Whether `response` is the answer that a handler in `state`, with a store
/// of the given capacity, owes to `command` at time `timestamp`.
pub open spec fn answers(
    state: HandlerState,
    capacity: nat,
    command: EmbeddedCommand,
    timestamp: u32,
    response: EmbeddedResponse,
) -> bool {
    match command {
        EmbeddedCommand::GetStatus => response == (EmbeddedResponse::Status {
            uptime_seconds: uptime(state.boot_timestamp, timestamp),
            reading_count: state.total_reading_count,
            sample_rate: SAMPLE_RATE_HZ,
            buffer_usage: usage_percent(state.readings.len(), capacity) as u8,
        }),
        EmbeddedCommand::GetStats => if state.readings.len() == 0 {
            response == EmbeddedResponse::NoData
        } else {
            response matches EmbeddedResponse::Stats(stats) && stats_describe(
                stats,
                state.readings,
            )
        },
        EmbeddedCommand::GetLatestReading => if state.readings.len() == 0 {
            response == EmbeddedResponse::NoData
        } else {
            response == EmbeddedResponse::Reading(state.readings.last())
        },
        EmbeddedCommand::GetReadingCount => response == EmbeddedResponse::ReadingCount(
            state.readings.len() as usize,
        ),
    }
}

/// The state after a handler of the given capacity accepted each entry of
/// `readings` in turn.
pub open spec fn after_readings(
    state: HandlerState,
    readings: Seq<EmbeddedTemperatureReading>,
    capacity: nat,
) -> HandlerState
    decreases readings.len(),
{
    if readings.len() == 0 {
        state
    } else {
        with_reading(
            after_readings(state, readings.drop_last(), capacity),
            readings.last(),
            capacity,
        )
    }
}

/// Accepting readings counts each of them, keeps the start time, and leaves
/// in the store what pushing them onto it leaves.
pub proof fn lemma_after_readings(
    state: HandlerState,
    readings: Seq<EmbeddedTemperatureReading>,
    capacity: nat,
)
    requires
        state.total_reading_count + readings.len() <= u32::MAX,
    ensures
        after_readings(state, readings, capacity).boot_timestamp == state.boot_timestamp,
        after_readings(state, readings, capacity).total_reading_count == state.total_reading_count
            + readings.len(),
        after_readings(state, readings, capacity).readings == after_pushes(
            state.readings,
            readings,
            capacity,
        ),
    decreases readings.len(),
{
    if readings.len() > 0 {
        lemma_after_readings(state, readings.drop_last(), capacity);
    }
}

/// Lifetime-counter law: after a started handler accepted `readings`, its
/// counter equals their number, however many of them the store has dropped.
pub proof fn law_counter_counts_every_reading(
    boot_timestamp: u32,
    readings: Seq<EmbeddedTemperatureReading>,
    capacity: nat,
)
    requires
        readings.len() <= u32::MAX,
    ensures
        after_readings(started_at(boot_timestamp), readings, capacity).total_reading_count
            == readings.len(),
{
    lemma_after_readings(started_at(boot_timestamp), readings, capacity);
}

/// Occupancy law: once a started handler accepted at least as many readings
/// as its store holds, the reading count it reports is the capacity, while
/// the status it reports counts every reading accepted.
pub proof fn law_occupancy_differs_from_lifetime(
    boot_timestamp: u32,
    readings: Seq<EmbeddedTemperatureReading>,
    capacity: nat,
    timestamp: u32,
    count: EmbeddedResponse,
    status: EmbeddedResponse,
)
    requires
        capacity <= readings.len() <= u32::MAX,
        answers(
            after_readings(started_at(boot_timestamp), readings, capacity),
            capacity,
            EmbeddedCommand::GetReadingCount,
            timestamp,
            count,
        ),
        answers(
            after_readings(started_at(boot_timestamp), readings, capacity),
            capacity,
            EmbeddedCommand::GetStatus,
            timestamp,
            status,
        ),
    ensures
        count == EmbeddedResponse::ReadingCount(capacity as usize),
        status is Status,
        status->reading_count == readings.len(),
{
    lemma_after_readings(started_at(boot_timestamp), readings, capacity);
    lemma_pushes_keep_the_last(Seq::<EmbeddedTemperatureReading>::empty(), readings, capacity);
    assert(Seq::<EmbeddedTemperatureReading>::empty() + readings =~= readings);
}

/// Empty-store law: a handler that was just started answers a query for
/// statistics, and one for the latest reading, with `NoData`.
pub proof fn law_started_handler_has_no_data(
    boot_timestamp: u32,
    capacity: nat,
    command: EmbeddedCommand,
    timestamp: u32,
    response: EmbeddedResponse,
)
    requires
        command == EmbeddedCommand::GetStats || command == EmbeddedCommand::GetLatestReading,
        answers(started_at(boot_timestamp), capacity, command, timestamp, response),
    ensures
        response == EmbeddedResponse::NoData,
{
}

/// Latest-reading law: a handler whose store has room for a reading answers
/// a query for the latest reading with the one it accepted last.
pub proof fn law_latest_reading_is_the_last_accepted(
    state: HandlerState,
    readings: Seq<EmbeddedTemperatureReading>,
    capacity: nat,
    timestamp: u32,
    response: EmbeddedResponse,
)
    requires
        state.readings.len() <= capacity,
        state.total_reading_count + readings.len() <= u32::MAX,
        capacity > 0,
        readings.len() > 0,
        answers(
            after_readings(state, readings, capacity),
            capacity,
            EmbeddedCommand::GetLatestReading,
            timestamp,
            response,
        ),
    ensures
        response == EmbeddedResponse::Reading(readings.last()),
{
    lemma_after_readings(state, readings, capacity);
    lemma_pushes_keep_the_last(state.readings, readings, capacity);
}

proof fn lemma_usage_is_a_percentage(len: nat, capacity: nat)
    by (nonlinear_arith)
    requires
        len <= capacity,
        capacity > 0,
    ensures
        0 <= (200 * len + capacity) / (2 * capacity) <= 100,
{
}

/// The share of `capacity` that `len` readings fill, in percent.
fn buffer_usage(len: usize, capacity: usize) -> (percent: u8)
    requires
        len <= capacity,
    ensures
        percent == usage_percent(len as nat, capacity as nat),
{
    if capacity == 0 {
        0
    } else {
        proof {
            lemma_usage_is_a_percentage(len as nat, capacity as nat);
        }
        let doubled: u128 = 200 * (len as u128) + capacity as u128;
        let percent: u128 = doubled / (2 * (capacity as u128));
        percent as u8
    }
}

/// Owns one store and answers commands about it.
pub struct EmbeddedProtocolHandler<const N: usize> {
    store: EmbeddedTemperatureStore<N>,
    boot_timestamp: u32,
    total_reading_count: u32,
}

impl<const N: usize> View for EmbeddedProtocolHandler<N> {
    type V = HandlerState;

    closed spec fn view(&self) -> HandlerState {
        HandlerState {
            boot_timestamp: self.boot_timestamp,
            total_reading_count: self.total_reading_count,
            readings: self.store@,
        }
    }
}

impl<const N: usize> EmbeddedProtocolHandler<N> {
    /// A handler with an empty store, as if started at time zero.
    pub fn new() -> (handler: Self)
        ensures
            handler@ == started_at(0),
    {
        EmbeddedProtocolHandler {
            store: EmbeddedTemperatureStore::new(),
            boot_timestamp: 0,
            total_reading_count: 0,
        }
    }

    /// Starts the handler anew at `boot_timestamp`: the store is emptied and
    /// the counter of accepted readings is zero again, whatever went before.
    pub fn init(&mut self, boot_timestamp: u32)
        ensures
            final(self)@ == started_at(boot_timestamp),
    {
        self.store.clear();
        self.boot_timestamp = boot_timestamp;
        self.total_reading_count = 0;
    }

    /// Stores a reading and counts it. Fails, and changes nothing, only where
    /// the counter of accepted readings is at its limit.
    pub fn add_reading(&mut self, temperature: Temperature, timestamp: u32) -> (r: Result<
        (),
        &'static str,
    >)
        ensures
            r is Ok <==> accepts_reading(old(self)@),
            r is Ok ==> final(self)@ == with_reading(
                old(self)@,
                EmbeddedTemperatureReading { temperature, timestamp },
                N as nat,
            ),
            r matches Err(reason) ==> final(self)@ == old(self)@ && reason@
                == "reading counter exhausted"@,
    {
        if self.total_reading_count == u32::MAX {
            return Err("reading counter exhausted");
        }
        self.store.push(EmbeddedTemperatureReading::new(temperature, timestamp));
        self.total_reading_count = self.total_reading_count + 1;
        Ok(())
    }

    /// Answers `command` as of `timestamp`. No command changes the handler.
    pub fn process_command(&mut self, command: EmbeddedCommand, timestamp: u32) -> (response:
        EmbeddedResponse)
        ensures
            final(self)@ == old(self)@,
            answers(old(self)@, N as nat, command, timestamp, response),
    {
        match command {
            EmbeddedCommand::GetStatus => {
                let uptime_seconds: u32 = if timestamp >= self.boot_timestamp {
                    timestamp - self.boot_timestamp
                } else {
                    0
                };
                EmbeddedResponse::Status {
                    uptime_seconds,
                    reading_count: self.total_reading_count,
                    sample_rate: SAMPLE_RATE_HZ,
                    buffer_usage: buffer_usage(self.store.len(), self.store.capacity()),
                }
            },
            EmbeddedCommand::GetStats => match self.store.statistics() {
                Some(stats) => EmbeddedResponse::Stats(stats),
                None => EmbeddedResponse::NoData,
            },
            EmbeddedCommand::GetLatestReading => match self.store.latest() {
                Some(reading) => EmbeddedResponse::Reading(reading),
                None => EmbeddedResponse::NoData,
            },
            EmbeddedCommand::GetReadingCount => EmbeddedResponse::ReadingCount(self.store.len()),
        }
    }
}

} // verus!
