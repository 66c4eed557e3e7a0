//! The temperature monitor: a handler started at time zero, behind a small
//! interface that takes the current time from its caller.

use vstd::prelude::*;
use crate::temperature::Temperature;
use crate::store::{EmbeddedTemperatureReading, EmbeddedTemperatureStore};
use crate::protocol::{
    accepts_reading, answers, started_at, with_reading, EmbeddedCommand, EmbeddedProtocolHandler,
    EmbeddedResponse, HandlerState, READING_BUFFER_SIZE,
};

verus! {

pub struct ESP32TemperatureMonitor {
    store: EmbeddedTemperatureStore<READING_BUFFER_SIZE>,
    protocol_handler: EmbeddedProtocolHandler<READING_BUFFER_SIZE>,
}

impl View for ESP32TemperatureMonitor {
    type V = HandlerState;

    /// The state of the monitor's handler.
    closed spec fn view(&self) -> HandlerState {
        self.protocol_handler@
    }
}

impl ESP32TemperatureMonitor {
    /// A monitor whose handler was started at time zero.
    pub fn new() -> (monitor: Self)
        ensures
            monitor@ == started_at(0),
            monitor.spare_readings() == Seq::<EmbeddedTemperatureReading>::empty(),
    {
        let mut protocol_handler = EmbeddedProtocolHandler::new();
        protocol_handler.init(0);
        ESP32TemperatureMonitor { store: EmbeddedTemperatureStore::new(), protocol_handler }
    }

    /// What the monitor's own store holds; nothing is ever pushed onto it.
    pub closed spec fn spare_readings(&self) -> Seq<EmbeddedTemperatureReading> {
        self.store@
    }

    /// The monitor's own store, apart from the one inside its handler.
    pub fn store(&self) -> (store: &EmbeddedTemperatureStore<READING_BUFFER_SIZE>)
        ensures
            store@ == self.spare_readings(),
    {
        &self.store
    }

    /// Hands a reading taken at `timestamp` to the handler.
    pub fn add_temperature_reading(&mut self, temperature: Temperature, timestamp: u32) -> (r:
        Result<(), &'static str>)
        ensures
            r is Ok <==> accepts_reading(old(self)@),
            r is Ok ==> final(self)@ == with_reading(
                old(self)@,
                EmbeddedTemperatureReading { temperature, timestamp },
                READING_BUFFER_SIZE as nat,
            ),
            r matches Err(reason) ==> final(self)@ == old(self)@ && reason@
                == "reading counter exhausted"@,
            final(self).spare_readings() == old(self).spare_readings(),
    {
        self.protocol_handler.add_reading(temperature, timestamp)
    }

    /// The handler's status as of `timestamp`.
    pub fn get_status(&mut self, timestamp: u32) -> (response: EmbeddedResponse)
        ensures
            final(self)@ == old(self)@,
            final(self).spare_readings() == old(self).spare_readings(),
            answers(
                old(self)@,
                READING_BUFFER_SIZE as nat,
                EmbeddedCommand::GetStatus,
                timestamp,
                response,
            ),
    {
        self.protocol_handler.process_command(EmbeddedCommand::GetStatus, timestamp)
    }

    /// The statistics of the stored readings as of `timestamp`.
    pub fn get_statistics(&mut self, timestamp: u32) -> (response: EmbeddedResponse)
        ensures
            final(self)@ == old(self)@,
            final(self).spare_readings() == old(self).spare_readings(),
            answers(
                old(self)@,
                READING_BUFFER_SIZE as nat,
                EmbeddedCommand::GetStats,
                timestamp,
                response,
            ),
    {
        self.protocol_handler.process_command(EmbeddedCommand::GetStats, timestamp)
    }
}

impl Default for ESP32TemperatureMonitor {
    fn default() -> (monitor: Self)
        ensures
            monitor@ == started_at(0),
    {
        Self::new()
    }
}

} // verus!
