use solutions::monitor::ESP32TemperatureMonitor;
use solutions::protocol::{
    EmbeddedCommand, EmbeddedProtocolHandler, EmbeddedResponse, READING_BUFFER_SIZE,
    SAMPLE_RATE_HZ,
};
use solutions::store::{EmbeddedTemperatureReading, EmbeddedTemperatureStore, TemperatureStats};
use solutions::temperature::Temperature;

fn millis(celsius: f32) -> i32 {
    (celsius * 1000.0).round() as i32
}

fn reading(celsius: f32, timestamp: u32) -> EmbeddedTemperatureReading {
    EmbeddedTemperatureReading::new(Temperature::new(millis(celsius)), timestamp)
}

#[test]
fn test_esp32_monitor_creation() {
    let monitor = ESP32TemperatureMonitor::new();

    // Test that the monitor is properly initialized
    assert_eq!(monitor.store().len(), 0);
    assert_eq!(monitor.store().capacity(), READING_BUFFER_SIZE);
}

#[test]
fn test_temperature_reading() {
    let mut monitor = ESP32TemperatureMonitor::new();

    // Add a temperature reading
    let result = monitor.add_temperature_reading(Temperature::new(millis(25.5)), 1);
    assert!(result.is_ok());

    // Check status includes the reading
    let status = monitor.get_status(2);
    if let EmbeddedResponse::Status { reading_count, .. } = status {
        assert_eq!(reading_count, 1);
    } else {
        panic!("Expected status response");
    }
}

#[test]
fn test_statistics() {
    let mut monitor = ESP32TemperatureMonitor::new();

    // Add multiple readings
    monitor.add_temperature_reading(Temperature::new(millis(20.0)), 1).unwrap();
    monitor.add_temperature_reading(Temperature::new(millis(25.0)), 2).unwrap();
    monitor.add_temperature_reading(Temperature::new(millis(30.0)), 3).unwrap();

    // Get statistics
    let stats = monitor.get_statistics(4);
    if let EmbeddedResponse::Stats(stats) = stats {
        assert_eq!(stats.min.millicelsius, millis(20.0));
        assert_eq!(stats.max.millicelsius, millis(30.0));
        assert_eq!(stats.average.millicelsius, millis(25.0));
        assert_eq!(stats.count, 3);
    } else {
        panic!("Expected stats response");
    }
}

#[test]
fn test_sensor_conversion_values() {
    assert_eq!(Temperature::from_embedded_sensor(0).millicelsius, 0);
    assert_eq!(Temperature::from_embedded_sensor(4095).millicelsius, 330_000);
    // 310 * 3300 mV / 4095 = 249.81 mV, at 10 mV per degree
    assert_eq!(Temperature::from_embedded_sensor(310).millicelsius, 24_981);
    assert_eq!(Temperature::from_embedded_sensor(1).millicelsius, 80);
    assert_eq!(Temperature::from_embedded_sensor(u16::MAX).millicelsius, 5_281_208);
}

#[test]
fn test_sensor_codes_of_room_temperatures() {
    // Codes between 20 and 30 degrees map back into that range.
    for adc in 249u16..=372 {
        let t = Temperature::from_embedded_sensor(adc);
        assert!(t.millicelsius >= 18_000 && t.millicelsius <= 32_000);
    }
}

#[test]
fn test_store_starts_empty() {
    let store: EmbeddedTemperatureStore<4> = EmbeddedTemperatureStore::new();
    assert_eq!(store.len(), 0);
    assert_eq!(store.capacity(), 4);
    assert!(store.is_empty());
    assert!(!store.is_full());
    assert_eq!(store.latest(), None);
    assert_eq!(store.statistics(), None);
}

#[test]
fn test_store_capacity_invariant() {
    let mut store: EmbeddedTemperatureStore<4> = EmbeddedTemperatureStore::new();
    for i in 0..11u32 {
        store.push(reading(i as f32, 100 + i));
        assert!(store.len() <= store.capacity());
        assert_eq!(store.latest(), Some(reading(i as f32, 100 + i)));
    }
    assert_eq!(store.len(), 4);
    assert!(store.is_full());
    // The last four pushes remain: 7, 8, 9, 10 degrees.
    let stats = store.statistics().unwrap();
    assert_eq!(
        stats,
        TemperatureStats {
            min: Temperature::new(7_000),
            max: Temperature::new(10_000),
            average: Temperature::new(8_500),
            count: 4,
        }
    );
}

#[test]
fn test_store_statistics_round_down() {
    let mut store: EmbeddedTemperatureStore<8> = EmbeddedTemperatureStore::new();
    store.push(EmbeddedTemperatureReading::new(Temperature::new(1), 0));
    store.push(EmbeddedTemperatureReading::new(Temperature::new(2), 1));
    let stats = store.statistics().unwrap();
    assert_eq!(stats.average.millicelsius, 1);

    let mut cold: EmbeddedTemperatureStore<8> = EmbeddedTemperatureStore::new();
    cold.push(EmbeddedTemperatureReading::new(Temperature::new(-1), 0));
    cold.push(EmbeddedTemperatureReading::new(Temperature::new(-2), 1));
    let stats = cold.statistics().unwrap();
    assert_eq!(stats.min.millicelsius, -2);
    assert_eq!(stats.max.millicelsius, -1);
    assert_eq!(stats.average.millicelsius, -2);
    assert_eq!(stats.count, 2);
}

#[test]
fn test_store_statistics_extremes() {
    let mut store: EmbeddedTemperatureStore<3> = EmbeddedTemperatureStore::new();
    store.push(EmbeddedTemperatureReading::new(Temperature::new(i32::MAX), 0));
    store.push(EmbeddedTemperatureReading::new(Temperature::new(i32::MAX), 1));
    store.push(EmbeddedTemperatureReading::new(Temperature::new(i32::MIN), 2));
    let stats = store.statistics().unwrap();
    assert_eq!(stats.min.millicelsius, i32::MIN);
    assert_eq!(stats.max.millicelsius, i32::MAX);
    assert_eq!(stats.average.millicelsius, 715_827_882);
}

#[test]
fn test_store_single_zero_reading_is_not_empty() {
    let mut store: EmbeddedTemperatureStore<2> = EmbeddedTemperatureStore::new();
    store.push(EmbeddedTemperatureReading::new(Temperature::new(0), 0));
    let stats = store.statistics().unwrap();
    assert_eq!(stats.count, 1);
    assert_eq!(stats.average.millicelsius, 0);
}

#[test]
fn test_store_clear() {
    let mut store: EmbeddedTemperatureStore<2> = EmbeddedTemperatureStore::new();
    store.push(reading(1.0, 1));
    store.push(reading(2.0, 2));
    store.push(reading(3.0, 3));
    store.clear();
    assert!(store.is_empty());
    assert_eq!(store.latest(), None);
    store.push(reading(4.0, 4));
    assert_eq!(store.len(), 1);
    assert_eq!(store.latest(), Some(reading(4.0, 4)));
}

#[test]
fn test_store_without_room() {
    let mut store: EmbeddedTemperatureStore<0> = EmbeddedTemperatureStore::new();
    store.push(reading(1.0, 1));
    assert_eq!(store.len(), 0);
    assert_eq!(store.latest(), None);
    assert_eq!(store.statistics(), None);
}

#[test]
fn test_handler_lifetime_counter() {
    let mut handler: EmbeddedProtocolHandler<4> = EmbeddedProtocolHandler::new();
    handler.init(1000);
    for i in 0..9u32 {
        assert!(handler.add_reading(Temperature::new(20_000 + i as i32), 1000 + i).is_ok());
    }
    match handler.process_command(EmbeddedCommand::GetStatus, 1060) {
        EmbeddedResponse::Status { uptime_seconds, reading_count, sample_rate, buffer_usage } => {
            assert_eq!(uptime_seconds, 60);
            assert_eq!(reading_count, 9);
            assert_eq!(sample_rate, SAMPLE_RATE_HZ);
            assert_eq!(buffer_usage, 100);
        }
        other => panic!("expected a status, got {:?}", other),
    }
}

#[test]
fn test_handler_statistics_of_three_readings() {
    let mut handler: EmbeddedProtocolHandler<8> = EmbeddedProtocolHandler::new();
    handler.init(0);
    handler.add_reading(Temperature::new(millis(20.0)), 1).unwrap();
    handler.add_reading(Temperature::new(millis(25.0)), 2).unwrap();
    handler.add_reading(Temperature::new(millis(30.0)), 3).unwrap();
    assert_eq!(
        handler.process_command(EmbeddedCommand::GetStats, 4),
        EmbeddedResponse::Stats(TemperatureStats {
            min: Temperature::new(20_000),
            max: Temperature::new(30_000),
            average: Temperature::new(25_000),
            count: 3,
        })
    );
}

#[test]
fn test_handler_empty_store_sentinel() {
    let mut fresh: EmbeddedProtocolHandler<8> = EmbeddedProtocolHandler::new();
    assert_eq!(fresh.process_command(EmbeddedCommand::GetStats, 5), EmbeddedResponse::NoData);
    assert_eq!(
        fresh.process_command(EmbeddedCommand::GetLatestReading, 5),
        EmbeddedResponse::NoData
    );
    fresh.init(3);
    assert_eq!(fresh.process_command(EmbeddedCommand::GetStats, 5), EmbeddedResponse::NoData);
    assert_eq!(
        fresh.process_command(EmbeddedCommand::GetLatestReading, 5),
        EmbeddedResponse::NoData
    );
    assert_eq!(
        fresh.process_command(EmbeddedCommand::GetReadingCount, 5),
        EmbeddedResponse::ReadingCount(0)
    );
}

#[test]
fn test_handler_occupancy_and_lifetime_differ() {
    let mut handler: EmbeddedProtocolHandler<READING_BUFFER_SIZE> = EmbeddedProtocolHandler::new();
    handler.init(0);
    let pushes = READING_BUFFER_SIZE as u32 + 5;
    for i in 0..pushes {
        handler.add_reading(Temperature::new(i as i32), i).unwrap();
    }
    assert_eq!(
        handler.process_command(EmbeddedCommand::GetReadingCount, pushes),
        EmbeddedResponse::ReadingCount(READING_BUFFER_SIZE)
    );
    match handler.process_command(EmbeddedCommand::GetStatus, pushes) {
        EmbeddedResponse::Status { reading_count, .. } => assert_eq!(reading_count, pushes),
        other => panic!("expected a status, got {:?}", other),
    }
}

#[test]
fn test_handler_init_resets() {
    let mut handler: EmbeddedProtocolHandler<4> = EmbeddedProtocolHandler::new();
    handler.init(10);
    handler.add_reading(Temperature::new(1), 11).unwrap();
    handler.add_reading(Temperature::new(2), 12).unwrap();
    handler.init(20);
    assert_eq!(
        handler.process_command(EmbeddedCommand::GetStatus, 25),
        EmbeddedResponse::Status {
            uptime_seconds: 5,
            reading_count: 0,
            sample_rate: SAMPLE_RATE_HZ,
            buffer_usage: 0,
        }
    );
    assert_eq!(
        handler.process_command(EmbeddedCommand::GetReadingCount, 25),
        EmbeddedResponse::ReadingCount(0)
    );
    assert_eq!(handler.process_command(EmbeddedCommand::GetStats, 25), EmbeddedResponse::NoData);
}

#[test]
fn test_handler_latest_after_wraparound() {
    let mut handler: EmbeddedProtocolHandler<4> = EmbeddedProtocolHandler::new();
    handler.init(0);
    for i in 0..5u32 {
        handler.add_reading(Temperature::new(100 * i as i32), 50 + i).unwrap();
    }
    assert_eq!(
        handler.process_command(EmbeddedCommand::GetLatestReading, 60),
        EmbeddedResponse::Reading(EmbeddedTemperatureReading::new(Temperature::new(400), 54))
    );
}

#[test]
fn test_handler_buffer_usage_rounds_to_nearest() {
    let mut handler: EmbeddedProtocolHandler<8> = EmbeddedProtocolHandler::new();
    handler.init(0);
    let mut seen = Vec::new();
    for i in 0..8u32 {
        handler.add_reading(Temperature::new(0), i).unwrap();
        if let EmbeddedResponse::Status { buffer_usage, .. } =
            handler.process_command(EmbeddedCommand::GetStatus, i)
        {
            seen.push(buffer_usage);
        }
    }
    // 12.5 -> 13, 25, 37.5 -> 38, 50, 62.5 -> 63, 75, 87.5 -> 88, 100
    assert_eq!(seen, vec![13, 25, 38, 50, 63, 75, 88, 100]);
}

#[test]
fn test_handler_uptime_before_boot_is_zero() {
    let mut handler: EmbeddedProtocolHandler<2> = EmbeddedProtocolHandler::new();
    handler.init(100);
    match handler.process_command(EmbeddedCommand::GetStatus, 40) {
        EmbeddedResponse::Status { uptime_seconds, .. } => assert_eq!(uptime_seconds, 0),
        other => panic!("expected a status, got {:?}", other),
    }
}

#[test]
fn test_commands_leave_the_handler_unchanged() {
    let mut handler: EmbeddedProtocolHandler<3> = EmbeddedProtocolHandler::new();
    handler.init(0);
    handler.add_reading(Temperature::new(5), 1).unwrap();
    let before = handler.process_command(EmbeddedCommand::GetLatestReading, 2);
    handler.process_command(EmbeddedCommand::GetStatus, 2);
    handler.process_command(EmbeddedCommand::GetStats, 2);
    handler.process_command(EmbeddedCommand::GetReadingCount, 2);
    assert_eq!(handler.process_command(EmbeddedCommand::GetLatestReading, 2), before);
    assert_eq!(
        handler.process_command(EmbeddedCommand::GetReadingCount, 2),
        EmbeddedResponse::ReadingCount(1)
    );
}
