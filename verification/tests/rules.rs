use ticketing_api::config::{parse_i64, parse_u32, parse_u64, parse_usize, Config, ConfigVars};
use ticketing_api::error::{AppError, DbError};
use ticketing_api::labels::seat_label;
use ticketing_api::repo::{seat_labels, validate_seat_count, Availability, BookingStatus, CreatedEvent, ReservedSeat};
use ticketing_api::routes::{reserve_seat, create_event, get_event, health, readiness};

fn no_vars() -> ConfigVars {
    ConfigVars {
        database_url: None,
        bind_addr: None,
        request_timeout_secs: None,
        max_in_flight: None,
        pool_max_connections: None,
        pool_acquire_timeout_secs: None,
        statement_timeout_ms: None,
        hold_ttl_secs: None,
        sweep_interval_secs: None,
    }
}

#[test]
fn errors_are_answered_with_status_and_message() {
    let cases = [
        (AppError::SoldOut, 409, "no seats available", None),
        (AppError::NotFound("event not found"), 404, "event not found", None),
        (AppError::Conflict("hold has expired"), 409, "hold has expired", None),
        (AppError::Invalid("seat_count must be greater than zero"), 400, "seat_count must be greater than zero", None),
        (AppError::Db(DbError::PoolTimedOut), 503, "database busy, retry shortly", Some(1)),
        (AppError::Db(DbError::UniqueViolation), 500, "internal error", None),
        (AppError::Db(DbError::Other), 500, "internal error", None),
    ];
    for (err, status, message, retry_after) in cases {
        let reply = err.reply();
        assert_eq!(reply.status, status);
        assert_eq!(reply.message, message);
        assert_eq!(reply.retry_after, retry_after);
    }
}

#[test]
fn seat_counts_outside_the_range_are_refused() {
    assert!(matches!(validate_seat_count(0), Err(AppError::Invalid("seat_count must be greater than zero"))));
    assert!(matches!(validate_seat_count(-5), Err(AppError::Invalid("seat_count must be greater than zero"))));
    assert!(matches!(validate_seat_count(100_001), Err(AppError::Invalid("seat_count must be 100000 or fewer"))));
    assert!(validate_seat_count(1).is_ok());
    assert!(validate_seat_count(100_000).is_ok());
}

#[test]
fn seat_labels_are_padded_to_four_digits() {
    assert_eq!(seat_label(1), "S0001");
    assert_eq!(seat_label(42), "S0042");
    assert_eq!(seat_label(999), "S0999");
    assert_eq!(seat_label(9999), "S9999");
    assert_eq!(seat_label(10000), "S10000");
    assert_eq!(seat_label(20000), "S20000");
    assert_eq!(seat_label(0), "S0000");
}

#[test]
fn seat_labels_stay_unique_past_9999() {
    let labels = seat_labels(20_000);
    assert_eq!(labels.len(), 20_000);
    assert_eq!(labels[0], "S0001");
    assert_eq!(labels[19_999], "S20000");
    let distinct: std::collections::HashSet<&String> = labels.iter().collect();
    assert_eq!(distinct.len(), 20_000);
}

#[test]
fn numbers_parse_as_std_parses_them() {
    assert_eq!(parse_u64("42"), Some(42));
    assert_eq!(parse_u64("+42"), Some(42));
    assert_eq!(parse_u64("007"), Some(7));
    assert_eq!(parse_u64(""), None);
    assert_eq!(parse_u64("+"), None);
    assert_eq!(parse_u64("-1"), None);
    assert_eq!(parse_u64("4x"), None);
    assert_eq!(parse_u64(" 4"), None);
    assert_eq!(parse_u64("18446744073709551615"), Some(u64::MAX));
    assert_eq!(parse_u64("18446744073709551616"), None);
    assert_eq!(parse_u32("4294967295"), Some(u32::MAX));
    assert_eq!(parse_u32("4294967296"), None);
    assert_eq!(parse_usize("512"), Some(512));
    assert_eq!(parse_i64("-5"), Some(-5));
    assert_eq!(parse_i64("+5"), Some(5));
    assert_eq!(parse_i64("-"), None);
    assert_eq!(parse_i64("-9223372036854775808"), Some(i64::MIN));
    assert_eq!(parse_i64("9223372036854775807"), Some(i64::MAX));
    assert_eq!(parse_i64("9223372036854775808"), None);
    assert_eq!(parse_i64("-9223372036854775809"), None);
    for s in ["0", "17", "+3", "-0", "99999999999999999999", "1_000", "١٢"] {
        assert_eq!(parse_u64(s), s.parse::<u64>().ok(), "u64 {s}");
        assert_eq!(parse_i64(s), s.parse::<i64>().ok(), "i64 {s}");
    }
}

#[test]
fn config_falls_back_to_defaults() {
    let mut vars = no_vars();
    vars.database_url = Some("postgres://localhost/tickets".to_string());
    vars.max_in_flight = Some("lots".to_string());
    let c = Config::from_env(vars);
    assert_eq!(c.database_url, "postgres://localhost/tickets");
    assert_eq!(c.bind_addr, "0.0.0.0:8080");
    assert_eq!(c.request_timeout_secs, 10);
    assert_eq!(c.max_in_flight, 512);
    assert_eq!(c.pool_max_connections, 20);
    assert_eq!(c.pool_acquire_timeout_secs, 3);
    assert_eq!(c.statement_timeout_ms, 5000);
    assert_eq!(c.hold_ttl_secs, 120);
    assert_eq!(c.sweep_interval_secs, 10);
}

#[test]
fn config_takes_the_values_that_are_set() {
    let vars = ConfigVars {
        database_url: Some("postgres://db/t".to_string()),
        bind_addr: Some("127.0.0.1:9000".to_string()),
        request_timeout_secs: Some("30".to_string()),
        max_in_flight: Some("64".to_string()),
        pool_max_connections: Some("8".to_string()),
        pool_acquire_timeout_secs: Some("+2".to_string()),
        statement_timeout_ms: Some("250".to_string()),
        hold_ttl_secs: Some("-1".to_string()),
        sweep_interval_secs: Some("1".to_string()),
    };
    let c = Config::from_env(vars);
    assert_eq!(c.bind_addr, "127.0.0.1:9000");
    assert_eq!(c.request_timeout_secs, 30);
    assert_eq!(c.max_in_flight, 64);
    assert_eq!(c.pool_max_connections, 8);
    assert_eq!(c.pool_acquire_timeout_secs, 2);
    assert_eq!(c.statement_timeout_ms, 250);
    assert_eq!(c.hold_ttl_secs, -1);
    assert_eq!(c.sweep_interval_secs, 1);
}

#[test]
fn booking_reply_spells_out_the_status() {
    let reserved = ReservedSeat {
        booking_id: 1,
        seat_id: 2,
        seat_label: "S0003".to_string(),
        status: BookingStatus::Held,
        expires_at: Some(77),
    };
    let r = reserve_seat(9, reserved);
    assert_eq!(r.booking_id, 1);
    assert_eq!(r.event_id, 9);
    assert_eq!(r.seat_id, 2);
    assert_eq!(r.seat_label, "S0003");
    assert_eq!(r.status, "held");
    assert_eq!(r.expires_at, Some(77));
    assert_eq!(BookingStatus::Booked.as_str(), "booked");
}

#[test]
fn event_replies_carry_the_counts() {
    let (status, created) = create_event(CreatedEvent { event_id: 4, name: "gala".to_string(), seat_count: 3 });
    assert_eq!(status, 201);
    assert_eq!(created.event_id, 4);
    assert_eq!(created.name, "gala");
    assert_eq!(created.seat_count, 3);

    let a = Availability { event_id: 4, total: 3, available: 1, held: 1, booked: 1 };
    let r = get_event(Some(a)).unwrap();
    assert_eq!((r.event_id, r.total_seats, r.available, r.held, r.booked), (4, 3, 1, 1, 1));
    let missing = get_event(None).unwrap_err();
    assert!(matches!(missing, AppError::NotFound("event not found")));
    assert_eq!(missing.reply().status, 404);
}

#[test]
fn health_checks_answer() {
    assert_eq!(health(), "ok");
    assert_eq!(readiness(true), 200);
    assert_eq!(readiness(false), 503);
}

#[test]
fn statuses_parse_from_their_spelling() {
    assert_eq!(BookingStatus::parse("held"), Some(BookingStatus::Held));
    assert_eq!(BookingStatus::parse("booked"), Some(BookingStatus::Booked));
    assert_eq!(BookingStatus::parse("Held"), None);
    assert_eq!(BookingStatus::parse("available"), None);
    assert_eq!(BookingStatus::parse(""), None);
}
