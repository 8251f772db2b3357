use crabble::decimal::decimal_string;
use crabble::error::BrokerError;

#[test]
fn channel_already_exists_message() {
    let error = BrokerError::ChannelAlreadyExists("general".to_string());
    assert_eq!(error.to_string(), "Channel 'general' already exists");
}

#[test]
fn channel_not_found_message() {
    let error = BrokerError::ChannelNotFound("general".to_string());
    assert_eq!(error.to_string(), "Channel 'general' not found");
}

#[test]
fn subscriber_not_found_message() {
    let error = BrokerError::SubscriberNotFound(42, "general".to_string());
    assert_eq!(
        error.to_string(),
        "Subscriber '42' not found in channel 'general'"
    );
}

#[test]
fn messages_quote_odd_names_as_they_are() {
    assert_eq!(
        BrokerError::ChannelNotFound(String::new()).to_string(),
        "Channel '' not found"
    );
    assert_eq!(
        BrokerError::ChannelAlreadyExists("a'b c".to_string()).to_string(),
        "Channel 'a'b c' already exists"
    );
    assert_eq!(
        BrokerError::SubscriberNotFound(0, "日本".to_string()).to_string(),
        "Subscriber '0' not found in channel '日本'"
    );
    assert_eq!(
        BrokerError::SubscriberNotFound(u64::MAX, "x".to_string()).to_string(),
        "Subscriber '18446744073709551615' not found in channel 'x'"
    );
}

#[test]
fn decimal_of_single_digits() {
    let digits = ["0", "1", "2", "3", "4", "5", "6", "7", "8", "9"];
    for (value, text) in digits.iter().enumerate() {
        assert_eq!(decimal_string(value as u64), *text);
    }
}

#[test]
fn decimal_of_larger_numbers() {
    assert_eq!(decimal_string(10), "10");
    assert_eq!(decimal_string(99), "99");
    assert_eq!(decimal_string(100), "100");
    assert_eq!(decimal_string(1234567890), "1234567890");
    assert_eq!(decimal_string(9_007_199_254_740_993), "9007199254740993");
    assert_eq!(decimal_string(u64::MAX), "18446744073709551615");
}

#[test]
fn decimal_agrees_with_the_standard_library() {
    let mut value: u64 = 1;
    for _ in 0..64 {
        assert_eq!(decimal_string(value), format!("{}", value));
        assert_eq!(decimal_string(value - 1), format!("{}", value - 1));
        value = value.wrapping_mul(2);
        if value == 0 {
            break;
        }
    }
}

#[test]
fn errors_compare_by_variant_and_fields() {
    assert_eq!(
        BrokerError::ChannelNotFound("a".to_string()),
        BrokerError::ChannelNotFound("a".to_string())
    );
    assert_ne!(
        BrokerError::ChannelNotFound("a".to_string()),
        BrokerError::ChannelAlreadyExists("a".to_string())
    );
    assert_ne!(
        BrokerError::SubscriberNotFound(1, "a".to_string()),
        BrokerError::SubscriberNotFound(2, "a".to_string())
    );
}
