use esp32_sensing::mqtt::{subscription_topics, topic, Channel, MQTT_TOPIC_PREFIX};
use esp32_sensing::wifi::{check_ssid, select_channel, AccessPoint, WifiError};

#[test]
fn topic_format() {
    assert_eq!(MQTT_TOPIC_PREFIX, "i483/sensors/s2510030");
    assert_eq!(topic("DPS310", "temperature"), "i483/sensors/s2510030/DPS310/temperature");
    assert_eq!(Channel::Scd41Co2.topic(), "i483/sensors/s2510030/SCD41/co2");
    assert_eq!(
        Channel::Rpr0521InfraredIllumination.topic(),
        "i483/sensors/s2510030/RPR0521/infrared_illumination"
    );
    assert_eq!(Channel::Bh1750Illumination.sensor(), "BH1750");
    assert_eq!(Channel::Dps310AirPressure.data_type(), "air_pressure");
}

#[test]
fn receiver_topics() {
    assert_eq!(
        subscription_topics(),
        vec![
            "i483/sensors/s2510030/DPS310/temperature",
            "i483/sensors/s2510030/DPS310/air_pressure",
            "i483/sensors/s2510030/SCD41/co2",
            "i483/sensors/s2510030/SCD41/temperature",
            "i483/sensors/s2510030/SCD41/humidity",
            "i483/sensors/s2510030/BH1750/illumination",
            "i483/sensors/s2510030/RPR0521/illumination",
            "i483/sensors/s2510030/RPR0521/infrared_illumination",
        ]
    );
}

#[test]
fn every_published_topic_is_subscribed() {
    let subs = subscription_topics();
    for c in [
        Channel::Dps310Temperature,
        Channel::Dps310AirPressure,
        Channel::Scd41Co2,
        Channel::Scd41Temperature,
        Channel::Scd41Humidity,
        Channel::Bh1750Illumination,
        Channel::Rpr0521Illumination,
        Channel::Rpr0521InfraredIllumination,
    ] {
        assert_eq!(subs.iter().filter(|t| **t == c.topic()).count(), 1);
    }
}

#[test]
fn ssid_must_not_be_empty() {
    assert_eq!(check_ssid(""), Err(WifiError::MissingSsid));
    assert_eq!(check_ssid("JAISTALL"), Ok(()));
}

#[test]
fn channel_of_first_matching_ap() {
    let aps = vec![
        AccessPoint { ssid: b"other".to_vec(), channel: 1 },
        AccessPoint { ssid: b"JAISTALL".to_vec(), channel: 6 },
        AccessPoint { ssid: b"JAISTALL".to_vec(), channel: 11 },
    ];
    assert_eq!(select_channel(&aps, b"JAISTALL"), Some(6));
    assert_eq!(select_channel(&aps, b"JAIST"), None);
    assert_eq!(select_channel(&Vec::new(), b"JAISTALL"), None);
}
