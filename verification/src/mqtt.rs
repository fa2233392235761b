//! Topic names under which the sensing node publishes its readings and to
//! which the receiver subscribes.

use vstd::prelude::*;

verus! {

/// Common prefix of every topic.
pub const MQTT_TOPIC_PREFIX: &'static str = "i483/sensors/s2510030";

/// The topic for quantity `data_type` of sensor `sensor`.
pub open spec fn spec_topic(sensor: Seq<char>, data_type: Seq<char>) -> Seq<char> {
    MQTT_TOPIC_PREFIX@ + "/"@ + sensor + "/"@ + data_type
}

/// Builds `<prefix>/<sensor>/<data_type>`.
pub fn topic(sensor: &str, data_type: &str) -> (r: String)
    ensures
        r@ == spec_topic(sensor@, data_type@),
{
    let mut r = String::from_str(MQTT_TOPIC_PREFIX);
    r.append("/");
    r.append(sensor);
    r.append("/");
    r.append(data_type);
    r
}

/// One published quantity.
#[derive(Debug, Clone, Copy, PartialEq, Eq)]
pub enum Channel {
    Dps310Temperature,
    Dps310AirPressure,
    Scd41Co2,
    Scd41Temperature,
    Scd41Humidity,
    Bh1750Illumination,
    Rpr0521Illumination,
    Rpr0521InfraredIllumination,
}

impl Channel {
    /// The sensor part of the channel's topic.
    pub open spec fn spec_sensor(self) -> Seq<char> {
        match self {
            Channel::Dps310Temperature | Channel::Dps310AirPressure => "DPS310"@,
            Channel::Scd41Co2 | Channel::Scd41Temperature | Channel::Scd41Humidity => "SCD41"@,
            Channel::Bh1750Illumination => "BH1750"@,
            Channel::Rpr0521Illumination | Channel::Rpr0521InfraredIllumination => "RPR0521"@,
        }
    }

    /// The quantity part of the channel's topic.
    pub open spec fn spec_data_type(self) -> Seq<char> {
        match self {
            Channel::Dps310Temperature | Channel::Scd41Temperature => "temperature"@,
            Channel::Dps310AirPressure => "air_pressure"@,
            Channel::Scd41Co2 => "co2"@,
            Channel::Scd41Humidity => "humidity"@,
            Channel::Bh1750Illumination | Channel::Rpr0521Illumination => "illumination"@,
            Channel::Rpr0521InfraredIllumination => "infrared_illumination"@,
        }
    }

    /// The channel's full topic.
    pub open spec fn spec_channel_topic(self) -> Seq<char> {
        spec_topic(self.spec_sensor(), self.spec_data_type())
    }

    /// The sensor part of the channel's topic.
    pub fn sensor(&self) -> (r: &'static str)
        ensures
            r@ == self.spec_sensor(),
    {
        match self {
            Channel::Dps310Temperature | Channel::Dps310AirPressure => "DPS310",
            Channel::Scd41Co2 | Channel::Scd41Temperature | Channel::Scd41Humidity => "SCD41",
            Channel::Bh1750Illumination => "BH1750",
            Channel::Rpr0521Illumination | Channel::Rpr0521InfraredIllumination => "RPR0521",
        }
    }

    /// The quantity part of the channel's topic.
    pub fn data_type(&self) -> (r: &'static str)
        ensures
            r@ == self.spec_data_type(),
    {
        match self {
            Channel::Dps310Temperature | Channel::Scd41Temperature => "temperature",
            Channel::Dps310AirPressure => "air_pressure",
            Channel::Scd41Co2 => "co2",
            Channel::Scd41Humidity => "humidity",
            Channel::Bh1750Illumination | Channel::Rpr0521Illumination => "illumination",
            Channel::Rpr0521InfraredIllumination => "infrared_illumination",
        }
    }

    /// The channel's full topic.
    pub fn topic(&self) -> (r: String)
        ensures
            r@ == self.spec_channel_topic(),
    {
        topic(self.sensor(), self.data_type())
    }
}

/// The channels the receiver subscribes to, in the order it subscribes.
pub open spec fn subscribed_channels() -> Seq<Channel> {
    seq![
        Channel::Dps310Temperature,
        Channel::Dps310AirPressure,
        Channel::Scd41Co2,
        Channel::Scd41Temperature,
        Channel::Scd41Humidity,
        Channel::Bh1750Illumination,
        Channel::Rpr0521Illumination,
        Channel::Rpr0521InfraredIllumination,
    ]
}

/// The topics the receiver subscribes to, in order.
pub fn subscription_topics() -> (r: Vec<String>)
    ensures
        r@.len() == subscribed_channels().len(),
        forall|i: int|
            0 <= i < r@.len() ==> #[trigger] r@[i]@ == subscribed_channels()[i].spec_channel_topic(),
{
    let channels = vec![
        Channel::Dps310Temperature,
        Channel::Dps310AirPressure,
        Channel::Scd41Co2,
        Channel::Scd41Temperature,
        Channel::Scd41Humidity,
        Channel::Bh1750Illumination,
        Channel::Rpr0521Illumination,
        Channel::Rpr0521InfraredIllumination,
    ];
    assert(channels@ =~= subscribed_channels());
    let mut r: Vec<String> = Vec::new();
    for i in 0..channels.len()
        invariant
            channels@ == subscribed_channels(),
            r@.len() == i,
            forall|k: int| 0 <= k < i ==> #[trigger] r@[k]@ == subscribed_channels()[k].spec_channel_topic(),
    {
        r.push(channels[i].topic());
    }
    r
}

/// Every channel the sensing node publishes on is subscribed to by the
/// receiver, exactly once.
pub proof fn lemma_every_channel_subscribed(c: Channel)
    ensures
        exists|i: int| 0 <= i < subscribed_channels().len() && subscribed_channels()[i] == c,
        forall|i: int, j: int|
            0 <= i < j < subscribed_channels().len() ==> subscribed_channels()[i] != subscribed_channels()[j],
{
    let s = subscribed_channels();
    match c {
        Channel::Dps310Temperature => assert(s[0] == c),
        Channel::Dps310AirPressure => assert(s[1] == c),
        Channel::Scd41Co2 => assert(s[2] == c),
        Channel::Scd41Temperature => assert(s[3] == c),
        Channel::Scd41Humidity => assert(s[4] == c),
        Channel::Bh1750Illumination => assert(s[5] == c),
        Channel::Rpr0521Illumination => assert(s[6] == c),
        Channel::Rpr0521InfraredIllumination => assert(s[7] == c),
    }
}

} // verus!
