# esp32_sensing

Protocol logic of an ESP32 sensing node that reads four I2C sensors
(DPS310 pressure/temperature, BH1750 and RPR-0521RS ambient light, SCD41
CO2/temperature/humidity) and publishes the readings over MQTT.

- `src/` is the library, verified with Verus. Every bus operation of a
  sensor is a `bus::Procedure`: a script of writes, reads, delays and
  polls, which tells its caller what to do on the bus next and decodes the
  bytes that come back. Decoding (sign extension, coefficient layout,
  Sensirion CRC-8, data-ready word, byte order), MQTT topic names and the
  WiFi channel choice are verified functions as well.
- `app/` is the firmware around it: it runs the procedures on the ESP-IDF
  I2C driver, converts raw readings into physical units (floating point),
  joins the WiFi network and publishes over MQTT. Started with the argument
  `mqtt-print-csv`, it is the host-side receiver that prints the messages.
- `tests/` runs the procedures against simulated sensors.
