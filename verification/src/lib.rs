//! Verified logic of small STM32F103 peripheral drivers: an ST7789 panel,
//! DHT11 and DHT20 sensors and a 24C02-style I2C EEPROM.
pub mod ops;
pub mod st7789;
pub mod st7789_pixel;
pub mod raster;
pub mod dht11;
pub mod eeprom;
pub mod eeprom_bus;
pub mod eeprom_model;
pub mod dht20;
pub mod bits;
pub mod timing;
pub mod ui;
pub mod screen;
pub mod checks;
