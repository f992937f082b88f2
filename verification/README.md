# dome_drivers

Drivers for a small STM32F103 board — an ST7789 240x240 panel on SPI, a
DHT11 and a DHT20 temperature/humidity sensor, and a 24C02 EEPROM on a
bit-banged I2C bus — with their logic verified by Verus.

The library (`src/`) holds everything the drivers decide or compute; the
program in `app/` owns the peripherals and carries out what the library
asks for.

- `ops`, `st7789`, `raster`, `checks`: every panel operation (init, address
  window, rectangles, bitmaps, Bresenham lines, filled triangles and quads,
  the wireframe renderer) appends the exact SPI transfers to a `Bus` log;
  `checks` tells at run time whether an input keeps the integer arithmetic
  in range. `st7789_pixel` is the smaller driver of the DHT11 program,
  which sends every pixel as a transfer of its own.
- `dht11`: a sample-driven reader of the sensor's answer, which also
  rejects readings outside the sensor's range; the program samples the
  line and waits as it is told.
- `dht20`: CRC-8 and the conversion of a measurement.
- `eeprom`, `eeprom_bus`, `eeprom_model`: page-bounded write planning,
  partition zero-filling, the bus scripts of every operation, and a model
  of the device in which a partition read back after a write returns what
  was written.
- `bits`, `timing`: bit order on the wire, SysTick and busy-wait delays.
- `ui`, `screen`: the thermometer screen's redraw decisions and layout, the
  EEPROM demo's steps, the frame-rate counter.
