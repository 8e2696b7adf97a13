# env_monitor

Firmware core of a small environmental monitoring station (BME280 sensor,
ST7789 screen, SD card log, Wi-Fi time sync), written in Verus.

- `src/` is the verified library:
  - `calendar`: proleptic Gregorian day numbers and the date of a day number;
  - `rtc`: the wall clock synced once to Unix time, local date and time, and
    reading back the local times the log writes;
  - `decimal`: zero-padded decimal numerals and fixed-width digit fields;
  - `sdcard` and `daily_history`: the CSV log line, reading the log's tail line
    by line into the half-hour buckets of the 24-hour graph, the SD card's health;
  - `netsync`: the SNTP request and the reading of a reply;
  - `ui`: the reading histories of the dashboard and the screen's geometry;
  - `control`: the decisions of the sampling loop.
- `app/` is the firmware around it: peripherals, async tasks, the SD card and
  network drivers, the floating-point readings and the drawing.
- `tests/` runs the library on concrete values.
