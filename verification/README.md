# rustgovernor

A load-driven hardware governor for Linux laptops. It averages the CPU load,
detects whether the machine runs on AC or battery, and writes the cpufreq
governor, the energy-performance preference, Intel turbo and any number of
custom sysfs files according to load thresholds read from
`/etc/RustGovernor/config.txt`.

- `src/` is the verified library (Verus): the configuration format
  (`config`), step selection and the write decisions with the governor's
  memory of what was written (`governor`), the meaning of the sysfs files
  (`power`), the monitor's report (`monitor`), and text and decimal handling
  (`text`, `number`).
- `app/` is the program: reading and writing files, CPU statistics, the
  command line, and the floating-point load averaging. Loads reach the library
  as `i32` levels that order them as their percentages are ordered.
