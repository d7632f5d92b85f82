# tauri-plugin-blec

A Bluetooth Low Energy client. `src/` is the verified library: the scan
filters (`filter`), the map from device addresses to devices (`address_map`),
the state kept per connected device and its notification listeners
(`device`), the retry, polling and error policies of connecting and
disconnecting (`connection`), the scan bookkeeping (`scanning`), UUID text
(`uuids`), and the plain data types (`models`, `error`).

`app/` is the asynchronous part: the `Handler` that drives the adapter and the
peripherals through btleplug and tokio, and the Tauri commands. It performs
the Bluetooth calls, the waits and the messages; what it keeps of devices and
scans, and the checks, retries and errors around those calls, are functions
of the library.
