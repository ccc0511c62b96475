# pac-windows

Reads PAC1954 power monitors through the Windows Energy Meter Interface, and the energy history
that Windows keeps in its SRUM database.

`src/` is the library, verified with Verus. It holds everything that computes or decides:

| Module | What it holds |
|--------|---------------|
| `text`, `bytes`, `utf16` | text, little-endian integers and UTF-16 |
| `calendar` | dates and timestamps |
| `emi`, `discovery`, `monitor` | energy meters: measurements, metadata, discovery, live monitoring |
| `blob`, `column` | identifiers stored as blobs, and the values of database cells |
| `jet`, `opening`, `database`, `tables`, `listing`, `srum` | the database: how it is opened, walked through, read and listed |
| `report`, `json` | the lines of the reports |

Where system calls and decisions alternate, the library has a state machine: `step` says which
call to make next, and a method takes what the call returned. `app/` is the program around it: the
command line, the system calls, and the floating-point numbers.

```
pac-windows list [--all]
pac-windows dump [--all] [--json]
pac-windows monitor [--interval MS] [--csv] [--filter vcccore,dram] [--count N] [--all]
pac-windows srum --db srudb_copy.dat [--table list|energy|energy-lt|estimator|tagged|{GUID}] [--csv] [-n N]
```
