# cosmicfetch

A system monitor for the COSMIC desktop, split in two:

- `src/` is the verified library (Verus): the monitor's state and how
  messages change it (`model`), the process list's stable sort and top
  twenty (`processes`), the uptime text (`uptime`), the operating system's
  name from the release file (`os_release`), the graphics card's report
  (`gpu`), byte units and the network and disk totals (`usage`), and the
  text routines they rest on (`text`).
- `app/` is the desktop program: it reads the machine with `sysinfo`, the
  environment and `/etc/os-release`, runs `nvidia-smi`, draws the pages with
  libcosmic, and computes the floating-point percentages and sizes.
