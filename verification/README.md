# vatis_profiles

Installing the French vACC vATIS profiles: a library in Verus that decides which profile
files of a controller's vATIS store are moved aside and which published profiles are
written, and a thin crate around it that does so.

- `src/` decides, and its decisions are proved. Nothing in it touches a file, a network or
  a process. `profile` tells the generations of a profile apart, `release` and `archive`
  read the published ones, `store` reads those on the machine, `plan` says what each region
  needs, `apply` carries a plan out one action at a time, `status` says what the user is
  shown. `progress` and `migration` state what holds of whole runs:
  - nothing is lost, for a plan that keeps to the store;
  - every run ends, as long as no probe finds what is not there;
  - a second run finds nothing to do, when the first met no mishap, the published profiles
    are current ones of their regions, and no region's profile is in the way of another's.
- `app/` fetches, reads, writes and launches.
- `tests/` runs the library, with the file system held in memory.

What is believed and not proved stands in `src/archive.rs` (four calls into the `zip` crate)
and in `src/paths.rs` (the separator that parts the components of a path on this machine).
