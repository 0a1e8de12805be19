# system_agent

Host inventory and monitoring agents. The library reads what the host's
tools and files report — firewall listings, `systemctl` output, compose files
and Dockerfiles, `/proc` counters, `ss` and `podman` listings, journal
records — and turns it into records, with every reader specified and proved
in Verus.

Layout:

- `src/` — the verified library.
  - `text.rs`: the string operations the readers build on (`lines`,
    `split_whitespace`, `trim`, `find`, number parsing), each specified over
    `Seq<char>`.
  - `firewall.rs`: iptables, nftables and ufw listings, and the security
    review of a rule set.
  - `systemd.rs`: units from `systemctl show`, unit files, the unit cache.
  - `docker.rs`, `dockerfile.rs`, `yaml.rs`: container definitions from
    compose files and Dockerfiles.
  - `inventory.rs`, `report.rs`: the inventory report (host addresses,
    services, sockets, containers).
  - `metrics.rs`: CPU, memory, disk and network counters and their changes
    between readings.
  - `sysinfo.rs`: the system description.
  - `logs.rs`, `json.rs`: journal records and their selection.
  - `collector.rs`: linking processes and sockets to units and containers.
- `app/` — the programs around the library: command line, running commands,
  reading files, HTTP, serialization and the floating-point figures.
- `tests/` — tests of the library on concrete inputs.
