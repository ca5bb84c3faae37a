# traffic_forward

Sets up TCP/UDP traffic forwarding with iptables: traffic that reaches a local
port is sent on to `ip:port`, with the PREROUTING, POSTROUTING and FORWARD
rules that this takes, and a small table of the forwards that are set up.

## Layout

- `src/` — the library; each function carries a specification of what it
  does, and the laws about whole runs are proved.
  - `text.rs`: splitting, trimming, number reading and writing, each with a
    specification of what it computes.
  - `iptables/tools.rs`: the iptables rules of a forward, the reading of
    iptables listings (rule numbers, traffic counters), and the runs that
    add and delete a forward's rules.
  - `host/ip.rs`: forward rows, how the table is shown, and the rules for
    storing a row.
  - `service.rs`: the user's operations (add, delete, list, traffic, rebuild)
    tying the table and the firewall together.
  - `effect.rs`: operations that need commands run or the table read are
    state machines; each step names a `Request` and is resumed with a
    `Reply`. `drive` follows a run over a list of replies, which the proved
    laws about whole runs are stated with.
  - `web/forward.rs`: the JSON answers of the web interface.
- `app/` — the program: command line, SQLite table, running commands, and
  the web server. It performs what the library's operations ask for.
- `tests/` — tests of the library, with pretend tables and firewalls.
