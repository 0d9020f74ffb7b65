# tcpip_userland

A user-space TCP/IP stack whose logic is verified with Verus: Ethernet and ARP, IPv4 and
ICMP, UDP and a small TCP, hosts with sockets and connection tables, a learning switch, a
two-interface router, a DHCP server and client, and a little HTTP.

- `src/` is the verified library. Each data structure has a view and a well-formedness
  predicate; each public function states what it returns or changes over those views.
  The laws of the library (codec round trips, longest-prefix routing, the switch's
  forwarding rules, DHCP address uniqueness, when an HTTP response is complete, what a
  state file reads back) are public proof functions beside the code they speak of.
- `src/command/` holds the decisions of the command-line programs: how their arguments
  read, what a console line means, how a WAN description file reads.
- `app/` is the program around the library: sockets, files, threads, the clock and
  printing. It runs the loops and hands the library plain values.
- `tests/` exercises the library on concrete values.
