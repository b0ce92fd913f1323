# ftl_kernel

The decision-making core of the FTL kernel as a verified library: packet
parsing and building, the network receive path, DHCP, ARP, virtual memory
mappings, handle tables, run queues, polls, sinks, timers, services and
ELF loading.
Verus proves the contract of every function in `src/` but a few wrappers
(marked `external_body`) around `hashbrown::HashMap` and fallible
allocation in std, whose contracts are trusted.

Layout:

- `src/net/packet.rs`, `src/net/packet/`: inspectors and rewriters for
  Ethernet, ARP, IPv4, TCP, UDP and DHCP, the Internet checksum, and the
  laws that tie writers, readers and checksums together.
- `src/net/`: the ARP table, the DHCP client, the receive path (`router`,
  `network`) and what a device writes in front of outgoing packets.
- `src/vmspace.rs`, `src/vmarea.rs`, `src/vmobject.rs`: mappings of a
  virtual memory space and lazily allocated memory areas.
- `src/process.rs`, `src/scheduler.rs`, `src/thread.rs`, `src/poll.rs`,
  `src/sink.rs`, `src/time.rs`, `src/service.rs`, `src/syscall.rs`: handle
  tables, the run queue and the choice of the next thread to run, thread
  states, the objects threads wait on, named services, and system call
  return values.
- `src/elf.rs`: the memory an ELF image spans, loading its segments,
  finding a section by name, and applying its relative relocations.
- `app/`: the loops around the core that copy between physical pages, user
  memory and the network driver, written against small traits.
- `tests/`: tests of the library on concrete values.
