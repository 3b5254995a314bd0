# Light-Andromeda

A user-space overlay dataplane for virtual networks, written in Rust and verified with
Verus. A node takes Ethernet frames from its tenants, resolves where the destination
lives, and carries the frame there inside an outer Ethernet/IPv4/UDP packet with a
8-byte overlay header. Traffic that leaves the virtual network is translated, statefully,
to a public address and port.

## Layout

* `src/`: the library. Everything in it is verified, and nothing in it is trusted without
  proof beyond Verus and its standard library.
  * `wire`, `text`: big-endian fields and the decimal and hexadecimal forms.
  * `checksum`: the Internet checksum and its incremental update.
  * `addr`, `ethernet`, `arp`, `ipv4`, `udp`, `tcp`: views over borrowed frames.
  * `overlay`: the encapsulation header, encapsulation into a fresh buffer or in place,
    decapsulation.
  * `translate`: source and destination translation, connection tracking, ageing, and the
    rewriting of a packet in place.
  * `control`, `config`, `cli`: the fabric map, its declarative form, the command line.
  * `pipeline`: what becomes of a frame from a tenant or from the underlay.
  * `afxdp`: the ownership of packet buffers and the decisions of the forwarding loops.
* `app/`: the program: reading the configuration, the AF_XDP sockets, the loops that poll
  them.
* `tests/`: tests on concrete packets.

## How it is specified

Bytes are `Seq<u8>`, addresses are the number they spell, and every stateful type has a
view: a ghost structure of maps and sequences. A method's contract says that the view
after the call is one named transition of the view before it, and what is returned. The
proof functions named `law_..` then state what holds of those transitions together: that
an incremental checksum is the one a recomputation gives, that decapsulation undoes
encapsulation, that a reply to a translated flow returns to the sender for as long as the
flow is live, where the clock never ran back, that the virtual networks are isolated, that
copying and in-place encapsulation agree, that no step of the forwarding loops loses a
packet buffer or doubles one.

Arithmetic on counters and on 16-bit length fields wraps.
