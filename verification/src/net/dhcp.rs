//! A DHCP client: it discovers a server, requests the offered address, and
//! yields the configuration that the server acknowledges.
//!
//! The client decides and builds messages; sending them over UDP broadcast
//! is left to the caller.
use vstd::prelude::*;

use super::packet::Ipv4Addr;
use super::packet::NetMask;
use super::packet::dhcp::DHCP_ACK;
use super::packet::dhcp::DHCP_BROADCAST;
use super::packet::dhcp::DHCP_DISCOVER;
use super::packet::dhcp::DHCP_ETHERNET_ADDR_LEN;
use super::packet::dhcp::DHCP_HW_ETHERNET;
use super::packet::dhcp::DHCP_OFFER;
use super::packet::dhcp::DHCP_OP_REQUEST;
use super::packet::dhcp::DHCP_REQUEST;
use super::packet::dhcp::DhcpInspector;
use super::packet::dhcp::DhcpRewriter;
use super::packet::dhcp::Error;
use super::packet::dhcp::OPTION_END;
use super::packet::dhcp::OPTION_MESSAGE_TYPE;
use super::packet::dhcp::OPTION_PARAM_REQUEST_LIST;
use super::packet::dhcp::OPTION_REQUESTED_IP;
use super::packet::dhcp::OPTION_ROUTER;
use super::packet::dhcp::OPTION_SERVER_ID;
use super::packet::dhcp::OPTION_SUBNET_MASK;
use super::packet::dhcp::fresh_message;
use super::packet::dhcp::header_error;
use super::packet::dhcp::ipv4_option_of;
use super::packet::dhcp::message_type_of;
use super::packet::dhcp::option_value;
use super::packet::dhcp::scan_options;
use super::packet::ipv4::Ipv4Inspector;
use super::packet::udp::UdpInspector;
use super::packet::wire::be16;
use super::packet::wire::be32;
use super::packet::wire::lemma_splice_adjacent;
use super::packet::wire::lemma_u32_bytes;
use super::packet::wire::put16;
use super::packet::wire::put32;
use super::packet::wire::splice;
use super::packet::wire::u32_bytes;

verus! {

pub const DHCP_PACKET_LEN: usize = 300;
pub const TX_ID: u32 = 0x1234_5678;

/// The configuration that a DHCP server acknowledged.
pub struct DhcpConfig {
    pub address: Ipv4Addr,
    pub gateway: Ipv4Addr,
    pub netmask: NetMask,
}

/// A request to the DHCP server.
#[derive(Clone, Copy)]
pub struct Request {
    pub address: Ipv4Addr,
    pub server: Ipv4Addr,
}

/// The state of a DHCP client.
#[derive(Clone, Copy)]
pub enum State {
    Discovering,
    Requesting(Request),
    Bound,
}

/// The fixed part of every message the client sends: a BOOTP request for
/// an Ethernet client with hardware address `mac`, asking for broadcast
/// replies.
pub open spec fn message_header(mac: Seq<u8>) -> Seq<u8> {
    let m = fresh_message(300).update(0, DHCP_OP_REQUEST).update(1, DHCP_HW_ETHERNET).update(
        2,
        DHCP_ETHERNET_ADDR_LEN,
    );
    splice(put16(put32(m, 4, TX_ID as int), 10, DHCP_BROADCAST as int), 28, mac)
}

/// A message with the option bytes `options`, then the end option.
pub open spec fn message_with_options(mac: Seq<u8>, options: Seq<u8>) -> Seq<u8> {
    splice(message_header(mac), 240, options + seq![OPTION_END])
}

/// The options of a DHCPDISCOVER: the message type, and the parameters
/// wanted (subnet mask, router, server identifier).
pub open spec fn discover_options() -> Seq<u8> {
    seq![OPTION_MESSAGE_TYPE, 1, DHCP_DISCOVER, OPTION_PARAM_REQUEST_LIST, 3, OPTION_SUBNET_MASK, OPTION_ROUTER, OPTION_SERVER_ID]
}

/// The options of a DHCPREQUEST for `address` from `server`: the message
/// type, the requested address, the server identifier, and the parameters
/// wanted (subnet mask, router).
pub open spec fn request_options(address: u32, server: u32) -> Seq<u8> {
    seq![OPTION_MESSAGE_TYPE, 1, DHCP_REQUEST] + seq![OPTION_REQUESTED_IP, 4] + u32_bytes(
        address as int,
    ) + seq![OPTION_SERVER_ID, 4] + u32_bytes(server as int) + seq![
        OPTION_PARAM_REQUEST_LIST,
        2,
        OPTION_SUBNET_MASK,
        OPTION_ROUTER,
    ]
}

/// The message type of a reply meant for this client (a well-formed reply
/// with our transaction id and hardware address), if `msg` is one.
pub open spec fn reply_type(mac: Seq<u8>, msg: Seq<u8>) -> Option<u8> {
    if header_error(msg) is Some {
        None
    } else {
        match message_type_of(msg) {
            Ok(Some(t)) => if be32(msg, 4) == TX_ID && msg.subrange(28, 34) == mac {
                Some(t)
            } else {
                None
            },
            _ => None,
        }
    }
}

/// The request that an offer `msg` leads to in `state`, as (address,
/// server), if it leads to one: only while discovering, for the offered
/// address, from the server that the offer names or else from its sender
/// `source`.
pub open spec fn offer_request(state: State, msg: Seq<u8>, source: u32) -> Option<(u32, u32)> {
    if !(state is Discovering) {
        None
    } else {
        match ipv4_option_of(msg, OPTION_SERVER_ID) {
            Err(_) => None,
            Ok(Some(server)) => Some((be32(msg, 16) as u32, server)),
            Ok(None) => Some((be32(msg, 16) as u32, source)),
        }
    }
}

/// The configuration that an acknowledgment `msg` yields in `state`, as
/// (address, gateway, netmask), if it yields one: only while requesting,
/// when the assigned address is unset or the requested one, the server
/// identifier is absent or that of the request, and a router is named; an
/// absent subnet mask counts as zero.
pub open spec fn ack_config(state: State, msg: Seq<u8>) -> Option<(u32, u32, u32)> {
    match state {
        State::Requesting(req) => {
            let assigned = be32(msg, 16);
            let server = ipv4_option_of(msg, OPTION_SERVER_ID);
            let router = ipv4_option_of(msg, OPTION_ROUTER);
            let mask = ipv4_option_of(msg, OPTION_SUBNET_MASK);
            if (assigned != 0 && assigned != req.address@) || server is Err || (server matches Ok(
                Some(s),
            ) && s != req.server@) {
                None
            } else {
                match router {
                    Ok(Some(gateway)) => match mask {
                        Ok(Some(m)) => Some((req.address@, gateway, m)),
                        Ok(None) => Some((req.address@, gateway, 0u32)),
                        Err(_) => None,
                    },
                    _ => None,
                }
            }
        },
        _ => None,
    }
}

/// How a client with hardware address `mac` in `state` handles the message
/// `msg` from `source`: `next` is its state afterwards and `r` what the
/// caller is to do.
pub open spec fn rx_step(
    mac: Seq<u8>,
    state: State,
    msg: Seq<u8>,
    source: u32,
    next: State,
    r: RxOutcome,
) -> bool {
    let kind = reply_type(mac, msg);
    if kind == Some(DHCP_ACK) {
        match ack_config(state, msg) {
            None => r is Nothing && next == state,
            Some((address, gateway, netmask)) => r matches RxOutcome::Configured(c) && c.address@
                == address && c.gateway@ == gateway && c.netmask@ == netmask && next is Bound,
        }
    } else if kind == Some(DHCP_OFFER) {
        match offer_request(state, msg, source) {
            None => r is Nothing && next == state,
            Some((address, server)) => r matches RxOutcome::SendRequest(bytes) && bytes@
                == message_with_options(mac, request_options(address, server)) && (next matches State::Requesting(
                req,
            ) && req.address@ == address && req.server@ == server),
        }
    } else {
        r is Nothing && next == state
    }
}

/// Whether two hardware addresses are equal.
fn same_mac(a: [u8; 6], b: [u8; 6]) -> (r: bool)
    ensures
        r == (a@ == b@),
{
    let r = a[0] == b[0] && a[1] == b[1] && a[2] == b[2] && a[3] == b[3] && a[4] == b[4] && a[5]
        == b[5];
    proof {
        if r {
            assert(a@ =~= b@);
        }
    }
    r
}

/// A DHCP client.
pub struct Client {
    mac: [u8; 6],
    state: State,
}

/// What the caller is to do after the client handled a received message.
pub enum RxOutcome {
    /// Nothing to do.
    Nothing,
    /// Broadcast this DHCPREQUEST to the server port.
    SendRequest([u8; 300]),
    /// The server acknowledged this configuration.
    Configured(DhcpConfig),
}

impl Client {
    pub closed spec fn state(&self) -> State {
        self.state
    }

    /// The client's hardware address.
    pub closed spec fn mac(&self) -> Seq<u8> {
        self.mac@
    }

    pub fn new(mac: [u8; 6]) -> (r: Self)
        ensures
            r.state() is Discovering,
            r.mac() == mac@,
    {
        Self { mac, state: State::Discovering }
    }

    /// Accepts an offer when discovering: the offered address is requested
    /// from the server that the offer names, or else from its sender.
    pub fn handle_offer(&mut self, pkt: &DhcpInspector<'_>, source: Ipv4Addr) -> (r: Option<
        Request,
    >)
        ensures
            final(self).mac() == old(self).mac(),
            match offer_request(old(self).state(), pkt.bytes(), source@) {
                None => r is None && final(self).state() == old(self).state(),
                Some((address, server)) => r matches Some(req) && req.address@ == address
                    && req.server@ == server && final(self).state() == State::Requesting(req),
            },
    {
        if !matches!(self.state, State::Discovering) {
            return None;
        }
        let server = match pkt.ipv4_option(OPTION_SERVER_ID) {
            Ok(Some(server)) => server,
            Ok(None) => source,
            Err(_) => return None,
        };
        let request = Request { address: pkt.your_ip(), server };
        self.state = State::Requesting(request);
        Some(request)
    }

    /// Accepts an acknowledgment of the requested address when requesting;
    /// the reply must name the router, and may name the subnet mask.
    pub fn handle_ack(&mut self, pkt: &DhcpInspector<'_>) -> (r: Option<DhcpConfig>)
        ensures
            final(self).mac() == old(self).mac(),
            match ack_config(old(self).state(), pkt.bytes()) {
                None => r is None && final(self).state() == old(self).state(),
                Some((address, gateway, netmask)) => r matches Some(config) && config.address@
                    == address && config.gateway@ == gateway && config.netmask@ == netmask
                    && final(self).state() is Bound,
            },
    {
        let request = match self.state {
            State::Requesting(request) => request,
            _ => return None,
        };
        let assigned_address = pkt.your_ip();
        let unassigned = Ipv4Addr::new(0);
        proof {
            assigned_address.lemma_view_eq(unassigned);
            assigned_address.lemma_view_eq(request.address);
        }
        if assigned_address != unassigned && assigned_address != request.address {
            return None;
        }
        match pkt.ipv4_option(OPTION_SERVER_ID) {
            Ok(Some(actual)) => {
                proof {
                    actual.lemma_view_eq(request.server);
                }
                if actual != request.server {
                    return None;
                }
            },
            Err(_) => return None,
            _ => {},
        }
        let gateway = match pkt.ipv4_option(OPTION_ROUTER) {
            Ok(Some(gateway)) => gateway,
            _ => return None,
        };
        let netmask = match pkt.ipv4_option(OPTION_SUBNET_MASK) {
            Ok(Some(netmask)) => NetMask::new(netmask.as_u32()),
            Ok(None) => NetMask::new(0),
            Err(_) => return None,
        };
        self.state = State::Bound;
        Some(DhcpConfig { address: request.address, gateway, netmask })
    }

    /// Handles a message that arrived from the DHCP server port: an offer
    /// meant for this client leads to a request, an acknowledgment of our
    /// request to a configuration; anything else is ignored.
    pub fn handle_rx(&mut self, ipv4: &Ipv4Inspector<'_>, udp: &UdpInspector<'_>) -> (r:
        RxOutcome)
        ensures
            final(self).mac() == old(self).mac(),
            rx_step(
                old(self).mac(),
                old(self).state(),
                udp.bytes().subrange(8, be16(udp.bytes(), 4)),
                be32(ipv4.bytes(), 12) as u32,
                final(self).state(),
                r,
            ),
    {
        let packet = match DhcpInspector::new(udp.payload()) {
            Ok(packet) => packet,
            Err(_) => return RxOutcome::Nothing,
        };
        let message_type = match packet.message_type() {
            Ok(Some(message_type)) => message_type,
            _ => return RxOutcome::Nothing,
        };
        if packet.tx_id() != TX_ID {
            return RxOutcome::Nothing;
        }
        if !same_mac(packet.client_hwaddr(), self.mac) {
            return RxOutcome::Nothing;
        }
        if message_type == DHCP_ACK {
            return match self.handle_ack(&packet) {
                Some(config) => RxOutcome::Configured(config),
                None => RxOutcome::Nothing,
            };
        }
        if message_type != DHCP_OFFER {
            return RxOutcome::Nothing;
        }
        let request = match self.handle_offer(&packet, ipv4.src_ip()) {
            Some(request) => request,
            None => return RxOutcome::Nothing,
        };
        match self.request_message(request) {
            Ok(bytes) => RxOutcome::SendRequest(bytes),
            Err(_) => RxOutcome::Nothing,
        }
    }

    /// Builds a message of type `message_type`: a DHCPDISCOVER when there
    /// is no request, a DHCPREQUEST for `request` otherwise.
    fn build_message(&self, message_type: u8, request: Option<Request>) -> (r: Result<
        [u8; 300],
        Error,
    >)
        ensures
            r matches Ok(bytes) && bytes@ == message_with_options(
                self.mac(),
                seq![OPTION_MESSAGE_TYPE, 1, message_type] + match request {
                    None => discover_options().skip(3),
                    Some(req) => request_options(req.address@, req.server@).skip(3),
                },
            ),
    {
        let mut bytes = [0u8; 300];
        let ghost mac = self.mac@;
        let ghost header = message_header(mac);
        let ghost first = seq![OPTION_MESSAGE_TYPE, 1, message_type];
        let ghost rest = match request {
            None => discover_options().skip(3),
            Some(req) => request_options(req.address@, req.server@).skip(3),
        };
        {
            let mut packet = match DhcpRewriter::new(&mut bytes) {
                Ok(packet) => packet,
                Err(e) => return Err(e),
            };
            packet.set_op(DHCP_OP_REQUEST);
            packet.set_hw_type(DHCP_HW_ETHERNET);
            packet.set_hwaddr_len(DHCP_ETHERNET_ADDR_LEN);
            packet.set_tx_id(TX_ID);
            packet.set_flags(DHCP_BROADCAST);
            packet.set_client_hwaddr(self.mac);
            assert(packet.buf@ == header);
            match packet.write_option(OPTION_MESSAGE_TYPE, &[message_type]) {
                Ok(()) => {},
                Err(e) => return Err(e),
            }
            assert(packet.buf@ == splice(header, 240, first));
            match request {
                None => {
                    let wanted = [OPTION_SUBNET_MASK, OPTION_ROUTER, OPTION_SERVER_ID];
                    match packet.write_option(OPTION_PARAM_REQUEST_LIST, &wanted) {
                        Ok(()) => {},
                        Err(e) => return Err(e),
                    }
                    proof {
                        let opt = seq![OPTION_PARAM_REQUEST_LIST, 3u8] + wanted@;
                        assert(opt =~= rest);
                        lemma_splice_adjacent(header, 240, first, rest);
                    }
                },
                Some(req) => {
                    let address = addr_bytes(req.address);
                    let server = addr_bytes(req.server);
                    let wanted = [OPTION_SUBNET_MASK, OPTION_ROUTER];
                    match packet.write_option(OPTION_REQUESTED_IP, &address) {
                        Ok(()) => {},
                        Err(e) => return Err(e),
                    }
                    match packet.write_option(OPTION_SERVER_ID, &server) {
                        Ok(()) => {},
                        Err(e) => return Err(e),
                    }
                    match packet.write_option(OPTION_PARAM_REQUEST_LIST, &wanted) {
                        Ok(()) => {},
                        Err(e) => return Err(e),
                    }
                    proof {
                        let o1 = seq![OPTION_REQUESTED_IP, 4u8] + address@;
                        let o2 = seq![OPTION_SERVER_ID, 4u8] + server@;
                        let o3 = seq![OPTION_PARAM_REQUEST_LIST, 2u8] + wanted@;
                        lemma_splice_adjacent(header, 240, first, o1);
                        lemma_splice_adjacent(header, 240, first + o1, o2);
                        lemma_splice_adjacent(header, 240, first + o1 + o2, o3);
                        assert(first + o1 + o2 + o3 =~= first + rest);
                    }
                },
            }
            assert(packet.buf@ == splice(header, 240, first + rest));
            match packet.finish() {
                Ok(()) => {},
                Err(e) => return Err(e),
            }
            proof {
                assert(packet.options_offset == 240 + (first + rest).len());
                lemma_splice_adjacent(header, 240, first + rest, seq![OPTION_END]);
                assert(packet.buf@ =~= splice(
                    splice(header, 240, first + rest),
                    240 + (first + rest).len() as int,
                    seq![OPTION_END],
                ));
                assert(first + rest + seq![OPTION_END] =~= (first + rest) + seq![OPTION_END]);
            }
        }
        Ok(bytes)
    }

    /// The DHCPDISCOVER message to broadcast to the server port.
    pub fn discover_message(&self) -> (r: Result<[u8; 300], Error>)
        ensures
            r matches Ok(bytes) && bytes@ == message_with_options(self.mac(), discover_options()),
    {
        let r = self.build_message(DHCP_DISCOVER, None);
        assert(seq![OPTION_MESSAGE_TYPE, 1, DHCP_DISCOVER] + discover_options().skip(3)
            =~= discover_options());
        r
    }

    /// The DHCPREQUEST message for `req` to broadcast to the server port.
    pub fn request_message(&self, req: Request) -> (r: Result<[u8; 300], Error>)
        ensures
            r matches Ok(bytes) && bytes@ == message_with_options(
                self.mac(),
                request_options(req.address@, req.server@),
            ),
    {
        let r = self.build_message(DHCP_REQUEST, Some(req));
        assert(seq![OPTION_MESSAGE_TYPE, 1, DHCP_REQUEST] + request_options(
            req.address@,
            req.server@,
        ).skip(3) =~= request_options(req.address@, req.server@));
        r
    }
}

/// The four bytes of an address in network order.
fn addr_bytes(ip: Ipv4Addr) -> (r: [u8; 4])
    ensures
        r@ == u32_bytes(ip@ as int),
{
    let value = ip.as_u32();
    let r = [
        (value / 0x100_0000) as u8,
        ((value / 0x1_0000) % 256) as u8,
        ((value / 256) % 256) as u8,
        (value % 256) as u8,
    ];
    assert(r@ =~= u32_bytes(ip@ as int));
    r
}

/// A bound client ignores every message: it stays bound and has nothing
/// to do.
pub proof fn law_bound_ignores(
    mac: Seq<u8>,
    msg: Seq<u8>,
    source: u32,
    next: State,
    r: RxOutcome,
)
    requires
        rx_step(mac, State::Bound, msg, source, next, r),
    ensures
        r is Nothing,
        next is Bound,
{
}

/// The client's state only moves forward: a message leaves it as it was,
/// takes a discovering client to requesting, or a requesting one to bound.
pub proof fn law_state_moves_forward(
    mac: Seq<u8>,
    state: State,
    msg: Seq<u8>,
    source: u32,
    next: State,
    r: RxOutcome,
)
    requires
        rx_step(mac, state, msg, source, next, r),
    ensures
        next == state || (state is Discovering && next is Requesting) || (state is Requesting
            && next is Bound),
        r is SendRequest ==> state is Discovering && next is Requesting,
        r is Configured ==> state is Requesting && next is Bound,
{
}

/// The address and server that an offer from `source` leads a discovering
/// client to request.
pub open spec fn offered(offer: Seq<u8>, source: u32) -> (u32, u32) {
    offer_request(State::Discovering, offer, source)->0
}

/// An offer accepted while discovering, then an acknowledgment that names
/// a router and agrees with the request (no other server, no other
/// address), configure the client with the offered address.
pub proof fn law_offer_then_ack_configures(
    mac: Seq<u8>,
    offer: Seq<u8>,
    offer_source: u32,
    after_offer: State,
    sent: RxOutcome,
    ack: Seq<u8>,
    ack_source: u32,
    after_ack: State,
    got: RxOutcome,
)
    requires
        reply_type(mac, offer) == Some(DHCP_OFFER),
        offer_request(State::Discovering, offer, offer_source) is Some,
        rx_step(mac, State::Discovering, offer, offer_source, after_offer, sent),
        reply_type(mac, ack) == Some(DHCP_ACK),
        rx_step(mac, after_offer, ack, ack_source, after_ack, got),
        be32(ack, 16) == 0 || be32(ack, 16) == offered(offer, offer_source).0,
        ipv4_option_of(ack, OPTION_SERVER_ID) matches Ok(server) && (server matches Some(s) ==> s
            == offered(offer, offer_source).1),
        ipv4_option_of(ack, OPTION_ROUTER) matches Ok(Some(_)),
        ipv4_option_of(ack, OPTION_SUBNET_MASK) is Ok,
    ensures
        sent is SendRequest,
        after_ack is Bound,
        got matches RxOutcome::Configured(config) && config.address@ == offered(
            offer,
            offer_source,
        ).0,
{
}

/// The option area of a message built from `options`: the options, the end
/// option, then the rest of the fixed message.
proof fn lemma_option_area(mac: Seq<u8>, options: Seq<u8>)
    requires
        options.len() + 1 <= 60,
    ensures
        message_with_options(mac, options).len() == 300,
        message_with_options(mac, options).skip(240).len() == 60,
        forall|i: int|
            0 <= i < options.len() ==> #[trigger] message_with_options(mac, options).skip(240)[i]
                == options[i],
        message_with_options(mac, options).skip(240)[options.len() as int] == OPTION_END,
{
    let m = message_with_options(mac, options);
    assert(message_header(mac).len() == 300);
    assert(m.skip(240)[options.len() as int] == (options + seq![OPTION_END])[options.len() as int]);
}

/// A server reading the DHCPDISCOVER finds its message type and the list
/// of parameters the client wants.
pub proof fn law_discover_reads_back(mac: Seq<u8>)
    ensures
        message_type_of(message_with_options(mac, discover_options())) == Ok::<
            Option<u8>,
            Error,
        >(Some(DHCP_DISCOVER)),
        option_value(message_with_options(mac, discover_options()), OPTION_PARAM_REQUEST_LIST)
            == Ok::<Option<Seq<u8>>, Error>(
            Some(seq![OPTION_SUBNET_MASK, OPTION_ROUTER, OPTION_SERVER_ID]),
        ),
{
    let options = discover_options();
    let opts = message_with_options(mac, options).skip(240);
    lemma_option_area(mac, options);
    assert(opts[0] == OPTION_MESSAGE_TYPE && opts[1] == 1 && opts[2] == DHCP_DISCOVER);
    assert(opts[3] == OPTION_PARAM_REQUEST_LIST && opts[4] == 3);
    assert(opts[5] == OPTION_SUBNET_MASK && opts[6] == OPTION_ROUTER && opts[7] == OPTION_SERVER_ID);
    assert(scan_options(opts, OPTION_MESSAGE_TYPE, 0) == Ok::<Option<(int, int)>, Error>(
        Some((2, 3)),
    ));
    assert(scan_options(opts, OPTION_PARAM_REQUEST_LIST, 3) == Ok::<Option<(int, int)>, Error>(
        Some((5, 8)),
    ));
    assert(scan_options(opts, OPTION_PARAM_REQUEST_LIST, 0) == Ok::<Option<(int, int)>, Error>(
        Some((5, 8)),
    ));
    assert(opts.subrange(2, 3) =~= seq![DHCP_DISCOVER]);
    assert(opts.subrange(5, 8) =~= seq![OPTION_SUBNET_MASK, OPTION_ROUTER, OPTION_SERVER_ID]);
}

/// A server reading the DHCPREQUEST for `address` from `server` finds its
/// message type, the requested address and the server identifier.
pub proof fn law_request_reads_back(mac: Seq<u8>, address: u32, server: u32)
    ensures
        message_type_of(message_with_options(mac, request_options(address, server))) == Ok::<
            Option<u8>,
            Error,
        >(Some(DHCP_REQUEST)),
        ipv4_option_of(
            message_with_options(mac, request_options(address, server)),
            OPTION_REQUESTED_IP,
        ) == Ok::<Option<u32>, Error>(Some(address)),
        ipv4_option_of(
            message_with_options(mac, request_options(address, server)),
            OPTION_SERVER_ID,
        ) == Ok::<Option<u32>, Error>(Some(server)),
{
    let options = request_options(address, server);
    let opts = message_with_options(mac, options).skip(240);
    lemma_u32_bytes(address as int);
    lemma_u32_bytes(server as int);
    assert(options.len() == 19);
    lemma_option_area(mac, options);
    assert(opts[0] == OPTION_MESSAGE_TYPE && opts[1] == 1 && opts[2] == DHCP_REQUEST);
    assert(opts[3] == OPTION_REQUESTED_IP && opts[4] == 4);
    assert(opts[9] == OPTION_SERVER_ID && opts[10] == 4);
    assert(opts.subrange(5, 9) =~= u32_bytes(address as int));
    assert(opts.subrange(11, 15) =~= u32_bytes(server as int));
    assert(scan_options(opts, OPTION_MESSAGE_TYPE, 0) == Ok::<Option<(int, int)>, Error>(
        Some((2, 3)),
    ));
    assert(opts.subrange(2, 3) =~= seq![DHCP_REQUEST]);
    assert(scan_options(opts, OPTION_REQUESTED_IP, 3) == Ok::<Option<(int, int)>, Error>(
        Some((5, 9)),
    ));
    assert(scan_options(opts, OPTION_REQUESTED_IP, 0) == Ok::<Option<(int, int)>, Error>(
        Some((5, 9)),
    ));
    assert(scan_options(opts, OPTION_SERVER_ID, 9) == Ok::<Option<(int, int)>, Error>(
        Some((11, 15)),
    ));
    assert(scan_options(opts, OPTION_SERVER_ID, 3) == Ok::<Option<(int, int)>, Error>(
        Some((11, 15)),
    ));
    assert(scan_options(opts, OPTION_SERVER_ID, 0) == Ok::<Option<(int, int)>, Error>(
        Some((11, 15)),
    ));
}

} // verus!
