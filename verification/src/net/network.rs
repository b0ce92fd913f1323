//! A network's receive side: how an incoming frame is sorted out, which
//! network and binding a TCP packet belongs to, and the queue of received
//! packets that user space peeks at and reads.
use std::collections::VecDeque;

use vstd::prelude::*;

use super::packet::read_array;
use super::packet::read_u16;
use super::packet::read_u32;
use super::packet::wire::be16;
use super::packet::wire::be32;
use super::packet::Ipv4Addr;
use super::packet::ETHTYPE_ARP;
use super::packet::ETHTYPE_IPV4;
use crate::deque::deque_try_reserve;
use crate::error::ErrorCode;

verus! {

/// How many received packets may wait in a network's queue.
pub const MAX_RX_QUEUE_DEPTH: usize = 128;

/// The length of an Ethernet header.
pub const ETHERNET_HEADER_LEN: usize = 14;

/// The length of an ARP packet for IPv4 over Ethernet.
pub const ARP_PACKET_LEN: usize = 28;

/// Our own IPv4 address (10.0.2.15).
pub const OUR_IP: u32 = 0x0a00_020f;

/// The gateway every outgoing packet is sent to (10.0.2.2).
pub const GATEWAY_IP: u32 = 0x0a00_0202;

/// What to do with a received frame.
pub enum FrameStep {
    /// Nothing: give the buffer back to the driver.
    Recycle,
    /// An ARP packet: learn that `sender_ip` is at `src_mac`, answer it when
    /// `reply`, then give the buffer back.
    Arp { sender_ip: Ipv4Addr, src_mac: [u8; 6], reply: bool },
    /// An IPv4 packet from `src_mac`, at `packet_offset` in the buffer and
    /// `packet_len` bytes long.
    Ipv4 { src_mac: [u8; 6], packet_offset: usize, packet_len: usize },
}

/// How a frame of `frame_len` bytes at `headroom` in `buf` is handled.
pub open spec fn frame_step(buf: Seq<u8>, headroom: int, frame_len: int, r: FrameStep) -> bool {
    let frame = buf.subrange(headroom, headroom + frame_len);
    if frame_len < ETHERNET_HEADER_LEN {
        r is Recycle
    } else if be16(frame, 12) == ETHTYPE_ARP {
        if frame_len < ETHERNET_HEADER_LEN + ARP_PACKET_LEN {
            r is Recycle
        } else {
            r matches FrameStep::Arp { sender_ip, src_mac, reply } && sender_ip@ == be32(frame, 28)
                && src_mac@ == frame.subrange(6, 12) && reply == (be16(frame, 20) == 1 && be32(
                frame,
                38,
            ) == OUR_IP)
        }
    } else if be16(frame, 12) != ETHTYPE_IPV4 {
        r is Recycle
    } else {
        r matches FrameStep::Ipv4 { src_mac, packet_offset, packet_len } && src_mac@
            == frame.subrange(6, 12) && packet_offset == headroom + ETHERNET_HEADER_LEN
            && packet_len == frame_len - ETHERNET_HEADER_LEN
    }
}

/// Sorts out the frame of `frame_len` bytes at `headroom` in `buf`.
pub fn classify_frame(buf: &[u8], headroom: usize, frame_len: usize) -> (r: FrameStep)
    requires
        frame_len >= ETHERNET_HEADER_LEN ==> headroom + frame_len <= buf@.len(),
    ensures
        frame_step(buf@, headroom as int, frame_len as int, r),
{
    if frame_len < ETHERNET_HEADER_LEN {
        return FrameStep::Recycle;
    }
    let ghost frame = buf@.subrange(headroom as int, headroom + frame_len);
    let buf_len = buf.len();
    assert(headroom + frame_len <= buf_len);
    let src_mac = read_array(buf, headroom + 6);
    let eth_type = read_u16(buf, headroom + 12);
    proof {
        assert(src_mac@ =~= frame.subrange(6, 12));
        assert(be16(frame, 12) == be16(buf@, headroom + 12));
    }
    if eth_type == ETHTYPE_ARP {
        if frame_len < ETHERNET_HEADER_LEN + ARP_PACKET_LEN {
            return FrameStep::Recycle;
        }
        let operation = read_u16(buf, headroom + 20);
        let sender_ip = read_u32(buf, headroom + 28);
        let target_ip = read_u32(buf, headroom + 38);
        proof {
            assert(be16(frame, 20) == be16(buf@, headroom + 20));
            assert(be32(frame, 28) == be32(buf@, headroom + 28));
            assert(be32(frame, 38) == be32(buf@, headroom + 38));
        }
        return FrameStep::Arp {
            sender_ip: Ipv4Addr::new(sender_ip),
            src_mac,
            reply: operation == 1 && target_ip == OUR_IP,
        };
    }
    if eth_type != ETHTYPE_IPV4 {
        return FrameStep::Recycle;
    }
    FrameStep::Ipv4 {
        src_mac,
        packet_offset: headroom + ETHERNET_HEADER_LEN,
        packet_len: frame_len - ETHERNET_HEADER_LEN,
    }
}

/// Of the bindings of a network, each given as whether its selector matches
/// a packet, its specificity and its cookie: the specificity and cookie of a
/// matching binding with the highest specificity, the last of them where
/// several have it.
pub fn match_packet(bindings: &[(bool, u32, u64)]) -> (r: Option<(u32, u64)>)
    ensures
        match r {
            None => forall|i: int| 0 <= i < bindings@.len() ==> !(#[trigger] bindings@[i]).0,
            Some((specificity, cookie)) => exists|i: int|
                0 <= i < bindings@.len() && #[trigger] bindings@[i] == (true, specificity, cookie)
                    && (forall|j: int|
                    0 <= j < bindings@.len() && (#[trigger] bindings@[j]).0 ==> bindings@[j].1
                        <= specificity) && (forall|j: int|
                    i < j < bindings@.len() && (#[trigger] bindings@[j]).0 ==> bindings@[j].1
                        < specificity),
        },
{
    let mut best: Option<(usize, u32, u64)> = None;
    let mut k: usize = 0;
    while k < bindings.len()
        invariant
            k <= bindings@.len(),
            match best {
                None => forall|i: int| 0 <= i < k ==> !(#[trigger] bindings@[i]).0,
                Some((i, specificity, cookie)) => i < k && bindings@[i as int] == (
                    true,
                    specificity,
                    cookie,
                ) && (forall|j: int|
                    0 <= j < k && (#[trigger] bindings@[j]).0 ==> bindings@[j].1 <= specificity)
                    && (forall|j: int|
                    i < j < k && (#[trigger] bindings@[j]).0 ==> bindings@[j].1 < specificity),
            },
        decreases bindings@.len() - k,
    {
        let (matches, specificity, cookie) = bindings[k];
        if matches {
            let replace = match best {
                None => true,
                Some((_, best_specificity, _)) => specificity >= best_specificity,
            };
            if replace {
                best = Some((k, specificity, cookie));
            }
        }
        k = k + 1;
    }
    match best {
        None => None,
        Some((i, specificity, cookie)) => {
            assert(bindings@[i as int] == (true, specificity, cookie));
            Some((specificity, cookie))
        },
    }
}

/// Of the networks, in order, each given by what `match_packet` found for
/// a packet among its bindings: the index of the first network whose
/// binding has the highest specificity, with that binding's cookie.
pub fn find_network(matches: &[Option<(u32, u64)>]) -> (r: Option<(usize, u64)>)
    ensures
        match r {
            None => forall|i: int| 0 <= i < matches@.len() ==> (#[trigger] matches@[i]) is None,
            Some((index, cookie)) => index < matches@.len() && (matches@[index as int] matches Some(
                (specificity, c),
            ) && c == cookie && (forall|j: int|
                0 <= j < matches@.len() ==> ((#[trigger] matches@[j]) matches Some((other, _))
                    ==> other <= specificity)) && (forall|j: int|
                0 <= j < index ==> ((#[trigger] matches@[j]) matches Some((other, _))
                    ==> other < specificity))),
        },
{
    let mut best: Option<(u32, usize, u64)> = None;
    let mut k: usize = 0;
    while k < matches.len()
        invariant
            k <= matches@.len(),
            match best {
                None => forall|i: int| 0 <= i < k ==> (#[trigger] matches@[i]) is None,
                Some((specificity, index, cookie)) => index < k && matches@[index as int] == Some(
                    (specificity, cookie),
                ) && (forall|j: int|
                    0 <= j < k ==> ((#[trigger] matches@[j]) matches Some((other, _))
                        ==> other <= specificity)) && (forall|j: int|
                    0 <= j < index ==> ((#[trigger] matches@[j]) matches Some((other, _))
                        ==> other < specificity)),
            },
        decreases matches@.len() - k,
    {
        if let Some((specificity, cookie)) = matches[k] {
            let better = match best {
                None => true,
                Some((best_specificity, _, _)) => specificity > best_specificity,
            };
            if better {
                best = Some((specificity, k, cookie));
            }
        }
        k = k + 1;
    }
    match best {
        None => None,
        Some((_, index, cookie)) => Some((index, cookie)),
    }
}

/// What user space learns of a received packet.
#[derive(Debug, Clone, Copy, PartialEq, Eq, Structural)]
pub struct RxMeta {
    /// The cookie of the binding the packet matched.
    pub cookie: u64,
    /// The length of the IPv4 packet.
    pub packet_len: u32,
    /// Where the transport header starts in the packet.
    pub transport_offset: u16,
    /// Where the payload starts in the packet.
    pub payload_offset: u16,
}

/// The metadata of a received TCP packet that the binding with `cookie`
/// matched: the packet is `total_len` bytes from `packet_offset` in its
/// buffer, the TCP header starts at `transport_offset` and the payload at
/// `header_len`. `None` when these do not fit the metadata's fields, the
/// offsets are out of order, or the packet's end is past what the machine
/// can hold.
pub fn rx_meta(
    cookie: u64,
    packet_offset: usize,
    total_len: usize,
    transport_offset: usize,
    header_len: usize,
) -> (r: Option<RxMeta>)
    ensures
        r is Some <==> (total_len <= u32::MAX && transport_offset <= header_len && header_len
            <= total_len && header_len <= u16::MAX && packet_offset + total_len <= usize::MAX),
        r matches Some(meta) ==> {
            &&& meta.cookie == cookie
            &&& meta.packet_len == total_len
            &&& meta.transport_offset == transport_offset
            &&& meta.payload_offset == header_len
        },
{
    if total_len > 0xffff_ffff || transport_offset > header_len || header_len > total_len
        || header_len > 0xffff || packet_offset > usize::MAX - total_len {
        return None;
    }
    Some(
        RxMeta {
            cookie,
            packet_len: total_len as u32,
            transport_offset: transport_offset as u16,
            payload_offset: header_len as u16,
        },
    )
}

/// A received packet: the buffer it is in, where the IPv4 packet starts in
/// that buffer, and what user space learns of it.
pub struct Rx<B> {
    pub buf: B,
    pub packet_offset: usize,
    pub meta: RxMeta,
}

/// The payload of `rx` starts within the packet, and the packet's end is
/// an offset the machine can hold.
pub open spec fn rx_ok<B>(rx: Rx<B>) -> bool {
    rx.meta.payload_offset <= rx.meta.packet_len && rx.packet_offset + rx.meta.packet_len
        <= usize::MAX
}

/// The outcome of subscribing to a network.
pub enum Subscription<E> {
    /// Packets are already waiting: notify the subscriber now.
    NotifyNow(E),
    /// The subscriber waits for the next packet.
    Waiting,
}

/// The outcome of handing a received packet to a network.
pub enum Enqueued<B, E> {
    /// The queue had no room: give the packet's buffer back to the driver.
    Dropped(Rx<B>),
    /// The packet is queued; notify the subscriber, if one was waiting.
    Queued(Option<E>),
}

/// The received packets of a network that user space has not taken yet,
/// and the subscribers waiting for one. A packet being looked at stays
/// `peeked` until user space takes or drops it.
pub struct Network<B, E> {
    rx_queue: VecDeque<Rx<B>>,
    peeked: Option<Rx<B>>,
    emitters: VecDeque<E>,
}

impl<B, E> Network<B, E> {
    /// The packet user space is looking at, if any.
    pub closed spec fn peeked(&self) -> Option<Rx<B>> {
        self.peeked
    }

    /// The packets behind it, oldest first.
    pub closed spec fn queued(&self) -> Seq<Rx<B>> {
        self.rx_queue@
    }

    /// The subscribers waiting for a packet, in the order they came.
    pub closed spec fn waiting(&self) -> Seq<E> {
        self.emitters@
    }

    /// Every packet not taken yet, oldest first.
    pub open spec fn pending(&self) -> Seq<Rx<B>> {
        match self.peeked() {
            Some(rx) => seq![rx] + self.queued(),
            None => self.queued(),
        }
    }

    /// No more than `MAX_RX_QUEUE_DEPTH` packets are queued, and each one
    /// not taken yet is well formed.
    pub open spec fn wf(&self) -> bool {
        &&& self.queued().len() <= MAX_RX_QUEUE_DEPTH
        &&& forall|i: int| 0 <= i < self.pending().len() ==> rx_ok(#[trigger] self.pending()[i])
    }

    pub fn new() -> (r: Self)
        ensures
            r.wf(),
            r.peeked() is None,
            r.queued() == Seq::<Rx<B>>::empty(),
            r.waiting() == Seq::<E>::empty(),
    {
        Self { rx_queue: VecDeque::new(), peeked: None, emitters: VecDeque::new() }
    }

    /// Subscribes `emitter` to the arrival of packets.
    pub fn subscribe(&mut self, emitter: E) -> (r: Result<Subscription<E>, ErrorCode>)
        requires
            old(self).wf(),
        ensures
            final(self).wf(),
            final(self).peeked() == old(self).peeked(),
            final(self).queued() == old(self).queued(),
            old(self).pending().len() > 0 ==> r == Ok::<Subscription<E>, ErrorCode>(
                Subscription::NotifyNow(emitter),
            ) && final(self).waiting() == old(self).waiting(),
            old(self).pending().len() == 0 ==> match r {
                Ok(Subscription::Waiting) => final(self).waiting() == old(self).waiting().push(
                    emitter,
                ),
                Err(e) => e == ErrorCode::OutOfMemory && final(self).waiting() == old(
                    self,
                ).waiting(),
                Ok(Subscription::NotifyNow(_)) => false,
            },
    {
        if self.peeked.is_some() || self.rx_queue.len() > 0 {
            return Ok(Subscription::NotifyNow(emitter));
        }
        if deque_try_reserve(&mut self.emitters, 1).is_err() {
            return Err(ErrorCode::OutOfMemory);
        }
        self.emitters.push_back(emitter);
        Ok(Subscription::Waiting)
    }

    /// Queues a received packet, unless the queue is full or memory runs
    /// out; the first waiting subscriber, if any, is to be notified.
    pub fn enqueue_rx(&mut self, rx: Rx<B>) -> (r: Enqueued<B, E>)
        requires
            old(self).wf(),
            rx_ok(rx),
        ensures
            final(self).wf(),
            final(self).peeked() == old(self).peeked(),
            old(self).queued().len() >= MAX_RX_QUEUE_DEPTH ==> r == Enqueued::<B, E>::Dropped(rx),
            match r {
                Enqueued::Dropped(back) => back == rx && final(self).queued() == old(self).queued()
                    && final(self).waiting() == old(self).waiting(),
                Enqueued::Queued(notify) => {
                    &&& final(self).queued() == old(self).queued().push(rx)
                    &&& final(self).pending() == old(self).pending().push(rx)
                    &&& if old(self).waiting().len() == 0 {
                        notify is None && final(self).waiting() == old(self).waiting()
                    } else {
                        notify == Some(old(self).waiting()[0]) && final(self).waiting() == old(
                            self,
                        ).waiting().drop_first()
                    }
                },
            },
    {
        if self.rx_queue.len() >= MAX_RX_QUEUE_DEPTH {
            return Enqueued::Dropped(rx);
        }
        let reserved = deque_try_reserve(&mut self.rx_queue, 1);
        proof {
            assert(self.pending() =~= old(self).pending());
        }
        if reserved.is_err() {
            return Enqueued::Dropped(rx);
        }
        self.rx_queue.push_back(rx);
        let notify = self.emitters.pop_front();
        proof {
            assert(self.pending() =~= old(self).pending().push(rx));
            if old(self).waiting().len() > 0 {
                assert(self.waiting() =~= old(self).waiting().drop_first());
            }
        }
        Enqueued::Queued(notify)
    }

    /// Looks at the oldest packet not taken yet, moving it out of the queue
    /// if nothing was being looked at. Returns its metadata and the range
    /// of its buffer that holds its headers, which must fit in
    /// `header_capacity` bytes.
    pub fn peek(&mut self, header_capacity: usize) -> (r: Result<(RxMeta, usize, usize), ErrorCode>)
        requires
            old(self).wf(),
        ensures
            final(self).wf(),
            final(self).pending() == old(self).pending(),
            final(self).waiting() == old(self).waiting(),
            final(self).peeked() == (if old(self).pending().len() > 0 {
                Some(old(self).pending()[0])
            } else {
                None
            }),
            match final(self).peeked() {
                None => r == Err::<(RxMeta, usize, usize), ErrorCode>(ErrorCode::Empty),
                Some(rx) => if header_capacity < rx.meta.payload_offset {
                    r == Err::<(RxMeta, usize, usize), ErrorCode>(ErrorCode::OutOfBounds)
                } else {
                    r == Ok::<(RxMeta, usize, usize), ErrorCode>(
                        (
                            rx.meta,
                            rx.packet_offset,
                            (rx.packet_offset + rx.meta.payload_offset) as usize,
                        ),
                    )
                },
            },
    {
        if self.peeked.is_none() {
            self.peeked = self.rx_queue.pop_front();
            proof {
                if old(self).queued().len() > 0 {
                    assert(self.pending() =~= old(self).pending());
                }
            }
        }
        match &self.peeked {
            None => Err(ErrorCode::Empty),
            Some(rx) => {
                proof {
                    assert(rx_ok(self.pending()[0]));
                }
                let header_len = rx.meta.payload_offset as usize;
                if header_capacity < header_len {
                    return Err(ErrorCode::OutOfBounds);
                }
                let start = rx.packet_offset;
                Ok((rx.meta, start, start + header_len))
            },
        }
    }

    /// The range of the looked-at packet's buffer that holds its payload,
    /// which must be exactly `payload_capacity` bytes.
    pub fn recv_range(&self, payload_capacity: usize) -> (r: Result<(usize, usize), ErrorCode>)
        requires
            self.wf(),
        ensures
            match self.peeked() {
                None => r == Err::<(usize, usize), ErrorCode>(ErrorCode::Empty),
                Some(rx) => if payload_capacity != rx.meta.packet_len - rx.meta.payload_offset {
                    r == Err::<(usize, usize), ErrorCode>(ErrorCode::OutOfBounds)
                } else {
                    r == Ok::<(usize, usize), ErrorCode>(
                        (
                            (rx.packet_offset + rx.meta.payload_offset) as usize,
                            (rx.packet_offset + rx.meta.packet_len) as usize,
                        ),
                    )
                },
            },
    {
        match &self.peeked {
            None => Err(ErrorCode::Empty),
            Some(rx) => {
                proof {
                    assert(rx_ok(self.pending()[0]));
                }
                let payload_len = rx.meta.packet_len as usize - rx.meta.payload_offset as usize;
                if payload_capacity != payload_len {
                    return Err(ErrorCode::OutOfBounds);
                }
                let start = rx.packet_offset + rx.meta.payload_offset as usize;
                Ok((start, start + payload_len))
            },
        }
    }

    /// The packet user space is looking at, if any, to copy from.
    pub fn peeked_rx(&self) -> (r: Option<&Rx<B>>)
        ensures
            match r {
                Some(rx) => self.peeked() == Some(*rx),
                None => self.peeked() is None,
            },
    {
        self.peeked.as_ref()
    }

    /// Takes the looked-at packet away, to give its buffer back.
    pub fn drop_rx(&mut self) -> (r: Result<Rx<B>, ErrorCode>)
        requires
            old(self).wf(),
        ensures
            final(self).wf(),
            final(self).queued() == old(self).queued(),
            final(self).waiting() == old(self).waiting(),
            match old(self).peeked() {
                None => r == Err::<Rx<B>, ErrorCode>(ErrorCode::Empty) && final(self).peeked()
                    is None,
                Some(rx) => r == Ok::<Rx<B>, ErrorCode>(rx) && final(self).peeked() is None
                    && final(self).pending() == old(self).pending().drop_first(),
            },
    {
        match self.peeked.take() {
            None => Err(ErrorCode::Empty),
            Some(rx) => {
                proof {
                    assert(self.pending() =~= old(self).pending().drop_first());
                }
                Ok(rx)
            },
        }
    }
}

/// The bindings of a network: which packets it takes (a selector `S`), each
/// with the cookie that user space gave it.
pub struct Bindings<S> {
    bindings: Vec<(S, u64)>,
}

impl<S> Bindings<S> {
    /// The bindings, in the order they were made.
    pub closed spec fn entries(&self) -> Seq<(S, u64)> {
        self.bindings@
    }

    pub fn new() -> (r: Self)
        ensures
            r.entries() == Seq::<(S, u64)>::empty(),
    {
        Self { bindings: Vec::new() }
    }

    /// The bindings, in the order they were made.
    pub fn as_slice(&self) -> (r: &[(S, u64)])
        ensures
            r@ == self.entries(),
    {
        self.bindings.as_slice()
    }

    /// Binds `selector` with `cookie`. A selector must be `supported`, and
    /// none already bound may be the same (`same` tells, for each bound
    /// selector, whether it is); when memory runs out nothing changes.
    pub fn bind<F: Fn(&S) -> bool>(&mut self, selector: S, cookie: u64, supported: bool, same: F) -> (r:
        Result<(), ErrorCode>)
        requires
            forall|s: &S| #[trigger] call_requires(same, (s,)),
        ensures
            !supported ==> r == Err::<(), ErrorCode>(ErrorCode::InvalidArg) && final(self).entries()
                == old(self).entries(),
            supported ==> match r {
                Err(ErrorCode::AlreadyExists) => final(self).entries() == old(self).entries()
                    && exists|i: int|
                    0 <= i < old(self).entries().len() && call_ensures(
                        same,
                        (&(#[trigger] old(self).entries()[i]).0,),
                        true,
                    ),
                Err(e) => e == ErrorCode::OutOfMemory && final(self).entries() == old(
                    self,
                ).entries(),
                Ok(()) => final(self).entries() == old(self).entries().push((selector, cookie))
                    && forall|i: int|
                    0 <= i < old(self).entries().len() ==> call_ensures(
                        same,
                        (&(#[trigger] old(self).entries()[i]).0,),
                        false,
                    ),
            },
    {
        if !supported {
            return Err(ErrorCode::InvalidArg);
        }
        let mut i: usize = 0;
        while i < self.bindings.len()
            invariant
                i <= self.bindings@.len(),
                self.bindings@ == old(self).bindings@,
                supported,
                forall|s: &S| #[trigger] call_requires(same, (s,)),
                forall|k: int|
                    0 <= k < i ==> call_ensures(same, (&(#[trigger] self.bindings@[k]).0,), false),
            decreases self.bindings@.len() - i,
        {
            if same(&self.bindings[i].0) {
                proof {
                    assert(call_ensures(same, (&old(self).entries()[i as int].0,), true));
                }
                return Err(ErrorCode::AlreadyExists);
            }
            i += 1;
        }
        let reserved = self.bindings.try_reserve(1).is_ok();
        self.push_reserved(reserved, selector, cookie)
    }

    /// Records the binding of `selector` with `cookie` once room for one
    /// more was asked for: when the room was granted (`reserved`), the
    /// binding is added after those already there, however many there
    /// are; when it was not, this fails with `OutOfMemory` and nothing
    /// changes.
    pub fn push_reserved(&mut self, reserved: bool, selector: S, cookie: u64) -> (r: Result<
        (),
        ErrorCode,
    >)
        ensures
            reserved ==> r is Ok && final(self).entries() == old(self).entries().push(
                (selector, cookie),
            ),
            !reserved ==> r == Err::<(), ErrorCode>(ErrorCode::OutOfMemory) && final(self).entries()
                == old(self).entries(),
    {
        if !reserved {
            return Err(ErrorCode::OutOfMemory);
        }
        self.bindings.push((selector, cookie));
        Ok(())
    }

    /// Removes the first binding whose selector is the one meant (`same`
    /// tells, for each); an error when there is none.
    pub fn unbind<F: Fn(&S) -> bool>(&mut self, same: F) -> (r: Result<(), ErrorCode>)
        requires
            forall|s: &S| #[trigger] call_requires(same, (s,)),
        ensures
            match r {
                Ok(()) => exists|i: int|
                    0 <= i < old(self).entries().len() && call_ensures(
                        same,
                        (&(#[trigger] old(self).entries()[i]).0,),
                        true,
                    ) && final(self).entries() == old(self).entries().remove(i) && forall|k: int|
                        0 <= k < i ==> call_ensures(
                            same,
                            (&(#[trigger] old(self).entries()[k]).0,),
                            false,
                        ),
                Err(e) => e == ErrorCode::InvalidArg && final(self).entries() == old(
                    self,
                ).entries() && forall|k: int|
                    0 <= k < old(self).entries().len() ==> call_ensures(
                        same,
                        (&(#[trigger] old(self).entries()[k]).0,),
                        false,
                    ),
            },
    {
        let mut i: usize = 0;
        while i < self.bindings.len()
            invariant
                i <= self.bindings@.len(),
                self.bindings@ == old(self).bindings@,
                forall|s: &S| #[trigger] call_requires(same, (s,)),
                forall|k: int|
                    0 <= k < i ==> call_ensures(same, (&(#[trigger] self.bindings@[k]).0,), false),
            decreases self.bindings@.len() - i,
        {
            if same(&self.bindings[i].0) {
                proof {
                    assert(call_ensures(same, (&old(self).entries()[i as int].0,), true));
                }
                self.bindings.remove(i);
                return Ok(());
            }
            i += 1;
        }
        Err(ErrorCode::InvalidArg)
    }
}

} // verus!
