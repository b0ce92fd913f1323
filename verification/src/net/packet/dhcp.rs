//! DHCP (RFC 2131) messages: the fixed BOOTP header and the options that
//! follow it.
//!
//! Layout: op 0, hardware type 1, hardware address length 2, hops 3,
//! transaction id 4..8, seconds 8..10, flags 10..12, client IP 12..16,
//! your IP 16..20, server IP 20..24, gateway IP 24..28, client hardware
//! address 28..44, server name 44..108, boot file 108..236, magic cookie
//! 236..240, options from 240 on.
use vstd::prelude::*;

use super::ipv4::Ipv4Addr;
use super::read_array;
use super::read_u32;
use super::wire::be32;
use super::wire::put16;
use super::wire::put32;
use super::wire::splice;
use super::write_array;
use super::write_u16;
use super::write_u32;

verus! {

pub const DHCP_CLIENT_PORT: u16 = 68;
pub const DHCP_SERVER_PORT: u16 = 67;

pub const DHCP_OP_REQUEST: u8 = 1;
pub const DHCP_OP_REPLY: u8 = 2;
pub const DHCP_HW_ETHERNET: u8 = 1;
pub const DHCP_ETHERNET_ADDR_LEN: u8 = 6;
pub const DHCP_BROADCAST: u16 = 0x8000;

pub const DHCP_DISCOVER: u8 = 1;
pub const DHCP_OFFER: u8 = 2;
pub const DHCP_REQUEST: u8 = 3;
pub const DHCP_ACK: u8 = 5;
pub const DHCP_NAK: u8 = 6;

pub const OPTION_SUBNET_MASK: u8 = 1;
pub const OPTION_ROUTER: u8 = 3;
pub const OPTION_REQUESTED_IP: u8 = 50;
pub const OPTION_MESSAGE_TYPE: u8 = 53;
pub const OPTION_SERVER_ID: u8 = 54;
pub const OPTION_PARAM_REQUEST_LIST: u8 = 55;
pub const OPTION_PAD: u8 = 0;
pub const OPTION_END: u8 = 255;

pub const MAGIC_COOKIE: u32 = 0x6382_5363;

pub const DHCP_HEADER_LEN: usize = 240;

#[derive(Debug, PartialEq, Eq, Structural)]
pub enum Error {
    TooShort,
    UnsupportedPacket,
    InvalidMagicCookie,
    MalformedOptions,
    OptionsFull,
}

/// Why a DHCP message cannot be inspected, if it cannot: only replies from
/// a server for Ethernet clients, with the magic cookie, are accepted.
pub open spec fn header_error(s: Seq<u8>) -> Option<Error> {
    if s.len() < 240 {
        Some(Error::TooShort)
    } else if s[0] != DHCP_OP_REPLY || s[1] != DHCP_HW_ETHERNET || s[2]
        != DHCP_ETHERNET_ADDR_LEN {
        Some(Error::UnsupportedPacket)
    } else if be32(s, 236) != MAGIC_COOKIE {
        Some(Error::InvalidMagicCookie)
    } else {
        None
    }
}

/// Where the value of the first option `wanted` lies in the option bytes
/// `opts`, scanning from `off`: pad bytes are skipped, an end option stops
/// the scan, and every other option is a code, a length byte and that many
/// value bytes. An option that runs past the end is malformed.
pub open spec fn scan_options(opts: Seq<u8>, wanted: u8, off: int) -> Result<
    Option<(int, int)>,
    Error,
>
    decreases opts.len() - off,
{
    if off < 0 || off >= opts.len() {
        Ok(None)
    } else if opts[off] == OPTION_PAD {
        scan_options(opts, wanted, off + 1)
    } else if opts[off] == OPTION_END {
        Ok(None)
    } else if off + 1 >= opts.len() {
        Err(Error::MalformedOptions)
    } else if off + 2 + opts[off + 1] > opts.len() {
        Err(Error::MalformedOptions)
    } else if opts[off] == wanted {
        Ok(Some((off + 2, off + 2 + opts[off + 1])))
    } else {
        scan_options(opts, wanted, off + 2 + opts[off + 1])
    }
}

/// The value of option `wanted` in the message `s`, if any.
pub open spec fn option_value(s: Seq<u8>, wanted: u8) -> Result<Option<Seq<u8>>, Error> {
    let opts = s.skip(240);
    match scan_options(opts, wanted, 0) {
        Ok(Some((start, end))) => Ok(Some(opts.subrange(start, end))),
        Ok(None) => Ok(None),
        Err(e) => Err(e),
    }
}

/// The message type that option 53 states, if it holds exactly one byte.
pub open spec fn message_type_of(s: Seq<u8>) -> Result<Option<u8>, Error> {
    match option_value(s, OPTION_MESSAGE_TYPE) {
        Ok(Some(v)) => if v.len() == 1 {
            Ok(Some(v[0]))
        } else {
            Ok(None)
        },
        Ok(None) => Ok(None),
        Err(e) => Err(e),
    }
}

/// The address that the first four bytes of option `code` hold, if it has
/// at least four.
pub open spec fn ipv4_option_of(s: Seq<u8>, code: u8) -> Result<Option<u32>, Error> {
    match option_value(s, code) {
        Ok(Some(v)) => if v.len() >= 4 {
            Ok(Some(be32(v, 0) as u32))
        } else {
            Ok(None)
        },
        Ok(None) => Ok(None),
        Err(e) => Err(e),
    }
}

pub struct DhcpInspector<'a> {
    buf: &'a [u8],
}

impl<'a> DhcpInspector<'a> {
    #[verifier::type_invariant]
    spec fn well_formed(self) -> bool {
        header_error(self.buf@) is None
    }

    /// The bytes of the message.
    pub closed spec fn bytes(self) -> Seq<u8> {
        self.buf@
    }

    pub fn new(buf: &'a [u8]) -> (r: Result<Self, Error>)
        ensures
            match header_error(buf@) {
                Some(e) => r == Err::<Self, Error>(e),
                None => r matches Ok(dhcp) && dhcp.bytes() == buf@,
            },
    {
        if buf.len() < DHCP_HEADER_LEN {
            return Err(Error::TooShort);
        }
        if buf[0] != DHCP_OP_REPLY || buf[1] != DHCP_HW_ETHERNET || buf[2]
            != DHCP_ETHERNET_ADDR_LEN {
            return Err(Error::UnsupportedPacket);
        }
        if read_u32(buf, 236) != MAGIC_COOKIE {
            return Err(Error::InvalidMagicCookie);
        }
        Ok(Self { buf })
    }

    pub fn op(&self) -> (r: u8)
        ensures
            r == self.bytes()[0],
    {
        proof {
            use_type_invariant(self);
        }
        self.buf[0]
    }

    pub fn hw_type(&self) -> (r: u8)
        ensures
            r == self.bytes()[1],
    {
        proof {
            use_type_invariant(self);
        }
        self.buf[1]
    }

    pub fn hwaddr_len(&self) -> (r: u8)
        ensures
            r == self.bytes()[2],
    {
        proof {
            use_type_invariant(self);
        }
        self.buf[2]
    }

    pub fn tx_id(&self) -> (r: u32)
        ensures
            r == be32(self.bytes(), 4),
    {
        proof {
            use_type_invariant(self);
        }
        read_u32(self.buf, 4)
    }

    pub fn your_ip(&self) -> (r: Ipv4Addr)
        ensures
            r@ == be32(self.bytes(), 16),
    {
        proof {
            use_type_invariant(self);
        }
        Ipv4Addr::new(read_u32(self.buf, 16))
    }

    /// The first six bytes of the client hardware address field.
    pub fn client_hwaddr(&self) -> (r: [u8; 6])
        ensures
            r@ == self.bytes().subrange(28, 34),
    {
        proof {
            use_type_invariant(self);
        }
        read_array(self.buf, 28)
    }

    /// The value of the first option `wanted`.
    pub fn option(&self, wanted: u8) -> (r: Result<Option<&'a [u8]>, Error>)
        ensures
            match option_value(self.bytes(), wanted) {
                Ok(Some(v)) => r matches Ok(Some(value)) && value@ == v,
                Ok(None) => r matches Ok(None),
                Err(e) => r == Err::<Option<&'a [u8]>, Error>(e),
            },
    {
        proof {
            use_type_invariant(self);
        }
        let options = &self.buf[DHCP_HEADER_LEN..self.buf.len()];
        let ghost opts = options@;
        assert(opts == self.bytes().skip(240));
        let mut offset: usize = 0;
        while offset < options.len()
            invariant
                opts == options@,
                opts == self.bytes().skip(240),
                offset <= opts.len(),
                scan_options(opts, wanted, offset as int) == scan_options(opts, wanted, 0),
            decreases options.len() - offset,
        {
            let ghost here = offset as int;
            assert(scan_options(opts, wanted, here) == if opts[here] == OPTION_PAD {
                scan_options(opts, wanted, here + 1)
            } else if opts[here] == OPTION_END {
                Ok(None)
            } else if here + 1 >= opts.len() {
                Err(Error::MalformedOptions)
            } else if here + 2 + opts[here + 1] > opts.len() {
                Err(Error::MalformedOptions)
            } else if opts[here] == wanted {
                Ok(Some((here + 2, here + 2 + opts[here + 1])))
            } else {
                scan_options(opts, wanted, here + 2 + opts[here + 1])
            });
            let code = options[offset];
            offset += 1;
            if code == OPTION_PAD {
                continue;
            }
            if code == OPTION_END {
                return Ok(None);
            }
            if offset >= options.len() {
                return Err(Error::MalformedOptions);
            }
            let len = options[offset] as usize;
            offset += 1;
            if len > options.len() - offset {
                return Err(Error::MalformedOptions);
            }
            let end = offset + len;
            if code == wanted {
                return Ok(Some(&options[offset..end]));
            }
            offset = end;
        }
        Ok(None)
    }

    /// The message type, if option 53 is present with a one-byte value.
    pub fn message_type(&self) -> (r: Result<Option<u8>, Error>)
        ensures
            r == message_type_of(self.bytes()),
    {
        if let Some(value) = self.option(OPTION_MESSAGE_TYPE)? {
            if value.len() == 1 {
                return Ok(Some(value[0]));
            }
        }
        Ok(None)
    }

    /// The address in option `code`, if present with at least four bytes.
    pub fn ipv4_option(&self, code: u8) -> (r: Result<Option<Ipv4Addr>, Error>)
        ensures
            match ipv4_option_of(self.bytes(), code) {
                Ok(Some(v)) => r matches Ok(Some(ip)) && ip@ == v,
                Ok(None) => r matches Ok(None),
                Err(e) => r == Err::<Option<Ipv4Addr>, Error>(e),
            },
    {
        if let Some(value) = self.option(code)? {
            if value.len() >= 4 {
                let ip = read_u32(value, 0);
                return Ok(Some(Ipv4Addr::new(ip)));
            }
        }
        Ok(None)
    }
}

pub struct DhcpRewriter<'a> {
    pub buf: &'a mut [u8],
    pub options_offset: usize,
    /// The options written so far, in order.
    pub written: Ghost<Seq<(u8, Seq<u8>)>>,
}

/// A message buffer of `len` bytes as the rewriter starts it: all zero but
/// the magic cookie.
pub open spec fn fresh_message(len: nat) -> Seq<u8> {
    put32(Seq::new(len, |i: int| 0u8), 236, MAGIC_COOKIE as int)
}

impl<'a> DhcpRewriter<'a> {
    /// The options written so far lie, encoded, between the fixed header
    /// and `options_offset`, within the buffer.
    pub open spec fn wf(&self) -> bool {
        &&& DHCP_HEADER_LEN <= self.options_offset <= self.buf@.len()
        &&& self.options_offset == DHCP_HEADER_LEN + encode_options(self.written@).len()
        &&& self.buf@.subrange(DHCP_HEADER_LEN as int, self.options_offset as int)
            == encode_options(self.written@)
    }

    /// Clears the buffer and writes the magic cookie; options are written
    /// after the fixed header.
    pub fn new(buf: &'a mut [u8]) -> (r: Result<Self, Error>)
        ensures
            old(buf)@.len() < 240 ==> r == Err::<Self, Error>(Error::TooShort) && final(buf)@
                == old(buf)@,
            old(buf)@.len() >= 240 ==> (r matches Ok(w) && w.wf() && w.buf@ == fresh_message(
                old(buf)@.len(),
            ) && w.options_offset == DHCP_HEADER_LEN && w.written@ == Seq::<(u8, Seq<u8>)>::empty()
                && final(buf)@ == final(w.buf)@),
    {
        if buf.len() < DHCP_HEADER_LEN {
            return Err(Error::TooShort);
        }
        let mut i: usize = 0;
        while i < buf.len()
            invariant
                i <= buf@.len(),
                buf@.len() == old(buf)@.len(),
                forall|j: int| 0 <= j < i ==> buf@[j] == 0u8,
            decreases buf.len() - i,
        {
            buf[i] = 0;
            i += 1;
        }
        assert(buf@ =~= Seq::new(buf@.len(), |i: int| 0u8));
        write_u32(buf, 236, MAGIC_COOKIE);
        let w = Self { buf, options_offset: DHCP_HEADER_LEN, written: Ghost(Seq::empty()) };
        assert(w.buf@.subrange(240, 240) =~= encode_options(Seq::<(u8, Seq<u8>)>::empty()));
        Ok(w)
    }

    pub fn set_op(&mut self, op: u8)
        requires
            old(self).wf(),
        ensures
            final(self).wf(),
            final(self).buf@ == old(self).buf@.update(0, op),
            final(self).written == old(self).written,
            final(self).options_offset == old(self).options_offset,
            final(final(self).buf)@ == final(old(self).buf)@,
    {
        self.buf[0] = op;
        assert(self.buf@.subrange(240, self.options_offset as int) =~= old(self).buf@.subrange(
            240,
            self.options_offset as int,
        ));
    }

    pub fn set_hw_type(&mut self, hardware_type: u8)
        requires
            old(self).wf(),
        ensures
            final(self).wf(),
            final(self).buf@ == old(self).buf@.update(1, hardware_type),
            final(self).written == old(self).written,
            final(self).options_offset == old(self).options_offset,
            final(final(self).buf)@ == final(old(self).buf)@,
    {
        self.buf[1] = hardware_type;
        assert(self.buf@.subrange(240, self.options_offset as int) =~= old(self).buf@.subrange(
            240,
            self.options_offset as int,
        ));
    }

    pub fn set_hwaddr_len(&mut self, len: u8)
        requires
            old(self).wf(),
        ensures
            final(self).wf(),
            final(self).buf@ == old(self).buf@.update(2, len),
            final(self).written == old(self).written,
            final(self).options_offset == old(self).options_offset,
            final(final(self).buf)@ == final(old(self).buf)@,
    {
        self.buf[2] = len;
        assert(self.buf@.subrange(240, self.options_offset as int) =~= old(self).buf@.subrange(
            240,
            self.options_offset as int,
        ));
    }

    pub fn set_tx_id(&mut self, tx_id: u32)
        requires
            old(self).wf(),
        ensures
            final(self).wf(),
            final(self).buf@ == put32(old(self).buf@, 4, tx_id as int),
            final(self).written == old(self).written,
            final(self).options_offset == old(self).options_offset,
            final(final(self).buf)@ == final(old(self).buf)@,
    {
        write_u32(self.buf, 4, tx_id);
        assert(self.buf@.subrange(240, self.options_offset as int) =~= old(self).buf@.subrange(
            240,
            self.options_offset as int,
        ));
    }

    pub fn set_flags(&mut self, flags: u16)
        requires
            old(self).wf(),
        ensures
            final(self).wf(),
            final(self).buf@ == put16(old(self).buf@, 10, flags as int),
            final(self).written == old(self).written,
            final(self).options_offset == old(self).options_offset,
            final(final(self).buf)@ == final(old(self).buf)@,
    {
        write_u16(self.buf, 10, flags);
        assert(self.buf@.subrange(240, self.options_offset as int) =~= old(self).buf@.subrange(
            240,
            self.options_offset as int,
        ));
    }

    pub fn set_client_hwaddr(&mut self, mac: [u8; 6])
        requires
            old(self).wf(),
        ensures
            final(self).wf(),
            final(self).buf@ == splice(old(self).buf@, 28, mac@),
            final(self).written == old(self).written,
            final(self).options_offset == old(self).options_offset,
            final(final(self).buf)@ == final(old(self).buf)@,
    {
        write_array(self.buf, 28, mac);
        assert(self.buf@.subrange(240, self.options_offset as int) =~= old(self).buf@.subrange(
            240,
            self.options_offset as int,
        ));
    }

    /// Appends option `code` with `value`; there must stay room for the end
    /// option after it.
    pub fn write_option(&mut self, code: u8, value: &[u8]) -> (r: Result<(), Error>)
        requires
            old(self).wf(),
        ensures
            final(self).wf(),
            final(final(self).buf)@ == final(old(self).buf)@,
            (value@.len() > 255 || old(self).options_offset + 2 + value@.len() >= old(
                self,
            ).buf@.len()) ==> r == Err::<(), Error>(Error::OptionsFull) && final(self).buf@
                == old(self).buf@ && final(self).options_offset == old(self).options_offset
                && final(self).written == old(self).written,
            !(value@.len() > 255 || old(self).options_offset + 2 + value@.len() >= old(
                self,
            ).buf@.len()) ==> r is Ok && final(self).buf@ == splice(
                old(self).buf@,
                old(self).options_offset as int,
                seq![code, value@.len() as u8] + value@,
            ) && final(self).options_offset == old(self).options_offset + 2 + value@.len()
                && final(self).written@ == old(self).written@.push((code, value@)),
    {
        if value.len() > 255 || value.len() + 2 >= self.buf.len() - self.options_offset {
            return Err(Error::OptionsFull);
        }
        let ghost start = self.buf@;
        let offset = self.options_offset;
        self.buf[offset] = code;
        self.buf[offset + 1] = value.len() as u8;
        let begin = offset + 2;
        let mut i: usize = 0;
        while i < value.len()
            invariant
                self.written == old(self).written,
                start == old(self).buf@,
                offset == old(self).options_offset,
                old(self).wf(),
                begin == offset + 2,
                begin + value.len() < self.buf.len(),
                value@.len() <= 255,
                final(self.buf)@ == final(old(self).buf)@,
                self.buf@ == splice(
                    start,
                    offset as int,
                    seq![code, value@.len() as u8] + value@.take(i as int),
                ),
                i <= value@.len(),
            decreases value.len() - i,
        {
            self.buf[begin + i] = value[i];
            i += 1;
            assert(self.buf@ =~= splice(
                start,
                offset as int,
                seq![code, value@.len() as u8] + value@.take(i as int),
            ));
        }
        assert(value@.take(value@.len() as int) =~= value@);
        self.options_offset = begin + value.len();
        proof {
            let old_written = self.written@;
            lemma_encode_push(old_written, code, value@);
            self.written = Ghost(old_written.push((code, value@)));
            assert(self.buf@.subrange(240, self.options_offset as int) =~= encode_options(
                old_written,
            ) + encode_option(code, value@)) by {
                assert(start.subrange(240, offset as int) == encode_options(old_written));
            }
        }
        Ok(())
    }

    /// Writes the end option after the options written so far.
    pub fn finish(&mut self) -> (r: Result<(), Error>)
        requires
            old(self).wf(),
        ensures
            final(self).wf(),
            final(self).options_offset == old(self).options_offset,
            final(final(self).buf)@ == final(old(self).buf)@,
            old(self).options_offset >= old(self).buf@.len() ==> r == Err::<(), Error>(
                Error::OptionsFull,
            ) && final(self).buf@ == old(self).buf@,
            old(self).options_offset < old(self).buf@.len() ==> r is Ok && final(self).buf@
                == old(self).buf@.update(old(self).options_offset as int, OPTION_END),
            final(self).written == old(self).written,
            old(self).options_offset < old(self).buf@.len() && plain_options(old(self).written@)
                ==> forall|code: u8|
                code != OPTION_PAD && code != OPTION_END ==> #[trigger] option_value(
                    final(self).buf@,
                    code,
                ) == Ok::<Option<Seq<u8>>, Error>(first_option(old(self).written@, code)),
    {
        if self.options_offset >= self.buf.len() {
            return Err(Error::OptionsFull);
        }
        let offset = self.options_offset;
        self.buf[offset] = OPTION_END;
        proof {
            let enc = encode_options(self.written@);
            assert(self.buf@.subrange(240, offset as int) =~= old(self).buf@.subrange(
                240,
                offset as int,
            ));
            if plain_options(self.written@) {
                assert forall|code: u8| code != OPTION_PAD && code != OPTION_END implies #[trigger] option_value(
                    self.buf@,
                    code,
                ) == Ok::<Option<Seq<u8>>, Error>(first_option(self.written@, code)) by {
                    law_options_read_back(self.buf@, self.written@, code);
                }
            }
        }
        Ok(())
    }
}

/// One option as it is written: its code, its length and its value.
pub open spec fn encode_option(code: u8, value: Seq<u8>) -> Seq<u8> {
    seq![code, value.len() as u8] + value
}

/// The bytes of the options `opts`, (code, value) pairs, written one after
/// another.
pub open spec fn encode_options(opts: Seq<(u8, Seq<u8>)>) -> Seq<u8>
    decreases opts.len(),
{
    if opts.len() == 0 {
        Seq::empty()
    } else {
        encode_option(opts[0].0, opts[0].1) + encode_options(opts.skip(1))
    }
}

/// The value of the first option of `opts` with code `wanted`, if any.
pub open spec fn first_option(opts: Seq<(u8, Seq<u8>)>, wanted: u8) -> Option<Seq<u8>>
    decreases opts.len(),
{
    if opts.len() == 0 {
        None
    } else if opts[0].0 == wanted {
        Some(opts[0].1)
    } else {
        first_option(opts.skip(1), wanted)
    }
}

/// Options that `write_option` writes as themselves: no pad or end code,
/// and values of at most 255 bytes.
pub open spec fn plain_options(opts: Seq<(u8, Seq<u8>)>) -> bool {
    forall|i: int|
        0 <= i < opts.len() ==> #[trigger] opts[i].0 != OPTION_PAD && opts[i].0 != OPTION_END
            && opts[i].1.len() <= 255
}

proof fn lemma_encode_concat(a: Seq<(u8, Seq<u8>)>, b: Seq<(u8, Seq<u8>)>)
    ensures
        encode_options(a + b) == encode_options(a) + encode_options(b),
    decreases a.len(),
{
    if a.len() == 0 {
        assert(a + b =~= b);
        assert(encode_options(a) + encode_options(b) =~= encode_options(b));
    } else {
        assert((a + b).skip(1) =~= a.skip(1) + b);
        lemma_encode_concat(a.skip(1), b);
        assert(encode_options(a + b) =~= encode_options(a) + encode_options(b));
    }
}

proof fn lemma_scan_encoded(t: Seq<u8>, opts: Seq<(u8, Seq<u8>)>, wanted: u8, off: int)
    requires
        0 <= off,
        off + encode_options(opts).len() < t.len(),
        t.subrange(off, off + encode_options(opts).len()) == encode_options(opts),
        t[off + encode_options(opts).len()] == OPTION_END,
        plain_options(opts),
        wanted != OPTION_PAD,
        wanted != OPTION_END,
    ensures
        match scan_options(t, wanted, off) {
            Ok(Some((start, end))) => first_option(opts, wanted) == Some(t.subrange(start, end)),
            Ok(None) => first_option(opts, wanted) is None,
            Err(_) => false,
        },
    decreases opts.len(),
{
    if opts.len() > 0 {
        let code = opts[0].0;
        let value = opts[0].1;
        let item = encode_option(code, value);
        let rest = opts.skip(1);
        let enc = encode_options(opts);
        assert(opts[0].0 != OPTION_PAD && opts[0].0 != OPTION_END && opts[0].1.len() <= 255);
        assert(enc == item + encode_options(rest));
        assert(t[off] == enc[0]);
        assert(t[off + 1] == enc[1]);
        assert(t[off + 1] == value.len());
        let next = off + 2 + value.len();
        if code != wanted {
            assert(plain_options(rest)) by {
                assert forall|i: int| 0 <= i < rest.len() implies #[trigger] rest[i].0 != OPTION_PAD
                    && rest[i].0 != OPTION_END && rest[i].1.len() <= 255 by {
                    assert(rest[i] == opts[i + 1]);
                    assert(opts[i + 1].0 != OPTION_PAD && opts[i + 1].0 != OPTION_END && opts[i
                        + 1].1.len() <= 255);
                }
            }
            let er = encode_options(rest);
            assert forall|j: int| 0 <= j < er.len() implies t.subrange(next, next + er.len())[j]
                == er[j] by {
                assert(t.subrange(off, off + enc.len())[2 + value.len() + j] == enc[2
                    + value.len() + j]);
                assert(enc[2 + value.len() + j] == er[j]);
            }
            assert(t.subrange(next, next + er.len()) =~= er);
            lemma_scan_encoded(t, rest, wanted, next);
        } else {
            assert forall|j: int| 0 <= j < value.len() implies t.subrange(
                off + 2,
                off + 2 + value.len(),
            )[j] == value[j] by {
                assert(t.subrange(off, off + enc.len())[2 + j] == enc[2 + j]);
                assert(enc[2 + j] == item[2 + j]);
            }
            assert(t.subrange(off + 2, off + 2 + value.len()) =~= value);
        }
    }
}

/// Options written one after another and closed by the end option read
/// back: for every code but pad and end, the inspector finds the value of
/// the first option written with that code, and none when no option has it.
pub proof fn law_options_read_back(s: Seq<u8>, opts: Seq<(u8, Seq<u8>)>, wanted: u8)
    requires
        s.len() > DHCP_HEADER_LEN + encode_options(opts).len(),
        s.subrange(DHCP_HEADER_LEN as int, DHCP_HEADER_LEN + encode_options(opts).len())
            == encode_options(opts),
        s[DHCP_HEADER_LEN + encode_options(opts).len()] == OPTION_END,
        plain_options(opts),
        wanted != OPTION_PAD,
        wanted != OPTION_END,
    ensures
        option_value(s, wanted) == Ok::<Option<Seq<u8>>, Error>(first_option(opts, wanted)),
{
    let t = s.skip(DHCP_HEADER_LEN as int);
    let n = encode_options(opts).len();
    assert(t.subrange(0, n as int) =~= encode_options(opts));
    lemma_scan_encoded(t, opts, wanted, 0);
}

/// Writing options one after another, each at the offset where the ones
/// before it end (as `write_option` does), writes their encoding at the
/// start of the options area.
pub proof fn law_written_options_are_encoded(bufs: Seq<Seq<u8>>, opts: Seq<(u8, Seq<u8>)>)
    requires
        bufs.len() == opts.len() + 1,
        DHCP_HEADER_LEN + encode_options(opts).len() <= bufs[0].len(),
        forall|i: int|
            0 <= i < opts.len() ==> #[trigger] bufs[i + 1] == splice(
                bufs[i],
                DHCP_HEADER_LEN + encode_options(opts.take(i)).len(),
                encode_option(opts[i].0, opts[i].1),
            ),
    ensures
        bufs.last() == splice(bufs[0], DHCP_HEADER_LEN as int, encode_options(opts)),
{
    lemma_written_prefix(bufs, opts, opts.len() as int);
    assert(opts.take(opts.len() as int) =~= opts);
}

proof fn lemma_written_prefix(bufs: Seq<Seq<u8>>, opts: Seq<(u8, Seq<u8>)>, k: int)
    requires
        0 <= k <= opts.len(),
        bufs.len() == opts.len() + 1,
        DHCP_HEADER_LEN + encode_options(opts).len() <= bufs[0].len(),
        forall|i: int|
            0 <= i < opts.len() ==> #[trigger] bufs[i + 1] == splice(
                bufs[i],
                DHCP_HEADER_LEN + encode_options(opts.take(i)).len(),
                encode_option(opts[i].0, opts[i].1),
            ),
    ensures
        bufs[k] == splice(bufs[0], DHCP_HEADER_LEN as int, encode_options(opts.take(k))),
        DHCP_HEADER_LEN + encode_options(opts.take(k)).len() <= bufs[0].len(),
    decreases k,
{
    lemma_encode_concat(opts.take(k), opts.skip(k));
    assert(opts.take(k) + opts.skip(k) =~= opts);
    if k == 0 {
        assert(encode_options(opts.take(0)) =~= Seq::<u8>::empty()) by {
            assert(opts.take(0).len() == 0);
        }
        assert(splice(bufs[0], DHCP_HEADER_LEN as int, Seq::<u8>::empty()) =~= bufs[0]);
    } else {
        lemma_written_prefix(bufs, opts, k - 1);
        let before = opts.take(k - 1);
        let single = seq![opts[k - 1]];
        assert(opts.take(k) =~= before + single);
        lemma_encode_concat(before, single);
        assert(encode_options(single) =~= encode_option(opts[k - 1].0, opts[k - 1].1)) by {
            assert(single.skip(1).len() == 0);
            assert(encode_options(single.skip(1)) =~= Seq::<u8>::empty());
        }
        assert(bufs[k] == splice(
            bufs[k - 1],
            DHCP_HEADER_LEN + encode_options(before).len(),
            encode_option(opts[k - 1].0, opts[k - 1].1),
        ));
        super::wire::lemma_splice_adjacent(
            bufs[0],
            DHCP_HEADER_LEN as int,
            encode_options(before),
            encode_option(opts[k - 1].0, opts[k - 1].1),
        );
    }
}

/// A message whose options were written one after another by
/// `write_option` and closed by `finish` keeps its fixed header, and
/// inspection finds, for every code but pad and end, the value of the first
/// option written with that code, or none.
pub proof fn law_rewritten_options_read_back(
    bufs: Seq<Seq<u8>>,
    opts: Seq<(u8, Seq<u8>)>,
    wanted: u8,
)
    requires
        bufs.len() == opts.len() + 1,
        DHCP_HEADER_LEN + encode_options(opts).len() < bufs[0].len(),
        forall|i: int|
            0 <= i < opts.len() ==> #[trigger] bufs[i + 1] == splice(
                bufs[i],
                DHCP_HEADER_LEN + encode_options(opts.take(i)).len(),
                encode_option(opts[i].0, opts[i].1),
            ),
        plain_options(opts),
        wanted != OPTION_PAD,
        wanted != OPTION_END,
    ensures
        ({
            let message = bufs.last().update(
                DHCP_HEADER_LEN + encode_options(opts).len(),
                OPTION_END,
            );
            &&& message.take(DHCP_HEADER_LEN as int) == bufs[0].take(DHCP_HEADER_LEN as int)
            &&& header_error(message) == header_error(bufs[0])
            &&& option_value(message, wanted) == Ok::<Option<Seq<u8>>, Error>(
                first_option(opts, wanted),
            )
        }),
{
    let enc = encode_options(opts);
    law_written_options_are_encoded(bufs, opts);
    let message = bufs.last().update(DHCP_HEADER_LEN + enc.len(), OPTION_END);
    assert(message.take(DHCP_HEADER_LEN as int) =~= bufs[0].take(DHCP_HEADER_LEN as int));
    assert(message.subrange(DHCP_HEADER_LEN as int, DHCP_HEADER_LEN + enc.len()) =~= enc);
    assert(header_error(message) == header_error(bufs[0])) by {
        assert forall|i: int| 0 <= i < DHCP_HEADER_LEN implies message[i] == bufs[0][i] by {
            assert(message.take(DHCP_HEADER_LEN as int)[i] == bufs[0].take(
                DHCP_HEADER_LEN as int,
            )[i]);
        }
    }
    law_options_read_back(message, opts, wanted);
}

proof fn lemma_encode_push(opts: Seq<(u8, Seq<u8>)>, code: u8, value: Seq<u8>)
    ensures
        encode_options(opts.push((code, value))) == encode_options(opts) + encode_option(code, value),
{
    let single = seq![(code, value)];
    assert(opts.push((code, value)) =~= opts + single);
    lemma_encode_concat(opts, single);
    assert(single.skip(1).len() == 0);
    assert(encode_options(single.skip(1)) =~= Seq::<u8>::empty());
    assert(encode_options(single) =~= encode_option(code, value));
}

} // verus!
