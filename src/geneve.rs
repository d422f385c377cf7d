//! Generic Network Virtualization Encapsulation (GENEVE): the fixed header,
//! its option TLVs, and the encapsulated payload. Declared lengths that run
//! past the buffer are truncated to what is there.
use vstd::prelude::*;

verus! {

/// Big-endian 16-bit value at `i`.
pub open spec fn be16(s: Seq<u8>, i: int) -> nat {
    (s[i] as nat) * 256 + s[i + 1] as nat
}

/// Big-endian 24-bit value at `i`.
pub open spec fn be24(s: Seq<u8>, i: int) -> nat {
    (s[i] as nat) * 65536 + (s[i + 1] as nat) * 256 + s[i + 2] as nat
}

pub open spec fn min_nat(a: nat, b: nat) -> nat {
    if a <= b {
        a
    } else {
        b
    }
}

/// Offset of the payload of a GENEVE header held in `p`.
pub open spec fn geneve_payload_start(p: Seq<u8>) -> nat {
    min_nat(8 + 4 * ((p[0] % 64) as nat), p.len())
}

/// A GENEVE header and what follows it.
#[derive(Debug)]
pub struct GENEVEPacket {
    packet: Vec<u8>,
}

impl View for GENEVEPacket {
    type V = Seq<u8>;

    closed spec fn view(&self) -> Seq<u8> {
        self.packet@
    }
}

impl GENEVEPacket {
    /// A GENEVE packet over a copy of `packet`, or `None` when it is shorter
    /// than the fixed header.
    pub fn new(packet: &[u8]) -> (r: Option<GENEVEPacket>)
        ensures
            packet@.len() >= 8 <==> r is Some,
            r matches Some(g) ==> g@ == packet@,
    {
        if packet.len() >= GENEVEPacket::minimum_packet_size() {
            Some(GENEVEPacket { packet: vstd::slice::slice_to_vec(packet) })
        } else {
            None
        }
    }

    /// Size of the fixed header.
    pub fn minimum_packet_size() -> (r: usize)
        ensures
            r == 8,
    {
        8
    }

    /// The version field (two bits).
    pub fn get_stack_size(&self) -> (r: u8)
        requires
            self@.len() >= 8,
        ensures
            r == self@[0] / 64,
    {
        self.packet[0] / 64
    }

    /// Length of the options, in 4-byte words (six bits).
    pub fn get_option_length(&self) -> (r: u8)
        requires
            self@.len() >= 8,
        ensures
            r == self@[0] % 64,
    {
        self.packet[0] % 64
    }

    /// Control flag: the packet carries a control message.
    pub fn get_control(&self) -> (r: u8)
        requires
            self@.len() >= 8,
        ensures
            r == self@[1] / 128,
    {
        self.packet[1] / 128
    }

    /// Critical-options flag.
    pub fn get_critical(&self) -> (r: u8)
        requires
            self@.len() >= 8,
        ensures
            r == (self@[1] / 64) % 2,
    {
        (self.packet[1] / 64) % 2
    }

    /// Reserved bits after the flags.
    pub fn get_reserved(&self) -> (r: u8)
        requires
            self@.len() >= 8,
        ensures
            r == self@[1] % 64,
    {
        self.packet[1] % 64
    }

    /// Protocol type of the payload (an EtherType).
    pub fn get_protocol_type(&self) -> (r: u16)
        requires
            self@.len() >= 8,
        ensures
            r == be16(self@, 2),
    {
        (self.packet[2] as u16) * 256 + self.packet[3] as u16
    }

    /// Virtual network identifier (24 bits).
    pub fn get_virtual_network_identifier(&self) -> (r: u32)
        requires
            self@.len() >= 8,
        ensures
            r == be24(self@, 4),
    {
        (self.packet[4] as u32) * 65536 + (self.packet[5] as u32) * 256 + self.packet[6] as u32
    }

    /// The reserved byte closing the fixed header.
    pub fn get_reserved2(&self) -> (r: u8)
        requires
            self@.len() >= 8,
        ensures
            r == self@[7],
    {
        self.packet[7]
    }

    /// The whole packet.
    pub fn packet(&self) -> (r: &[u8])
        ensures
            r@ == self@,
    {
        self.packet.as_slice()
    }

    /// The options field, cut short where the buffer ends.
    pub fn get_options_raw(&self) -> (r: &[u8])
        requires
            self@.len() >= 8,
        ensures
            r@ == self@.subrange(8, geneve_payload_start(self@) as int),
    {
        let end = payload_start(self.packet.as_slice());
        vstd::slice::slice_subrange(self.packet.as_slice(), 8, end)
    }

    /// The payload: what follows the options.
    pub fn payload(&self) -> (r: &[u8])
        requires
            self@.len() >= 8,
        ensures
            r@ == self@.subrange(geneve_payload_start(self@) as int, self@.len() as int),
    {
        let start = payload_start(self.packet.as_slice());
        vstd::slice::slice_subrange(self.packet.as_slice(), start, self.packet.len())
    }

    /// The options, decoded.
    pub fn get_options(&self) -> (r: Vec<GENEVEOption>)
        requires
            self@.len() >= 8,
        ensures
            r@.map_values(|o: GENEVEOption| o@) == options_of(
                self@.subrange(8, geneve_payload_start(self@) as int),
            ),
    {
        parse_options(self.get_options_raw())
    }

    /// The options, one at a time.
    pub fn get_options_iter(&self) -> (r: GeneveOptionIterable)
        requires
            self@.len() >= 8,
        ensures
            r@ == self@.subrange(8, geneve_payload_start(self@) as int),
    {
        GeneveOptionIterable { buf: vstd::slice::slice_to_vec(self.get_options_raw()) }
    }
}

/// Start of the payload of the GENEVE header in `p`.
pub fn payload_start(p: &[u8]) -> (r: usize)
    requires
        p@.len() >= 8,
    ensures
        r == geneve_payload_start(p@),
        8 <= r <= p@.len(),
{
    let want: usize = 8 + 4 * ((p[0] % 64) as usize);
    if want <= p.len() {
        want
    } else {
        p.len()
    }
}

/// A decoded option: class, type, length in words, and its data.
#[derive(Clone, Debug)]
pub struct GENEVEOption {
    option_class: u16,
    option_type: u8,
    length: u8,
    data: Vec<u8>,
}

/// Abstract content of an option.
pub struct OptionView {
    pub class: u16,
    pub kind: u8,
    pub length: u8,
    pub data: Seq<u8>,
}

impl View for GENEVEOption {
    type V = OptionView;

    closed spec fn view(&self) -> OptionView {
        OptionView {
            class: self.option_class,
            kind: self.option_type,
            length: self.length,
            data: self.data@,
        }
    }
}

impl GENEVEOption {
    pub fn option_class(&self) -> (r: u16)
        ensures
            r == self@.class,
    {
        self.option_class
    }

    pub fn option_type(&self) -> (r: u8)
        ensures
            r == self@.kind,
    {
        self.option_type
    }

    /// Declared length of the data, in 4-byte words.
    pub fn option_length(&self) -> (r: u8)
        ensures
            r == self@.length,
    {
        self.length
    }

    pub fn option_data(&self) -> (r: &[u8])
        ensures
            r@ == self@.data,
    {
        self.data.as_slice()
    }
}

/// One past the end of the option at the start of `b`, cut at the buffer's end.
pub open spec fn option_end(b: Seq<u8>) -> nat {
    min_nat(4 + 4 * ((b[3] % 32) as nat), b.len())
}

/// The option TLV at the start of `b` (at least four bytes).
pub open spec fn option_at(b: Seq<u8>) -> OptionView {
    OptionView {
        class: be16(b, 0) as u16,
        kind: b[2],
        length: b[3] % 32,
        data: b.subrange(4, option_end(b) as int),
    }
}

/// The options in `b`, read until fewer than four bytes are left.
pub open spec fn options_of(b: Seq<u8>) -> Seq<OptionView>
    decreases b.len(),
{
    if b.len() < 4 {
        seq![]
    } else {
        seq![option_at(b)] + options_of(b.skip(option_end(b) as int))
    }
}

/// An option TLV and everything after it in the options field.
#[derive(Debug)]
pub struct GENEVEOptionPacket {
    packet: Vec<u8>,
}

impl View for GENEVEOptionPacket {
    type V = Seq<u8>;

    closed spec fn view(&self) -> Seq<u8> {
        self.packet@
    }
}

impl GENEVEOptionPacket {
    /// An option over a copy of `packet`, or `None` when it is shorter than
    /// the option header.
    pub fn new(packet: &[u8]) -> (r: Option<GENEVEOptionPacket>)
        ensures
            packet@.len() >= 4 <==> r is Some,
            r matches Some(o) ==> o@ == packet@,
    {
        if packet.len() >= GENEVEOptionPacket::minimum_packet_size() {
            Some(GENEVEOptionPacket { packet: vstd::slice::slice_to_vec(packet) })
        } else {
            None
        }
    }

    /// Size of the option header.
    pub fn minimum_packet_size() -> (r: usize)
        ensures
            r == 4,
    {
        4
    }

    pub fn get_option_class(&self) -> (r: u16)
        requires
            self@.len() >= 4,
        ensures
            r == be16(self@, 0),
    {
        (self.packet[0] as u16) * 256 + self.packet[1] as u16
    }

    pub fn get_option_type(&self) -> (r: u8)
        requires
            self@.len() >= 4,
        ensures
            r == self@[2],
    {
        self.packet[2]
    }

    /// Declared data length in 4-byte words (five bits).
    pub fn get_option_length(&self) -> (r: u8)
        requires
            self@.len() >= 4,
        ensures
            r == self@[3] % 32,
    {
        self.packet[3] % 32
    }

    /// Declared size of the option, header included.
    pub fn packet_size(&self) -> (r: usize)
        requires
            self@.len() >= 4,
        ensures
            r == 4 + 4 * (self@[3] % 32),
    {
        4 + 4 * (self.get_option_length() as usize)
    }

    pub fn packet(&self) -> (r: &[u8])
        ensures
            r@ == self@,
    {
        self.packet.as_slice()
    }

    /// What follows this option.
    pub fn payload(&self) -> (r: &[u8])
        requires
            self@.len() >= 4,
        ensures
            r@ == self@.skip(option_end(self@) as int),
    {
        let end = option_end_exec(self.packet.as_slice());
        vstd::slice::slice_subrange(self.packet.as_slice(), end, self.packet.len())
    }

    /// The option, decoded; its data is cut at the buffer's end.
    pub fn from_packet(&self) -> (r: GENEVEOption)
        requires
            self@.len() >= 4,
        ensures
            r@ == option_at(self@),
    {
        let end = option_end_exec(self.packet.as_slice());
        GENEVEOption {
            option_class: self.get_option_class(),
            option_type: self.get_option_type(),
            length: self.get_option_length(),
            data: vstd::slice::slice_to_vec(vstd::slice::slice_subrange(self.packet.as_slice(), 4, end)),
        }
    }
}

fn option_end_exec(b: &[u8]) -> (r: usize)
    requires
        b@.len() >= 4,
    ensures
        r == option_end(b@),
        4 <= r <= b@.len(),
{
    let want: usize = 4 + 4 * ((b[3] % 32) as usize);
    if want <= b.len() {
        want
    } else {
        b.len()
    }
}

/// Walks the options field one TLV at a time.
#[derive(Debug)]
pub struct GeneveOptionIterable {
    buf: Vec<u8>,
}

impl View for GeneveOptionIterable {
    type V = Seq<u8>;

    closed spec fn view(&self) -> Seq<u8> {
        self.buf@
    }
}

impl GeneveOptionIterable {
    /// The next option, or `None` once fewer than four bytes are left.
    pub fn next(&mut self) -> (r: Option<GENEVEOptionPacket>)
        ensures
            old(self)@.len() < 4 ==> r is None && final(self)@ == old(self)@,
            old(self)@.len() >= 4 ==> (r matches Some(o) && o@ == old(self)@ && final(self)@ == old(
                self,
            )@.skip(option_end(old(self)@) as int)),
    {
        if self.buf.len() >= 4 {
            let o = GENEVEOptionPacket { packet: vstd::slice::slice_to_vec(self.buf.as_slice()) };
            let end = option_end_exec(self.buf.as_slice());
            let rest = vstd::slice::slice_to_vec(
                vstd::slice::slice_subrange(self.buf.as_slice(), end, self.buf.len()),
            );
            self.buf = rest;
            Some(o)
        } else {
            None
        }
    }

    /// Bounds on the number of options left: none known.
    pub fn size_hint(&self) -> (r: (usize, Option<usize>))
        ensures
            r == (0usize, None::<usize>),
    {
        (0, None)
    }
}

/// Decode every option of an options field.
pub fn parse_options(raw: &[u8]) -> (r: Vec<GENEVEOption>)
    ensures
        r@.map_values(|o: GENEVEOption| o@) == options_of(raw@),
{
    let mut it = GeneveOptionIterable { buf: vstd::slice::slice_to_vec(raw) };
    let mut r: Vec<GENEVEOption> = Vec::new();
    loop
        invariant
            r@.map_values(|o: GENEVEOption| o@) + options_of(it@) == options_of(raw@),
        decreases it@.len(),
    {
        let ghost before = it@;
        match it.next() {
            None => {
                assert(r@.map_values(|o: GENEVEOption| o@) =~= options_of(raw@));
                return r;
            },
            Some(p) => {
                let o = p.from_packet();
                let ghost old_r = r@;
                r.push(o);
                assert(r@.map_values(|o: GENEVEOption| o@) =~= old_r.map_values(|o: GENEVEOption| o@).push(
                    o@,
                ));
                assert(options_of(before) == seq![option_at(before)] + options_of(it@));
                assert(r@.map_values(|o: GENEVEOption| o@) + options_of(it@) =~= old_r.map_values(
                    |o: GENEVEOption| o@,
                ) + options_of(before));
            },
        }
    }
}

} // verus!
