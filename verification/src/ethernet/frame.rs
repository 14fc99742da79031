use vstd::prelude::*;

use super::{Error, Result, ETHER_TYPE_VLAN};
use crate::octets::{be_bytes, be_value, lemma_be_round_trip, lemma_pow256_small, push_be, read_be};
use crate::text::{push_decimal, push_str};
use vstd::slice::{slice_subrange, slice_to_vec};

verus! {

/// An IEEE 802.1Q tag.
///
/// GOOSE and SV are published with a priority tag so a switch can give them
/// precedence over station traffic; the VLAN identifier separates the process
/// bus from everything else.
#[derive(Debug, Clone, Copy, PartialEq, Eq, Structural)]
pub struct VlanTag {
    /// The priority code point, 0..=7.
    pub priority: u8,
    /// The drop eligible indicator.
    pub dei: bool,
    /// The VLAN identifier, 0..=4095.
    pub vid: u16,
}

impl Default for VlanTag {
    fn default() -> (t: VlanTag)
        ensures
            t == (VlanTag { priority: 0, dei: false, vid: 0 }),
    {
        VlanTag { priority: 0, dei: false, vid: 0 }
    }
}

impl VlanTag {
    /// The parts are within the widths of the tag control information field.
    pub open spec fn fits(self) -> bool {
        self.priority < 8 && self.vid < 4096
    }

    /// The parts cut to the widths they have in the field.
    pub open spec fn masked(self) -> VlanTag {
        VlanTag {
            priority: (self.priority % 8) as u8,
            dei: self.dei,
            vid: (self.vid % 4096) as u16,
        }
    }

    /// The tag control information field: 3 bits of priority, the indicator,
    /// 12 bits of identifier.
    pub open spec fn control(self) -> nat {
        (self.priority as nat % 8) * 8192 + (if self.dei {
            4096nat
        } else {
            0
        }) + self.vid as nat % 4096
    }

    /// The tag that a control field stands for.
    pub open spec fn of_control(tci: nat) -> VlanTag {
        VlanTag {
            priority: (tci / 8192) as u8,
            dei: tci / 4096 % 2 == 1,
            vid: (tci % 4096) as u16,
        }
    }

    /// Returns a tag carrying only a priority, which is the common case: the
    /// frame is prioritised but stays on the native VLAN.
    pub fn priority(priority: u8) -> (t: VlanTag)
        ensures
            t == (VlanTag { priority: (priority % 8) as u8, dei: false, vid: 0 }),
    {
        VlanTag { priority: priority % 8, dei: false, vid: 0 }
    }

    /// Packs the tag control information field.
    pub fn tci(self) -> (tci: u16)
        ensures
            tci == self.control(),
    {
        (self.priority % 8) as u16 * 8192 + (if self.dei {
            4096
        } else {
            0
        }) + self.vid % 4096
    }

    pub fn from_tci(tci: u16) -> (t: VlanTag)
        ensures
            t == VlanTag::of_control(tci as nat),
    {
        VlanTag { priority: (tci / 8192) as u8, dei: tci / 4096 % 2 == 1, vid: tci % 4096 }
    }
}

/// A tag control field that was packed unpacks to the tag with its parts cut
/// to their widths.
pub proof fn vlan_round_trip(t: VlanTag)
    ensures
        VlanTag::of_control(t.control()) == t.masked(),
        t.fits() ==> t.masked() == t,
{
}

/// An Ethernet II frame with an optional single 802.1Q tag.
#[derive(Debug, PartialEq, Eq)]
pub struct Frame {
    pub src: [u8; 6],
    pub dst: [u8; 6],
    pub ether_type: u16,
    pub vlan: Option<VlanTag>,
    pub payload: Vec<u8>,
}

impl Default for Frame {
    fn default() -> (f: Frame)
        ensures
            f.src@ == Seq::new(6, |i: int| 0u8),
            f.dst@ == Seq::new(6, |i: int| 0u8),
            f.ether_type == 0,
            f.vlan is None,
            f.payload@.len() == 0,
    {
        let f = Frame {
            src: [0, 0, 0, 0, 0, 0],
            dst: [0, 0, 0, 0, 0, 0],
            ether_type: 0,
            vlan: None,
            payload: Vec::new(),
        };
        assert(f.src@ =~= Seq::new(6, |i: int| 0u8));
        assert(f.dst@ =~= Seq::new(6, |i: int| 0u8));
        f
    }
}

impl Clone for Frame {
    fn clone(&self) -> (f: Frame)
        ensures
            f@ == self@,
    {
        Frame {
            src: self.src,
            dst: self.dst,
            ether_type: self.ether_type,
            vlan: self.vlan,
            payload: slice_to_vec(self.payload.as_slice()),
        }
    }
}

/// The length of an Ethernet II header with no tag.
pub const HEADER_LEN: usize = 14;

/// The length added by one 802.1Q tag.
pub const VLAN_LEN: usize = 4;

/// What a frame holds.
pub struct FrameView {
    pub src: Seq<u8>,
    pub dst: Seq<u8>,
    pub ether_type: u16,
    pub vlan: Option<VlanTag>,
    pub payload: Seq<u8>,
}

impl View for Frame {
    type V = FrameView;

    open spec fn view(&self) -> FrameView {
        FrameView {
            src: self.src@,
            dst: self.dst@,
            ether_type: self.ether_type,
            vlan: self.vlan,
            payload: self.payload@,
        }
    }
}

impl FrameView {
    /// The frame as it goes on the wire.
    pub open spec fn octets(self) -> Seq<u8> {
        self.dst + self.src + (match self.vlan {
            Some(v) => be_bytes(ETHER_TYPE_VLAN as nat, 2) + be_bytes(v.control(), 2),
            None => Seq::empty(),
        }) + be_bytes(self.ether_type as nat, 2) + self.payload
    }
}

impl Frame {
    /// Returns the encoded size of the frame.
    pub fn encoded_len(&self) -> (n: usize)
        requires
            self@.octets().len() <= usize::MAX,
        ensures
            n == self@.octets().len(),
    {
        proof {
            reveal_with_fuel(be_bytes, 3);
        }
        HEADER_LEN + (if self.vlan.is_some() {
            VLAN_LEN
        } else {
            0
        }) + self.payload.len()
    }

    /// Serialises the frame, including the 802.1Q tag when present.
    pub fn marshal(&self) -> (b: Vec<u8>)
        ensures
            b@ == self@.octets(),
    {
        let mut b: Vec<u8> = Vec::new();
        b.extend_from_slice(self.dst.as_slice());
        b.extend_from_slice(self.src.as_slice());
        if let Some(v) = self.vlan {
            push_be(&mut b, ETHER_TYPE_VLAN as u64, 2);
            push_be(&mut b, v.tci() as u64, 2);
        }
        push_be(&mut b, self.ether_type as u64, 2);
        b.extend_from_slice(self.payload.as_slice());
        assert(b@ =~= self@.octets());
        b
    }
}

/// The two octets at `i` as an integer.
pub open spec fn u16_at(b: Seq<u8>, i: int) -> nat {
    be_value(b.subrange(i, i + 2))
}

/// What a frame's octets stand for, or why they are refused.
pub open spec fn frame_of(b: Seq<u8>) -> std::result::Result<FrameView, Seq<char>> {
    if b.len() < HEADER_LEN {
        Err("frame of "@ + crate::text::decimal(b.len()) + " octets is too short"@)
    } else if u16_at(b, 12) != ETHER_TYPE_VLAN {
        Ok(
            FrameView {
                dst: b.subrange(0, 6),
                src: b.subrange(6, 12),
                ether_type: u16_at(b, 12) as u16,
                vlan: None,
                payload: b.skip(14),
            },
        )
    } else if b.len() < HEADER_LEN + VLAN_LEN {
        Err("802.1Q frame of "@ + crate::text::decimal(b.len()) + " octets is too short"@)
    } else {
        Ok(
            FrameView {
                dst: b.subrange(0, 6),
                src: b.subrange(6, 12),
                ether_type: u16_at(b, 16) as u16,
                vlan: Some(VlanTag::of_control(u16_at(b, 14))),
                payload: b.skip(18),
            },
        )
    }
}

fn read_u16(b: &[u8], i: usize) -> (v: u16)
    requires
        i + 2 <= b@.len(),
    ensures
        v == u16_at(b@, i as int),
{
    let n: usize = b.len();
    let s = slice_subrange(b, i, i + 2);
    proof {
        crate::octets::lemma_be_value_round_trip(s@);
        lemma_pow256_small();
    }
    read_be(s) as u16
}

fn address(b: &[u8], i: usize) -> (a: [u8; 6])
    requires
        i + 6 <= b@.len(),
    ensures
        a@ == b@.subrange(i as int, i + 6),
{
    let a: [u8; 6] = [b[i], b[i + 1], b[i + 2], b[i + 3], b[i + 4], b[i + 5]];
    assert(a@ =~= b@.subrange(i as int, i + 6));
    a
}

fn too_short(what: &str, n: usize) -> (e: Error)
    ensures
        e matches Error::Frame(s) && s@ == what@ + crate::text::decimal(n as nat)
            + " octets is too short"@,
{
    let mut s = String::new();
    push_str(&mut s, what);
    push_decimal(&mut s, n as u64);
    push_str(&mut s, " octets is too short");
    assert(s@ =~= what@ + crate::text::decimal(n as nat) + " octets is too short"@);
    Error::Frame(s)
}

/// Parses an Ethernet II frame with an optional single 802.1Q tag.
pub fn parse_frame(b: &[u8]) -> (r: Result<Frame>)
    ensures
        match (r, frame_of(b@)) {
            (Ok(f), Ok(v)) => f@ == v,
            (Err(Error::Frame(s)), Err(t)) => s@ == t,
            _ => false,
        },
{
    if b.len() < HEADER_LEN {
        return Err(too_short("frame of ", b.len()));
    }
    let dst = address(b, 0);
    let src = address(b, 6);
    let et: u16 = read_u16(b, 12);
    if et != ETHER_TYPE_VLAN {
        let payload = slice_to_vec(slice_subrange(b, 14, b.len()));
        return Ok(Frame { src, dst, ether_type: et, vlan: None, payload });
    }
    if b.len() < HEADER_LEN + VLAN_LEN {
        return Err(too_short("802.1Q frame of ", b.len()));
    }
    let vlan = Some(VlanTag::from_tci(read_u16(b, 14)));
    let payload = slice_to_vec(slice_subrange(b, 18, b.len()));
    Ok(Frame { src, dst, ether_type: read_u16(b, 16), vlan, payload })
}

/// A frame that was marshalled parses back to itself, its tag cut to the
/// widths of the tag field. An untagged frame must not carry the tag protocol
/// identifier as its EtherType, which would announce a tag.
pub proof fn frame_round_trip(f: FrameView)
    requires
        f.src.len() == 6,
        f.dst.len() == 6,
        f.vlan is None ==> f.ether_type != ETHER_TYPE_VLAN,
    ensures
        frame_of(f.octets()) == Ok::<FrameView, Seq<char>>(
            FrameView {
                vlan: match f.vlan {
                    Some(v) => Some(v.masked()),
                    None => None,
                },
                ..f
            },
        ),
{
    let b = f.octets();
    lemma_pow256_small();
    lemma_be_round_trip(f.ether_type as nat, 2);
    lemma_be_round_trip(ETHER_TYPE_VLAN as nat, 2);
    assert(b.subrange(0, 6) =~= f.dst);
    assert(b.subrange(6, 12) =~= f.src);
    match f.vlan {
        None => {
            assert(b.subrange(12, 14) =~= be_bytes(f.ether_type as nat, 2));
            assert(b.skip(14) =~= f.payload);
        },
        Some(v) => {
            lemma_be_round_trip(v.control(), 2);
            vlan_round_trip(v);
            assert(b.subrange(12, 14) =~= be_bytes(ETHER_TYPE_VLAN as nat, 2));
            assert(b.subrange(14, 16) =~= be_bytes(v.control(), 2));
            assert(b.subrange(16, 18) =~= be_bytes(f.ether_type as nat, 2));
            assert(b.skip(18) =~= f.payload);
        },
    }
}

/// On the wire the destination comes first, then the source, then the tag
/// where there is one, led by 0x8100, then the EtherType and the payload.
pub proof fn a_frame_is_laid_out(f: FrameView)
    requires
        f.src.len() == 6,
        f.dst.len() == 6,
    ensures
        f.octets().subrange(0, 6) == f.dst,
        f.octets().subrange(6, 12) == f.src,
        f.vlan is None ==> {
            &&& f.octets().len() == 14 + f.payload.len()
            &&& f.octets()[12] * 256 + f.octets()[13] == f.ether_type
            &&& f.octets().skip(14) == f.payload
        },
        f.vlan matches Some(v) ==> {
            &&& f.octets().len() == 18 + f.payload.len()
            &&& f.octets()[12] == 0x81
            &&& f.octets()[13] == 0
            &&& f.octets()[14] == v.priority % 8 * 32 + (if v.dei { 16int } else { 0 }) + v.vid
                % 4096 / 256
            &&& f.octets()[15] == v.vid % 256
            &&& f.octets()[16] * 256 + f.octets()[17] == f.ether_type
            &&& f.octets().skip(18) == f.payload
        },
{
    reveal_with_fuel(be_bytes, 3);
    let b = f.octets();
    assert(b.subrange(0, 6) =~= f.dst);
    assert(b.subrange(6, 12) =~= f.src);
    match f.vlan {
        None => {
            assert(b.skip(14) =~= f.payload);
        },
        Some(v) => {
            assert(b.skip(18) =~= f.payload);
        },
    }
}

/// A frame is refused exactly where its header is not whole: fourteen octets,
/// and four more where a tag announces itself.
pub proof fn a_whole_header_is_read(b: Seq<u8>)
    ensures
        frame_of(b) is Err <==> b.len() < 14 || (b[12] == 0x81 && b[13] == 0 && b.len() < 18),
        frame_of(b) matches Ok(f) ==> {
            &&& f.dst == b.subrange(0, 6)
            &&& f.src == b.subrange(6, 12)
            &&& f.vlan is Some <==> b[12] == 0x81 && b[13] == 0
            &&& f.vlan is None ==> f.ether_type == b[12] * 256 + b[13] && f.payload == b.skip(14)
            &&& f.vlan matches Some(v) ==> {
                &&& v.priority == b[14] / 32
                &&& v.dei <==> b[14] / 16 % 2 == 1
                &&& v.vid == b[14] % 16 * 256 + b[15]
                &&& f.ether_type == b[16] * 256 + b[17]
                &&& f.payload == b.skip(18)
            }
        },
{
    if b.len() >= 14 {
        lemma_u16_at(b, 12);
        if b.len() >= 18 {
            lemma_u16_at(b, 14);
            lemma_u16_at(b, 16);
        }
    }
}

proof fn lemma_u16_at(b: Seq<u8>, i: int)
    requires
        0 <= i,
        i + 2 <= b.len(),
    ensures
        u16_at(b, i) == b[i] * 256 + b[i + 1],
{
    assert(b.subrange(i, i + 2) =~= seq![b[i], b[i + 1]]);
    crate::octets::the_first_octet_weighs_most(b[i], b[i + 1]);
}

/// In the control field the priority has the top three bits, the indicator the
/// next, and the identifier the other twelve.
pub proof fn a_tag_is_packed_by_weight(t: VlanTag)
    requires
        t.priority < 8,
        t.vid < 4096,
    ensures
        t.control() == t.priority * 8192 + (if t.dei { 4096int } else { 0 }) + t.vid,
        t.control() < 0x1_0000,
{
}

} // verus!
