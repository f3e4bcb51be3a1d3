use crate::bitstream::{
    agrees, count_zeros, lemma_bit_of_le_1, lemma_one_shl, lemma_read_bits_bound, lemma_read_bits_small,
    lemma_read_bits_stops, lemma_shift_in_bit, read_bit, read_bits, read_bits_int, read_ue, stop, BitSrc,
    Step,
};
use crate::h264_parser::SequenceParameterSet;
use vstd::prelude::*;

verus! {

/// Big-endian value of a byte string.
pub open spec fn be_value(s: Seq<u8>) -> int
    decreases s.len(),
{
    if s.len() == 0 {
        0
    } else {
        be_value(s.drop_last()) * 256 + s.last()
    }
}

proof fn lemma_be_value_nonneg(s: Seq<u8>)
    ensures
        be_value(s) >= 0,
    decreases s.len(),
{
    if s.len() > 0 {
        lemma_be_value_nonneg(s.drop_last());
    }
}

/// Where the scan of an AVCC packet ends.
pub enum AvccScan {
    /// The scan reached the end: the Annex-B bytes and the offsets of the slices in them.
    Done(Seq<u8>, Seq<u32>),
    /// A length prefix claims more bytes than the packet has left.
    Oversized,
    /// An offset computation overflows `usize`.
    Overflow,
}

/// Scans the length-prefixed NAL units of `d` from `offset`, with `n`-byte
/// length prefixes, given the output so far. Each VCL NAL unit (types 1 to
/// 5) is copied after a 4-byte start code, and the output length at which
/// it starts is recorded (as a `u32`); other NAL units are left out.
pub open spec fn avcc_scan(d: Seq<u8>, n: nat, offset: int, out: Seq<u8>, offsets: Seq<u32>) -> AvccScan
    decreases d.len() - offset,
{
    if n == 0 || offset < 0 {
        AvccScan::Done(out, offsets)
    } else if offset + n > usize::MAX {
        AvccScan::Overflow
    } else if offset + n > d.len() {
        AvccScan::Done(out, offsets)
    } else {
        let nal = be_value(d.subrange(offset, offset + n)) % (usize::MAX as int + 1);
        let start = offset + n;
        if start + nal > usize::MAX {
            AvccScan::Overflow
        } else if start + nal > d.len() {
            AvccScan::Oversized
        } else if nal == 0 {
            avcc_scan(d, n, start, out, offsets)
        } else if 1 <= d[start] % 32 <= 5 {
            avcc_scan(
                d,
                n,
                start + nal,
                out + seq![0u8, 0u8, 0u8, 1u8] + d.subrange(start, start + nal),
                offsets.push((out.len() % 0x1_0000_0000) as u32),
            )
        } else {
            avcc_scan(d, n, start + nal, out, offsets)
        }
    }
}

/// Whether `avcc_to_annexb` overflows `usize` on these inputs.
pub open spec fn avcc_overflows(d: Seq<u8>, n: nat) -> bool {
    d.len() + 16 > usize::MAX || avcc_scan(d, n, 0, Seq::empty(), Seq::empty()) is Overflow
}

/// Error message for a length prefix that runs past the packet.
pub open spec fn oversized_message() -> Seq<char> {
    "Bad avcc packet. NALU's size is bigger than data."@
}

/// Error message for a packet without slices.
pub open spec fn no_slices_message() -> Seq<char> {
    "No video slices (VCL) found in this packet."@
}

/// What `avcc_to_annexb` returns: the Annex-B bytes and slice offsets, or an
/// error message.
pub open spec fn spec_avcc_to_annexb(d: Seq<u8>, n: nat) -> Result<(Seq<u8>, Seq<u32>), Seq<char>> {
    match avcc_scan(d, n, 0, Seq::empty(), Seq::empty()) {
        AvccScan::Done(out, offsets) => if offsets.len() == 0 {
            Err(no_slices_message())
        } else {
            Ok((out, offsets))
        },
        _ => Err(oversized_message()),
    }
}

/// Appending a byte to a big-endian number kept in a `usize`.
proof fn lemma_shift_in_byte(v: usize, b: u8, raw: int)
    requires
        raw >= 0,
        v as int == raw % (usize::MAX as int + 1),
    ensures
        ((v << 8usize) | (b as usize)) as int == (raw * 256 + b) % (usize::MAX as int + 1),
{
    let bb = b as usize;
    assert(usize::BITS == 64 ==> ((v << 8usize) | bb) as int == ((v as int) * 256 + (bb as int))
        % 0x1_0000_0000_0000_0000) by (bit_vector)
        requires bb < 256;
    assert(usize::BITS == 32 ==> ((v << 8usize) | bb) as int == ((v as int) * 256 + (bb as int))
        % 0x1_0000_0000) by (bit_vector)
        requires bb < 256;
    assert(usize::BITS == 64 ==> usize::MAX == 0xffff_ffff_ffff_ffff);
    assert(usize::BITS == 32 ==> usize::MAX == 0xffff_ffff);
    assert(usize::BITS == 32 || usize::BITS == 64);
    let m = usize::MAX as int + 1;
    vstd::arithmetic::div_mod::lemma_fundamental_div_mod(raw, m);
    let q = raw / m;
    assert(raw * 256 + b == (v as int) * 256 + b + m * (256 * q)) by (nonlinear_arith)
        requires raw == m * q + v;
    vstd::arithmetic::div_mod::lemma_mod_multiples_vanish(256 * q, (v as int) * 256 + b, m);
}

/// Whether `r` is the result that `spec_avcc_to_annexb` describes.
pub open spec fn avcc_result_matches(
    r: Result<(Vec<u8>, Vec<u32>), &'static str>,
    d: Seq<u8>,
    n: nat,
) -> bool {
    match spec_avcc_to_annexb(d, n) {
        Ok((out, offsets)) => r matches Ok((o, s)) && o@ == out && s@ == offsets,
        Err(msg) => r matches Err(e) && e@ == msg,
    }
}

/// Converts an AVCC packet, and tells whether the conversion overflowed.
fn scan_avcc(data: &[u8], nalu_length_size: usize) -> (r: (Result<(Vec<u8>, Vec<u32>), &'static str>, bool))
    requires
        nalu_length_size > 0,
    ensures
        r.1 == avcc_overflows(data@, nalu_length_size as nat),
        !r.1 ==> avcc_result_matches(r.0, data@, nalu_length_size as nat),
{
    if data.len() > usize::MAX - 16 {
        return (Err(""), true);
    }
    let ghost d = data@;
    let ghost n = nalu_length_size as nat;
    let mut out: Vec<u8> = Vec::with_capacity(data.len() + 16);
    let mut slice_offsets: Vec<u32> = Vec::new();
    let mut offset: usize = 0;
    let ghost total = avcc_scan(d, n, 0, Seq::empty(), Seq::empty());
    assert(out@ == Seq::<u8>::empty());
    assert(slice_offsets@ == Seq::<u32>::empty());
    loop
        invariant
            d == data@,
            n == nalu_length_size,
            n > 0,
            offset <= data.len(),
            data.len() + 16 <= usize::MAX,
            total == avcc_scan(d, n, 0, Seq::empty(), Seq::empty()),
            total == avcc_scan(d, n, offset as int, out@, slice_offsets@),
        ensures
            data.len() + 16 <= usize::MAX,
            total == AvccScan::Done(out@, slice_offsets@),
            total == avcc_scan(d, n, 0, Seq::empty(), Seq::empty()),
            d == data@,
            n == nalu_length_size,
        decreases data.len() - offset,
    {
        if nalu_length_size > usize::MAX - offset {
            return (Err(""), true);
        }
        if offset + nalu_length_size > data.len() {
            break;
        }
        let mut nal_size: usize = 0;
        let mut k: usize = 0;
        while k < nalu_length_size
            invariant
                d == data@,
                n == nalu_length_size,
                offset + nalu_length_size <= data.len(),
                0 <= k <= nalu_length_size,
                nal_size as int == be_value(d.subrange(offset as int, offset + k)) % (usize::MAX as int + 1),
            decreases nalu_length_size - k,
        {
            proof {
                let pre = d.subrange(offset as int, offset + k);
                let next = d.subrange(offset as int, offset + k + 1);
                assert(next.drop_last() =~= pre);
                assert(next.last() == d[offset + k]);
                lemma_be_value_nonneg(pre);
                lemma_shift_in_byte(nal_size, data[offset + k], be_value(pre));
            }
            nal_size = (nal_size << 8) | data[offset + k] as usize;
            k += 1;
        }
        let start_data = offset + nalu_length_size;
        if nal_size > usize::MAX - start_data {
            return (Err(""), true);
        }
        let end_data = start_data + nal_size;
        if end_data > data.len() {
            let e = "Bad avcc packet. NALU's size is bigger than data.";
            assert(e@ == oversized_message());
            return (Err(e), false);
        }
        if nal_size == 0 {
            offset = end_data;
            continue;
        }
        let first = data[start_data];
        let nalu_type = first & 0x1F;
        assert(nalu_type == first % 32) by (bit_vector)
            requires nalu_type == first & 0x1F;
        let ghost old_out = out@;
        let ghost old_offsets = slice_offsets@;
        assert(nal_size as int == be_value(d.subrange(offset as int, offset + nalu_length_size)) % (
        usize::MAX as int + 1));
        if nalu_type >= 1 && nalu_type <= 5 {
            let pos = out.len();
            let pos32 = #[verifier::truncate] (pos as u32);
            assert(pos32 as int == pos as int % 0x1_0000_0000) by (bit_vector)
                requires pos32 == pos as u32;
            slice_offsets.push(pos32);
            out.push(0);
            out.push(0);
            out.push(0);
            out.push(1);
            out.extend_from_slice(&data[start_data..end_data]);
            assert(out@ =~= old_out + seq![0u8, 0u8, 0u8, 1u8] + d.subrange(start_data as int, end_data as int));
        }
        offset = end_data;
    }
    if slice_offsets.len() == 0 {
        let e = "No video slices (VCL) found in this packet.";
        assert(e@ == no_slices_message());
        return (Err(e), false);
    }
    (Ok((out, slice_offsets)), false)
}

/// Rewrites an AVCC packet (NAL units with `nalu_length_size`-byte big-endian
/// length prefixes) as an Annex-B stream of its VCL NAL units, each after a
/// `00 00 00 01` start code, and returns the offset of each of them in it.
/// Fails when a length runs past the packet or when no VCL NAL unit is found.
pub fn avcc_to_annexb(data: &[u8], nalu_length_size: usize) -> (r: Result<(Vec<u8>, Vec<u32>), &'static str>)
    requires
        nalu_length_size > 0,
        !avcc_overflows(data@, nalu_length_size as nat),
    ensures
        avcc_result_matches(r, data@, nalu_length_size as nat),
{
    scan_avcc(data, nalu_length_size).0
}

/// Whether `avcc_to_annexb` on these inputs would overflow `usize`.
pub fn avcc_would_overflow(data: &[u8], nalu_length_size: usize) -> (b: bool)
    ensures
        b == avcc_overflows(data@, nalu_length_size as nat),
{
    if nalu_length_size == 0 {
        data.len() > usize::MAX - 16
    } else {
        scan_avcc(data, nalu_length_size).1
    }
}

/// The size of the NAL unit length prefixes of a stream, read from the low
/// two bits (`lengthSizeMinusOne`) of byte 4 of its avcC extradata; 4 when
/// the extradata is too short to hold that byte.
pub fn avcc_nalu_length_size(extradata: &[u8]) -> (r: usize)
    ensures
        r == if extradata.len() > 4 { extradata[4] % 4 + 1 } else { 4 },
        1 <= r <= 4,
{
    if extradata.len() > 4 {
        let b = extradata[4];
        let low = b & 0x03;
        assert(low == b % 4) by (bit_vector)
            requires low == b & 0x03;
        (low + 1) as usize
    } else {
        4
    }
}

/// Header fields of one NAL unit, and where the slice header begins.
#[derive(Debug)]
pub struct NaluHeader {
    pub forbidden_zero_bit: u8,
    pub nal_ref_idc: u8,
    pub nal_unit_type: u8,
    pub slice_header_offset: usize,
}

/// Length of the Annex-B start code that opens `d` (4, 3, or 0 when there is none).
pub open spec fn start_code_len(d: Seq<u8>) -> int {
    if d.len() >= 4 && d[0] == 0 && d[1] == 0 && d[2] == 0 && d[3] == 1 {
        4
    } else if d.len() >= 3 && d[0] == 0 && d[1] == 0 && d[2] == 1 {
        3
    } else {
        0
    }
}

impl NaluHeader {
    /// The header that `NaluHeader::parse` reads from `d`, when there is one.
    pub open spec fn spec_parse(d: Seq<u8>) -> Option<NaluHeader> {
        let s = start_code_len(d);
        if s >= d.len() {
            None
        } else {
            let b = d[s];
            Some(NaluHeader {
                forbidden_zero_bit: b / 128,
                nal_ref_idc: (b / 32) % 4,
                nal_unit_type: b % 32,
                slice_header_offset: (s + 1) as usize,
            })
        }
    }

    /// Skips an optional 3- or 4-byte start code and splits the following
    /// byte into its three header fields.
    pub fn parse(data: &[u8]) -> (r: Option<Self>)
        ensures
            r == Self::spec_parse(data@),
    {
        if data.is_empty() {
            return None;
        }
        let mut nalu_start: usize = 0;
        if data.len() >= 4 && data[0] == 0 && data[1] == 0 && data[2] == 0 && data[3] == 1 {
            nalu_start = 4;
        } else if data.len() >= 3 && data[0] == 0 && data[1] == 0 && data[2] == 1 {
            nalu_start = 3;
        }
        if nalu_start >= data.len() {
            return None;
        }
        let nalu_byte = data[nalu_start];
        let forbidden_zero_bit = (nalu_byte >> 7) & 0x01;
        let nal_ref_idc = (nalu_byte >> 5) & 0x03;
        let nal_unit_type = nalu_byte & 0x1F;
        assert(forbidden_zero_bit == nalu_byte / 128) by (bit_vector)
            requires forbidden_zero_bit == (nalu_byte >> 7) & 0x01;
        assert(nal_ref_idc == (nalu_byte / 32) % 4) by (bit_vector)
            requires nal_ref_idc == (nalu_byte >> 5) & 0x03;
        assert(nal_unit_type == nalu_byte % 32) by (bit_vector)
            requires nal_unit_type == nalu_byte & 0x1F;
        Some(Self {
            forbidden_zero_bit,
            nal_ref_idc,
            nal_unit_type,
            slice_header_offset: nalu_start + 1,
        })
    }
}


/// The sequence parameter set fields that slice header parsing needs.
pub struct SpsInfo {
    pub log2_max_frame_num_minus4: u8,
    pub frame_mbs_only_flag: bool,
    pub pic_order_cnt_type: u8,
    pub log2_max_pic_order_cnt_lsb_minus4: u8,
}

/// The leading fields of a slice header.
#[derive(Debug)]
pub struct SliceHeader {
    pub first_mb_in_slice: u32,
    pub slice_type: u32,
    pub pic_parameter_set_id: u32,
    pub frame_num: u16,
    pub pic_order_cnt_lsb: u32,
}

/// Skips `field_pic_flag`, and `bottom_field_flag` when the former is set,
/// when the sequence codes fields.
pub open spec fn field_flags_step(src: BitSrc, p: int, frame_mbs_only: bool) -> Step<()> {
    if frame_mbs_only {
        Step::Val((), p)
    } else {
        let f = read_bits(src, p, 1);
        match f {
            Step::Val(v, q) => if v == 1 {
                let b = read_bits(src, q, 1);
                match b {
                    Step::Val(_, r) => Step::Val((), r),
                    _ => stop(b),
                }
            } else {
                Step::Val((), q)
            },
            _ => stop(f),
        }
    }
}

/// Skips `idr_pic_id` in an IDR slice (NAL unit type 5).
pub open spec fn idr_step(src: BitSrc, p: int, nal_unit_type: u8) -> Step<()> {
    if nal_unit_type == 5 {
        let u = read_ue(src, p);
        match u {
            Step::Val(_, q) => Step::Val((), q),
            _ => stop(u),
        }
    } else {
        Step::Val((), p)
    }
}

/// Reads `pic_order_cnt_lsb` when the picture order count type is 0; it is 0 otherwise.
/// Its width `log2_max_pic_order_cnt_lsb_minus4 + 4` is computed in a `u8`.
pub open spec fn poc_lsb_step(src: BitSrc, p: int, sps: SpsInfo) -> Step<u32> {
    if sps.pic_order_cnt_type == 0 {
        if sps.log2_max_pic_order_cnt_lsb_minus4 + 4 > 255 {
            Step::Trap
        } else {
            read_bits(src, p, (sps.log2_max_pic_order_cnt_lsb_minus4 + 4) as nat)
        }
    } else {
        Step::Val(0, p)
    }
}

/// Reading a slice header from the start of `src`. The width of `frame_num`,
/// `log2_max_frame_num_minus4 + 4`, is computed in a `u8`.
pub open spec fn slice_header_step(src: BitSrc, nal_unit_type: u8, sps: SpsInfo) -> Step<SliceHeader> {
    let a = read_ue(src, 0);
    match a {
        Step::Val(first_mb_in_slice, p1) => {
            let b = read_ue(src, p1);
            match b {
                Step::Val(slice_type, p2) => {
                    let c = read_ue(src, p2);
                    match c {
                        Step::Val(pic_parameter_set_id, p3) => if sps.log2_max_frame_num_minus4 + 4 > 255 {
                            Step::Trap
                        } else {
                            let f = read_bits(src, p3, (sps.log2_max_frame_num_minus4 + 4) as nat);
                            match f {
                                Step::Val(frame_num, p4) => {
                                    let g = field_flags_step(src, p4, sps.frame_mbs_only_flag);
                                    match g {
                                        Step::Val(_, p5) => {
                                            let h = idr_step(src, p5, nal_unit_type);
                                            match h {
                                                Step::Val(_, p6) => {
                                                    let l = poc_lsb_step(src, p6, sps);
                                                    match l {
                                                        Step::Val(pic_order_cnt_lsb, p7) => Step::Val(
                                                            SliceHeader {
                                                                first_mb_in_slice,
                                                                slice_type,
                                                                pic_parameter_set_id,
                                                                frame_num: (frame_num as int % 0x1_0000) as u16,
                                                                pic_order_cnt_lsb,
                                                            },
                                                            p7,
                                                        ),
                                                        _ => stop(l),
                                                    }
                                                },
                                                _ => stop(h),
                                            }
                                        },
                                        _ => stop(g),
                                    }
                                },
                                _ => stop(f),
                            }
                        },
                        _ => stop(c),
                    }
                },
                _ => stop(b),
            }
        },
        _ => stop(a),
    }
}

/// What `parse_slice_header` returns for these inputs.
pub open spec fn spec_parse_slice_header(d: Seq<u8>, nal_unit_type: u8, sps: SpsInfo) -> Option<SliceHeader> {
    match slice_header_step(slice_src(d), nal_unit_type, sps) {
        Step::Val(h, _) => Some(h),
        _ => None,
    }
}

/// Whether parsing this slice header overflows an integer: a width of
/// `frame_num` or `pic_order_cnt_lsb` above 255, an Exp-Golomb code with 32
/// or more leading zeros, or a run of 256 zero bytes.
pub open spec fn slice_header_overflows(d: Seq<u8>, nal_unit_type: u8, sps: SpsInfo) -> bool {
    slice_header_step(slice_src(d), nal_unit_type, sps) is Trap
}

/// The bytes a slice-header reader takes from `d` from raw position `p`,
/// when `z` zero bytes have just been taken: after two zero bytes an
/// emulation-prevention byte `0x03` is dropped and the count starts again.
pub open spec fn ep_bytes(d: Seq<u8>, p: int, z: int) -> Seq<u8>
    decreases d.len() - p,
{
    if p < 0 || p >= d.len() {
        Seq::empty()
    } else if z == 2 && d[p] == 3 {
        ep_bytes(d, p + 1, 0)
    } else {
        seq![d[p]] + ep_bytes(d, p + 1, if d[p] == 0 { z + 1 } else { 0 })
    }
}

/// Index, among the bytes of `ep_bytes(d, p, z)`, of the first byte whose
/// reading takes the run of zero bytes to 256, which overflows the `u8` counter.
pub open spec fn ep_trap(d: Seq<u8>, p: int, z: int) -> Option<int>
    decreases d.len() - p,
{
    if p < 0 || p >= d.len() {
        None
    } else if z == 2 && d[p] == 3 {
        ep_trap(d, p + 1, 0)
    } else {
        let nz = if d[p] == 0 { z + 1 } else { 0 };
        if nz >= 256 {
            Some(0)
        } else {
            match ep_trap(d, p + 1, nz) {
                Some(t) => Some(t + 1),
                None => None,
            }
        }
    }
}

/// The bit stream that a slice-header reader sees in `d`.
pub open spec fn slice_src(d: Seq<u8>) -> BitSrc {
    BitSrc { bytes: ep_bytes(d, 0, 0), trap: ep_trap(d, 0, 0) }
}

pub open spec fn trap_after(t: Option<int>, k: int) -> Option<int> {
    match t {
        Some(x) => Some(x - k),
        None => None,
    }
}

/// The overflow byte lies within the bytes taken.
pub proof fn lemma_ep_trap_bound(d: Seq<u8>, p: int, z: int)
    ensures
        ep_trap(d, p, z) matches Some(t) ==> 0 <= t < ep_bytes(d, p, z).len(),
    decreases d.len() - p,
{
    if p < 0 || p >= d.len() {
    } else if z == 2 && d[p] == 3 {
        lemma_ep_trap_bound(d, p + 1, 0);
    } else {
        let nz = if d[p] == 0 { z + 1 } else { 0 };
        lemma_ep_trap_bound(d, p + 1, nz);
    }
}

/// Reads the bits of a slice header, dropping emulation-prevention bytes on the way.
struct BitReader<'a> {
    data: &'a [u8],
    byte_pos: usize,
    bit_pos: u8,
    zero_bytes: u8,
    overflowed: bool,
    taken: Ghost<int>,
}

impl<'a> BitReader<'a> {
    spec fn src(&self) -> BitSrc {
        slice_src(self.data@)
    }

    spec fn pos(&self) -> int {
        8 * self.taken@ + self.bit_pos
    }

    spec fn inv(&self) -> bool {
        let d = self.data@;
        let k = self.taken@;
        let s = self.src().bytes;
        let t = self.src().trap;
        &&& self.byte_pos <= d.len()
        &&& self.bit_pos < 8
        &&& 0 <= k <= s.len()
        &&& t matches Some(x) ==> x >= k + if self.bit_pos > 0 { 1int } else { 0int }
        &&& if self.bit_pos == 0 {
            &&& ep_bytes(d, self.byte_pos as int, self.zero_bytes as int) == s.skip(k)
            &&& ep_trap(d, self.byte_pos as int, self.zero_bytes as int) == trap_after(t, k)
        } else {
            &&& self.byte_pos < d.len()
            &&& k < s.len()
            &&& s[k] == d[self.byte_pos as int]
            &&& ep_bytes(d, self.byte_pos + 1, self.zero_bytes as int) == s.skip(k + 1)
            &&& ep_trap(d, self.byte_pos + 1, self.zero_bytes as int) == trap_after(t, k + 1)
        }
    }

    fn new(data: &'a [u8]) -> (r: Self)
        ensures
            r.inv(),
            r.data@ == data@,
            r.pos() == 0,
            !r.overflowed,
    {
        let r = Self {
            data,
            byte_pos: 0,
            bit_pos: 0,
            zero_bytes: 0,
            overflowed: false,
            taken: Ghost(0),
        };
        assert(r.src().bytes.skip(0) == r.src().bytes);
        proof {
            lemma_ep_trap_bound(data@, 0, 0);
        }
        r
    }

    fn read_bit(&mut self) -> (r: Option<u8>)
        requires
            old(self).inv(),
            !old(self).overflowed,
        ensures
            final(self).inv(),
            final(self).data@ == old(self).data@,
            agrees(read_bit(old(self).src(), old(self).pos()), r, final(self).pos(), final(self).overflowed),
    {
        let ghost d = self.data@;
        let ghost s = self.src().bytes;
        let ghost t = self.src().trap;
        proof {
            lemma_ep_trap_bound(d, 0, 0);
        }
        if self.byte_pos >= self.data.len() {
            assert(ep_bytes(d, self.byte_pos as int, self.zero_bytes as int).len() == 0);
            assert(s.skip(self.taken@).len() == 0);
            return None;
        }
        if self.bit_pos == 0 {
            if self.zero_bytes == 2 && self.data[self.byte_pos] == 0x03 {
                self.byte_pos += 1;
                self.zero_bytes = 0;
                if self.byte_pos >= self.data.len() {
                    assert(ep_bytes(d, self.byte_pos as int, 0).len() == 0);
                    assert(s.skip(self.taken@).len() == 0);
                    return None;
                }
            }
            let ghost bp = self.byte_pos as int;
            let ghost z = self.zero_bytes as int;
            let ghost k = self.taken@;
            let ghost nz = if d[bp] == 0 { z + 1 } else { 0 };
            assert(ep_bytes(d, bp, z) == seq![d[bp]] + ep_bytes(d, bp + 1, nz));
            assert(ep_trap(d, bp, z) == if nz >= 256 {
                Some(0int)
            } else {
                match ep_trap(d, bp + 1, nz) {
                    Some(x) => Some(x + 1),
                    None => None,
                }
            });
            proof {
                lemma_ep_trap_bound(d, bp + 1, nz);
            }
            assert(s.skip(k) == seq![d[bp]] + ep_bytes(d, bp + 1, nz));
            assert(s.skip(k)[0] == s[k]);
            assert(s.skip(k + 1) =~= s.skip(k).skip(1));
            assert(ep_bytes(d, bp + 1, nz) =~= (seq![d[bp]] + ep_bytes(d, bp + 1, nz)).skip(1));
            if self.data[self.byte_pos] == 0x00 {
                if self.zero_bytes == 255 {
                    self.overflowed = true;
                    return None;
                }
                self.zero_bytes += 1;
            } else {
                self.zero_bytes = 0;
            }
        }
        let byte = self.data[self.byte_pos];
        let shift = 7 - self.bit_pos;
        let bit = (byte >> shift) & 1;
        assert((8 * self.taken@ + self.bit_pos) / 8 == self.taken@);
        assert((8 * self.taken@ + self.bit_pos) % 8 == self.bit_pos as int);
        self.bit_pos += 1;
        if self.bit_pos == 8 {
            self.bit_pos = 0;
            self.byte_pos += 1;
            self.taken = Ghost(self.taken@ + 1);
        }
        Some(bit)
    }

    /// Reads `n` bits as an unsigned number, keeping the last 32 of them.
    #[verifier::loop_isolation(false)]
    fn read_u(&mut self, n: usize) -> (r: Option<u32>)
        requires
            old(self).inv(),
            !old(self).overflowed,
        ensures
            final(self).inv(),
            final(self).data@ == old(self).data@,
            agrees(read_bits(old(self).src(), old(self).pos(), n as nat), r, final(self).pos(), final(self).overflowed),
    {
        let ghost src = self.src();
        let ghost d = self.data@;
        let ghost start = self.pos();
        let mut val: u32 = 0;
        let mut i: usize = 0;
        while i < n
            invariant
                self.inv(),
                !self.overflowed,
                self.data@ == d,
                src == slice_src(d),
                0 <= i <= n,
                read_bits_int(src, start, i as nat) is Val,
                read_bits_int(src, start, i as nat)->1 == self.pos(),
                read_bits_int(src, start, i as nat)->0 >= 0,
                val as int == read_bits_int(src, start, i as nat)->0 % 0x1_0000_0000,
            decreases n - i,
        {
            proof {
                lemma_read_bits_bound(src, start, i as nat);
            }
            let ghost raw = read_bits_int(src, start, i as nat)->0;
            let b = match self.read_bit() {
                Some(b) => b,
                None => {
                    proof {
                        lemma_read_bits_stops(src, start, (i + 1) as nat, n as nat);
                    }
                    return None;
                },
            };
            proof {
                lemma_bit_of_le_1(src.bytes, self.pos() - 1);
                lemma_shift_in_bit(val, b, raw);
            }
            val = (val << 1) | (b as u32);
            i += 1;
        }
        Some(val)
    }

    /// Reads an unsigned Exp-Golomb code.
    fn read_ue(&mut self) -> (r: Option<u32>)
        requires
            old(self).inv(),
            !old(self).overflowed,
        ensures
            final(self).inv(),
            final(self).data@ == old(self).data@,
            agrees(read_ue(old(self).src(), old(self).pos()), r, final(self).pos(), final(self).overflowed),
    {
        let ghost src = self.src();
        let ghost d = self.data@;
        let ghost start = self.pos();
        let mut zeros: usize = 0;
        loop
            invariant_except_break
                self.inv(),
                !self.overflowed,
                self.data@ == d,
                d == old(self).data@,
                src == old(self).src(),
                start == old(self).pos(),
                src == slice_src(d),
                0 <= self.pos() <= 8 * src.bytes.len(),
                count_zeros(src, start, 0) == count_zeros(src, self.pos(), zeros as nat),
            ensures
                self.inv(),
                !self.overflowed,
                self.data@ == d,
                d == old(self).data@,
                src == old(self).src(),
                start == old(self).pos(),
                src == slice_src(d),
                count_zeros(src, start, 0) == Step::Val(zeros as nat, self.pos()),
            decreases 8 * src.bytes.len() - self.pos(),
        {
            let ghost p = self.pos();
            let b = match self.read_bit() {
                Some(b) => b,
                None => {
                    return None;
                },
            };
            proof {
                lemma_bit_of_le_1(src.bytes, p);
            }
            if b != 0 {
                break;
            }
            if zeros == usize::MAX {
                self.overflowed = true;
                return None;
            }
            zeros += 1;
        }
        if zeros == 0 {
            return Some(0);
        }
        let ghost p = self.pos();
        let val = match self.read_u(zeros) {
            Some(v) => v,
            None => {
                return None;
            },
        };
        if zeros >= 32 {
            self.overflowed = true;
            return None;
        }
        proof {
            lemma_read_bits_small(src, p, zeros as nat);
            lemma_read_bits_bound(src, p, zeros as nat);
            lemma_one_shl(zeros as u32);
        }
        Some((1u32 << (zeros as u32)) - 1 + val)
    }
}


fn read_slice_header(br: &mut BitReader, nal_unit_type: u8, sps: &SpsInfo) -> (r: Option<SliceHeader>)
    requires
        old(br).inv(),
        !old(br).overflowed,
        old(br).pos() == 0,
    ensures
        agrees(
            slice_header_step(old(br).src(), nal_unit_type, *sps),
            r,
            final(br).pos(),
            final(br).overflowed,
        ),
{
    let first_mb_in_slice = br.read_ue()?;
    let slice_type = br.read_ue()?;
    let pic_parameter_set_id = br.read_ue()?;
    if sps.log2_max_frame_num_minus4 > 251 {
        br.overflowed = true;
        return None;
    }
    let frame_num_len = (sps.log2_max_frame_num_minus4 + 4) as usize;
    let frame_num_bits = br.read_u(frame_num_len)?;
    let frame_num = frame_num_bits as u16;
    assert(frame_num == (frame_num_bits as int % 0x1_0000) as u16) by (bit_vector)
        requires frame_num == frame_num_bits as u16;
    if !sps.frame_mbs_only_flag {
        let field_pic_flag = br.read_u(1)?;
        if field_pic_flag == 1 {
            let _bottom_field_flag = br.read_u(1)?;
        }
    }
    if nal_unit_type == 5 {
        let _idr_pic_id = br.read_ue()?;
    }
    let mut pic_order_cnt_lsb: u32 = 0;
    if sps.pic_order_cnt_type == 0 {
        if sps.log2_max_pic_order_cnt_lsb_minus4 > 251 {
            br.overflowed = true;
            return None;
        }
        let poc_len = (sps.log2_max_pic_order_cnt_lsb_minus4 + 4) as usize;
        pic_order_cnt_lsb = br.read_u(poc_len)?;
    }
    Some(SliceHeader {
        first_mb_in_slice,
        slice_type,
        pic_parameter_set_id,
        frame_num,
        pic_order_cnt_lsb,
    })
}

/// Parses a slice header, and tells whether parsing it overflowed.
fn run_slice_header(slice_data: &[u8], nal_unit_type: u8, sps: &SpsInfo) -> (r: (Option<SliceHeader>, bool))
    ensures
        r.1 == slice_header_overflows(slice_data@, nal_unit_type, *sps),
        r.0 == spec_parse_slice_header(slice_data@, nal_unit_type, *sps),
{
    let mut br = BitReader::new(slice_data);
    let h = read_slice_header(&mut br, nal_unit_type, sps);
    (h, br.overflowed)
}

/// Parses the leading fields of a slice header (the bytes after the NAL
/// unit header), dropping emulation-prevention bytes. Returns `None` when
/// the bytes end before the fields do.
pub fn parse_slice_header(slice_data: &[u8], nal_unit_type: u8, sps: &SpsInfo) -> (r: Option<SliceHeader>)
    requires
        !slice_header_overflows(slice_data@, nal_unit_type, *sps),
    ensures
        r == spec_parse_slice_header(slice_data@, nal_unit_type, *sps),
{
    run_slice_header(slice_data, nal_unit_type, sps).0
}

/// Whether `parse_slice_header` on these inputs would overflow an integer.
pub fn slice_header_would_overflow(slice_data: &[u8], nal_unit_type: u8, sps: &SpsInfo) -> (b: bool)
    ensures
        b == slice_header_overflows(slice_data@, nal_unit_type, *sps),
{
    run_slice_header(slice_data, nal_unit_type, sps).1
}

/// The fields of a parsed SPS that slice header parsing needs. `None` when
/// its picture order count type does not fit in a `u8` (the invalid value).
pub fn slice_sps_info(sps: &SequenceParameterSet) -> (r: Option<SpsInfo>)
    ensures
        r == if sps.pic_order_cnt_type <= 255 {
            Some(
                SpsInfo {
                    log2_max_frame_num_minus4: sps.log2_max_frame_num_minus4,
                    frame_mbs_only_flag: sps.flags.frame_mbs_only_flag != 0,
                    pic_order_cnt_type: sps.pic_order_cnt_type as u8,
                    log2_max_pic_order_cnt_lsb_minus4: sps.log2_max_pic_order_cnt_lsb_minus4,
                },
            )
        } else {
            None
        },
{
    if sps.pic_order_cnt_type > 255 {
        return None;
    }
    Some(
        SpsInfo {
            log2_max_frame_num_minus4: sps.log2_max_frame_num_minus4,
            frame_mbs_only_flag: sps.flags.frame_mbs_only_flag != 0,
            pic_order_cnt_type: sps.pic_order_cnt_type as u8,
            log2_max_pic_order_cnt_lsb_minus4: sps.log2_max_pic_order_cnt_lsb_minus4,
        },
    )
}

/// The frame number and picture order count a decoded picture is given.
#[derive(Debug, Clone, Copy, PartialEq, Eq)]
pub struct PictureOrder {
    pub frame_num: u16,
    pub pic_order_cnt: i32,
}

/// Numbers a picture from its slice header: the frame number is the
/// header's, and the picture order count is `pic_order_cnt_lsb` (taken as
/// an `i32`) for picture order count type 0, twice the frame number
/// otherwise. Without a header the pictures are numbered by the count of
/// decoded frames: frame number `frame_count % 16` and order count
/// `frame_count`, which fails (`None`) above `i32::MAX`.
pub fn picture_order(slice_header: Option<&SliceHeader>, pic_order_cnt_type: u32, frame_count: usize) -> (r: Option<
    PictureOrder,
>)
    ensures
        match slice_header {
            Some(h) => r == Some(
                PictureOrder {
                    frame_num: h.frame_num,
                    pic_order_cnt: if pic_order_cnt_type == 0 {
                        h.pic_order_cnt_lsb as i32
                    } else {
                        (2 * h.frame_num) as i32
                    },
                },
            ),
            None => r == if frame_count <= i32::MAX {
                Some(PictureOrder { frame_num: (frame_count % 16) as u16, pic_order_cnt: frame_count as i32 })
            } else {
                None
            },
        },
{
    match slice_header {
        Some(h) => {
            let frame_num = h.frame_num;
            let pic_order_cnt = match pic_order_cnt_type {
                0 => #[verifier::truncate] (h.pic_order_cnt_lsb as i32),
                2 => (frame_num as i32) * 2,
                _ => (frame_num as i32) * 2,
            };
            Some(PictureOrder { frame_num, pic_order_cnt })
        },
        None => {
            if frame_count > i32::MAX as usize {
                return None;
            }
            Some(PictureOrder { frame_num: (frame_count % 16) as u16, pic_order_cnt: frame_count as i32 })
        },
    }
}

} // verus!
