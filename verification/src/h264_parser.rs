use crate::bitstream::{
    agrees, agrees_value, count_zeros, lemma_bit_of_le_1, lemma_one_shl, lemma_read_bits_bound, lemma_read_bits_small,
    lemma_read_bits_stops, lemma_shift_in_bit, read_bit, read_bit32, read_bits, read_bits_int, read_se,
    read_ue, stop, BitSrc, Step,
};
use vstd::prelude::*;
use vstd::std_specs::bits::u8_trailing_zeros;

verus! {

/// The RBSP bytes of `d` from position `i`: each `00 00 03` becomes `00 00`.
pub open spec fn unescape_from(d: Seq<u8>, i: int) -> Seq<u8>
    decreases d.len() - i,
{
    if i < 0 || i >= d.len() {
        Seq::empty()
    } else if i + 2 < d.len() && d[i] == 0 && d[i + 1] == 0 && d[i + 2] == 3 {
        seq![0u8, 0u8] + unescape_from(d, i + 3)
    } else {
        seq![d[i]] + unescape_from(d, i + 1)
    }
}

/// The RBSP of a NAL unit payload: emulation-prevention bytes removed.
pub open spec fn unescape(d: Seq<u8>) -> Seq<u8> {
    unescape_from(d, 0)
}

fn unescape_rbsp(data: &[u8]) -> (rbsp: Vec<u8>)
    ensures
        rbsp@ == unescape(data@),
{
    let mut rbsp: Vec<u8> = Vec::with_capacity(data.len());
    let mut i: usize = 0;
    assert(rbsp@ =~= Seq::<u8>::empty());
    while i < data.len()
        invariant
            i <= data.len(),
            rbsp@ + unescape_from(data@, i as int) == unescape(data@),
        decreases data.len() - i,
    {
        if data.len() >= 3 && i < data.len() - 2 && data[i] == 0x00 && data[i + 1] == 0x00 && data[i + 2]
            == 0x03 {
            let ghost before = rbsp@;
            rbsp.push(0x00);
            rbsp.push(0x00);
            assert(before + unescape_from(data@, i as int) =~= rbsp@ + unescape_from(data@, i + 3));
            i += 3;
        } else {
            let ghost before = rbsp@;
            rbsp.push(data[i]);
            assert(before + unescape_from(data@, i as int) =~= rbsp@ + unescape_from(data@, i + 1));
            i += 1;
        }
    }
    assert(rbsp@ =~= rbsp@ + unescape_from(data@, i as int));
    rbsp
}

/// The bit stream of an SPS or PPS payload.
pub open spec fn rbsp_src(d: Seq<u8>) -> BitSrc {
    BitSrc { bytes: unescape(d), trap: None }
}

/// Index of the last nonzero byte among `bytes[from..hi]`.
pub open spec fn last_nonzero(bytes: Seq<u8>, from: int, hi: int) -> Option<int>
    decreases hi - from,
{
    if hi <= from {
        None
    } else if bytes[hi - 1] != 0 {
        Some(hi - 1)
    } else {
        last_nonzero(bytes, from, hi - 1)
    }
}

/// Whether RBSP data remains before the stop bit: the position `pos` lies
/// before the last one bit of the stream. `None` when computing a bit
/// position overflows `usize`.
pub open spec fn more_rbsp_data(src: BitSrc, pos: int) -> Option<bool> {
    match last_nonzero(src.bytes, pos / 8, src.bytes.len() as int) {
        None => Some(false),
        Some(j) => {
            let last = j * 8 + (7 - u8_trailing_zeros(src.bytes[j]));
            if last > usize::MAX || pos > usize::MAX {
                None
            } else {
                Some(pos < last)
            }
        },
    }
}

/// Big-endian 16-bit value of `e[i]`, `e[i + 1]`.
pub open spec fn be16(e: Seq<u8>, i: int) -> int {
    e[i] * 256 + e[i + 1]
}

/// The first SPS of an `avcC` configuration record: after the 6-byte
/// header, whose last 5 bits give the number of SPS entries, comes a 16-bit
/// length and the SPS.
pub open spec fn spec_extract_sps(e: Seq<u8>) -> Option<Seq<u8>> {
    if e.len() < 8 || e[5] % 32 == 0 || e.len() < 8 + be16(e, 6) {
        None
    } else {
        Some(e.subrange(8, 8 + be16(e, 6)))
    }
}

/// The position after `count` length-prefixed entries that start at `offset`,
/// or `None` when a length prefix does not fit.
pub open spec fn skip_entries(e: Seq<u8>, offset: int, count: nat) -> Option<int>
    decreases count,
{
    if count == 0 {
        Some(offset)
    } else if offset + 2 > e.len() {
        None
    } else {
        skip_entries(e, offset + 2 + be16(e, offset), (count - 1) as nat)
    }
}

/// The first PPS of an `avcC` configuration record: after all SPS entries
/// come the number of PPS entries, a 16-bit length and the PPS.
pub open spec fn spec_extract_pps(e: Seq<u8>) -> Option<Seq<u8>> {
    if e.len() < 8 {
        None
    } else {
        match skip_entries(e, 6, (e[5] % 32) as nat) {
            None => None,
            Some(off) => if off >= e.len() || e[off] == 0 || off + 3 > e.len() || off + 3 + be16(
                e,
                off + 1,
            ) > e.len() {
                None
            } else {
                Some(e.subrange(off + 3, off + 3 + be16(e, off + 1)))
            },
        }
    }
}

/// Returns the bytes of the first SPS of an `avcC` configuration record.
pub fn extract_sps_bytes(extradata: &[u8]) -> (r: Option<&[u8]>)
    ensures
        match spec_extract_sps(extradata@) {
            Some(sps) => r matches Some(b) && b@ == sps,
            None => r is None,
        },
{
    if extradata.len() < 8 {
        return None;
    }
    let first = extradata[5];
    let num_sps = first & 0x1F;
    assert(num_sps == first % 32) by (bit_vector)
        requires num_sps == first & 0x1F;
    if num_sps == 0 {
        return None;
    }
    let sps_len = (extradata[6] as usize) * 256 + extradata[7] as usize;
    if extradata.len() < 8 + sps_len {
        return None;
    }
    Some(&extradata[8..8 + sps_len])
}

/// Returns the bytes of the first PPS of an `avcC` configuration record.
pub fn extract_pps_bytes(extradata: &[u8]) -> (r: Option<&[u8]>)
    requires
        extradata.len() <= isize::MAX,
    ensures
        match spec_extract_pps(extradata@) {
            Some(pps) => r matches Some(b) && b@ == pps,
            None => r is None,
        },
{
    let ghost e = extradata@;
    if extradata.len() < 8 {
        return None;
    }
    let first = extradata[5];
    let num_sps = (first & 0x1F) as usize;
    assert(num_sps == first % 32) by (bit_vector)
        requires num_sps == (first & 0x1F) as usize;
    let mut offset: usize = 6;
    let mut k: usize = 0;
    while k < num_sps
        invariant
            e == extradata@,
            extradata.len() <= isize::MAX,
            k <= num_sps <= 31,
            num_sps == e[5] % 32,
            e.len() >= 8,
            offset <= extradata.len() + 0x10001,
            skip_entries(e, 6, num_sps as nat) == skip_entries(e, offset as int, (num_sps - k) as nat),
        decreases num_sps - k,
    {
        if offset + 2 > extradata.len() {
            return None;
        }
        let sps_len = (extradata[offset] as usize) * 256 + extradata[offset + 1] as usize;
        offset += 2 + sps_len;
        k += 1;
    }
    if offset >= extradata.len() {
        return None;
    }
    let num_pps = extradata[offset] as usize;
    if num_pps == 0 {
        return None;
    }
    offset += 1;
    if offset + 2 > extradata.len() {
        return None;
    }
    let pps_len = (extradata[offset] as usize) * 256 + extradata[offset + 1] as usize;
    offset += 2;
    if offset + pps_len > extradata.len() {
        return None;
    }
    Some(&extradata[offset..offset + pps_len])
}

/// Vulkan's value for an invalid enumerant of the H.264 video enums.
pub const STD_VIDEO_H264_INVALID: u32 = 0x7fff_ffff;

/// Vulkan's `StdVideoH264ProfileIdc` for a `profile_idc`: Baseline (66), Main
/// (77), High (100) and High 4:4:4 Predictive (244) keep their number; any
/// other is invalid.
pub open spec fn std_profile_idc(p: u32) -> u32 {
    if p == 66 || p == 77 || p == 100 || p == 244 {
        p
    } else {
        STD_VIDEO_H264_INVALID
    }
}

/// Vulkan's `StdVideoH264LevelIdc` for a `level_idc` (ten times the level):
/// the levels 1.0, 1.1, ..., 6.2 are numbered 0 to 18; any other is invalid.
pub open spec fn std_level_idc(l: u32) -> u32 {
    match l {
        10 => 0,
        11 => 1,
        12 => 2,
        13 => 3,
        20 => 4,
        21 => 5,
        22 => 6,
        30 => 7,
        31 => 8,
        32 => 9,
        40 => 10,
        41 => 11,
        42 => 12,
        50 => 13,
        51 => 14,
        52 => 15,
        60 => 16,
        61 => 17,
        62 => 18,
        _ => STD_VIDEO_H264_INVALID,
    }
}

/// Vulkan's enumerant for a value of a field whose valid values are `0..count`.
pub open spec fn std_small_enum(v: u32, count: u32) -> u32 {
    if v < count {
        v
    } else {
        STD_VIDEO_H264_INVALID
    }
}

/// The lowest 8 bits of `x` (what `x as u8` keeps).
pub open spec fn low8(x: u32) -> u8 {
    (x % 256) as u8
}

/// The H.264 profiles whose SPS carries chroma format, bit depths and scaling lists.
pub open spec fn is_high_profile(p: u32) -> bool {
    p == 100 || p == 110 || p == 122 || p == 244 || p == 44 || p == 83 || p == 86 || p == 118 || p
        == 128 || p == 138 || p == 139 || p == 134 || p == 135
}

/// The remainder of `t` by 256 with the sign of `t` (Rust's `%` on `i32`).
pub open spec fn rem256(t: int) -> int {
    if t >= 0 {
        t % 256
    } else {
        -((-t) % 256)
    }
}

/// The first fields of an SPS: the NAL header byte and constraint flags are skipped.
pub struct SpsHead {
    pub profile_idc: u32,
    pub level_idc: u32,
    pub seq_parameter_set_id: u32,
}

/// The chroma and bit depth fields of an SPS of a high profile.
pub struct SpsChroma {
    pub chroma_format_idc: u32,
    pub separate_colour_plane_flag: u32,
    pub bit_depth_luma_minus8: u32,
    pub bit_depth_chroma_minus8: u32,
    pub qpprime_y_zero_transform_bypass_flag: u32,
    pub seq_scaling_matrix_present_flag: u32,
}

/// The frame number and picture order count fields of an SPS.
pub struct SpsPoc {
    pub log2_max_frame_num_minus4: u32,
    pub pic_order_cnt_type: u32,
    pub log2_max_pic_order_cnt_lsb_minus4: u32,
    pub delta_pic_order_always_zero_flag: u32,
    pub offset_for_non_ref_pic: i32,
    pub offset_for_top_to_bottom_field: i32,
    pub num_ref_frames_in_pic_order_cnt_cycle: u32,
}

/// The reference frame, size and cropping fields of an SPS.
pub struct SpsFrame {
    pub max_num_ref_frames: u32,
    pub gaps_in_frame_num_value_allowed_flag: u32,
    pub pic_width_in_mbs_minus1: u32,
    pub pic_height_in_map_units_minus1: u32,
    pub frame_mbs_only_flag: u32,
    pub mb_adaptive_frame_field_flag: u32,
    pub direct_8x8_inference_flag: u32,
    pub frame_cropping_flag: u32,
    pub frame_crop_left_offset: u32,
    pub frame_crop_right_offset: u32,
    pub frame_crop_top_offset: u32,
    pub frame_crop_bottom_offset: u32,
}

/// The flags of a parsed SPS, each 0 or 1.
pub struct SpsFlags {
    pub direct_8x8_inference_flag: u32,
    pub mb_adaptive_frame_field_flag: u32,
    pub frame_mbs_only_flag: u32,
    pub delta_pic_order_always_zero_flag: u32,
    pub separate_colour_plane_flag: u32,
    pub gaps_in_frame_num_value_allowed_flag: u32,
    pub qpprime_y_zero_transform_bypass_flag: u32,
    pub frame_cropping_flag: u32,
    pub seq_scaling_matrix_present_flag: u32,
    pub vui_parameters_present_flag: u32,
}

/// A parsed sequence parameter set, with the fields and value encodings of
/// Vulkan's `StdVideoH264SequenceParameterSet`.
pub struct SequenceParameterSet {
    pub flags: SpsFlags,
    pub profile_idc: u32,
    pub level_idc: u32,
    pub chroma_format_idc: u32,
    pub seq_parameter_set_id: u8,
    pub bit_depth_luma_minus8: u8,
    pub bit_depth_chroma_minus8: u8,
    pub log2_max_frame_num_minus4: u8,
    pub pic_order_cnt_type: u32,
    pub offset_for_non_ref_pic: i32,
    pub offset_for_top_to_bottom_field: i32,
    pub log2_max_pic_order_cnt_lsb_minus4: u8,
    pub num_ref_frames_in_pic_order_cnt_cycle: u8,
    pub max_num_ref_frames: u8,
    pub pic_width_in_mbs_minus1: u32,
    pub pic_height_in_map_units_minus1: u32,
    pub frame_crop_left_offset: u32,
    pub frame_crop_right_offset: u32,
    pub frame_crop_top_offset: u32,
    pub frame_crop_bottom_offset: u32,
}

#[verifier::opaque]
pub open spec fn sps_head_step(src: BitSrc) -> Step<SpsHead> {
    let a = read_bits(src, 0, 8);
    match a {
        Step::Val(_, p1) => {
            let b = read_bits(src, p1, 8);
            match b {
                Step::Val(profile_idc, p2) => {
                    let c = read_bits(src, p2, 8);
                    match c {
                        Step::Val(_, p3) => {
                            let d = read_bits(src, p3, 8);
                            match d {
                                Step::Val(level_idc, p4) => {
                                    let e = read_ue(src, p4);
                                    match e {
                                        Step::Val(seq_parameter_set_id, p5) => Step::Val(
                                            SpsHead { profile_idc, level_idc, seq_parameter_set_id },
                                            p5,
                                        ),
                                        _ => stop(e),
                                    }
                                },
                                _ => stop(d),
                            }
                        },
                        _ => stop(c),
                    }
                },
                _ => stop(b),
            }
        },
        _ => stop(a),
    }
}

/// Skips the deltas of one scaling list of `remaining` entries, given the
/// next and last scale values so far. A delta is read only while the next
/// scale is nonzero.
pub open spec fn scaling_list_step(src: BitSrc, p: int, remaining: nat, next: int, last: int) -> Step<()>
    decreases remaining,
{
    if remaining == 0 {
        Step::Val((), p)
    } else if next != 0 {
        let a = read_se(src, p);
        match a {
            Step::Val(delta, q) => {
                let nn = rem256(last + delta + 256);
                scaling_list_step(src, q, (remaining - 1) as nat, nn, if nn == 0 { last } else { nn })
            },
            _ => stop(a),
        }
    } else {
        scaling_list_step(src, p, (remaining - 1) as nat, next, last)
    }
}

/// Skips the scaling lists `i..limit`: each has a presence bit, and the
/// first six have 16 entries, the others 64.
pub open spec fn scaling_lists_step(src: BitSrc, p: int, i: nat, limit: nat) -> Step<()>
    decreases limit - i,
{
    if i >= limit {
        Step::Val((), p)
    } else {
        let a = read_bit32(src, p);
        match a {
            Step::Val(present, q) => {
                let b = if present == 1 {
                    scaling_list_step(src, q, if i < 6 { 16 } else { 64 }, 8, 8)
                } else {
                    Step::Val((), q)
                };
                match b {
                    Step::Val(_, r) => scaling_lists_step(src, r, i + 1, limit),
                    _ => stop(b),
                }
            },
            _ => stop(a),
        }
    }
}

/// The chroma fields; for profiles that are not high they are 4:2:0, 8-bit, no scaling matrix.
#[verifier::opaque]
pub open spec fn sps_chroma_step(src: BitSrc, p: int, profile_idc: u32) -> Step<SpsChroma> {
    if !is_high_profile(profile_idc) {
        Step::Val(
            SpsChroma {
                chroma_format_idc: 1,
                separate_colour_plane_flag: 0,
                bit_depth_luma_minus8: 0,
                bit_depth_chroma_minus8: 0,
                qpprime_y_zero_transform_bypass_flag: 0,
                seq_scaling_matrix_present_flag: 0,
            },
            p,
        )
    } else {
        let a = read_ue(src, p);
        match a {
            Step::Val(chroma_format_idc, p1) => {
                let b = if chroma_format_idc == 3 {
                    read_bit32(src, p1)
                } else {
                    Step::Val(0, p1)
                };
                match b {
                    Step::Val(separate_colour_plane_flag, p2) => {
                        let c = read_ue(src, p2);
                        match c {
                            Step::Val(bit_depth_luma_minus8, p3) => {
                                let d = read_ue(src, p3);
                                match d {
                                    Step::Val(bit_depth_chroma_minus8, p4) => {
                                        let e = read_bit32(src, p4);
                                        match e {
                                            Step::Val(qpprime_y_zero_transform_bypass_flag, p5) => {
                                                let f = read_bit32(src, p5);
                                                match f {
                                                    Step::Val(seq_scaling_matrix_present_flag, p6) => {
                                                        let g = if seq_scaling_matrix_present_flag == 1 {
                                                            scaling_lists_step(
                                                                src,
                                                                p6,
                                                                0,
                                                                if chroma_format_idc != 3 { 8 } else { 12 },
                                                            )
                                                        } else {
                                                            Step::Val((), p6)
                                                        };
                                                        match g {
                                                            Step::Val(_, p7) => Step::Val(
                                                                SpsChroma {
                                                                    chroma_format_idc,
                                                                    separate_colour_plane_flag,
                                                                    bit_depth_luma_minus8,
                                                                    bit_depth_chroma_minus8,
                                                                    qpprime_y_zero_transform_bypass_flag,
                                                                    seq_scaling_matrix_present_flag,
                                                                },
                                                                p7,
                                                            ),
                                                            _ => stop(g),
                                                        }
                                                    },
                                                    _ => stop(f),
                                                }
                                            },
                                            _ => stop(e),
                                        }
                                    },
                                    _ => stop(d),
                                }
                            },
                            _ => stop(c),
                        }
                    },
                    _ => stop(b),
                }
            },
            _ => stop(a),
        }
    }
}

/// Skips `count` signed Exp-Golomb codes.
pub open spec fn skip_se_step(src: BitSrc, p: int, count: nat) -> Step<()>
    decreases count,
{
    if count == 0 {
        Step::Val((), p)
    } else {
        let a = read_se(src, p);
        match a {
            Step::Val(_, q) => skip_se_step(src, q, (count - 1) as nat),
            _ => stop(a),
        }
    }
}

/// The picture order count fields of type 1: the offsets for the cycle of
/// reference frames are read and dropped.
pub open spec fn sps_poc1_step(src: BitSrc, p: int, log2_max_frame_num_minus4: u32) -> Step<SpsPoc> {
    let a = read_bit32(src, p);
    match a {
        Step::Val(delta_pic_order_always_zero_flag, p1) => {
            let b = read_se(src, p1);
            match b {
                Step::Val(offset_for_non_ref_pic, p2) => {
                    let c = read_se(src, p2);
                    match c {
                        Step::Val(offset_for_top_to_bottom_field, p3) => {
                            let d = read_ue(src, p3);
                            match d {
                                Step::Val(num_ref_frames_in_pic_order_cnt_cycle, p4) => {
                                    let e = skip_se_step(src, p4, num_ref_frames_in_pic_order_cnt_cycle as nat);
                                    match e {
                                        Step::Val(_, p5) => Step::Val(
                                            SpsPoc {
                                                log2_max_frame_num_minus4,
                                                pic_order_cnt_type: 1,
                                                log2_max_pic_order_cnt_lsb_minus4: 0,
                                                delta_pic_order_always_zero_flag,
                                                offset_for_non_ref_pic,
                                                offset_for_top_to_bottom_field,
                                                num_ref_frames_in_pic_order_cnt_cycle,
                                            },
                                            p5,
                                        ),
                                        _ => stop(e),
                                    }
                                },
                                _ => stop(d),
                            }
                        },
                        _ => stop(c),
                    }
                },
                _ => stop(b),
            }
        },
        _ => stop(a),
    }
}

#[verifier::opaque]
pub open spec fn sps_poc_step(src: BitSrc, p: int) -> Step<SpsPoc> {
    let a = read_ue(src, p);
    match a {
        Step::Val(log2_max_frame_num_minus4, p1) => {
            let b = read_ue(src, p1);
            match b {
                Step::Val(pic_order_cnt_type, p2) => if pic_order_cnt_type == 0 {
                    let c = read_ue(src, p2);
                    match c {
                        Step::Val(log2_max_pic_order_cnt_lsb_minus4, p3) => Step::Val(
                            SpsPoc {
                                log2_max_frame_num_minus4,
                                pic_order_cnt_type,
                                log2_max_pic_order_cnt_lsb_minus4,
                                delta_pic_order_always_zero_flag: 0,
                                offset_for_non_ref_pic: 0,
                                offset_for_top_to_bottom_field: 0,
                                num_ref_frames_in_pic_order_cnt_cycle: 0,
                            },
                            p3,
                        ),
                        _ => stop(c),
                    }
                } else if pic_order_cnt_type == 1 {
                    sps_poc1_step(src, p2, log2_max_frame_num_minus4)
                } else {
                    Step::Val(
                        SpsPoc {
                            log2_max_frame_num_minus4,
                            pic_order_cnt_type,
                            log2_max_pic_order_cnt_lsb_minus4: 0,
                            delta_pic_order_always_zero_flag: 0,
                            offset_for_non_ref_pic: 0,
                            offset_for_top_to_bottom_field: 0,
                            num_ref_frames_in_pic_order_cnt_cycle: 0,
                        },
                        p2,
                    )
                },
                _ => stop(b),
            }
        },
        _ => stop(a),
    }
}

/// The four cropping offsets, read when the cropping flag is 1.
pub open spec fn sps_crop_step(src: BitSrc, p: int, frame_cropping_flag: u32) -> Step<(u32, u32, u32, u32)> {
    if frame_cropping_flag == 1 {
        let a = read_ue(src, p);
        match a {
            Step::Val(l, p1) => {
                let b = read_ue(src, p1);
                match b {
                    Step::Val(r, p2) => {
                        let c = read_ue(src, p2);
                        match c {
                            Step::Val(t, p3) => {
                                let d = read_ue(src, p3);
                                match d {
                                    Step::Val(bo, p4) => Step::Val((l, r, t, bo), p4),
                                    _ => stop(d),
                                }
                            },
                            _ => stop(c),
                        }
                    },
                    _ => stop(b),
                }
            },
            _ => stop(a),
        }
    } else {
        Step::Val((0, 0, 0, 0), p)
    }
}

#[verifier::opaque]
pub open spec fn sps_frame_step(src: BitSrc, p: int) -> Step<SpsFrame> {
    let a = read_ue(src, p);
    match a {
        Step::Val(max_num_ref_frames, p1) => {
            let b = read_bit32(src, p1);
            match b {
                Step::Val(gaps_in_frame_num_value_allowed_flag, p2) => {
                    let c = read_ue(src, p2);
                    match c {
                        Step::Val(pic_width_in_mbs_minus1, p3) => {
                            let d = read_ue(src, p3);
                            match d {
                                Step::Val(pic_height_in_map_units_minus1, p4) => {
                                    let e = read_bit32(src, p4);
                                    match e {
                                        Step::Val(frame_mbs_only_flag, p5) => {
                                            let f = if frame_mbs_only_flag == 0 {
                                                read_bit32(src, p5)
                                            } else {
                                                Step::Val(0, p5)
                                            };
                                            match f {
                                                Step::Val(mb_adaptive_frame_field_flag, p6) => {
                                                    let g = read_bit32(src, p6);
                                                    match g {
                                                        Step::Val(direct_8x8_inference_flag, p7) => {
                                                            let h = read_bit32(src, p7);
                                                            match h {
                                                                Step::Val(frame_cropping_flag, p8) => {
                                                                    let k = sps_crop_step(src, p8, frame_cropping_flag);
                                                                    match k {
                                                                        Step::Val(crop, p9) => Step::Val(
                                                                            SpsFrame {
                                                                                max_num_ref_frames,
                                                                                gaps_in_frame_num_value_allowed_flag,
                                                                                pic_width_in_mbs_minus1,
                                                                                pic_height_in_map_units_minus1,
                                                                                frame_mbs_only_flag,
                                                                                mb_adaptive_frame_field_flag,
                                                                                direct_8x8_inference_flag,
                                                                                frame_cropping_flag,
                                                                                frame_crop_left_offset: crop.0,
                                                                                frame_crop_right_offset: crop.1,
                                                                                frame_crop_top_offset: crop.2,
                                                                                frame_crop_bottom_offset: crop.3,
                                                                            },
                                                                            p9,
                                                                        ),
                                                                        _ => stop(k),
                                                                    }
                                                                },
                                                                _ => stop(h),
                                                            }
                                                        },
                                                        _ => stop(g),
                                                    }
                                                },
                                                _ => stop(f),
                                            }
                                        },
                                        _ => stop(e),
                                    }
                                },
                                _ => stop(d),
                            }
                        },
                        _ => stop(c),
                    }
                },
                _ => stop(b),
            }
        },
        _ => stop(a),
    }
}

/// The SPS that the parsed fields give, with the VUI presence bit.
pub open spec fn sps_from_fields(
    head: SpsHead,
    chroma: SpsChroma,
    poc: SpsPoc,
    frame: SpsFrame,
    vui_parameters_present_flag: u32,
) -> SequenceParameterSet {
    SequenceParameterSet {
        flags: SpsFlags {
            direct_8x8_inference_flag: frame.direct_8x8_inference_flag,
            mb_adaptive_frame_field_flag: frame.mb_adaptive_frame_field_flag,
            frame_mbs_only_flag: frame.frame_mbs_only_flag,
            delta_pic_order_always_zero_flag: poc.delta_pic_order_always_zero_flag,
            separate_colour_plane_flag: chroma.separate_colour_plane_flag,
            gaps_in_frame_num_value_allowed_flag: frame.gaps_in_frame_num_value_allowed_flag,
            qpprime_y_zero_transform_bypass_flag: chroma.qpprime_y_zero_transform_bypass_flag,
            frame_cropping_flag: frame.frame_cropping_flag,
            seq_scaling_matrix_present_flag: chroma.seq_scaling_matrix_present_flag,
            vui_parameters_present_flag,
        },
        profile_idc: std_profile_idc(head.profile_idc),
        level_idc: std_level_idc(head.level_idc),
        chroma_format_idc: std_small_enum(chroma.chroma_format_idc, 4),
        seq_parameter_set_id: low8(head.seq_parameter_set_id),
        bit_depth_luma_minus8: low8(chroma.bit_depth_luma_minus8),
        bit_depth_chroma_minus8: low8(chroma.bit_depth_chroma_minus8),
        log2_max_frame_num_minus4: low8(poc.log2_max_frame_num_minus4),
        pic_order_cnt_type: std_small_enum(poc.pic_order_cnt_type, 3),
        offset_for_non_ref_pic: poc.offset_for_non_ref_pic,
        offset_for_top_to_bottom_field: poc.offset_for_top_to_bottom_field,
        log2_max_pic_order_cnt_lsb_minus4: low8(poc.log2_max_pic_order_cnt_lsb_minus4),
        num_ref_frames_in_pic_order_cnt_cycle: low8(poc.num_ref_frames_in_pic_order_cnt_cycle),
        max_num_ref_frames: low8(frame.max_num_ref_frames),
        pic_width_in_mbs_minus1: frame.pic_width_in_mbs_minus1,
        pic_height_in_map_units_minus1: frame.pic_height_in_map_units_minus1,
        frame_crop_left_offset: frame.frame_crop_left_offset,
        frame_crop_right_offset: frame.frame_crop_right_offset,
        frame_crop_top_offset: frame.frame_crop_top_offset,
        frame_crop_bottom_offset: frame.frame_crop_bottom_offset,
    }
}

/// Reading an SPS from its bit stream. The VUI presence bit is 0 when the stream has ended.
pub open spec fn sps_step(src: BitSrc) -> Step<SequenceParameterSet> {
    let a = sps_head_step(src);
    match a {
        Step::Val(head, p1) => {
            let b = sps_chroma_step(src, p1, head.profile_idc);
            match b {
                Step::Val(chroma, p2) => {
                    let c = sps_poc_step(src, p2);
                    match c {
                        Step::Val(poc, p3) => {
                            let d = sps_frame_step(src, p3);
                            match d {
                                Step::Val(frame, p4) => {
                                    match read_bit32(src, p4) {
                                        Step::Val(vui, p5) => Step::Val(sps_from_fields(head, chroma, poc, frame, vui), p5),
                                        _ => Step::Val(sps_from_fields(head, chroma, poc, frame, 0), p4),
                                    }
                                },
                                _ => stop(d),
                            }
                        },
                        _ => stop(c),
                    }
                },
                _ => stop(b),
            }
        },
        _ => stop(a),
    }
}

/// What `parse_sps` returns: the first SPS of the configuration record, parsed.
pub open spec fn spec_parse_sps(extradata: Seq<u8>) -> Option<SequenceParameterSet> {
    match spec_extract_sps(extradata) {
        None => None,
        Some(raw) => match sps_step(rbsp_src(raw)) {
            Step::Val(sps, _) => Some(sps),
            _ => None,
        },
    }
}

/// Whether parsing the SPS overflows an integer (an Exp-Golomb code with 32
/// or more leading zeros, or the code number `i32::MAX` read as a signed code).
pub open spec fn sps_overflows(extradata: Seq<u8>) -> bool {
    match spec_extract_sps(extradata) {
        None => false,
        Some(raw) => sps_step(rbsp_src(raw)) is Trap,
    }
}

/// The first fields of a PPS after the NAL header byte.
pub struct PpsHead {
    pub pic_parameter_set_id: u32,
    pub seq_parameter_set_id: u32,
    pub entropy_coding_mode_flag: u32,
    pub bottom_field_pic_order_in_frame_present_flag: u32,
    pub num_slice_groups_minus1: u32,
}

/// The reference, weighting and quantisation fields of a PPS.
pub struct PpsBody {
    pub num_ref_idx_l0_default_active_minus1: u32,
    pub num_ref_idx_l1_default_active_minus1: u32,
    pub weighted_pred_flag: u32,
    pub weighted_bipred_idc: u32,
    pub pic_init_qp_minus26: i32,
    pub pic_init_qs_minus26: i32,
    pub chroma_qp_index_offset: i32,
    pub deblocking_filter_control_present_flag: u32,
    pub constrained_intra_pred_flag: u32,
    pub redundant_pic_cnt_present_flag: u32,
}

/// The optional trailing fields of a PPS.
pub struct PpsTail {
    pub transform_8x8_mode_flag: u32,
    pub pic_scaling_matrix_present_flag: u32,
    pub second_chroma_qp_index_offset: i32,
}

/// The flags of a parsed PPS, each 0 or 1.
pub struct PpsFlags {
    pub entropy_coding_mode_flag: u32,
    pub bottom_field_pic_order_in_frame_present_flag: u32,
    pub weighted_pred_flag: u32,
    pub deblocking_filter_control_present_flag: u32,
    pub constrained_intra_pred_flag: u32,
    pub redundant_pic_cnt_present_flag: u32,
    pub transform_8x8_mode_flag: u32,
    pub pic_scaling_matrix_present_flag: u32,
}

/// A parsed picture parameter set, with the fields and value encodings of
/// Vulkan's `StdVideoH264PictureParameterSet`.
pub struct PictureParameterSet {
    pub flags: PpsFlags,
    pub pic_parameter_set_id: u8,
    pub seq_parameter_set_id: u8,
    pub num_ref_idx_l0_default_active_minus1: u8,
    pub num_ref_idx_l1_default_active_minus1: u8,
    pub weighted_bipred_idc: u32,
    pub pic_init_qp_minus26: i8,
    pub pic_init_qs_minus26: i8,
    pub chroma_qp_index_offset: i8,
    pub second_chroma_qp_index_offset: i8,
}

#[verifier::opaque]
pub open spec fn pps_head_step(src: BitSrc) -> Step<PpsHead> {
    let a = read_bits(src, 0, 8);
    match a {
        Step::Val(_, p1) => {
            let b = read_ue(src, p1);
            match b {
                Step::Val(pic_parameter_set_id, p2) => {
                    let c = read_ue(src, p2);
                    match c {
                        Step::Val(seq_parameter_set_id, p3) => {
                            let d = read_bit32(src, p3);
                            match d {
                                Step::Val(entropy_coding_mode_flag, p4) => {
                                    let e = read_bit32(src, p4);
                                    match e {
                                        Step::Val(bottom_field_pic_order_in_frame_present_flag, p5) => {
                                            let f = read_ue(src, p5);
                                            match f {
                                                Step::Val(num_slice_groups_minus1, p6) => Step::Val(
                                                    PpsHead {
                                                        pic_parameter_set_id,
                                                        seq_parameter_set_id,
                                                        entropy_coding_mode_flag,
                                                        bottom_field_pic_order_in_frame_present_flag,
                                                        num_slice_groups_minus1,
                                                    },
                                                    p6,
                                                ),
                                                _ => stop(f),
                                            }
                                        },
                                        _ => stop(e),
                                    }
                                },
                                _ => stop(d),
                            }
                        },
                        _ => stop(c),
                    }
                },
                _ => stop(b),
            }
        },
        _ => stop(a),
    }
}

/// Skips `count` unsigned Exp-Golomb codes.
pub open spec fn skip_ue_step(src: BitSrc, p: int, count: nat) -> Step<()>
    decreases count,
{
    if count == 0 {
        Step::Val((), p)
    } else {
        let a = read_ue(src, p);
        match a {
            Step::Val(_, q) => skip_ue_step(src, q, (count - 1) as nat),
            _ => stop(a),
        }
    }
}

/// Skips `count` fields of `width` bits.
pub open spec fn skip_bits_step(src: BitSrc, p: int, count: nat, width: nat) -> Step<()>
    decreases count,
{
    if count == 0 {
        Step::Val((), p)
    } else {
        let a = read_bits(src, p, width);
        match a {
            Step::Val(_, q) => skip_bits_step(src, q, (count - 1) as nat, width),
            _ => stop(a),
        }
    }
}

/// Number of binary digits of `n` (0 for 0).
pub open spec fn bit_length(n: nat) -> nat
    decreases n,
{
    if n == 0 {
        0
    } else {
        1 + bit_length(n / 2)
    }
}

proof fn lemma_bit_length_bound(n: nat, k: nat)
    requires
        n < vstd::arithmetic::power2::pow2(k),
    ensures
        bit_length(n) <= k,
    decreases k,
{
    if n > 0 {
        if k == 0 {
            vstd::arithmetic::power2::lemma2_to64();
        } else {
            vstd::arithmetic::power2::lemma_pow2_unfold(k);
            lemma_bit_length_bound(n / 2, (k - 1) as nat);
        }
    }
}

/// Skips the slice group map of a PPS with `num_slice_groups_minus1` above 0,
/// according to its `slice_group_map_type`.
pub open spec fn slice_groups_step(src: BitSrc, p: int, num_slice_groups_minus1: u32) -> Step<()> {
    if num_slice_groups_minus1 == 0 {
        Step::Val((), p)
    } else {
        let a = read_ue(src, p);
        match a {
            Step::Val(map_type, q) => if map_type == 0 {
                skip_ue_step(src, q, (num_slice_groups_minus1 + 1) as nat)
            } else if map_type == 2 {
                skip_ue_step(src, q, 2 * (num_slice_groups_minus1 as nat))
            } else if map_type == 3 || map_type == 4 || map_type == 5 {
                let b = read_bit32(src, q);
                match b {
                    Step::Val(_, r) => {
                        let c = read_ue(src, r);
                        match c {
                            Step::Val(_, t) => Step::Val((), t),
                            _ => stop(c),
                        }
                    },
                    _ => stop(b),
                }
            } else if map_type == 6 {
                let b = read_ue(src, q);
                match b {
                    Step::Val(pic_size_in_map_units_minus1, r) => skip_bits_step(
                        src,
                        r,
                        (pic_size_in_map_units_minus1 + 1) as nat,
                        bit_length(num_slice_groups_minus1 as nat),
                    ),
                    _ => stop(b),
                }
            } else {
                Step::Val((), q)
            },
            _ => stop(a),
        }
    }
}

#[verifier::opaque]
pub open spec fn pps_body_step(src: BitSrc, p: int) -> Step<PpsBody> {
    let a = read_ue(src, p);
    match a {
        Step::Val(num_ref_idx_l0_default_active_minus1, p1) => {
            let b = read_ue(src, p1);
            match b {
                Step::Val(num_ref_idx_l1_default_active_minus1, p2) => {
                    let c = read_bit32(src, p2);
                    match c {
                        Step::Val(weighted_pred_flag, p3) => {
                            let d = read_bits(src, p3, 2);
                            match d {
                                Step::Val(weighted_bipred_idc, p4) => {
                                    let e = read_se(src, p4);
                                    match e {
                                        Step::Val(pic_init_qp_minus26, p5) => {
                                            let f = read_se(src, p5);
                                            match f {
                                                Step::Val(pic_init_qs_minus26, p6) => {
                                                    let g = read_se(src, p6);
                                                    match g {
                                                        Step::Val(chroma_qp_index_offset, p7) => {
                                                            let h = read_bit32(src, p7);
                                                            match h {
                                                                Step::Val(deblocking_filter_control_present_flag, p8) => {
                                                                    let k = read_bit32(src, p8);
                                                                    match k {
                                                                        Step::Val(constrained_intra_pred_flag, p9) => {
                                                                            let l = read_bit32(src, p9);
                                                                            match l {
                                                                                Step::Val(redundant_pic_cnt_present_flag, p10) => Step::Val(
                                                                                    PpsBody {
                                                                                        num_ref_idx_l0_default_active_minus1,
                                                                                        num_ref_idx_l1_default_active_minus1,
                                                                                        weighted_pred_flag,
                                                                                        weighted_bipred_idc,
                                                                                        pic_init_qp_minus26,
                                                                                        pic_init_qs_minus26,
                                                                                        chroma_qp_index_offset,
                                                                                        deblocking_filter_control_present_flag,
                                                                                        constrained_intra_pred_flag,
                                                                                        redundant_pic_cnt_present_flag,
                                                                                    },
                                                                                    p10,
                                                                                ),
                                                                                _ => stop(l),
                                                                            }
                                                                        },
                                                                        _ => stop(k),
                                                                    }
                                                                },
                                                                _ => stop(h),
                                                            }
                                                        },
                                                        _ => stop(g),
                                                    }
                                                },
                                                _ => stop(f),
                                            }
                                        },
                                        _ => stop(e),
                                    }
                                },
                                _ => stop(d),
                            }
                        },
                        _ => stop(c),
                    }
                },
                _ => stop(b),
            }
        },
        _ => stop(a),
    }
}

/// The trailing fields: present only when RBSP data remains. Without a
/// scaling matrix, `second_chroma_qp_index_offset` is read, and defaults to
/// `chroma_qp_index_offset` when the bits end.
pub open spec fn pps_tail_step(src: BitSrc, p: int, chroma_qp_index_offset: i32) -> Step<PpsTail> {
    match more_rbsp_data(src, p) {
        None => Step::Trap,
        Some(false) => Step::Val(
            PpsTail {
                transform_8x8_mode_flag: 0,
                pic_scaling_matrix_present_flag: 0,
                second_chroma_qp_index_offset: chroma_qp_index_offset,
            },
            p,
        ),
        Some(true) => {
            let a = read_bit32(src, p);
            match a {
                Step::Val(transform_8x8_mode_flag, p1) => {
                    let b = read_bit32(src, p1);
                    match b {
                        Step::Val(pic_scaling_matrix_present_flag, p2) => if pic_scaling_matrix_present_flag
                            != 1 {
                            let c = read_se(src, p2);
                            match c {
                                Step::Val(second_chroma_qp_index_offset, p3) => Step::Val(
                                    PpsTail {
                                        transform_8x8_mode_flag,
                                        pic_scaling_matrix_present_flag,
                                        second_chroma_qp_index_offset,
                                    },
                                    p3,
                                ),
                                Step::End => Step::Val(
                                    PpsTail {
                                        transform_8x8_mode_flag,
                                        pic_scaling_matrix_present_flag,
                                        second_chroma_qp_index_offset: chroma_qp_index_offset,
                                    },
                                    p2,
                                ),
                                Step::Trap => Step::Trap,
                            }
                        } else {
                            Step::Val(
                                PpsTail {
                                    transform_8x8_mode_flag,
                                    pic_scaling_matrix_present_flag,
                                    second_chroma_qp_index_offset: chroma_qp_index_offset,
                                },
                                p2,
                            )
                        },
                        _ => stop(b),
                    }
                },
                _ => stop(a),
            }
        },
    }
}

/// The PPS that the parsed fields give.
pub open spec fn pps_from_fields(head: PpsHead, body: PpsBody, tail: PpsTail) -> PictureParameterSet {
    PictureParameterSet {
        flags: PpsFlags {
            entropy_coding_mode_flag: head.entropy_coding_mode_flag,
            bottom_field_pic_order_in_frame_present_flag: head.bottom_field_pic_order_in_frame_present_flag,
            weighted_pred_flag: body.weighted_pred_flag,
            deblocking_filter_control_present_flag: body.deblocking_filter_control_present_flag,
            constrained_intra_pred_flag: body.constrained_intra_pred_flag,
            redundant_pic_cnt_present_flag: body.redundant_pic_cnt_present_flag,
            transform_8x8_mode_flag: tail.transform_8x8_mode_flag,
            pic_scaling_matrix_present_flag: tail.pic_scaling_matrix_present_flag,
        },
        pic_parameter_set_id: low8(head.pic_parameter_set_id),
        seq_parameter_set_id: low8(head.seq_parameter_set_id),
        num_ref_idx_l0_default_active_minus1: low8(body.num_ref_idx_l0_default_active_minus1),
        num_ref_idx_l1_default_active_minus1: low8(body.num_ref_idx_l1_default_active_minus1),
        weighted_bipred_idc: std_small_enum(body.weighted_bipred_idc, 3),
        pic_init_qp_minus26: body.pic_init_qp_minus26 as i8,
        pic_init_qs_minus26: body.pic_init_qs_minus26 as i8,
        chroma_qp_index_offset: body.chroma_qp_index_offset as i8,
        second_chroma_qp_index_offset: tail.second_chroma_qp_index_offset as i8,
    }
}

/// Reading a PPS from its bit stream.
pub open spec fn pps_step(src: BitSrc) -> Step<PictureParameterSet> {
    let a = pps_head_step(src);
    match a {
        Step::Val(head, p1) => {
            let b = slice_groups_step(src, p1, head.num_slice_groups_minus1);
            match b {
                Step::Val(_, p2) => {
                    let c = pps_body_step(src, p2);
                    match c {
                        Step::Val(body, p3) => {
                            let d = pps_tail_step(src, p3, body.chroma_qp_index_offset);
                            match d {
                                Step::Val(tail, p4) => Step::Val(pps_from_fields(head, body, tail), p4),
                                _ => stop(d),
                            }
                        },
                        _ => stop(c),
                    }
                },
                _ => stop(b),
            }
        },
        _ => stop(a),
    }
}

/// What `parse_pps` returns: the first PPS of the configuration record, parsed.
pub open spec fn spec_parse_pps(extradata: Seq<u8>) -> Option<PictureParameterSet> {
    match spec_extract_pps(extradata) {
        None => None,
        Some(raw) => match pps_step(rbsp_src(raw)) {
            Step::Val(pps, _) => Some(pps),
            _ => None,
        },
    }
}

/// Whether parsing the PPS overflows an integer (an Exp-Golomb code with 32
/// or more leading zeros, the code number `i32::MAX` read as a signed code,
/// or a bit position beyond `usize::MAX`).
pub open spec fn pps_overflows(extradata: Seq<u8>) -> bool {
    match spec_extract_pps(extradata) {
        None => false,
        Some(raw) => pps_step(rbsp_src(raw)) is Trap,
    }
}

/// Reads the bits of an SPS or PPS payload after removing emulation-prevention bytes.
struct BitReader {
    bytes: Vec<u8>,
    byte_idx: usize,
    bit_idx: usize,
    overflowed: bool,
}

impl BitReader {
    spec fn src(&self) -> BitSrc {
        BitSrc { bytes: self.bytes@, trap: None }
    }

    spec fn pos(&self) -> int {
        8 * self.byte_idx + self.bit_idx
    }

    spec fn inv(&self) -> bool {
        &&& self.byte_idx <= self.bytes.len()
        &&& self.bit_idx < 8
        &&& self.bit_idx > 0 ==> self.byte_idx < self.bytes.len()
    }

    fn new(data: &[u8]) -> (r: Self)
        ensures
            r.inv(),
            r.src() == rbsp_src(data@),
            r.pos() == 0,
            !r.overflowed,
    {
        Self { bytes: unescape_rbsp(data), byte_idx: 0, bit_idx: 0, overflowed: false }
    }

    fn read_bit(&mut self) -> (r: Option<u32>)
        requires
            old(self).inv(),
            !old(self).overflowed,
        ensures
            final(self).inv(),
            final(self).src() == old(self).src(),
            agrees(read_bit32(old(self).src(), old(self).pos()), r, final(self).pos(), final(self).overflowed),
            r is None ==> final(self).pos() == old(self).pos(),
    {
        if self.byte_idx >= self.bytes.len() {
            return None;
        }
        let byte = self.bytes[self.byte_idx];
        let shift = (7 - self.bit_idx) as u8;
        let bit = (byte >> shift) & 1;
        assert((8 * self.byte_idx + self.bit_idx) / 8 == self.byte_idx as int);
        assert((8 * self.byte_idx + self.bit_idx) % 8 == self.bit_idx as int);
        self.bit_idx += 1;
        if self.bit_idx == 8 {
            self.bit_idx = 0;
            self.byte_idx += 1;
        }
        Some(bit as u32)
    }

    /// Reads `n` bits as an unsigned number, keeping the last 32 of them.
    #[verifier::loop_isolation(false)]
    fn read_bits(&mut self, n: usize) -> (r: Option<u32>)
        requires
            old(self).inv(),
            !old(self).overflowed,
        ensures
            final(self).inv(),
            final(self).src() == old(self).src(),
            agrees(read_bits(old(self).src(), old(self).pos(), n as nat), r, final(self).pos(), final(self).overflowed),
    {
        let ghost src = self.src();
        let ghost start = self.pos();
        let mut res: u32 = 0;
        let mut i: usize = 0;
        while i < n
            invariant
                self.inv(),
                !self.overflowed,
                self.src() == src,
                0 <= i <= n,
                read_bits_int(src, start, i as nat) is Val,
                read_bits_int(src, start, i as nat)->1 == self.pos(),
                read_bits_int(src, start, i as nat)->0 >= 0,
                res as int == read_bits_int(src, start, i as nat)->0 % 0x1_0000_0000,
            decreases n - i,
        {
            proof {
                lemma_read_bits_bound(src, start, i as nat);
            }
            let ghost raw = read_bits_int(src, start, i as nat)->0;
            let ghost p = self.pos();
            let b = match self.read_bit() {
                Some(b) => b,
                None => {
                    proof {
                        lemma_read_bits_stops(src, start, (i + 1) as nat, n as nat);
                    }
                    return None;
                },
            };
            proof {
                lemma_bit_of_le_1(src.bytes, p);
                lemma_shift_in_bit(res, b as u8, raw);
            }
            res = (res << 1) | b;
            i += 1;
        }
        Some(res)
    }

    /// Reads an unsigned Exp-Golomb code.
    fn read_ue(&mut self) -> (r: Option<u32>)
        requires
            old(self).inv(),
            !old(self).overflowed,
        ensures
            final(self).inv(),
            final(self).src() == old(self).src(),
            agrees(read_ue(old(self).src(), old(self).pos()), r, final(self).pos(), final(self).overflowed),
    {
        let ghost src = self.src();
        let ghost start = self.pos();
        let mut leading_zeros: usize = 0;
        loop
            invariant_except_break
                self.inv(),
                !self.overflowed,
                self.src() == src,
                src == old(self).src(),
                start == old(self).pos(),
                0 <= self.pos() <= 8 * src.bytes.len(),
                count_zeros(src, start, 0) == count_zeros(src, self.pos(), leading_zeros as nat),
            ensures
                self.inv(),
                !self.overflowed,
                self.src() == src,
                src == old(self).src(),
                start == old(self).pos(),
                count_zeros(src, start, 0) == Step::Val(leading_zeros as nat, self.pos()),
            decreases 8 * src.bytes.len() - self.pos(),
        {
            let ghost p = self.pos();
            let b = match self.read_bit() {
                Some(b) => b,
                None => {
                    return None;
                },
            };
            proof {
                lemma_bit_of_le_1(src.bytes, p);
            }
            if b != 0 {
                break;
            }
            if leading_zeros == usize::MAX {
                self.overflowed = true;
                return None;
            }
            leading_zeros += 1;
        }
        if leading_zeros == 0 {
            return Some(0);
        }
        let ghost p = self.pos();
        let val = match self.read_bits(leading_zeros) {
            Some(v) => v,
            None => {
                return None;
            },
        };
        if leading_zeros >= 32 {
            self.overflowed = true;
            return None;
        }
        proof {
            lemma_read_bits_small(src, p, leading_zeros as nat);
            lemma_read_bits_bound(src, p, leading_zeros as nat);
            lemma_one_shl(leading_zeros as u32);
        }
        Some((1u32 << (leading_zeros as u32)) - 1 + val)
    }

    /// Reads a signed Exp-Golomb code.
    fn read_se(&mut self) -> (r: Option<i32>)
        requires
            old(self).inv(),
            !old(self).overflowed,
        ensures
            final(self).inv(),
            final(self).src() == old(self).src(),
            agrees(read_se(old(self).src(), old(self).pos()), r, final(self).pos(), final(self).overflowed),
    {
        let ue = self.read_ue()?;
        if ue % 2 == 0 {
            if ue < 0x8000_0000 {
                Some(-((ue / 2) as i32))
            } else {
                Some(((0xffff_ffffu32 - ue + 1) / 2) as i32)
            }
        } else if ue == 0x7fff_ffff {
            self.overflowed = true;
            None
        } else if ue < 0x8000_0000 {
            Some(((ue + 1) / 2) as i32)
        } else {
            Some(-(((0xffff_ffffu32 - ue) / 2) as i32))
        }
    }

    /// Whether RBSP data remains before the stop bit.
    fn has_more_rbsp_data(&self) -> (r: Option<bool>)
        requires
            self.inv(),
        ensures
            r == more_rbsp_data(self.src(), self.pos()),
    {
        let ghost bytes = self.bytes@;
        let mut byte_idx: usize = self.bytes.len();
        assert(self.pos() / 8 == self.byte_idx as int);
        while byte_idx > self.byte_idx
            invariant
                self.byte_idx <= byte_idx <= self.bytes.len(),
                bytes == self.bytes@,
                self.inv(),
                self.pos() / 8 == self.byte_idx as int,
                last_nonzero(bytes, self.byte_idx as int, bytes.len() as int) == last_nonzero(
                    bytes,
                    self.byte_idx as int,
                    byte_idx as int,
                ),
            decreases byte_idx,
        {
            let byte = self.bytes[byte_idx - 1];
            if byte != 0 {
                let trailing_zeros = byte.trailing_zeros();
                proof {
                    vstd::std_specs::bits::axiom_u8_trailing_zeros(byte);
                }
                let j = byte_idx - 1;
                assert(last_nonzero(bytes, self.byte_idx as int, byte_idx as int) == Some(j as int));
                let last_one_pos = match j.checked_mul(8) {
                    Some(x) => match x.checked_add(7 - trailing_zeros as usize) {
                        Some(y) => y,
                        None => {
                            return None;
                        },
                    },
                    None => {
                        return None;
                    },
                };
                let current_pos = match self.byte_idx.checked_mul(8) {
                    Some(x) => match x.checked_add(self.bit_idx) {
                        Some(y) => y,
                        None => {
                            return None;
                        },
                    },
                    None => {
                        return None;
                    },
                };
                return Some(current_pos < last_one_pos);
            }
            byte_idx -= 1;
        }
        Some(false)
    }
}


fn profile_idc_to_std(profile_idc: u32) -> (r: u32)
    ensures
        r == std_profile_idc(profile_idc),
{
    match profile_idc {
        66 => 66,
        77 => 77,
        100 => 100,
        244 => 244,
        _ => STD_VIDEO_H264_INVALID,
    }
}

fn level_idc_to_std(level_idc: u32) -> (r: u32)
    ensures
        r == std_level_idc(level_idc),
{
    match level_idc {
        10 => 0,
        11 => 1,
        12 => 2,
        13 => 3,
        20 => 4,
        21 => 5,
        22 => 6,
        30 => 7,
        31 => 8,
        32 => 9,
        40 => 10,
        41 => 11,
        42 => 12,
        50 => 13,
        51 => 14,
        52 => 15,
        60 => 16,
        61 => 17,
        62 => 18,
        _ => STD_VIDEO_H264_INVALID,
    }
}

fn small_enum_to_std(v: u32, count: u32) -> (r: u32)
    ensures
        r == std_small_enum(v, count),
{
    if v < count {
        v
    } else {
        STD_VIDEO_H264_INVALID
    }
}

fn to_u8(x: u32) -> (r: u8)
    ensures
        r == low8(x),
{
    let r = x as u8;
    assert(r == (x % 256) as u8) by (bit_vector)
        requires r == x as u8;
    r
}

fn read_sps_head(r: &mut BitReader) -> (h: Option<SpsHead>)
    requires
        old(r).inv(),
        !old(r).overflowed,
        old(r).pos() == 0,
    ensures
        final(r).inv(),
        final(r).src() == old(r).src(),
        agrees(sps_head_step(old(r).src()), h, final(r).pos(), final(r).overflowed),
{
    reveal(sps_head_step);
    r.read_bits(8)?;
    let profile_idc = r.read_bits(8)?;
    let _constraint_flags = r.read_bits(8)?;
    let level_idc = r.read_bits(8)?;
    let seq_parameter_set_id = r.read_ue()?;
    Some(SpsHead { profile_idc, level_idc, seq_parameter_set_id })
}

fn skip_scaling_list(r: &mut BitReader, size: usize) -> (res: Option<()>)
    requires
        old(r).inv(),
        !old(r).overflowed,
    ensures
        final(r).inv(),
        final(r).src() == old(r).src(),
        agrees(scaling_list_step(old(r).src(), old(r).pos(), size as nat, 8, 8), res, final(r).pos(), final(r).overflowed),
{
    let ghost src = r.src();
    let ghost start = r.pos();
    let mut next_scale: i32 = 8;
    let mut last_scale: i32 = 8;
    let mut j: usize = 0;
    while j < size
        invariant
            r.inv(),
            !r.overflowed,
            r.src() == src,
            src == old(r).src(),
            start == old(r).pos(),
            j <= size,
            -256 < next_scale < 256,
            -256 < last_scale < 256,
            scaling_list_step(src, start, size as nat, 8, 8) == scaling_list_step(
                src,
                r.pos(),
                (size - j) as nat,
                next_scale as int,
                last_scale as int,
            ),
        decreases size - j,
    {
        if next_scale != 0 {
            let ghost p = r.pos();
            let delta_scale = match r.read_se() {
                Some(d) => d,
                None => {
                    return None;
                },
            };
            proof {
                crate::bitstream::lemma_se_value_bound(read_ue(src, p)->0);
            }
            let t = last_scale + delta_scale + 256;
            next_scale = if t >= 0 {
                t % 256
            } else {
                -((-t) % 256)
            };
        }
        last_scale = if next_scale == 0 {
            last_scale
        } else {
            next_scale
        };
        j += 1;
    }
    Some(())
}

fn skip_scaling_lists(r: &mut BitReader, limit: usize) -> (res: Option<()>)
    requires
        old(r).inv(),
        !old(r).overflowed,
    ensures
        final(r).inv(),
        final(r).src() == old(r).src(),
        agrees(scaling_lists_step(old(r).src(), old(r).pos(), 0, limit as nat), res, final(r).pos(), final(r).overflowed),
{
    let ghost src = r.src();
    let ghost start = r.pos();
    let mut i: usize = 0;
    while i < limit
        invariant
            r.inv(),
            !r.overflowed,
            r.src() == src,
            src == old(r).src(),
            start == old(r).pos(),
            i <= limit,
            scaling_lists_step(src, start, 0, limit as nat) == scaling_lists_step(src, r.pos(), i as nat, limit as nat),
        decreases limit - i,
    {
        let present = match r.read_bit() {
            Some(b) => b,
            None => {
                return None;
            },
        };
        if present == 1 {
            let size: usize = if i < 6 {
                16
            } else {
                64
            };
            match skip_scaling_list(r, size) {
                Some(_) => {},
                None => {
                    return None;
                },
            }
        }
        i += 1;
    }
    Some(())
}

fn read_sps_chroma(r: &mut BitReader, profile_idc: u32) -> (c: Option<SpsChroma>)
    requires
        old(r).inv(),
        !old(r).overflowed,
    ensures
        final(r).inv(),
        final(r).src() == old(r).src(),
        agrees(sps_chroma_step(old(r).src(), old(r).pos(), profile_idc), c, final(r).pos(), final(r).overflowed),
{
    reveal(sps_chroma_step);
    let mut chroma_format_idc: u32 = 1;
    let mut separate_colour_plane_flag: u32 = 0;
    let mut bit_depth_luma_minus8: u32 = 0;
    let mut bit_depth_chroma_minus8: u32 = 0;
    let mut qpprime_y_zero_transform_bypass_flag: u32 = 0;
    let mut seq_scaling_matrix_present_flag: u32 = 0;
    let is_high_profile = profile_idc == 100 || profile_idc == 110 || profile_idc == 122 || profile_idc == 244
        || profile_idc == 44 || profile_idc == 83 || profile_idc == 86 || profile_idc == 118 || profile_idc
        == 128 || profile_idc == 138 || profile_idc == 139 || profile_idc == 134 || profile_idc == 135;
    if is_high_profile {
        chroma_format_idc = r.read_ue()?;
        if chroma_format_idc == 3 {
            separate_colour_plane_flag = r.read_bit()?;
        }
        bit_depth_luma_minus8 = r.read_ue()?;
        bit_depth_chroma_minus8 = r.read_ue()?;
        qpprime_y_zero_transform_bypass_flag = r.read_bit()?;
        seq_scaling_matrix_present_flag = r.read_bit()?;
        if seq_scaling_matrix_present_flag == 1 {
            let limit: usize = if chroma_format_idc != 3 {
                8
            } else {
                12
            };
            skip_scaling_lists(r, limit)?;
        }
    }
    Some(
        SpsChroma {
            chroma_format_idc,
            separate_colour_plane_flag,
            bit_depth_luma_minus8,
            bit_depth_chroma_minus8,
            qpprime_y_zero_transform_bypass_flag,
            seq_scaling_matrix_present_flag,
        },
    )
}

fn skip_se(r: &mut BitReader, count: u32) -> (res: Option<()>)
    requires
        old(r).inv(),
        !old(r).overflowed,
    ensures
        final(r).inv(),
        final(r).src() == old(r).src(),
        agrees(skip_se_step(old(r).src(), old(r).pos(), count as nat), res, final(r).pos(), final(r).overflowed),
{
    let ghost src = r.src();
    let ghost start = r.pos();
    let mut i: u32 = 0;
    while i < count
        invariant
            r.inv(),
            !r.overflowed,
            r.src() == src,
            src == old(r).src(),
            start == old(r).pos(),
            i <= count,
            skip_se_step(src, start, count as nat) == skip_se_step(src, r.pos(), (count - i) as nat),
        decreases count - i,
    {
        match r.read_se() {
            Some(_) => {},
            None => {
                return None;
            },
        }
        i += 1;
    }
    Some(())
}

fn read_sps_poc(r: &mut BitReader) -> (c: Option<SpsPoc>)
    requires
        old(r).inv(),
        !old(r).overflowed,
    ensures
        final(r).inv(),
        final(r).src() == old(r).src(),
        agrees(sps_poc_step(old(r).src(), old(r).pos()), c, final(r).pos(), final(r).overflowed),
{
    reveal(sps_poc_step);
    let log2_max_frame_num_minus4 = r.read_ue()?;
    let pic_order_cnt_type = r.read_ue()?;
    let mut log2_max_pic_order_cnt_lsb_minus4: u32 = 0;
    let mut delta_pic_order_always_zero_flag: u32 = 0;
    let mut offset_for_non_ref_pic: i32 = 0;
    let mut offset_for_top_to_bottom_field: i32 = 0;
    let mut num_ref_frames_in_pic_order_cnt_cycle: u32 = 0;
    if pic_order_cnt_type == 0 {
        log2_max_pic_order_cnt_lsb_minus4 = r.read_ue()?;
    } else if pic_order_cnt_type == 1 {
        delta_pic_order_always_zero_flag = r.read_bit()?;
        offset_for_non_ref_pic = r.read_se()?;
        offset_for_top_to_bottom_field = r.read_se()?;
        num_ref_frames_in_pic_order_cnt_cycle = r.read_ue()?;
        skip_se(r, num_ref_frames_in_pic_order_cnt_cycle)?;
    }
    Some(
        SpsPoc {
            log2_max_frame_num_minus4,
            pic_order_cnt_type,
            log2_max_pic_order_cnt_lsb_minus4,
            delta_pic_order_always_zero_flag,
            offset_for_non_ref_pic,
            offset_for_top_to_bottom_field,
            num_ref_frames_in_pic_order_cnt_cycle,
        },
    )
}

fn read_sps_frame(r: &mut BitReader) -> (c: Option<SpsFrame>)
    requires
        old(r).inv(),
        !old(r).overflowed,
    ensures
        final(r).inv(),
        final(r).src() == old(r).src(),
        agrees(sps_frame_step(old(r).src(), old(r).pos()), c, final(r).pos(), final(r).overflowed),
{
    reveal(sps_frame_step);
    let max_num_ref_frames = r.read_ue()?;
    let gaps_in_frame_num_value_allowed_flag = r.read_bit()?;
    let pic_width_in_mbs_minus1 = r.read_ue()?;
    let pic_height_in_map_units_minus1 = r.read_ue()?;
    let frame_mbs_only_flag = r.read_bit()?;
    let mut mb_adaptive_frame_field_flag: u32 = 0;
    if frame_mbs_only_flag == 0 {
        mb_adaptive_frame_field_flag = r.read_bit()?;
    }
    let direct_8x8_inference_flag = r.read_bit()?;
    let frame_cropping_flag = r.read_bit()?;
    let ghost p8 = r.pos();
    let mut frame_crop_left_offset: u32 = 0;
    let mut frame_crop_right_offset: u32 = 0;
    let mut frame_crop_top_offset: u32 = 0;
    let mut frame_crop_bottom_offset: u32 = 0;
    if frame_cropping_flag == 1 {
        frame_crop_left_offset = r.read_ue()?;
        frame_crop_right_offset = r.read_ue()?;
        frame_crop_top_offset = r.read_ue()?;
        frame_crop_bottom_offset = r.read_ue()?;
    }
    assert(sps_crop_step(r.src(), p8, frame_cropping_flag) == Step::Val(
        (frame_crop_left_offset, frame_crop_right_offset, frame_crop_top_offset, frame_crop_bottom_offset),
        r.pos(),
    ));
    Some(
        SpsFrame {
            max_num_ref_frames,
            gaps_in_frame_num_value_allowed_flag,
            pic_width_in_mbs_minus1,
            pic_height_in_map_units_minus1,
            frame_mbs_only_flag,
            mb_adaptive_frame_field_flag,
            direct_8x8_inference_flag,
            frame_cropping_flag,
            frame_crop_left_offset,
            frame_crop_right_offset,
            frame_crop_top_offset,
            frame_crop_bottom_offset,
        },
    )
}

fn read_sps(r: &mut BitReader) -> (c: Option<SequenceParameterSet>)
    requires
        old(r).inv(),
        !old(r).overflowed,
        old(r).pos() == 0,
    ensures
        agrees(sps_step(old(r).src()), c, final(r).pos(), final(r).overflowed),
{
    let head = read_sps_head(r)?;
    let chroma = read_sps_chroma(r, head.profile_idc)?;
    let poc = read_sps_poc(r)?;
    let frame = read_sps_frame(r)?;
    let vui_parameters_present_flag = match r.read_bit() {
        Some(b) => b,
        None => 0,
    };
    Some(assemble_sps(&head, &chroma, &poc, &frame, vui_parameters_present_flag))
}

fn assemble_sps(
    head: &SpsHead,
    chroma: &SpsChroma,
    poc: &SpsPoc,
    frame: &SpsFrame,
    vui_parameters_present_flag: u32,
) -> (s: SequenceParameterSet)
    ensures
        s == sps_from_fields(*head, *chroma, *poc, *frame, vui_parameters_present_flag),
{
    let flags = SpsFlags {
        direct_8x8_inference_flag: frame.direct_8x8_inference_flag,
        mb_adaptive_frame_field_flag: frame.mb_adaptive_frame_field_flag,
        frame_mbs_only_flag: frame.frame_mbs_only_flag,
        delta_pic_order_always_zero_flag: poc.delta_pic_order_always_zero_flag,
        separate_colour_plane_flag: chroma.separate_colour_plane_flag,
        gaps_in_frame_num_value_allowed_flag: frame.gaps_in_frame_num_value_allowed_flag,
        qpprime_y_zero_transform_bypass_flag: chroma.qpprime_y_zero_transform_bypass_flag,
        frame_cropping_flag: frame.frame_cropping_flag,
        seq_scaling_matrix_present_flag: chroma.seq_scaling_matrix_present_flag,
        vui_parameters_present_flag,
    };
    SequenceParameterSet {
        flags,
        profile_idc: profile_idc_to_std(head.profile_idc),
        level_idc: level_idc_to_std(head.level_idc),
        chroma_format_idc: small_enum_to_std(chroma.chroma_format_idc, 4),
        seq_parameter_set_id: to_u8(head.seq_parameter_set_id),
        bit_depth_luma_minus8: to_u8(chroma.bit_depth_luma_minus8),
        bit_depth_chroma_minus8: to_u8(chroma.bit_depth_chroma_minus8),
        log2_max_frame_num_minus4: to_u8(poc.log2_max_frame_num_minus4),
        pic_order_cnt_type: small_enum_to_std(poc.pic_order_cnt_type, 3),
        offset_for_non_ref_pic: poc.offset_for_non_ref_pic,
        offset_for_top_to_bottom_field: poc.offset_for_top_to_bottom_field,
        log2_max_pic_order_cnt_lsb_minus4: to_u8(poc.log2_max_pic_order_cnt_lsb_minus4),
        num_ref_frames_in_pic_order_cnt_cycle: to_u8(poc.num_ref_frames_in_pic_order_cnt_cycle),
        max_num_ref_frames: to_u8(frame.max_num_ref_frames),
        pic_width_in_mbs_minus1: frame.pic_width_in_mbs_minus1,
        pic_height_in_map_units_minus1: frame.pic_height_in_map_units_minus1,
        frame_crop_left_offset: frame.frame_crop_left_offset,
        frame_crop_right_offset: frame.frame_crop_right_offset,
        frame_crop_top_offset: frame.frame_crop_top_offset,
        frame_crop_bottom_offset: frame.frame_crop_bottom_offset,
    }
}

/// Parses the SPS, and tells whether parsing it overflowed.
fn run_sps(extradata: &[u8]) -> (r: (Option<SequenceParameterSet>, bool))
    ensures
        r.0 == spec_parse_sps(extradata@),
        r.1 == sps_overflows(extradata@),
{
    let raw_sps = match extract_sps_bytes(extradata) {
        Some(raw) => raw,
        None => {
            return (None, false);
        },
    };
    let mut reader = BitReader::new(raw_sps);
    let sps = read_sps(&mut reader);
    (sps, reader.overflowed)
}

/// Parses the first SPS of an `avcC` configuration record into the fields of
/// Vulkan's `StdVideoH264SequenceParameterSet`. Returns `None` when the
/// record holds no SPS or its bits end early.
pub fn parse_sps(extradata: &[u8]) -> (r: Option<SequenceParameterSet>)
    requires
        !sps_overflows(extradata@),
    ensures
        r == spec_parse_sps(extradata@),
{
    run_sps(extradata).0
}

/// Whether `parse_sps` on this record would overflow an integer.
pub fn sps_would_overflow(extradata: &[u8]) -> (b: bool)
    ensures
        b == sps_overflows(extradata@),
{
    run_sps(extradata).1
}

fn read_pps_head(r: &mut BitReader) -> (h: Option<PpsHead>)
    requires
        old(r).inv(),
        !old(r).overflowed,
        old(r).pos() == 0,
    ensures
        final(r).inv(),
        final(r).src() == old(r).src(),
        agrees(pps_head_step(old(r).src()), h, final(r).pos(), final(r).overflowed),
{
    reveal(pps_head_step);
    r.read_bits(8)?;
    let pic_parameter_set_id = r.read_ue()?;
    let seq_parameter_set_id = r.read_ue()?;
    let entropy_coding_mode_flag = r.read_bit()?;
    let bottom_field_pic_order_in_frame_present_flag = r.read_bit()?;
    let num_slice_groups_minus1 = r.read_ue()?;
    Some(
        PpsHead {
            pic_parameter_set_id,
            seq_parameter_set_id,
            entropy_coding_mode_flag,
            bottom_field_pic_order_in_frame_present_flag,
            num_slice_groups_minus1,
        },
    )
}

fn skip_ue(r: &mut BitReader, count: u64) -> (res: Option<()>)
    requires
        old(r).inv(),
        !old(r).overflowed,
    ensures
        final(r).inv(),
        final(r).src() == old(r).src(),
        agrees(skip_ue_step(old(r).src(), old(r).pos(), count as nat), res, final(r).pos(), final(r).overflowed),
{
    let ghost src = r.src();
    let ghost start = r.pos();
    let mut i: u64 = 0;
    while i < count
        invariant
            r.inv(),
            !r.overflowed,
            r.src() == src,
            src == old(r).src(),
            start == old(r).pos(),
            i <= count,
            skip_ue_step(src, start, count as nat) == skip_ue_step(src, r.pos(), (count - i) as nat),
        decreases count - i,
    {
        match r.read_ue() {
            Some(_) => {},
            None => {
                return None;
            },
        }
        i += 1;
    }
    Some(())
}

fn skip_bits(r: &mut BitReader, count: u64, width: usize) -> (res: Option<()>)
    requires
        old(r).inv(),
        !old(r).overflowed,
    ensures
        final(r).inv(),
        final(r).src() == old(r).src(),
        agrees(skip_bits_step(old(r).src(), old(r).pos(), count as nat, width as nat), res, final(r).pos(), final(r).overflowed),
{
    let ghost src = r.src();
    let ghost start = r.pos();
    let mut i: u64 = 0;
    while i < count
        invariant
            r.inv(),
            !r.overflowed,
            r.src() == src,
            src == old(r).src(),
            start == old(r).pos(),
            i <= count,
            skip_bits_step(src, start, count as nat, width as nat) == skip_bits_step(
                src,
                r.pos(),
                (count - i) as nat,
                width as nat,
            ),
        decreases count - i,
    {
        match r.read_bits(width) {
            Some(_) => {},
            None => {
                return None;
            },
        }
        i += 1;
    }
    Some(())
}

/// Number of binary digits of `n`.
fn bit_length_of(n: u32) -> (bits: usize)
    ensures
        bits == bit_length(n as nat),
        bits <= 32,
{
    let mut bits: usize = 0;
    let mut val = n;
    proof {
        vstd::arithmetic::power2::lemma2_to64();
        lemma_bit_length_bound(n as nat, 32);
    }
    while val > 0
        invariant
            bits + bit_length(val as nat) == bit_length(n as nat),
            bits + bit_length(val as nat) <= 32,
            val as nat <= n,
        decreases val,
    {
        assert(val >> 1 == val / 2) by (bit_vector);
        bits += 1;
        val >>= 1;
    }
    bits
}

fn skip_slice_groups(r: &mut BitReader, num_slice_groups_minus1: u32) -> (res: Option<()>)
    requires
        old(r).inv(),
        !old(r).overflowed,
    ensures
        final(r).inv(),
        final(r).src() == old(r).src(),
        agrees(
            slice_groups_step(old(r).src(), old(r).pos(), num_slice_groups_minus1),
            res,
            final(r).pos(),
            final(r).overflowed,
        ),
{
    if num_slice_groups_minus1 > 0 {
        let slice_group_map_type = r.read_ue()?;
        if slice_group_map_type == 0 {
            skip_ue(r, num_slice_groups_minus1 as u64 + 1)?;
        } else if slice_group_map_type == 2 {
            skip_ue(r, 2 * (num_slice_groups_minus1 as u64))?;
        } else if slice_group_map_type == 3 || slice_group_map_type == 4 || slice_group_map_type == 5 {
            r.read_bit()?;
            r.read_ue()?;
        } else if slice_group_map_type == 6 {
            let pic_size_in_map_units_minus1 = r.read_ue()?;
            let mut bits = bit_length_of(num_slice_groups_minus1);
            if bits == 0 {
                bits = 1;
            }
            skip_bits(r, pic_size_in_map_units_minus1 as u64 + 1, bits)?;
        }
    }
    Some(())
}

fn read_pps_body(r: &mut BitReader) -> (b: Option<PpsBody>)
    requires
        old(r).inv(),
        !old(r).overflowed,
    ensures
        final(r).inv(),
        final(r).src() == old(r).src(),
        agrees(pps_body_step(old(r).src(), old(r).pos()), b, final(r).pos(), final(r).overflowed),
{
    reveal(pps_body_step);
    let num_ref_idx_l0_default_active_minus1 = r.read_ue()?;
    let num_ref_idx_l1_default_active_minus1 = r.read_ue()?;
    let weighted_pred_flag = r.read_bit()?;
    let weighted_bipred_idc = r.read_bits(2)?;
    let pic_init_qp_minus26 = r.read_se()?;
    let pic_init_qs_minus26 = r.read_se()?;
    let chroma_qp_index_offset = r.read_se()?;
    let deblocking_filter_control_present_flag = r.read_bit()?;
    let constrained_intra_pred_flag = r.read_bit()?;
    let redundant_pic_cnt_present_flag = r.read_bit()?;
    Some(
        PpsBody {
            num_ref_idx_l0_default_active_minus1,
            num_ref_idx_l1_default_active_minus1,
            weighted_pred_flag,
            weighted_bipred_idc,
            pic_init_qp_minus26,
            pic_init_qs_minus26,
            chroma_qp_index_offset,
            deblocking_filter_control_present_flag,
            constrained_intra_pred_flag,
            redundant_pic_cnt_present_flag,
        },
    )
}

fn read_pps_tail(r: &mut BitReader, chroma_qp_index_offset: i32) -> (t: Option<PpsTail>)
    requires
        old(r).inv(),
        !old(r).overflowed,
    ensures
        agrees_value(pps_tail_step(old(r).src(), old(r).pos(), chroma_qp_index_offset), t, final(r).overflowed),
{
    let mut transform_8x8_mode_flag: u32 = 0;
    let mut pic_scaling_matrix_present_flag: u32 = 0;
    let mut second_chroma_qp_index_offset = chroma_qp_index_offset;
    let more = match r.has_more_rbsp_data() {
        Some(m) => m,
        None => {
            r.overflowed = true;
            return None;
        },
    };
    if more {
        transform_8x8_mode_flag = r.read_bit()?;
        pic_scaling_matrix_present_flag = r.read_bit()?;
        if !(pic_scaling_matrix_present_flag == 1) {
            second_chroma_qp_index_offset = match r.read_se() {
                Some(v) => v,
                None => {
                    if r.overflowed {
                        return None;
                    }
                    chroma_qp_index_offset
                },
            };
        }
    }
    Some(PpsTail { transform_8x8_mode_flag, pic_scaling_matrix_present_flag, second_chroma_qp_index_offset })
}

fn assemble_pps(head: &PpsHead, body: &PpsBody, tail: &PpsTail) -> (p: PictureParameterSet)
    ensures
        p == pps_from_fields(*head, *body, *tail),
{
    let flags = PpsFlags {
        entropy_coding_mode_flag: head.entropy_coding_mode_flag,
        bottom_field_pic_order_in_frame_present_flag: head.bottom_field_pic_order_in_frame_present_flag,
        weighted_pred_flag: body.weighted_pred_flag,
        deblocking_filter_control_present_flag: body.deblocking_filter_control_present_flag,
        constrained_intra_pred_flag: body.constrained_intra_pred_flag,
        redundant_pic_cnt_present_flag: body.redundant_pic_cnt_present_flag,
        transform_8x8_mode_flag: tail.transform_8x8_mode_flag,
        pic_scaling_matrix_present_flag: tail.pic_scaling_matrix_present_flag,
    };
    PictureParameterSet {
        flags,
        pic_parameter_set_id: to_u8(head.pic_parameter_set_id),
        seq_parameter_set_id: to_u8(head.seq_parameter_set_id),
        num_ref_idx_l0_default_active_minus1: to_u8(body.num_ref_idx_l0_default_active_minus1),
        num_ref_idx_l1_default_active_minus1: to_u8(body.num_ref_idx_l1_default_active_minus1),
        weighted_bipred_idc: small_enum_to_std(body.weighted_bipred_idc, 3),
        pic_init_qp_minus26: #[verifier::truncate] (body.pic_init_qp_minus26 as i8),
        pic_init_qs_minus26: #[verifier::truncate] (body.pic_init_qs_minus26 as i8),
        chroma_qp_index_offset: #[verifier::truncate] (body.chroma_qp_index_offset as i8),
        second_chroma_qp_index_offset: #[verifier::truncate] (tail.second_chroma_qp_index_offset as i8),
    }
}

fn read_pps(r: &mut BitReader) -> (c: Option<PictureParameterSet>)
    requires
        old(r).inv(),
        !old(r).overflowed,
        old(r).pos() == 0,
    ensures
        agrees_value(pps_step(old(r).src()), c, final(r).overflowed),
{
    let head = read_pps_head(r)?;
    skip_slice_groups(r, head.num_slice_groups_minus1)?;
    let body = read_pps_body(r)?;
    let tail = read_pps_tail(r, body.chroma_qp_index_offset)?;
    Some(assemble_pps(&head, &body, &tail))
}

/// Parses the PPS, and tells whether parsing it overflowed.
fn run_pps(extradata: &[u8]) -> (r: (Option<PictureParameterSet>, bool))
    requires
        extradata.len() <= isize::MAX,
    ensures
        r.0 == spec_parse_pps(extradata@),
        r.1 == pps_overflows(extradata@),
{
    let raw_pps = match extract_pps_bytes(extradata) {
        Some(raw) => raw,
        None => {
            return (None, false);
        },
    };
    let mut reader = BitReader::new(raw_pps);
    let pps = read_pps(&mut reader);
    (pps, reader.overflowed)
}

/// Parses the first PPS of an `avcC` configuration record into the fields of
/// Vulkan's `StdVideoH264PictureParameterSet`. Returns `None` when the
/// record holds no PPS or its bits end early.
pub fn parse_pps(extradata: &[u8]) -> (r: Option<PictureParameterSet>)
    requires
        extradata.len() <= isize::MAX,
        !pps_overflows(extradata@),
    ensures
        r == spec_parse_pps(extradata@),
{
    run_pps(extradata).0
}

/// Whether `parse_pps` on this record would overflow an integer.
pub fn pps_would_overflow(extradata: &[u8]) -> (b: bool)
    requires
        extradata.len() <= isize::MAX,
    ensures
        b == pps_overflows(extradata@),
{
    run_pps(extradata).1
}

} // verus!
