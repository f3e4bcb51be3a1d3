use crate::bitstream::{count_zeros, lemma_read_bits_bound, lemma_read_bits_small, read_bit, read_bits_int, read_bit32, read_bits, read_se, read_ue, se_value, Step};
use crate::converter::{
    AvccScan, avcc_scan, ep_bytes, field_flags_step, idr_step, poc_lsb_step, slice_src, spec_avcc_to_annexb,
    spec_parse_slice_header, start_code_len, NaluHeader, SpsInfo,
};
use crate::h264_parser::{
    be16, pps_from_fields, pps_tail_step, sps_frame_step, sps_poc_step, pps_body_step, pps_head_step, rbsp_src, slice_groups_step, sps_chroma_step, sps_head_step, std_level_idc, std_profile_idc, skip_entries, spec_extract_pps, spec_extract_sps, spec_parse_pps, spec_parse_sps, unescape, unescape_from,
    STD_VIDEO_H264_INVALID,
};
use crate::resources::{reference_count, reference_slot};
use crate::types::{spec_profile_indicator, PROFILE_INVALID};
use vstd::arithmetic::power2::pow2;
use vstd::prelude::*;

verus! {

/// Each offset in `offsets` starts a `00 00 00 01` start code in `out`,
/// followed by the header byte of a VCL NAL unit (types 1 to 5), and the
/// offsets increase.
pub open spec fn starts_vcl_units(out: Seq<u8>, offsets: Seq<u32>) -> bool {
    &&& forall|k: int|
        0 <= k < offsets.len() ==> {
            let o = #[trigger] offsets[k] as int;
            &&& o + 5 <= out.len()
            &&& out[o] == 0 && out[o + 1] == 0 && out[o + 2] == 0 && out[o + 3] == 1
            &&& 1 <= out[o + 4] % 32 <= 5
        }
    &&& forall|k: int, l: int| 0 <= k < l < offsets.len() ==> offsets[k] < offsets[l]
}

proof fn lemma_scan_starts_vcl_units(d: Seq<u8>, n: nat, offset: int, out0: Seq<u8>, offs0: Seq<u32>)
    requires
        n > 0,
        offset >= 0,
        starts_vcl_units(out0, offs0),
        avcc_scan(d, n, offset, out0, offs0) is Done,
        avcc_scan(d, n, offset, out0, offs0)->0.len() <= u32::MAX,
    ensures
        starts_vcl_units(avcc_scan(d, n, offset, out0, offs0)->0, avcc_scan(d, n, offset, out0, offs0)->1),
        out0.len() <= avcc_scan(d, n, offset, out0, offs0)->0.len(),
    decreases d.len() - offset,
{
    if offset + n > usize::MAX || offset + n > d.len() {
    } else {
        let nal = crate::converter::be_value(d.subrange(offset, offset + n)) % (usize::MAX as int + 1);
        let start = offset + n;
        if start + nal > usize::MAX || start + nal > d.len() {
        } else if nal == 0 {
            lemma_scan_starts_vcl_units(d, n, start, out0, offs0);
        } else if 1 <= d[start] % 32 <= 5 {
            let out1 = out0 + seq![0u8, 0u8, 0u8, 1u8] + d.subrange(start, start + nal);
            let offs1 = offs0.push((out0.len() % 0x1_0000_0000) as u32);
            lemma_scan_starts_vcl_units_len(d, n, start + nal, out1, offs1);
            assert(out0.len() % 0x1_0000_0000 == out0.len());
            assert(out1[out0.len() as int + 4] == d[start]);
            assert forall|k: int| 0 <= k < offs1.len() implies {
                let o = #[trigger] offs1[k] as int;
                &&& o + 5 <= out1.len()
                &&& out1[o] == 0 && out1[o + 1] == 0 && out1[o + 2] == 0 && out1[o + 3] == 1
                &&& 1 <= out1[o + 4] % 32 <= 5
            } by {
                if k < offs0.len() {
                    assert(offs1[k] == offs0[k]);
                    let o = offs0[k] as int;
                    assert(out1[o] == out0[o] && out1[o + 1] == out0[o + 1] && out1[o + 2] == out0[o + 2]
                        && out1[o + 3] == out0[o + 3] && out1[o + 4] == out0[o + 4]);
                }
            }
            assert forall|k: int, l: int| 0 <= k < l < offs1.len() implies offs1[k] < offs1[l] by {
                if l == offs0.len() {
                    assert(offs0[k] as int + 5 <= out0.len());
                } else {
                    assert(offs1[k] == offs0[k] && offs1[l] == offs0[l]);
                }
            }
            lemma_scan_starts_vcl_units(d, n, start + nal, out1, offs1);
        } else {
            lemma_scan_starts_vcl_units(d, n, start + nal, out0, offs0);
        }
    }
}

proof fn lemma_scan_starts_vcl_units_len(d: Seq<u8>, n: nat, offset: int, out0: Seq<u8>, offs0: Seq<u32>)
    requires
        n > 0,
        offset >= 0,
        avcc_scan(d, n, offset, out0, offs0) is Done,
    ensures
        out0.len() <= avcc_scan(d, n, offset, out0, offs0)->0.len(),
    decreases d.len() - offset,
{
    if offset + n > usize::MAX || offset + n > d.len() {
    } else {
        let nal = crate::converter::be_value(d.subrange(offset, offset + n)) % (usize::MAX as int + 1);
        let start = offset + n;
        if start + nal > usize::MAX || start + nal > d.len() {
        } else if nal == 0 {
            lemma_scan_starts_vcl_units_len(d, n, start, out0, offs0);
        } else if 1 <= d[start] % 32 <= 5 {
            let out1 = out0 + seq![0u8, 0u8, 0u8, 1u8] + d.subrange(start, start + nal);
            let offs1 = offs0.push((out0.len() % 0x1_0000_0000) as u32);
            lemma_scan_starts_vcl_units_len(d, n, start + nal, out1, offs1);
        } else {
            lemma_scan_starts_vcl_units_len(d, n, start + nal, out0, offs0);
        }
    }
}

/// Law: every slice offset that `avcc_to_annexb` returns points at a
/// `00 00 00 01` start code in its output, and `NaluHeader::parse` at that
/// offset finds a VCL NAL unit (type 1 to 5) whose slice header starts 5
/// bytes further; the offsets increase. (Offsets are kept in a `u32`, so
/// this holds for outputs of at most `u32::MAX` bytes.)
pub proof fn avcc_offsets_point_at_vcl_units(data: Seq<u8>, nalu_length_size: nat)
    requires
        nalu_length_size > 0,
        spec_avcc_to_annexb(data, nalu_length_size) is Ok,
        spec_avcc_to_annexb(data, nalu_length_size)->Ok_0.0.len() <= u32::MAX,
    ensures
        ({
            let (out, offsets) = spec_avcc_to_annexb(data, nalu_length_size)->Ok_0;
            &&& offsets.len() > 0
            &&& forall|k: int, l: int| 0 <= k < l < offsets.len() ==> offsets[k] < offsets[l]
            &&& forall|k: int|
                0 <= k < offsets.len() ==> {
                    let o = #[trigger] offsets[k] as int;
                    &&& out.subrange(o, o + 4) == seq![0u8, 0u8, 0u8, 1u8]
                    &&& NaluHeader::spec_parse(out.skip(o)) matches Some(h) && 1 <= h.nal_unit_type <= 5
                        && h.slice_header_offset == 5
                }
        }),
{
    let e: Seq<u8> = Seq::empty();
    let f: Seq<u32> = Seq::empty();
    lemma_scan_starts_vcl_units(data, nalu_length_size, 0, e, f);
    let (out, offsets) = spec_avcc_to_annexb(data, nalu_length_size)->Ok_0;
    assert forall|k: int| 0 <= k < offsets.len() implies {
        let o = #[trigger] offsets[k] as int;
        &&& out.subrange(o, o + 4) == seq![0u8, 0u8, 0u8, 1u8]
        &&& NaluHeader::spec_parse(out.skip(o)) matches Some(h) && 1 <= h.nal_unit_type <= 5
            && h.slice_header_offset == 5
    } by {
        let o = offsets[k] as int;
        assert(out.subrange(o, o + 4) =~= seq![0u8, 0u8, 0u8, 1u8]);
        let s = out.skip(o);
        assert(s[0] == 0 && s[1] == 0 && s[2] == 0 && s[3] == 1 && s[4] == out[o + 4]);
    }
}

/// Law: the three fields of a parsed NAL unit header are the bit fields of
/// its header byte (1, 2 and 5 bits wide), so they recompose it, and the
/// slice header starts right after that byte.
pub proof fn nalu_header_fields_recompose_byte(data: Seq<u8>)
    requires
        NaluHeader::spec_parse(data) is Some,
    ensures
        ({
            let h = NaluHeader::spec_parse(data)->0;
            let b = data[h.slice_header_offset - 1];
            &&& h.forbidden_zero_bit <= 1
            &&& h.nal_ref_idc <= 3
            &&& h.nal_unit_type <= 31
            &&& b == h.forbidden_zero_bit * 128 + h.nal_ref_idc * 32 + h.nal_unit_type
            &&& h.slice_header_offset == start_code_len(data) + 1
        }),
{
}

proof fn lemma_read_bits_fits(src: crate::bitstream::BitSrc, pos: int, n: nat)
    requires
        n <= 32,
    ensures
        read_bits(src, pos, n) matches Step::Val(v, _) ==> v < pow2(n),
{
    crate::bitstream::lemma_read_bits_small(src, pos, n);
    lemma_read_bits_bound(src, pos, n);
}

/// Law: `frame_num` fits in its `log2_max_frame_num_minus4 + 4` bits when
/// that width is at most 16; `pic_order_cnt_lsb` fits in its
/// `log2_max_pic_order_cnt_lsb_minus4 + 4` bits when that width is at most
/// 32, and is 0 unless the picture order count type is 0.
pub proof fn slice_header_fields_fit_their_widths(data: Seq<u8>, nal_unit_type: u8, sps: SpsInfo)
    requires
        spec_parse_slice_header(data, nal_unit_type, sps) is Some,
    ensures
        ({
            let h = spec_parse_slice_header(data, nal_unit_type, sps)->0;
            &&& sps.log2_max_frame_num_minus4 + 4 <= 16 ==> h.frame_num < pow2(
                (sps.log2_max_frame_num_minus4 + 4) as nat,
            )
            &&& sps.pic_order_cnt_type != 0 ==> h.pic_order_cnt_lsb == 0
            &&& sps.pic_order_cnt_type == 0 && sps.log2_max_pic_order_cnt_lsb_minus4 + 4 <= 32
                ==> h.pic_order_cnt_lsb < pow2((sps.log2_max_pic_order_cnt_lsb_minus4 + 4) as nat)
        }),
{
    let src = slice_src(data);
    let h = spec_parse_slice_header(data, nal_unit_type, sps)->0;
    let p1 = crate::bitstream::read_ue(src, 0)->1;
    let p2 = crate::bitstream::read_ue(src, p1)->1;
    let p3 = crate::bitstream::read_ue(src, p2)->1;
    let fw = (sps.log2_max_frame_num_minus4 + 4) as nat;
    let f = read_bits(src, p3, fw);
    let p4 = f->1;
    let p5 = field_flags_step(src, p4, sps.frame_mbs_only_flag)->1;
    let p6 = idr_step(src, p5, nal_unit_type)->1;
    let pw = (sps.log2_max_pic_order_cnt_lsb_minus4 + 4) as nat;
    if fw <= 16 {
        lemma_read_bits_fits(src, p3, fw);
        vstd::arithmetic::power2::lemma2_to64();
        if fw < 16 {
            vstd::arithmetic::power2::lemma_pow2_strictly_increases(fw, 16);
        }
        assert(h.frame_num == (f->0 as int % 0x1_0000) as u16);
    }
    if sps.pic_order_cnt_type == 0 && pw <= 32 {
        lemma_read_bits_fits(src, p6, pw);
        assert(poc_lsb_step(src, p6, sps) == read_bits(src, p6, pw));
    }
}

/// Whether a `00 00 03` sequence starts at position `j` of `d`.
pub open spec fn escape_at(d: Seq<u8>, j: int) -> bool {
    0 <= j && j + 2 < d.len() && d[j] == 0 && d[j + 1] == 0 && d[j + 2] == 3
}

proof fn lemma_unescape_from(d: Seq<u8>, i: int)
    requires
        0 <= i <= d.len(),
    ensures
        unescape_from(d, i).len() <= d.len() - i,
        (forall|j: int| i <= j ==> !#[trigger] escape_at(d, j)) ==> unescape_from(d, i) == d.skip(i),
    decreases d.len() - i,
{
    if i < d.len() {
        if i + 2 < d.len() && d[i] == 0 && d[i + 1] == 0 && d[i + 2] == 3 {
            assert(escape_at(d, i));
            lemma_unescape_from(d, i + 3);
        } else {
            lemma_unescape_from(d, i + 1);
            if forall|j: int| i <= j ==> !#[trigger] escape_at(d, j) {
                assert(!escape_at(d, i));
                assert(unescape_from(d, i) =~= d.skip(i));
            }
        }
    } else {
        assert(d.skip(i) =~= Seq::<u8>::empty());
    }
}

/// Law: removing emulation-prevention bytes never lengthens a payload, and
/// leaves a payload without any `00 00 03` sequence unchanged.
pub proof fn unescape_shortens_and_keeps_clean_payloads(d: Seq<u8>)
    ensures
        unescape(d).len() <= d.len(),
        (forall|j: int| !#[trigger] escape_at(d, j)) ==> unescape(d) == d,
{
    lemma_unescape_from(d, 0);
    assert(d.skip(0) =~= d);
}

/// Law: the signed Exp-Golomb mapping sends the code numbers 0, 1, 2, 3, 4, ...
/// to 0, 1, -1, 2, -2, ...: code `2k - 1` to `k` and code `2k` to `-k`.
pub proof fn se_value_alternates(k: u32)
    requires
        1 <= k < 0x4000_0000,
    ensures
        se_value((2 * k - 1) as u32) == k as i32,
        se_value((2 * k) as u32) == -(k as i32),
        se_value(0) == 0,
{
}

proof fn lemma_skip_entries_grows(e: Seq<u8>, offset: int, count: nat)
    ensures
        skip_entries(e, offset, count) matches Some(x) ==> x >= offset + 2 * count,
    decreases count,
{
    if count > 0 && offset + 2 <= e.len() {
        lemma_skip_entries_grows(e, offset + 2 + be16(e, offset), (count - 1) as nat);
    }
}

/// Where the first PPS of an `avcC` record starts, once the SPS entries are skipped.
pub open spec fn pps_start(e: Seq<u8>) -> int {
    skip_entries(e, 6, (e[5] % 32) as nat)->0 + 3
}

/// Law: in an `avcC` record holding both, the first PPS starts after the
/// end of the first SPS.
pub proof fn pps_follows_sps(e: Seq<u8>)
    requires
        spec_extract_sps(e) is Some,
        spec_extract_pps(e) is Some,
    ensures
        spec_extract_pps(e)->0 == e.subrange(pps_start(e), pps_start(e) + spec_extract_pps(e)->0.len()),
        pps_start(e) >= 8 + spec_extract_sps(e)->0.len(),
{
    let n = (e[5] % 32) as nat;
    assert(n >= 1);
    lemma_skip_entries_grows(e, 8 + be16(e, 6), (n - 1) as nat);
}

/// Law: a stream's profile number is recognised exactly when the profile it
/// maps to carries that number as its raw Vulkan value; any other number maps
/// to the unknown profile, whose raw value is the invalid one.
pub proof fn profile_indicator_keeps_raw_value(profile: i32)
    ensures
        ({
            let raw = spec_profile_indicator(Some(profile)).spec_raw();
            if profile == 66 || profile == 77 || profile == 100 || profile == 244 || profile == 0 || profile
                == 1 || profile == 2 {
                raw == profile as u32
            } else {
                raw == PROFILE_INVALID
            }
        }),
        spec_profile_indicator(None).spec_raw() == PROFILE_INVALID,
{
}

/// Law: rounding up to a power-of-two alignment `2^k` gives the least
/// multiple of the alignment that is at least the size.
pub proof fn align_up_is_least_multiple(size: u64, k: nat)
    requires
        k < 64,
        size + pow2(k) <= u64::MAX,
    ensures
        ({
            let alignment = pow2(k) as u64;
            let r = ((size + alignment - 1) as u64) & !((alignment - 1) as u64);
            &&& r % alignment == 0
            &&& size <= r < size + alignment
        }),
{
    vstd::bits::lemma_u64_pow2_no_overflow(k);
    let alignment = pow2(k) as u64;
    let m = (alignment - 1) as u64;
    let t = (size + alignment - 1) as u64;
    let r = t & !m;
    assert(r == t - (t & m)) by (bit_vector)
        requires
            r == t & !m,
    ;
    assert(vstd::bits::low_bits_mask(k) == alignment - 1);
    vstd::bits::lemma_u64_low_bits_mask_is_mod(t, k);
    assert(t & m == t % alignment);
    vstd::arithmetic::div_mod::lemma_fundamental_div_mod(t as int, alignment as int);
    let q = t as int / alignment as int;
    assert(r == alignment * q);
    vstd::arithmetic::div_mod::lemma_mod_multiples_basic(q, alignment as int);
    vstd::arithmetic::mul::lemma_mul_is_commutative(q, alignment as int);
}

/// Law: an SPS that `parse_sps` returns carries Vulkan enumerants only:
/// a known profile (66, 77, 100, 244) or the invalid value, a level
/// numbered 0 to 18 or the invalid value, and likewise a chroma format up
/// to 3 and a picture order count type up to 2.
pub proof fn parsed_sps_holds_vulkan_enumerants(e: Seq<u8>)
    requires
        spec_parse_sps(e) is Some,
    ensures
        ({
            let s = spec_parse_sps(e)->0;
            &&& s.profile_idc == 66 || s.profile_idc == 77 || s.profile_idc == 100 || s.profile_idc == 244
                || s.profile_idc == STD_VIDEO_H264_INVALID
            &&& s.level_idc <= 18 || s.level_idc == STD_VIDEO_H264_INVALID
            &&& s.chroma_format_idc <= 3 || s.chroma_format_idc == STD_VIDEO_H264_INVALID
            &&& s.pic_order_cnt_type <= 2 || s.pic_order_cnt_type == STD_VIDEO_H264_INVALID
        }),
{
}

/// Law: a PPS that `parse_pps` returns has a weighted bi-prediction mode of
/// 0, 1 or 2, or the invalid value.
pub proof fn parsed_pps_holds_vulkan_enumerants(e: Seq<u8>)
    requires
        spec_parse_pps(e) is Some,
    ensures
        spec_parse_pps(e)->0.weighted_bipred_idc <= 2 || spec_parse_pps(e)->0.weighted_bipred_idc
            == STD_VIDEO_H264_INVALID,
{
}

/// Two numbers less than `d` apart, but not equal, leave different
/// remainders modulo `d`.
proof fn lemma_close_residues_differ(x: int, y: int, d: int)
    requires
        d > 0,
        0 <= x < y,
        y - x < d,
    ensures
        x % d != y % d,
{
    vstd::arithmetic::div_mod::lemma_fundamental_div_mod(x, d);
    vstd::arithmetic::div_mod::lemma_fundamental_div_mod(y, d);
    let qx = x / d;
    let qy = y / d;
    if x % d == y % d {
        assert(y - x == d * (qy - qx)) by (nonlinear_arith)
            requires
                x == d * qx + x % d,
                y == d * qy + y % d,
                x % d == y % d,
        ;
        assert(false) by (nonlinear_arith)
            requires
                y - x == d * (qy - qx),
                0 < y - x < d,
                d > 0,
        ;
    }
}

/// Law: each reference slot of a frame is a slot of the pool, none is the
/// slot the frame itself is decoded into (as `frame_slots` gives it), and
/// no two references share a slot.
pub proof fn references_avoid_the_decoded_slot(frame_count: usize, dpb_pool_size: usize, k: int, l: int)
    requires
        dpb_pool_size as int % 0x1_0000_0000 != 0,
        0 <= k < reference_count(frame_count, dpb_pool_size),
    ensures
        reference_slot(frame_count, dpb_pool_size, k).slot_index < dpb_pool_size,
        reference_slot(frame_count, dpb_pool_size, k).slot_index != frame_count % dpb_pool_size,
        0 <= l < reference_count(frame_count, dpb_pool_size) && l != k ==> reference_slot(
            frame_count,
            dpb_pool_size,
            k,
        ).slot_index != reference_slot(frame_count, dpb_pool_size, l).slot_index,
{
    let d = dpb_pool_size as int;
    let f = frame_count as int;
    assert(d % 0x1_0000_0000 <= d && f % 0x1_0000_0000 <= f) by {
        vstd::arithmetic::div_mod::lemma_mod_decreases(dpb_pool_size as nat, 0x1_0000_0000);
        vstd::arithmetic::div_mod::lemma_mod_decreases(frame_count as nat, 0x1_0000_0000);
    }
    assert(d > 0);
    assert(k + 1 < d && k + 1 <= f);
    lemma_close_residues_differ(f - (k + 1), f, d);
    if 0 <= l < reference_count(frame_count, dpb_pool_size) && l != k {
        if l < k {
            lemma_close_residues_differ(f - (k + 1), f - (l + 1), d);
        } else {
            lemma_close_residues_differ(f - (l + 1), f - (k + 1), d);
        }
    }
}

/// `256^n`: the number of values an `n`-byte length prefix can hold.
pub open spec fn pow256(n: nat) -> int
    decreases n,
{
    if n == 0 {
        1
    } else {
        256 * pow256((n - 1) as nat)
    }
}

/// The `n`-byte big-endian encoding of `v` (its last `n` bytes).
pub open spec fn be_bytes(v: nat, n: nat) -> Seq<u8>
    decreases n,
{
    if n == 0 {
        Seq::empty()
    } else {
        be_bytes(v / 256, (n - 1) as nat).push((v % 256) as u8)
    }
}

/// An AVCC packet holding `units` in order, each after its length written
/// in `n` big-endian bytes.
pub open spec fn avcc_packet(units: Seq<Seq<u8>>, n: nat) -> Seq<u8>
    decreases units.len(),
{
    if units.len() == 0 {
        Seq::empty()
    } else {
        be_bytes(units[0].len(), n) + units[0] + avcc_packet(units.drop_first(), n)
    }
}

/// A NAL unit that carries a slice: its `nal_unit_type`, the low 5 bits of
/// its first byte, is 1 to 5, whatever its `nal_ref_idc` bits.
pub open spec fn is_slice_unit(u: Seq<u8>) -> bool {
    u.len() > 0 && 1 <= (u[0] as int) % 32 <= 5
}

/// The Annex-B stream of the slice units among `units`: each after a
/// `00 00 00 01` start code, in order; other units are left out.
pub open spec fn annexb_of_slices(units: Seq<Seq<u8>>) -> Seq<u8>
    decreases units.len(),
{
    if units.len() == 0 {
        Seq::empty()
    } else {
        (if is_slice_unit(units[0]) {
            seq![0u8, 0u8, 0u8, 1u8] + units[0]
        } else {
            Seq::empty()
        }) + annexb_of_slices(units.drop_first())
    }
}

/// Where each slice unit of `units` starts in `annexb_of_slices(units)`,
/// shifted by `base` and kept in a `u32`.
pub open spec fn slice_starts(units: Seq<Seq<u8>>, base: int) -> Seq<u32>
    decreases units.len(),
{
    if units.len() == 0 {
        Seq::empty()
    } else if is_slice_unit(units[0]) {
        seq![(base % 0x1_0000_0000) as u32] + slice_starts(units.drop_first(), base + 4 + units[0].len())
    } else {
        slice_starts(units.drop_first(), base)
    }
}

proof fn lemma_be_bytes(v: nat, n: nat)
    requires
        v < pow256(n),
    ensures
        be_bytes(v, n).len() == n,
        crate::converter::be_value(be_bytes(v, n)) == v,
    decreases n,
{
    if n > 0 {
        let q = v / 256;
        assert(q < pow256((n - 1) as nat)) by (nonlinear_arith)
            requires
                v < 256 * pow256((n - 1) as nat),
                q == v / 256,
        ;
        lemma_be_bytes(q, (n - 1) as nat);
        let b = be_bytes(v, n);
        assert(b.drop_last() =~= be_bytes(q, (n - 1) as nat));
        assert(q * 256 + v % 256 == v) by (nonlinear_arith)
            requires
                q == v / 256,
        ;
    }
}

proof fn lemma_slice_starts_empty(units: Seq<Seq<u8>>, base: int)
    ensures
        (slice_starts(units, base).len() == 0) == (forall|i: int| 0 <= i < units.len() ==> !#[trigger] is_slice_unit(units[i])),
    decreases units.len(),
{
    if units.len() > 0 {
        let rest = units.drop_first();
        if is_slice_unit(units[0]) {
            lemma_slice_starts_empty(rest, base + 4 + units[0].len());
        } else {
            lemma_slice_starts_empty(rest, base);
            assert forall|i: int| 0 <= i < units.len() && (forall|j: int| 0 <= j < rest.len() ==> !#[trigger] is_slice_unit(rest[j])) implies !#[trigger] is_slice_unit(units[i]) by {
                if i > 0 {
                    assert(units[i] == rest[i - 1]);
                }
            }
            assert forall|j: int| 0 <= j < rest.len() && (forall|i: int| 0 <= i < units.len() ==> !#[trigger] is_slice_unit(units[i])) implies !#[trigger] is_slice_unit(rest[j]) by {
                assert(rest[j] == units[j + 1]);
            }
        }
    }
}

proof fn lemma_scan_packet(d: Seq<u8>, n: nat, offset: int, units: Seq<Seq<u8>>, out: Seq<u8>, offs: Seq<u32>)
    requires
        n > 0,
        offset >= 0,
        d.len() + n <= usize::MAX,
        d.len() == offset + avcc_packet(units, n).len(),
        d.subrange(offset, d.len() as int) == avcc_packet(units, n),
        forall|i: int| 0 <= i < units.len() ==> #[trigger] units[i].len() < pow256(n),
    ensures
        avcc_scan(d, n, offset, out, offs) == AvccScan::Done(
            out + annexb_of_slices(units),
            offs + slice_starts(units, out.len() as int),
        ),
    decreases units.len(),
{
    if units.len() == 0 {
        assert(out + annexb_of_slices(units) =~= out);
        assert(offs + slice_starts(units, out.len() as int) =~= offs);
    } else {
        let u = units[0];
        let rest = units.drop_first();
        assert forall|i: int| 0 <= i < rest.len() implies #[trigger] rest[i].len() < pow256(n) by {
            assert(rest[i] == units[i + 1]);
        }
        let pre = be_bytes(u.len(), n);
        lemma_be_bytes(u.len(), n);
        let tail = avcc_packet(rest, n);
        let pk = avcc_packet(units, n);
        assert(pk == pre + u + tail);
        let start = offset + n;
        assert(d.subrange(offset, start) =~= pre) by {
            assert forall|i: int| 0 <= i < n implies d.subrange(offset, start)[i] == pre[i] by {
                assert(d.subrange(offset, d.len() as int)[i] == d[offset + i]);
                assert(pk[i] == pre[i]);
            }
        }
        assert(d.subrange(start, start + u.len()) =~= u) by {
            assert forall|i: int| 0 <= i < u.len() implies d.subrange(start, start + u.len())[i] == u[i] by {
                assert(d.subrange(offset, d.len() as int)[n + i] == d[start + i]);
                assert(pk[n + i] == u[i]);
            }
        }
        let next = start + u.len();
        assert(d.subrange(next, d.len() as int) =~= tail) by {
            assert forall|i: int| 0 <= i < tail.len() implies d.subrange(next, d.len() as int)[i] == tail[i] by {
                assert(d.subrange(offset, d.len() as int)[n + u.len() + i] == d[next + i]);
                assert(pk[n + u.len() + i] == tail[i]);
            }
        }
        assert(u.len() < usize::MAX as int + 1);
        vstd::arithmetic::div_mod::lemma_small_mod(u.len() as nat, (usize::MAX as int + 1) as nat);
        if u.len() == 0 {
            lemma_scan_packet(d, n, next, rest, out, offs);
            assert(annexb_of_slices(units) =~= annexb_of_slices(rest));
        } else {
            assert(d[start] == u[0]) by {
                assert(d.subrange(start, start + u.len())[0] == d[start]);
            }
            if is_slice_unit(u) {
                let out1 = out + seq![0u8, 0u8, 0u8, 1u8] + u;
                let offs1 = offs.push((out.len() % 0x1_0000_0000) as u32);
                lemma_scan_packet(d, n, next, rest, out1, offs1);
                assert(out1 + annexb_of_slices(rest) =~= out + annexb_of_slices(units));
                assert(offs1 + slice_starts(rest, out1.len() as int) =~= offs + slice_starts(units, out.len() as int));
            } else {
                lemma_scan_packet(d, n, next, rest, out, offs);
                assert(annexb_of_slices(units) =~= annexb_of_slices(rest));
            }
        }
    }
}

/// Law: converting an AVCC packet built from any units (each given its
/// `n`-byte length prefix) keeps exactly the units whose `nal_unit_type`
/// (the low 5 bits of the first byte) is 1 to 5, whatever their
/// `nal_ref_idc`: the output is each of them after a start code, in packet
/// order, with the offset of each; the result is the "no slices" error
/// exactly when there is no such unit.
pub proof fn avcc_conversion_keeps_every_slice(units: Seq<Seq<u8>>, n: nat)
    requires
        n > 0,
        forall|i: int| 0 <= i < units.len() ==> #[trigger] units[i].len() < pow256(n),
        avcc_packet(units, n).len() + n <= usize::MAX,
    ensures
        spec_avcc_to_annexb(avcc_packet(units, n), n) == if exists|i: int|
            0 <= i < units.len() && #[trigger] is_slice_unit(units[i]) {
            Ok((annexb_of_slices(units), slice_starts(units, 0)))
        } else {
            Err(crate::converter::no_slices_message())
        },
{
    let d = avcc_packet(units, n);
    assert(d.subrange(0, d.len() as int) =~= d);
    lemma_scan_packet(d, n, 0, units, Seq::empty(), Seq::empty());
    assert(Seq::<u8>::empty() + annexb_of_slices(units) =~= annexb_of_slices(units));
    assert(Seq::<u32>::empty() + slice_starts(units, 0) =~= slice_starts(units, 0));
    lemma_slice_starts_empty(units, 0);
}

/// Law: a slice header's first three fields are its first three
/// Exp-Golomb codes in order (`first_mb_in_slice`, `slice_type`,
/// `pic_parameter_set_id`), read from the bytes with emulation-prevention
/// bytes dropped; `frame_num` is the fixed-width field that follows them;
/// then come `field_pic_flag` and `bottom_field_flag` (only for sequences
/// that code fields, the second only for field pictures), `idr_pic_id` (only
/// in IDR slices, NAL unit type 5), and `pic_order_cnt_lsb` (only for
/// picture order count type 0; it is 0 otherwise).
pub proof fn slice_header_fields_come_in_stream_order(data: Seq<u8>, nal_unit_type: u8, sps: SpsInfo)
    requires
        spec_parse_slice_header(data, nal_unit_type, sps) is Some,
    ensures
        ({
            let h = spec_parse_slice_header(data, nal_unit_type, sps)->0;
            let src = slice_src(data);
            &&& read_ue(src, 0) matches Step::Val(a, p1)
            &&& h.first_mb_in_slice == a
            &&& read_ue(src, p1) matches Step::Val(b, p2)
            &&& h.slice_type == b
            &&& read_ue(src, p2) matches Step::Val(c, p3)
            &&& h.pic_parameter_set_id == c
            &&& read_bits(src, p3, (sps.log2_max_frame_num_minus4 + 4) as nat) matches Step::Val(f, p4)
            &&& h.frame_num as int == f as int % 0x1_0000
            &&& (if sps.frame_mbs_only_flag {
                Step::Val(0u32, p4)
            } else {
                read_bits(src, p4, 1)
            }) matches Step::Val(field_pic, q4)
            &&& (if field_pic == 1 {
                read_bits(src, q4, 1)
            } else {
                Step::Val(0u32, q4)
            }) matches Step::Val(_, p5)
            &&& (if nal_unit_type == 5 {
                read_ue(src, p5)
            } else {
                Step::Val(0u32, p5)
            }) matches Step::Val(_, p6)
            &&& sps.pic_order_cnt_type == 0 ==> (read_bits(
                src,
                p6,
                (sps.log2_max_pic_order_cnt_lsb_minus4 + 4) as nat,
            ) matches Step::Val(lsb, _) && h.pic_order_cnt_lsb == lsb)
            &&& sps.pic_order_cnt_type != 0 ==> h.pic_order_cnt_lsb == 0
        }),
{
}

/// The H.264 profiles whose SPS carries the chroma format, bit depths and
/// scaling matrices (High, High 10, High 4:2:2, High 4:4:4 Predictive,
/// CAVLC 4:4:4 Intra, and the scalable, multiview and stereo High profiles).
pub open spec fn profile_with_chroma_fields(p: u32) -> bool {
    p == 100 || p == 110 || p == 122 || p == 244 || p == 44 || p == 83 || p == 86 || p == 118 || p == 128
        || p == 138 || p == 139 || p == 134 || p == 135
}

/// Law: the SPS of a profile that carries chroma fields gives as its
/// chroma format the Exp-Golomb code that follows `seq_parameter_set_id`
/// (0 to 3, or Vulkan's invalid value), and as its luma and chroma bit
/// depths the next codes (after the separate-colour-plane bit for 4:4:4);
/// the SPS of any other profile is 4:2:0 with 8-bit samples.
pub proof fn sps_chroma_fields_follow_the_profile(e: Seq<u8>)
    requires
        spec_parse_sps(e) is Some,
    ensures
        ({
            let s = spec_parse_sps(e)->0;
            let src = rbsp_src(spec_extract_sps(e)->0);
            let profile = read_bits(src, 8, 8)->Val_0;
            &&& s.profile_idc == std_profile_idc(profile)
            &&& s.level_idc == std_level_idc(read_bits(src, 24, 8)->Val_0)
            &&& read_ue(src, 32) matches Step::Val(id, p0)
            &&& s.seq_parameter_set_id == (id as int % 256) as u8
            &&& profile_with_chroma_fields(profile) ==> {
                &&& read_ue(src, p0) matches Step::Val(c, p1)
                &&& s.chroma_format_idc == if c < 4 { c } else { STD_VIDEO_H264_INVALID }
                &&& (if c == 3 { read_bit32(src, p1) } else { Step::Val(0u32, p1) }) matches Step::Val(
                    sep,
                    p2,
                )
                &&& s.flags.separate_colour_plane_flag == sep
                &&& read_ue(src, p2) matches Step::Val(luma, p3)
                &&& s.bit_depth_luma_minus8 == (luma as int % 256) as u8
                &&& read_ue(src, p3) matches Step::Val(chroma, _)
                &&& s.bit_depth_chroma_minus8 == (chroma as int % 256) as u8
            }
            &&& !profile_with_chroma_fields(profile) ==> {
                &&& s.chroma_format_idc == 1
                &&& s.bit_depth_luma_minus8 == 0
                &&& s.bit_depth_chroma_minus8 == 0
                &&& s.flags.separate_colour_plane_flag == 0
            }
        }),
{
    let src = rbsp_src(spec_extract_sps(e)->0);
    reveal(sps_head_step);
    reveal(sps_chroma_step);
    lemma_read_bits_bound(src, 0, 8);
    lemma_read_bits_bound(src, 8, 8);
    lemma_read_bits_bound(src, 16, 8);
    lemma_read_bits_bound(src, 24, 8);
}

/// Law: after the PPS's ids, flags and slice group map, its next fields
/// come in stream order: the two `num_ref_idx_l*_default_active_minus1`
/// codes, the `weighted_pred_flag` bit, and the 2-bit
/// `weighted_bipred_idc`, which is kept as it is when it is 0, 1 or 2
/// (Vulkan's DEFAULT, EXPLICIT, IMPLICIT) and is Vulkan's invalid value for 3.
/// The ids are the first two Exp-Golomb codes after the NAL header byte,
/// followed by the entropy coding and bottom-field order bits; after the
/// weighting fields come the three signed codes `pic_init_qp_minus26`,
/// `pic_init_qs_minus26`, `chroma_qp_index_offset` (kept in an `i8`) and
/// the deblocking, constrained intra and redundant picture count bits.
pub proof fn pps_reference_and_weighting_fields_come_in_stream_order(e: Seq<u8>)
    requires
        spec_parse_pps(e) is Some,
    ensures
        ({
            let s = spec_parse_pps(e)->0;
            let src = rbsp_src(spec_extract_pps(e)->0);
            &&& read_ue(src, 8) matches Step::Val(pps_id, q1)
            &&& s.pic_parameter_set_id == (pps_id as int % 256) as u8
            &&& read_ue(src, q1) matches Step::Val(sps_id, q2)
            &&& s.seq_parameter_set_id == (sps_id as int % 256) as u8
            &&& read_bit32(src, q2) matches Step::Val(ecm, q3)
            &&& s.flags.entropy_coding_mode_flag == ecm
            &&& read_bit32(src, q3) matches Step::Val(bf, _)
            &&& s.flags.bottom_field_pic_order_in_frame_present_flag == bf
            &&& pps_head_step(src) matches Step::Val(head, p1)
            &&& slice_groups_step(src, p1, head.num_slice_groups_minus1) matches Step::Val(_, p2)
            &&& read_ue(src, p2) matches Step::Val(l0, p3)
            &&& s.num_ref_idx_l0_default_active_minus1 == (l0 as int % 256) as u8
            &&& read_ue(src, p3) matches Step::Val(l1, p4)
            &&& s.num_ref_idx_l1_default_active_minus1 == (l1 as int % 256) as u8
            &&& read_bit32(src, p4) matches Step::Val(weighted_pred, p5)
            &&& s.flags.weighted_pred_flag == weighted_pred
            &&& read_bits(src, p5, 2) matches Step::Val(bipred, p6)
            &&& bipred <= 3
            &&& s.weighted_bipred_idc == if bipred <= 2 { bipred } else { STD_VIDEO_H264_INVALID }
            &&& read_se(src, p6) matches Step::Val(qp, p7)
            &&& s.pic_init_qp_minus26 == qp as i8
            &&& read_se(src, p7) matches Step::Val(qs, p8)
            &&& s.pic_init_qs_minus26 == qs as i8
            &&& read_se(src, p8) matches Step::Val(cqp, p9)
            &&& s.chroma_qp_index_offset == cqp as i8
            &&& read_bit32(src, p9) matches Step::Val(dbf, p10)
            &&& s.flags.deblocking_filter_control_present_flag == dbf
            &&& read_bit32(src, p10) matches Step::Val(cip, p11)
            &&& s.flags.constrained_intra_pred_flag == cip
            &&& read_bit32(src, p11) matches Step::Val(rpc, _)
            &&& s.flags.redundant_pic_cnt_present_flag == rpc
        }),
{
    let src = rbsp_src(spec_extract_pps(e)->0);
    lemma_pps_decompose(e);
    lemma_pps_head_reads(src);
    if let Step::Val(head, p1) = pps_head_step(src) {
        if let Step::Val(_, p2) = slice_groups_step(src, p1, head.num_slice_groups_minus1) {
            lemma_pps_body_reads(src, p2);
        }
    }
}

/// Law: the parsed `weighted_bipred_idc` is the 2-bit field that follows
/// `weighted_pred_flag` when that field is 0, 1 or 2 (Vulkan's DEFAULT,
/// EXPLICIT and IMPLICIT), and Vulkan's invalid value only when it is 3.
pub proof fn pps_weighted_bipred_idc_is_its_field(e: Seq<u8>)
    requires
        spec_parse_pps(e) is Some,
    ensures
        ({
            let src = rbsp_src(spec_extract_pps(e)->0);
            &&& pps_head_step(src) matches Step::Val(head, p1)
            &&& slice_groups_step(src, p1, head.num_slice_groups_minus1) matches Step::Val(_, p2)
            &&& pps_body_step(src, p2) matches Step::Val(body, _)
            &&& body.weighted_bipred_idc <= 3
            &&& spec_parse_pps(e)->0.weighted_bipred_idc == if body.weighted_bipred_idc <= 2 {
                body.weighted_bipred_idc
            } else {
                STD_VIDEO_H264_INVALID
            }
        }),
{
    let src = rbsp_src(spec_extract_pps(e)->0);
    lemma_pps_decompose(e);
    if let Step::Val(head, p1) = pps_head_step(src) {
        if let Step::Val(_, p2) = slice_groups_step(src, p1, head.num_slice_groups_minus1) {
            lemma_pps_body_reads(src, p2);
        }
    }
}

proof fn lemma_pps_decompose(e: Seq<u8>)
    requires
        spec_parse_pps(e) is Some,
    ensures
        ({
            let src = rbsp_src(spec_extract_pps(e)->0);
            &&& pps_head_step(src) matches Step::Val(head, p1)
            &&& slice_groups_step(src, p1, head.num_slice_groups_minus1) matches Step::Val(_, p2)
            &&& pps_body_step(src, p2) matches Step::Val(body, p3)
            &&& pps_tail_step(src, p3, body.chroma_qp_index_offset) matches Step::Val(tail, _)
            &&& spec_parse_pps(e)->0 == pps_from_fields(head, body, tail)
        }),
{
}

proof fn lemma_pps_head_reads(src: crate::bitstream::BitSrc)
    ensures
        pps_head_step(src) matches Step::Val(h, _) ==> {
            &&& read_ue(src, 8) matches Step::Val(a, q1)
            &&& h.pic_parameter_set_id == a
            &&& read_ue(src, q1) matches Step::Val(b, q2)
            &&& h.seq_parameter_set_id == b
            &&& read_bit32(src, q2) matches Step::Val(ecm, q3)
            &&& h.entropy_coding_mode_flag == ecm
            &&& read_bit32(src, q3) matches Step::Val(bf, q4)
            &&& h.bottom_field_pic_order_in_frame_present_flag == bf
            &&& read_ue(src, q4) matches Step::Val(ng, _)
            &&& h.num_slice_groups_minus1 == ng
        },
{
    reveal(pps_head_step);
    lemma_read_bits_bound(src, 0, 8);
}

proof fn lemma_pps_body_reads(src: crate::bitstream::BitSrc, p2: int)
    ensures
        pps_body_step(src, p2) matches Step::Val(body, _) ==> {
            &&& read_ue(src, p2) matches Step::Val(l0, p3)
            &&& body.num_ref_idx_l0_default_active_minus1 == l0
            &&& read_ue(src, p3) matches Step::Val(l1, p4)
            &&& body.num_ref_idx_l1_default_active_minus1 == l1
            &&& read_bit32(src, p4) matches Step::Val(w, p5)
            &&& body.weighted_pred_flag == w
            &&& read_bits(src, p5, 2) matches Step::Val(bipred, p6)
            &&& body.weighted_bipred_idc == bipred
            &&& bipred <= 3
            &&& read_se(src, p6) matches Step::Val(qp, p7)
            &&& body.pic_init_qp_minus26 == qp
            &&& read_se(src, p7) matches Step::Val(qs, p8)
            &&& body.pic_init_qs_minus26 == qs
            &&& read_se(src, p8) matches Step::Val(cqp, p9)
            &&& body.chroma_qp_index_offset == cqp
            &&& read_bit32(src, p9) matches Step::Val(dbf, p10)
            &&& body.deblocking_filter_control_present_flag == dbf
            &&& read_bit32(src, p10) matches Step::Val(cip, p11)
            &&& body.constrained_intra_pred_flag == cip
            &&& read_bit32(src, p11) matches Step::Val(rpc, _)
            &&& body.redundant_pic_cnt_present_flag == rpc
        },
{
    reveal(pps_body_step);
    if let Step::Val(_, p3) = read_ue(src, p2) {
        if let Step::Val(_, p4) = read_ue(src, p3) {
            if let Step::Val(_, p5) = read_bit32(src, p4) {
                lemma_read_bits_bound(src, p5, 2);
                assert(pow2(2) == 4) by {
                    vstd::arithmetic::power2::lemma2_to64();
                }
                lemma_read_bits_small(src, p5, 2);
            }
        }
    }
}

/// Law: the SPS and PPS that are extracted from an `avcC` record are
/// exactly as long as their 16-bit big-endian length prefixes announce:
/// the SPS is the `be16(e, 6)` bytes from byte 8, and the PPS is the
/// `n` bytes after its own prefix `n`, which follows a nonzero PPS count;
/// nothing after them is included.
pub proof fn extracted_parameter_sets_have_their_announced_lengths(e: Seq<u8>)
    ensures
        spec_extract_sps(e) matches Some(sps) ==> {
            &&& 8 + (e[6] as int) * 256 + (e[7] as int) <= e.len()
            &&& sps.len() == (e[6] as int) * 256 + (e[7] as int)
            &&& forall|i: int| 0 <= i < sps.len() ==> #[trigger] sps[i] == e[8 + i]
        },
        spec_extract_pps(e) matches Some(pps) ==> {
            let q = pps_start(e);
            &&& 8 <= q <= e.len()
            &&& e[q - 3] != 0
            &&& pps.len() == (e[q - 2] as int) * 256 + (e[q - 1] as int)
            &&& q + pps.len() <= e.len()
            &&& forall|i: int| 0 <= i < pps.len() ==> #[trigger] pps[i] == e[q + i]
        },
{
    if let Some(_) = spec_extract_pps(e) {
        let n = (e[5] % 32) as nat;
        lemma_skip_entries_grows(e, 6, n);
    }
}

proof fn lemma_sps_poc_reads(src: crate::bitstream::BitSrc, p: int)
    ensures
        sps_poc_step(src, p) matches Step::Val(poc, _) ==> {
            &&& read_ue(src, p) matches Step::Val(lf, q1)
            &&& poc.log2_max_frame_num_minus4 == lf
            &&& read_ue(src, q1) matches Step::Val(pt, q2)
            &&& poc.pic_order_cnt_type == pt
            &&& pt == 0 ==> (read_ue(src, q2) matches Step::Val(lp, _)
                && poc.log2_max_pic_order_cnt_lsb_minus4 == lp)
            &&& pt != 0 ==> poc.log2_max_pic_order_cnt_lsb_minus4 == 0
            &&& pt == 1 ==> {
                &&& read_bit32(src, q2) matches Step::Val(dz, r1)
                &&& poc.delta_pic_order_always_zero_flag == dz
                &&& read_se(src, r1) matches Step::Val(onr, r2)
                &&& poc.offset_for_non_ref_pic == onr
                &&& read_se(src, r2) matches Step::Val(ottb, r3)
                &&& poc.offset_for_top_to_bottom_field == ottb
                &&& read_ue(src, r3) matches Step::Val(nc, _)
                &&& poc.num_ref_frames_in_pic_order_cnt_cycle == nc
            }
            &&& pt != 1 ==> {
                &&& poc.delta_pic_order_always_zero_flag == 0
                &&& poc.offset_for_non_ref_pic == 0
                &&& poc.offset_for_top_to_bottom_field == 0
                &&& poc.num_ref_frames_in_pic_order_cnt_cycle == 0
            }
        },
{
    reveal(sps_poc_step);
}

proof fn lemma_sps_frame_reads(src: crate::bitstream::BitSrc, p: int)
    ensures
        sps_frame_step(src, p) matches Step::Val(fr, _) ==> {
            &&& read_ue(src, p) matches Step::Val(mr, f1)
            &&& fr.max_num_ref_frames == mr
            &&& read_bit32(src, f1) matches Step::Val(gaps, f2)
            &&& fr.gaps_in_frame_num_value_allowed_flag == gaps
            &&& read_ue(src, f2) matches Step::Val(w, f3)
            &&& fr.pic_width_in_mbs_minus1 == w
            &&& read_ue(src, f3) matches Step::Val(h, f4)
            &&& fr.pic_height_in_map_units_minus1 == h
            &&& read_bit32(src, f4) matches Step::Val(fmo, f5)
            &&& fr.frame_mbs_only_flag == fmo
            &&& (if fmo == 0 { read_bit32(src, f5) } else { Step::Val(0u32, f5) }) matches Step::Val(mbaff, f6)
            &&& fr.mb_adaptive_frame_field_flag == mbaff
            &&& read_bit32(src, f6) matches Step::Val(d8, f7)
            &&& fr.direct_8x8_inference_flag == d8
            &&& read_bit32(src, f7) matches Step::Val(crop, f8)
            &&& fr.frame_cropping_flag == crop
            &&& crop == 1 ==> {
                &&& read_ue(src, f8) matches Step::Val(cl, g1)
                &&& fr.frame_crop_left_offset == cl
                &&& read_ue(src, g1) matches Step::Val(cr, g2)
                &&& fr.frame_crop_right_offset == cr
                &&& read_ue(src, g2) matches Step::Val(ct, g3)
                &&& fr.frame_crop_top_offset == ct
                &&& read_ue(src, g3) matches Step::Val(cb, _)
                &&& fr.frame_crop_bottom_offset == cb
            }
            &&& crop != 1 ==> {
                &&& fr.frame_crop_left_offset == 0
                &&& fr.frame_crop_right_offset == 0
                &&& fr.frame_crop_top_offset == 0
                &&& fr.frame_crop_bottom_offset == 0
            }
        },
{
    reveal(sps_frame_step);
}

/// Law: after its chroma fields, an SPS gives, in stream order,
/// `log2_max_frame_num_minus4` and `pic_order_cnt_type`; for type 0 the
/// `log2_max_pic_order_cnt_lsb_minus4` code, for type 1 the
/// `delta_pic_order_always_zero_flag` bit, the two signed offsets and the
/// cycle length (all 0 otherwise). Codes kept in a byte keep their low 8
/// bits; the order count type is kept when it is 0 to 2 and is Vulkan's
/// invalid value otherwise.
pub proof fn sps_order_count_fields_come_in_stream_order(e: Seq<u8>)
    requires
        spec_parse_sps(e) is Some,
    ensures
        ({
            let s = spec_parse_sps(e)->0;
            let src = rbsp_src(spec_extract_sps(e)->0);
            &&& sps_head_step(src) matches Step::Val(head, p1)
            &&& sps_chroma_step(src, p1, head.profile_idc) matches Step::Val(_, p2)
            &&& read_ue(src, p2) matches Step::Val(lf, q1)
            &&& s.log2_max_frame_num_minus4 == (lf as int % 256) as u8
            &&& read_ue(src, q1) matches Step::Val(pt, q2)
            &&& s.pic_order_cnt_type == if pt <= 2 { pt } else { STD_VIDEO_H264_INVALID }
            &&& pt == 0 ==> (read_ue(src, q2) matches Step::Val(lp, _)
                && s.log2_max_pic_order_cnt_lsb_minus4 == (lp as int % 256) as u8)
            &&& pt != 0 ==> s.log2_max_pic_order_cnt_lsb_minus4 == 0
            &&& pt == 1 ==> {
                &&& read_bit32(src, q2) matches Step::Val(dz, r1)
                &&& s.flags.delta_pic_order_always_zero_flag == dz
                &&& read_se(src, r1) matches Step::Val(onr, r2)
                &&& s.offset_for_non_ref_pic == onr
                &&& read_se(src, r2) matches Step::Val(ottb, r3)
                &&& s.offset_for_top_to_bottom_field == ottb
                &&& read_ue(src, r3) matches Step::Val(nc, _)
                &&& s.num_ref_frames_in_pic_order_cnt_cycle == (nc as int % 256) as u8
            }
        }),
{
    let src = rbsp_src(spec_extract_sps(e)->0);
    if let Step::Val(head, p1) = sps_head_step(src) {
        if let Step::Val(_, p2) = sps_chroma_step(src, p1, head.profile_idc) {
            lemma_sps_poc_reads(src, p2);
        }
    }
}

/// Law: after its order count fields, an SPS gives, in stream order,
/// `max_num_ref_frames` (low 8 bits), the gaps bit, the width and height in
/// macroblocks, `frame_mbs_only_flag`, the MBAFF bit (only without
/// `frame_mbs_only_flag`, 0 otherwise), the direct 8x8 bit, the cropping
/// bit and, when it is set, the four cropping offsets (0 otherwise).
pub proof fn sps_frame_fields_come_in_stream_order(e: Seq<u8>)
    requires
        spec_parse_sps(e) is Some,
    ensures
        ({
            let s = spec_parse_sps(e)->0;
            let src = rbsp_src(spec_extract_sps(e)->0);
            &&& sps_head_step(src) matches Step::Val(head, p1)
            &&& sps_chroma_step(src, p1, head.profile_idc) matches Step::Val(_, p2)
            &&& sps_poc_step(src, p2) matches Step::Val(_, p3)
            &&& read_ue(src, p3) matches Step::Val(mr, f1)
            &&& s.max_num_ref_frames == (mr as int % 256) as u8
            &&& read_bit32(src, f1) matches Step::Val(gaps, f2)
            &&& s.flags.gaps_in_frame_num_value_allowed_flag == gaps
            &&& read_ue(src, f2) matches Step::Val(w, f3)
            &&& s.pic_width_in_mbs_minus1 == w
            &&& read_ue(src, f3) matches Step::Val(h, f4)
            &&& s.pic_height_in_map_units_minus1 == h
            &&& read_bit32(src, f4) matches Step::Val(fmo, f5)
            &&& s.flags.frame_mbs_only_flag == fmo
            &&& (if fmo == 0 { read_bit32(src, f5) } else { Step::Val(0u32, f5) }) matches Step::Val(mbaff, f6)
            &&& s.flags.mb_adaptive_frame_field_flag == mbaff
            &&& read_bit32(src, f6) matches Step::Val(d8, f7)
            &&& s.flags.direct_8x8_inference_flag == d8
            &&& read_bit32(src, f7) matches Step::Val(crop, f8)
            &&& s.flags.frame_cropping_flag == crop
            &&& crop == 1 ==> {
                &&& read_ue(src, f8) matches Step::Val(cl, g1)
                &&& s.frame_crop_left_offset == cl
                &&& read_ue(src, g1) matches Step::Val(cr, g2)
                &&& s.frame_crop_right_offset == cr
                &&& read_ue(src, g2) matches Step::Val(ct, g3)
                &&& s.frame_crop_top_offset == ct
                &&& read_ue(src, g3) matches Step::Val(cb, _)
                &&& s.frame_crop_bottom_offset == cb
            }
            &&& crop != 1 ==> s.frame_crop_left_offset == 0 && s.frame_crop_right_offset == 0
                && s.frame_crop_top_offset == 0 && s.frame_crop_bottom_offset == 0
        }),
{
    let src = rbsp_src(spec_extract_sps(e)->0);
    if let Step::Val(head, p1) = sps_head_step(src) {
        if let Step::Val(_, p2) = sps_chroma_step(src, p1, head.profile_idc) {
            if let Step::Val(_, p3) = sps_poc_step(src, p2) {
                lemma_sps_frame_reads(src, p3);
            }
        }
    }
}

/// The `n`-bit binary representation of `m`, most significant bit first.
pub open spec fn binary_bits(m: nat, n: nat) -> Seq<u8>
    decreases n,
{
    if n == 0 {
        Seq::empty()
    } else {
        binary_bits(m / 2, (n - 1) as nat).push((m % 2) as u8)
    }
}

/// The Exp-Golomb code `ue(v)` of `v`, whose `v + 1` has `k + 1` bits:
/// `k` zero bits, a one bit, and `v + 1 - 2^k` in `k` bits.
pub open spec fn ue_code(v: nat, k: nat) -> Seq<u8> {
    Seq::new(k, |i: int| 0u8) + seq![1u8] + binary_bits((v + 1 - pow2(k)) as nat, k)
}

/// Whether the bits of `src` from position `pos` are `bits`.
pub open spec fn bits_at(src: crate::bitstream::BitSrc, pos: int, bits: Seq<u8>) -> bool {
    forall|i: int| 0 <= i < bits.len() ==> #[trigger] read_bit(src, pos + i) == Step::Val(bits[i], pos + i + 1)
}

proof fn lemma_binary_bits_len(m: nat, n: nat)
    ensures
        binary_bits(m, n).len() == n,
    decreases n,
{
    if n > 0 {
        lemma_binary_bits_len(m / 2, (n - 1) as nat);
    }
}

proof fn lemma_read_binary(src: crate::bitstream::BitSrc, p: int, m: nat, n: nat)
    requires
        m < pow2(n),
        bits_at(src, p, binary_bits(m, n)),
    ensures
        read_bits_int(src, p, n) == Step::Val(m as int, p + n),
    decreases n,
{
    if n > 0 {
        let b = binary_bits(m, n);
        let pre = binary_bits(m / 2, (n - 1) as nat);
        lemma_binary_bits_len(m, n);
        lemma_binary_bits_len(m / 2, (n - 1) as nat);
        assert(b.drop_last() =~= pre);
        vstd::arithmetic::power2::lemma_pow2_unfold(n);
        assert(m / 2 < pow2((n - 1) as nat)) by (nonlinear_arith)
            requires
                m < 2 * pow2((n - 1) as nat),
        ;
        assert(bits_at(src, p, pre)) by {
            assert forall|i: int| 0 <= i < pre.len() implies #[trigger] read_bit(src, p + i) == Step::Val(
                pre[i],
                p + i + 1,
            ) by {
                assert(b[i] == pre[i]);
                assert(read_bit(src, p + i) == Step::Val(b[i], p + i + 1));
            }
        }
        lemma_read_binary(src, p, m / 2, (n - 1) as nat);
        assert(read_bit(src, p + (n - 1)) == Step::Val(b[n - 1], p + (n - 1) + 1));
        assert(b[n - 1] == (m % 2) as u8);
        assert(2 * (m / 2) + m % 2 == m) by (nonlinear_arith);
        assert(read_bits_int(src, p, (n - 1) as nat) == Step::Val((m / 2) as int, p + (n - 1)));
        assert(read_bits_int(src, p, n) == Step::Val(2 * ((m / 2) as int) + b[n - 1], p + n));
        assert(((m % 2) as u8) as int == m % 2);
    } else {
        vstd::arithmetic::power2::lemma2_to64();
    }
}

proof fn lemma_count_leading_zeros(src: crate::bitstream::BitSrc, pos: int, j: nat, k: nat)
    requires
        j <= k < 32,
        forall|i: int| j <= i < k ==> #[trigger] read_bit(src, pos + i) == Step::Val(0u8, pos + i + 1),
        read_bit(src, pos + k) == Step::Val(1u8, pos + k + 1),
    ensures
        count_zeros(src, pos + j, j) == Step::Val(k, pos + k + 1),
    decreases k - j,
{
    if j < k {
        assert(read_bit(src, pos + j) == Step::Val(0u8, pos + j + 1));
        lemma_count_leading_zeros(src, pos, j + 1, k);
        assert(pos + j + 1 == pos + (j + 1));
    }
}

/// Law: reading an unsigned Exp-Golomb code gives back the number it
/// encodes: for any `v` whose `v + 1` has `k + 1 <= 32` bits, a stream whose
/// bits from `pos` are `ue_code(v, k)` reads as `v`, ending just after the code.
pub proof fn exp_golomb_codes_read_back(src: crate::bitstream::BitSrc, pos: int, v: nat, k: nat)
    requires
        k < 32,
        pow2(k) <= v + 1 < pow2(k + 1),
        bits_at(src, pos, ue_code(v, k)),
    ensures
        v <= u32::MAX,
        read_ue(src, pos) == Step::Val(v as u32, pos + 2 * k + 1),
{
    let code = ue_code(v, k);
    let m = (v + 1 - pow2(k)) as nat;
    vstd::arithmetic::power2::lemma_pow2_unfold(k + 1);
    lemma_binary_bits_len(m, k);
    assert(code.len() == 2 * k + 1);
    assert(pow2(32) == 0x1_0000_0000) by {
        vstd::arithmetic::power2::lemma2_to64();
    }
    assert(pow2(k + 1) <= pow2(32)) by {
        if k + 1 < 32 {
            vstd::arithmetic::power2::lemma_pow2_strictly_increases(k + 1, 32);
        }
    }
    assert forall|i: int| 0 <= i < k implies #[trigger] read_bit(src, pos + i) == Step::Val(0u8, pos + i + 1) by {
        assert(code[i] == 0u8);
        assert(read_bit(src, pos + i) == Step::Val(code[i], pos + i + 1));
    }
    assert(code[k as int] == 1u8);
    assert(read_bit(src, pos + k) == Step::Val(code[k as int], pos + k + 1));
    lemma_count_leading_zeros(src, pos, 0, k);
    assert(pos + 0 == pos);
    assert(count_zeros(src, pos, 0) == Step::Val(k, pos + k + 1));
    vstd::arithmetic::power2::lemma2_to64();
    if k == 0 {
        assert(v == 0);
    } else {
        let tail = binary_bits(m, k);
        assert(bits_at(src, pos + k + 1, tail)) by {
            assert forall|i: int| 0 <= i < tail.len() implies #[trigger] read_bit(src, pos + k + 1 + i)
                == Step::Val(tail[i], pos + k + 1 + i + 1) by {
                assert(code[k + 1 + i] == tail[i]);
                assert(read_bit(src, pos + (k + 1 + i)) == Step::Val(code[k + 1 + i], pos + (k + 1 + i) + 1));
                assert(pos + (k + 1 + i) == pos + k + 1 + i);
            }
        }
        lemma_read_binary(src, pos + k + 1, m, k);
        lemma_read_bits_small(src, pos + k + 1, k);
        assert(crate::bitstream::read_bits(src, pos + k + 1, k) == Step::Val(m as u32, pos + k + 1 + k));
        assert(pow2(k) - 1 + m == v);
    }
}

proof fn lemma_unescape_shift(p: Seq<u8>, b: Seq<u8>, k: int)
    requires
        0 <= k <= b.len(),
    ensures
        unescape_from(p + b, p.len() + k) == unescape_from(b, k),
    decreases b.len() - k,
{
    let d = p + b;
    let i = p.len() + k;
    if k < b.len() {
        assert(d[i] == b[k]);
        if k + 2 < b.len() {
            assert(d[i + 1] == b[k + 1] && d[i + 2] == b[k + 2]);
        }
        if k + 2 < b.len() && b[k] == 0 && b[k + 1] == 0 && b[k + 2] == 3 {
            lemma_unescape_shift(p, b, k + 3);
            assert(p.len() + (k + 3) == i + 3);
        } else {
            lemma_unescape_shift(p, b, k + 1);
            assert(p.len() + (k + 1) == i + 1);
        }
    }
}

proof fn lemma_unescape_prefix(d: Seq<u8>, a: Seq<u8>, b: Seq<u8>, i: int)
    requires
        d == a + seq![0u8, 0u8, 3u8] + b,
        0 <= i <= a.len(),
        forall|j: int| 0 <= j < a.len() ==> !#[trigger] escape_at(d, j),
    ensures
        unescape_from(d, i) == a.skip(i) + seq![0u8, 0u8] + unescape_from(d, a.len() + 3int),
    decreases a.len() - i,
{
    if i == a.len() {
        assert(d[i] == 0 && d[i + 1] == 0 && d[i + 2] == 3);
        assert(a.skip(i) =~= Seq::<u8>::empty());
        assert(seq![0u8, 0u8] + unescape_from(d, a.len() + 3int) =~= a.skip(i) + seq![0u8, 0u8] + unescape_from(
            d,
            a.len() + 3int,
        ));
    } else {
        assert(!escape_at(d, i));
        assert(d[i] == a[i]);
        lemma_unescape_prefix(d, a, b, i + 1);
        assert(seq![a[i]] + (a.skip(i + 1) + seq![0u8, 0u8] + unescape_from(d, a.len() + 3int)) =~= a.skip(i)
            + seq![0u8, 0u8] + unescape_from(d, a.len() + 3int));
    }
}

/// `a`, an emulation-prevented `00 00 03`, then `b`.
pub open spec fn escaped_join(a: Seq<u8>, b: Seq<u8>) -> Seq<u8> {
    a + seq![0u8, 0u8, 3u8] + b
}

/// Law: removing emulation-prevention bytes from an SPS or PPS payload
/// copies the bytes before the first `00 00 03` as they are, turns that
/// `00 00 03` into `00 00`, and goes on in the same way with the rest.
pub proof fn unescape_drops_the_first_emulation_prevention_byte(a: Seq<u8>, b: Seq<u8>)
    requires
        forall|j: int| 0 <= j < a.len() ==> !#[trigger] escape_at(escaped_join(a, b), j),
    ensures
        unescape(escaped_join(a, b)) == a + seq![0u8, 0u8] + unescape(b),
{
    let d = escaped_join(a, b);
    lemma_unescape_prefix(d, a, b, 0);
    assert(d =~= (a + seq![0u8, 0u8, 3u8]) + b);
    lemma_unescape_shift(a + seq![0u8, 0u8, 3u8], b, 0);
    assert(a.skip(0) =~= a);
}

/// No two consecutive zero bytes in `a`.
pub open spec fn no_zero_pair(a: Seq<u8>) -> bool {
    forall|j: int| 0 <= j < a.len() - 1 ==> !(#[trigger] a[j] == 0 && a[j + 1] == 0)
}

proof fn lemma_ep_shift(p: Seq<u8>, b: Seq<u8>, k: int, z: int)
    requires
        0 <= k <= b.len(),
    ensures
        ep_bytes(p + b, p.len() + k, z) == ep_bytes(b, k, z),
    decreases b.len() - k,
{
    let d = p + b;
    let i = p.len() + k;
    if k < b.len() {
        assert(d[i] == b[k]);
        if z == 2 && b[k] == 3 {
            lemma_ep_shift(p, b, k + 1, 0);
        } else {
            lemma_ep_shift(p, b, k + 1, if b[k] == 0 { z + 1 } else { 0 });
        }
        assert(p.len() + (k + 1) == i + 1);
    }
}

proof fn lemma_ep_clean(a: Seq<u8>, i: int, z: int)
    requires
        no_zero_pair(a),
        0 <= i <= a.len(),
        z == if i > 0 && a[i - 1] == 0 { 1int } else { 0int },
    ensures
        ep_bytes(a, i, z) == a.skip(i),
    decreases a.len() - i,
{
    if i < a.len() {
        if a[i] == 0 && i > 0 {
            assert(!(a[i - 1] == 0 && a[i] == 0));
        }
        lemma_ep_clean(a, i + 1, if a[i] == 0 { z + 1 } else { 0 });
        assert(seq![a[i]] + a.skip(i + 1) =~= a.skip(i));
    } else {
        assert(a.skip(i) =~= Seq::<u8>::empty());
    }
}

proof fn lemma_ep_prefix(d: Seq<u8>, a: Seq<u8>, b: Seq<u8>, i: int, z: int)
    requires
        d == a + seq![0u8, 0u8, 3u8] + b,
        no_zero_pair(a),
        a.len() == 0 || a.last() != 0,
        0 <= i <= a.len(),
        z == if i > 0 && a[i - 1] == 0 { 1int } else { 0int },
    ensures
        ep_bytes(d, i, z) == a.skip(i) + seq![0u8, 0u8] + ep_bytes(d, a.len() + 3int, 0),
    decreases a.len() - i,
{
    if i == a.len() {
        assert(z == 0);
        assert(d[i] == 0 && d[i + 1] == 0 && d[i + 2] == 3);
        assert(ep_bytes(d, i + 2, 2) == ep_bytes(d, i + 3, 0));
        assert(ep_bytes(d, i + 1, 1) == seq![0u8] + ep_bytes(d, i + 2, 2));
        assert(ep_bytes(d, i, 0) == seq![0u8] + ep_bytes(d, i + 1, 1));
        assert(a.skip(i) =~= Seq::<u8>::empty());
        assert(seq![0u8] + (seq![0u8] + ep_bytes(d, a.len() + 3int, 0)) =~= a.skip(i) + seq![0u8, 0u8]
            + ep_bytes(d, a.len() + 3int, 0));
    } else {
        assert(d[i] == a[i]);
        if a[i] == 0 && i > 0 {
            assert(!(a[i - 1] == 0 && a[i] == 0));
        }
        lemma_ep_prefix(d, a, b, i + 1, if a[i] == 0 { z + 1 } else { 0 });
        assert(seq![a[i]] + (a.skip(i + 1) + seq![0u8, 0u8] + ep_bytes(d, a.len() + 3int, 0)) =~= a.skip(i)
            + seq![0u8, 0u8] + ep_bytes(d, a.len() + 3int, 0));
    }
}

/// Law: the bytes a slice-header reader takes are the slice bytes
/// themselves when no two zero bytes follow each other; and after bytes
/// without two consecutive zeros that end in a nonzero byte, a
/// `00 00 03` gives `00 00`, the `03` being dropped, and reading goes on
/// with the rest as from a fresh start.
pub proof fn slice_reader_drops_only_emulation_prevention_bytes(a: Seq<u8>, b: Seq<u8>)
    requires
        no_zero_pair(a),
    ensures
        ep_bytes(a, 0, 0) == a,
        a.len() == 0 || a.last() != 0 ==> ep_bytes(a + seq![0u8, 0u8, 3u8] + b, 0, 0) == a + seq![0u8, 0u8]
            + ep_bytes(b, 0, 0),
{
    lemma_ep_clean(a, 0, 0);
    assert(a.skip(0) =~= a);
    if a.len() == 0 || a.last() != 0 {
        let d = a + seq![0u8, 0u8, 3u8] + b;
        lemma_ep_prefix(d, a, b, 0, 0);
        assert(d =~= (a + seq![0u8, 0u8, 3u8]) + b);
        lemma_ep_shift(a + seq![0u8, 0u8, 3u8], b, 0, 0);
    }
}

/// Whether `h` splits the header byte `b` into its 1-bit, 2-bit and 5-bit
/// fields, with the slice header at `offset`.
pub open spec fn header_of_byte(h: NaluHeader, b: u8, offset: int) -> bool {
    &&& h.forbidden_zero_bit <= 1
    &&& h.nal_ref_idc <= 3
    &&& h.nal_unit_type <= 31
    &&& h.forbidden_zero_bit * 128 + h.nal_ref_idc * 32 + h.nal_unit_type == b
    &&& h.slice_header_offset == offset
}

/// Law: the NAL unit header is read from the byte after a 4-byte
/// (`00 00 00 01`) or 3-byte (`00 00 01`) start code, or from the first
/// byte of data that does not begin with a start code, and the slice header
/// starts right after that byte; a start code with nothing after it has no header.
pub proof fn nalu_header_follows_the_start_code(b: u8, rest: Seq<u8>)
    ensures
        NaluHeader::spec_parse(seq![0u8, 0u8, 0u8, 1u8, b] + rest) matches Some(h) && header_of_byte(h, b, 5),
        NaluHeader::spec_parse(seq![0u8, 0u8, 1u8, b] + rest) matches Some(h) && header_of_byte(h, b, 4),
        b != 0 ==> (NaluHeader::spec_parse(seq![b] + rest) matches Some(h) && header_of_byte(h, b, 1)),
        NaluHeader::spec_parse(seq![0u8, 0u8, 0u8, 1u8]) is None,
        NaluHeader::spec_parse(seq![0u8, 0u8, 1u8]) is None,
        NaluHeader::spec_parse(Seq::empty()) is None,
{
    let d4 = seq![0u8, 0u8, 0u8, 1u8, b] + rest;
    let d3 = seq![0u8, 0u8, 1u8, b] + rest;
    let d1 = seq![b] + rest;
    assert(d4[0] == 0 && d4[1] == 0 && d4[2] == 0 && d4[3] == 1 && d4[4] == b);
    assert(d3[0] == 0 && d3[1] == 0 && d3[2] == 1 && d3[3] == b);
    assert(d1[0] == b);
    assert(b == (b / 128) * 128 + ((b / 32) % 4) * 32 + b % 32);
}

} // verus!
