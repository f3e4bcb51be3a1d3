use aura::converter::{
    avcc_nalu_length_size,
    avcc_to_annexb, avcc_would_overflow, parse_slice_header, picture_order, slice_header_would_overflow,
    slice_sps_info, NaluHeader, PictureOrder, SliceHeader, SpsInfo,
};
use aura::h264_parser::parse_sps;

fn sps_info(log2_frame: u8, frame_mbs_only: bool, poc_type: u8, log2_poc: u8) -> SpsInfo {
    SpsInfo {
        log2_max_frame_num_minus4: log2_frame,
        frame_mbs_only_flag: frame_mbs_only,
        pic_order_cnt_type: poc_type,
        log2_max_pic_order_cnt_lsb_minus4: log2_poc,
    }
}

fn header_tuple(h: &SliceHeader) -> (u32, u32, u32, u16, u32) {
    (h.first_mb_in_slice, h.slice_type, h.pic_parameter_set_id, h.frame_num, h.pic_order_cnt_lsb)
}

#[test]
fn nalu_header_after_four_byte_start_code() {
    let h = NaluHeader::parse(&[0, 0, 0, 1, 0x65, 0x88]).unwrap();
    assert_eq!(h.forbidden_zero_bit, 0);
    assert_eq!(h.nal_ref_idc, 3);
    assert_eq!(h.nal_unit_type, 5);
    assert_eq!(h.slice_header_offset, 5);
}

#[test]
fn nalu_header_after_three_byte_start_code() {
    let h = NaluHeader::parse(&[0, 0, 1, 0x41]).unwrap();
    assert_eq!(h.nal_ref_idc, 2);
    assert_eq!(h.nal_unit_type, 1);
    assert_eq!(h.slice_header_offset, 4);
}

#[test]
fn nalu_header_without_start_code() {
    let h = NaluHeader::parse(&[0xE7]).unwrap();
    assert_eq!(h.forbidden_zero_bit, 1);
    assert_eq!(h.nal_ref_idc, 3);
    assert_eq!(h.nal_unit_type, 7);
    assert_eq!(h.slice_header_offset, 1);
}

#[test]
fn nalu_header_missing() {
    assert!(NaluHeader::parse(&[]).is_none());
    assert!(NaluHeader::parse(&[0, 0, 0, 1]).is_none());
    assert!(NaluHeader::parse(&[0, 0, 1]).is_none());
}

#[test]
fn avcc_keeps_vcl_units_only() {
    let data = [0, 0, 0, 3, 0x65, 0xAA, 0xBB, 0, 0, 0, 2, 0x06, 0x01, 0, 0, 0, 2, 0x41, 0x9A];
    assert!(!avcc_would_overflow(&data, 4));
    let (out, offsets) = avcc_to_annexb(&data, 4).unwrap();
    assert_eq!(out, vec![0, 0, 0, 1, 0x65, 0xAA, 0xBB, 0, 0, 0, 1, 0x41, 0x9A]);
    assert_eq!(offsets, vec![0, 7]);
}

#[test]
fn avcc_offsets_point_at_vcl_units_on_example() {
    let data = [0, 2, 0x09, 0xF0, 0, 3, 0x25, 0x01, 0x02, 0, 1, 0x61, 0, 0, 0, 2, 0x67, 0x42];
    let (out, offsets) = avcc_to_annexb(&data, 2).unwrap();
    assert_eq!(offsets.len(), 2);
    for &o in &offsets {
        let o = o as usize;
        assert_eq!(&out[o..o + 4], &[0, 0, 0, 1]);
        let h = NaluHeader::parse(&out[o..]).unwrap();
        assert!((1..=5).contains(&h.nal_unit_type));
        assert_eq!(h.slice_header_offset, 5);
    }
    assert!(offsets[0] < offsets[1]);
}

#[test]
fn avcc_skips_empty_units() {
    let data = [0, 0, 0, 1, 0x61];
    let (out, offsets) = avcc_to_annexb(&data, 2).unwrap();
    assert_eq!(out, vec![0, 0, 0, 1, 0x61]);
    assert_eq!(offsets, vec![0]);
}

#[test]
fn avcc_rejects_oversized_unit() {
    let data = [0, 0, 0, 9, 0x65, 0x01];
    assert_eq!(avcc_to_annexb(&data, 4), Err("Bad avcc packet. NALU's size is bigger than data."));
}

#[test]
fn avcc_rejects_packet_without_slices() {
    let data = [0, 0, 0, 1, 0x06];
    assert_eq!(avcc_to_annexb(&data, 4), Err("No video slices (VCL) found in this packet."));
    assert_eq!(avcc_to_annexb(&[], 4), Err("No video slices (VCL) found in this packet."));
}

#[test]
fn avcc_trailing_bytes_shorter_than_a_prefix_are_ignored() {
    let data = [0, 1, 0x65, 0];
    let (out, offsets) = avcc_to_annexb(&data, 2).unwrap();
    assert_eq!(out, vec![0, 0, 0, 1, 0x65]);
    assert_eq!(offsets, vec![0]);
}

#[test]
fn avcc_one_byte_lengths() {
    let data = [1, 0x65];
    let (out, offsets) = avcc_to_annexb(&data, 1).unwrap();
    assert_eq!(out, vec![0, 0, 0, 1, 0x65]);
    assert_eq!(offsets, vec![0]);
}

#[test]
fn avcc_overflow_of_eight_byte_length() {
    let data = [0xFF; 9];
    if usize::BITS == 64 {
        assert!(avcc_would_overflow(&data, 8));
    }
    assert!(!avcc_would_overflow(&[0, 0, 0, 1, 0x65], 4));
}

#[test]
fn slice_header_plain() {
    let sps = sps_info(0, true, 0, 2);
    let data = [0x88, 0x9c, 0x40];
    assert!(!slice_header_would_overflow(&data, 5, &sps));
    let h = parse_slice_header(&data, 5, &sps).unwrap();
    assert_eq!(header_tuple(&h), (0, 7, 0, 3, 4));
}

#[test]
fn slice_header_drops_emulation_prevention_byte() {
    let sps = sps_info(12, false, 0, 28);
    let data = [0xe0, 0x00, 0x1c, 0x00, 0x00, 0x03, 0x00, 0x04];
    assert!(!slice_header_would_overflow(&data, 5, &sps));
    let h = parse_slice_header(&data, 5, &sps).unwrap();
    assert_eq!(header_tuple(&h), (0, 0, 0, 0, 1));
}

#[test]
fn slice_header_without_poc_lsb() {
    let sps = sps_info(0, true, 2, 0);
    let data = [0x88, 0x9c, 0x40];
    let h = parse_slice_header(&data, 1, &sps).unwrap();
    assert_eq!(header_tuple(&h), (0, 7, 0, 3, 0));
}

#[test]
fn slice_header_truncated() {
    let sps = sps_info(0, true, 0, 2);
    assert!(parse_slice_header(&[0x88], 5, &sps).is_none());
    assert!(parse_slice_header(&[], 5, &sps).is_none());
    assert!(parse_slice_header(&[0u8; 100], 5, &sps).is_none());
}

#[test]
fn slice_header_overflows() {
    let data = [0x88, 0x9c, 0x40];
    assert!(slice_header_would_overflow(&data, 5, &sps_info(252, true, 0, 2)));
    assert!(slice_header_would_overflow(&data, 5, &sps_info(0, true, 0, 252)));
    assert!(!slice_header_would_overflow(&data, 5, &sps_info(0, true, 2, 252)));
    assert!(slice_header_would_overflow(&[0u8; 300], 5, &sps_info(0, true, 0, 2)));
    let mut long_code = vec![0u8, 0, 0, 0, 0x80];
    long_code.extend_from_slice(&[0xFF; 8]);
    assert!(slice_header_would_overflow(&long_code, 5, &sps_info(0, true, 0, 2)));
}

#[test]
fn slice_sps_info_from_parsed_sps() {
    let rec = [
        0x01, 0x42, 0xc0, 0x1f, 0xff, 0xe1, 0x00, 0x09, 0x67, 0x42, 0xc0, 0x1f, 0xda, 0x01, 0x40, 0x16,
        0xe4, 0x01, 0x00, 0x04, 0x68, 0xce, 0x3c, 0x80,
    ];
    let sps = parse_sps(&rec).unwrap();
    let info = slice_sps_info(&sps).unwrap();
    assert_eq!(info.log2_max_frame_num_minus4, 0);
    assert!(info.frame_mbs_only_flag);
    assert_eq!(info.pic_order_cnt_type, 2);
    assert_eq!(info.log2_max_pic_order_cnt_lsb_minus4, 0);
}

#[test]
fn picture_order_from_header() {
    let h = SliceHeader {
        first_mb_in_slice: 0,
        slice_type: 7,
        pic_parameter_set_id: 0,
        frame_num: 3,
        pic_order_cnt_lsb: 0xFFFF_FFFE,
    };
    assert_eq!(picture_order(Some(&h), 0, 9), Some(PictureOrder { frame_num: 3, pic_order_cnt: -2 }));
    assert_eq!(picture_order(Some(&h), 2, 9), Some(PictureOrder { frame_num: 3, pic_order_cnt: 6 }));
    assert_eq!(picture_order(Some(&h), 1, 9), Some(PictureOrder { frame_num: 3, pic_order_cnt: 6 }));
}

#[test]
fn picture_order_fallback() {
    assert_eq!(picture_order(None, 0, 37), Some(PictureOrder { frame_num: 5, pic_order_cnt: 37 }));
    if usize::BITS == 64 {
        assert_eq!(picture_order(None, 0, (i32::MAX as usize) + 1), None);
    }
}

#[test]
fn nalu_length_size_from_avcc_header() {
    assert_eq!(avcc_nalu_length_size(&[1, 0x64, 0, 0x1f, 0xff, 0xe1]), 4);
    assert_eq!(avcc_nalu_length_size(&[1, 0x64, 0, 0x1f, 0xfd]), 2);
    assert_eq!(avcc_nalu_length_size(&[1, 0x42, 0, 0x1e, 0xfc]), 1);
}

#[test]
fn nalu_length_size_defaults_to_four() {
    assert_eq!(avcc_nalu_length_size(&[]), 4);
    assert_eq!(avcc_nalu_length_size(&[1, 0x64, 0, 0x1f]), 4);
}


#[test]
fn nalu_header_fields_recompose_the_header_byte() {
    for b in 0u8..=255 {
        let data = [0, 0, 1, b];
        let h = NaluHeader::parse(&data).unwrap();
        assert_eq!(h.forbidden_zero_bit * 128 + h.nal_ref_idc * 32 + h.nal_unit_type, b);
        assert_eq!(data[h.slice_header_offset - 1], b);
    }
}

#[test]
fn slice_header_fields_fit_their_widths_on_examples() {
    let poc_type_0 = sps_info(0, true, 0, 0);
    let poc_type_2 = sps_info(0, true, 2, 0);
    for x in 0u16..0x2000 {
        let data = [0xE0 | (x >> 8) as u8, (x & 0xff) as u8];
        assert!(!slice_header_would_overflow(&data, 1, &poc_type_0));
        let h = parse_slice_header(&data, 1, &poc_type_0).unwrap();
        assert!(h.frame_num < 16);
        assert!(h.pic_order_cnt_lsb < 16);
        assert_eq!(h.frame_num, (x >> 9) & 0xf);
        let h2 = parse_slice_header(&data, 1, &poc_type_2).unwrap();
        assert_eq!(h2.pic_order_cnt_lsb, 0);
        assert_eq!(h2.frame_num, h.frame_num);
    }
}
