use aura::h264_parser::{
    extract_pps_bytes, extract_sps_bytes, parse_pps, parse_sps, pps_would_overflow, sps_would_overflow,
    STD_VIDEO_H264_INVALID,
};
use ash::vk::native;

const REC_BASELINE: [u8; 24] = [
    0x01, 0x42, 0xc0, 0x1f, 0xff, 0xe1, 0x00, 0x09, 0x67, 0x42, 0xc0, 0x1f, 0xda, 0x01, 0x40, 0x16, 0xe4,
    0x01, 0x00, 0x04, 0x68, 0xce, 0x3c, 0x80,
];

const REC_HIGH: [u8; 37] = [
    0x01, 0x64, 0x00, 0x28, 0xff, 0xe1, 0x00, 0x14, 0x67, 0x64, 0x00, 0x28, 0xad, 0x84, 0x68, 0x26, 0x10,
    0x04, 0xb2, 0x04, 0x83, 0xb2, 0x80, 0xf0, 0x04, 0x4f, 0xcb, 0x80, 0x01, 0x00, 0x06, 0x68, 0xeb, 0x83,
    0xcb, 0x22, 0xc0,
];

const REC_MAIN: [u8; 32] = [
    0x01, 0x4d, 0x40, 0x1e, 0xff, 0xe1, 0x00, 0x0c, 0x67, 0x4d, 0x40, 0x1e, 0x22, 0x51, 0x63, 0x9a, 0x64,
    0x85, 0x82, 0x49, 0x01, 0x00, 0x09, 0x68, 0x44, 0x59, 0xc8, 0xc2, 0xb8, 0x43, 0x33, 0x80,
];

const REC_OVERFLOW: [u8; 33] = [
    0x01, 0x42, 0xc0, 0x1f, 0xff, 0xe1, 0x00, 0x09, 0x67, 0x42, 0xc0, 0x1f, 0xda, 0x01, 0x40, 0x16, 0xe4,
    0x01, 0x00, 0x0d, 0x68, 0xce, 0x00, 0x00, 0x03, 0x00, 0x00, 0x40, 0x00, 0x00, 0x03, 0x00, 0x72,
];

const REC_SHORT_TAIL: [u8; 25] = [
    0x01, 0x42, 0xc0, 0x1f, 0xff, 0xe1, 0x00, 0x09, 0x67, 0x42, 0xc0, 0x1f, 0xda, 0x01, 0x40, 0x16, 0xe4,
    0x01, 0x00, 0x05, 0x68, 0xce, 0x31, 0x52, 0x01,
];

#[test]
fn extracts_sps_and_pps() {
    assert_eq!(extract_sps_bytes(&REC_BASELINE).unwrap(), &REC_BASELINE[8..17]);
    assert_eq!(extract_pps_bytes(&REC_BASELINE).unwrap(), &REC_BASELINE[20..24]);
}

#[test]
fn extraction_fails_on_short_or_empty_records() {
    assert!(extract_sps_bytes(&REC_BASELINE[..7]).is_none());
    assert!(extract_pps_bytes(&REC_BASELINE[..7]).is_none());
    let mut no_sps = REC_BASELINE;
    no_sps[5] = 0xE0;
    assert!(extract_sps_bytes(&no_sps).is_none());
    assert!(extract_sps_bytes(&REC_BASELINE[..16]).is_none());
    assert!(extract_pps_bytes(&REC_BASELINE[..17]).is_none());
    assert!(extract_pps_bytes(&REC_BASELINE[..22]).is_none());
    let mut no_pps = REC_BASELINE;
    no_pps[17] = 0;
    assert!(extract_pps_bytes(&no_pps).is_none());
}

#[test]
fn parses_baseline_sps() {
    assert!(!sps_would_overflow(&REC_BASELINE));
    let s = parse_sps(&REC_BASELINE).unwrap();
    assert_eq!(s.profile_idc, native::StdVideoH264ProfileIdc_STD_VIDEO_H264_PROFILE_IDC_BASELINE);
    assert_eq!(s.level_idc, native::StdVideoH264LevelIdc_STD_VIDEO_H264_LEVEL_IDC_3_1);
    assert_eq!(s.chroma_format_idc, native::StdVideoH264ChromaFormatIdc_STD_VIDEO_H264_CHROMA_FORMAT_IDC_420);
    assert_eq!(s.pic_order_cnt_type, native::StdVideoH264PocType_STD_VIDEO_H264_POC_TYPE_2);
    assert_eq!(s.seq_parameter_set_id, 0);
    assert_eq!(s.log2_max_frame_num_minus4, 0);
    assert_eq!(s.max_num_ref_frames, 1);
    assert_eq!(s.pic_width_in_mbs_minus1, 79);
    assert_eq!(s.pic_height_in_map_units_minus1, 44);
    assert_eq!(s.flags.frame_mbs_only_flag, 1);
    assert_eq!(s.flags.direct_8x8_inference_flag, 1);
    assert_eq!(s.flags.frame_cropping_flag, 0);
    assert_eq!(s.flags.vui_parameters_present_flag, 0);
    assert_eq!(s.flags.seq_scaling_matrix_present_flag, 0);
}

#[test]
fn parses_high_sps_with_scaling_lists_and_cropping() {
    assert!(!sps_would_overflow(&REC_HIGH));
    let s = parse_sps(&REC_HIGH).unwrap();
    assert_eq!(s.profile_idc, native::StdVideoH264ProfileIdc_STD_VIDEO_H264_PROFILE_IDC_HIGH);
    assert_eq!(s.level_idc, native::StdVideoH264LevelIdc_STD_VIDEO_H264_LEVEL_IDC_4_0);
    assert_eq!(s.chroma_format_idc, 1);
    assert_eq!(s.flags.seq_scaling_matrix_present_flag, 1);
    assert_eq!(s.log2_max_frame_num_minus4, 2);
    assert_eq!(s.pic_order_cnt_type, native::StdVideoH264PocType_STD_VIDEO_H264_POC_TYPE_0);
    assert_eq!(s.log2_max_pic_order_cnt_lsb_minus4, 2);
    assert_eq!(s.max_num_ref_frames, 4);
    assert_eq!(s.pic_width_in_mbs_minus1, 119);
    assert_eq!(s.pic_height_in_map_units_minus1, 67);
    assert_eq!(s.flags.frame_cropping_flag, 1);
    assert_eq!(
        (s.frame_crop_left_offset, s.frame_crop_right_offset, s.frame_crop_top_offset, s.frame_crop_bottom_offset),
        (0, 0, 0, 4)
    );
    assert_eq!(s.flags.vui_parameters_present_flag, 1);
}

#[test]
fn parses_main_sps_with_poc_type_1() {
    let s = parse_sps(&REC_MAIN).unwrap();
    assert_eq!(s.profile_idc, native::StdVideoH264ProfileIdc_STD_VIDEO_H264_PROFILE_IDC_MAIN);
    assert_eq!(s.level_idc, native::StdVideoH264LevelIdc_STD_VIDEO_H264_LEVEL_IDC_3_0);
    assert_eq!(s.seq_parameter_set_id, 3);
    assert_eq!(s.log2_max_frame_num_minus4, 1);
    assert_eq!(s.pic_order_cnt_type, native::StdVideoH264PocType_STD_VIDEO_H264_POC_TYPE_1);
    assert_eq!(s.flags.delta_pic_order_always_zero_flag, 1);
    assert_eq!(s.offset_for_non_ref_pic, -5);
    assert_eq!(s.offset_for_top_to_bottom_field, 7);
    assert_eq!(s.num_ref_frames_in_pic_order_cnt_cycle, 2);
    assert_eq!(s.max_num_ref_frames, 3);
    assert_eq!(s.flags.gaps_in_frame_num_value_allowed_flag, 1);
    assert_eq!(s.pic_width_in_mbs_minus1, 21);
    assert_eq!(s.pic_height_in_map_units_minus1, 17);
    assert_eq!(s.flags.frame_mbs_only_flag, 0);
    assert_eq!(s.flags.mb_adaptive_frame_field_flag, 1);
    assert_eq!(s.flags.direct_8x8_inference_flag, 0);
}

#[test]
fn unknown_level_maps_to_invalid() {
    let mut rec = REC_BASELINE;
    rec[11] = 33;
    let s = parse_sps(&rec).unwrap();
    assert_eq!(s.level_idc, STD_VIDEO_H264_INVALID);
    assert_eq!(STD_VIDEO_H264_INVALID, native::StdVideoH264LevelIdc_STD_VIDEO_H264_LEVEL_IDC_INVALID);
}

#[test]
fn sps_missing() {
    assert!(parse_sps(&REC_BASELINE[..10]).is_none());
    assert!(parse_sps(&[]).is_none());
}

#[test]
fn parses_pps_without_trailing_fields() {
    let p = parse_pps(&REC_BASELINE).unwrap();
    assert_eq!(p.pic_parameter_set_id, 0);
    assert_eq!(p.seq_parameter_set_id, 0);
    assert_eq!(p.flags.entropy_coding_mode_flag, 0);
    assert_eq!(p.flags.deblocking_filter_control_present_flag, 1);
    assert_eq!(p.flags.transform_8x8_mode_flag, 0);
    assert_eq!(p.weighted_bipred_idc, native::StdVideoH264WeightedBipredIdc_STD_VIDEO_H264_WEIGHTED_BIPRED_IDC_DEFAULT);
    assert_eq!((p.pic_init_qp_minus26, p.pic_init_qs_minus26, p.chroma_qp_index_offset), (0, 0, 0));
    assert_eq!(p.second_chroma_qp_index_offset, 0);
}

#[test]
fn parses_high_pps_with_trailing_fields() {
    assert!(!pps_would_overflow(&REC_HIGH));
    let p = parse_pps(&REC_HIGH).unwrap();
    assert_eq!(p.flags.entropy_coding_mode_flag, 1);
    assert_eq!(p.num_ref_idx_l0_default_active_minus1, 2);
    assert_eq!(p.pic_init_qp_minus26, -3);
    assert_eq!(p.chroma_qp_index_offset, -2);
    assert_eq!(p.flags.transform_8x8_mode_flag, 1);
    assert_eq!(p.flags.pic_scaling_matrix_present_flag, 0);
    assert_eq!(p.second_chroma_qp_index_offset, -2);
}

#[test]
fn parses_pps_with_slice_group_map() {
    let p = parse_pps(&REC_MAIN).unwrap();
    assert_eq!(p.pic_parameter_set_id, 1);
    assert_eq!(p.seq_parameter_set_id, 3);
    assert_eq!(p.flags.bottom_field_pic_order_in_frame_present_flag, 1);
    assert_eq!(p.num_ref_idx_l0_default_active_minus1, 1);
    assert_eq!(p.num_ref_idx_l1_default_active_minus1, 0);
    assert_eq!(p.flags.weighted_pred_flag, 1);
    assert_eq!(p.weighted_bipred_idc, native::StdVideoH264WeightedBipredIdc_STD_VIDEO_H264_WEIGHTED_BIPRED_IDC_IMPLICIT);
    assert_eq!((p.pic_init_qp_minus26, p.pic_init_qs_minus26, p.chroma_qp_index_offset), (4, -1, 3));
    assert_eq!(p.flags.constrained_intra_pred_flag, 1);
    assert_eq!(p.flags.redundant_pic_cnt_present_flag, 1);
    assert_eq!(p.second_chroma_qp_index_offset, 3);
}

#[test]
fn pps_second_offset_defaults_when_bits_end() {
    let p = parse_pps(&REC_SHORT_TAIL).unwrap();
    assert_eq!(p.flags.transform_8x8_mode_flag, 1);
    assert_eq!(p.flags.pic_scaling_matrix_present_flag, 0);
    assert_eq!(p.chroma_qp_index_offset, 5);
    assert_eq!(p.second_chroma_qp_index_offset, 5);
}

#[test]
fn pps_signed_code_overflow() {
    assert!(pps_would_overflow(&REC_OVERFLOW));
    assert!(!sps_would_overflow(&REC_OVERFLOW));
}

#[test]
fn std_values_are_vulkan_values() {
    assert_eq!(STD_VIDEO_H264_INVALID, native::StdVideoH264ProfileIdc_STD_VIDEO_H264_PROFILE_IDC_INVALID);
    assert_eq!(STD_VIDEO_H264_INVALID, native::StdVideoH264ChromaFormatIdc_STD_VIDEO_H264_CHROMA_FORMAT_IDC_INVALID);
    assert_eq!(STD_VIDEO_H264_INVALID, native::StdVideoH264PocType_STD_VIDEO_H264_POC_TYPE_INVALID);
    assert_eq!(STD_VIDEO_H264_INVALID, native::StdVideoH264WeightedBipredIdc_STD_VIDEO_H264_WEIGHTED_BIPRED_IDC_INVALID);
}

#[test]
fn level_numbers_are_vulkan_values() {
    let levels: [(u8, u32); 19] = [
        (10, native::StdVideoH264LevelIdc_STD_VIDEO_H264_LEVEL_IDC_1_0),
        (11, native::StdVideoH264LevelIdc_STD_VIDEO_H264_LEVEL_IDC_1_1),
        (12, native::StdVideoH264LevelIdc_STD_VIDEO_H264_LEVEL_IDC_1_2),
        (13, native::StdVideoH264LevelIdc_STD_VIDEO_H264_LEVEL_IDC_1_3),
        (20, native::StdVideoH264LevelIdc_STD_VIDEO_H264_LEVEL_IDC_2_0),
        (21, native::StdVideoH264LevelIdc_STD_VIDEO_H264_LEVEL_IDC_2_1),
        (22, native::StdVideoH264LevelIdc_STD_VIDEO_H264_LEVEL_IDC_2_2),
        (30, native::StdVideoH264LevelIdc_STD_VIDEO_H264_LEVEL_IDC_3_0),
        (31, native::StdVideoH264LevelIdc_STD_VIDEO_H264_LEVEL_IDC_3_1),
        (32, native::StdVideoH264LevelIdc_STD_VIDEO_H264_LEVEL_IDC_3_2),
        (40, native::StdVideoH264LevelIdc_STD_VIDEO_H264_LEVEL_IDC_4_0),
        (41, native::StdVideoH264LevelIdc_STD_VIDEO_H264_LEVEL_IDC_4_1),
        (42, native::StdVideoH264LevelIdc_STD_VIDEO_H264_LEVEL_IDC_4_2),
        (50, native::StdVideoH264LevelIdc_STD_VIDEO_H264_LEVEL_IDC_5_0),
        (51, native::StdVideoH264LevelIdc_STD_VIDEO_H264_LEVEL_IDC_5_1),
        (52, native::StdVideoH264LevelIdc_STD_VIDEO_H264_LEVEL_IDC_5_2),
        (60, native::StdVideoH264LevelIdc_STD_VIDEO_H264_LEVEL_IDC_6_0),
        (61, native::StdVideoH264LevelIdc_STD_VIDEO_H264_LEVEL_IDC_6_1),
        (62, native::StdVideoH264LevelIdc_STD_VIDEO_H264_LEVEL_IDC_6_2),
    ];
    for (level, expected) in levels {
        let mut rec = REC_BASELINE;
        rec[11] = level;
        assert_eq!(parse_sps(&rec).unwrap().level_idc, expected);
    }
}
