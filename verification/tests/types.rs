use ash::vk::native;
use ash::vk::VideoCodecOperationFlagsKHR as Op;
use aura::args::{Args, FramePacing};
use aura::resources::{
    align_up, bitstream_buffer_size, coded_dimension, dpb_reference_slots, find_memory_type, find_memory_type_index,
    frame_slots, ReferenceSlot,
};
use aura::types::{
    session_codec, video_profile_indicator, AV1Profiles, DecodeExtensions, H264Profiles, H265Profiles,
    SessionCodec, SessionSetupError, SupportedCodecs, UnifiedVideoProfile, UnknownProfile, VideoProfile,
};

#[test]
fn supported_codecs_start_empty() {
    let c = SupportedCodecs::default();
    assert!(!c.h264 && !c.h265 && !c.av1);
}

#[test]
fn records_decode_extensions() {
    let mut c = SupportedCodecs::default();
    c.record_extension(b"VK_KHR_swapchain");
    assert!(!c.h264 && !c.h265 && !c.av1);
    c.record_extension(DecodeExtensions::H265.as_bytes());
    assert!(!c.h264 && c.h265 && !c.av1);
    c.record_extension(b"VK_KHR_video_decode_h264");
    c.record_extension(b"VK_KHR_video_decode_av1");
    assert!(c.h264 && c.h265 && c.av1);
    assert_eq!(ash::vk::KHR_VIDEO_DECODE_H264_NAME.to_bytes(), DecodeExtensions::H264.as_bytes());
    assert_eq!(ash::vk::KHR_VIDEO_DECODE_H265_NAME.to_bytes(), DecodeExtensions::H265.as_bytes());
}

#[test]
fn profiles_have_vulkan_values() {
    assert_eq!(H264Profiles::Baseline.as_raw(), native::StdVideoH264ProfileIdc_STD_VIDEO_H264_PROFILE_IDC_BASELINE);
    assert_eq!(H264Profiles::Main.as_raw(), native::StdVideoH264ProfileIdc_STD_VIDEO_H264_PROFILE_IDC_MAIN);
    assert_eq!(H264Profiles::High.as_raw(), native::StdVideoH264ProfileIdc_STD_VIDEO_H264_PROFILE_IDC_HIGH);
    assert_eq!(
        H264Profiles::High444.as_raw(),
        native::StdVideoH264ProfileIdc_STD_VIDEO_H264_PROFILE_IDC_HIGH_444_PREDICTIVE
    );
    assert_eq!(H264Profiles::Invalid.as_raw(), native::StdVideoH264ProfileIdc_STD_VIDEO_H264_PROFILE_IDC_INVALID);
    assert_eq!(H265Profiles::Main.as_raw(), native::StdVideoH265ProfileIdc_STD_VIDEO_H265_PROFILE_IDC_MAIN);
    assert_eq!(H265Profiles::Main10.as_raw(), native::StdVideoH265ProfileIdc_STD_VIDEO_H265_PROFILE_IDC_MAIN_10);
    assert_eq!(H265Profiles::Invalid.as_raw(), native::StdVideoH265ProfileIdc_STD_VIDEO_H265_PROFILE_IDC_INVALID);
    assert_eq!(AV1Profiles::Main.as_raw(), native::StdVideoAV1Profile_STD_VIDEO_AV1_PROFILE_MAIN);
    assert_eq!(AV1Profiles::High.as_raw(), native::StdVideoAV1Profile_STD_VIDEO_AV1_PROFILE_HIGH);
    assert_eq!(AV1Profiles::Professional.as_raw(), native::StdVideoAV1Profile_STD_VIDEO_AV1_PROFILE_PROFESSIONAL);
    assert_eq!(AV1Profiles::Invalid.as_raw(), native::StdVideoAV1Profile_STD_VIDEO_AV1_PROFILE_INVALID);
    assert_eq!(UnknownProfile::Unknown.as_raw(), i32::MAX as u32);
    assert_eq!(UnifiedVideoProfile::H265(H265Profiles::Main10).as_raw(), 2);
}

#[test]
fn profile_indicator_follows_match_order() {
    assert!(matches!(video_profile_indicator(Some(100)), UnifiedVideoProfile::H264(H264Profiles::High)));
    assert!(matches!(video_profile_indicator(Some(66)), UnifiedVideoProfile::H264(H264Profiles::Baseline)));
    assert!(matches!(video_profile_indicator(Some(1)), UnifiedVideoProfile::H265(H265Profiles::Main)));
    assert!(matches!(video_profile_indicator(Some(2)), UnifiedVideoProfile::H265(H265Profiles::Main10)));
    assert!(matches!(video_profile_indicator(Some(0)), UnifiedVideoProfile::AV1(AV1Profiles::Main)));
    assert!(matches!(video_profile_indicator(Some(3)), UnifiedVideoProfile::Unknown(UnknownProfile::Unknown)));
    assert!(matches!(video_profile_indicator(None), UnifiedVideoProfile::Unknown(UnknownProfile::Unknown)));
    for p in [66, 77, 100, 244, 0, 1, 2] {
        assert_eq!(video_profile_indicator(Some(p)).as_raw(), p as u32);
    }
}

#[test]
fn finds_first_suitable_memory_type() {
    let flags = [0b0001, 0b0110, 0b0111, 0b0001];
    assert_eq!(find_memory_type(0b1111, &flags, 0b0110), Some(1));
    assert_eq!(find_memory_type(0b1101, &flags, 0b0110), Some(2));
    assert_eq!(find_memory_type(0b1001, &flags, 0b0110), None);
    assert_eq!(find_memory_type_index(0b1001, &flags, 0b0110), 0);
    assert_eq!(find_memory_type_index(0b1000, &flags, 0b0001), 3);
}

#[test]
fn aligns_sizes() {
    assert_eq!(align_up(1000, 256), 1024);
    assert_eq!(align_up(1024, 256), 1024);
    assert_eq!(align_up(0, 64), 0);
    assert_eq!(bitstream_buffer_size(0), 4 * 1024 * 1024);
    assert_eq!(bitstream_buffer_size(4096), 4 * 1024 * 1024);
    assert_eq!(bitstream_buffer_size(3 * 1024 * 1024), 4 * 1024 * 1024);
    assert_eq!(bitstream_buffer_size(8 * 1024 * 1024), 8 * 1024 * 1024);
}

#[test]
fn rounds_dimensions_to_macroblocks() {
    assert_eq!(coded_dimension(1080), 1088);
    assert_eq!(coded_dimension(1920), 1920);
    assert_eq!(coded_dimension(1), 16);
    assert_eq!(coded_dimension(0), 0);
}

#[test]
fn session_codec_follows_the_decode_operation() {
    assert_eq!(session_codec(Op::DECODE_H264.as_raw(), true), Ok(SessionCodec::H264));
    assert_eq!(session_codec(Op::DECODE_H265.as_raw(), true), Ok(SessionCodec::H265));
    assert_eq!(session_codec(Op::DECODE_AV1.as_raw(), true), Ok(SessionCodec::AV1));
}

#[test]
fn session_codec_errors() {
    assert_eq!(session_codec(Op::DECODE_H264.as_raw(), false), Err(SessionSetupError::NoProfileIndicator));
    assert_eq!(session_codec(Op::NONE.as_raw(), true), Err(SessionSetupError::InvalidCodecOperation));
    let both = (Op::DECODE_H264 | Op::DECODE_H265).as_raw();
    assert_eq!(session_codec(both, true), Err(SessionSetupError::InvalidCodecOperation));
    assert_eq!(session_codec(Op::NONE.as_raw(), false), Err(SessionSetupError::NoProfileIndicator));
}

#[test]
fn session_std_header_names() {
    assert_eq!(SessionCodec::H264.std_header_name(), "VK_STD_vulkan_video_codec_h264_decode");
    assert_eq!(SessionCodec::H265.std_header_name(), "VK_STD_vulkan_video_codec_h265_decode");
    assert_eq!(SessionCodec::AV1.std_header_name(), "VK_STD_vulkan_video_codec_av1_decode");
}

#[test]
fn frame_slots_go_round_robin() {
    assert_eq!(frame_slots(0, 16, 3), (0, 0));
    assert_eq!(frame_slots(5, 16, 3), (5, 2));
    assert_eq!(frame_slots(17, 16, 3), (1, 2));
    assert_eq!(frame_slots(48, 16, 3), (0, 0));
}

fn args(no_sync: bool, custom_clock_interval: u64) -> Args {
    Args { file_name: String::from("video.mp4"), no_sync, custom_clock_interval }
}

#[test]
fn pacing_follows_the_options() {
    assert_eq!(args(false, 0).frame_pacing(), FramePacing::StreamClock);
    assert_eq!(args(false, 40).frame_pacing(), FramePacing::FixedInterval(40));
    assert_eq!(args(true, 40).frame_pacing(), FramePacing::Unpaced);
    assert_eq!(args(true, 0).frame_pacing(), FramePacing::Unpaced);
}

fn slot(slot_index: usize, frame_num: u16) -> ReferenceSlot {
    ReferenceSlot { slot_index, frame_num }
}

#[test]
fn first_frame_has_no_references() {
    assert!(dpb_reference_slots(0, 16, true).is_empty());
    assert!(dpb_reference_slots(40, 16, true).is_empty());
    assert!(dpb_reference_slots(0, 16, false).is_empty());
}

#[test]
fn references_are_the_previous_frames() {
    assert_eq!(dpb_reference_slots(3, 16, false), vec![slot(2, 2), slot(1, 1), slot(0, 0)]);
    assert_eq!(dpb_reference_slots(5, 4, false), vec![slot(0, 4), slot(3, 3), slot(2, 2)]);
    let refs = dpb_reference_slots(40, 16, false);
    assert_eq!(refs.len(), 15);
    assert_eq!(refs[0], slot(7, 7));
    assert_eq!(refs[14], slot(9, 9));
}

#[test]
fn references_avoid_the_decoded_slot_on_examples() {
    for frame in 0usize..64 {
        let (decoded, _) = frame_slots(frame, 16, 3);
        let refs = dpb_reference_slots(frame, 16, false);
        for (k, r) in refs.iter().enumerate() {
            assert!(r.slot_index < 16);
            assert_ne!(r.slot_index, decoded);
            for other in &refs[k + 1..] {
                assert_ne!(r.slot_index, other.slot_index);
            }
        }
    }
}

