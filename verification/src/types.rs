use vstd::prelude::*;
use vstd::string::StringSliceAdditionalSpecFns;

verus! {

/// Names of the Vulkan device extensions for decoding each codec.
pub struct DecodeExtensions;

impl DecodeExtensions {
    pub const H264: &'static str = "VK_KHR_video_decode_h264";
    pub const H265: &'static str = "VK_KHR_video_decode_h265";
    pub const AV1: &'static str = "VK_KHR_video_decode_av1";
}

/// Whether two byte strings are equal.
pub fn bytes_equal(a: &[u8], b: &[u8]) -> (r: bool)
    ensures
        r == (a@ == b@),
{
    if a.len() != b.len() {
        return false;
    }
    let mut i: usize = 0;
    while i < a.len()
        invariant
            a.len() == b.len(),
            i <= a.len(),
            forall|k: int| 0 <= k < i ==> a@[k] == b@[k],
        decreases a.len() - i,
    {
        if a[i] != b[i] {
            return false;
        }
        i += 1;
    }
    assert(a@ =~= b@);
    true
}

/// Describes which codecs are supported by the physical device.
pub struct SupportedCodecs {
    pub h264: bool,
    pub h265: bool,
    pub av1: bool,
}

impl Default for SupportedCodecs {
    fn default() -> (r: Self)
        ensures
            !r.h264 && !r.h265 && !r.av1,
    {
        Self { h264: false, h265: false, av1: false }
    }
}

impl SupportedCodecs {
    /// Records the decode extension that a device offers under the name
    /// `name` (its bytes, without the terminating nul); other names change nothing.
    pub fn record_extension(&mut self, name: &[u8])
        ensures
            if name@ == DecodeExtensions::H264.spec_bytes() {
                *final(self) == SupportedCodecs { h264: true, ..*old(self) }
            } else if name@ == DecodeExtensions::H265.spec_bytes() {
                *final(self) == SupportedCodecs { h265: true, ..*old(self) }
            } else if name@ == DecodeExtensions::AV1.spec_bytes() {
                *final(self) == SupportedCodecs { av1: true, ..*old(self) }
            } else {
                *final(self) == *old(self)
            },
    {
        if bytes_equal(name, DecodeExtensions::H264.as_bytes()) {
            self.h264 = true;
        } else if bytes_equal(name, DecodeExtensions::H265.as_bytes()) {
            self.h265 = true;
        } else if bytes_equal(name, DecodeExtensions::AV1.as_bytes()) {
            self.av1 = true;
        }
    }
}

/// The H.264 profiles, valued as Vulkan's `StdVideoH264ProfileIdc`.
#[derive(Debug, Clone, Copy, PartialEq, Eq)]
pub enum H264Profiles {
    Baseline,
    Main,
    High,
    High444,
    Invalid,
}

/// The H.265 profiles, valued as Vulkan's `StdVideoH265ProfileIdc`.
#[derive(Debug, Clone, Copy, PartialEq, Eq)]
pub enum H265Profiles {
    Main,
    Main10,
    Invalid,
}

/// The AV1 profiles, valued as Vulkan's `StdVideoAV1Profile`.
#[derive(Debug, Clone, Copy, PartialEq, Eq)]
pub enum AV1Profiles {
    Main,
    High,
    Professional,
    Invalid,
}

/// The profile of a stream whose codec is not known.
#[derive(Debug, Clone, Copy, PartialEq, Eq)]
pub enum UnknownProfile {
    Unknown,
}

/// A profile of any of the supported codecs.
pub enum UnifiedVideoProfile {
    H264(H264Profiles),
    H265(H265Profiles),
    AV1(AV1Profiles),
    Unknown(UnknownProfile),
}

/// A video profile with its raw Vulkan value.
pub trait VideoProfile {
    fn as_raw(&self) -> u32;
}

/// Vulkan's value of an invalid profile (`0x7FFF_FFFF`, that is `i32::MAX`).
pub const PROFILE_INVALID: u32 = 0x7fff_ffff;

impl H264Profiles {
    pub open spec fn spec_raw(self) -> u32 {
        match self {
            H264Profiles::Baseline => 66,
            H264Profiles::Main => 77,
            H264Profiles::High => 100,
            H264Profiles::High444 => 244,
            H264Profiles::Invalid => PROFILE_INVALID,
        }
    }
}

impl H265Profiles {
    pub open spec fn spec_raw(self) -> u32 {
        match self {
            H265Profiles::Main => 1,
            H265Profiles::Main10 => 2,
            H265Profiles::Invalid => PROFILE_INVALID,
        }
    }
}

impl AV1Profiles {
    pub open spec fn spec_raw(self) -> u32 {
        match self {
            AV1Profiles::Main => 0,
            AV1Profiles::High => 1,
            AV1Profiles::Professional => 2,
            AV1Profiles::Invalid => PROFILE_INVALID,
        }
    }
}

impl UnknownProfile {
    pub open spec fn spec_raw(self) -> u32 {
        PROFILE_INVALID
    }
}

impl UnifiedVideoProfile {
    pub open spec fn spec_raw(self) -> u32 {
        match self {
            UnifiedVideoProfile::H264(p) => p.spec_raw(),
            UnifiedVideoProfile::H265(p) => p.spec_raw(),
            UnifiedVideoProfile::AV1(p) => p.spec_raw(),
            UnifiedVideoProfile::Unknown(p) => p.spec_raw(),
        }
    }
}

impl VideoProfile for H264Profiles {
    fn as_raw(&self) -> (r: u32)
        ensures
            r == self.spec_raw(),
    {
        match self {
            H264Profiles::Baseline => 66,
            H264Profiles::Main => 77,
            H264Profiles::High => 100,
            H264Profiles::High444 => 244,
            H264Profiles::Invalid => PROFILE_INVALID,
        }
    }
}

impl VideoProfile for H265Profiles {
    fn as_raw(&self) -> (r: u32)
        ensures
            r == self.spec_raw(),
    {
        match self {
            H265Profiles::Main => 1,
            H265Profiles::Main10 => 2,
            H265Profiles::Invalid => PROFILE_INVALID,
        }
    }
}

impl VideoProfile for AV1Profiles {
    fn as_raw(&self) -> (r: u32)
        ensures
            r == self.spec_raw(),
    {
        match self {
            AV1Profiles::Main => 0,
            AV1Profiles::High => 1,
            AV1Profiles::Professional => 2,
            AV1Profiles::Invalid => PROFILE_INVALID,
        }
    }
}

impl VideoProfile for UnknownProfile {
    fn as_raw(&self) -> (r: u32)
        ensures
            r == self.spec_raw(),
    {
        PROFILE_INVALID
    }
}

impl VideoProfile for UnifiedVideoProfile {
    fn as_raw(&self) -> (r: u32)
        ensures
            r == self.spec_raw(),
    {
        match self {
            UnifiedVideoProfile::H264(profile) => profile.as_raw(),
            UnifiedVideoProfile::H265(profile) => profile.as_raw(),
            UnifiedVideoProfile::AV1(profile) => profile.as_raw(),
            UnifiedVideoProfile::Unknown(profile) => profile.as_raw(),
        }
    }
}

/// The profile that a stream's codec parameters indicate, tried in this
/// order: the H.264 profiles (66, 77, 100, 244), the H.265 profiles (1, 2),
/// the AV1 profiles (0, 1, 2); anything else, or no stream, is unknown.
pub open spec fn spec_profile_indicator(profile: Option<i32>) -> UnifiedVideoProfile {
    match profile {
        None => UnifiedVideoProfile::Unknown(UnknownProfile::Unknown),
        Some(p) => if p == 66 {
            UnifiedVideoProfile::H264(H264Profiles::Baseline)
        } else if p == 77 {
            UnifiedVideoProfile::H264(H264Profiles::Main)
        } else if p == 100 {
            UnifiedVideoProfile::H264(H264Profiles::High)
        } else if p == 244 {
            UnifiedVideoProfile::H264(H264Profiles::High444)
        } else if p == 1 {
            UnifiedVideoProfile::H265(H265Profiles::Main)
        } else if p == 2 {
            UnifiedVideoProfile::H265(H265Profiles::Main10)
        } else if p == 0 {
            UnifiedVideoProfile::AV1(AV1Profiles::Main)
        } else {
            UnifiedVideoProfile::Unknown(UnknownProfile::Unknown)
        },
    }
}

/// Maps the `profile` of a stream's codec parameters (when there is a
/// stream) to the profile the decoder is set up for, comparing it with the
/// raw value of each profile in turn.
pub fn video_profile_indicator(profile: Option<i32>) -> (r: UnifiedVideoProfile)
    ensures
        r == spec_profile_indicator(profile),
{
    match profile {
        None => UnifiedVideoProfile::Unknown(UnknownProfile::Unknown),
        Some(p) => {
            if p == H264Profiles::Baseline.as_raw() as i32 {
                UnifiedVideoProfile::H264(H264Profiles::Baseline)
            } else if p == H264Profiles::Main.as_raw() as i32 {
                UnifiedVideoProfile::H264(H264Profiles::Main)
            } else if p == H264Profiles::High.as_raw() as i32 {
                UnifiedVideoProfile::H264(H264Profiles::High)
            } else if p == H264Profiles::High444.as_raw() as i32 {
                UnifiedVideoProfile::H264(H264Profiles::High444)
            } else if p == H265Profiles::Main.as_raw() as i32 {
                UnifiedVideoProfile::H265(H265Profiles::Main)
            } else if p == H265Profiles::Main10.as_raw() as i32 {
                UnifiedVideoProfile::H265(H265Profiles::Main10)
            } else if p == AV1Profiles::Main.as_raw() as i32 {
                UnifiedVideoProfile::AV1(AV1Profiles::Main)
            } else if p == AV1Profiles::High.as_raw() as i32 {
                UnifiedVideoProfile::AV1(AV1Profiles::High)
            } else if p == AV1Profiles::Professional.as_raw() as i32 {
                UnifiedVideoProfile::AV1(AV1Profiles::Professional)
            } else {
                UnifiedVideoProfile::Unknown(UnknownProfile::Unknown)
            }
        },
    }
}

/// The codec of a video decoding session.
#[derive(Debug, Clone, Copy, PartialEq, Eq)]
pub enum SessionCodec {
    H264,
    H265,
    AV1,
}

/// Why a video decoding session cannot be set up.
#[derive(Debug, Clone, Copy, PartialEq, Eq)]
pub enum SessionSetupError {
    /// No profile was given for the session.
    NoProfileIndicator,
    /// The codec operation is not exactly one of the decode operations.
    InvalidCodecOperation,
}

/// Vulkan's `VK_VIDEO_CODEC_OPERATION_DECODE_H264_BIT_KHR`.
pub const DECODE_H264_OPERATION: u32 = 0x1;

/// Vulkan's `VK_VIDEO_CODEC_OPERATION_DECODE_H265_BIT_KHR`.
pub const DECODE_H265_OPERATION: u32 = 0x2;

/// Vulkan's `VK_VIDEO_CODEC_OPERATION_DECODE_AV1_BIT_KHR`.
pub const DECODE_AV1_OPERATION: u32 = 0x4;

/// The codec a session is set up for: a profile must be given, and the codec
/// operation flags must be exactly the H.264, H.265 or AV1 decode operation.
pub fn session_codec(codec_operation: u32, has_profile: bool) -> (r: Result<SessionCodec, SessionSetupError>)
    ensures
        r == if !has_profile {
            Err(SessionSetupError::NoProfileIndicator)
        } else if codec_operation == DECODE_H264_OPERATION {
            Ok(SessionCodec::H264)
        } else if codec_operation == DECODE_H265_OPERATION {
            Ok(SessionCodec::H265)
        } else if codec_operation == DECODE_AV1_OPERATION {
            Ok(SessionCodec::AV1)
        } else {
            Err(SessionSetupError::InvalidCodecOperation)
        },
{
    if !has_profile {
        Err(SessionSetupError::NoProfileIndicator)
    } else if codec_operation == DECODE_H264_OPERATION {
        Ok(SessionCodec::H264)
    } else if codec_operation == DECODE_H265_OPERATION {
        Ok(SessionCodec::H265)
    } else if codec_operation == DECODE_AV1_OPERATION {
        Ok(SessionCodec::AV1)
    } else {
        Err(SessionSetupError::InvalidCodecOperation)
    }
}

impl SessionCodec {
    /// The name of the Vulkan video std header of the codec.
    pub open spec fn spec_std_header_name(self) -> Seq<char> {
        match self {
            SessionCodec::H264 => "VK_STD_vulkan_video_codec_h264_decode"@,
            SessionCodec::H265 => "VK_STD_vulkan_video_codec_h265_decode"@,
            SessionCodec::AV1 => "VK_STD_vulkan_video_codec_av1_decode"@,
        }
    }

    /// The name of the Vulkan video std header that a session of this codec declares.
    pub fn std_header_name(&self) -> (r: &'static str)
        ensures
            r@ == self.spec_std_header_name(),
    {
        match self {
            SessionCodec::H264 => "VK_STD_vulkan_video_codec_h264_decode",
            SessionCodec::H265 => "VK_STD_vulkan_video_codec_h265_decode",
            SessionCodec::AV1 => "VK_STD_vulkan_video_codec_av1_decode",
        }
    }
}

} // verus!
