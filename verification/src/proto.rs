// SPDX-License-Identifier: Apache-2.0
//! The messages of the protocol.
//!
//! A message that this crate only carries, and never looks into, is held as it
//! is encoded on the wire.

pub mod event;
pub mod request;
pub mod response;

use bytes::Bytes;
use vstd::prelude::*;

use crate::payload;

verus! {

/// How the samples of a chunk are laid out.
#[derive(Debug, Clone, Copy, PartialEq, Eq, Structural)]
pub enum SampleEncoding {
    Unspecified,
    /// Verbatim samples.
    Packed,
    /// Pairs of run length and value.
    Transition,
}

impl SampleEncoding {
    /// The number of this encoding on the wire.
    #[verifier::allow_in_spec]
    pub fn number(self) -> i32
        returns
            (match self {
                SampleEncoding::Unspecified => 0i32,
                SampleEncoding::Packed => 1i32,
                SampleEncoding::Transition => 2i32,
            }),
    {
        match self {
            SampleEncoding::Unspecified => 0,
            SampleEncoding::Packed => 1,
            SampleEncoding::Transition => 2,
        }
    }

    /// The encoding with this number, if there is one.
    #[verifier::allow_in_spec]
    pub fn from_number(number: i32) -> Option<SampleEncoding>
        returns
            (match number {
                0 => Some(SampleEncoding::Unspecified),
                1 => Some(SampleEncoding::Packed),
                2 => Some(SampleEncoding::Transition),
                _ => None,
            }),
    {
        match number {
            0 => Some(SampleEncoding::Unspecified),
            1 => Some(SampleEncoding::Packed),
            2 => Some(SampleEncoding::Transition),
            _ => None,
        }
    }
}

/// How the bytes of a chunk are compressed.
#[derive(Debug, Clone, Copy, PartialEq, Eq, Structural)]
pub enum Codec {
    Unspecified,
    Uncompressed,
    Zstd,
}

impl Codec {
    /// The number of this codec on the wire.
    #[verifier::allow_in_spec]
    pub fn number(self) -> i32
        returns
            (match self {
                Codec::Unspecified => 0i32,
                Codec::Uncompressed => 1i32,
                Codec::Zstd => 2i32,
            }),
    {
        match self {
            Codec::Unspecified => 0,
            Codec::Uncompressed => 1,
            Codec::Zstd => 2,
        }
    }

    /// The codec with this number, if there is one.
    #[verifier::allow_in_spec]
    pub fn from_number(number: i32) -> Option<Codec>
        returns
            (match number {
                0 => Some(Codec::Unspecified),
                1 => Some(Codec::Uncompressed),
                2 => Some(Codec::Zstd),
                _ => None,
            }),
    {
        match number {
            0 => Some(Codec::Unspecified),
            1 => Some(Codec::Uncompressed),
            2 => Some(Codec::Zstd),
            _ => None,
        }
    }

    /// The name of this codec in the protocol definition.
    #[verifier::allow_in_spec]
    pub fn as_str_name(self) -> &'static str
        returns
            (match self {
                Codec::Unspecified => "CODEC_UNSPECIFIED",
                Codec::Uncompressed => "CODEC_NONE",
                Codec::Zstd => "CODEC_ZSTD",
            }),
    {
        match self {
            Codec::Unspecified => "CODEC_UNSPECIFIED",
            Codec::Uncompressed => "CODEC_NONE",
            Codec::Zstd => "CODEC_ZSTD",
        }
    }
}

/// One chunk of one stream of one acquisition.
#[derive(Debug, PartialEq)]
pub struct CaptureData {
    pub capture_id: u64,
    pub acquisition: u64,
    pub stream: u32,
    /// Counts the chunks of the stream.
    pub seq: u64,
    /// Index of the chunk's first sample in the stream.
    pub first_sample: u64,
    pub sample_count: u64,
    /// A [`SampleEncoding`] number.
    pub encoding: i32,
    /// A [`Codec`] number.
    pub codec: i32,
    /// Length of the payload once the codec is undone.
    pub decoded_len: u64,
    pub payload: Bytes,
}

impl Default for CaptureData {
    fn default() -> (data: Self)
        ensures
            data.capture_id == 0,
            data.acquisition == 0,
            data.stream == 0,
            data.seq == 0,
            data.first_sample == 0,
            data.sample_count == 0,
            data.encoding == 0,
            data.codec == 0,
            data.decoded_len == 0,
            payload::content(data.payload) == Seq::<u8>::empty(),
    {
        CaptureData {
            capture_id: 0,
            acquisition: 0,
            stream: 0,
            seq: 0,
            first_sample: 0,
            sample_count: 0,
            encoding: 0,
            codec: 0,
            decoded_len: 0,
            payload: Bytes::new(),
        }
    }
}

/// Why a plugin refuses a request.
#[derive(Debug, Clone, Copy, PartialEq, Eq, Structural)]
pub enum ErrorCode {
    Unspecified,
    ErrorInvalidRequest,
    ErrorUnsupported,
    ErrorBusy,
    ErrorDevice,
}

impl ErrorCode {
    /// The number of this code on the wire.
    #[verifier::allow_in_spec]
    pub fn number(self) -> i32
        returns
            (match self {
                ErrorCode::Unspecified => 0i32,
                ErrorCode::ErrorInvalidRequest => 1i32,
                ErrorCode::ErrorUnsupported => 2i32,
                ErrorCode::ErrorBusy => 3i32,
                ErrorCode::ErrorDevice => 4i32,
            }),
    {
        match self {
            ErrorCode::Unspecified => 0,
            ErrorCode::ErrorInvalidRequest => 1,
            ErrorCode::ErrorUnsupported => 2,
            ErrorCode::ErrorBusy => 3,
            ErrorCode::ErrorDevice => 4,
        }
    }

    /// The code with this number, if there is one.
    #[verifier::allow_in_spec]
    pub fn from_number(number: i32) -> Option<ErrorCode>
        returns
            (match number {
                0 => Some(ErrorCode::Unspecified),
                1 => Some(ErrorCode::ErrorInvalidRequest),
                2 => Some(ErrorCode::ErrorUnsupported),
                3 => Some(ErrorCode::ErrorBusy),
                4 => Some(ErrorCode::ErrorDevice),
                _ => None,
            }),
    {
        match number {
            0 => Some(ErrorCode::Unspecified),
            1 => Some(ErrorCode::ErrorInvalidRequest),
            2 => Some(ErrorCode::ErrorUnsupported),
            3 => Some(ErrorCode::ErrorBusy),
            4 => Some(ErrorCode::ErrorDevice),
            _ => None,
        }
    }

    /// The name of this code in the protocol definition.
    #[verifier::allow_in_spec]
    pub fn as_str_name(self) -> &'static str
        returns
            (match self {
                ErrorCode::Unspecified => "ERROR_CODE_UNSPECIFIED",
                ErrorCode::ErrorInvalidRequest => "ERROR_INVALID_REQUEST",
                ErrorCode::ErrorUnsupported => "ERROR_UNSUPPORTED",
                ErrorCode::ErrorBusy => "ERROR_BUSY",
                ErrorCode::ErrorDevice => "ERROR_DEVICE",
            }),
    {
        match self {
            ErrorCode::Unspecified => "ERROR_CODE_UNSPECIFIED",
            ErrorCode::ErrorInvalidRequest => "ERROR_INVALID_REQUEST",
            ErrorCode::ErrorUnsupported => "ERROR_UNSUPPORTED",
            ErrorCode::ErrorBusy => "ERROR_BUSY",
            ErrorCode::ErrorDevice => "ERROR_DEVICE",
        }
    }
}

/// A refusal, as it goes on the wire.
#[derive(Debug, Clone, PartialEq, Default)]
pub struct Error {
    /// An [`ErrorCode`] number.
    pub code: i32,
    pub message: String,
}

impl Error {
    /// This is the refusal with this code and text.
    pub open spec fn is(self, code: ErrorCode, text: Seq<char>) -> bool {
        self.code == code.number() && self.message@ == text
    }

    pub fn new(code: ErrorCode, message: String) -> (error: Error)
        ensures
            error.is(code, message@),
    {
        Error { code: code.number(), message }
    }

    pub fn invalid(message: String) -> (error: Error)
        ensures
            error.is(ErrorCode::ErrorInvalidRequest, message@),
    {
        Error::new(ErrorCode::ErrorInvalidRequest, message)
    }

    pub fn unsupported(message: String) -> (error: Error)
        ensures
            error.is(ErrorCode::ErrorUnsupported, message@),
    {
        Error::new(ErrorCode::ErrorUnsupported, message)
    }

    pub fn busy(message: String) -> (error: Error)
        ensures
            error.is(ErrorCode::ErrorBusy, message@),
    {
        Error::new(ErrorCode::ErrorBusy, message)
    }

    pub fn device(message: String) -> (error: Error)
        ensures
            error.is(ErrorCode::ErrorDevice, message@),
    {
        Error::new(ErrorCode::ErrorDevice, message)
    }
}

/// How long an acquisition goes on.
#[derive(Debug, Clone, Copy, PartialEq, Eq, Structural)]
pub enum AcquireMode {
    Unspecified,
    AcquireSingle,
    AcquireContinuous,
}

impl AcquireMode {
    /// The number of this mode on the wire.
    #[verifier::allow_in_spec]
    pub fn number(self) -> i32
        returns
            (match self {
                AcquireMode::Unspecified => 0i32,
                AcquireMode::AcquireSingle => 1i32,
                AcquireMode::AcquireContinuous => 2i32,
            }),
    {
        match self {
            AcquireMode::Unspecified => 0,
            AcquireMode::AcquireSingle => 1,
            AcquireMode::AcquireContinuous => 2,
        }
    }
}

/// The first request of a session.
#[derive(Debug, Clone, PartialEq, Default)]
pub struct Hello {
    pub protocol: u32,
    pub client_name: String,
    pub client_version: String,
    /// [`SampleEncoding`] numbers.
    pub accept_encodings: Vec<i32>,
    /// [`Codec`] numbers.
    pub accept_codecs: Vec<i32>,
}

/// Who the plugin is, as encoded.
#[derive(Debug, Clone, PartialEq, Default)]
pub struct PluginInfo {
    pub encoded: Vec<u8>,
}

/// What the plugin can do, as encoded.
#[derive(Debug, Clone, PartialEq, Default)]
pub struct Capabilities {
    pub encoded: Vec<u8>,
}

/// What device the plugin found, as encoded.
#[derive(Debug, Clone, PartialEq, Default)]
pub struct DeviceInfo {
    pub encoded: Vec<u8>,
}

/// The answer to [`Hello`].
#[derive(Debug, Clone, PartialEq, Default)]
pub struct HelloResult {
    pub protocol: u32,
    pub plugin: Option<PluginInfo>,
    pub capabilities: Option<Capabilities>,
    pub device: Option<DeviceInfo>,
    /// [`SampleEncoding`] numbers.
    pub encodings: Vec<i32>,
    /// [`Codec`] numbers.
    pub codecs: Vec<i32>,
}

#[derive(Debug, Clone, PartialEq, Default)]
pub struct Describe {}

/// What the device is and offers, as encoded.
#[derive(Debug, Clone, PartialEq, Default)]
pub struct Description {
    pub encoded: Vec<u8>,
}

#[derive(Debug, Clone, PartialEq, Default)]
pub struct GetConfig {}

/// A configuration, as encoded. Sparse: a field may be absent.
#[derive(Debug, Clone, PartialEq)]
pub struct Config {
    pub encoded: Vec<u8>,
}

impl Default for Config {
    /// The configuration with every field absent.
    fn default() -> (config: Self)
        ensures
            config.encoded@ == Seq::<u8>::empty(),
    {
        Config { encoded: Vec::new() }
    }
}

#[derive(Debug, Clone, PartialEq, Default)]
pub struct SetConfig {
    pub config: Option<Config>,
}

#[derive(Debug, Clone, PartialEq, Default)]
pub struct AcquireStart {
    pub capture_id: u64,
    /// An [`AcquireMode`] number.
    pub mode: i32,
}

#[derive(Debug, Clone, PartialEq, Default)]
pub struct AcquireStop {
    pub capture_id: u64,
}

#[derive(Debug, Clone, PartialEq, Default)]
pub struct Reset {}

#[derive(Debug, Clone, PartialEq, Default)]
pub struct Shutdown {}

#[derive(Debug, Clone, PartialEq, Default)]
pub struct Empty {}

/// A request on the control socket.
#[derive(Debug, Clone, PartialEq, Default)]
pub struct Request {
    pub seq: u32,
    pub request: Option<request::Request>,
}

/// A reply on the control socket: a result or a refusal.
#[derive(Debug, Clone, PartialEq, Default)]
pub struct Response {
    pub seq: u32,
    pub error: Option<Error>,
    pub response: Option<response::Response>,
}

/// An event on the stream socket.
#[derive(Debug, PartialEq)]
pub struct Event {
    pub event: Option<event::Event>,
}

/// The format of one stream of a capture, as encoded.
#[derive(Debug, Clone, PartialEq, Default)]
pub struct StreamFormat {
    pub encoded: Vec<u8>,
}

#[derive(Debug, Clone, PartialEq, Default)]
pub struct CaptureBegin {
    pub capture_id: u64,
    /// Samples per second: the bits of an IEEE 754 double.
    pub samplerate_bits: u64,
    pub streams: Vec<StreamFormat>,
}

#[derive(Debug, Clone, PartialEq, Default)]
pub struct CaptureEnd {
    pub capture_id: u64,
    pub error: Option<Error>,
}

/// The device is gone; the details, as encoded.
#[derive(Debug, Clone, PartialEq, Default)]
pub struct DeviceLost {
    pub encoded: Vec<u8>,
}

/// How much a log line matters, by number.
#[derive(Debug, Clone, Copy, PartialEq, Eq, Structural)]
pub struct LogLevel {
    pub number: i32,
}

#[derive(Debug, Clone, PartialEq, Default)]
pub struct Log {
    /// A [`LogLevel`] number.
    pub level: i32,
    pub message: String,
}

/// What a plugin is doing, by number.
#[derive(Debug, Clone, Copy, PartialEq, Eq, Structural)]
pub struct State {
    pub number: i32,
}

#[derive(Debug, Clone, PartialEq, Default)]
pub struct Status {
    /// A [`State`] number.
    pub state: i32,
    pub detail: String,
}

/// A USB device that a plugin drives.
#[derive(Debug, Clone, PartialEq, Default)]
pub struct UsbId {
    /// `vendor:product`, in hexadecimal.
    pub id: String,
    pub needs_firmware: bool,
    pub note: String,
}

/// The colors of a plugin's channels.
#[derive(Debug, Clone, PartialEq, Default)]
pub struct Palette {
    pub analog: Vec<i32>,
}

/// What a plugin says of itself before it is launched.
#[derive(Debug, Clone, PartialEq, Default)]
pub struct PluginManifest {
    pub name: String,
    pub vendor: String,
    pub description: String,
    pub version: String,
    pub run: Vec<String>,
    pub url_schemes: Vec<String>,
    pub usb_ids: Vec<UsbId>,
    pub palette: Option<Palette>,
}

/// A number stands for at most one variant, and each variant has one.
pub proof fn law_numbers_stand_for_variants(
    number: i32,
    encoding: SampleEncoding,
    codec: Codec,
    code: ErrorCode,
)
    ensures
        SampleEncoding::from_number(number) == Some(encoding) <==> number == encoding.number(),
        Codec::from_number(number) == Some(codec) <==> number == codec.number(),
        ErrorCode::from_number(number) == Some(code) <==> number == code.number(),
{
}

/// The numbers of the wire are the places of the variants, from 0 for the one that
/// says nothing, so no two variants share one.
pub proof fn law_numbers_count_the_variants(
    encoding: SampleEncoding,
    codec: Codec,
    code: ErrorCode,
    mode: AcquireMode,
)
    ensures
        encoding == seq![
            SampleEncoding::Unspecified,
            SampleEncoding::Packed,
            SampleEncoding::Transition,
        ][encoding.number() as int],
        codec == seq![Codec::Unspecified, Codec::Uncompressed, Codec::Zstd][codec.number() as int],
        code == seq![
            ErrorCode::Unspecified,
            ErrorCode::ErrorInvalidRequest,
            ErrorCode::ErrorUnsupported,
            ErrorCode::ErrorBusy,
            ErrorCode::ErrorDevice,
        ][code.number() as int],
        mode == seq![
            AcquireMode::Unspecified,
            AcquireMode::AcquireSingle,
            AcquireMode::AcquireContinuous,
        ][mode.number() as int],
        0 <= encoding.number() <= 2,
        0 <= codec.number() <= 2,
        0 <= code.number() <= 4,
        0 <= mode.number() <= 2,
{
}

/// A refusal and a codec are named as in the protocol definition, each by its
/// number.
pub proof fn law_names_go_by_number(code: ErrorCode, codec: Codec)
    ensures
        code.as_str_name()@ == seq![
            "ERROR_CODE_UNSPECIFIED"@,
            "ERROR_INVALID_REQUEST"@,
            "ERROR_UNSUPPORTED"@,
            "ERROR_BUSY"@,
            "ERROR_DEVICE"@,
        ][code.number() as int],
        codec.as_str_name()@ == seq!["CODEC_UNSPECIFIED"@, "CODEC_NONE"@, "CODEC_ZSTD"@][
            codec.number() as int
        ],
{
}

} // verus!
