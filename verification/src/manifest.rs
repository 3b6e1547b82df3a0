//! The typed view of a playlist: the known tags with their attribute
//! records, as the decoder binds them from the token stream.

use vstd::prelude::*;
use crate::lexer::{FloatLit, TagArgs, TagArgsModel};

verus! {

/// The kind of track an `EXT-X-MEDIA` tag declares.
#[derive(Debug, Clone, Copy, PartialEq, Eq, Structural)]
pub enum MediaType {
    Audio,
    Video,
    Subtitles,
    ClosedCaptions,
}

/// The value of `EXT-X-PLAYLIST-TYPE`.
#[derive(Debug, Clone, Copy, PartialEq, Eq, Structural)]
pub enum PlaylistType {
    Event,
    Vod,
}

/// The value of an `HDCP-LEVEL` attribute.  `NONE` on the wire is
/// `NoHdcp` here.
#[derive(Debug, Clone, Copy, PartialEq, Eq, Structural)]
pub enum HdcpLevel {
    NoHdcp,
    Type0,
}

/// The `METHOD` of an `EXT-X-KEY` tag.  `NONE` on the wire is
/// `NoEncryption` here.
#[derive(Debug, Clone, Copy, PartialEq, Eq, Structural)]
pub enum EncryptionMethod {
    Aes128,
    NoEncryption,
    SampleAes,
}

/// The attribute record of `EXT-X-MEDIA`.
#[derive(Debug, Clone, PartialEq, Eq)]
pub struct MediaAttributes {
    pub media_type: MediaType,
    pub uri: Option<String>,
    pub group_id: String,
    pub language: Option<String>,
    pub assoc_language: Option<String>,
    pub name: String,
    pub default: Option<bool>,
    pub autoselect: Option<bool>,
    pub forced: Option<bool>,
    pub instream_id: Option<String>,
    pub characteristics: Option<String>,
    pub channels: Option<String>,
}

/// The attribute record of `EXT-X-STREAM-INF`.  The resolution is kept
/// as its `WIDTHxHEIGHT` string; the frame rate as its raw number text.
#[derive(Debug, Clone, PartialEq, Eq)]
pub struct StreamInfAttributes {
    pub bandwidth: u64,
    pub average_bandwidth: Option<u64>,
    pub codecs: Option<String>,
    pub resolution: Option<String>,
    pub frame_rate: Option<FloatLit>,
    pub hdcp_level: Option<HdcpLevel>,
    pub audio: Option<String>,
    pub video: Option<String>,
    pub subtitles: Option<String>,
    pub closed_captions: Option<String>,
}

/// The attribute record of `EXT-X-I-FRAME-STREAM-INF`: like
/// `EXT-X-STREAM-INF`, but the URI is an attribute and is required.
#[derive(Debug, Clone, PartialEq, Eq)]
pub struct IFrameStreamInfAttributes {
    pub bandwidth: u64,
    pub average_bandwidth: Option<u64>,
    pub codecs: Option<String>,
    pub resolution: Option<String>,
    pub hdcp_level: Option<HdcpLevel>,
    pub video: Option<String>,
    pub uri: String,
}

/// The attribute record of `EXT-X-KEY`.
#[derive(Debug, Clone, PartialEq, Eq)]
pub struct KeyAttributes {
    pub method: EncryptionMethod,
    pub uri: Option<String>,
    pub iv: Option<Vec<u8>>,
    pub keyformat: Option<String>,
    pub keyformatversions: Option<String>,
}

/// The attribute record of `EXT-X-MAP`.
#[derive(Debug, Clone, PartialEq, Eq)]
pub struct MapAttributes {
    pub uri: String,
    pub byterange: Option<String>,
}

impl StreamInfAttributes {
    /// An equal record with freshly owned text.
    pub fn duplicate(&self) -> (r: StreamInfAttributes)
        ensures
            r@ == self@,
    {
        StreamInfAttributes {
            bandwidth: self.bandwidth,
            average_bandwidth: self.average_bandwidth,
            codecs: match &self.codecs {
                Some(s) => Some(s.clone()),
                None => None,
            },
            resolution: match &self.resolution {
                Some(s) => Some(s.clone()),
                None => None,
            },
            frame_rate: match &self.frame_rate {
                Some(f) => Some(FloatLit { text: f.text.clone() }),
                None => None,
            },
            hdcp_level: self.hdcp_level,
            audio: match &self.audio {
                Some(s) => Some(s.clone()),
                None => None,
            },
            video: match &self.video {
                Some(s) => Some(s.clone()),
                None => None,
            },
            subtitles: match &self.subtitles {
                Some(s) => Some(s.clone()),
                None => None,
            },
            closed_captions: match &self.closed_captions {
                Some(s) => Some(s.clone()),
                None => None,
            },
        }
    }
}

/// A decoded playlist tag.  Tags outside the known set are preserved as
/// `Unknown`, never rejected.
#[derive(Debug, Clone, PartialEq, Eq)]
pub enum Tag {
    M3u,
    IndependentSegments,
    EndList,
    IFramesOnly,
    Discontinuity,
    Version(u64),
    TargetDuration(u64),
    MediaSequence(u64),
    DiscontinuitySequence(u64),
    Inf(FloatLit),
    ProgramDateTime(String),
    PlaylistType(PlaylistType),
    Key(KeyAttributes),
    Media(MediaAttributes),
    StreamInf(StreamInfAttributes),
    IFrameStreamInf(IFrameStreamInfAttributes),
    InitMap(MapAttributes),
    Unknown { name: String, args: TagArgs },
}

/// A decoded playlist line.
#[derive(Debug, Clone, PartialEq, Eq)]
pub enum Line {
    Tag(Tag),
    Uri(String),
}

// ---------------------------------------------------------------------
// Mathematical shapes of the typed records.
// ---------------------------------------------------------------------

pub open spec fn opt_view(o: Option<String>) -> Option<Seq<char>> {
    match o {
        Some(s) => Some(s@),
        None => None,
    }
}

pub struct MediaAttributesModel {
    pub media_type: MediaType,
    pub uri: Option<Seq<char>>,
    pub group_id: Seq<char>,
    pub language: Option<Seq<char>>,
    pub assoc_language: Option<Seq<char>>,
    pub name: Seq<char>,
    pub default: Option<bool>,
    pub autoselect: Option<bool>,
    pub forced: Option<bool>,
    pub instream_id: Option<Seq<char>>,
    pub characteristics: Option<Seq<char>>,
    pub channels: Option<Seq<char>>,
}

impl View for MediaAttributes {
    type V = MediaAttributesModel;

    open spec fn view(&self) -> MediaAttributesModel {
        MediaAttributesModel {
            media_type: self.media_type,
            uri: opt_view(self.uri),
            group_id: self.group_id@,
            language: opt_view(self.language),
            assoc_language: opt_view(self.assoc_language),
            name: self.name@,
            default: self.default,
            autoselect: self.autoselect,
            forced: self.forced,
            instream_id: opt_view(self.instream_id),
            characteristics: opt_view(self.characteristics),
            channels: opt_view(self.channels),
        }
    }
}

pub struct StreamInfAttributesModel {
    pub bandwidth: u64,
    pub average_bandwidth: Option<u64>,
    pub codecs: Option<Seq<char>>,
    pub resolution: Option<Seq<char>>,
    pub frame_rate: Option<Seq<char>>,
    pub hdcp_level: Option<HdcpLevel>,
    pub audio: Option<Seq<char>>,
    pub video: Option<Seq<char>>,
    pub subtitles: Option<Seq<char>>,
    pub closed_captions: Option<Seq<char>>,
}

pub open spec fn opt_float_view(o: Option<FloatLit>) -> Option<Seq<char>> {
    match o {
        Some(f) => Some(f@),
        None => None,
    }
}

impl View for StreamInfAttributes {
    type V = StreamInfAttributesModel;

    open spec fn view(&self) -> StreamInfAttributesModel {
        StreamInfAttributesModel {
            bandwidth: self.bandwidth,
            average_bandwidth: self.average_bandwidth,
            codecs: opt_view(self.codecs),
            resolution: opt_view(self.resolution),
            frame_rate: opt_float_view(self.frame_rate),
            hdcp_level: self.hdcp_level,
            audio: opt_view(self.audio),
            video: opt_view(self.video),
            subtitles: opt_view(self.subtitles),
            closed_captions: opt_view(self.closed_captions),
        }
    }
}

pub struct IFrameStreamInfAttributesModel {
    pub bandwidth: u64,
    pub average_bandwidth: Option<u64>,
    pub codecs: Option<Seq<char>>,
    pub resolution: Option<Seq<char>>,
    pub hdcp_level: Option<HdcpLevel>,
    pub video: Option<Seq<char>>,
    pub uri: Seq<char>,
}

impl View for IFrameStreamInfAttributes {
    type V = IFrameStreamInfAttributesModel;

    open spec fn view(&self) -> IFrameStreamInfAttributesModel {
        IFrameStreamInfAttributesModel {
            bandwidth: self.bandwidth,
            average_bandwidth: self.average_bandwidth,
            codecs: opt_view(self.codecs),
            resolution: opt_view(self.resolution),
            hdcp_level: self.hdcp_level,
            video: opt_view(self.video),
            uri: self.uri@,
        }
    }
}

pub struct KeyAttributesModel {
    pub method: EncryptionMethod,
    pub uri: Option<Seq<char>>,
    pub iv: Option<Seq<u8>>,
    pub keyformat: Option<Seq<char>>,
    pub keyformatversions: Option<Seq<char>>,
}

impl View for KeyAttributes {
    type V = KeyAttributesModel;

    open spec fn view(&self) -> KeyAttributesModel {
        KeyAttributesModel {
            method: self.method,
            uri: opt_view(self.uri),
            iv: match self.iv {
                Some(v) => Some(v@),
                None => None,
            },
            keyformat: opt_view(self.keyformat),
            keyformatversions: opt_view(self.keyformatversions),
        }
    }
}

pub struct MapAttributesModel {
    pub uri: Seq<char>,
    pub byterange: Option<Seq<char>>,
}

impl View for MapAttributes {
    type V = MapAttributesModel;

    open spec fn view(&self) -> MapAttributesModel {
        MapAttributesModel { uri: self.uri@, byterange: opt_view(self.byterange) }
    }
}

pub enum TagModel {
    M3u,
    IndependentSegments,
    EndList,
    IFramesOnly,
    Discontinuity,
    Version(u64),
    TargetDuration(u64),
    MediaSequence(u64),
    DiscontinuitySequence(u64),
    Inf(Seq<char>),
    ProgramDateTime(Seq<char>),
    PlaylistType(PlaylistType),
    Key(KeyAttributesModel),
    Media(MediaAttributesModel),
    StreamInf(StreamInfAttributesModel),
    IFrameStreamInf(IFrameStreamInfAttributesModel),
    InitMap(MapAttributesModel),
    Unknown { name: Seq<char>, args: TagArgsModel },
}

impl View for Tag {
    type V = TagModel;

    open spec fn view(&self) -> TagModel {
        match self {
            Tag::M3u => TagModel::M3u,
            Tag::IndependentSegments => TagModel::IndependentSegments,
            Tag::EndList => TagModel::EndList,
            Tag::IFramesOnly => TagModel::IFramesOnly,
            Tag::Discontinuity => TagModel::Discontinuity,
            Tag::Version(n) => TagModel::Version(*n),
            Tag::TargetDuration(n) => TagModel::TargetDuration(*n),
            Tag::MediaSequence(n) => TagModel::MediaSequence(*n),
            Tag::DiscontinuitySequence(n) => TagModel::DiscontinuitySequence(*n),
            Tag::Inf(f) => TagModel::Inf(f@),
            Tag::ProgramDateTime(s) => TagModel::ProgramDateTime(s@),
            Tag::PlaylistType(p) => TagModel::PlaylistType(*p),
            Tag::Key(k) => TagModel::Key(k@),
            Tag::Media(m) => TagModel::Media(m@),
            Tag::StreamInf(v) => TagModel::StreamInf(v@),
            Tag::IFrameStreamInf(v) => TagModel::IFrameStreamInf(v@),
            Tag::InitMap(m) => TagModel::InitMap(m@),
            Tag::Unknown { name, args } => TagModel::Unknown { name: name@, args: args@ },
        }
    }
}

pub enum LineModel {
    Tag(TagModel),
    Uri(Seq<char>),
}

impl View for Line {
    type V = LineModel;

    open spec fn view(&self) -> LineModel {
        match self {
            Line::Tag(t) => LineModel::Tag(t@),
            Line::Uri(u) => LineModel::Uri(u@),
        }
    }
}

} // verus!
