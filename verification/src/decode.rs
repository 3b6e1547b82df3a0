//! The schema-directed decoder: the token stream to typed lines.
//!
//! The decoder walks the nodes strictly left to right.  Each known tag
//! name selects one argument shape; a known tag with the wrong shape is a
//! `Message` error, an unknown tag binds to `Tag::Unknown`, and a
//! truncated stream is `UnexpectedEof`.

use vstd::prelude::*;
use vstd::string::*;
use crate::error::{Error, ErrorModel};
use crate::hex::{hex_bytes, hex_decodes};
use crate::lexer::{Attribute, AttributeModel, AttributeValue, AttrValueModel, FloatLit, TagArgs,
    TagArgsModel};
use crate::manifest::{
    opt_float_view, opt_view, EncryptionMethod, HdcpLevel, IFrameStreamInfAttributes, IFrameStreamInfAttributesModel,
    KeyAttributes, KeyAttributesModel, Line, LineModel, MapAttributes, MapAttributesModel,
    MediaAttributes, MediaAttributesModel, MediaType, PlaylistType, StreamInfAttributes,
    StreamInfAttributesModel, Tag, TagModel,
};
use crate::nodes::{Node, NodeModel};
use crate::text::{str_eq, spec_u64_digits, u64_to_string};
use crate::Resolution;

verus! {

/// The message for a node that fits no schema position.
pub open spec fn msg_unexpected_node() -> Seq<char> {
    "unexpected node"@
}

/// The message for a known tag whose arguments have the wrong shape.
pub open spec fn msg_bad_tag_args() -> Seq<char> {
    "invalid arguments for tag"@
}

/// The message for an attribute whose value has the wrong type.
pub open spec fn msg_bad_attr_value() -> Seq<char> {
    "invalid attribute value"@
}

/// The message for an enum attribute with an unknown keyword.
pub open spec fn msg_unknown_enum() -> Seq<char> {
    "unknown enum value"@
}

/// The message for a record missing a required attribute.
pub open spec fn msg_missing_attr() -> Seq<char> {
    "missing required attribute"@
}

/// Is this tag name in the decoder's known set?
pub open spec fn is_known_tag(name: Seq<char>) -> bool {
    ||| name == "EXTM3U"@
    ||| name == "EXT-X-INDEPENDENT-SEGMENTS"@
    ||| name == "EXT-X-ENDLIST"@
    ||| name == "EXT-X-I-FRAMES-ONLY"@
    ||| name == "EXT-X-DISCONTINUITY"@
    ||| name == "EXT-X-VERSION"@
    ||| name == "EXT-X-TARGETDURATION"@
    ||| name == "EXT-X-MEDIA-SEQUENCE"@
    ||| name == "EXT-X-DISCONTINUITY-SEQUENCE"@
    ||| name == "EXTINF"@
    ||| name == "EXT-X-PROGRAM-DATE-TIME"@
    ||| name == "EXT-X-PLAYLIST-TYPE"@
    ||| name == "EXT-X-KEY"@
    ||| name == "EXT-X-MEDIA"@
    ||| name == "EXT-X-STREAM-INF"@
    ||| name == "EXT-X-I-FRAME-STREAM-INF"@
    ||| name == "EXT-X-MAP"@
}

/// Bind a tag whose argument is a bare integer.
pub open spec fn bind_int_tag(name: Seq<char>, n: u64) -> Result<TagModel, ErrorModel> {
    if name == "EXT-X-VERSION"@ {
        Ok(TagModel::Version(n))
    } else if name == "EXT-X-TARGETDURATION"@ {
        Ok(TagModel::TargetDuration(n))
    } else if name == "EXT-X-MEDIA-SEQUENCE"@ {
        Ok(TagModel::MediaSequence(n))
    } else if name == "EXT-X-DISCONTINUITY-SEQUENCE"@ {
        Ok(TagModel::DiscontinuitySequence(n))
    } else if is_known_tag(name) {
        Err(ErrorModel::Message(msg_bad_tag_args()))
    } else {
        Ok(TagModel::Unknown { name: name, args: TagArgsModel::Integer(n) })
    }
}

/// Bind a tag whose argument is the `EXTINF` float form.
pub open spec fn bind_float_tag(name: Seq<char>, t: Seq<char>) -> Result<TagModel, ErrorModel> {
    if name == "EXTINF"@ {
        Ok(TagModel::Inf(t))
    } else if is_known_tag(name) {
        Err(ErrorModel::Message(msg_bad_tag_args()))
    } else {
        Ok(TagModel::Unknown { name: name, args: TagArgsModel::Float(t) })
    }
}

/// Bind a tag whose argument is an opaque string.
pub open spec fn bind_str_tag(name: Seq<char>, t: Seq<char>) -> Result<TagModel, ErrorModel> {
    if name == "EXT-X-PROGRAM-DATE-TIME"@ {
        Ok(TagModel::ProgramDateTime(t))
    } else if name == "EXT-X-PLAYLIST-TYPE"@ {
        if t == "EVENT"@ {
            Ok(TagModel::PlaylistType(PlaylistType::Event))
        } else if t == "VOD"@ {
            Ok(TagModel::PlaylistType(PlaylistType::Vod))
        } else {
            Err(ErrorModel::Message(msg_unknown_enum()))
        }
    } else if is_known_tag(name) {
        Err(ErrorModel::Message(msg_bad_tag_args()))
    } else {
        Ok(TagModel::Unknown { name: name, args: TagArgsModel::Str(t) })
    }
}

/// Bind a tag that carries no arguments.
pub open spec fn bind_unit_tag(name: Seq<char>) -> Result<TagModel, ErrorModel> {
    if name == "EXTM3U"@ {
        Ok(TagModel::M3u)
    } else if name == "EXT-X-INDEPENDENT-SEGMENTS"@ {
        Ok(TagModel::IndependentSegments)
    } else if name == "EXT-X-ENDLIST"@ {
        Ok(TagModel::EndList)
    } else if name == "EXT-X-I-FRAMES-ONLY"@ {
        Ok(TagModel::IFramesOnly)
    } else if name == "EXT-X-DISCONTINUITY"@ {
        Ok(TagModel::Discontinuity)
    } else if is_known_tag(name) {
        Err(ErrorModel::Message(msg_bad_tag_args()))
    } else {
        Ok(TagModel::Unknown { name: name, args: TagArgsModel::Empty })
    }
}

// ---------------------------------------------------------------------
// Attribute record binders, each a left fold over the attribute list.
// A later occurrence of an attribute overwrites an earlier one; unknown
// attribute names are skipped.
// ---------------------------------------------------------------------

/// The text an enum-valued attribute binds its variant from: a keyword
/// or a quoted string.
pub open spec fn enum_text(v: AttrValueModel) -> Option<Seq<char>> {
    match v {
        AttrValueModel::Keyword(k) => Some(k),
        AttrValueModel::QuotedString(s) => Some(s),
        _ => None,
    }
}

pub struct KeyAcc {
    pub method: Option<EncryptionMethod>,
    pub uri: Option<Seq<char>>,
    pub iv: Option<Seq<u8>>,
    pub keyformat: Option<Seq<char>>,
    pub keyformatversions: Option<Seq<char>>,
}

pub open spec fn key_acc_empty() -> KeyAcc {
    KeyAcc { method: None, uri: None, iv: None, keyformat: None, keyformatversions: None }
}

pub open spec fn key_step(acc: KeyAcc, a: AttributeModel) -> Result<KeyAcc, ErrorModel> {
    if a.name == "METHOD"@ {
        match enum_text(a.value) {
            Some(k) => if k == "AES-128"@ {
                Ok(KeyAcc { method: Some(EncryptionMethod::Aes128), ..acc })
            } else if k == "NONE"@ {
                Ok(KeyAcc { method: Some(EncryptionMethod::NoEncryption), ..acc })
            } else if k == "SAMPLE-AES"@ {
                Ok(KeyAcc { method: Some(EncryptionMethod::SampleAes), ..acc })
            } else {
                Err(ErrorModel::Message(msg_unknown_enum()))
            },
            None => Err(ErrorModel::Message(msg_bad_attr_value())),
        }
    } else if a.name == "URI"@ {
        match a.value {
            AttrValueModel::QuotedString(s) => Ok(KeyAcc { uri: Some(s), ..acc }),
            _ => Err(ErrorModel::Message(msg_bad_attr_value())),
        }
    } else if a.name == "IV"@ {
        match a.value {
            AttrValueModel::Hex(t) => if hex_decodes(t) {
                Ok(KeyAcc { iv: Some(hex_bytes(t)), ..acc })
            } else {
                Err(ErrorModel::InvalidHex)
            },
            _ => Err(ErrorModel::Message(msg_bad_attr_value())),
        }
    } else if a.name == "KEYFORMAT"@ {
        match a.value {
            AttrValueModel::QuotedString(s) => Ok(KeyAcc { keyformat: Some(s), ..acc }),
            _ => Err(ErrorModel::Message(msg_bad_attr_value())),
        }
    } else if a.name == "KEYFORMATVERSIONS"@ {
        match a.value {
            AttrValueModel::QuotedString(s) => Ok(KeyAcc { keyformatversions: Some(s), ..acc }),
            _ => Err(ErrorModel::Message(msg_bad_attr_value())),
        }
    } else {
        Ok(acc)
    }
}

pub open spec fn key_fold(attrs: Seq<AttributeModel>, acc: KeyAcc) -> Result<KeyAcc, ErrorModel>
    decreases attrs.len(),
{
    if attrs.len() == 0 {
        Ok(acc)
    } else {
        match key_step(acc, attrs[0]) {
            Ok(acc2) => key_fold(attrs.skip(1), acc2),
            Err(e) => Err(e),
        }
    }
}

/// What `EXT-X-KEY` decodes to from an attribute list.
pub open spec fn key_attrs_spec(attrs: Seq<AttributeModel>) -> Result<
    KeyAttributesModel,
    ErrorModel,
> {
    match key_fold(attrs, key_acc_empty()) {
        Ok(acc) => match acc.method {
            Some(m) => Ok(
                KeyAttributesModel {
                    method: m,
                    uri: acc.uri,
                    iv: acc.iv,
                    keyformat: acc.keyformat,
                    keyformatversions: acc.keyformatversions,
                },
            ),
            None => Err(ErrorModel::Message(msg_missing_attr())),
        },
        Err(e) => Err(e),
    }
}

pub struct MediaAcc {
    pub media_type: Option<MediaType>,
    pub uri: Option<Seq<char>>,
    pub group_id: Option<Seq<char>>,
    pub language: Option<Seq<char>>,
    pub assoc_language: Option<Seq<char>>,
    pub name: Option<Seq<char>>,
    pub default: Option<bool>,
    pub autoselect: Option<bool>,
    pub forced: Option<bool>,
    pub instream_id: Option<Seq<char>>,
    pub characteristics: Option<Seq<char>>,
    pub channels: Option<Seq<char>>,
}

pub open spec fn media_acc_empty() -> MediaAcc {
    MediaAcc {
        media_type: None,
        uri: None,
        group_id: None,
        language: None,
        assoc_language: None,
        name: None,
        default: None,
        autoselect: None,
        forced: None,
        instream_id: None,
        characteristics: None,
        channels: None,
    }
}

/// A `YES`/`NO` keyword as a boolean, when the schema asks for one.
pub open spec fn bool_of_keyword(v: AttrValueModel) -> Result<bool, ErrorModel> {
    match v {
        AttrValueModel::Keyword(k) => if k == "YES"@ {
            Ok(true)
        } else if k == "NO"@ {
            Ok(false)
        } else {
            Err(ErrorModel::Message(msg_unknown_enum()))
        },
        _ => Err(ErrorModel::Message(msg_bad_attr_value())),
    }
}

pub open spec fn media_step(acc: MediaAcc, a: AttributeModel) -> Result<MediaAcc, ErrorModel> {
    if a.name == "TYPE"@ {
        match enum_text(a.value) {
            Some(k) => if k == "AUDIO"@ {
                Ok(MediaAcc { media_type: Some(MediaType::Audio), ..acc })
            } else if k == "VIDEO"@ {
                Ok(MediaAcc { media_type: Some(MediaType::Video), ..acc })
            } else if k == "SUBTITLES"@ {
                Ok(MediaAcc { media_type: Some(MediaType::Subtitles), ..acc })
            } else if k == "CLOSED-CAPTIONS"@ {
                Ok(MediaAcc { media_type: Some(MediaType::ClosedCaptions), ..acc })
            } else {
                Err(ErrorModel::Message(msg_unknown_enum()))
            },
            None => Err(ErrorModel::Message(msg_bad_attr_value())),
        }
    } else if a.name == "URI"@ {
        match a.value {
            AttrValueModel::QuotedString(s) => Ok(MediaAcc { uri: Some(s), ..acc }),
            _ => Err(ErrorModel::Message(msg_bad_attr_value())),
        }
    } else if a.name == "GROUP-ID"@ {
        match a.value {
            AttrValueModel::QuotedString(s) => Ok(MediaAcc { group_id: Some(s), ..acc }),
            _ => Err(ErrorModel::Message(msg_bad_attr_value())),
        }
    } else if a.name == "LANGUAGE"@ {
        match a.value {
            AttrValueModel::QuotedString(s) => Ok(MediaAcc { language: Some(s), ..acc }),
            _ => Err(ErrorModel::Message(msg_bad_attr_value())),
        }
    } else if a.name == "ASSOC-LANGUAGE"@ {
        match a.value {
            AttrValueModel::QuotedString(s) => Ok(MediaAcc { assoc_language: Some(s), ..acc }),
            _ => Err(ErrorModel::Message(msg_bad_attr_value())),
        }
    } else if a.name == "NAME"@ {
        match a.value {
            AttrValueModel::QuotedString(s) => Ok(MediaAcc { name: Some(s), ..acc }),
            _ => Err(ErrorModel::Message(msg_bad_attr_value())),
        }
    } else if a.name == "DEFAULT"@ {
        match bool_of_keyword(a.value) {
            Ok(b) => Ok(MediaAcc { default: Some(b), ..acc }),
            Err(e) => Err(e),
        }
    } else if a.name == "AUTOSELECT"@ {
        match bool_of_keyword(a.value) {
            Ok(b) => Ok(MediaAcc { autoselect: Some(b), ..acc }),
            Err(e) => Err(e),
        }
    } else if a.name == "FORCED"@ {
        match bool_of_keyword(a.value) {
            Ok(b) => Ok(MediaAcc { forced: Some(b), ..acc }),
            Err(e) => Err(e),
        }
    } else if a.name == "INSTREAM-ID"@ {
        match a.value {
            AttrValueModel::QuotedString(s) => Ok(MediaAcc { instream_id: Some(s), ..acc }),
            _ => Err(ErrorModel::Message(msg_bad_attr_value())),
        }
    } else if a.name == "CHARACTERISTICS"@ {
        match a.value {
            AttrValueModel::QuotedString(s) => Ok(MediaAcc { characteristics: Some(s), ..acc }),
            _ => Err(ErrorModel::Message(msg_bad_attr_value())),
        }
    } else if a.name == "CHANNELS"@ {
        match a.value {
            AttrValueModel::QuotedString(s) => Ok(MediaAcc { channels: Some(s), ..acc }),
            _ => Err(ErrorModel::Message(msg_bad_attr_value())),
        }
    } else {
        Ok(acc)
    }
}

pub open spec fn media_fold(attrs: Seq<AttributeModel>, acc: MediaAcc) -> Result<
    MediaAcc,
    ErrorModel,
>
    decreases attrs.len(),
{
    if attrs.len() == 0 {
        Ok(acc)
    } else {
        match media_step(acc, attrs[0]) {
            Ok(acc2) => media_fold(attrs.skip(1), acc2),
            Err(e) => Err(e),
        }
    }
}

/// What `EXT-X-MEDIA` decodes to: `TYPE`, `GROUP-ID` and `NAME` are
/// required.
pub open spec fn media_attrs_spec(attrs: Seq<AttributeModel>) -> Result<
    MediaAttributesModel,
    ErrorModel,
> {
    match media_fold(attrs, media_acc_empty()) {
        Ok(acc) => if acc.media_type is Some && acc.group_id is Some && acc.name is Some {
            Ok(
                MediaAttributesModel {
                    media_type: acc.media_type->0,
                    uri: acc.uri,
                    group_id: acc.group_id->0,
                    language: acc.language,
                    assoc_language: acc.assoc_language,
                    name: acc.name->0,
                    default: acc.default,
                    autoselect: acc.autoselect,
                    forced: acc.forced,
                    instream_id: acc.instream_id,
                    characteristics: acc.characteristics,
                    channels: acc.channels,
                },
            )
        } else {
            Err(ErrorModel::Message(msg_missing_attr()))
        },
        Err(e) => Err(e),
    }
}

/// The `WIDTHxHEIGHT` string a resolution value renders to when the
/// schema asks for a string.
pub open spec fn resolution_text(r: Resolution) -> Seq<char> {
    spec_u64_digits(r.width as nat) + seq!['x'] + spec_u64_digits(r.height as nat)
}

pub struct StreamInfAcc {
    pub bandwidth: Option<u64>,
    pub average_bandwidth: Option<u64>,
    pub codecs: Option<Seq<char>>,
    pub resolution: Option<Seq<char>>,
    pub frame_rate: Option<Seq<char>>,
    pub hdcp_level: Option<HdcpLevel>,
    pub audio: Option<Seq<char>>,
    pub video: Option<Seq<char>>,
    pub subtitles: Option<Seq<char>>,
    pub closed_captions: Option<Seq<char>>,
}

pub open spec fn stream_inf_acc_empty() -> StreamInfAcc {
    StreamInfAcc {
        bandwidth: None,
        average_bandwidth: None,
        codecs: None,
        resolution: None,
        frame_rate: None,
        hdcp_level: None,
        audio: None,
        video: None,
        subtitles: None,
        closed_captions: None,
    }
}

pub open spec fn int_attr(v: AttrValueModel) -> Result<u64, ErrorModel> {
    match v {
        AttrValueModel::Integer(n) => Ok(n),
        _ => Err(ErrorModel::Message(msg_bad_attr_value())),
    }
}

pub open spec fn quoted_attr(v: AttrValueModel) -> Result<Seq<char>, ErrorModel> {
    match v {
        AttrValueModel::QuotedString(s) => Ok(s),
        _ => Err(ErrorModel::Message(msg_bad_attr_value())),
    }
}

/// A resolution-valued attribute when the schema asks for a string: a
/// `Resolution` renders as `WIDTHxHEIGHT`; a quoted string passes as is.
pub open spec fn resolution_attr(v: AttrValueModel) -> Result<Seq<char>, ErrorModel> {
    match v {
        AttrValueModel::Resolution(r) => Ok(resolution_text(r)),
        AttrValueModel::QuotedString(s) => Ok(s),
        _ => Err(ErrorModel::Message(msg_bad_attr_value())),
    }
}

/// A number-valued attribute when the schema asks for a float: a float
/// keeps its text, an integer renders to its digits.
pub open spec fn float_attr(v: AttrValueModel) -> Result<Seq<char>, ErrorModel> {
    match v {
        AttrValueModel::Float(t) => Ok(t),
        AttrValueModel::Integer(n) => Ok(spec_u64_digits(n as nat)),
        _ => Err(ErrorModel::Message(msg_bad_attr_value())),
    }
}

pub open spec fn hdcp_attr(v: AttrValueModel) -> Result<HdcpLevel, ErrorModel> {
    match enum_text(v) {
        Some(k) => if k == "NONE"@ {
            Ok(HdcpLevel::NoHdcp)
        } else if k == "TYPE-0"@ {
            Ok(HdcpLevel::Type0)
        } else {
            Err(ErrorModel::Message(msg_unknown_enum()))
        },
        None => Err(ErrorModel::Message(msg_bad_attr_value())),
    }
}

/// A string-or-`NONE` attribute: `CLOSED-CAPTIONS` may be a quoted
/// group id or the keyword `NONE`.
pub open spec fn string_or_none_attr(v: AttrValueModel) -> Result<Seq<char>, ErrorModel> {
    match v {
        AttrValueModel::QuotedString(s) => Ok(s),
        AttrValueModel::Keyword(k) => if k == "NONE"@ {
            Ok(k)
        } else {
            Err(ErrorModel::Message(msg_unknown_enum()))
        },
        _ => Err(ErrorModel::Message(msg_bad_attr_value())),
    }
}

pub open spec fn stream_inf_step(acc: StreamInfAcc, a: AttributeModel) -> Result<
    StreamInfAcc,
    ErrorModel,
> {
    if a.name == "BANDWIDTH"@ {
        match int_attr(a.value) {
            Ok(n) => Ok(StreamInfAcc { bandwidth: Some(n), ..acc }),
            Err(e) => Err(e),
        }
    } else if a.name == "AVERAGE-BANDWIDTH"@ {
        match int_attr(a.value) {
            Ok(n) => Ok(StreamInfAcc { average_bandwidth: Some(n), ..acc }),
            Err(e) => Err(e),
        }
    } else if a.name == "CODECS"@ {
        match quoted_attr(a.value) {
            Ok(s) => Ok(StreamInfAcc { codecs: Some(s), ..acc }),
            Err(e) => Err(e),
        }
    } else if a.name == "RESOLUTION"@ {
        match resolution_attr(a.value) {
            Ok(s) => Ok(StreamInfAcc { resolution: Some(s), ..acc }),
            Err(e) => Err(e),
        }
    } else if a.name == "FRAME-RATE"@ {
        match float_attr(a.value) {
            Ok(s) => Ok(StreamInfAcc { frame_rate: Some(s), ..acc }),
            Err(e) => Err(e),
        }
    } else if a.name == "HDCP-LEVEL"@ {
        match hdcp_attr(a.value) {
            Ok(h) => Ok(StreamInfAcc { hdcp_level: Some(h), ..acc }),
            Err(e) => Err(e),
        }
    } else if a.name == "AUDIO"@ {
        match quoted_attr(a.value) {
            Ok(s) => Ok(StreamInfAcc { audio: Some(s), ..acc }),
            Err(e) => Err(e),
        }
    } else if a.name == "VIDEO"@ {
        match quoted_attr(a.value) {
            Ok(s) => Ok(StreamInfAcc { video: Some(s), ..acc }),
            Err(e) => Err(e),
        }
    } else if a.name == "SUBTITLES"@ {
        match quoted_attr(a.value) {
            Ok(s) => Ok(StreamInfAcc { subtitles: Some(s), ..acc }),
            Err(e) => Err(e),
        }
    } else if a.name == "CLOSED-CAPTIONS"@ {
        match string_or_none_attr(a.value) {
            Ok(s) => Ok(StreamInfAcc { closed_captions: Some(s), ..acc }),
            Err(e) => Err(e),
        }
    } else {
        Ok(acc)
    }
}

pub open spec fn stream_inf_fold(attrs: Seq<AttributeModel>, acc: StreamInfAcc) -> Result<
    StreamInfAcc,
    ErrorModel,
>
    decreases attrs.len(),
{
    if attrs.len() == 0 {
        Ok(acc)
    } else {
        match stream_inf_step(acc, attrs[0]) {
            Ok(acc2) => stream_inf_fold(attrs.skip(1), acc2),
            Err(e) => Err(e),
        }
    }
}

/// What `EXT-X-STREAM-INF` decodes to: `BANDWIDTH` is required.
pub open spec fn stream_inf_attrs_spec(attrs: Seq<AttributeModel>) -> Result<
    StreamInfAttributesModel,
    ErrorModel,
> {
    match stream_inf_fold(attrs, stream_inf_acc_empty()) {
        Ok(acc) => match acc.bandwidth {
            Some(bw) => Ok(
                StreamInfAttributesModel {
                    bandwidth: bw,
                    average_bandwidth: acc.average_bandwidth,
                    codecs: acc.codecs,
                    resolution: acc.resolution,
                    frame_rate: acc.frame_rate,
                    hdcp_level: acc.hdcp_level,
                    audio: acc.audio,
                    video: acc.video,
                    subtitles: acc.subtitles,
                    closed_captions: acc.closed_captions,
                },
            ),
            None => Err(ErrorModel::Message(msg_missing_attr())),
        },
        Err(e) => Err(e),
    }
}

pub struct IFrameAcc {
    pub bandwidth: Option<u64>,
    pub average_bandwidth: Option<u64>,
    pub codecs: Option<Seq<char>>,
    pub resolution: Option<Seq<char>>,
    pub hdcp_level: Option<HdcpLevel>,
    pub video: Option<Seq<char>>,
    pub uri: Option<Seq<char>>,
}

pub open spec fn iframe_acc_empty() -> IFrameAcc {
    IFrameAcc {
        bandwidth: None,
        average_bandwidth: None,
        codecs: None,
        resolution: None,
        hdcp_level: None,
        video: None,
        uri: None,
    }
}

pub open spec fn iframe_step(acc: IFrameAcc, a: AttributeModel) -> Result<IFrameAcc, ErrorModel> {
    if a.name == "BANDWIDTH"@ {
        match int_attr(a.value) {
            Ok(n) => Ok(IFrameAcc { bandwidth: Some(n), ..acc }),
            Err(e) => Err(e),
        }
    } else if a.name == "AVERAGE-BANDWIDTH"@ {
        match int_attr(a.value) {
            Ok(n) => Ok(IFrameAcc { average_bandwidth: Some(n), ..acc }),
            Err(e) => Err(e),
        }
    } else if a.name == "CODECS"@ {
        match quoted_attr(a.value) {
            Ok(s) => Ok(IFrameAcc { codecs: Some(s), ..acc }),
            Err(e) => Err(e),
        }
    } else if a.name == "RESOLUTION"@ {
        match resolution_attr(a.value) {
            Ok(s) => Ok(IFrameAcc { resolution: Some(s), ..acc }),
            Err(e) => Err(e),
        }
    } else if a.name == "HDCP-LEVEL"@ {
        match hdcp_attr(a.value) {
            Ok(h) => Ok(IFrameAcc { hdcp_level: Some(h), ..acc }),
            Err(e) => Err(e),
        }
    } else if a.name == "VIDEO"@ {
        match quoted_attr(a.value) {
            Ok(s) => Ok(IFrameAcc { video: Some(s), ..acc }),
            Err(e) => Err(e),
        }
    } else if a.name == "URI"@ {
        match quoted_attr(a.value) {
            Ok(s) => Ok(IFrameAcc { uri: Some(s), ..acc }),
            Err(e) => Err(e),
        }
    } else {
        Ok(acc)
    }
}

pub open spec fn iframe_fold(attrs: Seq<AttributeModel>, acc: IFrameAcc) -> Result<
    IFrameAcc,
    ErrorModel,
>
    decreases attrs.len(),
{
    if attrs.len() == 0 {
        Ok(acc)
    } else {
        match iframe_step(acc, attrs[0]) {
            Ok(acc2) => iframe_fold(attrs.skip(1), acc2),
            Err(e) => Err(e),
        }
    }
}

/// What `EXT-X-I-FRAME-STREAM-INF` decodes to: `BANDWIDTH` and `URI`
/// are required.
pub open spec fn iframe_attrs_spec(attrs: Seq<AttributeModel>) -> Result<
    IFrameStreamInfAttributesModel,
    ErrorModel,
> {
    match iframe_fold(attrs, iframe_acc_empty()) {
        Ok(acc) => if acc.bandwidth is Some && acc.uri is Some {
            Ok(
                IFrameStreamInfAttributesModel {
                    bandwidth: acc.bandwidth->0,
                    average_bandwidth: acc.average_bandwidth,
                    codecs: acc.codecs,
                    resolution: acc.resolution,
                    hdcp_level: acc.hdcp_level,
                    video: acc.video,
                    uri: acc.uri->0,
                },
            )
        } else {
            Err(ErrorModel::Message(msg_missing_attr()))
        },
        Err(e) => Err(e),
    }
}

pub struct MapAcc {
    pub uri: Option<Seq<char>>,
    pub byterange: Option<Seq<char>>,
}

pub open spec fn map_acc_empty() -> MapAcc {
    MapAcc { uri: None, byterange: None }
}

pub open spec fn map_step(acc: MapAcc, a: AttributeModel) -> Result<MapAcc, ErrorModel> {
    if a.name == "URI"@ {
        match quoted_attr(a.value) {
            Ok(s) => Ok(MapAcc { uri: Some(s), ..acc }),
            Err(e) => Err(e),
        }
    } else if a.name == "BYTERANGE"@ {
        match quoted_attr(a.value) {
            Ok(s) => Ok(MapAcc { byterange: Some(s), ..acc }),
            Err(e) => Err(e),
        }
    } else {
        Ok(acc)
    }
}

pub open spec fn map_fold(attrs: Seq<AttributeModel>, acc: MapAcc) -> Result<MapAcc, ErrorModel>
    decreases attrs.len(),
{
    if attrs.len() == 0 {
        Ok(acc)
    } else {
        match map_step(acc, attrs[0]) {
            Ok(acc2) => map_fold(attrs.skip(1), acc2),
            Err(e) => Err(e),
        }
    }
}

/// What `EXT-X-MAP` decodes to: `URI` is required.
pub open spec fn map_attrs_spec(attrs: Seq<AttributeModel>) -> Result<MapAttributesModel,
    ErrorModel> {
    match map_fold(attrs, map_acc_empty()) {
        Ok(acc) => match acc.uri {
            Some(u) => Ok(MapAttributesModel { uri: u, byterange: acc.byterange }),
            None => Err(ErrorModel::Message(msg_missing_attr())),
        },
        Err(e) => Err(e),
    }
}

/// Bind a tag whose arguments are an attribute list.
pub open spec fn bind_attr_tag(name: Seq<char>, attrs: Seq<AttributeModel>) -> Result<
    TagModel,
    ErrorModel,
> {
    if name == "EXT-X-KEY"@ {
        match key_attrs_spec(attrs) {
            Ok(k) => Ok(TagModel::Key(k)),
            Err(e) => Err(e),
        }
    } else if name == "EXT-X-MEDIA"@ {
        match media_attrs_spec(attrs) {
            Ok(m) => Ok(TagModel::Media(m)),
            Err(e) => Err(e),
        }
    } else if name == "EXT-X-STREAM-INF"@ {
        match stream_inf_attrs_spec(attrs) {
            Ok(v) => Ok(TagModel::StreamInf(v)),
            Err(e) => Err(e),
        }
    } else if name == "EXT-X-I-FRAME-STREAM-INF"@ {
        match iframe_attrs_spec(attrs) {
            Ok(v) => Ok(TagModel::IFrameStreamInf(v)),
            Err(e) => Err(e),
        }
    } else if name == "EXT-X-MAP"@ {
        match map_attrs_spec(attrs) {
            Ok(m) => Ok(TagModel::InitMap(m)),
            Err(e) => Err(e),
        }
    } else if is_known_tag(name) {
        Err(ErrorModel::Message(msg_bad_tag_args()))
    } else {
        Ok(TagModel::Unknown { name: name, args: TagArgsModel::Attributes(attrs) })
    }
}

// ---------------------------------------------------------------------
// Structural decoding of the node stream.
// ---------------------------------------------------------------------

/// Collect `AttributeName`/`AttributeValue` pairs up to the closing
/// `AttributesEnd`, which is consumed.
pub open spec fn collect_attrs(ns: Seq<NodeModel>, i: int) -> Result<
    (Seq<AttributeModel>, int),
    ErrorModel,
>
    decreases ns.len() - i,
    when 0 <= i <= ns.len()
{
    if i >= ns.len() {
        Err(ErrorModel::UnexpectedEof)
    } else {
        match ns[i] {
            NodeModel::AttributesEnd => Ok((Seq::empty(), i + 1)),
            NodeModel::AttributeName(name) => if i + 1 < ns.len() {
                match ns[i + 1] {
                    NodeModel::AttributeValue(v) => match collect_attrs(ns, i + 2) {
                        Ok((rest, j)) => Ok(
                            (seq![AttributeModel { name: name, value: v }] + rest, j),
                        ),
                        Err(e) => Err(e),
                    },
                    _ => Err(ErrorModel::Message(msg_unexpected_node())),
                }
            } else {
                Err(ErrorModel::UnexpectedEof)
            },
            _ => Err(ErrorModel::Message(msg_unexpected_node())),
        }
    }
}

/// Decode one tag starting at its `TagName` node; the result carries the
/// position after the tag's nodes.
pub open spec fn decode_tag_at(ns: Seq<NodeModel>, i: int) -> Result<(TagModel, int), ErrorModel> {
    if !(0 <= i < ns.len()) {
        Err(ErrorModel::UnexpectedEof)
    } else {
        match ns[i] {
            NodeModel::TagName(name) => if i + 1 >= ns.len() {
                Err(ErrorModel::UnexpectedEof)
            } else {
                match ns[i + 1] {
                    NodeModel::Integer(n) => match bind_int_tag(name, n) {
                        Ok(t) => Ok((t, i + 2)),
                        Err(e) => Err(e),
                    },
                    NodeModel::Float(t) => match bind_float_tag(name, t) {
                        Ok(tag) => Ok((tag, i + 2)),
                        Err(e) => Err(e),
                    },
                    NodeModel::Str(t) => match bind_str_tag(name, t) {
                        Ok(tag) => Ok((tag, i + 2)),
                        Err(e) => Err(e),
                    },
                    NodeModel::AttributesStart => match collect_attrs(ns, i + 2) {
                        Ok((attrs, j)) => match bind_attr_tag(name, attrs) {
                            Ok(tag) => Ok((tag, j)),
                            Err(e) => Err(e),
                        },
                        Err(e) => Err(e),
                    },
                    _ => match bind_unit_tag(name) {
                        Ok(tag) => Ok((tag, i + 1)),
                        Err(e) => Err(e),
                    },
                }
            },
            _ => Err(ErrorModel::Message(msg_unexpected_node())),
        }
    }
}

pub proof fn lemma_collect_attrs_ends(ns: Seq<NodeModel>, i: int)
    requires
        0 <= i <= ns.len(),
    ensures
        collect_attrs(ns, i) matches Ok((attrs, j)) ==> i < j <= ns.len(),
    decreases ns.len() - i,
{
    if i < ns.len() {
        match ns[i] {
            NodeModel::AttributeName(name) => {
                if i + 1 < ns.len() {
                    lemma_collect_attrs_ends(ns, i + 2);
                }
            },
            _ => {},
        }
    }
}

pub proof fn lemma_decode_tag_at_ends(ns: Seq<NodeModel>, i: int)
    requires
        0 <= i <= ns.len(),
    ensures
        decode_tag_at(ns, i) matches Ok((t, j)) ==> i < j <= ns.len(),
{
    if 0 <= i < ns.len() && i + 1 < ns.len() {
        lemma_collect_attrs_ends(ns, i + 2);
    }
}

/// Decode lines from a position until `ManifestEnd`.
pub open spec fn decode_lines(ns: Seq<NodeModel>, i: int) -> Result<Seq<LineModel>, ErrorModel>
    decreases ns.len() - i,
    when 0 <= i <= ns.len()
    via decode_lines_decreases
{
    if i >= ns.len() {
        Err(ErrorModel::UnexpectedEof)
    } else {
        match ns[i] {
            NodeModel::ManifestEnd => Ok(Seq::empty()),
            NodeModel::Uri(u) => match decode_lines(ns, i + 1) {
                Ok(rest) => Ok(seq![LineModel::Uri(u)] + rest),
                Err(e) => Err(e),
            },
            NodeModel::TagStart => match decode_tag_at(ns, i + 1) {
                Ok((tag, j)) => match decode_lines(ns, j) {
                    Ok(rest) => Ok(seq![LineModel::Tag(tag)] + rest),
                    Err(e) => Err(e),
                },
                Err(e) => Err(e),
            },
            _ => Err(ErrorModel::Message(msg_unexpected_node())),
        }
    }
}

#[via_fn]
proof fn decode_lines_decreases(ns: Seq<NodeModel>, i: int) {
    if 0 <= i < ns.len() {
        lemma_decode_tag_at_ends(ns, i + 1);
    }
}

/// Decode a whole token stream: `ManifestStart`, the lines, and the
/// closing `ManifestEnd`.
pub open spec fn decode_nodes_spec(ns: Seq<NodeModel>) -> Result<Seq<LineModel>, ErrorModel> {
    if ns.len() == 0 {
        Err(ErrorModel::UnexpectedEof)
    } else if ns[0] != NodeModel::ManifestStart {
        Err(ErrorModel::Message(msg_unexpected_node()))
    } else {
        decode_lines(ns, 1)
    }
}


// ---------------------------------------------------------------------
// The executable decoder.
// ---------------------------------------------------------------------

fn is_known_tag_exec(name: &str) -> (r: bool)
    ensures
        r == is_known_tag(name@),
{
    str_eq(name, "EXTM3U") || str_eq(name, "EXT-X-INDEPENDENT-SEGMENTS") || str_eq(
        name,
        "EXT-X-ENDLIST",
    ) || str_eq(name, "EXT-X-I-FRAMES-ONLY") || str_eq(name, "EXT-X-DISCONTINUITY") || str_eq(
        name,
        "EXT-X-VERSION",
    ) || str_eq(name, "EXT-X-TARGETDURATION") || str_eq(name, "EXT-X-MEDIA-SEQUENCE") || str_eq(
        name,
        "EXT-X-DISCONTINUITY-SEQUENCE",
    ) || str_eq(name, "EXTINF") || str_eq(name, "EXT-X-PROGRAM-DATE-TIME") || str_eq(
        name,
        "EXT-X-PLAYLIST-TYPE",
    ) || str_eq(name, "EXT-X-KEY") || str_eq(name, "EXT-X-MEDIA") || str_eq(
        name,
        "EXT-X-STREAM-INF",
    ) || str_eq(name, "EXT-X-I-FRAME-STREAM-INF") || str_eq(name, "EXT-X-MAP")
}

fn err_unexpected_node() -> (r: Error)
    ensures
        r@ == ErrorModel::Message(msg_unexpected_node()),
{
    Error::Message(String::from_str("unexpected node"))
}

fn err_bad_tag_args() -> (r: Error)
    ensures
        r@ == ErrorModel::Message(msg_bad_tag_args()),
{
    Error::Message(String::from_str("invalid arguments for tag"))
}

fn err_bad_attr_value() -> (r: Error)
    ensures
        r@ == ErrorModel::Message(msg_bad_attr_value()),
{
    Error::Message(String::from_str("invalid attribute value"))
}

fn err_unknown_enum() -> (r: Error)
    ensures
        r@ == ErrorModel::Message(msg_unknown_enum()),
{
    Error::Message(String::from_str("unknown enum value"))
}

fn err_missing_attr() -> (r: Error)
    ensures
        r@ == ErrorModel::Message(msg_missing_attr()),
{
    Error::Message(String::from_str("missing required attribute"))
}

fn decode_int_tag(name: String, n: u64) -> (r: Result<Tag, Error>)
    ensures
        match r {
            Ok(t) => bind_int_tag(name@, n) == Ok::<TagModel, ErrorModel>(t@),
            Err(e) => bind_int_tag(name@, n) == Err::<TagModel, ErrorModel>(e@),
        },
{
    if str_eq(name.as_str(), "EXT-X-VERSION") {
        Ok(Tag::Version(n))
    } else if str_eq(name.as_str(), "EXT-X-TARGETDURATION") {
        Ok(Tag::TargetDuration(n))
    } else if str_eq(name.as_str(), "EXT-X-MEDIA-SEQUENCE") {
        Ok(Tag::MediaSequence(n))
    } else if str_eq(name.as_str(), "EXT-X-DISCONTINUITY-SEQUENCE") {
        Ok(Tag::DiscontinuitySequence(n))
    } else if is_known_tag_exec(name.as_str()) {
        Err(err_bad_tag_args())
    } else {
        Ok(Tag::Unknown { name, args: TagArgs::Integer(n) })
    }
}

fn decode_float_tag(name: String, t: FloatLit) -> (r: Result<Tag, Error>)
    ensures
        match r {
            Ok(tag) => bind_float_tag(name@, t@) == Ok::<TagModel, ErrorModel>(tag@),
            Err(e) => bind_float_tag(name@, t@) == Err::<TagModel, ErrorModel>(e@),
        },
{
    if str_eq(name.as_str(), "EXTINF") {
        Ok(Tag::Inf(t))
    } else if is_known_tag_exec(name.as_str()) {
        Err(err_bad_tag_args())
    } else {
        Ok(Tag::Unknown { name, args: TagArgs::Float(t) })
    }
}

fn decode_str_tag(name: String, t: String) -> (r: Result<Tag, Error>)
    ensures
        match r {
            Ok(tag) => bind_str_tag(name@, t@) == Ok::<TagModel, ErrorModel>(tag@),
            Err(e) => bind_str_tag(name@, t@) == Err::<TagModel, ErrorModel>(e@),
        },
{
    if str_eq(name.as_str(), "EXT-X-PROGRAM-DATE-TIME") {
        Ok(Tag::ProgramDateTime(t))
    } else if str_eq(name.as_str(), "EXT-X-PLAYLIST-TYPE") {
        if str_eq(t.as_str(), "EVENT") {
            Ok(Tag::PlaylistType(PlaylistType::Event))
        } else if str_eq(t.as_str(), "VOD") {
            Ok(Tag::PlaylistType(PlaylistType::Vod))
        } else {
            Err(err_unknown_enum())
        }
    } else if is_known_tag_exec(name.as_str()) {
        Err(err_bad_tag_args())
    } else {
        Ok(Tag::Unknown { name, args: TagArgs::Str(t) })
    }
}

fn decode_unit_tag(name: String) -> (r: Result<Tag, Error>)
    ensures
        match r {
            Ok(tag) => bind_unit_tag(name@) == Ok::<TagModel, ErrorModel>(tag@),
            Err(e) => bind_unit_tag(name@) == Err::<TagModel, ErrorModel>(e@),
        },
{
    if str_eq(name.as_str(), "EXTM3U") {
        Ok(Tag::M3u)
    } else if str_eq(name.as_str(), "EXT-X-INDEPENDENT-SEGMENTS") {
        Ok(Tag::IndependentSegments)
    } else if str_eq(name.as_str(), "EXT-X-ENDLIST") {
        Ok(Tag::EndList)
    } else if str_eq(name.as_str(), "EXT-X-I-FRAMES-ONLY") {
        Ok(Tag::IFramesOnly)
    } else if str_eq(name.as_str(), "EXT-X-DISCONTINUITY") {
        Ok(Tag::Discontinuity)
    } else if is_known_tag_exec(name.as_str()) {
        Err(err_bad_tag_args())
    } else {
        Ok(Tag::Unknown { name, args: TagArgs::Empty })
    }
}

spec fn key_acc_of(
    method: Option<EncryptionMethod>,
    uri: Option<String>,
    iv: Option<Vec<u8>>,
    keyformat: Option<String>,
    keyformatversions: Option<String>,
) -> KeyAcc {
    KeyAcc {
        method: method,
        uri: opt_view(uri),
        iv: match iv {
            Some(v) => Some(v@),
            None => None,
        },
        keyformat: opt_view(keyformat),
        keyformatversions: opt_view(keyformatversions),
    }
}

fn enum_text_exec(v: &AttributeValue) -> (r: Option<&String>)
    ensures
        match r {
            Some(s) => enum_text(v@) == Some(s@),
            None => enum_text(v@) is None,
        },
{
    match v {
        AttributeValue::Keyword(k) => Some(k),
        AttributeValue::QuotedString(s) => Some(s),
        _ => None,
    }
}

fn decode_key_attrs(attrs: &Vec<Attribute>) -> (r: Result<KeyAttributes, Error>)
    ensures
        ({
            let views = attrs@.map_values(|a: Attribute| a@);
            match r {
                Ok(k) => key_attrs_spec(views) == Ok::<KeyAttributesModel, ErrorModel>(k@),
                Err(e) => key_attrs_spec(views) == Err::<KeyAttributesModel, ErrorModel>(e@),
            }
        }),
{
    let ghost views = attrs@.map_values(|a: Attribute| a@);
    let mut method: Option<EncryptionMethod> = None;
    let mut uri: Option<String> = None;
    let mut iv: Option<Vec<u8>> = None;
    let mut keyformat: Option<String> = None;
    let mut keyformatversions: Option<String> = None;
    let mut i: usize = 0;
    proof {
        assert(views.skip(0) =~= views);
    }
    while i < attrs.len()
        invariant
            i <= views.len(),
            views == attrs@.map_values(|a: Attribute| a@),
            attrs@.len() == views.len(),
            key_fold(views, key_acc_empty()) == key_fold(
                views.skip(i as int),
                key_acc_of(method, uri, iv, keyformat, keyformatversions),
            ),
        decreases views.len() - i,
    {
        let ghost acc_pre = key_acc_of(method, uri, iv, keyformat, keyformatversions);
        let a = &attrs[i];
        proof {
            assert(a@ == views[i as int]);
            assert(views.skip(i as int)[0] == views[i as int]);
            assert(views.skip(i as int).skip(1) =~= views.skip(i as int + 1));
        }
        if str_eq(a.name.as_str(), "METHOD") {
            match enum_text_exec(&a.value) {
                Some(k) => {
                    if str_eq(k.as_str(), "AES-128") {
                        method = Some(EncryptionMethod::Aes128);
                    } else if str_eq(k.as_str(), "NONE") {
                        method = Some(EncryptionMethod::NoEncryption);
                    } else if str_eq(k.as_str(), "SAMPLE-AES") {
                        method = Some(EncryptionMethod::SampleAes);
                    } else {
                        return Err(err_unknown_enum());
                    }
                },
                None => {
                    return Err(err_bad_attr_value());
                },
            }
        } else if str_eq(a.name.as_str(), "URI") {
            match &a.value {
                AttributeValue::QuotedString(s) => {
                    uri = Some(s.clone());
                },
                _ => {
                    return Err(err_bad_attr_value());
                },
            }
        } else if str_eq(a.name.as_str(), "IV") {
            match &a.value {
                AttributeValue::Hex(h) => {
                    match h.bytes() {
                        Ok(v) => {
                            iv = Some(v);
                        },
                        Err(e) => {
                            return Err(e);
                        },
                    }
                },
                _ => {
                    return Err(err_bad_attr_value());
                },
            }
        } else if str_eq(a.name.as_str(), "KEYFORMAT") {
            match &a.value {
                AttributeValue::QuotedString(s) => {
                    keyformat = Some(s.clone());
                },
                _ => {
                    return Err(err_bad_attr_value());
                },
            }
        } else if str_eq(a.name.as_str(), "KEYFORMATVERSIONS") {
            match &a.value {
                AttributeValue::QuotedString(s) => {
                    keyformatversions = Some(s.clone());
                },
                _ => {
                    return Err(err_bad_attr_value());
                },
            }
        }
        proof {
            let acc_new = key_acc_of(method, uri, iv, keyformat, keyformatversions);
            assert(key_step(acc_pre, views[i as int]) == Ok::<KeyAcc, ErrorModel>(acc_new));
        }
        i += 1;
    }
    proof {
        assert(views.skip(views.len() as int) =~= Seq::<AttributeModel>::empty());
    }
    match method {
        Some(m) => Ok(KeyAttributes { method: m, uri, iv, keyformat, keyformatversions }),
        None => Err(err_missing_attr()),
    }
}

spec fn media_acc_of(
    media_type: Option<MediaType>,
    uri: Option<String>,
    group_id: Option<String>,
    language: Option<String>,
    assoc_language: Option<String>,
    name: Option<String>,
    default: Option<bool>,
    autoselect: Option<bool>,
    forced: Option<bool>,
    instream_id: Option<String>,
    characteristics: Option<String>,
    channels: Option<String>,
) -> MediaAcc {
    MediaAcc {
        media_type: media_type,
        uri: opt_view(uri),
        group_id: opt_view(group_id),
        language: opt_view(language),
        assoc_language: opt_view(assoc_language),
        name: opt_view(name),
        default: default,
        autoselect: autoselect,
        forced: forced,
        instream_id: opt_view(instream_id),
        characteristics: opt_view(characteristics),
        channels: opt_view(channels),
    }
}

fn decode_bool_attr(v: &AttributeValue) -> (r: Result<bool, Error>)
    ensures
        match r {
            Ok(b) => bool_of_keyword(v@) == Ok::<bool, ErrorModel>(b),
            Err(e) => bool_of_keyword(v@) == Err::<bool, ErrorModel>(e@),
        },
{
    match v {
        AttributeValue::Keyword(k) => {
            if str_eq(k.as_str(), "YES") {
                Ok(true)
            } else if str_eq(k.as_str(), "NO") {
                Ok(false)
            } else {
                Err(err_unknown_enum())
            }
        },
        _ => Err(err_bad_attr_value()),
    }
}

fn decode_media_attrs(attrs: &Vec<Attribute>) -> (r: Result<MediaAttributes, Error>)
    ensures
        ({
            let views = attrs@.map_values(|a: Attribute| a@);
            match r {
                Ok(m) => media_attrs_spec(views) == Ok::<MediaAttributesModel, ErrorModel>(m@),
                Err(e) => media_attrs_spec(views) == Err::<MediaAttributesModel, ErrorModel>(e@),
            }
        }),
{
    let ghost views = attrs@.map_values(|a: Attribute| a@);
    let mut media_type: Option<MediaType> = None;
    let mut uri: Option<String> = None;
    let mut group_id: Option<String> = None;
    let mut language: Option<String> = None;
    let mut assoc_language: Option<String> = None;
    let mut name: Option<String> = None;
    let mut default: Option<bool> = None;
    let mut autoselect: Option<bool> = None;
    let mut forced: Option<bool> = None;
    let mut instream_id: Option<String> = None;
    let mut characteristics: Option<String> = None;
    let mut channels: Option<String> = None;
    let mut i: usize = 0;
    proof {
        assert(views.skip(0) =~= views);
    }
    while i < attrs.len()
        invariant
            i <= views.len(),
            views == attrs@.map_values(|a: Attribute| a@),
            attrs@.len() == views.len(),
            media_fold(views, media_acc_empty()) == media_fold(
                views.skip(i as int),
                media_acc_of(
                    media_type,
                    uri,
                    group_id,
                    language,
                    assoc_language,
                    name,
                    default,
                    autoselect,
                    forced,
                    instream_id,
                    characteristics,
                    channels,
                ),
            ),
        decreases views.len() - i,
    {
        let ghost acc_pre = media_acc_of(
            media_type,
            uri,
            group_id,
            language,
            assoc_language,
            name,
            default,
            autoselect,
            forced,
            instream_id,
            characteristics,
            channels,
        );
        let a = &attrs[i];
        proof {
            assert(a@ == views[i as int]);
            assert(views.skip(i as int)[0] == views[i as int]);
            assert(views.skip(i as int).skip(1) =~= views.skip(i as int + 1));
        }
        if str_eq(a.name.as_str(), "TYPE") {
            match enum_text_exec(&a.value) {
                Some(k) => {
                    if str_eq(k.as_str(), "AUDIO") {
                        media_type = Some(MediaType::Audio);
                    } else if str_eq(k.as_str(), "VIDEO") {
                        media_type = Some(MediaType::Video);
                    } else if str_eq(k.as_str(), "SUBTITLES") {
                        media_type = Some(MediaType::Subtitles);
                    } else if str_eq(k.as_str(), "CLOSED-CAPTIONS") {
                        media_type = Some(MediaType::ClosedCaptions);
                    } else {
                        return Err(err_unknown_enum());
                    }
                },
                None => {
                    return Err(err_bad_attr_value());
                },
            }
        } else if str_eq(a.name.as_str(), "URI") {
            match &a.value {
                AttributeValue::QuotedString(s) => {
                    uri = Some(s.clone());
                },
                _ => {
                    return Err(err_bad_attr_value());
                },
            }
        } else if str_eq(a.name.as_str(), "GROUP-ID") {
            match &a.value {
                AttributeValue::QuotedString(s) => {
                    group_id = Some(s.clone());
                },
                _ => {
                    return Err(err_bad_attr_value());
                },
            }
        } else if str_eq(a.name.as_str(), "LANGUAGE") {
            match &a.value {
                AttributeValue::QuotedString(s) => {
                    language = Some(s.clone());
                },
                _ => {
                    return Err(err_bad_attr_value());
                },
            }
        } else if str_eq(a.name.as_str(), "ASSOC-LANGUAGE") {
            match &a.value {
                AttributeValue::QuotedString(s) => {
                    assoc_language = Some(s.clone());
                },
                _ => {
                    return Err(err_bad_attr_value());
                },
            }
        } else if str_eq(a.name.as_str(), "NAME") {
            match &a.value {
                AttributeValue::QuotedString(s) => {
                    name = Some(s.clone());
                },
                _ => {
                    return Err(err_bad_attr_value());
                },
            }
        } else if str_eq(a.name.as_str(), "DEFAULT") {
            match decode_bool_attr(&a.value) {
                Ok(b) => {
                    default = Some(b);
                },
                Err(e) => {
                    return Err(e);
                },
            }
        } else if str_eq(a.name.as_str(), "AUTOSELECT") {
            match decode_bool_attr(&a.value) {
                Ok(b) => {
                    autoselect = Some(b);
                },
                Err(e) => {
                    return Err(e);
                },
            }
        } else if str_eq(a.name.as_str(), "FORCED") {
            match decode_bool_attr(&a.value) {
                Ok(b) => {
                    forced = Some(b);
                },
                Err(e) => {
                    return Err(e);
                },
            }
        } else if str_eq(a.name.as_str(), "INSTREAM-ID") {
            match &a.value {
                AttributeValue::QuotedString(s) => {
                    instream_id = Some(s.clone());
                },
                _ => {
                    return Err(err_bad_attr_value());
                },
            }
        } else if str_eq(a.name.as_str(), "CHARACTERISTICS") {
            match &a.value {
                AttributeValue::QuotedString(s) => {
                    characteristics = Some(s.clone());
                },
                _ => {
                    return Err(err_bad_attr_value());
                },
            }
        } else if str_eq(a.name.as_str(), "CHANNELS") {
            match &a.value {
                AttributeValue::QuotedString(s) => {
                    channels = Some(s.clone());
                },
                _ => {
                    return Err(err_bad_attr_value());
                },
            }
        }
        proof {
            let acc_new = media_acc_of(
                media_type,
                uri,
                group_id,
                language,
                assoc_language,
                name,
                default,
                autoselect,
                forced,
                instream_id,
                characteristics,
                channels,
            );
            assert(media_step(acc_pre, views[i as int]) == Ok::<MediaAcc, ErrorModel>(acc_new));
        }
        i += 1;
    }
    proof {
        assert(views.skip(views.len() as int) =~= Seq::<AttributeModel>::empty());
    }
    if media_type.is_none() || group_id.is_none() || name.is_none() {
        return Err(err_missing_attr());
    }
    let mt = match media_type {
        Some(m) => m,
        None => {
            return Err(err_missing_attr());
        },
    };
    let gid = match group_id {
        Some(g) => g,
        None => {
            return Err(err_missing_attr());
        },
    };
    let nm = match name {
        Some(n) => n,
        None => {
            return Err(err_missing_attr());
        },
    };
    Ok(
        MediaAttributes {
            media_type: mt,
            uri,
            group_id: gid,
            language,
            assoc_language,
            name: nm,
            default,
            autoselect,
            forced,
            instream_id,
            characteristics,
            channels,
        },
    )
}

/// Render a resolution as its `WIDTHxHEIGHT` string.
pub fn resolution_to_string(r: Resolution) -> (s: String)
    ensures
        s@ == resolution_text(r),
{
    let mut s = u64_to_string(r.width);
    s.push('x');
    let h = u64_to_string(r.height);
    s.append(h.as_str());
    proof {
        assert(s@ =~= resolution_text(r));
    }
    s
}

fn decode_quoted_attr(v: &AttributeValue) -> (r: Result<String, Error>)
    ensures
        match r {
            Ok(s) => quoted_attr(v@) == Ok::<Seq<char>, ErrorModel>(s@),
            Err(e) => quoted_attr(v@) == Err::<Seq<char>, ErrorModel>(e@),
        },
{
    match v {
        AttributeValue::QuotedString(s) => Ok(s.clone()),
        _ => Err(err_bad_attr_value()),
    }
}

fn decode_int_attr(v: &AttributeValue) -> (r: Result<u64, Error>)
    ensures
        match r {
            Ok(n) => int_attr(v@) == Ok::<u64, ErrorModel>(n),
            Err(e) => int_attr(v@) == Err::<u64, ErrorModel>(e@),
        },
{
    match v {
        AttributeValue::Integer(n) => Ok(*n),
        _ => Err(err_bad_attr_value()),
    }
}

fn decode_resolution_attr(v: &AttributeValue) -> (r: Result<String, Error>)
    ensures
        match r {
            Ok(s) => resolution_attr(v@) == Ok::<Seq<char>, ErrorModel>(s@),
            Err(e) => resolution_attr(v@) == Err::<Seq<char>, ErrorModel>(e@),
        },
{
    match v {
        AttributeValue::Resolution(res) => Ok(resolution_to_string(*res)),
        AttributeValue::QuotedString(s) => Ok(s.clone()),
        _ => Err(err_bad_attr_value()),
    }
}

fn decode_float_attr(v: &AttributeValue) -> (r: Result<FloatLit, Error>)
    ensures
        match r {
            Ok(f) => float_attr(v@) == Ok::<Seq<char>, ErrorModel>(f@),
            Err(e) => float_attr(v@) == Err::<Seq<char>, ErrorModel>(e@),
        },
{
    match v {
        AttributeValue::Float(f) => Ok(FloatLit { text: f.text.clone() }),
        AttributeValue::Integer(n) => Ok(FloatLit { text: u64_to_string(*n) }),
        _ => Err(err_bad_attr_value()),
    }
}

fn decode_hdcp_attr(v: &AttributeValue) -> (r: Result<HdcpLevel, Error>)
    ensures
        match r {
            Ok(h) => hdcp_attr(v@) == Ok::<HdcpLevel, ErrorModel>(h),
            Err(e) => hdcp_attr(v@) == Err::<HdcpLevel, ErrorModel>(e@),
        },
{
    match enum_text_exec(v) {
        Some(k) => {
            if str_eq(k.as_str(), "NONE") {
                Ok(HdcpLevel::NoHdcp)
            } else if str_eq(k.as_str(), "TYPE-0") {
                Ok(HdcpLevel::Type0)
            } else {
                Err(err_unknown_enum())
            }
        },
        None => Err(err_bad_attr_value()),
    }
}

fn decode_string_or_none_attr(v: &AttributeValue) -> (r: Result<String, Error>)
    ensures
        match r {
            Ok(s) => string_or_none_attr(v@) == Ok::<Seq<char>, ErrorModel>(s@),
            Err(e) => string_or_none_attr(v@) == Err::<Seq<char>, ErrorModel>(e@),
        },
{
    match v {
        AttributeValue::QuotedString(s) => Ok(s.clone()),
        AttributeValue::Keyword(k) => {
            if str_eq(k.as_str(), "NONE") {
                Ok(k.clone())
            } else {
                Err(err_unknown_enum())
            }
        },
        _ => Err(err_bad_attr_value()),
    }
}

spec fn stream_inf_acc_of(
    bandwidth: Option<u64>,
    average_bandwidth: Option<u64>,
    codecs: Option<String>,
    resolution: Option<String>,
    frame_rate: Option<FloatLit>,
    hdcp_level: Option<HdcpLevel>,
    audio: Option<String>,
    video: Option<String>,
    subtitles: Option<String>,
    closed_captions: Option<String>,
) -> StreamInfAcc {
    StreamInfAcc {
        bandwidth: bandwidth,
        average_bandwidth: average_bandwidth,
        codecs: opt_view(codecs),
        resolution: opt_view(resolution),
        frame_rate: opt_float_view(frame_rate),
        hdcp_level: hdcp_level,
        audio: opt_view(audio),
        video: opt_view(video),
        subtitles: opt_view(subtitles),
        closed_captions: opt_view(closed_captions),
    }
}

fn decode_stream_inf_attrs(attrs: &Vec<Attribute>) -> (r: Result<StreamInfAttributes, Error>)
    ensures
        ({
            let views = attrs@.map_values(|a: Attribute| a@);
            match r {
                Ok(v) => stream_inf_attrs_spec(views) == Ok::<StreamInfAttributesModel, ErrorModel>(
                    v@,
                ),
                Err(e) => stream_inf_attrs_spec(views) == Err::<
                    StreamInfAttributesModel,
                    ErrorModel,
                >(e@),
            }
        }),
{
    let ghost views = attrs@.map_values(|a: Attribute| a@);
    let mut bandwidth: Option<u64> = None;
    let mut average_bandwidth: Option<u64> = None;
    let mut codecs: Option<String> = None;
    let mut resolution: Option<String> = None;
    let mut frame_rate: Option<FloatLit> = None;
    let mut hdcp_level: Option<HdcpLevel> = None;
    let mut audio: Option<String> = None;
    let mut video: Option<String> = None;
    let mut subtitles: Option<String> = None;
    let mut closed_captions: Option<String> = None;
    let mut i: usize = 0;
    proof {
        assert(views.skip(0) =~= views);
    }
    while i < attrs.len()
        invariant
            i <= views.len(),
            views == attrs@.map_values(|a: Attribute| a@),
            attrs@.len() == views.len(),
            stream_inf_fold(views, stream_inf_acc_empty()) == stream_inf_fold(
                views.skip(i as int),
                stream_inf_acc_of(
                    bandwidth,
                    average_bandwidth,
                    codecs,
                    resolution,
                    frame_rate,
                    hdcp_level,
                    audio,
                    video,
                    subtitles,
                    closed_captions,
                ),
            ),
        decreases views.len() - i,
    {
        let ghost acc_pre = stream_inf_acc_of(
            bandwidth,
            average_bandwidth,
            codecs,
            resolution,
            frame_rate,
            hdcp_level,
            audio,
            video,
            subtitles,
            closed_captions,
        );
        let a = &attrs[i];
        proof {
            assert(a@ == views[i as int]);
            assert(views.skip(i as int)[0] == views[i as int]);
            assert(views.skip(i as int).skip(1) =~= views.skip(i as int + 1));
        }
        if str_eq(a.name.as_str(), "BANDWIDTH") {
            match decode_int_attr(&a.value) {
                Ok(n) => {
                    bandwidth = Some(n);
                },
                Err(e) => {
                    return Err(e);
                },
            }
        } else if str_eq(a.name.as_str(), "AVERAGE-BANDWIDTH") {
            match decode_int_attr(&a.value) {
                Ok(n) => {
                    average_bandwidth = Some(n);
                },
                Err(e) => {
                    return Err(e);
                },
            }
        } else if str_eq(a.name.as_str(), "CODECS") {
            match decode_quoted_attr(&a.value) {
                Ok(s) => {
                    codecs = Some(s);
                },
                Err(e) => {
                    return Err(e);
                },
            }
        } else if str_eq(a.name.as_str(), "RESOLUTION") {
            match decode_resolution_attr(&a.value) {
                Ok(s) => {
                    resolution = Some(s);
                },
                Err(e) => {
                    return Err(e);
                },
            }
        } else if str_eq(a.name.as_str(), "FRAME-RATE") {
            match decode_float_attr(&a.value) {
                Ok(f) => {
                    frame_rate = Some(f);
                },
                Err(e) => {
                    return Err(e);
                },
            }
        } else if str_eq(a.name.as_str(), "HDCP-LEVEL") {
            match decode_hdcp_attr(&a.value) {
                Ok(h) => {
                    hdcp_level = Some(h);
                },
                Err(e) => {
                    return Err(e);
                },
            }
        } else if str_eq(a.name.as_str(), "AUDIO") {
            match decode_quoted_attr(&a.value) {
                Ok(s) => {
                    audio = Some(s);
                },
                Err(e) => {
                    return Err(e);
                },
            }
        } else if str_eq(a.name.as_str(), "VIDEO") {
            match decode_quoted_attr(&a.value) {
                Ok(s) => {
                    video = Some(s);
                },
                Err(e) => {
                    return Err(e);
                },
            }
        } else if str_eq(a.name.as_str(), "SUBTITLES") {
            match decode_quoted_attr(&a.value) {
                Ok(s) => {
                    subtitles = Some(s);
                },
                Err(e) => {
                    return Err(e);
                },
            }
        } else if str_eq(a.name.as_str(), "CLOSED-CAPTIONS") {
            match decode_string_or_none_attr(&a.value) {
                Ok(s) => {
                    closed_captions = Some(s);
                },
                Err(e) => {
                    return Err(e);
                },
            }
        }
        proof {
            let acc_new = stream_inf_acc_of(
                bandwidth,
                average_bandwidth,
                codecs,
                resolution,
                frame_rate,
                hdcp_level,
                audio,
                video,
                subtitles,
                closed_captions,
            );
            assert(stream_inf_step(acc_pre, views[i as int]) == Ok::<StreamInfAcc, ErrorModel>(
                acc_new,
            ));
        }
        i += 1;
    }
    proof {
        assert(views.skip(views.len() as int) =~= Seq::<AttributeModel>::empty());
    }
    match bandwidth {
        Some(bw) => Ok(
            StreamInfAttributes {
                bandwidth: bw,
                average_bandwidth,
                codecs,
                resolution,
                frame_rate,
                hdcp_level,
                audio,
                video,
                subtitles,
                closed_captions,
            },
        ),
        None => Err(err_missing_attr()),
    }
}

spec fn iframe_acc_of(
    bandwidth: Option<u64>,
    average_bandwidth: Option<u64>,
    codecs: Option<String>,
    resolution: Option<String>,
    hdcp_level: Option<HdcpLevel>,
    video: Option<String>,
    uri: Option<String>,
) -> IFrameAcc {
    IFrameAcc {
        bandwidth: bandwidth,
        average_bandwidth: average_bandwidth,
        codecs: opt_view(codecs),
        resolution: opt_view(resolution),
        hdcp_level: hdcp_level,
        video: opt_view(video),
        uri: opt_view(uri),
    }
}

fn decode_iframe_attrs(attrs: &Vec<Attribute>) -> (r: Result<IFrameStreamInfAttributes, Error>)
    ensures
        ({
            let views = attrs@.map_values(|a: Attribute| a@);
            match r {
                Ok(v) => iframe_attrs_spec(views) == Ok::<
                    IFrameStreamInfAttributesModel,
                    ErrorModel,
                >(v@),
                Err(e) => iframe_attrs_spec(views) == Err::<
                    IFrameStreamInfAttributesModel,
                    ErrorModel,
                >(e@),
            }
        }),
{
    let ghost views = attrs@.map_values(|a: Attribute| a@);
    let mut bandwidth: Option<u64> = None;
    let mut average_bandwidth: Option<u64> = None;
    let mut codecs: Option<String> = None;
    let mut resolution: Option<String> = None;
    let mut hdcp_level: Option<HdcpLevel> = None;
    let mut video: Option<String> = None;
    let mut uri: Option<String> = None;
    let mut i: usize = 0;
    proof {
        assert(views.skip(0) =~= views);
    }
    while i < attrs.len()
        invariant
            i <= views.len(),
            views == attrs@.map_values(|a: Attribute| a@),
            attrs@.len() == views.len(),
            iframe_fold(views, iframe_acc_empty()) == iframe_fold(
                views.skip(i as int),
                iframe_acc_of(
                    bandwidth,
                    average_bandwidth,
                    codecs,
                    resolution,
                    hdcp_level,
                    video,
                    uri,
                ),
            ),
        decreases views.len() - i,
    {
        let ghost acc_pre = iframe_acc_of(
            bandwidth,
            average_bandwidth,
            codecs,
            resolution,
            hdcp_level,
            video,
            uri,
        );
        let a = &attrs[i];
        proof {
            assert(a@ == views[i as int]);
            assert(views.skip(i as int)[0] == views[i as int]);
            assert(views.skip(i as int).skip(1) =~= views.skip(i as int + 1));
        }
        if str_eq(a.name.as_str(), "BANDWIDTH") {
            match decode_int_attr(&a.value) {
                Ok(n) => {
                    bandwidth = Some(n);
                },
                Err(e) => {
                    return Err(e);
                },
            }
        } else if str_eq(a.name.as_str(), "AVERAGE-BANDWIDTH") {
            match decode_int_attr(&a.value) {
                Ok(n) => {
                    average_bandwidth = Some(n);
                },
                Err(e) => {
                    return Err(e);
                },
            }
        } else if str_eq(a.name.as_str(), "CODECS") {
            match decode_quoted_attr(&a.value) {
                Ok(s) => {
                    codecs = Some(s);
                },
                Err(e) => {
                    return Err(e);
                },
            }
        } else if str_eq(a.name.as_str(), "RESOLUTION") {
            match decode_resolution_attr(&a.value) {
                Ok(s) => {
                    resolution = Some(s);
                },
                Err(e) => {
                    return Err(e);
                },
            }
        } else if str_eq(a.name.as_str(), "HDCP-LEVEL") {
            match decode_hdcp_attr(&a.value) {
                Ok(h) => {
                    hdcp_level = Some(h);
                },
                Err(e) => {
                    return Err(e);
                },
            }
        } else if str_eq(a.name.as_str(), "VIDEO") {
            match decode_quoted_attr(&a.value) {
                Ok(s) => {
                    video = Some(s);
                },
                Err(e) => {
                    return Err(e);
                },
            }
        } else if str_eq(a.name.as_str(), "URI") {
            match decode_quoted_attr(&a.value) {
                Ok(s) => {
                    uri = Some(s);
                },
                Err(e) => {
                    return Err(e);
                },
            }
        }
        proof {
            let acc_new = iframe_acc_of(
                bandwidth,
                average_bandwidth,
                codecs,
                resolution,
                hdcp_level,
                video,
                uri,
            );
            assert(iframe_step(acc_pre, views[i as int]) == Ok::<IFrameAcc, ErrorModel>(acc_new));
        }
        i += 1;
    }
    proof {
        assert(views.skip(views.len() as int) =~= Seq::<AttributeModel>::empty());
    }
    if bandwidth.is_none() || uri.is_none() {
        return Err(err_missing_attr());
    }
    let bw = match bandwidth {
        Some(b) => b,
        None => {
            return Err(err_missing_attr());
        },
    };
    let u = match uri {
        Some(u) => u,
        None => {
            return Err(err_missing_attr());
        },
    };
    Ok(
        IFrameStreamInfAttributes {
            bandwidth: bw,
            average_bandwidth,
            codecs,
            resolution,
            hdcp_level,
            video,
            uri: u,
        },
    )
}

spec fn map_acc_of(uri: Option<String>, byterange: Option<String>) -> MapAcc {
    MapAcc { uri: opt_view(uri), byterange: opt_view(byterange) }
}

fn decode_map_attrs(attrs: &Vec<Attribute>) -> (r: Result<MapAttributes, Error>)
    ensures
        ({
            let views = attrs@.map_values(|a: Attribute| a@);
            match r {
                Ok(m) => map_attrs_spec(views) == Ok::<MapAttributesModel, ErrorModel>(m@),
                Err(e) => map_attrs_spec(views) == Err::<MapAttributesModel, ErrorModel>(e@),
            }
        }),
{
    let ghost views = attrs@.map_values(|a: Attribute| a@);
    let mut uri: Option<String> = None;
    let mut byterange: Option<String> = None;
    let mut i: usize = 0;
    proof {
        assert(views.skip(0) =~= views);
    }
    while i < attrs.len()
        invariant
            i <= views.len(),
            views == attrs@.map_values(|a: Attribute| a@),
            attrs@.len() == views.len(),
            map_fold(views, map_acc_empty()) == map_fold(
                views.skip(i as int),
                map_acc_of(uri, byterange),
            ),
        decreases views.len() - i,
    {
        let ghost acc_pre = map_acc_of(uri, byterange);
        let a = &attrs[i];
        proof {
            assert(a@ == views[i as int]);
            assert(views.skip(i as int)[0] == views[i as int]);
            assert(views.skip(i as int).skip(1) =~= views.skip(i as int + 1));
        }
        if str_eq(a.name.as_str(), "URI") {
            match decode_quoted_attr(&a.value) {
                Ok(s) => {
                    uri = Some(s);
                },
                Err(e) => {
                    return Err(e);
                },
            }
        } else if str_eq(a.name.as_str(), "BYTERANGE") {
            match decode_quoted_attr(&a.value) {
                Ok(s) => {
                    byterange = Some(s);
                },
                Err(e) => {
                    return Err(e);
                },
            }
        }
        proof {
            let acc_new = map_acc_of(uri, byterange);
            assert(map_step(acc_pre, views[i as int]) == Ok::<MapAcc, ErrorModel>(acc_new));
        }
        i += 1;
    }
    proof {
        assert(views.skip(views.len() as int) =~= Seq::<AttributeModel>::empty());
    }
    match uri {
        Some(u) => Ok(MapAttributes { uri: u, byterange }),
        None => Err(err_missing_attr()),
    }
}

fn decode_attr_tag(name: String, attrs: Vec<Attribute>) -> (r: Result<Tag, Error>)
    ensures
        ({
            let views = attrs@.map_values(|a: Attribute| a@);
            match r {
                Ok(t) => bind_attr_tag(name@, views) == Ok::<TagModel, ErrorModel>(t@),
                Err(e) => bind_attr_tag(name@, views) == Err::<TagModel, ErrorModel>(e@),
            }
        }),
{
    if str_eq(name.as_str(), "EXT-X-KEY") {
        match decode_key_attrs(&attrs) {
            Ok(k) => Ok(Tag::Key(k)),
            Err(e) => Err(e),
        }
    } else if str_eq(name.as_str(), "EXT-X-MEDIA") {
        match decode_media_attrs(&attrs) {
            Ok(m) => Ok(Tag::Media(m)),
            Err(e) => Err(e),
        }
    } else if str_eq(name.as_str(), "EXT-X-STREAM-INF") {
        match decode_stream_inf_attrs(&attrs) {
            Ok(v) => Ok(Tag::StreamInf(v)),
            Err(e) => Err(e),
        }
    } else if str_eq(name.as_str(), "EXT-X-I-FRAME-STREAM-INF") {
        match decode_iframe_attrs(&attrs) {
            Ok(v) => Ok(Tag::IFrameStreamInf(v)),
            Err(e) => Err(e),
        }
    } else if str_eq(name.as_str(), "EXT-X-MAP") {
        match decode_map_attrs(&attrs) {
            Ok(m) => Ok(Tag::InitMap(m)),
            Err(e) => Err(e),
        }
    } else if is_known_tag_exec(name.as_str()) {
        Err(err_bad_tag_args())
    } else {
        Ok(Tag::Unknown { name, args: TagArgs::Attributes(attrs) })
    }
}

fn collect_attrs_exec(nodes: &Vec<Node>, from: usize) -> (r: Result<(Vec<Attribute>, usize), Error>)
    requires
        from <= nodes@.len(),
    ensures
        ({
            let ns = nodes@.map_values(|n: Node| n@);
            match r {
                Ok((attrs, e)) => collect_attrs(ns, from as int) == Ok::<
                    (Seq<AttributeModel>, int),
                    ErrorModel,
                >((attrs@.map_values(|a: Attribute| a@), e as int)) && e <= nodes@.len(),
                Err(e) => collect_attrs(ns, from as int) matches Err(em) && em == e@,
            }
        }),
{
    let ghost ns = nodes@.map_values(|n: Node| n@);
    let mut acc: Vec<Attribute> = Vec::new();
    let mut cur: usize = from;
    proof {
        assert(acc@.map_values(|a: Attribute| a@) =~= Seq::<AttributeModel>::empty());
    }
    loop
        invariant
            from <= cur <= ns.len(),
            ns == nodes@.map_values(|n: Node| n@),
            nodes@.len() == ns.len(),
            ({
                let views = acc@.map_values(|a: Attribute| a@);
                match collect_attrs(ns, cur as int) {
                    Ok((rest, j)) => collect_attrs(ns, from as int) == Ok::<
                        (Seq<AttributeModel>, int),
                        ErrorModel,
                    >((views + rest, j)),
                    Err(e) => collect_attrs(ns, from as int) == Err::<
                        (Seq<AttributeModel>, int),
                        ErrorModel,
                    >(e),
                }
            }),
        decreases ns.len() - cur,
    {
        if cur >= nodes.len() {
            return Err(Error::UnexpectedEof);
        }
        let node = &nodes[cur];
        proof {
            assert(node@ == ns[cur as int]);
        }
        match node {
            Node::AttributesEnd => {
                proof {
                    let views = acc@.map_values(|a: Attribute| a@);
                    assert(views + Seq::<AttributeModel>::empty() =~= views);
                }
                return Ok((acc, cur + 1));
            },
            Node::AttributeName(name) => {
                if cur + 1 >= nodes.len() {
                    return Err(Error::UnexpectedEof);
                }
                let next = &nodes[cur + 1];
                proof {
                    assert(next@ == ns[cur as int + 1]);
                }
                match next {
                    Node::AttributeValue(v) => {
                        let ghost old_views = acc@.map_values(|a: Attribute| a@);
                        let a = Attribute { name: name.clone(), value: v.duplicate() };
                        let ghost av = a@;
                        acc.push(a);
                        proof {
                            let views = acc@.map_values(|x: Attribute| x@);
                            assert(views =~= old_views.push(av));
                            match collect_attrs(ns, cur as int + 2) {
                                Ok((rest2, j2)) => {
                                    let (rest, j) = collect_attrs(ns, cur as int)->Ok_0;
                                    assert(rest =~= seq![av] + rest2);
                                    assert(old_views + rest =~= views + rest2);
                                },
                                Err(e) => {},
                            }
                        }
                        cur = cur + 2;
                    },
                    _ => {
                        return Err(err_unexpected_node());
                    },
                }
            },
            _ => {
                return Err(err_unexpected_node());
            },
        }
    }
}

/// Decode one tag beginning at its `TagName` node.
fn decode_tag(nodes: &Vec<Node>, from: usize) -> (r: Result<(Tag, usize), Error>)
    requires
        from <= nodes@.len(),
    ensures
        ({
            let ns = nodes@.map_values(|n: Node| n@);
            match r {
                Ok((t, e)) => decode_tag_at(ns, from as int) == Ok::<(TagModel, int), ErrorModel>(
                    (t@, e as int),
                ) && from < e <= nodes@.len(),
                Err(e) => decode_tag_at(ns, from as int) matches Err(em) && em == e@,
            }
        }),
{
    let ghost ns = nodes@.map_values(|n: Node| n@);
    if from >= nodes.len() {
        return Err(Error::UnexpectedEof);
    }
    let node = &nodes[from];
    proof {
        assert(node@ == ns[from as int]);
    }
    let name: String = match node {
        Node::TagName(s) => s.clone(),
        _ => {
            return Err(err_unexpected_node());
        },
    };
    if from + 1 >= nodes.len() {
        return Err(Error::UnexpectedEof);
    }
    let next = &nodes[from + 1];
    proof {
        assert(next@ == ns[from as int + 1]);
    }
    match next {
        Node::Integer(n) => {
            match decode_int_tag(name, *n) {
                Ok(t) => Ok((t, from + 2)),
                Err(e) => Err(e),
            }
        },
        Node::Float(f) => {
            match decode_float_tag(name, FloatLit { text: f.text.clone() }) {
                Ok(t) => Ok((t, from + 2)),
                Err(e) => Err(e),
            }
        },
        Node::Str(s) => {
            match decode_str_tag(name, s.clone()) {
                Ok(t) => Ok((t, from + 2)),
                Err(e) => Err(e),
            }
        },
        Node::AttributesStart => {
            proof {
                lemma_collect_attrs_ends(ns, from as int + 2);
            }
            match collect_attrs_exec(nodes, from + 2) {
                Ok((attrs, j)) => {
                    match decode_attr_tag(name, attrs) {
                        Ok(t) => Ok((t, j)),
                        Err(e) => Err(e),
                    }
                },
                Err(e) => Err(e),
            }
        },
        _ => {
            match decode_unit_tag(name) {
                Ok(t) => Ok((t, from + 1)),
                Err(e) => Err(e),
            }
        },
    }
}

/// Decode a whole token stream into typed lines.
pub fn decode(nodes: &Vec<Node>) -> (r: Result<Vec<Line>, Error>)
    ensures
        ({
            let ns = nodes@.map_values(|n: Node| n@);
            match r {
                Ok(v) => decode_nodes_spec(ns) == Ok::<Seq<LineModel>, ErrorModel>(
                    v@.map_values(|l: Line| l@),
                ),
                Err(e) => decode_nodes_spec(ns) matches Err(em) && em == e@,
            }
        }),
{
    let ghost ns = nodes@.map_values(|n: Node| n@);
    if nodes.len() == 0 {
        return Err(Error::UnexpectedEof);
    }
    match &nodes[0] {
        Node::ManifestStart => {},
        _ => {
            proof {
                assert(ns[0] == nodes@[0]@);
            }
            return Err(err_unexpected_node());
        },
    }
    proof {
        assert(ns[0] == nodes@[0]@);
    }
    let mut out: Vec<Line> = Vec::new();
    let mut cur: usize = 1;
    proof {
        assert(out@.map_values(|l: Line| l@) =~= Seq::<LineModel>::empty());
        match decode_lines(ns, 1) {
            Ok(rest) => {
                assert(Seq::<LineModel>::empty() + rest =~= rest);
            },
            Err(e) => {},
        }
    }
    loop
        invariant
            1 <= cur <= ns.len(),
            ns == nodes@.map_values(|n: Node| n@),
            nodes@.len() == ns.len(),
            ns.len() > 0,
            ns[0] == NodeModel::ManifestStart,
            ({
                let views = out@.map_values(|l: Line| l@);
                match decode_lines(ns, cur as int) {
                    Ok(rest) => decode_lines(ns, 1) == Ok::<Seq<LineModel>, ErrorModel>(
                        views + rest,
                    ),
                    Err(e) => decode_lines(ns, 1) == Err::<Seq<LineModel>, ErrorModel>(e),
                }
            }),
        decreases ns.len() - cur,
    {
        if cur >= nodes.len() {
            return Err(Error::UnexpectedEof);
        }
        let node = &nodes[cur];
        proof {
            assert(node@ == ns[cur as int]);
        }
        match node {
            Node::ManifestEnd => {
                proof {
                    let views = out@.map_values(|l: Line| l@);
                    assert(views + Seq::<LineModel>::empty() =~= views);
                }
                return Ok(out);
            },
            Node::Uri(u) => {
                let ghost old_views = out@.map_values(|l: Line| l@);
                out.push(Line::Uri(u.clone()));
                proof {
                    let views = out@.map_values(|l: Line| l@);
                    assert(views =~= old_views.push(LineModel::Uri(u@)));
                    match decode_lines(ns, cur as int + 1) {
                        Ok(rest2) => {
                            let rest = decode_lines(ns, cur as int)->Ok_0;
                            assert(rest =~= seq![LineModel::Uri(u@)] + rest2);
                            assert(old_views + rest =~= views + rest2);
                        },
                        Err(e) => {},
                    }
                }
                cur = cur + 1;
            },
            Node::TagStart => {
                match decode_tag(nodes, cur + 1) {
                    Ok((tag, j)) => {
                        let ghost old_views = out@.map_values(|l: Line| l@);
                        let ghost tv = tag@;
                        out.push(Line::Tag(tag));
                        proof {
                            let views = out@.map_values(|l: Line| l@);
                            assert(views =~= old_views.push(LineModel::Tag(tv)));
                            match decode_lines(ns, j as int) {
                                Ok(rest2) => {
                                    let rest = decode_lines(ns, cur as int)->Ok_0;
                                    assert(rest =~= seq![LineModel::Tag(tv)] + rest2);
                                    assert(old_views + rest =~= views + rest2);
                                },
                                Err(e) => {},
                            }
                        }
                        cur = j;
                    },
                    Err(e) => {
                        return Err(e);
                    },
                }
            },
            _ => {
                return Err(err_unexpected_node());
            },
        }
    }
}

/// What parsing and decoding a whole playlist text yields.
pub open spec fn spec_from_str(s: Seq<char>) -> Result<Seq<LineModel>, ErrorModel> {
    match crate::lexer::spec_parse_manifest(s) {
        Some(lines) => decode_nodes_spec(crate::nodes::manifest_nodes(lines)),
        None => Err(ErrorModel::Syntax),
    }
}

/// Parse and decode a playlist: text to typed lines.
pub fn from_str(s: &str) -> (r: Result<Vec<Line>, Error>)
    ensures
        match r {
            Ok(v) => spec_from_str(s@) == Ok::<Seq<LineModel>, ErrorModel>(
                v@.map_values(|l: Line| l@),
            ),
            Err(e) => spec_from_str(s@) matches Err(em) && em == e@,
        },
{
    let m = match crate::lexer::Manifest::parse(s) {
        Ok(m) => m,
        Err(e) => {
            return Err(e);
        },
    };
    let nodes = m.nodes();
    decode(&nodes)
}

} // verus!
