//! Whole-playlist views: a master manifest of variants and tracks, or a
//! media manifest of segments, folded from the decoded lines.
//!
//! Unknown or out-of-place tags are skipped, never fatal; a segment URI
//! without a preceding `EXTINF` and a missing `EXT-X-TARGETDURATION` are
//! the two hard errors of a media playlist.

use vstd::prelude::*;
use vstd::string::*;
use crate::lexer::{parse_resolution, FloatLit};
use crate::manifest::{
    opt_float_view, opt_view, EncryptionMethod, HdcpLevel, IFrameStreamInfAttributesModel,
    KeyAttributesModel, Line, LineModel, MediaAttributesModel, MediaType, PlaylistType,
    StreamInfAttributesModel, Tag, TagModel,
};
use crate::text::str_eq;
use crate::Resolution;

verus! {

/// Why a playlist could not be assembled from its lines.
#[derive(Debug, Clone, PartialEq, Eq)]
pub enum ParseError {
    MissingAttribute(String),
    MissingExtInf,
    MissingHeader,
    MultipleHeaders,
    InvalidAttrType(String),
    InvalidDateTime(String),
}

pub enum ParseErrorModel {
    MissingAttribute(Seq<char>),
    MissingExtInf,
    MissingHeader,
    MultipleHeaders,
    InvalidAttrType(Seq<char>),
    InvalidDateTime(Seq<char>),
}

impl View for ParseError {
    type V = ParseErrorModel;

    open spec fn view(&self) -> ParseErrorModel {
        match self {
            ParseError::MissingAttribute(s) => ParseErrorModel::MissingAttribute(s@),
            ParseError::MissingExtInf => ParseErrorModel::MissingExtInf,
            ParseError::MissingHeader => ParseErrorModel::MissingHeader,
            ParseError::MultipleHeaders => ParseErrorModel::MultipleHeaders,
            ParseError::InvalidAttrType(s) => ParseErrorModel::InvalidAttrType(s@),
            ParseError::InvalidDateTime(s) => ParseErrorModel::InvalidDateTime(s@),
        }
    }
}

/// What a track carries media of.
#[derive(Debug, Clone, Copy, PartialEq, Eq, Structural)]
pub enum TrackType {
    Audio,
    ClosedCaptions,
    Subtitles,
    Video,
}

/// Which kind of playlist a document is.
#[derive(Debug, Clone, Copy, PartialEq, Eq, Structural)]
pub enum ManfiestType {
    Master,
    Media,
}

/// Whether an RFC 3339 date-time string parses.  Relies on chrono's
/// `DateTime::parse_from_rfc3339`, whose outcome depends on the text
/// alone.
pub uninterp spec fn rfc3339_parses(s: Seq<char>) -> bool;

/// Relies on chrono's `DateTime::parse_from_rfc3339`: validates the
/// date-time strings of `EXT-X-PROGRAM-DATE-TIME` tags.
#[verifier::external_body]
fn is_rfc3339(s: &str) -> (r: bool)
    ensures
        r == rfc3339_parses(s@),
{
    chrono::DateTime::parse_from_rfc3339(s).is_ok()
}

/// An encryption key in force, with the record defaults applied.
#[derive(Debug, Clone, PartialEq, Eq)]
pub struct EncryptionKey {
    pub method: EncryptionMethod,
    pub uri: Option<String>,
    pub iv: Option<Vec<u8>>,
    pub key_format: String,
    pub key_format_versions: String,
}

pub struct EncryptionKeyModel {
    pub method: EncryptionMethod,
    pub uri: Option<Seq<char>>,
    pub iv: Option<Seq<u8>>,
    pub key_format: Seq<char>,
    pub key_format_versions: Seq<char>,
}

impl View for EncryptionKey {
    type V = EncryptionKeyModel;

    open spec fn view(&self) -> EncryptionKeyModel {
        EncryptionKeyModel {
            method: self.method,
            uri: opt_view(self.uri),
            iv: match self.iv {
                Some(v) => Some(v@),
                None => None,
            },
            key_format: self.key_format@,
            key_format_versions: self.key_format_versions@,
        }
    }
}

/// The key an `EXT-X-KEY` record stands for: `KEYFORMAT` defaults to
/// `identity` and `KEYFORMATVERSIONS` to `1`.
pub open spec fn spec_key_of(k: KeyAttributesModel) -> EncryptionKeyModel {
    EncryptionKeyModel {
        method: k.method,
        uri: k.uri,
        iv: k.iv,
        key_format: match k.keyformat {
            Some(f) => f,
            None => "identity"@,
        },
        key_format_versions: match k.keyformatversions {
            Some(f) => f,
            None => "1"@,
        },
    }
}

/// Where the first key with a given format sits.
pub open spec fn find_key_format(keys: Seq<EncryptionKeyModel>, fmt: Seq<char>) -> Option<int>
    decreases keys.len(),
{
    if keys.len() == 0 {
        None
    } else if keys[0].key_format == fmt {
        Some(0int)
    } else {
        match find_key_format(keys.skip(1), fmt) {
            Some(i) => Some(i + 1),
            None => None,
        }
    }
}

/// Adding a key replaces the key of the same format, if any.
pub open spec fn spec_add_key(keys: Seq<EncryptionKeyModel>, k: EncryptionKeyModel) -> Seq<
    EncryptionKeyModel,
> {
    match find_key_format(keys, k.key_format) {
        Some(i) => keys.remove(i).push(k),
        None => keys.push(k),
    }
}

/// One media segment.
#[derive(Debug, Clone, PartialEq, Eq)]
pub struct Segment {
    pub date_time: Option<String>,
    pub discontinuity: bool,
    pub duration: FloatLit,
    pub init_byte_range: Option<String>,
    pub init_uri: Option<String>,
    pub keys: Vec<EncryptionKey>,
    pub uri: String,
}

pub struct SegmentModel {
    pub date_time: Option<Seq<char>>,
    pub discontinuity: bool,
    pub duration: Seq<char>,
    pub init_byte_range: Option<Seq<char>>,
    pub init_uri: Option<Seq<char>>,
    pub keys: Seq<EncryptionKeyModel>,
    pub uri: Seq<char>,
}

impl View for Segment {
    type V = SegmentModel;

    open spec fn view(&self) -> SegmentModel {
        SegmentModel {
            date_time: opt_view(self.date_time),
            discontinuity: self.discontinuity,
            duration: self.duration@,
            init_byte_range: opt_view(self.init_byte_range),
            init_uri: opt_view(self.init_uri),
            keys: self.keys@.map_values(|k: EncryptionKey| k@),
            uri: self.uri@,
        }
    }
}

/// The rolling state between segments: what the tags before a URI line
/// say about it.
#[derive(Debug, Clone, PartialEq, Eq)]
pub struct SegmentContext {
    pub date_time: Option<String>,
    pub discontinuity: bool,
    pub duration: Option<FloatLit>,
    pub init_byte_range: Option<String>,
    pub init_uri: Option<String>,
    pub keys: Vec<EncryptionKey>,
}

pub struct SegmentContextModel {
    pub date_time: Option<Seq<char>>,
    pub discontinuity: bool,
    pub duration: Option<Seq<char>>,
    pub init_byte_range: Option<Seq<char>>,
    pub init_uri: Option<Seq<char>>,
    pub keys: Seq<EncryptionKeyModel>,
}

impl View for SegmentContext {
    type V = SegmentContextModel;

    open spec fn view(&self) -> SegmentContextModel {
        SegmentContextModel {
            date_time: opt_view(self.date_time),
            discontinuity: self.discontinuity,
            duration: opt_float_view(self.duration),
            init_byte_range: opt_view(self.init_byte_range),
            init_uri: opt_view(self.init_uri),
            keys: self.keys@.map_values(|k: EncryptionKey| k@),
        }
    }
}

pub open spec fn spec_context_empty() -> SegmentContextModel {
    SegmentContextModel {
        date_time: None,
        discontinuity: false,
        duration: None,
        init_byte_range: None,
        init_uri: None,
        keys: Seq::empty(),
    }
}

/// After a segment is cut, the per-segment fields clear; the keys and
/// the initialisation map stay in force.
pub open spec fn spec_context_reset(c: SegmentContextModel) -> SegmentContextModel {
    SegmentContextModel { date_time: None, discontinuity: false, duration: None, ..c }
}

impl SegmentContext {
    /// An empty context: nothing seen since the last segment.
    pub fn new() -> (r: SegmentContext)
        ensures
            r@ == spec_context_empty(),
    {
        let r = SegmentContext {
            date_time: None,
            discontinuity: false,
            duration: None,
            init_byte_range: None,
            init_uri: None,
            keys: Vec::new(),
        };
        proof {
            assert(r@.keys =~= spec_context_empty().keys);
        }
        r
    }

    /// Add a key, replacing any earlier key of the same format.
    pub fn add_key(&mut self, key: EncryptionKey)
        ensures
            final(self)@ == (SegmentContextModel {
                keys: spec_add_key(old(self)@.keys, key@),
                ..old(self)@
            }),
    {
        let ghost keys0 = self@.keys;
        let ghost kv = key@;
        let mut i: usize = 0;
        let mut found: Option<usize> = None;
        while i < self.keys.len()
            invariant
                i <= self.keys@.len(),
                kv == key@,
                keys0 == self.keys@.map_values(|k: EncryptionKey| k@),
                *self == *old(self),
                match found {
                    Some(j) => j < i && find_key_format(keys0, kv.key_format) == Some(j as int),
                    None => forall|j: int| 0 <= j < i ==> keys0[j].key_format != kv.key_format,
                },
            decreases self.keys@.len() - i,
        {
            proof {
                assert(keys0[i as int] == self.keys@[i as int]@);
            }
            let entry = &self.keys[i];
            let same = str_eq(entry.key_format.as_str(), key.key_format.as_str());
            proof {
                assert(entry@ == keys0[i as int]);
                assert(same == (entry.key_format@ == key.key_format@));
                assert(entry@.key_format == entry.key_format@);
                assert(kv.key_format == key.key_format@);
                assert(same == (keys0[i as int].key_format == kv.key_format));
            }
            if found.is_none() && same {
                found = Some(i);
                proof {
                    lemma_find_key_format_at(keys0, kv.key_format, i as int);
                }
            }
            i += 1;
        }
        match found {
            Some(j) => {
                self.keys.remove(j);
                self.keys.push(key);
                proof {
                    assert(self.keys@.map_values(|k: EncryptionKey| k@) =~= keys0.remove(
                        j as int,
                    ).push(kv));
                }
            },
            None => {
                self.keys.push(key);
                proof {
                    lemma_find_key_format_none(keys0, kv.key_format);
                    assert(self.keys@.map_values(|k: EncryptionKey| k@) =~= keys0.push(kv));
                }
            },
        }
    }

    /// Clear the per-segment fields after a segment is cut.
    pub fn reset(&mut self)
        ensures
            final(self)@ == spec_context_reset(old(self)@),
    {
        self.duration = None;
        self.date_time = None;
        self.discontinuity = false;
    }
}

proof fn lemma_find_key_format_at(keys: Seq<EncryptionKeyModel>, fmt: Seq<char>, j: int)
    requires
        0 <= j < keys.len(),
        keys[j].key_format == fmt,
        forall|i: int| 0 <= i < j ==> keys[i].key_format != fmt,
    ensures
        find_key_format(keys, fmt) == Some(j),
    decreases j,
{
    if j > 0 {
        assert(keys.skip(1)[j - 1] == keys[j]);
        assert(forall|i: int| 0 <= i < j - 1 ==> keys.skip(1)[i] == keys[i + 1]);
        lemma_find_key_format_at(keys.skip(1), fmt, j - 1);
    }
}

proof fn lemma_find_key_format_none(keys: Seq<EncryptionKeyModel>, fmt: Seq<char>)
    requires
        forall|i: int| 0 <= i < keys.len() ==> keys[i].key_format != fmt,
    ensures
        find_key_format(keys, fmt) is None,
    decreases keys.len(),
{
    if keys.len() > 0 {
        assert(forall|i: int| 0 <= i < keys.skip(1).len() ==> keys.skip(1)[i] == keys[i + 1]);
        lemma_find_key_format_none(keys.skip(1), fmt);
    }
}

/// A media playlist: an ordered list of segments with its header fields.
#[derive(Debug, Clone, PartialEq, Eq)]
pub struct MediaManifest {
    pub discontinuity_sequence: u64,
    pub end_list: bool,
    pub first_segment_sequence: u64,
    pub iframes_only: bool,
    pub playlist_type: Option<PlaylistType>,
    pub segments: Vec<Segment>,
    pub target_duration: u64,
    pub version: u64,
}

pub struct MediaManifestModel {
    pub discontinuity_sequence: u64,
    pub end_list: bool,
    pub first_segment_sequence: u64,
    pub iframes_only: bool,
    pub playlist_type: Option<PlaylistType>,
    pub segments: Seq<SegmentModel>,
    pub target_duration: u64,
    pub version: u64,
}

impl View for MediaManifest {
    type V = MediaManifestModel;

    open spec fn view(&self) -> MediaManifestModel {
        MediaManifestModel {
            discontinuity_sequence: self.discontinuity_sequence,
            end_list: self.end_list,
            first_segment_sequence: self.first_segment_sequence,
            iframes_only: self.iframes_only,
            playlist_type: self.playlist_type,
            segments: self.segments@.map_values(|s: Segment| s@),
            target_duration: self.target_duration,
            version: self.version,
        }
    }
}

/// The rolling state of the media-manifest fold.
pub struct MediaFold {
    pub ctx: SegmentContextModel,
    pub segments: Seq<SegmentModel>,
    pub version: u64,
    pub discontinuity_sequence: u64,
    pub first_segment_sequence: u64,
    pub end_list: bool,
    pub target_duration: Option<u64>,
    pub playlist_type: Option<PlaylistType>,
    pub iframes_only: bool,
}

pub open spec fn media_fold_empty() -> MediaFold {
    MediaFold {
        ctx: spec_context_empty(),
        segments: Seq::empty(),
        version: 1,
        discontinuity_sequence: 0,
        first_segment_sequence: 0,
        end_list: false,
        target_duration: None,
        playlist_type: None,
        iframes_only: false,
    }
}

/// The segment a URI line cuts from the current context.
pub open spec fn spec_segment_of(c: SegmentContextModel, uri: Seq<char>, d: Seq<char>)
    -> SegmentModel {
    SegmentModel {
        date_time: c.date_time,
        discontinuity: c.discontinuity,
        duration: d,
        init_byte_range: c.init_byte_range,
        init_uri: c.init_uri,
        keys: c.keys,
        uri: uri,
    }
}

/// One line of a media playlist, applied to the fold state.
pub open spec fn media_step(st: MediaFold, line: LineModel) -> Result<MediaFold, ParseErrorModel> {
    match line {
        LineModel::Uri(u) => match st.ctx.duration {
            Some(d) => Ok(
                MediaFold {
                    segments: st.segments.push(spec_segment_of(st.ctx, u, d)),
                    ctx: spec_context_reset(st.ctx),
                    ..st
                },
            ),
            None => Err(ParseErrorModel::MissingExtInf),
        },
        LineModel::Tag(t) => match t {
            TagModel::M3u => Err(ParseErrorModel::MultipleHeaders),
            TagModel::Version(v) => Ok(MediaFold { version: v, ..st }),
            TagModel::Inf(d) => Ok(
                MediaFold { ctx: SegmentContextModel { duration: Some(d), ..st.ctx }, ..st },
            ),
            TagModel::InitMap(m) => Ok(
                MediaFold {
                    ctx: SegmentContextModel {
                        init_uri: Some(m.uri),
                        init_byte_range: m.byterange,
                        ..st.ctx
                    },
                    ..st
                },
            ),
            TagModel::Discontinuity => Ok(
                MediaFold { ctx: SegmentContextModel { discontinuity: true, ..st.ctx }, ..st },
            ),
            TagModel::Key(k) => Ok(
                MediaFold {
                    ctx: SegmentContextModel {
                        keys: spec_add_key(st.ctx.keys, spec_key_of(k)),
                        ..st.ctx
                    },
                    ..st
                },
            ),
            TagModel::ProgramDateTime(s) => if rfc3339_parses(s) {
                Ok(MediaFold { ctx: SegmentContextModel { date_time: Some(s), ..st.ctx }, ..st })
            } else {
                Err(ParseErrorModel::InvalidDateTime(s))
            },
            TagModel::DiscontinuitySequence(n) => Ok(
                MediaFold { discontinuity_sequence: n, ..st },
            ),
            TagModel::MediaSequence(n) => Ok(MediaFold { first_segment_sequence: n, ..st }),
            TagModel::EndList => Ok(MediaFold { end_list: true, ..st }),
            TagModel::TargetDuration(n) => Ok(MediaFold { target_duration: Some(n), ..st }),
            TagModel::PlaylistType(p) => Ok(MediaFold { playlist_type: Some(p), ..st }),
            TagModel::IFramesOnly => Ok(MediaFold { iframes_only: true, ..st }),
            _ => Ok(st),
        },
    }
}

pub open spec fn media_fold(lines: Seq<LineModel>, st: MediaFold) -> Result<
    MediaFold,
    ParseErrorModel,
>
    decreases lines.len(),
{
    if lines.len() == 0 {
        Ok(st)
    } else {
        match media_step(st, lines[0]) {
            Ok(st2) => media_fold(lines.skip(1), st2),
            Err(e) => Err(e),
        }
    }
}

/// What a media playlist's lines assemble to: the first line must be the
/// `EXTM3U` header, and `EXT-X-TARGETDURATION` must occur.
pub open spec fn spec_media_manifest(lines: Seq<LineModel>) -> Result<
    MediaManifestModel,
    ParseErrorModel,
> {
    if lines.len() == 0 || lines[0] != LineModel::Tag(TagModel::M3u) {
        Err(ParseErrorModel::MissingHeader)
    } else {
        match media_fold(lines.skip(1), media_fold_empty()) {
            Ok(st) => match st.target_duration {
                Some(td) => Ok(
                    MediaManifestModel {
                        discontinuity_sequence: st.discontinuity_sequence,
                        end_list: st.end_list,
                        first_segment_sequence: st.first_segment_sequence,
                        iframes_only: st.iframes_only,
                        playlist_type: st.playlist_type,
                        segments: st.segments,
                        target_duration: td,
                        version: st.version,
                    },
                ),
                None => Err(ParseErrorModel::MissingAttribute("TARGETDURATION"@)),
            },
            Err(e) => Err(e),
        }
    }
}

spec fn media_fold_of(
    ctx: SegmentContext,
    segments: Vec<Segment>,
    version: u64,
    discontinuity_sequence: u64,
    first_segment_sequence: u64,
    end_list: bool,
    target_duration: Option<u64>,
    playlist_type: Option<PlaylistType>,
    iframes_only: bool,
) -> MediaFold {
    MediaFold {
        ctx: ctx@,
        segments: segments@.map_values(|s: Segment| s@),
        version,
        discontinuity_sequence,
        first_segment_sequence,
        end_list,
        target_duration,
        playlist_type,
        iframes_only,
    }
}

impl MediaManifest {
    /// Assemble a media playlist from its decoded lines.
    pub fn from_ast(lines: &Vec<Line>) -> (r: Result<MediaManifest, ParseError>)
        ensures
            ({
                let views = lines@.map_values(|l: Line| l@);
                match r {
                    Ok(m) => spec_media_manifest(views) == Ok::<MediaManifestModel,
                        ParseErrorModel>(m@),
                    Err(e) => spec_media_manifest(views) == Err::<MediaManifestModel,
                        ParseErrorModel>(e@),
                }
            }),
    {
        let ghost views = lines@.map_values(|l: Line| l@);
        if lines.len() == 0 {
            return Err(ParseError::MissingHeader);
        }
        match &lines[0] {
            Line::Tag(Tag::M3u) => {},
            _ => {
                proof {
                    assert(views[0] == lines@[0]@);
                }
                return Err(ParseError::MissingHeader);
            },
        }
        proof {
            assert(views[0] == lines@[0]@);
        }
        let ghost rest = views.skip(1);
        let mut ctx = SegmentContext::new();
        let mut segments: Vec<Segment> = Vec::new();
        let mut version: u64 = 1;
        let mut discontinuity_sequence: u64 = 0;
        let mut first_segment_sequence: u64 = 0;
        let mut end_list: bool = false;
        let mut target_duration: Option<u64> = None;
        let mut playlist_type: Option<PlaylistType> = None;
        let mut iframes_only: bool = false;
        let mut i: usize = 1;
        proof {
            assert(segments@.map_values(|s: Segment| s@) =~= Seq::<SegmentModel>::empty());
            assert(rest.skip(0) =~= rest);
        }
        while i < lines.len()
            invariant
                1 <= i <= lines@.len(),
                views == lines@.map_values(|l: Line| l@),
                lines@.len() == views.len(),
                views.len() > 0,
                views[0] == LineModel::Tag(TagModel::M3u),
                rest == views.skip(1),
                media_fold(rest, media_fold_empty()) == media_fold(
                    rest.skip(i - 1),
                    media_fold_of(
                        ctx,
                        segments,
                        version,
                        discontinuity_sequence,
                        first_segment_sequence,
                        end_list,
                        target_duration,
                        playlist_type,
                        iframes_only,
                    ),
                ),
            decreases lines@.len() - i,
        {
            let ghost st_pre = media_fold_of(
                ctx,
                segments,
                version,
                discontinuity_sequence,
                first_segment_sequence,
                end_list,
                target_duration,
                playlist_type,
                iframes_only,
            );
            let line = &lines[i];
            proof {
                assert(line@ == views[i as int]);
                assert(rest.skip(i - 1)[0] == rest[i - 1]);
                assert(rest[i - 1] == views[i as int]);
                assert(rest.skip(i - 1).skip(1) =~= rest.skip(i as int));
            }
            match line {
                Line::Uri(u) => {
                    match &ctx.duration {
                        Some(d) => {
                            let seg = Segment {
                                date_time: match &ctx.date_time {
                                    Some(s) => Some(s.clone()),
                                    None => None,
                                },
                                discontinuity: ctx.discontinuity,
                                duration: FloatLit { text: d.text.clone() },
                                init_byte_range: match &ctx.init_byte_range {
                                    Some(s) => Some(s.clone()),
                                    None => None,
                                },
                                init_uri: match &ctx.init_uri {
                                    Some(s) => Some(s.clone()),
                                    None => None,
                                },
                                keys: duplicate_keys(&ctx.keys),
                                uri: u.clone(),
                            };
                            let ghost old_segs = segments@.map_values(|s: Segment| s@);
                            proof {
                                assert(seg@ == spec_segment_of(ctx@, u@, d@));
                            }
                            segments.push(seg);
                            proof {
                                assert(segments@.map_values(|s: Segment| s@) =~= old_segs.push(
                                    spec_segment_of(st_pre.ctx, u@, d@),
                                ));
                            }
                            ctx.reset();
                        },
                        None => {
                            proof {
                                assert(media_fold(rest.skip(i - 1), st_pre) == Err::<
                                    MediaFold,
                                    ParseErrorModel,
                                >(ParseErrorModel::MissingExtInf));
                            }
                            return Err(ParseError::MissingExtInf);
                        },
                    }
                },
                Line::Tag(t) => {
                    match t {
                        Tag::M3u => {
                            proof {
                                assert(media_fold(rest.skip(i - 1), st_pre) == Err::<
                                    MediaFold,
                                    ParseErrorModel,
                                >(ParseErrorModel::MultipleHeaders));
                            }
                            return Err(ParseError::MultipleHeaders);
                        },
                        Tag::Version(v) => {
                            version = *v;
                        },
                        Tag::Inf(d) => {
                            ctx.duration = Some(FloatLit { text: d.text.clone() });
                        },
                        Tag::InitMap(m) => {
                            ctx.init_uri = Some(m.uri.clone());
                            ctx.init_byte_range = match &m.byterange {
                                Some(s) => Some(s.clone()),
                                None => None,
                            };
                        },
                        Tag::Discontinuity => {
                            ctx.discontinuity = true;
                        },
                        Tag::Key(k) => {
                            let key = EncryptionKey {
                                method: k.method,
                                uri: match &k.uri {
                                    Some(s) => Some(s.clone()),
                                    None => None,
                                },
                                iv: match &k.iv {
                                    Some(v) => Some(duplicate_bytes(v)),
                                    None => None,
                                },
                                key_format: match &k.keyformat {
                                    Some(s) => s.clone(),
                                    None => String::from_str("identity"),
                                },
                                key_format_versions: match &k.keyformatversions {
                                    Some(s) => s.clone(),
                                    None => String::from_str("1"),
                                },
                            };
                            proof {
                                assert(key@ == spec_key_of(k@));
                            }
                            ctx.add_key(key);
                        },
                        Tag::ProgramDateTime(s) => {
                            if is_rfc3339(s.as_str()) {
                                ctx.date_time = Some(s.clone());
                            } else {
                                proof {
                                    assert(media_fold(rest.skip(i - 1), st_pre) == Err::<
                                        MediaFold,
                                        ParseErrorModel,
                                    >(ParseErrorModel::InvalidDateTime(s@)));
                                }
                                return Err(ParseError::InvalidDateTime(s.clone()));
                            }
                        },
                        Tag::DiscontinuitySequence(n) => {
                            discontinuity_sequence = *n;
                        },
                        Tag::MediaSequence(n) => {
                            first_segment_sequence = *n;
                        },
                        Tag::EndList => {
                            end_list = true;
                        },
                        Tag::TargetDuration(n) => {
                            target_duration = Some(*n);
                        },
                        Tag::PlaylistType(p) => {
                            playlist_type = Some(*p);
                        },
                        Tag::IFramesOnly => {
                            iframes_only = true;
                        },
                        _ => {},
                    }
                },
            }
            proof {
                let st_new = media_fold_of(
                    ctx,
                    segments,
                    version,
                    discontinuity_sequence,
                    first_segment_sequence,
                    end_list,
                    target_duration,
                    playlist_type,
                    iframes_only,
                );
                assert(media_step(st_pre, views[i as int]) == Ok::<MediaFold, ParseErrorModel>(
                    st_new,
                ));
            }
            i += 1;
        }
        proof {
            assert(rest.skip(views.len() - 1) =~= Seq::<LineModel>::empty());
        }
        let td = match target_duration {
            Some(td) => td,
            None => {
                return Err(ParseError::MissingAttribute(String::from_str("TARGETDURATION")));
            },
        };
        Ok(
            MediaManifest {
                discontinuity_sequence,
                end_list,
                first_segment_sequence,
                iframes_only,
                playlist_type,
                segments,
                target_duration: td,
                version,
            },
        )
    }
}

fn duplicate_bytes(v: &Vec<u8>) -> (r: Vec<u8>)
    ensures
        r@ == v@,
{
    let mut out: Vec<u8> = Vec::new();
    let mut i: usize = 0;
    while i < v.len()
        invariant
            i <= v@.len(),
            out@ =~= v@.take(i as int),
        decreases v@.len() - i,
    {
        out.push(v[i]);
        proof {
            assert(v@.take(i as int + 1) =~= v@.take(i as int).push(v@[i as int]));
        }
        i += 1;
    }
    proof {
        assert(v@.take(v@.len() as int) =~= v@);
    }
    out
}

fn duplicate_key(k: &EncryptionKey) -> (r: EncryptionKey)
    ensures
        r@ == k@,
{
    EncryptionKey {
        method: k.method,
        uri: match &k.uri {
            Some(s) => Some(s.clone()),
            None => None,
        },
        iv: match &k.iv {
            Some(v) => Some(duplicate_bytes(v)),
            None => None,
        },
        key_format: k.key_format.clone(),
        key_format_versions: k.key_format_versions.clone(),
    }
}

fn duplicate_keys(keys: &Vec<EncryptionKey>) -> (r: Vec<EncryptionKey>)
    ensures
        r@.map_values(|k: EncryptionKey| k@) == keys@.map_values(|k: EncryptionKey| k@),
{
    let mut out: Vec<EncryptionKey> = Vec::new();
    let mut i: usize = 0;
    while i < keys.len()
        invariant
            i <= keys@.len(),
            out@.map_values(|k: EncryptionKey| k@) =~= keys@.map_values(
                |k: EncryptionKey| k@,
            ).take(i as int),
        decreases keys@.len() - i,
    {
        let ghost pre = out@.map_values(|k: EncryptionKey| k@);
        out.push(duplicate_key(&keys[i]));
        proof {
            let all = keys@.map_values(|k: EncryptionKey| k@);
            assert(out@.map_values(|k: EncryptionKey| k@) =~= pre.push(all[i as int]));
            assert(all.take(i as int + 1) =~= all.take(i as int).push(all[i as int]));
        }
        i += 1;
    }
    proof {
        let all = keys@.map_values(|k: EncryptionKey| k@);
        assert(all.take(all.len() as int) =~= all);
    }
    out
}


// ---------------------------------------------------------------------
// The master playlist.
// ---------------------------------------------------------------------

/// A rendition track declared by `EXT-X-MEDIA`.
#[derive(Debug, Clone, PartialEq, Eq)]
pub struct Track {
    pub assoc_language: Option<String>,
    pub autoselect: bool,
    pub characteristics: Option<String>,
    pub default: bool,
    pub forced: bool,
    pub group_id: String,
    pub instream_id: Option<String>,
    pub language: Option<String>,
    pub name: String,
    pub track_type: TrackType,
    pub uri: Option<String>,
}

pub struct TrackModel {
    pub assoc_language: Option<Seq<char>>,
    pub autoselect: bool,
    pub characteristics: Option<Seq<char>>,
    pub default: bool,
    pub forced: bool,
    pub group_id: Seq<char>,
    pub instream_id: Option<Seq<char>>,
    pub language: Option<Seq<char>>,
    pub name: Seq<char>,
    pub track_type: TrackType,
    pub uri: Option<Seq<char>>,
}

impl View for Track {
    type V = TrackModel;

    open spec fn view(&self) -> TrackModel {
        TrackModel {
            assoc_language: opt_view(self.assoc_language),
            autoselect: self.autoselect,
            characteristics: opt_view(self.characteristics),
            default: self.default,
            forced: self.forced,
            group_id: self.group_id@,
            instream_id: opt_view(self.instream_id),
            language: opt_view(self.language),
            name: self.name@,
            track_type: self.track_type,
            uri: opt_view(self.uri),
        }
    }
}

pub open spec fn spec_track_type(mt: MediaType) -> TrackType {
    match mt {
        MediaType::Audio => TrackType::Audio,
        MediaType::Video => TrackType::Video,
        MediaType::Subtitles => TrackType::Subtitles,
        MediaType::ClosedCaptions => TrackType::ClosedCaptions,
    }
}

/// The track an `EXT-X-MEDIA` record declares: the booleans default to
/// `NO` when absent.
pub open spec fn spec_track_of(m: MediaAttributesModel) -> TrackModel {
    TrackModel {
        assoc_language: m.assoc_language,
        autoselect: match m.autoselect {
            Some(b) => b,
            None => false,
        },
        characteristics: m.characteristics,
        default: match m.default {
            Some(b) => b,
            None => false,
        },
        forced: match m.forced {
            Some(b) => b,
            None => false,
        },
        group_id: m.group_id,
        instream_id: m.instream_id,
        language: m.language,
        name: m.name,
        track_type: spec_track_type(m.media_type),
        uri: m.uri,
    }
}

/// The first comma at or after a position, or the end.
pub open spec fn comma_pos(s: Seq<char>, i: int) -> int
    decreases s.len() - i,
    when 0 <= i <= s.len()
{
    if i == s.len() || s[i] == ',' {
        i
    } else {
        comma_pos(s, i + 1)
    }
}

pub proof fn lemma_comma_pos(s: Seq<char>, i: int)
    requires
        0 <= i <= s.len(),
    ensures
        i <= comma_pos(s, i) <= s.len(),
        forall|k: int| i <= k < comma_pos(s, i) ==> (#[trigger] s[k]) != ',',
        comma_pos(s, i) < s.len() ==> s[comma_pos(s, i)] == ',',
    decreases s.len() - i,
{
    if i < s.len() && s[i] != ',' {
        lemma_comma_pos(s, i + 1);
    }
}

/// The comma-separated pieces of a string, from a position.
pub open spec fn split_commas_from(s: Seq<char>, i: int) -> Seq<Seq<char>>
    decreases s.len() - i + 1,
    when 0 <= i <= s.len()
    via split_commas_from_decreases
{
    let p = comma_pos(s, i);
    if p == s.len() {
        seq![s.subrange(i, p)]
    } else {
        seq![s.subrange(i, p)] + split_commas_from(s, p + 1)
    }
}

#[via_fn]
proof fn split_commas_from_decreases(s: Seq<char>, i: int) {
    lemma_comma_pos(s, i);
}

/// The comma-separated pieces of a string, as `str::split(',')` yields
/// them.
pub open spec fn split_commas(s: Seq<char>) -> Seq<Seq<char>> {
    split_commas_from(s, 0)
}

fn scan_comma(s: &str, from: usize) -> (r: usize)
    requires
        from <= s@.len(),
    ensures
        r as int == comma_pos(s@, from as int),
{
    let len = s.unicode_len();
    let mut i: usize = from;
    while i < len
        invariant
            from <= i <= len,
            len == s@.len(),
            comma_pos(s@, from as int) == comma_pos(s@, i as int),
        decreases len - i,
    {
        if s.get_char(i) == ',' {
            return i;
        }
        i += 1;
    }
    i
}

/// Split a string at commas.
pub fn parse_codecs(s: &str) -> (r: Vec<String>)
    ensures
        r@.map_values(|p: String| p@) == split_commas(s@),
{
    let len = s.unicode_len();
    let mut out: Vec<String> = Vec::new();
    let mut start: usize = 0;
    proof {
        assert(out@.map_values(|p: String| p@) =~= Seq::<Seq<char>>::empty());
    }
    loop
        invariant
            start <= len,
            len == s@.len(),
            ({
                let views = out@.map_values(|p: String| p@);
                split_commas(s@) == views + split_commas_from(s@, start as int)
            }),
        decreases len - start,
    {
        proof {
            lemma_comma_pos(s@, start as int);
        }
        let p = scan_comma(s, start);
        let piece = s.substring_char(start, p).to_owned();
        let ghost old_views = out@.map_values(|x: String| x@);
        out.push(piece);
        proof {
            let views = out@.map_values(|x: String| x@);
            assert(views =~= old_views.push(s@.subrange(start as int, p as int)));
        }
        if p == len {
            proof {
                let views = out@.map_values(|x: String| x@);
                assert(split_commas_from(s@, start as int) =~= seq![
                    s@.subrange(start as int, p as int),
                ]);
                assert(old_views + split_commas_from(s@, start as int) =~= views);
            }
            return out;
        }
        proof {
            let views = out@.map_values(|x: String| x@);
            assert(split_commas_from(s@, start as int) =~= seq![
                s@.subrange(start as int, p as int),
            ] + split_commas_from(s@, p as int + 1));
            assert(old_views + split_commas_from(s@, start as int) =~= views + split_commas_from(
                s@,
                p as int + 1,
            ));
        }
        start = p + 1;
    }
}

/// One variant stream of a master playlist.
#[derive(Debug, Clone, PartialEq, Eq)]
pub struct Variant {
    pub audio: Option<String>,
    pub average_bandwidth: Option<u64>,
    pub bandwidth: u64,
    pub closed_captions: Option<String>,
    pub codecs: Vec<String>,
    pub frame_rate: Option<FloatLit>,
    pub hdcp_level: Option<HdcpLevel>,
    pub resolution: Option<Resolution>,
    pub subtitles: Option<String>,
    pub uri: String,
    pub video: Option<String>,
}

pub struct VariantModel {
    pub audio: Option<Seq<char>>,
    pub average_bandwidth: Option<u64>,
    pub bandwidth: u64,
    pub closed_captions: Option<Seq<char>>,
    pub codecs: Seq<Seq<char>>,
    pub frame_rate: Option<Seq<char>>,
    pub hdcp_level: Option<HdcpLevel>,
    pub resolution: Option<Resolution>,
    pub subtitles: Option<Seq<char>>,
    pub uri: Seq<char>,
    pub video: Option<Seq<char>>,
}

impl View for Variant {
    type V = VariantModel;

    open spec fn view(&self) -> VariantModel {
        VariantModel {
            audio: opt_view(self.audio),
            average_bandwidth: self.average_bandwidth,
            bandwidth: self.bandwidth,
            closed_captions: opt_view(self.closed_captions),
            codecs: self.codecs@.map_values(|p: String| p@),
            frame_rate: opt_float_view(self.frame_rate),
            hdcp_level: self.hdcp_level,
            resolution: self.resolution,
            subtitles: opt_view(self.subtitles),
            uri: self.uri@,
            video: opt_view(self.video),
        }
    }
}

/// An I-frame-only variant stream.
#[derive(Debug, Clone, PartialEq, Eq)]
pub struct IframeVariant {
    pub average_bandwidth: Option<u64>,
    pub bandwidth: u64,
    pub codecs: Vec<String>,
    pub hdcp_level: Option<HdcpLevel>,
    pub resolution: Option<Resolution>,
    pub uri: String,
    pub video: Option<String>,
}

pub struct IframeVariantModel {
    pub average_bandwidth: Option<u64>,
    pub bandwidth: u64,
    pub codecs: Seq<Seq<char>>,
    pub hdcp_level: Option<HdcpLevel>,
    pub resolution: Option<Resolution>,
    pub uri: Seq<char>,
    pub video: Option<Seq<char>>,
}

impl View for IframeVariant {
    type V = IframeVariantModel;

    open spec fn view(&self) -> IframeVariantModel {
        IframeVariantModel {
            average_bandwidth: self.average_bandwidth,
            bandwidth: self.bandwidth,
            codecs: self.codecs@.map_values(|p: String| p@),
            hdcp_level: self.hdcp_level,
            resolution: self.resolution,
            uri: self.uri@,
            video: opt_view(self.video),
        }
    }
}

/// A resolution attribute string as a structured value: the whole string
/// must be `WIDTHxHEIGHT`.
pub open spec fn spec_resolution_of(s: Seq<char>) -> Option<Resolution> {
    match parse_resolution(s, 0) {
        Some((r, e)) => if e == s.len() {
            Some(r)
        } else {
            None
        },
        None => None,
    }
}

fn resolution_of(s: &str) -> (r: Option<Resolution>)
    ensures
        r == spec_resolution_of(s@),
{
    let len = s.unicode_len();
    match crate::lexer::resolution(s, 0) {
        Some((r, e)) => if e == len {
            Some(r)
        } else {
            None
        },
        None => None,
    }
}

/// The variant an `EXT-X-STREAM-INF` record and its following URI line
/// declare: `CODECS` is required and split at commas; a malformed
/// `RESOLUTION` string is rejected.
pub open spec fn spec_variant_of(a: StreamInfAttributesModel, uri: Seq<char>) -> Result<
    VariantModel,
    ParseErrorModel,
> {
    match a.codecs {
        None => Err(ParseErrorModel::MissingAttribute("CODECS"@)),
        Some(c) => {
            let res = match a.resolution {
                None => Ok(None),
                Some(s) => match spec_resolution_of(s) {
                    Some(r) => Ok(Some(r)),
                    None => Err(ParseErrorModel::InvalidAttrType("RESOLUTION"@)),
                },
            };
            match res {
                Ok(resolution) => Ok(
                    VariantModel {
                        audio: a.audio,
                        average_bandwidth: a.average_bandwidth,
                        bandwidth: a.bandwidth,
                        closed_captions: a.closed_captions,
                        codecs: split_commas(c),
                        frame_rate: a.frame_rate,
                        hdcp_level: a.hdcp_level,
                        resolution,
                        subtitles: a.subtitles,
                        uri: uri,
                        video: a.video,
                    },
                ),
                Err(e) => Err(e),
            }
        },
    }
}

/// The I-frame variant an `EXT-X-I-FRAME-STREAM-INF` record declares.
pub open spec fn spec_iframe_variant_of(a: IFrameStreamInfAttributesModel) -> Result<
    IframeVariantModel,
    ParseErrorModel,
> {
    match a.codecs {
        None => Err(ParseErrorModel::MissingAttribute("CODECS"@)),
        Some(c) => {
            let res = match a.resolution {
                None => Ok(None),
                Some(s) => match spec_resolution_of(s) {
                    Some(r) => Ok(Some(r)),
                    None => Err(ParseErrorModel::InvalidAttrType("RESOLUTION"@)),
                },
            };
            match res {
                Ok(resolution) => Ok(
                    IframeVariantModel {
                        average_bandwidth: a.average_bandwidth,
                        bandwidth: a.bandwidth,
                        codecs: split_commas(c),
                        hdcp_level: a.hdcp_level,
                        resolution,
                        uri: a.uri,
                        video: a.video,
                    },
                ),
                Err(e) => Err(e),
            }
        },
    }
}

/// A master playlist: its tracks and variant streams.
#[derive(Debug, Clone, PartialEq, Eq)]
pub struct MasterManfiest {
    pub audio: Vec<Track>,
    pub iframe_variants: Vec<IframeVariant>,
    pub independent_segments: bool,
    pub variants: Vec<Variant>,
    pub version: u64,
    pub video: Vec<Track>,
}

pub struct MasterManfiestModel {
    pub audio: Seq<TrackModel>,
    pub iframe_variants: Seq<IframeVariantModel>,
    pub independent_segments: bool,
    pub variants: Seq<VariantModel>,
    pub version: u64,
    pub video: Seq<TrackModel>,
}

impl View for MasterManfiest {
    type V = MasterManfiestModel;

    open spec fn view(&self) -> MasterManfiestModel {
        MasterManfiestModel {
            audio: self.audio@.map_values(|t: Track| t@),
            iframe_variants: self.iframe_variants@.map_values(|v: IframeVariant| v@),
            independent_segments: self.independent_segments,
            variants: self.variants@.map_values(|v: Variant| v@),
            version: self.version,
            video: self.video@.map_values(|t: Track| t@),
        }
    }
}

/// The rolling state of the master-manifest fold: a `STREAM-INF` record
/// waits for the URI line that follows it.
pub struct MasterFold {
    pub audio: Seq<TrackModel>,
    pub video: Seq<TrackModel>,
    pub variants: Seq<VariantModel>,
    pub iframe_variants: Seq<IframeVariantModel>,
    pub independent_segments: bool,
    pub version: u64,
    pub pending: Option<StreamInfAttributesModel>,
}

pub open spec fn master_fold_empty() -> MasterFold {
    MasterFold {
        audio: Seq::empty(),
        video: Seq::empty(),
        variants: Seq::empty(),
        iframe_variants: Seq::empty(),
        independent_segments: false,
        version: 1,
        pending: None,
    }
}

/// One line of a master playlist, applied to the fold state.
pub open spec fn master_step(st: MasterFold, line: LineModel) -> Result<
    MasterFold,
    ParseErrorModel,
> {
    match line {
        LineModel::Uri(u) => match st.pending {
            Some(a) => match spec_variant_of(a, u) {
                Ok(v) => Ok(MasterFold { variants: st.variants.push(v), pending: None, ..st }),
                Err(e) => Err(e),
            },
            None => Ok(st),
        },
        LineModel::Tag(t) => match t {
            TagModel::M3u => Err(ParseErrorModel::MultipleHeaders),
            TagModel::Version(v) => Ok(MasterFold { version: v, ..st }),
            TagModel::IndependentSegments => Ok(MasterFold { independent_segments: true, ..st }),
            TagModel::IFrameStreamInf(a) => match spec_iframe_variant_of(a) {
                Ok(v) => Ok(MasterFold { iframe_variants: st.iframe_variants.push(v), ..st }),
                Err(e) => Err(e),
            },
            TagModel::Media(m) => {
                let track = spec_track_of(m);
                match track.track_type {
                    TrackType::Audio => Ok(MasterFold { audio: st.audio.push(track), ..st }),
                    TrackType::Video => Ok(MasterFold { video: st.video.push(track), ..st }),
                    _ => Ok(st),
                }
            },
            TagModel::StreamInf(a) => Ok(MasterFold { pending: Some(a), ..st }),
            _ => Ok(st),
        },
    }
}

pub open spec fn master_fold(lines: Seq<LineModel>, st: MasterFold) -> Result<
    MasterFold,
    ParseErrorModel,
>
    decreases lines.len(),
{
    if lines.len() == 0 {
        Ok(st)
    } else {
        match master_step(st, lines[0]) {
            Ok(st2) => master_fold(lines.skip(1), st2),
            Err(e) => Err(e),
        }
    }
}

/// What a master playlist's lines assemble to.
pub open spec fn spec_master_manifest(lines: Seq<LineModel>) -> Result<
    MasterManfiestModel,
    ParseErrorModel,
> {
    if lines.len() == 0 || lines[0] != LineModel::Tag(TagModel::M3u) {
        Err(ParseErrorModel::MissingHeader)
    } else {
        match master_fold(lines.skip(1), master_fold_empty()) {
            Ok(st) => Ok(
                MasterManfiestModel {
                    audio: st.audio,
                    iframe_variants: st.iframe_variants,
                    independent_segments: st.independent_segments,
                    variants: st.variants,
                    version: st.version,
                    video: st.video,
                },
            ),
            Err(e) => Err(e),
        }
    }
}

fn opt_string_clone(o: &Option<String>) -> (r: Option<String>)
    ensures
        opt_view(r) == (match o {
            Some(s) => Some(s@),
            None => None::<Seq<char>>,
        }),
{
    match o {
        Some(s) => Some(s.clone()),
        None => None,
    }
}

fn track_of(m: &crate::manifest::MediaAttributes) -> (r: Track)
    ensures
        r@ == spec_track_of(m@),
{
    Track {
        assoc_language: opt_string_clone(&m.assoc_language),
        autoselect: match m.autoselect {
            Some(b) => b,
            None => false,
        },
        characteristics: opt_string_clone(&m.characteristics),
        default: match m.default {
            Some(b) => b,
            None => false,
        },
        forced: match m.forced {
            Some(b) => b,
            None => false,
        },
        group_id: m.group_id.clone(),
        instream_id: opt_string_clone(&m.instream_id),
        language: opt_string_clone(&m.language),
        name: m.name.clone(),
        track_type: match m.media_type {
            MediaType::Audio => TrackType::Audio,
            MediaType::Video => TrackType::Video,
            MediaType::Subtitles => TrackType::Subtitles,
            MediaType::ClosedCaptions => TrackType::ClosedCaptions,
        },
        uri: opt_string_clone(&m.uri),
    }
}

fn variant_of(a: &crate::manifest::StreamInfAttributes, uri: &str) -> (r: Result<
    Variant,
    ParseError,
>)
    ensures
        match r {
            Ok(v) => spec_variant_of(a@, uri@) == Ok::<VariantModel, ParseErrorModel>(v@),
            Err(e) => spec_variant_of(a@, uri@) == Err::<VariantModel, ParseErrorModel>(e@),
        },
{
    let c = match &a.codecs {
        Some(c) => c,
        None => {
            return Err(ParseError::MissingAttribute(String::from_str("CODECS")));
        },
    };
    let resolution: Option<Resolution> = match &a.resolution {
        None => None,
        Some(s) => {
            match resolution_of(s.as_str()) {
                Some(r) => Some(r),
                None => {
                    return Err(ParseError::InvalidAttrType(String::from_str("RESOLUTION")));
                },
            }
        },
    };
    Ok(
        Variant {
            audio: opt_string_clone(&a.audio),
            average_bandwidth: a.average_bandwidth,
            bandwidth: a.bandwidth,
            closed_captions: opt_string_clone(&a.closed_captions),
            codecs: parse_codecs(c.as_str()),
            frame_rate: match &a.frame_rate {
                Some(f) => Some(FloatLit { text: f.text.clone() }),
                None => None,
            },
            hdcp_level: a.hdcp_level,
            resolution,
            subtitles: opt_string_clone(&a.subtitles),
            uri: uri.to_owned(),
            video: opt_string_clone(&a.video),
        },
    )
}

fn iframe_variant_of(a: &crate::manifest::IFrameStreamInfAttributes) -> (r: Result<
    IframeVariant,
    ParseError,
>)
    ensures
        match r {
            Ok(v) => spec_iframe_variant_of(a@) == Ok::<IframeVariantModel, ParseErrorModel>(v@),
            Err(e) => spec_iframe_variant_of(a@) == Err::<IframeVariantModel, ParseErrorModel>(e@),
        },
{
    let c = match &a.codecs {
        Some(c) => c,
        None => {
            return Err(ParseError::MissingAttribute(String::from_str("CODECS")));
        },
    };
    let resolution: Option<Resolution> = match &a.resolution {
        None => None,
        Some(s) => {
            match resolution_of(s.as_str()) {
                Some(r) => Some(r),
                None => {
                    return Err(ParseError::InvalidAttrType(String::from_str("RESOLUTION")));
                },
            }
        },
    };
    Ok(
        IframeVariant {
            average_bandwidth: a.average_bandwidth,
            bandwidth: a.bandwidth,
            codecs: parse_codecs(c.as_str()),
            hdcp_level: a.hdcp_level,
            resolution,
            uri: a.uri.clone(),
            video: opt_string_clone(&a.video),
        },
    )
}

spec fn master_fold_of(
    audio: Vec<Track>,
    video: Vec<Track>,
    variants: Vec<Variant>,
    iframe_variants: Vec<IframeVariant>,
    independent_segments: bool,
    version: u64,
    pending: Option<crate::manifest::StreamInfAttributes>,
) -> MasterFold {
    MasterFold {
        audio: audio@.map_values(|t: Track| t@),
        video: video@.map_values(|t: Track| t@),
        variants: variants@.map_values(|v: Variant| v@),
        iframe_variants: iframe_variants@.map_values(|v: IframeVariant| v@),
        independent_segments,
        version,
        pending: match pending {
            Some(a) => Some(a@),
            None => None,
        },
    }
}

impl MasterManfiest {
    /// Assemble a master playlist from its decoded lines.
    pub fn from_ast(lines: &Vec<Line>) -> (r: Result<MasterManfiest, ParseError>)
        ensures
            ({
                let views = lines@.map_values(|l: Line| l@);
                match r {
                    Ok(m) => spec_master_manifest(views) == Ok::<MasterManfiestModel,
                        ParseErrorModel>(m@),
                    Err(e) => spec_master_manifest(views) == Err::<MasterManfiestModel,
                        ParseErrorModel>(e@),
                }
            }),
    {
        let ghost views = lines@.map_values(|l: Line| l@);
        if lines.len() == 0 {
            return Err(ParseError::MissingHeader);
        }
        match &lines[0] {
            Line::Tag(Tag::M3u) => {},
            _ => {
                proof {
                    assert(views[0] == lines@[0]@);
                }
                return Err(ParseError::MissingHeader);
            },
        }
        proof {
            assert(views[0] == lines@[0]@);
        }
        let ghost rest = views.skip(1);
        let mut audio: Vec<Track> = Vec::new();
        let mut video: Vec<Track> = Vec::new();
        let mut variants: Vec<Variant> = Vec::new();
        let mut iframe_variants: Vec<IframeVariant> = Vec::new();
        let mut independent_segments: bool = false;
        let mut version: u64 = 1;
        let mut pending: Option<crate::manifest::StreamInfAttributes> = None;
        let mut i: usize = 1;
        proof {
            assert(audio@.map_values(|t: Track| t@) =~= Seq::<TrackModel>::empty());
            assert(video@.map_values(|t: Track| t@) =~= Seq::<TrackModel>::empty());
            assert(variants@.map_values(|v: Variant| v@) =~= Seq::<VariantModel>::empty());
            assert(iframe_variants@.map_values(|v: IframeVariant| v@) =~= Seq::<
                IframeVariantModel,
            >::empty());
            assert(rest.skip(0) =~= rest);
        }
        while i < lines.len()
            invariant
                1 <= i <= lines@.len(),
                views == lines@.map_values(|l: Line| l@),
                lines@.len() == views.len(),
                views.len() > 0,
                views[0] == LineModel::Tag(TagModel::M3u),
                rest == views.skip(1),
                master_fold(rest, master_fold_empty()) == master_fold(
                    rest.skip(i - 1),
                    master_fold_of(
                        audio,
                        video,
                        variants,
                        iframe_variants,
                        independent_segments,
                        version,
                        pending,
                    ),
                ),
            decreases lines@.len() - i,
        {
            let ghost st_pre = master_fold_of(
                audio,
                video,
                variants,
                iframe_variants,
                independent_segments,
                version,
                pending,
            );
            let line = &lines[i];
            proof {
                assert(line@ == views[i as int]);
                assert(rest.skip(i - 1)[0] == rest[i - 1]);
                assert(rest[i - 1] == views[i as int]);
                assert(rest.skip(i - 1).skip(1) =~= rest.skip(i as int));
            }
            match line {
                Line::Uri(u) => {
                    let taken = pending;
                    pending = None;
                    match &taken {
                        Some(a) => {
                            match variant_of(a, u.as_str()) {
                                Ok(v) => {
                                    let ghost old_vs = variants@.map_values(|x: Variant| x@);
                                    let ghost vv = v@;
                                    variants.push(v);
                                    proof {
                                        assert(variants@.map_values(|x: Variant| x@) =~= old_vs.push(
                                            vv,
                                        ));
                                    }
                                },
                                Err(e) => {
                                    proof {
                                        assert(master_step(st_pre, views[i as int]) == Err::<
                                            MasterFold,
                                            ParseErrorModel,
                                        >(e@));
                                    }
                                    return Err(e);
                                },
                            }
                        },
                        None => {},
                    }
                },
                Line::Tag(t) => {
                    match t {
                        Tag::M3u => {
                            proof {
                                assert(master_fold(rest.skip(i - 1), st_pre) == Err::<
                                    MasterFold,
                                    ParseErrorModel,
                                >(ParseErrorModel::MultipleHeaders));
                            }
                            return Err(ParseError::MultipleHeaders);
                        },
                        Tag::Version(v) => {
                            version = *v;
                        },
                        Tag::IndependentSegments => {
                            independent_segments = true;
                        },
                        Tag::IFrameStreamInf(a) => {
                            match iframe_variant_of(a) {
                                Ok(v) => {
                                    let ghost old_vs = iframe_variants@.map_values(
                                        |x: IframeVariant| x@,
                                    );
                                    let ghost vv = v@;
                                    iframe_variants.push(v);
                                    proof {
                                        assert(iframe_variants@.map_values(|x: IframeVariant| x@)
                                            =~= old_vs.push(vv));
                                    }
                                },
                                Err(e) => {
                                    proof {
                                        assert(master_step(st_pre, views[i as int]) == Err::<
                                            MasterFold,
                                            ParseErrorModel,
                                        >(e@));
                                    }
                                    return Err(e);
                                },
                            }
                        },
                        Tag::Media(m) => {
                            let track = track_of(m);
                            let ghost tv = track@;
                            match track.track_type {
                                TrackType::Audio => {
                                    let ghost old_ts = audio@.map_values(|x: Track| x@);
                                    audio.push(track);
                                    proof {
                                        assert(audio@.map_values(|x: Track| x@) =~= old_ts.push(
                                            tv,
                                        ));
                                    }
                                },
                                TrackType::Video => {
                                    let ghost old_ts = video@.map_values(|x: Track| x@);
                                    video.push(track);
                                    proof {
                                        assert(video@.map_values(|x: Track| x@) =~= old_ts.push(
                                            tv,
                                        ));
                                    }
                                },
                                _ => {},
                            }
                        },
                        Tag::StreamInf(a) => {
                            pending = Some(a.duplicate());
                        },
                        _ => {},
                    }
                },
            }
            proof {
                let st_new = master_fold_of(
                    audio,
                    video,
                    variants,
                    iframe_variants,
                    independent_segments,
                    version,
                    pending,
                );
                assert(master_step(st_pre, views[i as int]) == Ok::<MasterFold, ParseErrorModel>(
                    st_new,
                ));
            }
            i += 1;
        }
        proof {
            assert(rest.skip(views.len() - 1) =~= Seq::<LineModel>::empty());
        }
        Ok(
            MasterManfiest {
                audio,
                iframe_variants,
                independent_segments,
                variants,
                version,
                video,
            },
        )
    }
}

} // verus!
