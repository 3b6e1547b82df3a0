//! The playlist lexer: raw `.m3u8` text to a sequence of raw lines.
//!
//! Each line is either a tag (`#EXT…` with one of four argument shapes) or
//! a URI; blank lines and non-`#EXT` comments are dropped.  The grammar is
//! stated by the `parse_*` spec functions; the executable lexer is proved
//! to return exactly what those functions describe.

use vstd::prelude::*;
use vstd::string::*;
use crate::error::Error;
use crate::hex::HexSequence;
use crate::text::{
    is_digit, is_nonzero_digit, is_upper, is_keyword_char, is_hex_digit, is_line_break,
    is_whitespace, digits_val, char_is_digit, char_is_nonzero_digit, char_is_upper,
    char_is_keyword_char, char_is_hex_digit, char_is_line_break, char_is_whitespace,
    lemma_digits_val_prefix,
};
use crate::Resolution;

verus! {

/// A float attribute value, kept as its raw text: the library stores and
/// compares the matched characters and never does float arithmetic.
#[derive(Debug, Clone, PartialEq, Eq)]
pub struct FloatLit {
    pub text: String,
}

impl View for FloatLit {
    type V = Seq<char>;

    open spec fn view(&self) -> Seq<char> {
        self.text@
    }
}

/// A single attribute value, one of the six shapes the grammar allows.
#[derive(Debug, Clone, PartialEq, Eq)]
pub enum AttributeValue {
    Integer(u64),
    Hex(HexSequence),
    Float(FloatLit),
    QuotedString(String),
    Keyword(String),
    Resolution(Resolution),
}

/// The mathematical shape of an attribute value.
pub enum AttrValueModel {
    Integer(u64),
    Hex(Seq<char>),
    Float(Seq<char>),
    QuotedString(Seq<char>),
    Keyword(Seq<char>),
    Resolution(Resolution),
}

impl View for AttributeValue {
    type V = AttrValueModel;

    open spec fn view(&self) -> AttrValueModel {
        match self {
            AttributeValue::Integer(n) => AttrValueModel::Integer(*n),
            AttributeValue::Hex(h) => AttrValueModel::Hex(h@),
            AttributeValue::Float(f) => AttrValueModel::Float(f@),
            AttributeValue::QuotedString(s) => AttrValueModel::QuotedString(s@),
            AttributeValue::Keyword(s) => AttrValueModel::Keyword(s@),
            AttributeValue::Resolution(r) => AttrValueModel::Resolution(*r),
        }
    }
}

/// A `NAME=value` pair from an attribute list.
#[derive(Debug, Clone, PartialEq, Eq)]
pub struct Attribute {
    pub name: String,
    pub value: AttributeValue,
}

pub struct AttributeModel {
    pub name: Seq<char>,
    pub value: AttrValueModel,
}

impl View for Attribute {
    type V = AttributeModel;

    open spec fn view(&self) -> AttributeModel {
        AttributeModel { name: self.name@, value: self.value@ }
    }
}

impl AttributeValue {
    /// An equal value with freshly owned text.
    pub fn duplicate(&self) -> (r: AttributeValue)
        ensures
            r@ == self@,
    {
        match self {
            AttributeValue::Integer(n) => AttributeValue::Integer(*n),
            AttributeValue::Hex(h) => AttributeValue::Hex(HexSequence::new(h.as_str().to_owned())),
            AttributeValue::Float(f) => AttributeValue::Float(FloatLit { text: f.text.clone() }),
            AttributeValue::QuotedString(s) => AttributeValue::QuotedString(s.clone()),
            AttributeValue::Keyword(s) => AttributeValue::Keyword(s.clone()),
            AttributeValue::Resolution(r) => AttributeValue::Resolution(*r),
        }
    }
}

impl Attribute {
    /// An equal attribute with freshly owned text.
    pub fn duplicate(&self) -> (r: Attribute)
        ensures
            r@ == self@,
    {
        Attribute { name: self.name.clone(), value: self.value.duplicate() }
    }
}

/// What follows a tag name: an attribute list, a bare integer, the
/// `EXTINF` duration form, an opaque string, or nothing.
#[derive(Debug, Clone, PartialEq, Eq)]
pub enum TagArgs {
    Attributes(Vec<Attribute>),
    Integer(u64),
    Float(FloatLit),
    Str(String),
    Empty,
}

pub enum TagArgsModel {
    Attributes(Seq<AttributeModel>),
    Integer(u64),
    Float(Seq<char>),
    Str(Seq<char>),
    Empty,
}

impl View for TagArgs {
    type V = TagArgsModel;

    open spec fn view(&self) -> TagArgsModel {
        match self {
            TagArgs::Attributes(attrs) => TagArgsModel::Attributes(
                attrs@.map_values(|a: Attribute| a@),
            ),
            TagArgs::Integer(n) => TagArgsModel::Integer(*n),
            TagArgs::Float(f) => TagArgsModel::Float(f@),
            TagArgs::Str(s) => TagArgsModel::Str(s@),
            TagArgs::Empty => TagArgsModel::Empty,
        }
    }
}

/// One meaningful playlist line as the lexer sees it.
#[derive(Debug, Clone, PartialEq, Eq)]
pub enum RawLine {
    Tag { name: String, args: TagArgs },
    Uri(String),
}

pub enum RawLineModel {
    Tag { name: Seq<char>, args: TagArgsModel },
    Uri(Seq<char>),
}

impl View for RawLine {
    type V = RawLineModel;

    open spec fn view(&self) -> RawLineModel {
        match self {
            RawLine::Tag { name, args } => RawLineModel::Tag { name: name@, args: args@ },
            RawLine::Uri(u) => RawLineModel::Uri(u@),
        }
    }
}

// ---------------------------------------------------------------------
// The grammar, as spec functions.  Each takes the input and a position
// and yields the parsed value with the position after it, or `None`.
// ---------------------------------------------------------------------

/// First position at or after `i` whose character is not a keyword
/// character (upper-case letter, digit or `-`).
pub open spec fn keyword_end(s: Seq<char>, i: int) -> int
    decreases s.len() - i,
    when 0 <= i <= s.len()
{
    if i == s.len() || !is_keyword_char(s[i]) {
        i
    } else {
        keyword_end(s, i + 1)
    }
}

/// First position at or after `i` whose character is not a decimal digit.
pub open spec fn digit_end(s: Seq<char>, i: int) -> int
    decreases s.len() - i,
    when 0 <= i <= s.len()
{
    if i == s.len() || !is_digit(s[i]) {
        i
    } else {
        digit_end(s, i + 1)
    }
}

/// First position at or after `i` whose character is not a hex digit.
pub open spec fn hex_digit_end(s: Seq<char>, i: int) -> int
    decreases s.len() - i,
    when 0 <= i <= s.len()
{
    if i == s.len() || !is_hex_digit(s[i]) {
        i
    } else {
        hex_digit_end(s, i + 1)
    }
}

/// First position at or after `i` holding `"`, `\r` or `\n`.
pub open spec fn quoted_end(s: Seq<char>, i: int) -> int
    decreases s.len() - i,
    when 0 <= i <= s.len()
{
    if i == s.len() || s[i] == '"' || is_line_break(s[i]) {
        i
    } else {
        quoted_end(s, i + 1)
    }
}

/// First position at or after `i` holding `\r` or `\n`.
pub open spec fn line_break_pos(s: Seq<char>, i: int) -> int
    decreases s.len() - i,
    when 0 <= i <= s.len()
{
    if i == s.len() || is_line_break(s[i]) {
        i
    } else {
        line_break_pos(s, i + 1)
    }
}

/// First position at or after `i` holding whitespace.
pub open spec fn whitespace_pos(s: Seq<char>, i: int) -> int
    decreases s.len() - i,
    when 0 <= i <= s.len()
{
    if i == s.len() || is_whitespace(s[i]) {
        i
    } else {
        whitespace_pos(s, i + 1)
    }
}

/// `keyword` = upper-case letter followed by keyword characters.
pub open spec fn parse_keyword(s: Seq<char>, i: int) -> Option<(Seq<char>, int)> {
    if 0 <= i < s.len() && is_upper(s[i]) {
        let e = keyword_end(s, i + 1);
        Some((s.subrange(i, e), e))
    } else {
        None
    }
}

/// `quoted_string` = `"`, any characters but `"` and line breaks, `"`.
pub open spec fn parse_quoted(s: Seq<char>, i: int) -> Option<(Seq<char>, int)> {
    if 0 <= i < s.len() && s[i] == '"' {
        let e = quoted_end(s, i + 1);
        if e < s.len() && s[e] == '"' {
            Some((s.subrange(i + 1, e), e + 1))
        } else {
            None
        }
    } else {
        None
    }
}

/// End of the digit run of an integer: a single `0`, or a nonzero digit
/// followed by any digits.
pub open spec fn dec_digits_end(s: Seq<char>, i: int) -> Option<int> {
    if 0 <= i < s.len() && s[i] == '0' {
        Some(i + 1)
    } else if 0 <= i < s.len() && is_nonzero_digit(s[i]) {
        Some(digit_end(s, i + 1))
    } else {
        None
    }
}

/// `integer` = digit run, as a `u64`; a value that does not fit fails.
pub open spec fn parse_integer(s: Seq<char>, i: int) -> Option<(u64, int)> {
    match dec_digits_end(s, i) {
        Some(e) => if digits_val(s.subrange(i, e)) <= u64::MAX {
            Some((digits_val(s.subrange(i, e)) as u64, e))
        } else {
            None
        },
        None => None,
    }
}

/// `float` = optional `-`, optional digit run, `.`, one or more digits;
/// the value is the raw matched text.
pub open spec fn parse_float_text(s: Seq<char>, i: int) -> Option<(Seq<char>, int)> {
    if 0 <= i <= s.len() {
        let j = if i < s.len() && s[i] == '-' {
            i + 1
        } else {
            i
        };
        let k = match dec_digits_end(s, j) {
            Some(e) => e,
            None => j,
        };
        if k < s.len() && s[k] == '.' {
            let m = digit_end(s, k + 1);
            if m > k + 1 {
                Some((s.subrange(i, m), m))
            } else {
                None
            }
        } else {
            None
        }
    } else {
        None
    }
}

/// `hex_sequence` = `0x` or `0X`, then one or more hex digits; the value
/// is the digit text without the prefix.
pub open spec fn parse_hex_text(s: Seq<char>, i: int) -> Option<(Seq<char>, int)> {
    if 0 <= i && i + 1 < s.len() && s[i] == '0' && (s[i + 1] == 'x' || s[i + 1] == 'X') {
        let e = hex_digit_end(s, i + 2);
        if e > i + 2 {
            Some((s.subrange(i + 2, e), e))
        } else {
            None
        }
    } else {
        None
    }
}

/// `resolution` = integer `x` integer.
pub open spec fn parse_resolution(s: Seq<char>, i: int) -> Option<(Resolution, int)> {
    match parse_integer(s, i) {
        Some((w, j)) => if j < s.len() && s[j] == 'x' {
            match parse_integer(s, j + 1) {
                Some((h, k)) => Some((Resolution { width: w, height: h }, k)),
                None => None,
            }
        } else {
            None
        },
        None => None,
    }
}

/// An attribute value, tried in grammar order: hex, resolution, float,
/// integer, quoted string, keyword.
pub open spec fn parse_attr_val(s: Seq<char>, i: int) -> Option<(AttrValueModel, int)> {
    if parse_hex_text(s, i) is Some {
        let (t, e) = parse_hex_text(s, i)->Some_0;
        Some((AttrValueModel::Hex(t), e))
    } else if parse_resolution(s, i) is Some {
        let (r, e) = parse_resolution(s, i)->Some_0;
        Some((AttrValueModel::Resolution(r), e))
    } else if parse_float_text(s, i) is Some {
        let (t, e) = parse_float_text(s, i)->Some_0;
        Some((AttrValueModel::Float(t), e))
    } else if parse_integer(s, i) is Some {
        let (n, e) = parse_integer(s, i)->Some_0;
        Some((AttrValueModel::Integer(n), e))
    } else if parse_quoted(s, i) is Some {
        let (t, e) = parse_quoted(s, i)->Some_0;
        Some((AttrValueModel::QuotedString(t), e))
    } else if parse_keyword(s, i) is Some {
        let (t, e) = parse_keyword(s, i)->Some_0;
        Some((AttrValueModel::Keyword(t), e))
    } else {
        None
    }
}

/// `attr` = keyword `=` attribute value.
pub open spec fn parse_attr(s: Seq<char>, i: int) -> Option<(AttributeModel, int)> {
    match parse_keyword(s, i) {
        Some((name, j)) => if j < s.len() && s[j] == '=' {
            match parse_attr_val(s, j + 1) {
                Some((v, k)) => Some((AttributeModel { name: name, value: v }, k)),
                None => None,
            }
        } else {
            None
        },
        None => None,
    }
}

/// One or more attributes separated by `,`; the list stops before a comma
/// that is not followed by another attribute.
pub open spec fn parse_attrs(s: Seq<char>, i: int) -> Option<(Seq<AttributeModel>, int)>
    decreases s.len() - i,
    when 0 <= i <= s.len()
    via parse_attrs_decreases
{
    match parse_attr(s, i) {
        Some((a, j)) => if j < s.len() && s[j] == ',' && parse_attr(s, j + 1) is Some {
            match parse_attrs(s, j + 1) {
                Some((rest, e)) => Some((seq![a] + rest, e)),
                None => None,
            }
        } else {
            Some((seq![a], j))
        },
        None => None,
    }
}

#[via_fn]
proof fn parse_attrs_decreases(s: Seq<char>, i: int) {
    lemma_parse_attr_ends(s, i);
}

/// `line_ending` = `\r\n` or `\n`.
pub open spec fn parse_line_ending(s: Seq<char>, i: int) -> Option<int> {
    if 0 <= i && i + 1 < s.len() && s[i] == '\r' && s[i + 1] == '\n' {
        Some(i + 2)
    } else if 0 <= i < s.len() && s[i] == '\n' {
        Some(i + 1)
    } else {
        None
    }
}

/// The `EXTINF` special form: float, `,`, anything up to the line break.
/// The trailing title is consumed and dropped at this layer.
pub open spec fn parse_duration(s: Seq<char>, i: int) -> Option<(Seq<char>, int)> {
    match parse_float_text(s, i) {
        Some((t, j)) => if j < s.len() && s[j] == ',' {
            Some((t, line_break_pos(s, j + 1)))
        } else {
            None
        },
        None => None,
    }
}

/// Tag arguments after the `:`, tried in order: the `EXTINF` duration
/// form, an attribute list, a bare integer that must sit at the end of
/// the line, and an opaque string up to the line break.
pub open spec fn parse_tag_args(s: Seq<char>, i: int) -> Option<(TagArgsModel, int)> {
    if parse_duration(s, i) is Some {
        let (t, e) = parse_duration(s, i)->Some_0;
        Some((TagArgsModel::Float(t), e))
    } else if parse_attrs(s, i) is Some {
        let (attrs, e) = parse_attrs(s, i)->Some_0;
        Some((TagArgsModel::Attributes(attrs), e))
    } else if parse_integer(s, i) is Some && parse_line_ending(
        s,
        parse_integer(s, i)->Some_0.1,
    ) is Some {
        let (n, e) = parse_integer(s, i)->Some_0;
        Some((TagArgsModel::Integer(n), e))
    } else if 0 <= i < s.len() && !is_line_break(s[i]) {
        Some((TagArgsModel::Str(s.subrange(i, line_break_pos(s, i))), line_break_pos(s, i)))
    } else {
        None
    }
}

/// Optional tag arguments: a `:` followed by arguments, or nothing.
pub open spec fn parse_maybe_tag_args(s: Seq<char>, i: int) -> (TagArgsModel, int) {
    if 0 <= i < s.len() && s[i] == ':' {
        match parse_tag_args(s, i + 1) {
            Some((args, e)) => (args, e),
            None => (TagArgsModel::Empty, i),
        }
    } else {
        (TagArgsModel::Empty, i)
    }
}

/// Does `EXT` stand at position `i`?
pub open spec fn has_ext_prefix(s: Seq<char>, i: int) -> bool {
    0 <= i && i + 3 <= s.len() && s[i] == 'E' && s[i + 1] == 'X' && s[i + 2] == 'T'
}

/// `tag_name` = `#`, then a keyword beginning with `EXT`.  The full name
/// after the `#` is preserved.
pub open spec fn parse_tag_name(s: Seq<char>, i: int) -> Option<(Seq<char>, int)> {
    if 0 <= i < s.len() && s[i] == '#' && has_ext_prefix(s, i + 1) {
        parse_keyword(s, i + 1)
    } else {
        None
    }
}

/// A tag line: a tag name, optional arguments, and a line ending.
pub open spec fn parse_tag_line(s: Seq<char>, i: int) -> Option<(RawLineModel, int)> {
    match parse_tag_name(s, i) {
        Some((name, j)) => {
            let (args, k) = parse_maybe_tag_args(s, j);
            match parse_line_ending(s, k) {
                Some(e) => Some((RawLineModel::Tag { name: name, args: args }, e)),
                None => None,
            }
        },
        None => None,
    }
}

/// A comment: `#` not followed by `EXT`, anything up to and including the
/// line ending.
pub open spec fn parse_comment(s: Seq<char>, i: int) -> Option<int> {
    if 0 <= i < s.len() && s[i] == '#' && !has_ext_prefix(s, i + 1) {
        parse_line_ending(s, line_break_pos(s, i + 1))
    } else {
        None
    }
}

/// A URI line: one or more non-whitespace characters not beginning with
/// `#`, then a line ending.
pub open spec fn parse_uri(s: Seq<char>, i: int) -> Option<(Seq<char>, int)> {
    if 0 <= i < s.len() && s[i] != '#' && !is_whitespace(s[i]) {
        let e = whitespace_pos(s, i);
        match parse_line_ending(s, e) {
            Some(k) => Some((s.subrange(i, e), k)),
            None => None,
        }
    } else {
        None
    }
}

/// One input line: blank, tag, comment or URI, in that order.  Blank
/// lines and comments carry no `RawLineModel`.
pub open spec fn parse_playlist_line(s: Seq<char>, i: int) -> Option<(Option<RawLineModel>, int)> {
    if parse_line_ending(s, i) is Some {
        Some((None, parse_line_ending(s, i)->Some_0))
    } else if parse_tag_line(s, i) is Some {
        let (l, e) = parse_tag_line(s, i)->Some_0;
        Some((Some(l), e))
    } else if parse_comment(s, i) is Some {
        Some((None, parse_comment(s, i)->Some_0))
    } else if parse_uri(s, i) is Some {
        let (u, e) = parse_uri(s, i)->Some_0;
        Some((Some(RawLineModel::Uri(u)), e))
    } else {
        None
    }
}

/// Greedily parse lines from `i`; the result is the meaningful lines and
/// the first position no line could be parsed from.
pub open spec fn parse_lines(s: Seq<char>, i: int) -> (Seq<RawLineModel>, int)
    decreases s.len() - i,
    when 0 <= i <= s.len()
    via parse_lines_decreases
{
    match parse_playlist_line(s, i) {
        Some((l, j)) => {
            let (rest, e) = parse_lines(s, j);
            match l {
                Some(line) => (seq![line] + rest, e),
                None => (rest, e),
            }
        },
        None => (Seq::empty(), i),
    }
}

#[via_fn]
proof fn parse_lines_decreases(s: Seq<char>, i: int) {
    lemma_parse_playlist_line_ends(s, i);
}

/// The whole input parses when it is non-empty and line parsing consumes
/// all of it.
pub open spec fn spec_parse_manifest(s: Seq<char>) -> Option<Seq<RawLineModel>> {
    let (lines, e) = parse_lines(s, 0);
    if s.len() > 0 && e == s.len() {
        Some(lines)
    } else {
        None
    }
}

// ---------------------------------------------------------------------
// Bounds of every grammar rule: a successful parse moves the position
// forward and never past the end.
// ---------------------------------------------------------------------

pub proof fn lemma_keyword_end(s: Seq<char>, i: int)
    requires
        0 <= i <= s.len(),
    ensures
        i <= keyword_end(s, i) <= s.len(),
        forall|j: int| i <= j < keyword_end(s, i) ==> is_keyword_char(#[trigger] s[j]),
        keyword_end(s, i) < s.len() ==> !is_keyword_char(s[keyword_end(s, i)]),
    decreases s.len() - i,
{
    if i < s.len() && is_keyword_char(s[i]) {
        lemma_keyword_end(s, i + 1);
    }
}

pub proof fn lemma_digit_end(s: Seq<char>, i: int)
    requires
        0 <= i <= s.len(),
    ensures
        i <= digit_end(s, i) <= s.len(),
        forall|j: int| i <= j < digit_end(s, i) ==> is_digit(#[trigger] s[j]),
        digit_end(s, i) < s.len() ==> !is_digit(s[digit_end(s, i)]),
    decreases s.len() - i,
{
    if i < s.len() && is_digit(s[i]) {
        lemma_digit_end(s, i + 1);
    }
}

pub proof fn lemma_hex_digit_end(s: Seq<char>, i: int)
    requires
        0 <= i <= s.len(),
    ensures
        i <= hex_digit_end(s, i) <= s.len(),
        forall|j: int| i <= j < hex_digit_end(s, i) ==> is_hex_digit(#[trigger] s[j]),
        hex_digit_end(s, i) < s.len() ==> !is_hex_digit(s[hex_digit_end(s, i)]),
    decreases s.len() - i,
{
    if i < s.len() && is_hex_digit(s[i]) {
        lemma_hex_digit_end(s, i + 1);
    }
}

pub proof fn lemma_quoted_end(s: Seq<char>, i: int)
    requires
        0 <= i <= s.len(),
    ensures
        i <= quoted_end(s, i) <= s.len(),
        forall|j: int|
            i <= j < quoted_end(s, i) ==> (#[trigger] s[j]) != '"' && !is_line_break(s[j]),
        quoted_end(s, i) < s.len() ==> (s[quoted_end(s, i)] == '"' || is_line_break(
            s[quoted_end(s, i)],
        )),
    decreases s.len() - i,
{
    if i < s.len() && s[i] != '"' && !is_line_break(s[i]) {
        lemma_quoted_end(s, i + 1);
    }
}

pub proof fn lemma_line_break_pos(s: Seq<char>, i: int)
    requires
        0 <= i <= s.len(),
    ensures
        i <= line_break_pos(s, i) <= s.len(),
        forall|j: int| i <= j < line_break_pos(s, i) ==> !is_line_break(#[trigger] s[j]),
        line_break_pos(s, i) < s.len() ==> is_line_break(s[line_break_pos(s, i)]),
    decreases s.len() - i,
{
    if i < s.len() && !is_line_break(s[i]) {
        lemma_line_break_pos(s, i + 1);
    }
}

pub proof fn lemma_whitespace_pos(s: Seq<char>, i: int)
    requires
        0 <= i <= s.len(),
    ensures
        i <= whitespace_pos(s, i) <= s.len(),
        forall|j: int| i <= j < whitespace_pos(s, i) ==> !is_whitespace(#[trigger] s[j]),
        whitespace_pos(s, i) < s.len() ==> is_whitespace(s[whitespace_pos(s, i)]),
    decreases s.len() - i,
{
    if i < s.len() && !is_whitespace(s[i]) {
        lemma_whitespace_pos(s, i + 1);
    }
}

pub proof fn lemma_parse_keyword_ends(s: Seq<char>, i: int)
    requires
        0 <= i <= s.len(),
    ensures
        parse_keyword(s, i) matches Some((k, e)) ==> i < e <= s.len() && k.len() == e - i,
{
    if 0 <= i < s.len() && is_upper(s[i]) {
        lemma_keyword_end(s, i + 1);
    }
}

pub proof fn lemma_dec_digits_ends(s: Seq<char>, i: int)
    requires
        0 <= i <= s.len(),
    ensures
        dec_digits_end(s, i) matches Some(e) ==> i < e <= s.len(),
{
    if 0 <= i < s.len() && is_nonzero_digit(s[i]) {
        lemma_digit_end(s, i + 1);
    }
}

pub proof fn lemma_parse_integer_ends(s: Seq<char>, i: int)
    requires
        0 <= i <= s.len(),
    ensures
        parse_integer(s, i) matches Some((n, e)) ==> i < e <= s.len(),
{
    lemma_dec_digits_ends(s, i);
}

pub proof fn lemma_parse_float_ends(s: Seq<char>, i: int)
    requires
        0 <= i <= s.len(),
    ensures
        parse_float_text(s, i) matches Some((t, e)) ==> i < e <= s.len(),
{
    let j = if i < s.len() && s[i] == '-' {
        i + 1
    } else {
        i
    };
    lemma_dec_digits_ends(s, i);
    lemma_dec_digits_ends(s, j);
    let k = match dec_digits_end(s, j) {
        Some(e) => e,
        None => j,
    };
    if 0 <= k < s.len() {
        lemma_digit_end(s, k + 1);
    }
}

pub proof fn lemma_parse_hex_ends(s: Seq<char>, i: int)
    requires
        0 <= i <= s.len(),
    ensures
        parse_hex_text(s, i) matches Some((t, e)) ==> i < e <= s.len(),
{
    if 0 <= i && i + 1 < s.len() && s[i] == '0' && (s[i + 1] == 'x' || s[i + 1] == 'X') {
        lemma_hex_digit_end(s, i + 2);
    }
}

pub proof fn lemma_parse_quoted_ends(s: Seq<char>, i: int)
    requires
        0 <= i <= s.len(),
    ensures
        parse_quoted(s, i) matches Some((t, e)) ==> i < e <= s.len(),
{
    if 0 <= i < s.len() && s[i] == '"' {
        lemma_quoted_end(s, i + 1);
    }
}

pub proof fn lemma_parse_resolution_ends(s: Seq<char>, i: int)
    requires
        0 <= i <= s.len(),
    ensures
        parse_resolution(s, i) matches Some((r, e)) ==> i < e <= s.len(),
{
    lemma_parse_integer_ends(s, i);
    match parse_integer(s, i) {
        Some((w, j)) => {
            if j < s.len() && s[j] == 'x' {
                lemma_parse_integer_ends(s, j + 1);
            }
        },
        None => {},
    }
}

pub proof fn lemma_parse_attr_val_ends(s: Seq<char>, i: int)
    requires
        0 <= i <= s.len(),
    ensures
        parse_attr_val(s, i) matches Some((v, e)) ==> i < e <= s.len(),
{
    lemma_parse_hex_ends(s, i);
    lemma_parse_resolution_ends(s, i);
    lemma_parse_float_ends(s, i);
    lemma_parse_integer_ends(s, i);
    lemma_parse_quoted_ends(s, i);
    lemma_parse_keyword_ends(s, i);
}

pub proof fn lemma_parse_attr_ends(s: Seq<char>, i: int)
    requires
        0 <= i <= s.len(),
    ensures
        parse_attr(s, i) matches Some((a, e)) ==> i < e <= s.len(),
{
    lemma_parse_keyword_ends(s, i);
    match parse_keyword(s, i) {
        Some((name, j)) => {
            if j < s.len() && s[j] == '=' {
                lemma_parse_attr_val_ends(s, j + 1);
            }
        },
        None => {},
    }
}

pub proof fn lemma_parse_attrs_ends(s: Seq<char>, i: int)
    requires
        0 <= i <= s.len(),
    ensures
        parse_attrs(s, i) matches Some((attrs, e)) ==> i < e <= s.len(),
    decreases s.len() - i,
{
    lemma_parse_attr_ends(s, i);
    match parse_attr(s, i) {
        Some((a, j)) => {
            if j < s.len() && s[j] == ',' && parse_attr(s, j + 1) is Some {
                lemma_parse_attrs_ends(s, j + 1);
            }
        },
        None => {},
    }
}

pub proof fn lemma_parse_duration_ends(s: Seq<char>, i: int)
    requires
        0 <= i <= s.len(),
    ensures
        parse_duration(s, i) matches Some((t, e)) ==> i < e <= s.len(),
{
    lemma_parse_float_ends(s, i);
    match parse_float_text(s, i) {
        Some((t, j)) => {
            if j < s.len() && s[j] == ',' {
                lemma_line_break_pos(s, j + 1);
            }
        },
        None => {},
    }
}

pub proof fn lemma_parse_tag_args_ends(s: Seq<char>, i: int)
    requires
        0 <= i <= s.len(),
    ensures
        parse_tag_args(s, i) matches Some((args, e)) ==> i < e <= s.len(),
{
    lemma_parse_duration_ends(s, i);
    lemma_parse_attrs_ends(s, i);
    lemma_parse_integer_ends(s, i);
    if 0 <= i < s.len() {
        lemma_line_break_pos(s, i);
    }
}

pub proof fn lemma_parse_maybe_tag_args_ends(s: Seq<char>, i: int)
    requires
        0 <= i <= s.len(),
    ensures
        i <= parse_maybe_tag_args(s, i).1 <= s.len(),
{
    if 0 <= i < s.len() && s[i] == ':' {
        lemma_parse_tag_args_ends(s, i + 1);
    }
}

pub proof fn lemma_parse_line_ending_ends(s: Seq<char>, i: int)
    requires
        0 <= i <= s.len(),
    ensures
        parse_line_ending(s, i) matches Some(e) ==> i < e <= s.len(),
{
}

pub proof fn lemma_parse_tag_name_ends(s: Seq<char>, i: int)
    requires
        0 <= i <= s.len(),
    ensures
        parse_tag_name(s, i) matches Some((name, e)) ==> i < e <= s.len(),
{
    if 0 <= i < s.len() {
        lemma_parse_keyword_ends(s, i + 1);
    }
}

pub proof fn lemma_parse_tag_line_ends(s: Seq<char>, i: int)
    requires
        0 <= i <= s.len(),
    ensures
        parse_tag_line(s, i) matches Some((l, e)) ==> i < e <= s.len(),
{
    lemma_parse_tag_name_ends(s, i);
    match parse_tag_name(s, i) {
        Some((name, j)) => {
            lemma_parse_maybe_tag_args_ends(s, j);
            let (args, k) = parse_maybe_tag_args(s, j);
            lemma_parse_line_ending_ends(s, k);
        },
        None => {},
    }
}

pub proof fn lemma_parse_comment_ends(s: Seq<char>, i: int)
    requires
        0 <= i <= s.len(),
    ensures
        parse_comment(s, i) matches Some(e) ==> i < e <= s.len(),
{
    if 0 <= i < s.len() && s[i] == '#' && !has_ext_prefix(s, i + 1) {
        lemma_line_break_pos(s, i + 1);
        lemma_parse_line_ending_ends(s, line_break_pos(s, i + 1));
    }
}

pub proof fn lemma_parse_uri_ends(s: Seq<char>, i: int)
    requires
        0 <= i <= s.len(),
    ensures
        parse_uri(s, i) matches Some((u, e)) ==> i < e <= s.len(),
{
    if 0 <= i < s.len() && s[i] != '#' && !is_whitespace(s[i]) {
        lemma_whitespace_pos(s, i);
        lemma_parse_line_ending_ends(s, whitespace_pos(s, i));
    }
}

pub proof fn lemma_parse_playlist_line_ends(s: Seq<char>, i: int)
    requires
        0 <= i <= s.len(),
    ensures
        parse_playlist_line(s, i) matches Some((l, e)) ==> i < e <= s.len(),
{
    lemma_parse_line_ending_ends(s, i);
    lemma_parse_tag_line_ends(s, i);
    lemma_parse_comment_ends(s, i);
    lemma_parse_uri_ends(s, i);
}

pub proof fn lemma_parse_lines_ends(s: Seq<char>, i: int)
    requires
        0 <= i <= s.len(),
    ensures
        i <= parse_lines(s, i).1 <= s.len(),
    decreases s.len() - i,
{
    lemma_parse_playlist_line_ends(s, i);
    match parse_playlist_line(s, i) {
        Some((l, j)) => {
            lemma_parse_lines_ends(s, j);
        },
        None => {},
    }
}


// ---------------------------------------------------------------------
// The executable lexer.  Each function returns exactly what the spec
// parser of the same grammar rule describes.
// ---------------------------------------------------------------------

fn scan_keyword_end(s: &str, from: usize) -> (r: usize)
    requires
        from <= s@.len(),
    ensures
        r as int == keyword_end(s@, from as int),
{
    let len = s.unicode_len();
    let mut i: usize = from;
    while i < len
        invariant
            from <= i <= len,
            len == s@.len(),
            keyword_end(s@, from as int) == keyword_end(s@, i as int),
        decreases len - i,
    {
        if !char_is_keyword_char(s.get_char(i)) {
            return i;
        }
        i += 1;
    }
    i
}

fn scan_digit_end(s: &str, from: usize) -> (r: usize)
    requires
        from <= s@.len(),
    ensures
        r as int == digit_end(s@, from as int),
{
    let len = s.unicode_len();
    let mut i: usize = from;
    while i < len
        invariant
            from <= i <= len,
            len == s@.len(),
            digit_end(s@, from as int) == digit_end(s@, i as int),
        decreases len - i,
    {
        if !char_is_digit(s.get_char(i)) {
            return i;
        }
        i += 1;
    }
    i
}

fn scan_hex_digit_end(s: &str, from: usize) -> (r: usize)
    requires
        from <= s@.len(),
    ensures
        r as int == hex_digit_end(s@, from as int),
{
    let len = s.unicode_len();
    let mut i: usize = from;
    while i < len
        invariant
            from <= i <= len,
            len == s@.len(),
            hex_digit_end(s@, from as int) == hex_digit_end(s@, i as int),
        decreases len - i,
    {
        if !char_is_hex_digit(s.get_char(i)) {
            return i;
        }
        i += 1;
    }
    i
}

fn scan_quoted_end(s: &str, from: usize) -> (r: usize)
    requires
        from <= s@.len(),
    ensures
        r as int == quoted_end(s@, from as int),
{
    let len = s.unicode_len();
    let mut i: usize = from;
    while i < len
        invariant
            from <= i <= len,
            len == s@.len(),
            quoted_end(s@, from as int) == quoted_end(s@, i as int),
        decreases len - i,
    {
        let c = s.get_char(i);
        if c == '"' || char_is_line_break(c) {
            return i;
        }
        i += 1;
    }
    i
}

fn scan_line_break(s: &str, from: usize) -> (r: usize)
    requires
        from <= s@.len(),
    ensures
        r as int == line_break_pos(s@, from as int),
{
    let len = s.unicode_len();
    let mut i: usize = from;
    while i < len
        invariant
            from <= i <= len,
            len == s@.len(),
            line_break_pos(s@, from as int) == line_break_pos(s@, i as int),
        decreases len - i,
    {
        if char_is_line_break(s.get_char(i)) {
            return i;
        }
        i += 1;
    }
    i
}

fn scan_whitespace(s: &str, from: usize) -> (r: usize)
    requires
        from <= s@.len(),
    ensures
        r as int == whitespace_pos(s@, from as int),
{
    let len = s.unicode_len();
    let mut i: usize = from;
    while i < len
        invariant
            from <= i <= len,
            len == s@.len(),
            whitespace_pos(s@, from as int) == whitespace_pos(s@, i as int),
        decreases len - i,
    {
        if char_is_whitespace(s.get_char(i)) {
            return i;
        }
        i += 1;
    }
    i
}

/// Lex a keyword: an upper-case letter followed by keyword characters.
pub fn keyword1(s: &str, from: usize) -> (r: Option<(String, usize)>)
    requires
        from <= s@.len(),
    ensures
        match r {
            Some((k, e)) => parse_keyword(s@, from as int) == Some((k@, e as int)) && e
                <= s@.len(),
            None => parse_keyword(s@, from as int) is None,
        },
{
    let len = s.unicode_len();
    if from >= len || !char_is_upper(s.get_char(from)) {
        return None;
    }
    let e = scan_keyword_end(s, from + 1);
    proof {
        lemma_keyword_end(s@, from as int + 1);
    }
    let text = s.substring_char(from, e).to_owned();
    Some((text, e))
}

/// Lex an unquoted enum keyword; the same rule as `keyword1`.
pub fn enum_string(s: &str, from: usize) -> (r: Option<(String, usize)>)
    requires
        from <= s@.len(),
    ensures
        match r {
            Some((k, e)) => parse_keyword(s@, from as int) == Some((k@, e as int)) && e
                <= s@.len(),
            None => parse_keyword(s@, from as int) is None,
        },
{
    keyword1(s, from)
}

/// Lex a quoted string; the value is the text between the quotes.
pub fn quoted_string(s: &str, from: usize) -> (r: Option<(String, usize)>)
    requires
        from <= s@.len(),
    ensures
        match r {
            Some((t, e)) => parse_quoted(s@, from as int) == Some((t@, e as int)) && e <= s@.len(),
            None => parse_quoted(s@, from as int) is None,
        },
{
    let len = s.unicode_len();
    if from >= len || s.get_char(from) != '"' {
        return None;
    }
    let e = scan_quoted_end(s, from + 1);
    proof {
        lemma_quoted_end(s@, from as int + 1);
    }
    if e < len && s.get_char(e) == '"' {
        let text = s.substring_char(from + 1, e).to_owned();
        Some((text, e + 1))
    } else {
        None
    }
}

/// Lex a decimal integer: a single `0`, or a nonzero digit followed by
/// digits; a value that does not fit in a `u64` fails.
pub fn integer(s: &str, from: usize) -> (r: Option<(u64, usize)>)
    requires
        from <= s@.len(),
    ensures
        match r {
            Some((n, e)) => parse_integer(s@, from as int) == Some((n, e as int)) && e
                <= s@.len(),
            None => parse_integer(s@, from as int) is None,
        },
{
    let len = s.unicode_len();
    if from >= len {
        return None;
    }
    let c = s.get_char(from);
    let end: usize;
    if c == '0' {
        end = from + 1;
    } else if char_is_nonzero_digit(c) {
        end = scan_digit_end(s, from + 1);
        proof {
            lemma_digit_end(s@, from as int + 1);
        }
    } else {
        return None;
    }
    proof {
        assert(dec_digits_end(s@, from as int) == Some(end as int));
    }
    let ghost text = s@.subrange(from as int, end as int);
    let mut val: u64 = 0;
    let mut i: usize = from;
    while i < end
        invariant
            from <= i <= end <= s@.len(),
            end <= usize::MAX,
            forall|j: int| from <= j < end ==> is_digit(#[trigger] s@[j]),
            val as nat == digits_val(s@.subrange(from as int, i as int)),
            text == s@.subrange(from as int, end as int),
            digits_val(text) <= u64::MAX ==> parse_integer(s@, from as int) == Some(
                (digits_val(text) as u64, end as int),
            ),
            digits_val(text) > u64::MAX ==> parse_integer(s@, from as int) is None,
        decreases end - i,
    {
        let c = s.get_char(i);
        let d: u64 = (c as u32 - 48) as u64;
        proof {
            assert(d as nat == crate::text::char_digit_val(s@[i as int]));
            assert(s@.subrange(from as int, i as int + 1).drop_last() =~= s@.subrange(
                from as int,
                i as int,
            ));
            assert(s@.subrange(from as int, i as int + 1).last() == s@[i as int]);
        }
        let m = match val.checked_mul(10) {
            Some(m) => m,
            None => {
                proof {
                    lemma_digits_val_prefix(text, i as int + 1 - from);
                    assert(text.take(i as int + 1 - from) =~= s@.subrange(
                        from as int,
                        i as int + 1,
                    ));
                }
                return None;
            },
        };
        let v2 = match m.checked_add(d) {
            Some(v) => v,
            None => {
                proof {
                    lemma_digits_val_prefix(text, i as int + 1 - from);
                    assert(text.take(i as int + 1 - from) =~= s@.subrange(
                        from as int,
                        i as int + 1,
                    ));
                }
                return None;
            },
        };
        val = v2;
        i += 1;
    }
    proof {
        assert(s@.subrange(from as int, end as int) == text);
    }
    Some((val, end))
}

/// Lex a float: optional `-`, optional digit run, `.`, one or more
/// digits.  The raw matched text is kept; the library never turns it
/// into a machine float.
pub fn float(s: &str, from: usize) -> (r: Option<(FloatLit, usize)>)
    requires
        from <= s@.len(),
    ensures
        match r {
            Some((f, e)) => parse_float_text(s@, from as int) == Some((f@, e as int)) && e
                <= s@.len(),
            None => parse_float_text(s@, from as int) is None,
        },
{
    let len = s.unicode_len();
    let mut j: usize = from;
    if from < len && s.get_char(from) == '-' {
        j = from + 1;
    }
    let mut k: usize = j;
    if j < len {
        let c = s.get_char(j);
        if c == '0' {
            k = j + 1;
        } else if char_is_nonzero_digit(c) {
            k = scan_digit_end(s, j + 1);
            proof {
                lemma_digit_end(s@, j as int + 1);
            }
        }
    }
    if k < len && s.get_char(k) == '.' {
        let m = scan_digit_end(s, k + 1);
        proof {
            lemma_digit_end(s@, k as int + 1);
        }
        if m > k + 1 {
            let text = s.substring_char(from, m).to_owned();
            return Some((FloatLit { text }, m));
        }
    }
    None
}

/// Lex a hex sequence: `0x` or `0X` followed by hex digits; the value is
/// the digit text without the prefix.
pub fn hex_sequence(s: &str, from: usize) -> (r: Option<(String, usize)>)
    requires
        from <= s@.len(),
    ensures
        match r {
            Some((t, e)) => parse_hex_text(s@, from as int) == Some((t@, e as int)) && e
                <= s@.len(),
            None => parse_hex_text(s@, from as int) is None,
        },
{
    let len = s.unicode_len();
    if from >= len || len - from < 2 || s.get_char(from) != '0' {
        return None;
    }
    let x = s.get_char(from + 1);
    if x != 'x' && x != 'X' {
        return None;
    }
    let e = scan_hex_digit_end(s, from + 2);
    proof {
        lemma_hex_digit_end(s@, from as int + 2);
    }
    if e > from + 2 {
        let text = s.substring_char(from + 2, e).to_owned();
        Some((text, e))
    } else {
        None
    }
}

/// Lex a resolution: integer `x` integer.
pub fn resolution(s: &str, from: usize) -> (r: Option<(Resolution, usize)>)
    requires
        from <= s@.len(),
    ensures
        match r {
            Some((v, e)) => parse_resolution(s@, from as int) == Some((v, e as int)) && e
                <= s@.len(),
            None => parse_resolution(s@, from as int) is None,
        },
{
    let len = s.unicode_len();
    let (w, j) = match integer(s, from) {
        Some(x) => x,
        None => {
            return None;
        },
    };
    if j < len && s.get_char(j) == 'x' {
        match integer(s, j + 1) {
            Some((h, k)) => Some((Resolution { width: w, height: h }, k)),
            None => None,
        }
    } else {
        None
    }
}

/// Lex a tag name: `#` followed by a keyword that begins with `EXT`.
pub fn tag_name(s: &str, from: usize) -> (r: Option<(String, usize)>)
    requires
        from <= s@.len(),
    ensures
        match r {
            Some((name, e)) => parse_tag_name(s@, from as int) == Some((name@, e as int)) && e
                <= s@.len(),
            None => parse_tag_name(s@, from as int) is None,
        },
{
    let len = s.unicode_len();
    if from >= len || s.get_char(from) != '#' {
        return None;
    }
    if len - from < 4 {
        return None;
    }
    if s.get_char(from + 1) != 'E' || s.get_char(from + 2) != 'X' || s.get_char(from + 3) != 'T' {
        return None;
    }
    keyword1(s, from + 1)
}

/// Lex a line ending: `\r\n` or `\n`.
pub fn line_ending(s: &str, from: usize) -> (r: Option<usize>)
    requires
        from <= s@.len(),
    ensures
        match r {
            Some(e) => parse_line_ending(s@, from as int) == Some(e as int) && e <= s@.len(),
            None => parse_line_ending(s@, from as int) is None,
        },
{
    let len = s.unicode_len();
    if from < len && len - from >= 2 && s.get_char(from) == '\r' && s.get_char(from + 1) == '\n' {
        Some(from + 2)
    } else if from < len && s.get_char(from) == '\n' {
        Some(from + 1)
    } else {
        None
    }
}

/// Lex a comment: `#` not followed by `EXT`, up to and including the
/// line ending.
pub fn comment(s: &str, from: usize) -> (r: Option<usize>)
    requires
        from <= s@.len(),
    ensures
        match r {
            Some(e) => parse_comment(s@, from as int) == Some(e as int) && e <= s@.len(),
            None => parse_comment(s@, from as int) is None,
        },
{
    let len = s.unicode_len();
    if from >= len || s.get_char(from) != '#' {
        return None;
    }
    if len - from >= 4 && s.get_char(from + 1) == 'E' && s.get_char(from + 2) == 'X' && s.get_char(
        from + 3,
    ) == 'T' {
        return None;
    }
    let b = scan_line_break(s, from + 1);
    proof {
        lemma_line_break_pos(s@, from as int + 1);
    }
    line_ending(s, b)
}

/// Lex the `EXTINF` argument form: float, `,`, then anything up to the
/// line break; the trailing title is consumed and dropped.
pub fn duration_name(s: &str, from: usize) -> (r: Option<(FloatLit, usize)>)
    requires
        from <= s@.len(),
    ensures
        match r {
            Some((f, e)) => parse_duration(s@, from as int) == Some((f@, e as int)) && e
                <= s@.len(),
            None => parse_duration(s@, from as int) is None,
        },
{
    let len = s.unicode_len();
    let (f, j) = match float(s, from) {
        Some(x) => x,
        None => {
            return None;
        },
    };
    if j < len && s.get_char(j) == ',' {
        let e = scan_line_break(s, j + 1);
        proof {
            lemma_line_break_pos(s@, j as int + 1);
        }
        Some((f, e))
    } else {
        None
    }
}

/// Lex one attribute value, trying the six shapes in grammar order.
pub fn attr_val(s: &str, from: usize) -> (r: Option<(AttributeValue, usize)>)
    requires
        from <= s@.len(),
    ensures
        match r {
            Some((v, e)) => parse_attr_val(s@, from as int) == Some((v@, e as int)) && e
                <= s@.len(),
            None => parse_attr_val(s@, from as int) is None,
        },
{
    proof {
        lemma_parse_hex_ends(s@, from as int);
        lemma_parse_resolution_ends(s@, from as int);
        lemma_parse_float_ends(s@, from as int);
        lemma_parse_integer_ends(s@, from as int);
        lemma_parse_quoted_ends(s@, from as int);
        lemma_parse_keyword_ends(s@, from as int);
    }
    if let Some((t, e)) = hex_sequence(s, from) {
        return Some((AttributeValue::Hex(HexSequence::new(t)), e));
    }
    if let Some((v, e)) = resolution(s, from) {
        return Some((AttributeValue::Resolution(v), e));
    }
    if let Some((t, e)) = float(s, from) {
        return Some((AttributeValue::Float(t), e));
    }
    if let Some((n, e)) = integer(s, from) {
        return Some((AttributeValue::Integer(n), e));
    }
    if let Some((t, e)) = quoted_string(s, from) {
        return Some((AttributeValue::QuotedString(t), e));
    }
    if let Some((t, e)) = keyword1(s, from) {
        return Some((AttributeValue::Keyword(t), e));
    }
    None
}

/// Lex one `NAME=value` attribute.
pub fn attr(s: &str, from: usize) -> (r: Option<(Attribute, usize)>)
    requires
        from <= s@.len(),
    ensures
        match r {
            Some((a, e)) => parse_attr(s@, from as int) == Some((a@, e as int)) && e <= s@.len(),
            None => parse_attr(s@, from as int) is None,
        },
{
    let len = s.unicode_len();
    let (name, j) = match keyword1(s, from) {
        Some(x) => x,
        None => {
            return None;
        },
    };
    if j < len && s.get_char(j) == '=' {
        match attr_val(s, j + 1) {
            Some((v, e)) => Some((Attribute { name, value: v }, e)),
            None => None,
        }
    } else {
        None
    }
}

proof fn lemma_parse_attrs_some(s: Seq<char>, i: int)
    requires
        0 <= i <= s.len(),
        parse_attr(s, i) is Some,
    ensures
        parse_attrs(s, i) is Some,
    decreases s.len() - i,
{
    lemma_parse_attr_ends(s, i);
    match parse_attr(s, i) {
        Some((a, j)) => {
            if j < s.len() && s[j] == ',' && parse_attr(s, j + 1) is Some {
                lemma_parse_attrs_some(s, j + 1);
            }
        },
        None => {},
    }
}

/// Lex one or more attributes separated by commas.
pub fn attrs(s: &str, from: usize) -> (r: Option<(Vec<Attribute>, usize)>)
    requires
        from <= s@.len(),
    ensures
        match r {
            Some((v, e)) => parse_attrs(s@, from as int) == Some(
                (v@.map_values(|a: Attribute| a@), e as int),
            ) && e <= s@.len(),
            None => parse_attrs(s@, from as int) is None,
        },
{
    let len = s.unicode_len();
    let (first, mut cur) = match attr(s, from) {
        Some(x) => x,
        None => {
            return None;
        },
    };
    let ghost a0 = first@;
    let mut acc: Vec<Attribute> = Vec::new();
    acc.push(first);
    proof {
        lemma_parse_attr_ends(s@, from as int);
        assert(acc@.map_values(|a: Attribute| a@) =~= seq![a0]);
        if cur < s@.len() && s@[cur as int] == ',' && parse_attr(s@, cur as int + 1) is Some {
            lemma_parse_attrs_some(s@, cur as int + 1);
            let (rest, e) = parse_attrs(s@, cur as int + 1)->Some_0;
            assert(parse_attrs(s@, from as int) == Some((seq![a0] + rest, e)));
        } else {
            assert(parse_attrs(s@, from as int) == Some((seq![a0], cur as int)));
        }
    }
    loop
        invariant
            from <= cur <= s@.len(),
            cur <= usize::MAX,
            len == s@.len(),
            ({
                let views = acc@.map_values(|a: Attribute| a@);
                if cur < s@.len() && s@[cur as int] == ',' && parse_attr(s@, cur as int + 1)
                    is Some {
                    parse_attrs(s@, cur as int + 1) matches Some((rest, e)) && parse_attrs(
                        s@,
                        from as int,
                    ) == Some((views + rest, e)) && cur as int + 1 <= s@.len()
                } else {
                    parse_attrs(s@, from as int) == Some((views, cur as int))
                }
            }),
        decreases s@.len() - cur,
    {
        proof {
            if cur < s@.len() && s@[cur as int] == ',' {
                lemma_parse_attr_ends(s@, cur as int + 1);
                if parse_attr(s@, cur as int + 1) is Some {
                    lemma_parse_attrs_some(s@, cur as int + 1);
                }
            }
        }
        if cur < len && s.get_char(cur) == ',' {
            match attr(s, cur + 1) {
                Some((a, j)) => {
                    let ghost av = a@;
                    let ghost old_views = acc@.map_values(|x: Attribute| x@);
                    acc.push(a);
                    proof {
                        let views = acc@.map_values(|x: Attribute| x@);
                        assert(views =~= old_views.push(av));
                        let (rest, e) = parse_attrs(s@, cur as int + 1)->Some_0;
                        if j < s@.len() && s@[j as int] == ',' && parse_attr(s@, j as int + 1)
                            is Some {
                            lemma_parse_attrs_some(s@, j as int + 1);
                            let (rest2, e2) = parse_attrs(s@, j as int + 1)->Some_0;
                            assert(rest =~= seq![av] + rest2);
                            assert(old_views + rest =~= views + rest2);
                        } else {
                            assert(rest =~= seq![av]);
                            assert(old_views + rest =~= views);
                        }
                    }
                    cur = j;
                },
                None => {
                    return Some((acc, cur));
                },
            }
        } else {
            return Some((acc, cur));
        }
    }
}

/// Lex tag arguments after the `:`, in grammar order.
pub fn tag_args(s: &str, from: usize) -> (r: Option<(TagArgs, usize)>)
    requires
        from <= s@.len(),
    ensures
        match r {
            Some((args, e)) => parse_tag_args(s@, from as int) == Some((args@, e as int)) && e
                <= s@.len(),
            None => parse_tag_args(s@, from as int) is None,
        },
{
    proof {
        lemma_parse_duration_ends(s@, from as int);
        lemma_parse_attrs_ends(s@, from as int);
        lemma_parse_integer_ends(s@, from as int);
        if (from as int) < s@.len() {
            lemma_line_break_pos(s@, from as int);
        }
    }
    let len = s.unicode_len();
    if let Some((f, e)) = duration_name(s, from) {
        return Some((TagArgs::Float(f), e));
    }
    if let Some((v, e)) = attrs(s, from) {
        return Some((TagArgs::Attributes(v), e));
    }
    if let Some((n, e)) = integer(s, from) {
        if line_ending(s, e).is_some() {
            return Some((TagArgs::Integer(n), e));
        }
    }
    if from < len && !char_is_line_break(s.get_char(from)) {
        let b = scan_line_break(s, from);
        let text = s.substring_char(from, b).to_owned();
        return Some((TagArgs::Str(text), b));
    }
    None
}

/// Lex the optional argument part of a tag: `:` and arguments, or
/// nothing.
pub fn maybe_tag_args(s: &str, from: usize) -> (r: (TagArgs, usize))
    requires
        from <= s@.len(),
    ensures
        parse_maybe_tag_args(s@, from as int) == (r.0@, r.1 as int),
        r.1 <= s@.len(),
{
    let len = s.unicode_len();
    if from < len && s.get_char(from) == ':' {
        match tag_args(s, from + 1) {
            Some((args, e)) => (args, e),
            None => (TagArgs::Empty, from),
        }
    } else {
        (TagArgs::Empty, from)
    }
}

/// Lex a whole tag line, including its line ending.
pub fn playlist_tag(s: &str, from: usize) -> (r: Option<(RawLine, usize)>)
    requires
        from <= s@.len(),
    ensures
        match r {
            Some((l, e)) => parse_tag_line(s@, from as int) == Some((l@, e as int)) && e
                <= s@.len(),
            None => parse_tag_line(s@, from as int) is None,
        },
{
    proof {
        lemma_parse_tag_name_ends(s@, from as int);
    }
    let (name, j) = match tag_name(s, from) {
        Some(x) => x,
        None => {
            return None;
        },
    };
    let (args, k) = maybe_tag_args(s, j);
    match line_ending(s, k) {
        Some(e) => Some((RawLine::Tag { name, args }, e)),
        None => None,
    }
}

/// Lex a URI line, including its line ending.
pub fn uri(s: &str, from: usize) -> (r: Option<(RawLine, usize)>)
    requires
        from <= s@.len(),
    ensures
        match r {
            Some((l, e)) => parse_uri(s@, from as int) matches Some((u, pe)) && l@
                == RawLineModel::Uri(u) && e as int == pe && e <= s@.len(),
            None => parse_uri(s@, from as int) is None,
        },
{
    let len = s.unicode_len();
    if from >= len {
        return None;
    }
    let c = s.get_char(from);
    if c == '#' || char_is_whitespace(c) {
        return None;
    }
    let e = scan_whitespace(s, from);
    proof {
        lemma_whitespace_pos(s@, from as int);
    }
    match line_ending(s, e) {
        Some(k) => {
            let text = s.substring_char(from, e).to_owned();
            Some((RawLine::Uri(text), k))
        },
        None => None,
    }
}

/// Lex one input line: blank, tag, comment or URI.  Blank lines and
/// comments yield no `RawLine`.
pub fn playlist_line(s: &str, from: usize) -> (r: Option<(Option<RawLine>, usize)>)
    requires
        from <= s@.len(),
    ensures
        match r {
            Some((l, e)) => {
                &&& parse_playlist_line(s@, from as int) matches Some((lm, pe))
                &&& e as int == pe
                &&& e <= s@.len()
                &&& match l {
                    Some(line) => lm == Some(line@),
                    None => lm is None,
                }
            },
            None => parse_playlist_line(s@, from as int) is None,
        },
{
    if let Some(e) = line_ending(s, from) {
        return Some((None, e));
    }
    if let Some((l, e)) = playlist_tag(s, from) {
        return Some((Some(l), e));
    }
    if let Some(e) = comment(s, from) {
        return Some((None, e));
    }
    if let Some((l, e)) = uri(s, from) {
        return Some((Some(l), e));
    }
    None
}

/// Lex lines greedily from a position; the result is the meaningful
/// lines and the first position no line could be parsed from.
pub fn all_tags(s: &str, from: usize) -> (r: (Vec<RawLine>, usize))
    requires
        from <= s@.len(),
    ensures
        parse_lines(s@, from as int) == (r.0@.map_values(|l: RawLine| l@), r.1 as int),
        r.1 <= s@.len(),
{
    let mut lines: Vec<RawLine> = Vec::new();
    let mut cur: usize = from;
    proof {
        assert(lines@.map_values(|l: RawLine| l@) =~= Seq::<RawLineModel>::empty());
        assert(Seq::<RawLineModel>::empty() + parse_lines(s@, from as int).0 =~= parse_lines(
            s@,
            from as int,
        ).0);
    }
    loop
        invariant
            from <= cur <= s@.len(),
            ({
                let views = lines@.map_values(|l: RawLine| l@);
                let (rest, e) = parse_lines(s@, cur as int);
                parse_lines(s@, from as int) == ((views + rest), e)
            }),
        decreases s@.len() - cur,
    {
        proof {
            lemma_parse_playlist_line_ends(s@, cur as int);
        }
        match playlist_line(s, cur) {
            Some((opt, j)) => {
                let ghost old_views = lines@.map_values(|l: RawLine| l@);
                let ghost (rest_old, e_old) = parse_lines(s@, cur as int);
                match opt {
                    Some(l) => {
                        let ghost lv = l@;
                        lines.push(l);
                        proof {
                            let views = lines@.map_values(|x: RawLine| x@);
                            assert(views =~= old_views.push(lv));
                            let (rest_new, e_new) = parse_lines(s@, j as int);
                            assert(rest_old =~= seq![lv] + rest_new);
                            assert(old_views + rest_old =~= views + rest_new);
                        }
                    },
                    None => {
                        proof {
                            let (rest_new, e_new) = parse_lines(s@, j as int);
                            assert(rest_old =~= rest_new);
                        }
                    },
                }
                cur = j;
            },
            None => {
                proof {
                    let views = lines@.map_values(|l: RawLine| l@);
                    assert(parse_lines(s@, cur as int) == (Seq::<RawLineModel>::empty(), cur as int));
                    assert(views + Seq::<RawLineModel>::empty() =~= views);
                }
                return (lines, cur);
            },
        }
    }
}

/// A lexed playlist: the meaningful lines of one manifest version.
#[derive(Debug, Clone, PartialEq, Eq)]
pub struct Manifest {
    lines: Vec<RawLine>,
}

impl View for Manifest {
    type V = Seq<RawLineModel>;

    closed spec fn view(&self) -> Seq<RawLineModel> {
        self.lines@.map_values(|l: RawLine| l@)
    }
}

impl Manifest {
    /// Lex a whole playlist.  The input must be non-empty and parse
    /// completely; any unconsumed suffix is a `Syntax` error.
    pub fn parse(s: &str) -> (r: Result<Manifest, Error>)
        ensures
            match r {
                Ok(m) => spec_parse_manifest(s@) == Some(m@),
                Err(e) => spec_parse_manifest(s@) is None && e == Error::Syntax,
            },
    {
        let len = s.unicode_len();
        let (lines, end) = all_tags(s, 0);
        if len > 0 && end == len {
            Ok(Manifest { lines })
        } else {
            Err(Error::Syntax)
        }
    }

    /// The lexed lines.
    pub fn lines(&self) -> (r: &Vec<RawLine>)
        ensures
            r@.map_values(|l: RawLine| l@) == self@,
    {
        &self.lines
    }

    /// A manifest built directly from lines, as the watcher tests use.
    pub fn from_lines(lines: Vec<RawLine>) -> (r: Manifest)
        ensures
            r@ == lines@.map_values(|l: RawLine| l@),
    {
        Manifest { lines }
    }
}

} // verus!
