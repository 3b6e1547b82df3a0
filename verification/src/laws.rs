//! Round-trip laws of the lexer: a well-formed line, rendered to text,
//! lexes back to itself.  Rendering exists only at the specification
//! level; playlist authoring is not part of the library.

use vstd::prelude::*;
use crate::lexer::{
    dec_digits_end, digit_end, has_ext_prefix, hex_digit_end, keyword_end, line_break_pos,
    parse_attr, parse_attr_val, parse_attrs, parse_comment, parse_duration, parse_float_text,
    parse_hex_text, parse_integer, parse_keyword, parse_line_ending, parse_maybe_tag_args,
    parse_playlist_line, parse_quoted, parse_resolution, parse_tag_args, parse_tag_line,
    parse_tag_name, parse_uri, quoted_end, whitespace_pos, AttributeModel, AttrValueModel,
    RawLineModel, TagArgsModel,
};
use crate::text::{
    is_digit, is_hex_digit, is_keyword_char, is_line_break, is_nonzero_digit, is_upper,
    is_whitespace, lemma_digits_val_of_u64_digits, spec_u64_digits,
};
use crate::Resolution;

verus! {

// ---------------------------------------------------------------------
// Scan characterizations: each scanner stops exactly where its
// character class first fails.
// ---------------------------------------------------------------------

proof fn lemma_digit_end_is(s: Seq<char>, i: int, j: int)
    requires
        0 <= i <= j <= s.len(),
        forall|k: int| i <= k < j ==> is_digit(#[trigger] s[k]),
        j == s.len() || !is_digit(s[j]),
    ensures
        digit_end(s, i) == j,
    decreases j - i,
{
    if i < j {
        lemma_digit_end_is(s, i + 1, j);
    }
}

proof fn lemma_keyword_end_is(s: Seq<char>, i: int, j: int)
    requires
        0 <= i <= j <= s.len(),
        forall|k: int| i <= k < j ==> is_keyword_char(#[trigger] s[k]),
        j == s.len() || !is_keyword_char(s[j]),
    ensures
        keyword_end(s, i) == j,
    decreases j - i,
{
    if i < j {
        lemma_keyword_end_is(s, i + 1, j);
    }
}

proof fn lemma_hex_digit_end_is(s: Seq<char>, i: int, j: int)
    requires
        0 <= i <= j <= s.len(),
        forall|k: int| i <= k < j ==> is_hex_digit(#[trigger] s[k]),
        j == s.len() || !is_hex_digit(s[j]),
    ensures
        hex_digit_end(s, i) == j,
    decreases j - i,
{
    if i < j {
        lemma_hex_digit_end_is(s, i + 1, j);
    }
}

proof fn lemma_quoted_end_is(s: Seq<char>, i: int, j: int)
    requires
        0 <= i <= j <= s.len(),
        forall|k: int| i <= k < j ==> (#[trigger] s[k]) != '"' && !is_line_break(s[k]),
        j == s.len() || s[j] == '"' || is_line_break(s[j]),
    ensures
        quoted_end(s, i) == j,
    decreases j - i,
{
    if i < j {
        lemma_quoted_end_is(s, i + 1, j);
    }
}

proof fn lemma_line_break_pos_is(s: Seq<char>, i: int, j: int)
    requires
        0 <= i <= j <= s.len(),
        forall|k: int| i <= k < j ==> !is_line_break(#[trigger] s[k]),
        j == s.len() || is_line_break(s[j]),
    ensures
        line_break_pos(s, i) == j,
    decreases j - i,
{
    if i < j {
        lemma_line_break_pos_is(s, i + 1, j);
    }
}

proof fn lemma_whitespace_pos_is(s: Seq<char>, i: int, j: int)
    requires
        0 <= i <= j <= s.len(),
        forall|k: int| i <= k < j ==> !is_whitespace(#[trigger] s[k]),
        j == s.len() || is_whitespace(s[j]),
    ensures
        whitespace_pos(s, i) == j,
    decreases j - i,
{
    if i < j {
        lemma_whitespace_pos_is(s, i + 1, j);
    }
}

// ---------------------------------------------------------------------
// Well-formedness: what the lexer can actually produce.
// ---------------------------------------------------------------------

/// A keyword: an upper-case letter followed by keyword characters.
pub open spec fn wf_keyword(k: Seq<char>) -> bool {
    k.len() > 0 && is_upper(k[0]) && forall|i: int| 0 <= i < k.len() ==> is_keyword_char(
        #[trigger] k[i],
    )
}

/// A float literal: exactly the float grammar, nothing left over.
pub open spec fn wf_float(t: Seq<char>) -> bool {
    parse_float_text(t, 0) == Some((t, t.len() as int))
}

/// A quoted-string body: no quote and no line break.
pub open spec fn wf_quoted(s: Seq<char>) -> bool {
    forall|i: int| 0 <= i < s.len() ==> (#[trigger] s[i]) != '"' && !is_line_break(s[i])
}

/// A hex digit sequence: non-empty, hex digits only.
pub open spec fn wf_hex(t: Seq<char>) -> bool {
    t.len() > 0 && forall|i: int| 0 <= i < t.len() ==> is_hex_digit(#[trigger] t[i])
}

/// A well-formed attribute value.  A resolution needs a nonzero width:
/// `0xH` is indistinguishable from a hex sequence and lexes as one.
pub open spec fn wf_attr_value(v: AttrValueModel) -> bool {
    match v {
        AttrValueModel::Integer(n) => true,
        AttrValueModel::Hex(t) => wf_hex(t),
        AttrValueModel::Float(t) => wf_float(t),
        AttrValueModel::QuotedString(s) => wf_quoted(s),
        AttrValueModel::Keyword(k) => wf_keyword(k),
        AttrValueModel::Resolution(r) => r.width > 0,
    }
}

pub open spec fn wf_attr(a: AttributeModel) -> bool {
    wf_keyword(a.name) && wf_attr_value(a.value)
}

pub open spec fn wf_attrs(attrs: Seq<AttributeModel>) -> bool {
    attrs.len() > 0 && forall|i: int| 0 <= i < attrs.len() ==> wf_attr(#[trigger] attrs[i])
}

/// A URI line: non-empty, no whitespace, not beginning with `#`.
pub open spec fn wf_uri(u: Seq<char>) -> bool {
    u.len() > 0 && u[0] != '#' && forall|i: int| 0 <= i < u.len() ==> !is_whitespace(
        #[trigger] u[i],
    )
}

/// A tag name: a keyword beginning with `EXT`.
pub open spec fn wf_tag_name(name: Seq<char>) -> bool {
    wf_keyword(name) && name.len() >= 3 && name[0] == 'E' && name[1] == 'X' && name[2] == 'T'
}

// ---------------------------------------------------------------------
// Rendering, at the specification level only.
// ---------------------------------------------------------------------

pub open spec fn render_attr_value(v: AttrValueModel) -> Seq<char> {
    match v {
        AttrValueModel::Integer(n) => spec_u64_digits(n as nat),
        AttrValueModel::Hex(t) => seq!['0', 'x'] + t,
        AttrValueModel::Float(t) => t,
        AttrValueModel::QuotedString(s) => seq!['"'] + s + seq!['"'],
        AttrValueModel::Keyword(k) => k,
        AttrValueModel::Resolution(r) => spec_u64_digits(r.width as nat) + seq!['x']
            + spec_u64_digits(r.height as nat),
    }
}

pub open spec fn render_attr(a: AttributeModel) -> Seq<char> {
    a.name + seq!['='] + render_attr_value(a.value)
}

pub open spec fn render_attrs(attrs: Seq<AttributeModel>) -> Seq<char>
    decreases attrs.len(),
{
    if attrs.len() == 0 {
        Seq::empty()
    } else if attrs.len() == 1 {
        render_attr(attrs[0])
    } else {
        render_attr(attrs[0]) + seq![','] + render_attrs(attrs.skip(1))
    }
}

pub open spec fn render_args(args: TagArgsModel) -> Seq<char> {
    match args {
        TagArgsModel::Attributes(attrs) => seq![':'] + render_attrs(attrs),
        TagArgsModel::Integer(n) => seq![':'] + spec_u64_digits(n as nat),
        TagArgsModel::Float(t) => seq![':'] + t + seq![','],
        TagArgsModel::Str(t) => seq![':'] + t,
        TagArgsModel::Empty => Seq::empty(),
    }
}

pub open spec fn render_line(l: RawLineModel) -> Seq<char> {
    match l {
        RawLineModel::Tag { name, args } => seq!['#'] + name + render_args(args) + seq!['\n'],
        RawLineModel::Uri(u) => u + seq!['\n'],
    }
}

/// A string argument is well-formed when, in its rendered position, none
/// of the earlier argument alternatives matches it.
pub open spec fn wf_str_args(t: Seq<char>) -> bool {
    let s = seq![':'] + t + seq!['\n'];
    &&& t.len() > 0
    &&& (forall|i: int| 0 <= i < t.len() ==> !is_line_break(#[trigger] t[i]))
    &&& parse_duration(s, 1) is None
    &&& parse_attrs(s, 1) is None
    &&& !(parse_integer(s, 1) matches Some((n, e)) && parse_line_ending(s, e) is Some)
}

pub open spec fn wf_args(args: TagArgsModel) -> bool {
    match args {
        TagArgsModel::Attributes(attrs) => wf_attrs(attrs),
        TagArgsModel::Integer(n) => true,
        TagArgsModel::Float(t) => wf_float(t),
        TagArgsModel::Str(t) => wf_str_args(t),
        TagArgsModel::Empty => true,
    }
}

/// A well-formed line: one the lexer itself could have produced.
pub open spec fn wf_line(l: RawLineModel) -> bool {
    match l {
        RawLineModel::Tag { name, args } => wf_tag_name(name) && wf_args(args),
        RawLineModel::Uri(u) => wf_uri(u),
    }
}

// ---------------------------------------------------------------------
// Round trips of the pieces.  Each lemma places the rendered text in
// front of an arbitrary continuation whose first character stops the
// piece's grammar.
// ---------------------------------------------------------------------

/// A value-position stopper: end of input, a comma, or a line break.
pub open spec fn stops_value(rest: Seq<char>) -> bool {
    rest.len() == 0 || rest[0] == ',' || is_line_break(rest[0])
}

proof fn lemma_keyword_round_trip(k: Seq<char>, rest: Seq<char>)
    requires
        wf_keyword(k),
        rest.len() == 0 || !is_keyword_char(rest[0]),
    ensures
        parse_keyword(k + rest, 0) == Some((k, k.len() as int)),
{
    let s = k + rest;
    lemma_keyword_end_is(s, 1, k.len() as int);
    assert(s.subrange(0, k.len() as int) =~= k);
}

proof fn lemma_integer_round_trip(n: u64, rest: Seq<char>)
    requires
        rest.len() == 0 || !is_digit(rest[0]),
    ensures
        parse_integer(spec_u64_digits(n as nat) + rest, 0) == Some(
            (n, spec_u64_digits(n as nat).len() as int),
        ),
{
    let d = spec_u64_digits(n as nat);
    let s = d + rest;
    lemma_digits_val_of_u64_digits(n as nat);
    if n < 10 {
        if n == 0 {
            assert(s[0] == '0');
            assert(dec_digits_end(s, 0) == Some(1int));
        } else {
            assert(is_nonzero_digit(s[0]));
            lemma_digit_end_is(s, 1, 1);
            assert(dec_digits_end(s, 0) == Some(1int));
        }
        assert(s.subrange(0, 1) =~= d);
    } else {
        assert(d[0] != '0');
        assert(is_digit(d[0]));
        assert(is_nonzero_digit(s[0]));
        lemma_digit_end_is(s, 1, d.len() as int);
        assert(dec_digits_end(s, 0) == Some(d.len() as int));
        assert(s.subrange(0, d.len() as int) =~= d);
    }
}

proof fn lemma_float_round_trip(t: Seq<char>, rest: Seq<char>)
    requires
        wf_float(t),
        rest.len() == 0 || !is_digit(rest[0]),
    ensures
        parse_float_text(t + rest, 0) == Some((t, t.len() as int)),
{
    let s = t + rest;
    let j: int = if t.len() > 0 && t[0] == '-' {
        1
    } else {
        0
    };
    let k: int = match dec_digits_end(t, j) {
        Some(e) => e,
        None => j,
    };
    crate::lexer::lemma_dec_digits_ends(t, j);
    assert(k < t.len() && t[k] == '.');
    let m = digit_end(t, k + 1);
    crate::lexer::lemma_digit_end(t, k + 1);
    assert(m == t.len() && m > k + 1);
    // the same structure holds of the extended string
    let js: int = if s.len() > 0 && s[0] == '-' {
        1
    } else {
        0
    };
    assert(js == j);
    match dec_digits_end(t, j) {
        Some(e) => {
            if t[j] == '0' {
                assert(dec_digits_end(s, j) == Some(j + 1));
            } else {
                crate::lexer::lemma_digit_end(t, j + 1);
                lemma_digit_end_is(s, j + 1, e);
                assert(dec_digits_end(s, j) == Some(e));
            }
        },
        None => {
            assert(dec_digits_end(s, j) is None);
        },
    }
    lemma_digit_end_is(s, k + 1, t.len() as int);
    assert(s.subrange(0, t.len() as int) =~= t);
}

proof fn lemma_quoted_round_trip(q: Seq<char>, rest: Seq<char>)
    requires
        wf_quoted(q),
    ensures
        parse_quoted(seq!['"'] + q + seq!['"'] + rest, 0) == Some((q, q.len() as int + 2)),
{
    let s = seq!['"'] + q + seq!['"'] + rest;
    lemma_quoted_end_is(s, 1, q.len() as int + 1);
    assert(s[q.len() as int + 1] == '"');
    assert(s.subrange(1, q.len() as int + 1) =~= q);
}

proof fn lemma_hex_round_trip(t: Seq<char>, rest: Seq<char>)
    requires
        wf_hex(t),
        rest.len() == 0 || !is_hex_digit(rest[0]),
    ensures
        parse_hex_text(seq!['0', 'x'] + t + rest, 0) == Some((t, t.len() as int + 2)),
{
    let s = seq!['0', 'x'] + t + rest;
    lemma_hex_digit_end_is(s, 2, t.len() as int + 2);
    assert(s.subrange(2, t.len() as int + 2) =~= t);
}

proof fn lemma_resolution_round_trip_at(r: Resolution, rest: Seq<char>)
    requires
        rest.len() == 0 || !is_digit(rest[0]),
    ensures
        parse_resolution(
            spec_u64_digits(r.width as nat) + seq!['x'] + spec_u64_digits(r.height as nat) + rest,
            0,
        ) == Some(
            (
                r,
                (spec_u64_digits(r.width as nat).len() + 1 + spec_u64_digits(
                    r.height as nat,
                ).len()) as int,
            ),
        ),
{
    let dw = spec_u64_digits(r.width as nat);
    let dh = spec_u64_digits(r.height as nat);
    let s = dw + seq!['x'] + dh + rest;
    lemma_digits_val_of_u64_digits(r.width as nat);
    lemma_digits_val_of_u64_digits(r.height as nat);
    assert((seq!['x'] + dh + rest)[0] == 'x');
    assert(!is_digit('x'));
    assert(s =~= dw + (seq!['x'] + dh + rest));
    lemma_integer_round_trip(r.width, seq!['x'] + dh + rest);
    assert(parse_integer(s, 0) == Some((r.width, dw.len() as int)));
    assert(s[dw.len() as int] == 'x');
    // the height digits with the final continuation
    lemma_integer_round_trip(r.height, rest);
    lemma_parse_integer_shift(dh + rest, s, dw.len() as int + 1);
    assert(parse_integer(s, dw.len() as int + 1) == Some((r.height, (dw.len() + 1 + dh.len()) as int)));
}

/// Parsing an integer depends only on the text from the start position.
proof fn lemma_parse_integer_shift(t: Seq<char>, s: Seq<char>, off: int)
    requires
        0 <= off <= s.len(),
        s.len() - off == t.len(),
        forall|i: int| 0 <= i < t.len() ==> s[off + i] == #[trigger] t[i],
    ensures
        parse_integer(t, 0) matches Some((n, e)) ==> parse_integer(s, off) == Some((n, off + e)),
        parse_integer(t, 0) is None ==> parse_integer(s, off) is None,
{
    assert(s.skip(off) =~= t);
    lemma_parse_integer_suffix(s, off);
}

/// Parsing an integer at a position equals parsing the suffix at zero.
proof fn lemma_parse_integer_suffix(s: Seq<char>, off: int)
    requires
        0 <= off <= s.len(),
    ensures
        parse_integer(s, off) == (match parse_integer(s.skip(off), 0) {
            Some((n, e)) => Some((n, off + e)),
            None => None,
        }),
{
    let t = s.skip(off);
    assert forall|k2: int| off <= k2 < s.len() implies s[k2] == t[k2 - off] by {
        assert(t[k2 - off] == s[k2]);
    }
    if 0 < t.len() {
        assert(t[0] == s[off]);
    }
    if off < s.len() && s[off] == '0' {
        assert(dec_digits_end(s, off) == Some(off + 1));
        assert(dec_digits_end(t, 0) == Some(1int));
        assert(s.subrange(off, off + 1) =~= t.subrange(0, 1));
    } else if off < s.len() && is_nonzero_digit(s[off]) {
        crate::lexer::lemma_digit_end(t, 1);
        let e = digit_end(t, 1);
        lemma_digit_end_is(s, off + 1, off + e);
        assert(s.subrange(off, off + e) =~= t.subrange(0, e));
    }
}

#[verifier::rlimit(100)]
proof fn lemma_attr_val_round_trip(v: AttrValueModel, rest: Seq<char>)
    requires
        wf_attr_value(v),
        stops_value(rest),
    ensures
        parse_attr_val(render_attr_value(v) + rest, 0) == Some(
            (v, render_attr_value(v).len() as int),
        ),
{
    let rv = render_attr_value(v);
    let s = rv + rest;
    assert(rest.len() == 0 || (!is_digit(rest[0]) && !is_hex_digit(rest[0]) && !is_keyword_char(
        rest[0],
    ) && rest[0] != '.' && rest[0] != 'x'));
    match v {
        AttrValueModel::Hex(t) => {
            assert(s =~= seq!['0', 'x'] + t + rest);
            lemma_hex_round_trip(t, rest);
        },
        AttrValueModel::Resolution(r) => {
            let dw = spec_u64_digits(r.width as nat);
            let dh = spec_u64_digits(r.height as nat);
            lemma_digits_val_of_u64_digits(r.width as nat);
            lemma_digits_val_of_u64_digits(r.height as nat);
            assert(s =~= dw + seq!['x'] + dh + rest);
            // not hex: the width has no leading zero
            assert(s[0] == dw[0]);
            assert(s[0] != '0');
            assert(parse_hex_text(s, 0) is None);
            lemma_resolution_round_trip_at(r, rest);
        },
        AttrValueModel::Float(t) => {
            assert(s =~= t + rest);
            lemma_float_round_trip(t, rest);
            // not hex: a float is `-`, a digit run and a dot; if it
            // starts with 0 the next character is the dot
            let j: int = if t.len() > 0 && t[0] == '-' {
                1
            } else {
                0
            };
            let k: int = match dec_digits_end(t, j) {
                Some(e) => e,
                None => j,
            };
            assert(k < t.len() && t[k] == '.');
            if t[0] == '0' {
                assert(dec_digits_end(t, 0) == Some(1int));
                assert(t[1] == '.');
                assert(parse_hex_text(s, 0) is None);
            } else {
                assert(parse_hex_text(s, 0) is None);
            }
            // not a resolution: the integer prefix (if any) ends at the dot
            crate::lexer::lemma_dec_digits_ends(t, j);
            if j == 0 {
                match dec_digits_end(t, 0) {
                    Some(e) => {
                        if t[0] == '0' {
                            assert(dec_digits_end(s, 0) == Some(1int));
                        } else {
                            crate::lexer::lemma_digit_end(t, 1);
                            lemma_digit_end_is(s, 1, e);
                        }
                        assert(s[k] == '.');
                        assert(parse_resolution(s, 0) is None);
                    },
                    None => {
                        assert(!is_digit(t[0]) || t[0] == '0');
                        assert(parse_resolution(s, 0) is None);
                    },
                }
            } else {
                assert(t[0] == '-');
                assert(parse_integer(s, 0) is None);
                assert(parse_resolution(s, 0) is None);
            }
        },
        AttrValueModel::Integer(n) => {
            let d = spec_u64_digits(n as nat);
            lemma_digits_val_of_u64_digits(n as nat);
            assert(s =~= d + rest);
            lemma_integer_round_trip(n, rest);
            // not hex: either it does not start with 0, or the next
            // character is not `x`
            if n == 0 {
                assert(d.len() == 1);
                assert(s.len() == 1 + rest.len());
                assert(parse_hex_text(s, 0) is None);
            } else {
                assert(s[0] != '0');
                assert(parse_hex_text(s, 0) is None);
            }
            // not a resolution: after the digits there is no `x`
            assert(parse_integer(s, 0) == Some((n, d.len() as int)));
            assert(parse_resolution(s, 0) is None);
            // not a float: after the digit run there is no dot
            if d[0] == '0' {
                assert(dec_digits_end(s, 0) == Some(1int));
                assert(parse_float_text(s, 0) is None);
            } else {
                crate::lexer::lemma_digit_end(d, 1);
                lemma_digit_end_is(s, 1, d.len() as int);
                assert(parse_float_text(s, 0) is None);
            }
        },
        AttrValueModel::QuotedString(q) => {
            assert(s =~= seq!['"'] + q + seq!['"'] + rest);
            assert(s[0] == '"');
            assert(parse_hex_text(s, 0) is None);
            assert(parse_integer(s, 0) is None);
            assert(parse_resolution(s, 0) is None);
            assert(parse_float_text(s, 0) is None);
            lemma_quoted_round_trip(q, rest);
        },
        AttrValueModel::Keyword(k) => {
            assert(s =~= k + rest);
            assert(s[0] == k[0]);
            assert(is_upper(s[0]));
            assert(parse_hex_text(s, 0) is None);
            assert(parse_integer(s, 0) is None);
            assert(parse_resolution(s, 0) is None);
            assert(parse_float_text(s, 0) is None);
            assert(parse_quoted(s, 0) is None);
            lemma_keyword_round_trip(k, rest);
        },
    }
}

proof fn lemma_attr_round_trip(a: AttributeModel, rest: Seq<char>)
    requires
        wf_attr(a),
        stops_value(rest),
    ensures
        parse_attr(render_attr(a) + rest, 0) == Some((a, render_attr(a).len() as int)),
{
    let s = render_attr(a) + rest;
    let tail = seq!['='] + render_attr_value(a.value) + rest;
    assert(s =~= a.name + tail);
    assert(tail[0] == '=');
    assert(!is_keyword_char('='));
    lemma_keyword_round_trip(a.name, tail);
    assert(s[a.name.len() as int] == '=');
    lemma_attr_val_round_trip(a.value, rest);
    lemma_parse_attr_val_shift(render_attr_value(a.value) + rest, s, a.name.len() as int + 1);
}

/// Parsing an attribute value depends only on the text from the start
/// position.
proof fn lemma_parse_attr_val_shift(t: Seq<char>, s: Seq<char>, off: int)
    requires
        0 <= off <= s.len(),
        s.len() - off == t.len(),
        forall|i: int| 0 <= i < t.len() ==> s[off + i] == #[trigger] t[i],
    ensures
        parse_attr_val(t, 0) matches Some((v, e)) ==> parse_attr_val(s, off) == Some(
            (v, off + e),
        ),
    decreases 0int,
{
    assert(s.skip(off) =~= t);
    lemma_parse_suffix_all(s, off);
}

/// Each value grammar rule parses a position exactly as it parses the
/// suffix beginning there.
proof fn lemma_parse_hex_suffix(s: Seq<char>, off: int)
    requires
        0 <= off <= s.len(),
    ensures
        parse_hex_text(s, off) == (match parse_hex_text(s.skip(off), 0) {
            Some((t, e)) => Some((t, off + e)),
            None => None,
        }),
{
    let t = s.skip(off);
    assert forall|k2: int| off <= k2 < s.len() implies s[k2] == t[k2 - off] by {
        assert(t[k2 - off] == s[k2]);
    }
    if off + 1 < s.len() && s[off] == '0' && (s[off + 1] == 'x' || s[off + 1] == 'X') {
        crate::lexer::lemma_hex_digit_end(t, 2);
        let e = hex_digit_end(t, 2);
        lemma_hex_digit_end_is(s, off + 2, off + e);
        assert(s.subrange(off + 2, off + e) =~= t.subrange(2, e));
    }
}

proof fn lemma_parse_resolution_suffix(s: Seq<char>, off: int)
    requires
        0 <= off <= s.len(),
    ensures
        parse_resolution(s, off) == (match parse_resolution(s.skip(off), 0) {
            Some((r, e)) => Some((r, off + e)),
            None => None,
        }),
{
    let t = s.skip(off);
    assert forall|k2: int| off <= k2 < s.len() implies s[k2] == t[k2 - off] by {
        assert(t[k2 - off] == s[k2]);
    }
    lemma_parse_integer_suffix(s, off);
    match parse_integer(t, 0) {
        Some((w, j)) => {
            crate::lexer::lemma_parse_integer_ends(t, 0);
            if j < t.len() && t[j] == 'x' {
                assert(t.skip(j + 1) =~= s.skip(off + j + 1));
                lemma_parse_integer_suffix(s, off + j + 1);
                lemma_parse_integer_suffix(t, j + 1);
            }
        },
        None => {},
    }
}

proof fn lemma_parse_float_at_suffix(s: Seq<char>, off: int)
    requires
        0 <= off <= s.len(),
    ensures
        parse_float_text(s, off) == (match parse_float_text(s.skip(off), 0) {
            Some((t, e)) => Some((t, off + e)),
            None => None,
        }),
{
    let t = s.skip(off);
    assert forall|k2: int| off <= k2 < s.len() implies s[k2] == t[k2 - off] by {
        assert(t[k2 - off] == s[k2]);
    }
    let j: int = if t.len() > 0 && t[0] == '-' {
        1
    } else {
        0
    };
    assert(off + j <= s.len());
    match dec_digits_end(t, j) {
        Some(e) => {
            crate::lexer::lemma_dec_digits_ends(t, j);
            if t[j] == '0' {
                assert(dec_digits_end(s, off + j) == Some(off + j + 1));
            } else {
                crate::lexer::lemma_digit_end(t, j + 1);
                lemma_digit_end_is(s, off + j + 1, off + e);
            }
            let k = e;
            if k < t.len() && t[k] == '.' {
                crate::lexer::lemma_digit_end(t, k + 1);
                let m = digit_end(t, k + 1);
                lemma_digit_end_is(s, off + k + 1, off + m);
                assert(s.subrange(off, off + m) =~= t.subrange(0, m));
            }
        },
        None => {
            let k = j;
            if k < t.len() && t[k] == '.' {
                crate::lexer::lemma_digit_end(t, k + 1);
                let m = digit_end(t, k + 1);
                lemma_digit_end_is(s, off + k + 1, off + m);
                assert(s.subrange(off, off + m) =~= t.subrange(0, m));
            }
        },
    }
}

proof fn lemma_parse_quoted_suffix(s: Seq<char>, off: int)
    requires
        0 <= off <= s.len(),
    ensures
        parse_quoted(s, off) == (match parse_quoted(s.skip(off), 0) {
            Some((t, e)) => Some((t, off + e)),
            None => None,
        }),
{
    let t = s.skip(off);
    assert forall|k2: int| off <= k2 < s.len() implies s[k2] == t[k2 - off] by {
        assert(t[k2 - off] == s[k2]);
    }
    if off < s.len() && s[off] == '"' {
        crate::lexer::lemma_quoted_end(t, 1);
        let e = quoted_end(t, 1);
        lemma_quoted_end_is(s, off + 1, off + e);
        assert(s.subrange(off + 1, off + e) =~= t.subrange(1, e));
    }
}

proof fn lemma_parse_keyword_at_suffix(s: Seq<char>, off: int)
    requires
        0 <= off <= s.len(),
    ensures
        parse_keyword(s, off) == (match parse_keyword(s.skip(off), 0) {
            Some((t, e)) => Some((t, off + e)),
            None => None,
        }),
{
    let t = s.skip(off);
    assert forall|k2: int| off <= k2 < s.len() implies s[k2] == t[k2 - off] by {
        assert(t[k2 - off] == s[k2]);
    }
    if off < s.len() && is_upper(s[off]) {
        crate::lexer::lemma_keyword_end(t, 1);
        let e = keyword_end(t, 1);
        lemma_keyword_end_is(s, off + 1, off + e);
        assert(s.subrange(off, off + e) =~= t.subrange(0, e));
    }
}

proof fn lemma_parse_suffix_all(s: Seq<char>, off: int)
    requires
        0 <= off <= s.len(),
    ensures
        parse_hex_text(s, off) == (match parse_hex_text(s.skip(off), 0) {
            Some((t, e)) => Some((t, off + e)),
            None => None,
        }),
        parse_resolution(s, off) == (match parse_resolution(s.skip(off), 0) {
            Some((r, e)) => Some((r, off + e)),
            None => None,
        }),
        parse_float_text(s, off) == (match parse_float_text(s.skip(off), 0) {
            Some((t, e)) => Some((t, off + e)),
            None => None,
        }),
        parse_integer(s, off) == (match parse_integer(s.skip(off), 0) {
            Some((n, e)) => Some((n, off + e)),
            None => None,
        }),
        parse_quoted(s, off) == (match parse_quoted(s.skip(off), 0) {
            Some((t, e)) => Some((t, off + e)),
            None => None,
        }),
        parse_keyword(s, off) == (match parse_keyword(s.skip(off), 0) {
            Some((t, e)) => Some((t, off + e)),
            None => None,
        }),
        parse_attr_val(s, off) == (match parse_attr_val(s.skip(off), 0) {
            Some((v, e)) => Some((v, off + e)),
            None => None,
        }),
{
    lemma_parse_hex_suffix(s, off);
    lemma_parse_resolution_suffix(s, off);
    lemma_parse_float_at_suffix(s, off);
    lemma_parse_integer_suffix(s, off);
    lemma_parse_quoted_suffix(s, off);
    lemma_parse_keyword_at_suffix(s, off);
}

#[verifier::rlimit(100)]
#[verifier::spinoff_prover]
proof fn lemma_attrs_round_trip(attrs: Seq<AttributeModel>, rest: Seq<char>)
    requires
        wf_attrs(attrs),
        rest.len() == 0 || is_line_break(rest[0]),
    ensures
        parse_attrs(render_attrs(attrs) + rest, 0) == Some(
            (attrs, render_attrs(attrs).len() as int),
        ),
    decreases attrs.len(),
{
    let s = render_attrs(attrs) + rest;
    if attrs.len() == 1 {
        assert(s =~= render_attr(attrs[0]) + rest);
        lemma_attr_round_trip(attrs[0], rest);
        let e = render_attr(attrs[0]).len() as int;
        assert(e == s.len() || is_line_break(s[e]));
        assert(parse_attrs(s, 0) == Some((seq![attrs[0]], e)));
        assert(seq![attrs[0]] =~= attrs);
    } else {
        let tail = seq![','] + render_attrs(attrs.skip(1)) + rest;
        assert(s =~= render_attr(attrs[0]) + tail);
        lemma_attr_round_trip(attrs[0], tail);
        let e = render_attr(attrs[0]).len() as int;
        assert(parse_attr(s, 0) == Some((attrs[0], e)));
        assert(s[e] == ',');
        assert forall|i: int| 0 <= i < attrs.skip(1).len() implies wf_attr(
            #[trigger] attrs.skip(1)[i],
        ) by {
            assert(attrs.skip(1)[i] == attrs[i + 1]);
        }
        lemma_attrs_round_trip(attrs.skip(1), rest);
        assert((render_attrs(attrs.skip(1)) + rest) =~= s.skip(e + 1));
        lemma_parse_attr_suffix(s, e + 1);
        lemma_parse_attrs_suffix(s, e + 1);
        assert(attrs.skip(1).len() > 0);
        assert(wf_attr(attrs.skip(1)[0]));
        assert(parse_attrs(s.skip(e + 1), 0) == Some(
            (attrs.skip(1), render_attrs(attrs.skip(1)).len() as int),
        ));
        crate::lexer::lemma_parse_attrs_ends(s.skip(e + 1), 0);
        assert(parse_attr(s, e + 1) is Some) by {
            crate::lexer::lemma_parse_attr_ends(s.skip(e + 1), 0);
            assert(parse_attr(s.skip(e + 1), 0) is Some);
        }
        assert(parse_attrs(s, e + 1) == Some(
            (attrs.skip(1), e + 1 + render_attrs(attrs.skip(1)).len() as int),
        ));
        assert(seq![attrs[0]] + attrs.skip(1) =~= attrs);
        assert(e + 1 + render_attrs(attrs.skip(1)).len() as int == render_attrs(attrs).len() as int);
        assert(parse_attrs(s, 0) == Some(
            (seq![attrs[0]] + attrs.skip(1), e + 1 + render_attrs(attrs.skip(1)).len() as int),
        ));
    }
}

/// Attribute parsing at a position equals parsing the suffix there.
proof fn lemma_parse_attr_suffix(s: Seq<char>, off: int)
    requires
        0 <= off <= s.len(),
    ensures
        parse_attr(s, off) == (match parse_attr(s.skip(off), 0) {
            Some((a, e)) => Some((a, off + e)),
            None => None,
        }),
{
    let t = s.skip(off);
    lemma_parse_suffix_all(s, off);
    match parse_keyword(t, 0) {
        Some((name, j)) => {
            crate::lexer::lemma_parse_keyword_ends(t, 0);
            if j < t.len() && t[j] == '=' {
                assert(t.skip(j + 1) =~= s.skip(off + j + 1));
                lemma_parse_suffix_all(s, off + j + 1);
                lemma_parse_suffix_all(t, j + 1);
            }
        },
        None => {},
    }
}

/// Attribute-list parsing at a position equals parsing the suffix there.
#[verifier::rlimit(80)]
proof fn lemma_parse_attrs_suffix(s: Seq<char>, off: int)
    requires
        0 <= off <= s.len(),
    ensures
        parse_attrs(s, off) == (match parse_attrs(s.skip(off), 0) {
            Some((attrs, e)) => Some((attrs, off + e)),
            None => None,
        }),
    decreases s.len() - off,
{
    let t = s.skip(off);
    lemma_parse_attr_suffix(s, off);
    match parse_attr(t, 0) {
        Some((a, j)) => {
            crate::lexer::lemma_parse_attr_ends(t, 0);
            assert(parse_attr(s, off) == Some((a, off + j)));
            if j < t.len() && t[j] == ',' {
                assert(t[j] == s[off + j]);
                assert(t.skip(j + 1) =~= s.skip(off + j + 1));
                lemma_parse_attr_suffix(s, off + j + 1);
                lemma_parse_attr_suffix(t, j + 1);
                if parse_attr(t, j + 1) is Some {
                    lemma_parse_attrs_suffix(s, off + j + 1);
                    lemma_parse_attrs_suffix(t, j + 1);
                }
            }
        },
        None => {},
    }
}

/// Rendering a resolution as `WIDTHxHEIGHT` and parsing it back
/// yields the same width and height, consuming the whole text.
pub proof fn lemma_resolution_round_trip(w: u64, h: u64)
    ensures
        parse_resolution(crate::decode::resolution_text(Resolution { width: w, height: h }), 0)
            == Some(
            (
                Resolution { width: w, height: h },
                crate::decode::resolution_text(Resolution { width: w, height: h }).len() as int,
            ),
        ),
{
    let r = Resolution { width: w, height: h };
    let text = crate::decode::resolution_text(r);
    assert(text =~= spec_u64_digits(w as nat) + seq!['x'] + spec_u64_digits(h as nat)
        + Seq::<char>::empty());
    lemma_resolution_round_trip_at(r, Seq::empty());
    lemma_digits_val_of_u64_digits(w as nat);
    lemma_digits_val_of_u64_digits(h as nat);
}

#[verifier::rlimit(100)]
proof fn lemma_tag_args_round_trip(args: TagArgsModel, rest: Seq<char>)
    requires
        wf_args(args),
        rest.len() > 0 && is_line_break(rest[0]),
        parse_line_ending(rest, 0) is Some,
        args is Str ==> rest == seq!['\n'],
    ensures
        parse_maybe_tag_args(render_args(args) + rest, 0) == (
            args,
            render_args(args).len() as int,
        ),
    decreases 0int,
{
    let s = render_args(args) + rest;
    match args {
        TagArgsModel::Empty => {
            assert(s =~= rest);
            assert(s[0] != ':');
        },
        TagArgsModel::Integer(n) => {
            let d = spec_u64_digits(n as nat);
            lemma_digits_val_of_u64_digits(n as nat);
            assert(s[0] == ':');
            assert(s.skip(1) =~= d + rest);
            lemma_parse_suffix_all(s, 1);
            lemma_integer_round_trip(n, rest);
            assert(parse_integer(s, 1) == Some((n, 1 + d.len() as int)));
            // duration fails: no dot after the digit run
            if d[0] == '0' {
                assert(dec_digits_end(s.skip(1), 0) == Some(1int));
            } else {
                crate::lexer::lemma_digit_end(d, 1);
                lemma_digit_end_is(s.skip(1), 1, d.len() as int);
            }
            assert(parse_float_text(s.skip(1), 0) is None);
            assert(parse_duration(s.skip(1), 1 - 1) is None);
            lemma_parse_duration_suffix(s, 1);
            // attrs fail: a digit begins no keyword
            assert(!is_upper(s[1]));
            assert(parse_keyword(s, 1) is None);
            assert(parse_attrs(s, 1) is None);
            assert(parse_line_ending(s, 1 + d.len() as int) is Some) by {
                let pos = 1 + d.len() as int;
                assert(s[pos] == rest[0]);
                if rest[0] == '\r' {
                    assert(rest.len() >= 2 && rest[1] == '\n');
                    assert(s[pos + 1] == rest[1]);
                }
            }
        },
        TagArgsModel::Float(t) => {
            assert(s[0] == ':');
            assert(s.skip(1) =~= t + seq![','] + rest);
            assert(t + seq![','] + rest =~= t + (seq![','] + rest));
            lemma_float_round_trip(t, seq![','] + rest);
            lemma_parse_float_suffix(s, 1);
            assert((t + seq![','] + rest)[t.len() as int] == ',');
            assert(parse_float_text(s, 1) == Some((t, 1 + t.len() as int)));
            assert(s[1 + t.len() as int] == ',');
            lemma_line_break_pos_is(s, t.len() as int + 2, t.len() as int + 2);
            assert(parse_duration(s, 1) == Some((t, t.len() as int + 2)));
        },
        TagArgsModel::Attributes(attrs) => {
            assert(s[0] == ':');
            assert(s.skip(1) =~= render_attrs(attrs) + rest);
            // duration fails: an attribute list begins with a keyword
            let ra = render_attrs(attrs);
            assert(wf_attr(attrs[0]));
            if attrs.len() == 1 {
                assert(ra =~= render_attr(attrs[0]));
            }
            assert(ra[0] == attrs[0].name[0]);
            assert(is_upper(s[1]));
            assert(parse_float_text(s.skip(1), 0) is None);
            lemma_parse_duration_suffix(s, 1);
            assert(parse_duration(s.skip(1), 0) is None);
            lemma_attrs_round_trip(attrs, rest);
            lemma_parse_attrs_suffix(s, 1);
            assert(parse_attrs(s, 1) == Some((attrs, 1 + ra.len() as int)));
        },
        TagArgsModel::Str(t) => {
            assert(s[0] == ':');
            assert(s.skip(1) =~= t + seq!['\n']);
            assert(s =~= seq![':'] + t + seq!['\n']);
            lemma_parse_duration_suffix(s, 1);
            lemma_parse_attrs_suffix(s, 1);
            lemma_parse_integer_suffix(s, 1);
            assert(parse_duration(seq![':'] + t + seq!['\n'], 1) is None);
            assert((seq![':'] + t + seq!['\n']).skip(1) =~= s.skip(1));
            lemma_parse_duration_suffix(seq![':'] + t + seq!['\n'], 1);
            lemma_parse_attrs_suffix(seq![':'] + t + seq!['\n'], 1);
            lemma_parse_integer_suffix(seq![':'] + t + seq!['\n'], 1);
            assert(parse_duration(s, 1) is None);
            assert(parse_attrs(s, 1) is None);
            match parse_integer(s, 1) {
                Some((n, e)) => {
                    assert(parse_line_ending(s, e) is None) by {
                        lemma_line_ending_agree(s, seq![':'] + t + seq!['\n'], e);
                    }
                },
                None => {},
            }
            assert(!is_line_break(s[1]));
            lemma_line_break_pos_is(s, 1, 1 + t.len() as int);
            assert(s.subrange(1, 1 + t.len() as int) =~= t);
        },
    }
}

proof fn lemma_line_ending_agree(s: Seq<char>, t: Seq<char>, e: int)
    requires
        s =~= t,
    ensures
        parse_line_ending(s, e) == parse_line_ending(t, e),
{
}

/// Duration parsing at a position equals parsing the suffix there.
proof fn lemma_parse_duration_suffix(s: Seq<char>, off: int)
    requires
        0 <= off <= s.len(),
    ensures
        parse_duration(s, off) == (match parse_duration(s.skip(off), 0) {
            Some((t, e)) => Some((t, off + e)),
            None => None,
        }),
{
    let t = s.skip(off);
    assert forall|k2: int| off <= k2 < s.len() implies s[k2] == t[k2 - off] by {
        assert(t[k2 - off] == s[k2]);
    }
    lemma_parse_float_suffix(s, off);
    match parse_float_text(t, 0) {
        Some((ft, j)) => {
            crate::lexer::lemma_parse_float_ends(t, 0);
            if j < t.len() && t[j] == ',' {
                crate::lexer::lemma_line_break_pos(t, j + 1);
                let e = line_break_pos(t, j + 1);
                lemma_line_break_pos_is(s, off + j + 1, off + e);
            }
        },
        None => {},
    }
}

proof fn lemma_parse_float_suffix(s: Seq<char>, off: int)
    requires
        0 <= off <= s.len(),
    ensures
        parse_float_text(s, off) == (match parse_float_text(s.skip(off), 0) {
            Some((t, e)) => Some((t, off + e)),
            None => None,
        }),
{
    lemma_parse_suffix_all(s, off);
}

/// The lexer round trip: a well-formed line, rendered, lexes back to exactly itself,
/// consuming the whole rendered text.
pub proof fn lemma_lex_round_trip(l: RawLineModel)
    requires
        wf_line(l),
    ensures
        parse_playlist_line(render_line(l), 0) == Some((Some(l), render_line(l).len() as int)),
{
    let s = render_line(l);
    match l {
        RawLineModel::Uri(u) => {
            assert(s =~= u + seq!['\n']);
            assert(s[0] == u[0]);
            assert(parse_line_ending(s, 0) is None);
            assert(parse_tag_name(s, 0) is None);
            assert(parse_comment(s, 0) is None);
            lemma_whitespace_pos_is(s, 0, u.len() as int);
            assert(s.subrange(0, u.len() as int) =~= u);
            assert(parse_uri(s, 0) == Some((u, u.len() as int + 1)));
            assert(parse_tag_line(s, 0) is None);
        },
        RawLineModel::Tag { name, args } => {
            let tail = render_args(args) + seq!['\n'];
            assert(s =~= seq!['#'] + name + tail);
            assert(s[0] == '#');
            assert(parse_line_ending(s, 0) is None);
            // the name round-trips: the next character is `:` or `\n`
            assert(tail.len() > 0);
            assert(tail[0] == ':' || tail[0] == '\n') by {
                match args {
                    TagArgsModel::Empty => {
                        assert(tail[0] == '\n');
                    },
                    _ => {
                        assert(render_args(args)[0] == ':');
                    },
                }
            }
            assert(!is_keyword_char(tail[0]));
            assert((seq!['#'] + name + tail).skip(1) =~= name + tail);
            lemma_keyword_round_trip(name, tail);
            lemma_parse_keyword_suffix(s, 1);
            assert(parse_keyword(s, 1) == Some((name, 1 + name.len() as int)));
            assert(s[1] == 'E' && s[2] == 'X' && s[3] == 'T');
            assert(has_ext_prefix(s, 1));
            assert(parse_tag_name(s, 0) == Some((name, 1 + name.len() as int)));
            // the arguments round-trip
            assert(s.skip(1 + name.len() as int) =~= render_args(args) + seq!['\n']);
            lemma_tag_args_round_trip(args, seq!['\n']);
            lemma_parse_maybe_tag_args_suffix(s, 1 + name.len() as int);
            let k: int = 1 + name.len() as int + render_args(args).len() as int;
            assert(parse_maybe_tag_args(s, 1 + name.len() as int) == (args, k));
            assert(s[k] == '\n');
            assert(parse_line_ending(s, k) == Some(k + 1));
            assert(parse_tag_line(s, 0) == Some(
                (RawLineModel::Tag { name: name, args: args }, s.len() as int),
            ));
        },
    }
}

proof fn lemma_parse_keyword_suffix(s: Seq<char>, off: int)
    requires
        0 <= off <= s.len(),
    ensures
        parse_keyword(s, off) == (match parse_keyword(s.skip(off), 0) {
            Some((t, e)) => Some((t, off + e)),
            None => None,
        }),
{
    lemma_parse_suffix_all(s, off);
}

/// Tag-argument parsing at a position equals parsing the suffix there.
proof fn lemma_parse_maybe_tag_args_suffix(s: Seq<char>, off: int)
    requires
        0 <= off <= s.len(),
    ensures
        parse_maybe_tag_args(s, off) == ({
            let (args, e) = parse_maybe_tag_args(s.skip(off), 0);
            (args, off + e)
        }),
{
    let t = s.skip(off);
    if off < s.len() && s[off] == ':' {
        lemma_parse_tag_args_suffix(s, off + 1);
        assert(t.skip(1) =~= s.skip(off + 1));
        lemma_parse_tag_args_suffix(t, 1);
    }
}

proof fn lemma_parse_tag_args_suffix(s: Seq<char>, off: int)
    requires
        0 <= off <= s.len(),
    ensures
        parse_tag_args(s, off) == (match parse_tag_args(s.skip(off), 0) {
            Some((args, e)) => Some((args, off + e)),
            None => None,
        }),
{
    let t = s.skip(off);
    assert forall|k2: int| off <= k2 < s.len() implies s[k2] == t[k2 - off] by {
        assert(t[k2 - off] == s[k2]);
    }
    lemma_parse_duration_suffix(s, off);
    lemma_parse_attrs_suffix(s, off);
    lemma_parse_integer_suffix(s, off);
    match parse_integer(t, 0) {
        Some((n, e)) => {
            crate::lexer::lemma_parse_integer_ends(t, 0);
            assert(parse_line_ending(s, off + e) == (match parse_line_ending(t, e) {
                Some(x) => Some(off + x),
                None => None,
            })) by {
                if 0 <= e < t.len() {
                    assert(t[e] == s[off + e]);
                }
                if 0 <= e + 1 < t.len() {
                    assert(t[e + 1] == s[off + e + 1]);
                }
            }
        },
        None => {},
    }
    if 0 < t.len() {
        assert(t[0] == s[off]);
        if !is_line_break(t[0]) {
            crate::lexer::lemma_line_break_pos(t, 0);
            let e = line_break_pos(t, 0);
            lemma_line_break_pos_is(s, off, off + e);
            assert(s.subrange(off, off + e) =~= t.subrange(0, e));
        }
    }
}

} // verus!
