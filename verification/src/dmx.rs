//! DMX channel definitions and dimmer values, with their text grammar.
//!
//! The grammar is the project's own:
//! - channel definitions: `n`, `s:n`, `rgb:n`, `w:n`, `rgb:a/b/c`, `w:a/b/c`;
//! - dimmer values: `s(n)`, `rgb(r,g,b)`, `w(w1,w2,w3)`;
//! - target values: `s(..)`, `rgb(..)` and `w(..)` joined by `;`.

use vstd::prelude::*;

use crate::artnet_manager::ArtnetError;
use crate::defs::{DimmingAmount, TargetValue, DIMMING_AMOUNT_MAX};
use crate::strutil::{
    append_chars, chars_of, find_char_from, first_index_of, lemma_index_of_first, render_u64,
    spec_parse_uint, spec_render_uint, spec_split, spec_trim, split_chars, trim_range,
};

verus! {

/// The channels one light occupies: a single channel, a red/green/blue
/// triple, or a warm/neutral/cool white triple.
#[derive(Debug, PartialEq, Eq, Clone, Copy, Structural)]
pub enum ChannelDefinition {
    Single(u16),
    Rgb(u16, u16, u16),
    TriWhite(u16, u16, u16),
}

/// A value for one light, shaped like its channel definition.
#[derive(Debug, PartialEq, Eq, Clone, Copy, Structural)]
pub enum DimmerValue {
    Rgb(u8, u8, u8),
    TriWhite(u8, u8, u8),
    Single(u8),
}

/// A channel definition paired with a value of the same shape.
#[derive(Debug, PartialEq, Eq, Clone, Copy, Structural)]
pub struct ChannelValue {
    pub channel: ChannelDefinition,
    pub value: DimmerValue,
}

/// The channel definitions of one universe, in insertion order.
#[derive(Debug, Clone)]
pub struct UniverseChannelDefinitions {
    pub universe_id: String,
    pub channels: Vec<ChannelDefinition>,
}

/// ASCII lower-casing of one character.
pub open spec fn spec_ascii_lower(c: char) -> char {
    if 'A' <= c && c <= 'Z' {
        (((c as u32) + 32) as u8) as char
    } else {
        c
    }
}

/// ASCII lower-casing of a character sequence.
pub open spec fn spec_lower(s: Seq<char>) -> Seq<char> {
    s.map_values(|c: char| spec_ascii_lower(c))
}

/// Lower-cases ASCII letters in a character vector.
pub fn lower_chars(v: &Vec<char>) -> (r: Vec<char>)
    ensures
        r@ == spec_lower(v@),
{
    let mut r: Vec<char> = Vec::new();
    let mut i: usize = 0;
    while i < v.len()
        invariant
            i <= v.len(),
            r@ == spec_lower(v@.subrange(0, i as int)),
        decreases v.len() - i,
    {
        let c = v[i];
        if 'A' <= c && c <= 'Z' {
            r.push((((c as u32) + 32) as u8) as char);
        } else {
            r.push(c);
        }
        i = i + 1;
        proof {
            assert(r@ =~= spec_lower(v@.subrange(0, i as int)));
        }
    }
    proof {
        assert(r@ =~= spec_lower(v@));
    }
    r
}

/// Copies `v[from..to]` into a fresh vector.
pub fn slice_range(v: &Vec<char>, from: usize, to: usize) -> (r: Vec<char>)
    requires
        from <= to <= v@.len(),
    ensures
        r@ == v@.subrange(from as int, to as int),
{
    let mut r: Vec<char> = Vec::new();
    let mut i = from;
    while i < to
        invariant
            from <= i <= to <= v@.len(),
            r@ == v@.subrange(from as int, i as int),
        decreases to - i,
    {
        r.push(v[i]);
        i = i + 1;
        proof {
            assert(r@ =~= v@.subrange(from as int, i as int));
        }
    }
    proof {
        assert(r@ =~= v@.subrange(from as int, to as int));
    }
    r
}

/// Parses every piece, trimmed, as a number of at most `max`.
pub open spec fn spec_parse_uint_list(pieces: Seq<Seq<char>>, max: int) -> Option<Seq<int>>
    decreases pieces.len(),
{
    if pieces.len() == 0 {
        Some(seq![])
    } else {
        match (
            spec_parse_uint_list(pieces.drop_last(), max),
            spec_parse_uint(spec_trim(pieces.last()), max),
        ) {
            (Some(rest), Some(n)) => Some(rest.push(n)),
            _ => None,
        }
    }
}

proof fn lemma_parse_uint_list_fail(pieces: Seq<Seq<char>>, k: int, max: int)
    requires
        0 <= k < pieces.len(),
        spec_parse_uint(spec_trim(pieces[k]), max) is None,
    ensures
        spec_parse_uint_list(pieces, max) is None,
    decreases pieces.len(),
{
    if k < pieces.len() - 1 {
        assert(pieces.drop_last()[k] == pieces[k]);
        lemma_parse_uint_list_fail(pieces.drop_last(), k, max);
    }
}

/// Parses each piece of `pieces`, trimmed, as a number of at most `max`.
pub fn parse_uint_list(pieces: &Vec<Vec<char>>, max: u64) -> (r: Option<Vec<u64>>)
    ensures
        match r {
            Some(ns) => {
                &&& spec_parse_uint_list(pieces.deep_view(), max as int) == Some(
                    ns@.map_values(|n: u64| n as int),
                )
                &&& forall|i: int| 0 <= i < ns@.len() ==> (#[trigger] ns@[i]) <= max
            },
            None => spec_parse_uint_list(pieces.deep_view(), max as int) is None,
        },
{
    let mut ns: Vec<u64> = Vec::new();
    let mut i: usize = 0;
    while i < pieces.len()
        invariant
            i <= pieces@.len(),
            ns@.len() == i,
            forall|j: int| 0 <= j < i ==> (#[trigger] ns@[j]) <= max,
            spec_parse_uint_list(pieces.deep_view().subrange(0, i as int), max as int) == Some(
                ns@.map_values(|n: u64| n as int),
            ),
        decreases pieces@.len() - i,
    {
        let piece = &pieces[i];
        let t = trim_range(piece, 0, piece.len());
        proof {
            assert(piece@.subrange(0, piece@.len() as int) =~= piece@);
            assert(pieces.deep_view()[i as int] == piece@);
        }
        match crate::strutil::parse_uint_range(&t, 0, t.len(), max) {
            Some(n) => {
                proof {
                    assert(t@.subrange(0, t@.len() as int) =~= t@);
                    let pre = pieces.deep_view().subrange(0, i + 1);
                    assert(pre.drop_last() =~= pieces.deep_view().subrange(0, i as int));
                    assert(pre.last() == piece@);
                    assert(ns@.push(n).map_values(|m: u64| m as int) =~= ns@.map_values(
                        |m: u64| m as int,
                    ).push(n as int));
                }
                ns.push(n);
                i = i + 1;
            },
            None => {
                proof {
                    assert(t@.subrange(0, t@.len() as int) =~= t@);
                    lemma_parse_uint_list_fail(pieces.deep_view(), i as int, max as int);
                }
                return None;
            },
        }
    }
    proof {
        assert(pieces.deep_view().subrange(0, pieces.deep_view().len() as int)
            =~= pieces.deep_view());
    }
    Some(ns)
}

/// The two halves of a channel definition: the type name and the channel
/// list, both trimmed; a missing `:` means a single channel.
pub open spec fn spec_channel_parts(s: Seq<char>) -> (Seq<char>, Seq<char>) {
    if s.contains(':') {
        let i = first_index_of(s, ':');
        (spec_trim(s.subrange(0, i)), spec_trim(s.subrange(i + 1, s.len() as int)))
    } else {
        (seq!['s'], spec_trim(s))
    }
}

/// What parsing a channel definition yields: a value, a plain rejection, or
/// a rejection because the three channels of a triple are not distinct.
pub enum ChannelParse {
    Value(ChannelDefinition),
    BadAddress,
    DuplicateAddress(u16, u16, u16),
}

/// The channel-definition grammar.
pub open spec fn spec_parse_channel_definition(s: Seq<char>) -> ChannelParse {
    let (tp, cp) = spec_channel_parts(s);
    let t = spec_lower(tp);
    match spec_parse_uint_list(spec_split(cp, '/'), 65535) {
        Option::None => ChannelParse::BadAddress,
        Option::Some(ns) => if t == seq!['r', 'g', 'b'] {
            if ns.len() == 1 {
                if ns[0] + 2 <= 65535 {
                    ChannelParse::Value(
                        ChannelDefinition::Rgb(
                            ns[0] as u16,
                            (ns[0] + 1) as u16,
                            (ns[0] + 2) as u16,
                        ),
                    )
                } else {
                    ChannelParse::BadAddress
                }
            } else if ns.len() == 3 {
                if ns[0] == ns[1] || ns[0] == ns[2] || ns[1] == ns[2] {
                    ChannelParse::DuplicateAddress(ns[0] as u16, ns[1] as u16, ns[2] as u16)
                } else {
                    ChannelParse::Value(
                        ChannelDefinition::Rgb(ns[0] as u16, ns[1] as u16, ns[2] as u16),
                    )
                }
            } else {
                ChannelParse::BadAddress
            }
        } else if t == seq!['w'] {
            if ns.len() == 1 {
                if ns[0] + 2 <= 65535 {
                    ChannelParse::Value(
                        ChannelDefinition::TriWhite(
                            ns[0] as u16,
                            (ns[0] + 1) as u16,
                            (ns[0] + 2) as u16,
                        ),
                    )
                } else {
                    ChannelParse::BadAddress
                }
            } else if ns.len() == 3 {
                if ns[0] == ns[1] || ns[0] == ns[2] || ns[1] == ns[2] {
                    ChannelParse::DuplicateAddress(ns[0] as u16, ns[1] as u16, ns[2] as u16)
                } else {
                    ChannelParse::Value(
                        ChannelDefinition::TriWhite(ns[0] as u16, ns[1] as u16, ns[2] as u16),
                    )
                }
            } else {
                ChannelParse::BadAddress
            }
        } else if t == seq!['s'] {
            if ns.len() == 1 {
                ChannelParse::Value(ChannelDefinition::Single(ns[0] as u16))
            } else {
                ChannelParse::BadAddress
            }
        } else {
            ChannelParse::BadAddress
        },
    }
}

/// The message of the distinct-channels rejection.
pub open spec fn spec_duplicate_address_message(a: u16, b: u16, c: u16) -> Seq<char> {
    "rgb or w individual channel addresses must be different: "@ + spec_render_uint(a as int)
        + ", "@ + spec_render_uint(b as int) + ", "@ + spec_render_uint(c as int)
}

impl ChannelDefinition {
    /// Parses a channel definition, accepting exactly the grammar of
    /// [`spec_parse_channel_definition`].
    pub fn parse(s: &str) -> (r: Result<ChannelDefinition, ArtnetError>)
        ensures
            match r {
                Ok(cd) => spec_parse_channel_definition(s@) == ChannelParse::Value(cd),
                Err(e) => match e {
                    ArtnetError::InvalidChannelAddress(m) => {
                        ||| (spec_parse_channel_definition(s@) == ChannelParse::BadAddress && m@
                            == s@)
                        ||| (exists|a: u16, b: u16, c: u16|
                            spec_parse_channel_definition(s@) == ChannelParse::DuplicateAddress(
                                a,
                                b,
                                c,
                            ) && m@ == spec_duplicate_address_message(a, b, c))
                    },
                    _ => false,
                },
            },
    {
        let v = chars_of(s);
        let colon = find_char_from(&v, 0, ':');
        let (tp, cp): (Vec<char>, Vec<char>) = match colon {
            Some(i) => {
                proof {
                    assert(v@.contains(':'));
                    lemma_index_of_first(v@, ':');
                    assert(first_index_of(v@, ':') == i as int);
                }
                let vl = v.len();
                proof {
                    assert(i < vl);
                }
                (trim_range(&v, 0, i), trim_range(&v, i + 1, vl))
            },
            None => {
                proof {
                    if v@.contains(':') {
                        let w = choose|w: int| 0 <= w < v@.len() && v@[w] == ':';
                        assert(false);
                    }
                }
                let mut tp: Vec<char> = Vec::new();
                tp.push('s');
                proof {
                    assert(tp@ =~= seq!['s']);
                    assert(v@.subrange(0, v@.len() as int) =~= v@);
                }
                (tp, trim_range(&v, 0, v.len()))
            },
        };
        let ghost spec_tp = spec_channel_parts(s@).0;
        let ghost spec_cp = spec_channel_parts(s@).1;
        proof {
            assert(tp@ == spec_tp);
            assert(cp@ == spec_cp);
        }
        let pieces = split_chars(&cp, '/');
        let t = lower_chars(&tp);
        match parse_uint_list(&pieces, 65535) {
            None => Err(ArtnetError::InvalidChannelAddress(s.to_owned())),
            Some(ns) => {
                let ghost spec_ns = spec_parse_uint_list(spec_split(spec_cp, '/'), 65535).unwrap();
                proof {
                    assert(spec_ns =~= ns@.map_values(|n: u64| n as int));
                    assert(forall|i: int|
                        0 <= i < ns@.len() ==> spec_ns[i] == (#[trigger] ns@[i]) as int);
                }
                let is_rgb = t.len() == 3 && t[0] == 'r' && t[1] == 'g' && t[2] == 'b';
                let is_w = t.len() == 1 && t[0] == 'w';
                let is_s = t.len() == 1 && t[0] == 's';
                proof {
                    if is_rgb {
                        assert(t@ =~= seq!['r', 'g', 'b']);
                    } else {
                        if t@ == seq!['r', 'g', 'b'] {
                            assert(t@.len() == 3);
                            assert(t@[0] == 'r' && t@[1] == 'g' && t@[2] == 'b');
                        }
                    }
                    if is_w {
                        assert(t@ =~= seq!['w']);
                    } else {
                        if t@ == seq!['w'] {
                            assert(t@.len() == 1 && t@[0] == 'w');
                        }
                    }
                    if is_s {
                        assert(t@ =~= seq!['s']);
                    } else {
                        if t@ == seq!['s'] {
                            assert(t@.len() == 1 && t@[0] == 's');
                        }
                    }
                }
                if is_rgb || is_w {
                    if ns.len() == 1 {
                        let n = ns[0];
                        if n + 2 <= 65535 {
                            let a = n as u16;
                            let b = (n + 1) as u16;
                            let c = (n + 2) as u16;
                            if is_rgb {
                                Ok(ChannelDefinition::Rgb(a, b, c))
                            } else {
                                Ok(ChannelDefinition::TriWhite(a, b, c))
                            }
                        } else {
                            Err(ArtnetError::InvalidChannelAddress(s.to_owned()))
                        }
                    } else if ns.len() == 3 {
                        let a = ns[0] as u16;
                        let b = ns[1] as u16;
                        let c = ns[2] as u16;
                        if a == b || a == c || b == c {
                            let mut m = String::new();
                            m.append(
                                "rgb or w individual channel addresses must be different: ",
                            );
                            append_chars(&mut m, &render_u64(a as u64));
                            m.append(", ");
                            append_chars(&mut m, &render_u64(b as u64));
                            m.append(", ");
                            append_chars(&mut m, &render_u64(c as u64));
                            proof {
                                assert(m@ =~= spec_duplicate_address_message(a, b, c));
                                assert(spec_parse_channel_definition(s@)
                                    == ChannelParse::DuplicateAddress(a, b, c));
                            }
                            Err(ArtnetError::InvalidChannelAddress(m))
                        } else if is_rgb {
                            Ok(ChannelDefinition::Rgb(a, b, c))
                        } else {
                            Ok(ChannelDefinition::TriWhite(a, b, c))
                        }
                    } else {
                        Err(ArtnetError::InvalidChannelAddress(s.to_owned()))
                    }
                } else if is_s {
                    if ns.len() == 1 {
                        Ok(ChannelDefinition::Single(ns[0] as u16))
                    } else {
                        Err(ArtnetError::InvalidChannelAddress(s.to_owned()))
                    }
                } else {
                    Err(ArtnetError::InvalidChannelAddress(s.to_owned()))
                }
            },
        }
    }
}

/// What parsing a dimmer value yields.
pub enum DimmerParse {
    Value(DimmerValue),
    Bad,
}

/// The dimmer-value grammar: `s(n)`, `rgb(r,g,b)` or `w(w1,w2,w3)`, with the
/// type name before the first `(` and the numbers before the first `)`.
pub open spec fn spec_parse_dimmer_value(s: Seq<char>) -> DimmerParse {
    if !s.contains('(') || !s.contains(')') {
        DimmerParse::Bad
    } else {
        let open = first_index_of(s, '(');
        let close = first_index_of(s, ')');
        if close < open + 1 {
            DimmerParse::Bad
        } else {
            let vt = spec_lower(spec_trim(s.subrange(0, open)));
            match spec_parse_uint_list(spec_split(s.subrange(open + 1, close), ','), 255) {
                Option::None => DimmerParse::Bad,
                Option::Some(ns) => if vt == seq!['s'] && ns.len() == 1 {
                    DimmerParse::Value(DimmerValue::Single(ns[0] as u8))
                } else if vt == seq!['r', 'g', 'b'] && ns.len() == 3 {
                    DimmerParse::Value(
                        DimmerValue::Rgb(ns[0] as u8, ns[1] as u8, ns[2] as u8),
                    )
                } else if vt == seq!['w'] && ns.len() == 3 {
                    DimmerParse::Value(
                        DimmerValue::TriWhite(ns[0] as u8, ns[1] as u8, ns[2] as u8),
                    )
                } else {
                    DimmerParse::Bad
                },
            }
        }
    }
}

impl DimmerValue {
    /// Parses a dimmer value, accepting exactly the grammar of
    /// [`spec_parse_dimmer_value`].
    pub fn parse(s: &str) -> (r: Result<DimmerValue, ArtnetError>)
        ensures
            match r {
                Ok(v) => spec_parse_dimmer_value(s@) == DimmerParse::Value(v),
                Err(e) => match e {
                    ArtnetError::InvalidDimmerValue(m) => spec_parse_dimmer_value(s@)
                        == DimmerParse::Bad && m@ == s@,
                    _ => false,
                },
            },
    {
        let v = chars_of(s);
        let open = match find_char_from(&v, 0, '(') {
            Some(i) => {
                proof {
                    assert(v@.contains('('));
                    lemma_index_of_first(v@, '(');
                }
                i
            },
            None => {
                proof {
                    if v@.contains('(') {
                        let w = choose|w: int| 0 <= w < v@.len() && v@[w] == '(';
                        assert(false);
                    }
                }
                return Err(ArtnetError::InvalidDimmerValue(s.to_owned()));
            },
        };
        let close = match find_char_from(&v, 0, ')') {
            Some(i) => {
                proof {
                    assert(v@.contains(')'));
                    lemma_index_of_first(v@, ')');
                }
                i
            },
            None => {
                proof {
                    if v@.contains(')') {
                        let w = choose|w: int| 0 <= w < v@.len() && v@[w] == ')';
                        assert(false);
                    }
                }
                return Err(ArtnetError::InvalidDimmerValue(s.to_owned()));
            },
        };
        if close <= open {
            return Err(ArtnetError::InvalidDimmerValue(s.to_owned()));
        }
        let vt = lower_chars(&trim_range(&v, 0, open));
        let body = slice_range(&v, open + 1, close);
        let pieces = split_chars(&body, ',');
        match parse_uint_list(&pieces, 255) {
            None => Err(ArtnetError::InvalidDimmerValue(s.to_owned())),
            Some(ns) => {
                let ghost spec_ns = spec_parse_uint_list(
                    spec_split(v@.subrange(open + 1, close as int), ','),
                    255,
                ).unwrap();
                proof {
                    assert(spec_ns =~= ns@.map_values(|n: u64| n as int));
                    assert(forall|i: int|
                        0 <= i < ns@.len() ==> spec_ns[i] == (#[trigger] ns@[i]) as int);
                }
                let is_s = vt.len() == 1 && vt[0] == 's';
                let is_rgb = vt.len() == 3 && vt[0] == 'r' && vt[1] == 'g' && vt[2] == 'b';
                let is_w = vt.len() == 1 && vt[0] == 'w';
                proof {
                    if is_s {
                        assert(vt@ =~= seq!['s']);
                    } else if vt@ == seq!['s'] {
                        assert(vt@.len() == 1 && vt@[0] == 's');
                    }
                    if is_rgb {
                        assert(vt@ =~= seq!['r', 'g', 'b']);
                    } else if vt@ == seq!['r', 'g', 'b'] {
                        assert(vt@.len() == 3);
                        assert(vt@[0] == 'r' && vt@[1] == 'g' && vt@[2] == 'b');
                    }
                    if is_w {
                        assert(vt@ =~= seq!['w']);
                    } else if vt@ == seq!['w'] {
                        assert(vt@.len() == 1 && vt@[0] == 'w');
                    }
                }
                if is_s && ns.len() == 1 {
                    Ok(DimmerValue::Single(ns[0] as u8))
                } else if is_rgb && ns.len() == 3 {
                    Ok(DimmerValue::Rgb(ns[0] as u8, ns[1] as u8, ns[2] as u8))
                } else if is_w && ns.len() == 3 {
                    Ok(DimmerValue::TriWhite(ns[0] as u8, ns[1] as u8, ns[2] as u8))
                } else {
                    Err(ArtnetError::InvalidDimmerValue(s.to_owned()))
                }
            },
        }
    }
}

/// Parses every piece of a target-value string, trimmed, stopping at the
/// first piece that is not a dimmer value; the error carries that trimmed
/// piece.
pub open spec fn spec_parse_dimmer_list(pieces: Seq<Seq<char>>) -> Result<Seq<DimmerValue>, Seq<
    char,
>>
    decreases pieces.len(),
{
    if pieces.len() == 0 {
        Ok(seq![])
    } else {
        let h = spec_trim(pieces[0]);
        match spec_parse_dimmer_value(h) {
            DimmerParse::Value(v) => match spec_parse_dimmer_list(
                pieces.subrange(1, pieces.len() as int),
            ) {
                Ok(rest) => Ok(seq![v] + rest),
                Err(e) => Err(e),
            },
            DimmerParse::Bad => Err(h),
        }
    }
}

/// How folding a list of dimmer values into a target value ends.
pub enum TargetFold {
    Value(TargetValue),
    /// A second value for a family the target already holds.
    Ambiguous,
}

/// Folds dimmer values into the slots of a target value; a second value for
/// the same family is ambiguous.
pub open spec fn spec_fold_target(values: Seq<DimmerValue>, acc: TargetValue) -> TargetFold
    decreases values.len(),
{
    if values.len() == 0 {
        TargetFold::Value(acc)
    } else {
        match values[0] {
            DimmerValue::Single(x) => if acc.single is Some {
                TargetFold::Ambiguous
            } else {
                spec_fold_target(
                    values.subrange(1, values.len() as int),
                    TargetValue { single: Some(x), ..acc },
                )
            },
            DimmerValue::Rgb(a, b, c) => if acc.rgb is Some {
                TargetFold::Ambiguous
            } else {
                spec_fold_target(
                    values.subrange(1, values.len() as int),
                    TargetValue { rgb: Some((a, b, c)), ..acc },
                )
            },
            DimmerValue::TriWhite(a, b, c) => if acc.tri_white is Some {
                TargetFold::Ambiguous
            } else {
                spec_fold_target(
                    values.subrange(1, values.len() as int),
                    TargetValue { tri_white: Some((a, b, c)), ..acc },
                )
            },
        }
    }
}

/// The empty target value.
pub open spec fn spec_empty_target() -> TargetValue {
    TargetValue { single: None, rgb: None, tri_white: None }
}

/// What parsing a whole target-value string yields.
pub open spec fn spec_parse_target_value(s: Seq<char>) -> Result<TargetValue, TargetFold> {
    match spec_parse_dimmer_list(spec_split(s, ';')) {
        Err(_) => Err(TargetFold::Ambiguous),  // never used: see parse_target_value
        Ok(values) => match spec_fold_target(values, spec_empty_target()) {
            TargetFold::Value(tv) => Ok(tv),
            other => Err(other),
        },
    }
}

impl TargetValue {
    /// Parses a target value: dimmer values joined by `;`, at most one for
    /// each family.
    pub fn parse(s: &str) -> (r: Result<TargetValue, ArtnetError>)
        ensures
            match spec_parse_dimmer_list(spec_split(s@, ';')) {
                Err(p) => match r {
                    Err(ArtnetError::InvalidDimmerValue(m)) => m@ == p,
                    _ => false,
                },
                Ok(values) => match spec_fold_target(values, spec_empty_target()) {
                    TargetFold::Value(tv) => r == Ok::<TargetValue, ArtnetError>(tv),
                    TargetFold::Ambiguous => match r {
                        Err(ArtnetError::AmbiguousTargetValue(m)) => m@ == s@,
                        _ => false,
                    },
                },
            },
    {
        let v = chars_of(s);
        let pieces = split_chars(&v, ';');
        let ghost all_pieces = pieces.deep_view();
        let mut values: Vec<DimmerValue> = Vec::new();
        let mut i: usize = 0;
        proof {
            assert(all_pieces.subrange(0, all_pieces.len() as int) =~= all_pieces);
            if spec_parse_dimmer_list(all_pieces) is Ok {
                let rest = spec_parse_dimmer_list(all_pieces)->Ok_0;
                assert(values@ + rest =~= rest);
            }
        }
        while i < pieces.len()
            invariant
                i <= pieces@.len(),
                all_pieces == pieces.deep_view(),
                all_pieces == spec_split(v@, ';'),
                v@ == s@,
                spec_parse_dimmer_list(all_pieces) == (match spec_parse_dimmer_list(
                    all_pieces.subrange(i as int, all_pieces.len() as int),
                ) {
                    Ok(rest) => Ok::<Seq<DimmerValue>, Seq<char>>(values@ + rest),
                    Err(e) => Err::<Seq<DimmerValue>, Seq<char>>(e),
                }),
            decreases pieces@.len() - i,
        {
            let piece = &pieces[i];
            let t = trim_range(piece, 0, piece.len());
            let ts = crate::strutil::string_from_chars(&t);
            let ghost rem = all_pieces.subrange(i as int, all_pieces.len() as int);
            let ghost tail = all_pieces.subrange(i + 1, all_pieces.len() as int);
            proof {
                assert(piece@.subrange(0, piece@.len() as int) =~= piece@);
                assert(all_pieces[i as int] == piece@);
                assert(rem[0] == piece@);
                assert(rem.subrange(1, rem.len() as int) =~= tail);
                assert(ts@ == spec_trim(rem[0]));
            }
            match DimmerValue::parse(ts.as_str()) {
                Ok(dv) => {
                    let ghost old_values = values@;
                    values.push(dv);
                    i = i + 1;
                    proof {
                        assert(values@ =~= old_values + seq![dv]);
                        let tail_res = spec_parse_dimmer_list(tail);
                        if tail_res is Ok {
                            let rest = tail_res->Ok_0;
                            assert(spec_parse_dimmer_list(rem) == Ok::<
                                Seq<DimmerValue>,
                                Seq<char>,
                            >(seq![dv] + rest));
                            assert(old_values + (seq![dv] + rest) =~= values@ + rest);
                        } else {
                            assert(spec_parse_dimmer_list(rem) == tail_res);
                        }
                    }
                },
                Err(_) => {
                    proof {
                        assert(spec_parse_dimmer_value(ts@) == DimmerParse::Bad);
                        assert(spec_parse_dimmer_list(rem) == Err::<Seq<DimmerValue>, Seq<char>>(
                            ts@,
                        ));
                    }
                    return Err(ArtnetError::InvalidDimmerValue(ts));
                },
            }
        }
        proof {
            assert(all_pieces.subrange(all_pieces.len() as int, all_pieces.len() as int)
                =~= Seq::<Seq<char>>::empty());
            assert(spec_parse_dimmer_list(all_pieces) == Ok::<Seq<DimmerValue>, Seq<char>>(
                values@ + Seq::<DimmerValue>::empty(),
            ));
            assert(values@ + Seq::<DimmerValue>::empty() =~= values@);
        }
        // Fold the values into the three family slots.
        let mut acc = TargetValue { single: None, rgb: None, tri_white: None };
        let mut j: usize = 0;
        proof {
            assert(values@.subrange(0, values@.len() as int) =~= values@);
        }
        while j < values.len()
            invariant
                j <= values@.len(),
                v@ == s@,
                spec_parse_dimmer_list(spec_split(s@, ';')) == Ok::<Seq<DimmerValue>, Seq<char>>(
                    values@,
                ),
                spec_fold_target(values@, spec_empty_target()) == spec_fold_target(
                    values@.subrange(j as int, values@.len() as int),
                    acc,
                ),
            decreases values@.len() - j,
        {
            let ghost rem = values@.subrange(j as int, values@.len() as int);
            proof {
                assert(rem[0] == values@[j as int]);
                assert(rem.subrange(1, rem.len() as int) =~= values@.subrange(
                    j + 1,
                    values@.len() as int,
                ));
            }
            match values[j] {
                DimmerValue::Single(x) => {
                    if acc.single.is_some() {
                        return Err(ArtnetError::AmbiguousTargetValue(s.to_owned()));
                    }
                    acc = TargetValue { single: Some(x), ..acc };
                },
                DimmerValue::Rgb(a, b, c) => {
                    if acc.rgb.is_some() {
                        return Err(ArtnetError::AmbiguousTargetValue(s.to_owned()));
                    }
                    acc = TargetValue { rgb: Some((a, b, c)), ..acc };
                },
                DimmerValue::TriWhite(a, b, c) => {
                    if acc.tri_white.is_some() {
                        return Err(ArtnetError::AmbiguousTargetValue(s.to_owned()));
                    }
                    acc = TargetValue { tri_white: Some((a, b, c)), ..acc };
                },
            }
            j = j + 1;
        }
        proof {
            assert(values@.subrange(values@.len() as int, values@.len() as int)
                =~= Seq::<DimmerValue>::empty());
        }
        Ok(acc)
    }

    /// The dimmer value this target assigns to a channel of the given shape.
    pub open spec fn spec_get(self, cd: ChannelDefinition) -> Option<DimmerValue> {
        match cd {
            ChannelDefinition::Rgb(_, _, _) => match self.rgb {
                Some((a, b, c)) => Some(DimmerValue::Rgb(a, b, c)),
                None => None,
            },
            ChannelDefinition::TriWhite(_, _, _) => match self.tri_white {
                Some((a, b, c)) => Some(DimmerValue::TriWhite(a, b, c)),
                None => None,
            },
            ChannelDefinition::Single(_) => match self.single {
                Some(x) => Some(DimmerValue::Single(x)),
                None => None,
            },
        }
    }

    /// Looks up the value for a channel's family.
    pub fn get(&self, channel_definition: &ChannelDefinition) -> (r: Option<DimmerValue>)
        ensures
            r == self.spec_get(*channel_definition),
    {
        match channel_definition {
            ChannelDefinition::Rgb(_, _, _) => match self.rgb {
                Some((a, b, c)) => Some(DimmerValue::Rgb(a, b, c)),
                None => None,
            },
            ChannelDefinition::TriWhite(_, _, _) => match self.tri_white {
                Some((a, b, c)) => Some(DimmerValue::TriWhite(a, b, c)),
                None => None,
            },
            ChannelDefinition::Single(_) => match self.single {
                Some(x) => Some(DimmerValue::Single(x)),
                None => None,
            },
        }
    }

    /// Scales the target by the dimming amount, channel-wise with integer
    /// division; the maximum amount is the identity.
    pub fn get_dimmed_value(&self, dimming_amount: DimmingAmount) -> (r: TargetValue)
        requires
            dimming_amount <= DIMMING_AMOUNT_MAX,
        ensures
            r == self.spec_dimmed(dimming_amount as int),
    {
        TargetValue {
            rgb: match self.rgb {
                Some((a, b, c)) => Some(
                    (
                        dim_byte(a, dimming_amount),
                        dim_byte(b, dimming_amount),
                        dim_byte(c, dimming_amount),
                    ),
                ),
                None => None,
            },
            tri_white: match self.tri_white {
                Some((a, b, c)) => Some(
                    (
                        dim_byte(a, dimming_amount),
                        dim_byte(b, dimming_amount),
                        dim_byte(c, dimming_amount),
                    ),
                ),
                None => None,
            },
            single: match self.single {
                Some(x) => Some(dim_byte(x, dimming_amount)),
                None => None,
            },
        }
    }

    /// The dimmed target, slot for slot.
    pub open spec fn spec_dimmed(self, amount: int) -> TargetValue {
        TargetValue {
            rgb: match self.rgb {
                Some((a, b, c)) => Some(
                    (spec_dim_byte(a, amount), spec_dim_byte(b, amount), spec_dim_byte(c, amount)),
                ),
                None => None,
            },
            tri_white: match self.tri_white {
                Some((a, b, c)) => Some(
                    (spec_dim_byte(a, amount), spec_dim_byte(b, amount), spec_dim_byte(c, amount)),
                ),
                None => None,
            },
            single: match self.single {
                Some(x) => Some(spec_dim_byte(x, amount)),
                None => None,
            },
        }
    }
}

/// Linear dimming of one byte: `v * amount / 1000`.
pub open spec fn spec_dim_byte(v: u8, amount: int) -> u8 {
    ((v as int) * amount / (DIMMING_AMOUNT_MAX as int)) as u8
}

/// Scales one byte by the dimming amount.
pub fn dim_byte(v: u8, amount: DimmingAmount) -> (r: u8)
    requires
        amount <= DIMMING_AMOUNT_MAX,
    ensures
        r == spec_dim_byte(v, amount as int),
        amount == DIMMING_AMOUNT_MAX ==> r == v,
{
    proof {
        assert((v as int) * (amount as int) <= 255 * 1000) by (nonlinear_arith)
            requires
                v <= 255,
                amount <= 1000,
        ;
        assert((v as int) * (amount as int) / 1000 <= 255) by (nonlinear_arith)
            requires
                (v as int) * (amount as int) <= 255 * 1000,
                0 <= (v as int) * (amount as int),
        ;
        assert(amount == 1000 ==> (v as int) * (amount as int) / 1000 == v as int)
            by (nonlinear_arith);
    }
    let x = (v as usize) * amount / DIMMING_AMOUNT_MAX;
    x as u8
}

/// Dimming is linear in the dimming amount, `v * amount / 1000` for each
/// byte, and the maximum amount is the identity.
pub proof fn lemma_dimming_linear(v: u8, amount: int)
    requires
        0 <= amount <= DIMMING_AMOUNT_MAX,
    ensures
        spec_dim_byte(v, amount) == (v as int) * amount / (DIMMING_AMOUNT_MAX as int),
        amount == DIMMING_AMOUNT_MAX ==> spec_dim_byte(v, amount) == v,
{
    assert((v as int) * amount <= 255 * 1000) by (nonlinear_arith)
        requires
            v <= 255,
            amount <= 1000,
    ;
    assert((v as int) * amount / 1000 <= 255) by (nonlinear_arith)
        requires
            (v as int) * amount <= 255 * 1000,
            0 <= (v as int) * amount,
    ;
    assert(amount == 1000 ==> (v as int) * amount / 1000 == v as int) by (nonlinear_arith);
}

/// The rendering of a channel definition, as the error messages show it.
pub open spec fn spec_channel_definition_string(cd: ChannelDefinition) -> Seq<char> {
    match cd {
        ChannelDefinition::Rgb(r, g, b) => "rgb:"@ + spec_render_uint(r as int) + "/"@
            + spec_render_uint(g as int) + "/"@ + spec_render_uint(b as int),
        ChannelDefinition::TriWhite(a, b, c) => "w:"@ + spec_render_uint(a as int) + "/"@
            + spec_render_uint(b as int) + "/"@ + spec_render_uint(c as int),
        ChannelDefinition::Single(c) => "s("@ + spec_render_uint(c as int) + ")"@,
    }
}

/// Renders a channel definition.
pub fn channel_definition_string(cd: &ChannelDefinition) -> (r: String)
    ensures
        r@ == spec_channel_definition_string(*cd),
{
    let mut m = String::new();
    match cd {
        ChannelDefinition::Rgb(a, b, c) => {
            m.append("rgb:");
            append_chars(&mut m, &render_u64(*a as u64));
            m.append("/");
            append_chars(&mut m, &render_u64(*b as u64));
            m.append("/");
            append_chars(&mut m, &render_u64(*c as u64));
        },
        ChannelDefinition::TriWhite(a, b, c) => {
            m.append("w:");
            append_chars(&mut m, &render_u64(*a as u64));
            m.append("/");
            append_chars(&mut m, &render_u64(*b as u64));
            m.append("/");
            append_chars(&mut m, &render_u64(*c as u64));
        },
        ChannelDefinition::Single(c) => {
            m.append("s(");
            append_chars(&mut m, &render_u64(*c as u64));
            m.append(")");
        },
    }
    m
}

/// The rendering of a dimmer value, as the error messages show it.
pub open spec fn spec_dimmer_value_string(v: DimmerValue) -> Seq<char> {
    match v {
        DimmerValue::Rgb(a, b, c) => "rgb("@ + spec_render_uint(a as int) + ","@
            + spec_render_uint(b as int) + ","@ + spec_render_uint(c as int) + ")"@,
        DimmerValue::TriWhite(a, b, c) => "w("@ + spec_render_uint(a as int) + ","@
            + spec_render_uint(b as int) + ","@ + spec_render_uint(c as int) + ")"@,
        DimmerValue::Single(x) => "s("@ + spec_render_uint(x as int) + ")"@,
    }
}

/// Renders a dimmer value.
pub fn dimmer_value_string(v: &DimmerValue) -> (r: String)
    ensures
        r@ == spec_dimmer_value_string(*v),
{
    let mut m = String::new();
    match v {
        DimmerValue::Rgb(a, b, c) => {
            m.append("rgb(");
            append_chars(&mut m, &render_u64(*a as u64));
            m.append(",");
            append_chars(&mut m, &render_u64(*b as u64));
            m.append(",");
            append_chars(&mut m, &render_u64(*c as u64));
            m.append(")");
        },
        DimmerValue::TriWhite(a, b, c) => {
            m.append("w(");
            append_chars(&mut m, &render_u64(*a as u64));
            m.append(",");
            append_chars(&mut m, &render_u64(*b as u64));
            m.append(",");
            append_chars(&mut m, &render_u64(*c as u64));
            m.append(")");
        },
        DimmerValue::Single(x) => {
            m.append("s(");
            append_chars(&mut m, &render_u64(*x as u64));
            m.append(")");
        },
    }
    m
}

} // verus!
