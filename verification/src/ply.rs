//! Gaussian-splat PLY files.
//!
//! A file is a text header and then one binary little-endian record per
//! splat. The writer emits a fixed schema of float properties; the reader
//! takes the properties in any order, skips unknown ones, and fills in the
//! normal and the higher spherical-harmonics coefficients where they are
//! missing. Floats are carried as bit patterns.
use vstd::bytes::{spec_u32_from_le_bytes, spec_u32_to_le_bytes, u32_from_le_bytes, u32_to_le_bytes};
use vstd::prelude::*;
use vstd::string::*;
#[allow(unused_imports)]
use vstd::utf8::{decode_utf8, encode_utf8, valid_utf8};

use crate::float_bits::{Vec3, ONE, ZERO};
use crate::text::{
    chars_of, decode_range, parse_count, push_decimal, range_equals, range_starts_with, trim_range, CountError,
};
#[allow(unused_imports)]
use crate::text::{
    count_value, decimal, is_white, law_decimal_parses, lemma_decimal_digits, lemma_decode_len,
    lemma_encode_concat, lemma_trim_ends, trim,
};

verus! {

/// Higher-order spherical-harmonics coefficients per splat.
pub const SH_REST: usize = 45;

/// One splat of a PLY file.
pub struct Gaussian {
    pub pos: Vec3,
    pub normal: Vec3,
    pub sh_dc: [u32; 3],
    pub sh_rest: Vec<u32>,
    pub opacity: u32,
    pub scale: [u32; 3],
    pub rotation: [u32; 4],
}

/// What a splat holds, as sequences of bit patterns.
#[verifier::ext_equal]
pub struct GaussianModel {
    pub pos: Seq<u32>,
    pub normal: Seq<u32>,
    pub sh_dc: Seq<u32>,
    pub sh_rest: Seq<u32>,
    pub opacity: u32,
    pub scale: Seq<u32>,
    pub rotation: Seq<u32>,
}

impl View for Gaussian {
    type V = GaussianModel;

    open spec fn view(&self) -> GaussianModel {
        GaussianModel {
            pos: self.pos.seq(),
            normal: self.normal.seq(),
            sh_dc: self.sh_dc@,
            sh_rest: self.sh_rest@,
            opacity: self.opacity,
            scale: self.scale@,
            rotation: self.rotation@,
        }
    }
}

impl GaussianModel {
    /// Whether the fixed-size parts have their sizes.
    pub open spec fn wf(self) -> bool {
        self.pos.len() == 3 && self.normal.len() == 3 && self.sh_dc.len() == 3 && self.scale.len()
            == 3 && self.rotation.len() == 4
    }

    /// The higher coefficients cut or zero-padded to the file's fixed count.
    pub open spec fn rest45(self) -> Seq<u32> {
        Seq::new(45, |i: int| if i < self.sh_rest.len() { self.sh_rest[i] } else { ZERO })
    }

    /// The splat as it comes back from a file.
    pub open spec fn stored(self) -> GaussianModel {
        GaussianModel { sh_rest: self.rest45(), ..self }
    }

    /// The record words, in schema order.
    pub open spec fn words(self) -> Seq<u32> {
        self.pos + self.normal + self.sh_dc + self.rest45() + seq![self.opacity] + self.scale
            + self.rotation
    }
}

/// Why a PLY file is refused.
pub enum PlyError {
    /// A header line is not UTF-8.
    InvalidUtf8,
    /// The first line is not `ply`.
    MissingMagic,
    /// The file ends before `end_header`.
    UnterminatedHeader,
    /// The vertex count does not parse.
    VertexCount(CountError),
    /// A property is no float; holds the offending line.
    UnsupportedProperty(String),
    /// The data is not binary little-endian.
    NotLittleEndian,
    /// The data ends inside a record.
    TruncatedRecord,
    /// A property that every splat needs is not declared; holds its name.
    MissingProperty(String),
}

/// A refusal, with its text as a sequence.
#[verifier::ext_equal]
pub enum PlyErrorModel {
    InvalidUtf8,
    MissingMagic,
    UnterminatedHeader,
    VertexCount(CountError),
    UnsupportedProperty(Seq<char>),
    NotLittleEndian,
    TruncatedRecord,
    MissingProperty(Seq<char>),
}

impl View for PlyError {
    type V = PlyErrorModel;

    open spec fn view(&self) -> PlyErrorModel {
        match *self {
            PlyError::InvalidUtf8 => PlyErrorModel::InvalidUtf8,
            PlyError::MissingMagic => PlyErrorModel::MissingMagic,
            PlyError::UnterminatedHeader => PlyErrorModel::UnterminatedHeader,
            PlyError::VertexCount(e) => PlyErrorModel::VertexCount(e),
            PlyError::UnsupportedProperty(t) => PlyErrorModel::UnsupportedProperty(t@),
            PlyError::NotLittleEndian => PlyErrorModel::NotLittleEndian,
            PlyError::TruncatedRecord => PlyErrorModel::TruncatedRecord,
            PlyError::MissingProperty(t) => PlyErrorModel::MissingProperty(t@),
        }
    }
}

/// What sort of refusal it is.
#[derive(Clone, Copy, Debug, PartialEq, Eq, Structural)]
pub enum PlyErrorKind {
    /// The file says something that is not supported or makes no sense.
    InvalidData,
    /// The file ends too early.
    UnexpectedEof,
}

/// Why a count does not parse, in words.
pub open spec fn count_message(e: CountError) -> Seq<char> {
    match e {
        CountError::Empty => "element vertex: cannot parse integer from empty string"@,
        CountError::InvalidDigit => "element vertex: invalid digit found in string"@,
        CountError::Overflow => "element vertex: number too large to fit in target type"@,
    }
}

impl PlyErrorModel {
    /// The file ended too early; every other refusal is about what it says.
    pub open spec fn ends_early(self) -> bool {
        self is UnterminatedHeader || self is TruncatedRecord
    }

    /// The refusal in words.
    pub open spec fn words(self) -> Seq<char> {
        match self {
            PlyErrorModel::InvalidUtf8 => "stream did not contain valid UTF-8"@,
            PlyErrorModel::MissingMagic => "missing 'ply' magic line"@,
            PlyErrorModel::UnterminatedHeader => "unterminated PLY header"@,
            PlyErrorModel::VertexCount(e) => count_message(e),
            PlyErrorModel::UnsupportedProperty(line) =>
                "only `property float ...` supported, got: "@ + line,
            PlyErrorModel::NotLittleEndian => "only binary_little_endian PLY is supported"@,
            PlyErrorModel::TruncatedRecord => "failed to fill whole buffer"@,
            PlyErrorModel::MissingProperty(name) => "PLY missing required property: "@ + name,
        }
    }
}

impl PlyError {
    /// What sort of refusal this is.
    pub fn kind(&self) -> (kind: PlyErrorKind)
        ensures
            kind == if self@.ends_early() {
                PlyErrorKind::UnexpectedEof
            } else {
                PlyErrorKind::InvalidData
            },
    {
        match self {
            PlyError::UnterminatedHeader | PlyError::TruncatedRecord => PlyErrorKind::UnexpectedEof,
            _ => PlyErrorKind::InvalidData,
        }
    }

    /// The refusal in words.
    pub fn message(&self) -> (message: String)
        ensures
            message@ == self@.words(),
    {
        match self {
            PlyError::InvalidUtf8 => String::from_str("stream did not contain valid UTF-8"),
            PlyError::MissingMagic => String::from_str("missing 'ply' magic line"),
            PlyError::UnterminatedHeader => String::from_str("unterminated PLY header"),
            PlyError::VertexCount(e) => String::from_str(
                match e {
                    CountError::Empty => "element vertex: cannot parse integer from empty string",
                    CountError::InvalidDigit => "element vertex: invalid digit found in string",
                    CountError::Overflow =>
                        "element vertex: number too large to fit in target type",
                },
            ),
            PlyError::UnsupportedProperty(line) => {
                let head: String = String::from_str("only `property float ...` supported, got: ");
                head.concat(line.as_str())
            },
            PlyError::NotLittleEndian => String::from_str(
                "only binary_little_endian PLY is supported",
            ),
            PlyError::TruncatedRecord => String::from_str("failed to fill whole buffer"),
            PlyError::MissingProperty(name) => {
                let head: String = String::from_str("PLY missing required property: ");
                head.concat(name.as_str())
            },
        }
    }
}

/// What a header declares.
pub struct PlyHeader {
    pub binary_le: bool,
    pub vertex_count: usize,
    /// Property names in record order; each takes four bytes.
    pub properties: Vec<String>,
}

/// A header, with its names as sequences.
#[verifier::ext_equal]
pub struct HeaderModel {
    pub binary_le: bool,
    pub vertex_count: int,
    pub properties: Seq<Seq<char>>,
}

impl View for PlyHeader {
    type V = HeaderModel;

    open spec fn view(&self) -> HeaderModel {
        HeaderModel {
            binary_le: self.binary_le,
            vertex_count: self.vertex_count as int,
            properties: self.properties@.map_values(|p: String| p@),
        }
    }
}

/// First position of `name` in `props` from `i` on.
pub open spec fn find_from(props: Seq<Seq<char>>, name: Seq<char>, i: int) -> Option<int>
    decreases props.len() - i,
{
    if i >= props.len() {
        None
    } else if props[i] == name {
        Some(i)
    } else {
        find_from(props, name, i + 1)
    }
}

/// Byte offset of the property `name` within one record.
pub open spec fn byte_offset(props: Seq<Seq<char>>, name: Seq<char>) -> Option<int> {
    match find_from(props, name, 0) {
        Some(i) => Some(i * 4),
        None => None,
    }
}

proof fn lemma_find_bound(props: Seq<Seq<char>>, name: Seq<char>, i: int)
    requires
        0 <= i,
    ensures
        match find_from(props, name, i) {
            Some(k) => i <= k < props.len() && props[k] == name,
            None => true,
        },
    decreases props.len() - i,
{
    if i < props.len() && props[i] != name {
        lemma_find_bound(props, name, i + 1);
    }
}

impl PlyHeader {
    /// A record's byte size fits a `usize`.
    pub open spec fn wf(&self) -> bool {
        self.properties.len() * 4 <= usize::MAX
    }

    /// Byte offset of the property `name` within one record: four bytes per
    /// property declared before its first occurrence.
    pub fn offset(&self, name: &str) -> (off: Option<usize>)
        requires
            self.wf(),
        ensures
            match (off, byte_offset(self@.properties, name@)) {
                (Some(o), Some(m)) => o == m && o + 4 <= self.properties.len() * 4,
                (None, None) => true,
                _ => false,
            },
    {
        let wanted: String = name.to_owned();
        let mut i: usize = 0;
        while i < self.properties.len()
            invariant
                i <= self.properties.len(),
                self.wf(),
                wanted@ == name@,
                find_from(self@.properties, name@, 0) == find_from(
                    self@.properties,
                    name@,
                    i as int,
                ),
            decreases self.properties.len() - i,
        {
            assert(self@.properties[i as int] == self.properties@[i as int]@);
            if self.properties[i] == wanted {
                return Some(i * 4);
            }
            i = i + 1;
        }
        None
    }
}

/// One past the newline that ends the line at `pos`, or the end of the bytes.
pub open spec fn line_end(b: Seq<u8>, pos: int) -> int
    decreases b.len() - pos,
{
    if pos >= b.len() {
        b.len() as int
    } else if b[pos] == 10 {
        pos + 1
    } else {
        line_end(b, pos + 1)
    }
}

/// A line ends behind its start, and inside the bytes.
pub proof fn lemma_line_end(b: Seq<u8>, pos: int)
    requires
        0 <= pos <= b.len(),
    ensures
        pos <= line_end(b, pos) <= b.len(),
        pos < b.len() ==> pos < line_end(b, pos),
    decreases b.len() - pos,
{
    if pos < b.len() && b[pos] != 10 {
        lemma_line_end(b, pos + 1);
    }
}

/// What one header line does.
#[verifier::ext_equal]
pub enum LineOutcome {
    /// The header goes on, with these declarations.
    Continue(HeaderModel),
    /// The header ends here.
    End,
    /// The header is refused.
    Fail(PlyErrorModel),
}

/// The part of `t` behind a prefix of `k` characters.
pub open spec fn rest_after(t: Seq<char>, k: nat) -> Seq<char> {
    t.subrange(k as int, t.len() as int)
}

/// Reads the trimmed line `t` on top of the declarations `h`.
pub open spec fn header_line(h: HeaderModel, t: Seq<char>) -> LineOutcome {
    if t.len() == 0 || "comment "@.is_prefix_of(t) {
        LineOutcome::Continue(h)
    } else if t == "end_header"@ {
        LineOutcome::End
    } else if "format "@.is_prefix_of(t) {
        LineOutcome::Continue(
            HeaderModel {
                binary_le: "binary_little_endian"@.is_prefix_of(
                    rest_after(t, "format "@.len()),
                ),
                ..h
            },
        )
    } else if "element vertex "@.is_prefix_of(t) {
        match count_value(trim(rest_after(t, "element vertex "@.len()))) {
            Ok(n) => LineOutcome::Continue(HeaderModel { vertex_count: n, ..h }),
            Err(e) => LineOutcome::Fail(PlyErrorModel::VertexCount(e)),
        }
    } else if "property float "@.is_prefix_of(t) {
        LineOutcome::Continue(
            HeaderModel {
                properties: h.properties.push(trim(rest_after(t, "property float "@.len()))),
                ..h
            },
        )
    } else if "element "@.is_prefix_of(t) {
        LineOutcome::Continue(h)
    } else if "property "@.is_prefix_of(t) {
        LineOutcome::Fail(PlyErrorModel::UnsupportedProperty(t))
    } else {
        LineOutcome::Continue(h)
    }
}

/// Reads header lines from `pos` on: the declarations and the position behind
/// `end_header`, or the refusal.
pub open spec fn header_from(b: Seq<u8>, pos: int, h: HeaderModel) -> Result<
    (HeaderModel, int),
    PlyErrorModel,
>
    decreases b.len() - pos,
    when 0 <= pos <= b.len()
    via header_from_decreases
{
    let e = line_end(b, pos);
    let line = b.subrange(pos, e);
    if pos >= b.len() {
        Err(PlyErrorModel::UnterminatedHeader)
    } else if !valid_utf8(line) {
        Err(PlyErrorModel::InvalidUtf8)
    } else {
        match header_line(h, trim(decode_utf8(line))) {
            LineOutcome::Continue(next) => header_from(b, e, next),
            LineOutcome::End => Ok((h, e)),
            LineOutcome::Fail(err) => Err(err),
        }
    }
}

#[via_fn]
proof fn header_from_decreases(b: Seq<u8>, pos: int, h: HeaderModel) {
    lemma_line_end(b, pos);
}

/// The declarations before any header line.
pub open spec fn no_declarations() -> HeaderModel {
    HeaderModel { binary_le: false, vertex_count: 0, properties: Seq::empty() }
}

/// The header of a file.
pub open spec fn header_of(b: Seq<u8>) -> Result<(HeaderModel, int), PlyErrorModel> {
    let e = line_end(b, 0);
    let line = b.subrange(0, e);
    if !valid_utf8(line) {
        Err(PlyErrorModel::InvalidUtf8)
    } else if trim(decode_utf8(line)) != "ply"@ {
        Err(PlyErrorModel::MissingMagic)
    } else {
        header_from(b, e, no_declarations())
    }
}

fn find_line_end(bytes: &[u8], pos: usize) -> (end: usize)
    requires
        pos <= bytes.len(),
    ensures
        end == line_end(bytes@, pos as int),
        pos <= end <= bytes.len(),
        pos < bytes.len() ==> pos < end,
{
    let mut i: usize = pos;
    while i < bytes.len()
        invariant
            pos <= i <= bytes.len(),
            line_end(bytes@, pos as int) == line_end(bytes@, i as int),
        decreases bytes.len() - i,
    {
        if bytes[i] == 10 {
            return i + 1;
        }
        i = i + 1;
    }
    i
}

/// The characters `lo..hi` of a text.
fn copy_range(text: &String, lo: usize, hi: usize) -> (part: String)
    requires
        lo <= hi <= text@.len(),
    ensures
        part@ == text@.subrange(lo as int, hi as int),
{
    text.as_str().substring_char(lo, hi).to_owned()
}

/// Reads the header at the start of `bytes`: the declarations and the position
/// of the first record.
pub fn read_header(bytes: &[u8]) -> (r: Result<(PlyHeader, usize), PlyError>)
    ensures
        match (r, header_of(bytes@)) {
            (Ok(got), Ok(want)) => got.0@ == want.0 && got.1 == want.1 && got.0.wf() && got.1
                <= bytes.len(),
            (Err(got), Err(want)) => got@ == want,
            _ => false,
        },
{
    proof {
        reveal_strlit("comment ");
        reveal_strlit("format ");
        reveal_strlit("element vertex ");
        reveal_strlit("property float ");
        reveal_strlit("element ");
        reveal_strlit("property ");
    }
    let first_end: usize = find_line_end(bytes, 0);
    let first: Vec<char> = match decode_range(bytes, 0, first_end) {
        Some(text) => chars_of(text.as_str()),
        None => {
            return Err(PlyError::InvalidUtf8);
        },
    };
    assert(first@.subrange(0, first@.len() as int) =~= first@);
    let (a, b): (usize, usize) = trim_range(&first, 0, first.len());
    if !range_equals(&first, a, b, "ply") {
        return Err(PlyError::MissingMagic);
    }
    let mut header = PlyHeader { binary_le: false, vertex_count: 0, properties: Vec::new() };
    assert(header@.properties =~= Seq::<Seq<char>>::empty());
    let mut pos: usize = first_end;
    loop
        invariant
            pos <= bytes.len(),
            header.properties.len() * 15 <= pos,
            header_of(bytes@) == header_from(bytes@, pos as int, header@),
            "comment "@.len() == 8,
            "format "@.len() == 7,
            "element vertex "@.len() == 15,
            "property float "@.len() == 15,
        decreases bytes.len() - pos,
    {
        let end: usize = find_line_end(bytes, pos);
        if pos >= bytes.len() {
            return Err(PlyError::UnterminatedHeader);
        }
        let line: String = match decode_range(bytes, pos, end) {
            Some(line) => line,
            None => {
                return Err(PlyError::InvalidUtf8);
            },
        };
        let chars: Vec<char> = chars_of(line.as_str());
        proof {
            lemma_decode_len(bytes@.subrange(pos as int, end as int));
            assert(chars@.subrange(0, chars@.len() as int) =~= chars@);
        }
        let (lo, hi): (usize, usize) = trim_range(&chars, 0, chars.len());
        let ghost t = chars@.subrange(lo as int, hi as int);
        let ghost h = header@;
        assert(t == trim(decode_utf8(bytes@.subrange(pos as int, end as int))));
        if lo == hi || range_starts_with(&chars, lo, hi, "comment ") {
            assert(header_line(h, t) == LineOutcome::Continue(h));
        } else if range_equals(&chars, lo, hi, "end_header") {
            return Ok((header, end));
        } else if range_starts_with(&chars, lo, hi, "format ") {
            assert(rest_after(t, 7) =~= chars@.subrange(lo + 7, hi as int));
            header.binary_le = range_starts_with(&chars, lo + 7, hi, "binary_little_endian");
        } else if range_starts_with(&chars, lo, hi, "element vertex ") {
            assert(rest_after(t, 15) =~= chars@.subrange(lo + 15, hi as int));
            let (c, d): (usize, usize) = trim_range(&chars, lo + 15, hi);
            match parse_count(&chars, c, d) {
                Ok(n) => {
                    header.vertex_count = n;
                },
                Err(e) => {
                    return Err(PlyError::VertexCount(e));
                },
            }
        } else if range_starts_with(&chars, lo, hi, "property float ") {
            assert(rest_after(t, 15) =~= chars@.subrange(lo + 15, hi as int));
            let (c, d): (usize, usize) = trim_range(&chars, lo + 15, hi);
            let name: String = copy_range(&line, c, d);
            header.properties.push(name);
            assert(header@.properties =~= h.properties.push(name@));
        } else if range_starts_with(&chars, lo, hi, "element ") {
            assert(header_line(h, t) == LineOutcome::Continue(h));
        } else if range_starts_with(&chars, lo, hi, "property ") {
            return Err(PlyError::UnsupportedProperty(copy_range(&line, lo, hi)));
        } else {
            assert(header_line(h, t) == LineOutcome::Continue(h));
        }
        assert(header_line(h, t) == LineOutcome::Continue(header@));
        pos = end;
    }
}

/// Names that every record needs, in the order in which they are looked up.
pub open spec fn required_names() -> Seq<Seq<char>> {
    seq![
        "x"@,
        "y"@,
        "z"@,
        "f_dc_0"@,
        "f_dc_1"@,
        "f_dc_2"@,
        "opacity"@,
        "scale_0"@,
        "scale_1"@,
        "scale_2"@,
        "rot_0"@,
        "rot_1"@,
        "rot_2"@,
        "rot_3"@,
    ]
}

/// The first name of `names[i..]` that `props` lacks.
pub open spec fn first_missing(
    props: Seq<Seq<char>>,
    names: Seq<Seq<char>>,
    i: int,
) -> Option<Seq<char>>
    decreases names.len() - i,
{
    if i >= names.len() {
        None
    } else if byte_offset(props, names[i]) is None {
        Some(names[i])
    } else {
        first_missing(props, names, i + 1)
    }
}

/// The word of property `name` in a record that declares it.
pub open spec fn word_of(record: Seq<u8>, props: Seq<Seq<char>>, name: Seq<char>) -> u32 {
    let off = byte_offset(props, name)->0;
    spec_u32_from_le_bytes(record.subrange(off, off + 4))
}

/// The word of property `name`, or zero where it is not declared.
pub open spec fn word_or_zero(record: Seq<u8>, props: Seq<Seq<char>>, name: Seq<char>) -> u32 {
    if byte_offset(props, name) is Some {
        word_of(record, props, name)
    } else {
        ZERO
    }
}

/// Name of the higher-order coefficient `i`.
pub open spec fn rest_name(i: int) -> Seq<char> {
    "f_rest_"@ + decimal(i as nat)
}

/// The splat of a record that declares every required property. The normal
/// points along Y unless all three of its components are declared.
pub open spec fn record_splat(record: Seq<u8>, props: Seq<Seq<char>>) -> GaussianModel {
    let w = |name: Seq<char>| word_of(record, props, name);
    let with_normal = byte_offset(props, "nx"@) is Some && byte_offset(props, "ny"@) is Some
        && byte_offset(props, "nz"@) is Some;
    GaussianModel {
        pos: seq![w("x"@), w("y"@), w("z"@)],
        normal: if with_normal {
            seq![w("nx"@), w("ny"@), w("nz"@)]
        } else {
            Vec3::unit_y().seq()
        },
        sh_dc: seq![w("f_dc_0"@), w("f_dc_1"@), w("f_dc_2"@)],
        sh_rest: Seq::new(45, |i: int| word_or_zero(record, props, rest_name(i))),
        opacity: w("opacity"@),
        scale: seq![w("scale_0"@), w("scale_1"@), w("scale_2"@)],
        rotation: seq![w("rot_0"@), w("rot_1"@), w("rot_2"@), w("rot_3"@)],
    }
}

fn word_at(record: &[u8], off: usize) -> (w: u32)
    requires
        off + 4 <= record.len(),
    ensures
        w == spec_u32_from_le_bytes(record@.subrange(off as int, off + 4)),
{
    u32_from_le_bytes(vstd::slice::slice_subrange(record, off, off + 4))
}

fn required_word(record: &[u8], header: &PlyHeader, name: &str) -> (r: Result<u32, PlyError>)
    requires
        header.wf(),
        record.len() == header.properties.len() * 4,
    ensures
        match r {
            Ok(w) => byte_offset(header@.properties, name@) is Some && w == word_of(
                record@,
                header@.properties,
                name@,
            ),
            Err(e) => byte_offset(header@.properties, name@) is None && e@
                == PlyErrorModel::MissingProperty(name@),
        },
{
    match header.offset(name) {
        Some(off) => Ok(word_at(record, off)),
        None => Err(PlyError::MissingProperty(name.to_owned())),
    }
}

/// The name of the higher-order coefficient `i` as a string.
fn rest_name_string(i: usize) -> (name: String)
    requires
        i < 45,
    ensures
        name@ == rest_name(i as int),
{
    let mut name: String = String::from_str("f_rest_");
    if i >= 10 {
        name.append(digit_str(i / 10));
    }
    name.append(digit_str(i % 10));
    proof {
        if i >= 10 {
            assert(decimal((i / 10) as nat) =~= seq![crate::text::digit_char((i / 10) as int)]);
            assert(decimal(i as nat) =~= decimal((i / 10) as nat) + seq![
                crate::text::digit_char((i % 10) as int),
            ]);
        } else {
            assert(decimal(i as nat) =~= seq![crate::text::digit_char((i % 10) as int)]);
        }
        assert(name@ =~= rest_name(i as int));
    }
    name
}

fn digit_str(d: usize) -> (s: &'static str)
    requires
        d < 10,
    ensures
        s@ == seq![crate::text::digit_char(d as int)],
{
    proof {
        reveal_strlit("0");
        reveal_strlit("1");
        reveal_strlit("2");
        reveal_strlit("3");
        reveal_strlit("4");
        reveal_strlit("5");
        reveal_strlit("6");
        reveal_strlit("7");
        reveal_strlit("8");
        reveal_strlit("9");
    }
    if d == 0 {
        "0"
    } else if d == 1 {
        "1"
    } else if d == 2 {
        "2"
    } else if d == 3 {
        "3"
    } else if d == 4 {
        "4"
    } else if d == 5 {
        "5"
    } else if d == 6 {
        "6"
    } else if d == 7 {
        "7"
    } else if d == 8 {
        "8"
    } else {
        "9"
    }
}

/// Reads one record: a splat, or the first required property that the header
/// does not declare.
pub fn parse_record(record: &[u8], header: &PlyHeader) -> (r: Result<Gaussian, PlyError>)
    requires
        header.wf(),
        record.len() == header.properties.len() * 4,
    ensures
        match (r, first_missing(header@.properties, required_names(), 0)) {
            (Ok(g), None) => g@ == record_splat(record@, header@.properties),
            (Err(e), Some(name)) => e@ == PlyErrorModel::MissingProperty(name),
            _ => false,
        },
{
    let ghost props = header@.properties;
    proof {
        reveal_with_fuel(first_missing, 15);
    }
    let x: u32 = required_word(record, header, "x")?;
    let y: u32 = required_word(record, header, "y")?;
    let z: u32 = required_word(record, header, "z")?;
    let normal: Vec3 = match (header.offset("nx"), header.offset("ny"), header.offset("nz")) {
        (Some(nx), Some(ny), Some(nz)) => Vec3::new(
            word_at(record, nx),
            word_at(record, ny),
            word_at(record, nz),
        ),
        _ => Vec3::new(ZERO, ONE, ZERO),
    };
    let dc0: u32 = required_word(record, header, "f_dc_0")?;
    let dc1: u32 = required_word(record, header, "f_dc_1")?;
    let dc2: u32 = required_word(record, header, "f_dc_2")?;
    let mut sh_rest: Vec<u32> = Vec::new();
    let mut i: usize = 0;
    while i < SH_REST
        invariant
            i <= 45,
            header.wf(),
            props == header@.properties,
            record.len() == header.properties.len() * 4,
            sh_rest.len() == i,
            forall|k: int|
                0 <= k < i ==> sh_rest@[k] == word_or_zero(record@, props, rest_name(k)),
        decreases 45 - i,
    {
        let name: String = rest_name_string(i);
        let w: u32 = match header.offset(name.as_str()) {
            Some(off) => word_at(record, off),
            None => ZERO,
        };
        sh_rest.push(w);
        i = i + 1;
    }
    let opacity: u32 = required_word(record, header, "opacity")?;
    let s0: u32 = required_word(record, header, "scale_0")?;
    let s1: u32 = required_word(record, header, "scale_1")?;
    let s2: u32 = required_word(record, header, "scale_2")?;
    let r0: u32 = required_word(record, header, "rot_0")?;
    let r1: u32 = required_word(record, header, "rot_1")?;
    let r2: u32 = required_word(record, header, "rot_2")?;
    let r3: u32 = required_word(record, header, "rot_3")?;
    let g = Gaussian {
        pos: Vec3::new(x, y, z),
        normal,
        sh_dc: [dc0, dc1, dc2],
        sh_rest,
        opacity,
        scale: [s0, s1, s2],
        rotation: [r0, r1, r2, r3],
    };
    assert(g@ =~= record_splat(record@, props));
    Ok(g)
}

/// The splats behind a header, or why they cannot be read.
pub open spec fn records_of(b: Seq<u8>, pos: int, h: HeaderModel) -> Result<
    Seq<GaussianModel>,
    PlyErrorModel,
> {
    let size = h.properties.len() * 4;
    if h.vertex_count == 0 {
        Ok(Seq::empty())
    } else if b.len() - pos < size {
        Err(PlyErrorModel::TruncatedRecord)
    } else if first_missing(h.properties, required_names(), 0) is Some {
        Err(
            PlyErrorModel::MissingProperty(
                first_missing(h.properties, required_names(), 0)->0,
            ),
        )
    } else if b.len() - pos < h.vertex_count * size {
        Err(PlyErrorModel::TruncatedRecord)
    } else {
        Ok(
            Seq::new(
                h.vertex_count as nat,
                |r: int|
                    record_splat(
                        b.subrange(pos + r * size, pos + r * size + size),
                        h.properties,
                    ),
            ),
        )
    }
}

/// The splats of a file, or why it is refused.
pub open spec fn file_splats(b: Seq<u8>) -> Result<Seq<GaussianModel>, PlyErrorModel> {
    match header_of(b) {
        Err(e) => Err(e),
        Ok((h, pos)) => if !h.binary_le {
            Err(PlyErrorModel::NotLittleEndian)
        } else {
            records_of(b, pos, h)
        },
    }
}

/// Splats as a sequence of models.
pub open spec fn models(gs: Seq<Gaussian>) -> Seq<GaussianModel> {
    gs.map_values(|g: Gaussian| g@)
}

/// Reads the splats of a PLY file held in memory.
pub fn read_ply(bytes: &[u8]) -> (r: Result<Vec<Gaussian>, PlyError>)
    ensures
        match (r, file_splats(bytes@)) {
            (Ok(gs), Ok(want)) => models(gs@) == want,
            (Err(e), Err(want)) => e@ == want,
            _ => false,
        },
{
    let (header, start): (PlyHeader, usize) = read_header(bytes)?;
    let ghost h = header@;
    if !header.binary_le {
        return Err(PlyError::NotLittleEndian);
    }
    let size: usize = header.properties.len() * 4;
    let mut gaussians: Vec<Gaussian> = Vec::new();
    let mut pos: usize = start;
    let mut r: usize = 0;
    proof {
        assert(models(gaussians@) =~= Seq::<GaussianModel>::empty());
    }
    while r < header.vertex_count
        invariant
            header.wf(),
            h == header@,
            size == header.properties.len() * 4,
            size == h.properties.len() * 4,
            file_splats(bytes@) == records_of(bytes@, start as int, h),
            r <= header.vertex_count,
            gaussians.len() == r,
            start <= pos <= bytes.len(),
            pos == start + r * size,
            r > 0 ==> first_missing(h.properties, required_names(), 0) is None,
            forall|k: int|
                0 <= k < r ==> (#[trigger] gaussians@[k])@ == record_splat(
                    bytes@.subrange(start + k * size, start + k * size + size),
                    h.properties,
                ),
        decreases header.vertex_count - r,
    {
        proof {
            assert((r + 1) * size == r * size + size) by (nonlinear_arith);
            assert((r + 1) * size <= h.vertex_count * size) by (nonlinear_arith)
                requires
                    r + 1 <= h.vertex_count,
                    0 <= size,
            ;
            assert(size <= h.vertex_count * size) by (nonlinear_arith)
                requires
                    1 <= h.vertex_count,
                    0 <= size,
            ;
        }
        if bytes.len() - pos < size {
            proof {
                if r > 0 {
                    assert(bytes@.len() - start < h.vertex_count * size);
                    assert(size <= r * size) by (nonlinear_arith)
                        requires
                            r >= 1,
                            0 <= size,
                    ;
                }
            }
            return Err(PlyError::TruncatedRecord);
        }
        let record: &[u8] = vstd::slice::slice_subrange(bytes, pos, pos + size);
        proof {
            assert(size <= bytes@.len() - start) by {
                assert(0 <= r * size) by (nonlinear_arith)
                    requires
                        r >= 0,
                        size >= 0,
                ;
            }
        }
        let splat: Gaussian = parse_record(record, &header)?;
        gaussians.push(splat);
        pos = pos + size;
        r = r + 1;
    }
    proof {
        if h.vertex_count > 0 {
            assert(size <= h.vertex_count * size) by (nonlinear_arith)
                requires
                    1 <= h.vertex_count,
                    0 <= size,
            ;
        }
        assert(records_of(bytes@, start as int, h) is Ok);
        assert(models(gaussians@) =~= records_of(bytes@, start as int, h)->Ok_0);
    }
    Ok(gaussians)
}

/// Name of the property at position `j` of the written schema.
pub open spec fn schema_name(j: int) -> Seq<char> {
    if j == 0 {
        "x"@
    } else if j == 1 {
        "y"@
    } else if j == 2 {
        "z"@
    } else if j == 3 {
        "nx"@
    } else if j == 4 {
        "ny"@
    } else if j == 5 {
        "nz"@
    } else if j == 6 {
        "f_dc_0"@
    } else if j == 7 {
        "f_dc_1"@
    } else if j == 8 {
        "f_dc_2"@
    } else if j < 54 {
        rest_name(j - 9)
    } else if j == 54 {
        "opacity"@
    } else if j == 55 {
        "scale_0"@
    } else if j == 56 {
        "scale_1"@
    } else if j == 57 {
        "scale_2"@
    } else if j == 58 {
        "rot_0"@
    } else if j == 59 {
        "rot_1"@
    } else if j == 60 {
        "rot_2"@
    } else {
        "rot_3"@
    }
}

/// The written schema: 62 float properties.
pub open spec fn schema() -> Seq<Seq<char>> {
    Seq::new(62, |j: int| schema_name(j))
}

/// Line `k` of the header of a file of `n` splats.
pub open spec fn header_text(n: nat, k: int) -> Seq<char> {
    if k == 0 {
        "ply"@
    } else if k == 1 {
        "format binary_little_endian 1.0"@
    } else if k == 2 {
        "element vertex "@ + decimal(n)
    } else if k < 65 {
        "property float "@ + schema_name(k - 3)
    } else {
        "end_header"@
    }
}

/// The first `k` header lines as bytes, each ended by a newline.
pub open spec fn header_prefix(n: nat, k: int) -> Seq<u8>
    decreases k,
{
    if k <= 0 {
        Seq::empty()
    } else {
        header_prefix(n, k - 1) + encode_utf8(header_text(n, k - 1)) + seq![10u8]
    }
}

/// The header of a file of `n` splats.
pub open spec fn header_bytes(n: nat) -> Seq<u8> {
    header_prefix(n, 66)
}

/// Little-endian bytes of a sequence of words.
pub open spec fn le_bytes(ws: Seq<u32>) -> Seq<u8>
    decreases ws.len(),
{
    if ws.len() == 0 {
        Seq::empty()
    } else {
        le_bytes(ws.drop_last()) + spec_u32_to_le_bytes(ws.last())
    }
}

/// The records of the first `k` splats.
pub open spec fn records_bytes(gs: Seq<GaussianModel>, k: int) -> Seq<u8>
    decreases k,
{
    if k <= 0 {
        Seq::empty()
    } else {
        records_bytes(gs, k - 1) + le_bytes(gs[k - 1].words())
    }
}

/// A whole file.
pub open spec fn file_bytes(gs: Seq<GaussianModel>) -> Seq<u8> {
    header_bytes(gs.len()) + records_bytes(gs, gs.len() as int)
}

fn push_text(out: &mut Vec<u8>, text: &str)
    ensures
        final(out)@ == old(out)@ + encode_utf8(text@),
{
    let bytes: &[u8] = text.as_bytes();
    let ghost before = out@;
    let mut i: usize = 0;
    while i < bytes.len()
        invariant
            i <= bytes.len(),
            out@ == before + bytes@.subrange(0, i as int),
        decreases bytes.len() - i,
    {
        out.push(bytes[i]);
        i = i + 1;
        assert(out@ =~= before + bytes@.subrange(0, i as int));
    }
    assert(bytes@.subrange(0, bytes@.len() as int) =~= bytes@);
}

/// The schema name at position `j` as a string.
fn schema_name_string(j: usize) -> (name: String)
    requires
        j < 62,
    ensures
        name@ == schema_name(j as int),
{
    if j >= 9 && j < 54 {
        return rest_name_string(j - 9);
    }
    String::from_str(
        if j == 0 {
            "x"
        } else if j == 1 {
            "y"
        } else if j == 2 {
            "z"
        } else if j == 3 {
            "nx"
        } else if j == 4 {
            "ny"
        } else if j == 5 {
            "nz"
        } else if j == 6 {
            "f_dc_0"
        } else if j == 7 {
            "f_dc_1"
        } else if j == 8 {
            "f_dc_2"
        } else if j == 54 {
            "opacity"
        } else if j == 55 {
            "scale_0"
        } else if j == 56 {
            "scale_1"
        } else if j == 57 {
            "scale_2"
        } else if j == 58 {
            "rot_0"
        } else if j == 59 {
            "rot_1"
        } else if j == 60 {
            "rot_2"
        } else {
            "rot_3"
        },
    )
}

/// Appends the header of a file of `vertex_count` splats.
pub fn write_header(out: &mut Vec<u8>, vertex_count: usize)
    ensures
        final(out)@ == old(out)@ + header_bytes(vertex_count as nat),
{
    let ghost before = out@;
    let ghost n = vertex_count as nat;
    proof {
        reveal_with_fuel(header_prefix, 4);
    }
    push_text(out, "ply");
    out.push(10);
    assert(out@ =~= before + header_prefix(n, 1));
    push_text(out, "format binary_little_endian 1.0");
    out.push(10);
    assert(out@ =~= before + header_prefix(n, 2));
    push_text(out, "element vertex ");
    push_decimal(out, vertex_count);
    out.push(10);
    proof {
        lemma_encode_concat("element vertex "@, decimal(n));
        assert(out@ =~= before + header_prefix(n, 3));
    }
    let mut j: usize = 0;
    while j < 62
        invariant
            j <= 62,
            out@ == before + header_prefix(n, 3 + j),
        decreases 62 - j,
    {
        let name: String = schema_name_string(j);
        push_text(out, "property float ");
        push_text(out, name.as_str());
        out.push(10);
        proof {
            lemma_encode_concat("property float "@, schema_name(j as int));
            assert(out@ =~= before + header_prefix(n, 4 + j));
        }
        j = j + 1;
    }
    push_text(out, "end_header");
    out.push(10);
    assert(out@ =~= before + header_prefix(n, 66));
}

/// Appends one word.
pub fn write_f32(out: &mut Vec<u8>, word: u32)
    ensures
        final(out)@ == old(out)@ + spec_u32_to_le_bytes(word),
{
    let mut bytes: Vec<u8> = u32_to_le_bytes(word);
    out.append(&mut bytes);
}

fn push_words(out: &mut Vec<u8>, words: &[u32])
    ensures
        final(out)@ == old(out)@ + le_bytes(words@),
{
    let ghost before = out@;
    let mut i: usize = 0;
    assert(words@.subrange(0, 0) =~= Seq::<u32>::empty());
    while i < words.len()
        invariant
            i <= words.len(),
            out@ == before + le_bytes(words@.subrange(0, i as int)),
        decreases words.len() - i,
    {
        write_f32(out, words[i]);
        proof {
            let next = words@.subrange(0, i + 1);
            assert(next.drop_last() =~= words@.subrange(0, i as int));
            assert(out@ =~= before + le_bytes(next));
        }
        i = i + 1;
    }
    assert(words@.subrange(0, words@.len() as int) =~= words@);
}

/// Appends the record of one splat.
pub fn write_gaussian(out: &mut Vec<u8>, g: &Gaussian)
    ensures
        final(out)@ == old(out)@ + le_bytes(g@.words()),
{
    let mut words: Vec<u32> = Vec::new();
    words.push(g.pos.x);
    words.push(g.pos.y);
    words.push(g.pos.z);
    words.push(g.normal.x);
    words.push(g.normal.y);
    words.push(g.normal.z);
    words.push(g.sh_dc[0]);
    words.push(g.sh_dc[1]);
    words.push(g.sh_dc[2]);
    let ghost head = words@;
    let mut i: usize = 0;
    while i < SH_REST
        invariant
            i <= 45,
            words@ == head + g@.rest45().subrange(0, i as int),
        decreases 45 - i,
    {
        let w: u32 = if i < g.sh_rest.len() {
            g.sh_rest[i]
        } else {
            ZERO
        };
        words.push(w);
        i = i + 1;
        assert(words@ =~= head + g@.rest45().subrange(0, i as int));
    }
    words.push(g.opacity);
    words.push(g.scale[0]);
    words.push(g.scale[1]);
    words.push(g.scale[2]);
    words.push(g.rotation[0]);
    words.push(g.rotation[1]);
    words.push(g.rotation[2]);
    words.push(g.rotation[3]);
    assert(words@ =~= g@.words());
    push_words(out, words.as_slice());
}

/// The bytes of a PLY file of `gaussians`.
pub fn write_ply(gaussians: &[Gaussian]) -> (out: Vec<u8>)
    ensures
        out@ == file_bytes(models(gaussians@)),
{
    let mut out: Vec<u8> = Vec::new();
    let ghost gs = models(gaussians@);
    write_header(&mut out, gaussians.len());
    assert(out@ =~= header_bytes(gs.len()));
    let mut i: usize = 0;
    while i < gaussians.len()
        invariant
            i <= gaussians.len(),
            gs == models(gaussians@),
            out@ == header_bytes(gs.len()) + records_bytes(gs, i as int),
        decreases gaussians.len() - i,
    {
        write_gaussian(&mut out, &gaussians[i]);
        i = i + 1;
        assert(out@ =~= header_bytes(gs.len()) + records_bytes(gs, i as int));
    }
    out
}

} // verus!
