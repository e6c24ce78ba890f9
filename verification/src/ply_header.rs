//! What the lines of a PLY header mean, and what becomes of a file.
use vstd::prelude::*;
use vstd::string::*;
#[allow(unused_imports)]
use vstd::utf8::{decode_utf8, encode_utf8, valid_utf8};

#[allow(unused_imports)]
use crate::ply::{
    file_splats, first_missing, header_bytes, header_from, header_line, header_of, header_prefix,
    header_text, line_end, no_declarations, record_splat, records_of, required_names, rest_after, schema, schema_name,
    GaussianModel, HeaderModel, LineOutcome, PlyErrorModel,
};
#[allow(unused_imports)]
use crate::text::{count_value, decimal, trim};

verus! {

/// A line ends behind its first newline, or with the file where there is none.
pub proof fn law_line_end(b: Seq<u8>, pos: int)
    requires
        0 <= pos <= b.len(),
    ensures
        ({
            let e = line_end(b, pos);
            &&& pos <= e <= b.len()
            &&& forall|i: int| pos <= i < e - 1 ==> #[trigger] b[i] != 10
            &&& e < b.len() ==> e > pos && b[e - 1] == 10
            &&& pos < b.len() ==> e > pos
        }),
    decreases b.len() - pos,
{
    if pos < b.len() && b[pos] != 10 {
        law_line_end(b, pos + 1);
    }
}

/// A text starts with what it was put together from.
proof fn lemma_prefix(a: Seq<char>, r: Seq<char>)
    ensures
        a.is_prefix_of(a + r),
        rest_after(a + r, a.len()) == r,
{
    assert((a + r).subrange(0, a.len() as int) =~= a);
    assert(rest_after(a + r, a.len()) =~= r);
}

/// Texts that differ in a character have no common start beyond it.
proof fn lemma_no_prefix(a: Seq<char>, t: Seq<char>, i: int)
    requires
        0 <= i < a.len(),
        i < t.len() ==> a[i] != t[i],
    ensures
        !a.is_prefix_of(t),
        a != t,
{
    if a.is_prefix_of(t) {
        assert(t.subrange(0, a.len() as int)[i] == t[i]);
    }
}

proof fn lemma_header_words()
    ensures
        "comment "@.len() == 8 && "comment "@[0] == 'c',
        "end_header"@.len() == 10 && "end_header"@[0] == 'e' && "end_header"@[1] == 'n',
        "format "@.len() == 7 && "format "@[0] == 'f',
        "element vertex "@.len() == 15 && "element vertex "@[0] == 'e' && "element vertex "@[1] == 'l',
        "element "@.len() == 8 && "element "@[0] == 'e' && "element "@[1] == 'l',
        "property float "@.len() == 15 && "property float "@[0] == 'p',
        "property "@.len() == 9 && "property "@[0] == 'p',
        "element vertex "@ == "element "@ + "vertex "@,
        "property float "@ == "property "@ + "float "@,
{
    reveal_strlit("comment ");
    reveal_strlit("end_header");
    reveal_strlit("format ");
    reveal_strlit("element vertex ");
    reveal_strlit("element ");
    reveal_strlit("vertex ");
    reveal_strlit("property float ");
    reveal_strlit("property ");
    reveal_strlit("float ");
    assert("element vertex "@ =~= "element "@ + "vertex "@);
    assert("property float "@ =~= "property "@ + "float "@);
}

/// A prefix of two parts is found behind its first part.
proof fn lemma_two_parts(a: Seq<char>, b: Seq<char>, r: Seq<char>)
    ensures
        (a + b).is_prefix_of(a + r) == b.is_prefix_of(r),
{
    let t = a + r;
    if (a + b).is_prefix_of(t) {
        assert(b =~= r.subrange(0, b.len() as int)) by {
            assert forall|i: int| 0 <= i < b.len() implies b[i] == r[i] by {
                assert((a + b)[a.len() + i] == t.subrange(0, (a + b).len() as int)[a.len() + i]);
                assert(t[a.len() + i] == r[i]);
            }
        }
    }
    if b.is_prefix_of(r) {
        assert(a + b =~= t.subrange(0, (a + b).len() as int)) by {
            assert forall|i: int| 0 <= i < (a + b).len() implies (a + b)[i] == t[i] by {
                if i >= a.len() {
                    assert(b[i - a.len()] == r.subrange(0, b.len() as int)[i - a.len()]);
                }
            }
        }
    }
}

/// What the lines of a header declare, `r` being what follows the keyword. A
/// format line says whether the data is binary little-endian, a vertex line how
/// many splats there are, and a property line adds one name behind the others;
/// each leaves everything else as it is. A count that does not parse and a
/// property that is no float refuse the file. Comments, blank lines and other
/// elements say nothing, and the last line ends the header.
pub proof fn law_header_lines(h: HeaderModel, r: Seq<char>)
    ensures
        header_line(h, Seq::empty()) == LineOutcome::Continue(h),
        header_line(h, "comment "@ + r) == LineOutcome::Continue(h),
        header_line(h, "end_header"@) == LineOutcome::End,
        header_line(h, "format "@ + r) == LineOutcome::Continue(
            HeaderModel {
                binary_le: "binary_little_endian"@.is_prefix_of(r),
                vertex_count: h.vertex_count,
                properties: h.properties,
            },
        ),
        count_value(trim(r)) matches Ok(n) ==> header_line(h, "element vertex "@ + r)
            == LineOutcome::Continue(
            HeaderModel { binary_le: h.binary_le, vertex_count: n, properties: h.properties },
        ),
        count_value(trim(r)) matches Err(e) ==> header_line(h, "element vertex "@ + r)
            == LineOutcome::Fail(PlyErrorModel::VertexCount(e)),
        header_line(h, "property float "@ + r) == LineOutcome::Continue(
            HeaderModel {
                binary_le: h.binary_le,
                vertex_count: h.vertex_count,
                properties: h.properties.push(trim(r)),
            },
        ),
        !"vertex "@.is_prefix_of(r) ==> header_line(h, "element "@ + r) == LineOutcome::Continue(
            h,
        ),
        !"float "@.is_prefix_of(r) ==> header_line(h, "property "@ + r) == LineOutcome::Fail(
            PlyErrorModel::UnsupportedProperty("property "@ + r),
        ),
{
    lemma_header_words();
    lemma_prefix("comment "@, r);
    let end = "end_header"@;
    lemma_no_prefix("comment "@, end, 0);
    let format = "format "@ + r;
    assert(format[0] == 'f');
    lemma_prefix("format "@, r);
    lemma_no_prefix("comment "@, format, 0);
    lemma_no_prefix("end_header"@, format, 0);
    let vertex = "element vertex "@ + r;
    assert(vertex[0] == 'e' && vertex[1] == 'l');
    lemma_prefix("element vertex "@, r);
    lemma_no_prefix("comment "@, vertex, 0);
    lemma_no_prefix("end_header"@, vertex, 1);
    lemma_no_prefix("format "@, vertex, 0);
    let float = "property float "@ + r;
    assert(float[0] == 'p');
    lemma_prefix("property float "@, r);
    lemma_no_prefix("comment "@, float, 0);
    lemma_no_prefix("end_header"@, float, 0);
    lemma_no_prefix("format "@, float, 0);
    lemma_no_prefix("element vertex "@, float, 0);
    let element = "element "@ + r;
    assert(element[0] == 'e' && element[1] == 'l');
    lemma_prefix("element "@, r);
    lemma_no_prefix("comment "@, element, 0);
    lemma_no_prefix("end_header"@, element, 1);
    lemma_no_prefix("format "@, element, 0);
    lemma_no_prefix("property float "@, element, 0);
    lemma_two_parts("element "@, "vertex "@, r);
    let property = "property "@ + r;
    assert(property[0] == 'p');
    lemma_prefix("property "@, r);
    lemma_no_prefix("comment "@, property, 0);
    lemma_no_prefix("end_header"@, property, 0);
    lemma_no_prefix("format "@, property, 0);
    lemma_no_prefix("element vertex "@, property, 0);
    lemma_no_prefix("element "@, property, 0);
    lemma_two_parts("property "@, "float "@, r);
}

/// A line that is none of these says nothing.
pub proof fn law_unknown_lines(h: HeaderModel, t: Seq<char>)
    requires
        t != "end_header"@,
        !"format "@.is_prefix_of(t),
        !"element "@.is_prefix_of(t),
        !"property "@.is_prefix_of(t),
    ensures
        header_line(h, t) == LineOutcome::Continue(h),
{
    lemma_header_words();
    if "element vertex "@.is_prefix_of(t) {
        let r = t.subrange(8, t.len() as int);
        assert(t =~= "element "@ + r) by {
            assert forall|i: int| 0 <= i < 8 implies t[i] == "element "@[i] by {
                assert(t.subrange(0, 15)[i] == "element vertex "@[i]);
            }
        }
        lemma_prefix("element "@, r);
    }
    if "property float "@.is_prefix_of(t) {
        let r = t.subrange(9, t.len() as int);
        assert(t =~= "property "@ + r) by {
            assert forall|i: int| 0 <= i < 9 implies t[i] == "property "@[i] by {
                assert(t.subrange(0, 15)[i] == "property float "@[i]);
            }
        }
        lemma_prefix("property "@, r);
    }
}

/// A written header is 66 lines, each ended by a newline: the magic word, the
/// format, the number of splats, the 62 properties and the end.
pub proof fn law_header_text(n: nat, k: int)
    requires
        0 <= k < 66,
    ensures
        header_prefix(n, 0).len() == 0,
        header_bytes(n) == header_prefix(n, 66),
        k == 0 ==> header_prefix(n, 1) == encode_utf8("ply"@) + seq![10u8],
        k == 1 ==> header_prefix(n, 2) == header_prefix(n, 1) + encode_utf8(
            "format binary_little_endian 1.0"@,
        ) + seq![10u8],
        k == 2 ==> header_prefix(n, 3) == header_prefix(n, 2) + encode_utf8(
            "element vertex "@ + decimal(n),
        ) + seq![10u8],
        3 <= k < 65 ==> header_prefix(n, k + 1) == header_prefix(n, k) + encode_utf8(
            "property float "@ + schema()[k - 3],
        ) + seq![10u8],
        k == 65 ==> header_prefix(n, 66) == header_prefix(n, 65) + encode_utf8("end_header"@)
            + seq![10u8],
{
    assert(header_prefix(n, k + 1) == header_prefix(n, k) + encode_utf8(header_text(n, k))
        + seq![10u8]);
    if k == 0 {
        assert(header_prefix(n, 1) =~= encode_utf8("ply"@) + seq![10u8]);
    }
}

/// What becomes of a file whose header is in order. Other data than binary
/// little-endian is refused, and a file that declares no splats has none. Where
/// not even the first record is there, or every required property is declared
/// and some record is not there, the file is cut short; where a required
/// property is not declared and there is a record, that is what is wrong.
/// Otherwise record `r` stands behind the header and the `r` records before it,
/// four bytes per property, and bytes behind the last are not looked at.
pub proof fn law_outcome_of_a_file(b: Seq<u8>, h: HeaderModel, pos: int, r: int)
    requires
        header_of(b) == Ok::<(HeaderModel, int), PlyErrorModel>((h, pos)),
        h.vertex_count >= 0,
    ensures
        ({
            let size: int = 4 * (h.properties.len() as int);
            let left = b.len() - pos;
            let missing = first_missing(h.properties, required_names(), 0);
            let out = file_splats(b);
            let refused = |e: PlyErrorModel| Err::<Seq<GaussianModel>, PlyErrorModel>(e);
            &&& !h.binary_le ==> out == refused(PlyErrorModel::NotLittleEndian)
            &&& h.binary_le && h.vertex_count == 0 ==> out is Ok && out->Ok_0.len() == 0
            &&& h.binary_le && h.vertex_count > 0 && left < size ==> out == refused(
                PlyErrorModel::TruncatedRecord,
            )
            &&& h.binary_le && h.vertex_count > 0 && left >= size && missing is Some ==> out
                == refused(PlyErrorModel::MissingProperty(missing->0))
            &&& h.binary_le && h.vertex_count > 0 && missing is None && left < h.vertex_count * size
                ==> out == refused(PlyErrorModel::TruncatedRecord)
            &&& h.binary_le && h.vertex_count > 0 && missing is None && left >= h.vertex_count
                * size ==> {
                &&& out is Ok
                &&& out->Ok_0.len() == h.vertex_count
                &&& 0 <= r < h.vertex_count ==> out->Ok_0[r] == record_splat(
                    b.subrange(pos + r * size, pos + r * size + size),
                    h.properties,
                )
            }
        }),
{
    let size: int = 4 * (h.properties.len() as int);
    assert(size == h.properties.len() * 4);
    if h.vertex_count > 0 {
        assert(size <= h.vertex_count * size) by (nonlinear_arith)
            requires
                1 <= h.vertex_count,
                0 <= size,
        ;
    }
}

/// A file whose header is refused is refused for the same reason.
pub proof fn law_refused_header(b: Seq<u8>)
    ensures
        header_of(b) matches Err(e) ==> file_splats(b) == Err::<Seq<GaussianModel>, PlyErrorModel>(e),
{
}

/// A file starts with a line that says `ply`; where its first line is no text
/// or says anything else, the file is refused.
pub proof fn law_magic_line(b: Seq<u8>)
    ensures
        ({
            let line = b.subrange(0, line_end(b, 0));
            &&& !valid_utf8(line) ==> header_of(b) == Err::<(HeaderModel, int), PlyErrorModel>(
                PlyErrorModel::InvalidUtf8,
            )
            &&& valid_utf8(line) && trim(decode_utf8(line)) != "ply"@ ==> header_of(b) == Err::<
                (HeaderModel, int),
                PlyErrorModel,
            >(PlyErrorModel::MissingMagic)
            &&& header_of(b) is Ok ==> valid_utf8(line) && trim(decode_utf8(line)) == "ply"@
        }),
{
}

/// A header that goes on to the end of the file is refused as unterminated, and
/// so is a line that is no text as such. Otherwise what a line says decides:
/// the header goes on behind it, ends with it or is refused for it.
pub proof fn law_header_line_by_line(b: Seq<u8>, pos: int, h: HeaderModel)
    requires
        0 <= pos <= b.len(),
    ensures
        pos == b.len() ==> header_from(b, pos, h) == Err::<(HeaderModel, int), PlyErrorModel>(
            PlyErrorModel::UnterminatedHeader,
        ),
        pos < b.len() ==> {
            let e = line_end(b, pos);
            let line = b.subrange(pos, e);
            let said = header_line(h, trim(decode_utf8(line)));
            &&& !valid_utf8(line) ==> header_from(b, pos, h) == Err::<
                (HeaderModel, int),
                PlyErrorModel,
            >(PlyErrorModel::InvalidUtf8)
            &&& valid_utf8(line) && said is Continue ==> header_from(b, pos, h) == header_from(
                b,
                e,
                said->Continue_0,
            )
            &&& valid_utf8(line) && said is End ==> header_from(b, pos, h) == Ok::<
                (HeaderModel, int),
                PlyErrorModel,
            >((h, e))
            &&& valid_utf8(line) && said is Fail ==> header_from(b, pos, h) == Err::<
                (HeaderModel, int),
                PlyErrorModel,
            >(said->Fail_0)
        },
{
    law_line_end(b, pos);
    reveal_with_fuel(header_from, 2);
}

/// Until a line says otherwise, the data is not little-endian, there are no
/// splats and there is no property.
pub proof fn law_nothing_declared()
    ensures
        !no_declarations().binary_le,
        no_declarations().vertex_count == 0,
        no_declarations().properties.len() == 0,
{
}

} // verus!
