//! What a PLY file keeps: reading back what was written.
use vstd::bytes::{spec_u32_from_le_bytes, spec_u32_to_le_bytes};
use vstd::prelude::*;
use vstd::string::*;
#[allow(unused_imports)]
use vstd::utf8::{decode_utf8, encode_utf8, is_ascii_chars, valid_utf8};

#[allow(unused_imports)]
use crate::ply::{
    byte_offset, file_bytes, file_splats, find_from, first_missing, header_bytes, header_from,
    header_line, header_of, header_prefix, header_text, le_bytes, lemma_line_end, line_end,
    no_declarations, record_splat, records_bytes, records_of, required_names, rest_after,
    rest_name, schema, schema_name, word_of, word_or_zero, GaussianModel, HeaderModel,
    LineOutcome, PlyErrorModel,
};
#[allow(unused_imports)]
use crate::text::{
    count_value, decimal, digit_char, is_white, law_decimal_parses, lemma_decimal_digits,
    lemma_encode_concat, trim, CountError,
};

verus! {

/// Printable ASCII that neither starts nor ends with white space.
spec fn tidy(s: Seq<char>) -> bool {
    &&& s.len() > 0
    &&& !is_white(s[0])
    &&& !is_white(s[s.len() - 1])
    &&& forall|i: int| 0 <= i < s.len() ==> ' ' <= #[trigger] s[i] <= '~'
}

proof fn lemma_tidy_concat(a: Seq<char>, b: Seq<char>)
    requires
        a.len() > 0,
        !is_white(a[0]),
        forall|i: int| 0 <= i < a.len() ==> ' ' <= #[trigger] a[i] <= '~',
        tidy(b),
    ensures
        tidy(a + b),
{
    let s = a + b;
    assert(s[0] == a[0]);
    assert(s[s.len() - 1] == b[b.len() - 1]);
}

proof fn lemma_decimal_tidy(n: nat)
    ensures
        tidy(decimal(n)),
{
    lemma_decimal_digits(n);
    let s = decimal(n);
    assert('0' <= s[0] <= '9');
    assert('0' <= s[s.len() - 1] <= '9');
}

proof fn lemma_schema_tidy(j: int)
    requires
        0 <= j < 62,
    ensures
        tidy(schema_name(j)),
{
    reveal_strlit("x");
    reveal_strlit("y");
    reveal_strlit("z");
    reveal_strlit("nx");
    reveal_strlit("ny");
    reveal_strlit("nz");
    reveal_strlit("f_dc_0");
    reveal_strlit("f_dc_1");
    reveal_strlit("f_dc_2");
    reveal_strlit("f_rest_");
    reveal_strlit("opacity");
    reveal_strlit("scale_0");
    reveal_strlit("scale_1");
    reveal_strlit("scale_2");
    reveal_strlit("rot_0");
    reveal_strlit("rot_1");
    reveal_strlit("rot_2");
    reveal_strlit("rot_3");
    if 9 <= j < 54 {
        lemma_decimal_tidy((j - 9) as nat);
        lemma_tidy_concat("f_rest_"@, decimal((j - 9) as nat));
    }
}

proof fn lemma_text_tidy(n: nat, k: int)
    requires
        0 <= k < 66,
    ensures
        tidy(header_text(n, k)),
{
    reveal_strlit("ply");
    reveal_strlit("format binary_little_endian 1.0");
    reveal_strlit("element vertex ");
    reveal_strlit("property float ");
    reveal_strlit("end_header");
    if k == 2 {
        lemma_decimal_tidy(n);
        lemma_tidy_concat("element vertex "@, decimal(n));
    } else if 3 <= k < 65 {
        lemma_schema_tidy(k - 3);
        lemma_tidy_concat("property float "@, schema_name(k - 3));
    }
}

/// A tidy line and its newline decode to the line, and trimming takes the
/// newline off again.
proof fn lemma_line_decodes(s: Seq<char>)
    requires
        tidy(s),
    ensures
        ({
            let bytes = encode_utf8(s) + seq![10u8];
            &&& valid_utf8(bytes)
            &&& trim(decode_utf8(bytes)) == s
        }),
        encode_utf8(s).len() == s.len(),
        forall|i: int| 0 <= i < encode_utf8(s).len() ==> #[trigger] encode_utf8(s)[i] != 10u8,
{
    let nl = seq!['\n'];
    let line = s + nl;
    assert(is_ascii_chars(s));
    assert(is_ascii_chars(nl));
    vstd::utf8::is_ascii_chars_encode_utf8(s);
    vstd::utf8::is_ascii_chars_encode_utf8(nl);
    assert(nl[0] as u8 == encode_utf8(nl)[0]);
    assert(encode_utf8(nl) =~= seq![10u8]);
    lemma_encode_concat(s, nl);
    vstd::utf8::encode_utf8_valid_utf8(line);
    vstd::utf8::encode_utf8_decode_utf8(line);
    assert(decode_utf8(encode_utf8(s) + seq![10u8]) == line);
    assert(line[0] == s[0]);
    assert(line.subrange(0, line.len() - 1) =~= s);
    assert(is_white('\n'));
    reveal_with_fuel(trim, 3);
    assert forall|i: int| 0 <= i < encode_utf8(s).len() implies #[trigger] encode_utf8(s)[i] != 10u8 by {
        assert(s[i] as u8 == encode_utf8(s)[i]);
        assert(' ' <= s[i] <= '~');
    }
}

/// A line ends behind its first newline.
pub proof fn lemma_line_end_at(b: Seq<u8>, pos: int, len: int)
    requires
        0 <= pos,
        0 <= len,
        pos + len < b.len(),
        b[pos + len] == 10,
        forall|i: int| pos <= i < pos + len ==> b[i] != 10,
    ensures
        line_end(b, pos) == pos + len + 1,
    decreases len,
{
    if len > 0 {
        lemma_line_end_at(b, pos + 1, len - 1);
    }
}

/// Fewer header lines are a prefix of more.
proof fn lemma_prefix_grows(n: nat, k: int, m: int)
    requires
        0 <= k <= m,
    ensures
        header_prefix(n, k).len() <= header_prefix(n, m).len(),
        header_prefix(n, m).subrange(0, header_prefix(n, k).len() as int) == header_prefix(n, k),
    decreases m - k,
{
    if k < m {
        lemma_prefix_grows(n, k, m - 1);
        let p = header_prefix(n, m - 1);
        let q = header_prefix(n, m);
        let l = header_prefix(n, k).len() as int;
        assert(q.subrange(0, p.len() as int) =~= p);
        assert(q.subrange(0, l) =~= p.subrange(0, l));
    } else {
        assert(header_prefix(n, m).subrange(0, header_prefix(n, m).len() as int)
            =~= header_prefix(n, m));
    }
}

/// Where line `k` of a written header lies, and what it says.
proof fn lemma_header_slice(b: Seq<u8>, n: nat, tail: Seq<u8>, k: int)
    requires
        0 <= k < 66,
        b == header_bytes(n) + tail,
    ensures
        ({
            let pos = header_prefix(n, k).len() as int;
            let end = header_prefix(n, k + 1).len() as int;
            &&& 0 <= pos < end <= b.len()
            &&& line_end(b, pos) == end
            &&& valid_utf8(b.subrange(pos, end))
            &&& trim(decode_utf8(b.subrange(pos, end))) == header_text(n, k)
        }),
{
    let pos = header_prefix(n, k).len() as int;
    let end = header_prefix(n, k + 1).len() as int;
    let text = header_text(n, k);
    lemma_text_tidy(n, k);
    lemma_line_decodes(text);
    lemma_prefix_grows(n, k + 1, 66);
    let line = encode_utf8(text) + seq![10u8];
    assert(header_prefix(n, k + 1) =~= header_prefix(n, k) + line);
    assert(end == pos + line.len());
    assert forall|i: int| 0 <= i < line.len() implies b[pos + i] == #[trigger] line[i] by {
        assert(header_prefix(n, k + 1)[pos + i] == line[i]);
        assert(header_bytes(n).subrange(0, end)[pos + i] == header_bytes(n)[pos + i]);
    }
    assert(b.subrange(pos, end) =~= line);
    assert(b[pos + text.len()] == line[text.len() as int]);
    assert forall|i: int| pos <= i < pos + text.len() implies b[i] != 10 by {
        assert(b[pos + (i - pos)] == line[i - pos]);
    }
    lemma_line_end_at(b, pos, text.len() as int);
}

/// The declarations after the first `k` lines of a written header.
spec fn declared(n: nat, k: int) -> HeaderModel {
    HeaderModel {
        binary_le: k >= 2,
        vertex_count: if k >= 3 { n as int } else { 0 },
        properties: if k >= 3 { schema().take(k - 3) } else { Seq::empty() },
    }
}

proof fn lemma_property_line(h: HeaderModel, name: Seq<char>)
    requires
        tidy(name),
    ensures
        header_line(h, "property float "@ + name) == LineOutcome::Continue(
            HeaderModel { properties: h.properties.push(name), ..h },
        ),
{
    reveal_strlit("comment ");
    reveal_strlit("end_header");
    reveal_strlit("format ");
    reveal_strlit("element vertex ");
    reveal_strlit("property float ");
    let t = "property float "@ + name;
    assert(t[0] == 'p');
    assert("comment "@[0] == 'c');
    assert("end_header"@[0] == 'e');
    assert("format "@[0] == 'f');
    assert("element vertex "@[0] == 'e');
    assert(!"comment "@.is_prefix_of(t)) by {
        if "comment "@.is_prefix_of(t) {
            assert(t.subrange(0, 8)[0] == 'c');
        }
    }
    assert(!"format "@.is_prefix_of(t)) by {
        if "format "@.is_prefix_of(t) {
            assert(t.subrange(0, 7)[0] == 'f');
        }
    }
    assert(!"element vertex "@.is_prefix_of(t)) by {
        if "element vertex "@.is_prefix_of(t) {
            assert(t.subrange(0, 15)[0] == 'e');
        }
    }
    assert(t.subrange(0, 15) =~= "property float "@);
    assert(rest_after(t, 15) =~= name);
}

proof fn lemma_count_line(h: HeaderModel, n: nat)
    requires
        n <= usize::MAX,
    ensures
        header_line(h, "element vertex "@ + decimal(n)) == LineOutcome::Continue(
            HeaderModel { vertex_count: n as int, ..h },
        ),
{
    reveal_strlit("comment ");
    reveal_strlit("end_header");
    reveal_strlit("format ");
    reveal_strlit("element vertex ");
    let t = "element vertex "@ + decimal(n);
    assert(t[0] == 'e' && t[1] == 'l');
    assert(t != "end_header"@) by {
        assert("end_header"@[1] == 'n');
    }
    assert(!"comment "@.is_prefix_of(t)) by {
        if "comment "@.is_prefix_of(t) {
            assert("comment "@[0] == 'c');
            assert(t.subrange(0, 8)[0] == 'c');
        }
    }
    assert(!"format "@.is_prefix_of(t)) by {
        if "format "@.is_prefix_of(t) {
            assert("format "@[0] == 'f');
            assert(t.subrange(0, 7)[0] == 'f');
        }
    }
    assert(t.subrange(0, 15) =~= "element vertex "@);
    assert(rest_after(t, 15) =~= decimal(n));
    lemma_decimal_tidy(n);
    law_decimal_parses(n);
}

proof fn lemma_format_line(h: HeaderModel)
    ensures
        header_line(h, "format binary_little_endian 1.0"@) == LineOutcome::Continue(
            HeaderModel { binary_le: true, ..h },
        ),
{
    reveal_strlit("comment ");
    reveal_strlit("end_header");
    reveal_strlit("format ");
    reveal_strlit("binary_little_endian");
    reveal_strlit("format binary_little_endian 1.0");
    let t = "format binary_little_endian 1.0"@;
    assert(t[0] == 'f');
    assert(t != "end_header"@) by {
        assert("end_header"@[0] == 'e');
    }
    assert(!"comment "@.is_prefix_of(t)) by {
        if "comment "@.is_prefix_of(t) {
            assert("comment "@[0] == 'c');
            assert(t.subrange(0, 8)[0] == 'c');
        }
    }
    assert(t.subrange(0, 7) =~= "format "@);
    let r = rest_after(t, 7);
    assert(r.subrange(0, 20) =~= "binary_little_endian"@);
}

/// `end_header` ends a header.
pub proof fn lemma_end_line(h: HeaderModel)
    ensures
        header_line(h, "end_header"@) == LineOutcome::End,
{
    reveal_strlit("comment ");
    reveal_strlit("end_header");
    let t = "end_header"@;
    assert(!"comment "@.is_prefix_of(t)) by {
        if "comment "@.is_prefix_of(t) {
            assert("comment "@[0] == 'c');
            assert(t.subrange(0, 8)[0] == 'c');
        }
    }
}

proof fn lemma_header_runs(b: Seq<u8>, n: nat, tail: Seq<u8>, k: int)
    requires
        n <= usize::MAX,
        1 <= k <= 65,
        b == header_bytes(n) + tail,
    ensures
        header_from(b, header_prefix(n, 1).len() as int, no_declarations()) == header_from(
            b,
            header_prefix(n, k).len() as int,
            declared(n, k),
        ),
    decreases k,
{
    if k == 1 {
        assert(declared(n, 1) =~= no_declarations());
    } else {
        lemma_header_runs(b, n, tail, k - 1);
        lemma_header_slice(b, n, tail, k - 1);
        let h = declared(n, k - 1);
        if k == 2 {
            lemma_format_line(h);
        } else if k == 3 {
            lemma_count_line(h, n);
            assert(schema().take(0) =~= Seq::<Seq<char>>::empty());
        } else {
            lemma_schema_tidy(k - 4);
            lemma_property_line(h, schema_name(k - 4));
            assert(schema().take(k - 3) =~= schema().take(k - 4).push(schema_name(k - 4)));
        }
        assert(header_line(h, header_text(n, k - 1)) == LineOutcome::Continue(declared(n, k)));
    }
}

/// The header that is written is the header that is read, whatever follows
/// it.
pub proof fn law_header_reads_back(n: nat, tail: Seq<u8>)
    requires
        n <= usize::MAX,
    ensures
        header_of(header_bytes(n) + tail) == Ok::<(HeaderModel, int), PlyErrorModel>(
            (
                HeaderModel { binary_le: true, vertex_count: n as int, properties: schema() },
                header_bytes(n).len() as int,
            ),
        ),
{
    let b = header_bytes(n) + tail;
    lemma_header_slice(b, n, tail, 0);
    assert(header_prefix(n, 0).len() == 0);
    lemma_header_runs(b, n, tail, 65);
    lemma_header_slice(b, n, tail, 65);
    lemma_end_line(declared(n, 65));
    assert(schema().take(62) =~= schema());
}

proof fn lemma_decimal_small(i: int)
    requires
        0 <= i < 45,
    ensures
        i < 10 ==> decimal(i as nat) == seq![digit_char(i)],
        i >= 10 ==> decimal(i as nat) == seq![digit_char(i / 10), digit_char(i % 10)],
{
    reveal_with_fuel(decimal, 2);
    if i >= 10 {
        assert(decimal((i / 10) as nat) == seq![digit_char(i / 10)]);
        assert(decimal(i as nat) =~= seq![digit_char(i / 10), digit_char(i % 10)]);
    }
}

proof fn lemma_rest_names_distinct(i: int, j: int)
    requires
        0 <= i < j < 45,
    ensures
        rest_name(i) != rest_name(j),
{
    reveal_strlit("f_rest_");
    lemma_decimal_small(i);
    lemma_decimal_small(j);
    let a = rest_name(i);
    let b = rest_name(j);
    assert(a.len() == 7 + decimal(i as nat).len());
    assert(b.len() == 7 + decimal(j as nat).len());
    assert(a[7] == decimal(i as nat)[0]);
    assert(b[7] == decimal(j as nat)[0]);
    if i >= 10 {
        assert(a[8] == decimal(i as nat)[1]);
        assert(b[8] == decimal(j as nat)[1]);
        assert(i / 10 != j / 10 || i % 10 != j % 10);
    }
}

/// No name of the schema occurs twice.
pub proof fn law_schema_distinct(i: int, j: int)
    requires
        0 <= i < j < 62,
    ensures
        schema_name(i) != schema_name(j),
{
    reveal_strlit("x");
    reveal_strlit("y");
    reveal_strlit("z");
    reveal_strlit("nx");
    reveal_strlit("ny");
    reveal_strlit("nz");
    reveal_strlit("f_dc_0");
    reveal_strlit("f_dc_1");
    reveal_strlit("f_dc_2");
    reveal_strlit("f_rest_");
    reveal_strlit("opacity");
    reveal_strlit("scale_0");
    reveal_strlit("scale_1");
    reveal_strlit("scale_2");
    reveal_strlit("rot_0");
    reveal_strlit("rot_1");
    reveal_strlit("rot_2");
    reveal_strlit("rot_3");
    let a = schema_name(i);
    let b = schema_name(j);
    if 9 <= i < 54 && 9 <= j < 54 {
        lemma_rest_names_distinct(i - 9, j - 9);
    } else if 9 <= i < 54 || 9 <= j < 54 {
        let r = if 9 <= i < 54 { i } else { j };
        assert(schema_name(r)[2] == "f_rest_"@[2]);
        assert(schema_name(r)[0] == "f_rest_"@[0]);
        assert(schema_name(r).len() >= 7);
    } else {
        assert(a.len() == b.len() ==> a[0] != b[0] || a[a.len() - 1] != b[b.len() - 1]);
    }
}

proof fn lemma_find_schema(j: int, i: int)
    requires
        0 <= i <= j < 62,
    ensures
        find_from(schema(), schema_name(j), i) == Some(j),
    decreases j - i,
{
    if i < j {
        law_schema_distinct(i, j);
        lemma_find_schema(j, i + 1);
    }
}

pub proof fn lemma_le_len(ws: Seq<u32>)
    ensures
        le_bytes(ws).len() == ws.len() * 4,
    decreases ws.len(),
{
    vstd::bytes::lemma_auto_spec_u32_to_from_le_bytes();
    if ws.len() > 0 {
        lemma_le_len(ws.drop_last());
    }
}

pub proof fn lemma_le_word(ws: Seq<u32>, j: int)
    requires
        0 <= j < ws.len(),
    ensures
        le_bytes(ws).len() == ws.len() * 4,
        spec_u32_from_le_bytes(le_bytes(ws).subrange(j * 4, j * 4 + 4)) == ws[j],
    decreases ws.len(),
{
    vstd::bytes::lemma_auto_spec_u32_to_from_le_bytes();
    lemma_le_len(ws);
    lemma_le_len(ws.drop_last());
    let head = le_bytes(ws.drop_last());
    let all = le_bytes(ws);
    if j == ws.len() - 1 {
        assert(all.subrange(j * 4, j * 4 + 4) =~= spec_u32_to_le_bytes(ws[j]));
    } else {
        lemma_le_word(ws.drop_last(), j);
        assert(all.subrange(j * 4, j * 4 + 4) =~= head.subrange(j * 4, j * 4 + 4));
    }
}

proof fn lemma_schema_word(ws: Seq<u32>, j: int)
    requires
        ws.len() == 62,
        0 <= j < 62,
    ensures
        byte_offset(schema(), schema_name(j)) == Some(j * 4),
        word_of(le_bytes(ws), schema(), schema_name(j)) == ws[j],
{
    lemma_find_schema(j, 0);
    lemma_le_word(ws, j);
}

/// A written record reads back as the splat it was written from.
pub proof fn law_record_reads_back(g: GaussianModel)
    requires
        g.wf(),
    ensures
        record_splat(le_bytes(g.words()), schema()) == g.stored(),
        first_missing(schema(), required_names(), 0) is None,
{
    let ws = g.words();
    let rec = le_bytes(ws);
    assert(ws.len() == 62);
    assert forall|j: int| 0 <= j < 62 implies #[trigger] byte_offset(schema(), schema_name(j))
        == Some(j * 4) && word_of(rec, schema(), schema_name(j)) == ws[j] by {
        lemma_schema_word(ws, j);
    }
    assert forall|j: int| 0 <= j < 62 implies byte_offset(schema(), #[trigger] schema_name(j))
        is Some by {}
    reveal_with_fuel(first_missing, 15);
    assert(schema_name(0) == "x"@ && schema_name(1) == "y"@ && schema_name(2) == "z"@);
    assert(schema_name(3) == "nx"@ && schema_name(4) == "ny"@ && schema_name(5) == "nz"@);
    assert(schema_name(6) == "f_dc_0"@ && schema_name(7) == "f_dc_1"@ && schema_name(8)
        == "f_dc_2"@);
    assert(schema_name(54) == "opacity"@ && schema_name(55) == "scale_0"@ && schema_name(56)
        == "scale_1"@ && schema_name(57) == "scale_2"@);
    assert(schema_name(58) == "rot_0"@ && schema_name(59) == "rot_1"@ && schema_name(60)
        == "rot_2"@ && schema_name(61) == "rot_3"@);
    let got = record_splat(rec, schema());
    let want = g.stored();
    assert(got.pos =~= want.pos);
    assert(got.normal =~= want.normal);
    assert(got.sh_dc =~= want.sh_dc);
    assert forall|i: int| 0 <= i < 45 implies got.sh_rest[i] == want.sh_rest[i] by {
        assert(schema_name(i + 9) == rest_name(i));
        assert(byte_offset(schema(), schema_name(i + 9)) is Some);
        assert(ws[i + 9] == g.rest45()[i]);
    }
    assert(got.sh_rest =~= want.sh_rest);
    assert(got.scale =~= want.scale);
    assert(got.rotation =~= want.rotation);
}

pub proof fn lemma_records_slice(gs: Seq<GaussianModel>, r: int, k: int)
    requires
        0 <= r < k <= gs.len(),
        forall|i: int| 0 <= i < gs.len() ==> (#[trigger] gs[i]).wf(),
    ensures
        records_bytes(gs, k).len() == k * 248,
        records_bytes(gs, k).subrange(r * 248, r * 248 + 248) == le_bytes(gs[r].words()),
    decreases k,
{
    lemma_records_len(gs, k);
    lemma_records_len(gs, k - 1);
    assert(gs[k - 1].wf());
    lemma_le_len(gs[k - 1].words());
    let head = records_bytes(gs, k - 1);
    let all = records_bytes(gs, k);
    if r == k - 1 {
        assert(all.subrange(r * 248, r * 248 + 248) =~= le_bytes(gs[r].words()));
    } else {
        lemma_records_slice(gs, r, k - 1);
        assert(all.subrange(r * 248, r * 248 + 248) =~= head.subrange(r * 248, r * 248 + 248));
    }
}

proof fn lemma_records_len(gs: Seq<GaussianModel>, k: int)
    requires
        0 <= k <= gs.len(),
        forall|i: int| 0 <= i < gs.len() ==> (#[trigger] gs[i]).wf(),
    ensures
        records_bytes(gs, k).len() == k * 248,
    decreases k,
{
    if k > 0 {
        lemma_records_len(gs, k - 1);
        assert(gs[k - 1].wf());
        lemma_le_len(gs[k - 1].words());
    }
}

/// Reading a written file gives back every splat, in order, with its higher
/// coefficients brought to the file's fixed count.
pub proof fn law_ply_roundtrip(gs: Seq<GaussianModel>)
    requires
        gs.len() <= usize::MAX,
        forall|i: int| 0 <= i < gs.len() ==> (#[trigger] gs[i]).wf(),
    ensures
        file_splats(file_bytes(gs)) == Ok::<Seq<GaussianModel>, PlyErrorModel>(
            gs.map_values(|g: GaussianModel| g.stored()),
        ),
{
    let n = gs.len();
    let tail = records_bytes(gs, n as int);
    let b = file_bytes(gs);
    let pos = header_bytes(n).len() as int;
    law_header_reads_back(n, tail);
    lemma_records_len(gs, n as int);
    let h = HeaderModel { binary_le: true, vertex_count: n as int, properties: schema() };
    let want = gs.map_values(|g: GaussianModel| g.stored());
    assert(schema().len() == 62);
    if n == 0 {
        assert(want =~= Seq::empty());
    } else {
        assert(gs[0].wf());
        law_record_reads_back(gs[0]);
        assert(records_of(b, pos, h) is Ok);
        let got = records_of(b, pos, h)->Ok_0;
        assert forall|r: int| 0 <= r < n implies got[r] == want[r] by {
            assert(gs[r].wf());
            law_record_reads_back(gs[r]);
            lemma_records_slice(gs, r, n as int);
            assert(b.subrange(pos + r * 248, pos + r * 248 + 248) =~= tail.subrange(
                r * 248,
                r * 248 + 248,
            ));
        }
        assert(got =~= want);
    }
}

/// What a record says of the schema's property `j`: its word, or nothing where
/// the property is not declared.
pub open spec fn known_word(record: Seq<u8>, props: Seq<Seq<char>>, j: int) -> Option<u32> {
    if byte_offset(props, schema_name(j)) is Some {
        Some(word_of(record, props, schema_name(j)))
    } else {
        None
    }
}

/// Two records that agree on every property of the schema hold the same splat
/// and lack the same property, in whatever order the properties are declared
/// and whatever others stand between them.
pub proof fn law_property_order_is_free(
    a: Seq<u8>,
    a_props: Seq<Seq<char>>,
    b: Seq<u8>,
    b_props: Seq<Seq<char>>,
)
    requires
        forall|j: int|
            0 <= j < 62 ==> #[trigger] known_word(a, a_props, j) == known_word(b, b_props, j),
    ensures
        first_missing(a_props, required_names(), 0) == first_missing(
            b_props,
            required_names(),
            0,
        ),
        first_missing(a_props, required_names(), 0) is None ==> record_splat(a, a_props)
            == record_splat(b, b_props),
{
    assert forall|j: int| 0 <= j < 62 implies (byte_offset(a_props, #[trigger] schema_name(j))
        is Some) == (byte_offset(b_props, schema_name(j)) is Some) && (byte_offset(
        a_props,
        schema_name(j),
    ) is Some ==> word_of(a, a_props, schema_name(j)) == word_of(b, b_props, schema_name(j))) by {
        assert(known_word(a, a_props, j) == known_word(b, b_props, j));
    }
    reveal_with_fuel(first_missing, 15);
    assert(schema_name(0) == "x"@ && schema_name(1) == "y"@ && schema_name(2) == "z"@);
    assert(schema_name(3) == "nx"@ && schema_name(4) == "ny"@ && schema_name(5) == "nz"@);
    assert(schema_name(6) == "f_dc_0"@ && schema_name(7) == "f_dc_1"@ && schema_name(8)
        == "f_dc_2"@);
    assert(schema_name(54) == "opacity"@ && schema_name(55) == "scale_0"@ && schema_name(56)
        == "scale_1"@ && schema_name(57) == "scale_2"@);
    assert(schema_name(58) == "rot_0"@ && schema_name(59) == "rot_1"@ && schema_name(60)
        == "rot_2"@ && schema_name(61) == "rot_3"@);
    if first_missing(a_props, required_names(), 0) is None {
        let got = record_splat(a, a_props);
        let want = record_splat(b, b_props);
        assert(got.pos =~= want.pos);
        assert(got.normal =~= want.normal);
        assert(got.sh_dc =~= want.sh_dc);
        assert forall|i: int| 0 <= i < 45 implies got.sh_rest[i] == want.sh_rest[i] by {
            assert(schema_name(i + 9) == rest_name(i));
        }
        assert(got.sh_rest =~= want.sh_rest);
        assert(got.scale =~= want.scale);
        assert(got.rotation =~= want.rotation);
    }
}

/// Record `r` behind a header.
pub open spec fn record_at(b: Seq<u8>, pos: int, h: HeaderModel, r: int) -> Seq<u8> {
    let size = h.properties.len() * 4;
    b.subrange(pos + r * size, pos + r * size + size)
}

/// Two files whose records agree on every property of the schema give the same
/// splats, or lack the same property: the order of declarations does not
/// matter, and unknown properties are skipped with the rest staying aligned.
pub proof fn law_files_read_alike(
    a: Seq<u8>,
    a_pos: int,
    a_header: HeaderModel,
    b: Seq<u8>,
    b_pos: int,
    b_header: HeaderModel,
)
    requires
        header_of(a) == Ok::<(HeaderModel, int), PlyErrorModel>((a_header, a_pos)),
        header_of(b) == Ok::<(HeaderModel, int), PlyErrorModel>((b_header, b_pos)),
        a_header.binary_le && b_header.binary_le,
        0 < a_header.vertex_count == b_header.vertex_count,
        a.len() - a_pos >= a_header.vertex_count * (a_header.properties.len() * 4),
        b.len() - b_pos >= b_header.vertex_count * (b_header.properties.len() * 4),
        forall|r: int, j: int|
            0 <= r < a_header.vertex_count && 0 <= j < 62 ==> #[trigger] known_word(
                record_at(a, a_pos, a_header, r),
                a_header.properties,
                j,
            ) == known_word(record_at(b, b_pos, b_header, r), b_header.properties, j),
    ensures
        file_splats(a) == file_splats(b),
{
    let n = a_header.vertex_count;
    assert forall|r: int| 0 <= r < n implies first_missing(
        a_header.properties,
        required_names(),
        0,
    ) == first_missing(b_header.properties, required_names(), 0) && (first_missing(
        a_header.properties,
        required_names(),
        0,
    ) is None ==> record_splat(#[trigger] record_at(a, a_pos, a_header, r), a_header.properties)
        == record_splat(record_at(b, b_pos, b_header, r), b_header.properties)) by {
        law_property_order_is_free(
            record_at(a, a_pos, a_header, r),
            a_header.properties,
            record_at(b, b_pos, b_header, r),
            b_header.properties,
        );
    }
    let a_size = a_header.properties.len() * 4;
    let b_size = b_header.properties.len() * 4;
    assert(a_size <= n * a_size) by (nonlinear_arith)
        requires
            n >= 1,
            a_size >= 0,
    ;
    assert(b_size <= n * b_size) by (nonlinear_arith)
        requires
            n >= 1,
            b_size >= 0,
    ;
    assert(first_missing(a_header.properties, required_names(), 0) == first_missing(
        b_header.properties,
        required_names(),
        0,
    )) by {
        law_property_order_is_free(
            record_at(a, a_pos, a_header, 0),
            a_header.properties,
            record_at(b, b_pos, b_header, 0),
            b_header.properties,
        );
    }
    if first_missing(a_header.properties, required_names(), 0) is None {
        let x = records_of(a, a_pos, a_header)->Ok_0;
        let y = records_of(b, b_pos, b_header)->Ok_0;
        assert forall|r: int| 0 <= r < n implies x[r] == y[r] by {
            assert(x[r] == record_splat(record_at(a, a_pos, a_header, r), a_header.properties));
        }
        assert(x =~= y);
    }
}

} // verus!
