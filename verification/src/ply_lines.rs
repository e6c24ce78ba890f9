//! What a PLY header owes to its lines: blank lines, comments, line endings
//! and the order of properties do not matter.
use vstd::prelude::*;
use vstd::string::*;
#[allow(unused_imports)]
use vstd::utf8::{decode_utf8, encode_utf8, valid_utf8};

#[allow(unused_imports)]
use crate::ply::{
    file_splats, find_from, header_from, header_line, header_of, lemma_line_end, line_end,
    no_declarations, rest_after, schema, schema_name, HeaderModel, LineOutcome, PlyErrorModel,
};
#[allow(unused_imports)]
use crate::ply_laws::{
    known_word, law_files_read_alike, lemma_end_line, lemma_line_end_at, record_at,
};
#[allow(unused_imports)]
use crate::text::{count_value, digit_value, digits_value, is_white, trim};

verus! {

/// What a line says, without the white space around it.
pub open spec fn line_text(line: Seq<u8>) -> Seq<char> {
    trim(decode_utf8(line))
}

/// What each line says.
pub open spec fn line_texts(lines: Seq<Seq<u8>>) -> Seq<Seq<char>> {
    lines.map_values(|line: Seq<u8>| line_text(line))
}

/// The bytes hold no newline from `lo` up to `hi`.
pub open spec fn no_newline(line: Seq<u8>, lo: int, hi: int) -> bool {
    forall|i: int| lo <= i < hi ==> #[trigger] line[i] != 10
}

/// The bytes are one line with its newline.
pub open spec fn ends_line(line: Seq<u8>) -> bool {
    &&& line.len() > 0
    &&& line[line.len() - 1] == 10
    &&& no_newline(line, 0, line.len() - 1)
}

/// Lines one behind the other.
pub open spec fn joined(lines: Seq<Seq<u8>>) -> Seq<u8>
    decreases lines.len(),
{
    if lines.len() == 0 {
        Seq::empty()
    } else {
        lines[0] + joined(lines.drop_first())
    }
}

/// The lines are text and run up to `end_header`, before `tail`. Each has its
/// newline; the last may do without where nothing follows.
pub open spec fn run_to_end(lines: Seq<Seq<u8>>, tail: Seq<u8>) -> bool {
    let last = lines.len() - 1;
    &&& lines.len() > 0
    &&& forall|i: int| 0 <= i <= last ==> valid_utf8(#[trigger] lines[i])
    &&& forall|i: int| 0 <= i < last ==> ends_line(#[trigger] lines[i])
    &&& forall|i: int| 0 <= i < last ==> line_text(#[trigger] lines[i]) != "end_header"@
    &&& line_text(lines[last]) == "end_header"@
    &&& ends_line(lines[last]) || (tail.len() == 0 && lines[last].len() > 0 && no_newline(
        lines[last],
        0,
        lines[last].len() as int,
    ))
}

/// The lines are those of a header before `tail`: `ply` first and `end_header`
/// last.
pub open spec fn is_header(lines: Seq<Seq<u8>>, tail: Seq<u8>) -> bool {
    &&& run_to_end(lines, tail)
    &&& lines.len() > 1
    &&& line_text(lines[0]) == "ply"@
}

/// Reads what header lines say on top of the declarations `h`.
pub open spec fn read_texts(texts: Seq<Seq<char>>, h: HeaderModel) -> Result<
    HeaderModel,
    PlyErrorModel,
>
    decreases texts.len(),
{
    if texts.len() == 0 {
        Err(PlyErrorModel::UnterminatedHeader)
    } else {
        match header_line(h, texts[0]) {
            LineOutcome::Continue(next) => read_texts(texts.drop_first(), next),
            LineOutcome::End => Ok(h),
            LineOutcome::Fail(err) => Err(err),
        }
    }
}

/// What the header of a file with these lines is.
pub open spec fn lines_header(lines: Seq<Seq<u8>>) -> Result<HeaderModel, PlyErrorModel> {
    read_texts(line_texts(lines.drop_first()), no_declarations())
}

/// The line at `pos` is `line`, where the bytes from `pos` on start with it.
proof fn lemma_first_line(b: Seq<u8>, pos: int, line: Seq<u8>, rest: Seq<u8>)
    requires
        0 <= pos <= b.len(),
        b.skip(pos) == line + rest,
        line.len() > 0,
        ends_line(line) || (rest.len() == 0 && no_newline(line, 0, line.len() as int)),
    ensures
        line_end(b, pos) == pos + line.len(),
        b.subrange(pos, pos + line.len()) == line,
        b.skip(pos + line.len() as int) == rest,
{
    let n = line.len() as int;
    assert(b.skip(pos).len() == n + rest.len());
    assert forall|i: int| 0 <= i < n implies b[pos + i] == #[trigger] line[i] by {
        assert(b.skip(pos)[i] == b[pos + i]);
        assert((line + rest)[i] == line[i]);
    }
    assert(b.subrange(pos, pos + n) =~= line);
    assert forall|i: int| 0 <= i < rest.len() implies b[pos + n + i] == #[trigger] rest[i] by {
        assert(b.skip(pos)[n + i] == b[pos + n + i]);
        assert((line + rest)[n + i] == rest[i]);
    }
    assert(b.skip(pos + n) =~= rest);
    if ends_line(line) {
        assert(b[pos + (n - 1)] == line[n - 1]);
        assert forall|i: int| pos <= i < pos + (n - 1) implies b[i] != 10 by {
            assert(b[pos + (i - pos)] == line[i - pos]);
        }
        lemma_line_end_at(b, pos, n - 1);
    } else {
        assert forall|i: int| pos <= i < b.len() implies b[i] != 10 by {
            assert(b[pos + (i - pos)] == line[i - pos]);
        }
        lemma_last_line_end(b, pos);
    }
}

proof fn lemma_last_line_end(b: Seq<u8>, pos: int)
    requires
        0 <= pos <= b.len(),
        forall|i: int| pos <= i < b.len() ==> b[i] != 10,
    ensures
        line_end(b, pos) == b.len(),
    decreases b.len() - pos,
{
    if pos < b.len() {
        lemma_last_line_end(b, pos + 1);
    }
}

/// Lines that run up to `end_header` are read one by one.
proof fn lemma_lines_read(
    b: Seq<u8>,
    pos: int,
    lines: Seq<Seq<u8>>,
    tail: Seq<u8>,
    h: HeaderModel,
)
    requires
        0 <= pos <= b.len(),
        b.skip(pos) == joined(lines) + tail,
        run_to_end(lines, tail),
    ensures
        match read_texts(line_texts(lines), h) {
            Ok(got) => header_from(b, pos, h) == Ok::<(HeaderModel, int), PlyErrorModel>(
                (got, pos + joined(lines).len()),
            ),
            Err(e) => header_from(b, pos, h) == Err::<(HeaderModel, int), PlyErrorModel>(e),
        },
    decreases lines.len(),
{
    let line = lines[0];
    let rest = lines.drop_first();
    let n = line.len() as int;
    if lines.len() == 1 {
        assert(joined(rest) =~= Seq::<u8>::empty());
    } else {
        assert(ends_line(line));
    }
    assert(valid_utf8(line));
    assert(b.skip(pos) =~= line + (joined(rest) + tail));
    lemma_first_line(b, pos, line, joined(rest) + tail);
    assert(line_texts(lines)[0] == line_text(line));
    assert(line_texts(lines).drop_first() =~= line_texts(rest));
    lemma_end_line(h);
    if lines.len() > 1 {
        assert(line_text(line) != "end_header"@);
        match header_line(h, line_text(line)) {
            LineOutcome::Continue(next) => {
                assert(run_to_end(rest, tail)) by {
                    assert forall|i: int| 0 <= i < rest.len() implies #[trigger] rest[i] == lines[i
                        + 1] by {}
                }
                lemma_lines_read(b, pos + n, rest, tail, next);
            },
            _ => {},
        }
    }
}

/// Only its lines make a header, in their order: what they say is read line by
/// line, whatever follows them, and the records start behind the last.
pub proof fn law_header_is_its_lines(lines: Seq<Seq<u8>>, tail: Seq<u8>)
    requires
        is_header(lines, tail),
    ensures
        match lines_header(lines) {
            Ok(h) => header_of(joined(lines) + tail) == Ok::<(HeaderModel, int), PlyErrorModel>(
                (h, joined(lines).len() as int),
            ),
            Err(e) => header_of(joined(lines) + tail) == Err::<(HeaderModel, int), PlyErrorModel>(
                e,
            ),
        },
{
    let b = joined(lines) + tail;
    let line = lines[0];
    let rest = lines.drop_first();
    assert(ends_line(line));
    assert(valid_utf8(line));
    assert(b.skip(0) =~= line + (joined(rest) + tail));
    lemma_first_line(b, 0, line, joined(rest) + tail);
    assert(run_to_end(rest, tail)) by {
        assert forall|i: int| 0 <= i < rest.len() implies #[trigger] rest[i] == lines[i + 1] by {}
    }
    lemma_lines_read(b, line.len() as int, rest, tail, no_declarations());
}

/// The lines of `b` from `pos` on, up to `end_header`.
pub open spec fn header_lines(b: Seq<u8>, pos: int) -> Seq<Seq<u8>>
    decreases b.len() - pos,
    when 0 <= pos <= b.len()
    via header_lines_decreases
{
    let e = line_end(b, pos);
    let line = b.subrange(pos, e);
    if pos >= b.len() {
        Seq::empty()
    } else if line_text(line) == "end_header"@ {
        seq![line]
    } else {
        seq![line] + header_lines(b, e)
    }
}

#[via_fn]
proof fn header_lines_decreases(b: Seq<u8>, pos: int) {
    lemma_line_end(b, pos);
}

/// A line is what lies between two newlines.
proof fn lemma_line_is_cut(b: Seq<u8>, pos: int)
    requires
        0 <= pos < b.len(),
    ensures
        ({
            let e = line_end(b, pos);
            let line = b.subrange(pos, e);
            ends_line(line) || (e == b.len() && no_newline(line, 0, line.len() as int))
        }),
    decreases b.len() - pos,
{
    let e = line_end(b, pos);
    lemma_line_end(b, pos);
    if b[pos] != 10 {
        if pos + 1 < b.len() {
            lemma_line_is_cut(b, pos + 1);
            let short = b.subrange(pos + 1, e);
            let line = b.subrange(pos, e);
            lemma_line_end(b, pos + 1);
            assert forall|i: int| 1 <= i < line.len() implies #[trigger] line[i] == short[i - 1] by {}
            assert(line[0] == b[pos]);
            if ends_line(short) {
                assert(line[line.len() - 1] == short[short.len() - 1]);
                assert(no_newline(line, 0, line.len() - 1));
            }
        }
    }
}

/// A line before lines that run up to `end_header`.
proof fn lemma_line_before(line: Seq<u8>, rest: Seq<Seq<u8>>, tail: Seq<u8>)
    requires
        valid_utf8(line),
        ends_line(line),
        line_text(line) != "end_header"@,
        run_to_end(rest, tail),
    ensures
        run_to_end(seq![line] + rest, tail),
        (seq![line] + rest).drop_first() == rest,
        joined(seq![line] + rest) == line + joined(rest),
{
    let lines = seq![line] + rest;
    assert(lines.drop_first() =~= rest);
    assert forall|i: int| 1 <= i < lines.len() implies #[trigger] lines[i] == rest[i - 1] by {}
    assert(lines[0] == line);
}

proof fn lemma_lines_of(b: Seq<u8>, pos: int, h: HeaderModel)
    requires
        0 <= pos <= b.len(),
        header_from(b, pos, h) is Ok,
    ensures
        ({
            let e = header_from(b, pos, h)->Ok_0.1;
            let lines = header_lines(b, pos);
            &&& pos < e <= b.len()
            &&& run_to_end(lines, b.skip(e))
            &&& joined(lines) == b.subrange(pos, e)
        }),
    decreases b.len() - pos,
{
    let next = line_end(b, pos);
    let line = b.subrange(pos, next);
    let lines = header_lines(b, pos);
    let e = header_from(b, pos, h)->Ok_0.1;
    lemma_line_end(b, pos);
    lemma_line_is_cut(b, pos);
    lemma_end_line(h);
    if line_text(line) == "end_header"@ {
        assert(lines =~= seq![line]);
        assert(lines.drop_first() =~= Seq::<Seq<u8>>::empty());
        assert(joined(lines.drop_first()) =~= Seq::<u8>::empty());
        assert(lines[0] == line);
        assert(joined(lines) =~= line);
    } else {
        match header_line(h, line_text(line)) {
            LineOutcome::Continue(more) => {
                lemma_lines_of(b, next, more);
                lemma_line_before(line, header_lines(b, next), b.skip(e));
                assert(joined(lines) =~= b.subrange(pos, e));
            },
            _ => {},
        }
    }
}

/// Every file with a header is its header's lines and what follows them.
pub proof fn law_header_splits_into_lines(b: Seq<u8>)
    requires
        header_of(b) is Ok,
    ensures
        ({
            let e = header_of(b)->Ok_0.1;
            let lines = header_lines(b, 0);
            &&& 0 <= e <= b.len()
            &&& is_header(lines, b.skip(e))
            &&& joined(lines) == b.take(e)
            &&& b == joined(lines) + b.skip(e)
        }),
{
    reveal_strlit("ply");
    reveal_strlit("end_header");
    let first = line_end(b, 0);
    let line = b.subrange(0, first);
    let e = header_of(b)->Ok_0.1;
    let lines = header_lines(b, 0);
    lemma_line_end(b, 0);
    assert(b.len() > 0) by {
        if b.len() == 0 {
            assert(line =~= Seq::<u8>::empty());
            assert(decode_utf8(line) =~= Seq::<char>::empty());
        }
    }
    lemma_line_is_cut(b, 0);
    lemma_lines_of(b, first, no_declarations());
    let rest = header_lines(b, first);
    assert("ply"@.len() != "end_header"@.len());
    lemma_line_before(line, rest, b.skip(e));
    assert(joined(lines) =~= b.take(e));
    assert(b =~= joined(lines) + b.skip(e));
}

/// A line that says nothing: blank, or a comment.
pub open spec fn is_idle(text: Seq<char>) -> bool {
    text.len() == 0 || "comment "@.is_prefix_of(text)
}

/// A line that declares a float property.
pub open spec fn is_property(text: Seq<char>) -> bool {
    "property float "@.is_prefix_of(text)
}

/// The lines that say something.
pub open spec fn telling(texts: Seq<Seq<char>>) -> Seq<Seq<char>>
    decreases texts.len(),
{
    if texts.len() == 0 {
        Seq::empty()
    } else if is_idle(texts[0]) {
        telling(texts.drop_first())
    } else {
        seq![texts[0]] + telling(texts.drop_first())
    }
}

/// The lines that say something other than that there is a float property.
pub open spec fn settings(texts: Seq<Seq<char>>) -> Seq<Seq<char>>
    decreases texts.len(),
{
    if texts.len() == 0 {
        Seq::empty()
    } else if is_idle(texts[0]) || is_property(texts[0]) {
        settings(texts.drop_first())
    } else {
        seq![texts[0]] + settings(texts.drop_first())
    }
}

/// The names of the float properties that lines declare, in order.
pub open spec fn property_names(texts: Seq<Seq<char>>) -> Seq<Seq<char>>
    decreases texts.len(),
{
    if texts.len() == 0 {
        Seq::empty()
    } else if is_property(texts[0]) {
        seq![trim(rest_after(texts[0], "property float "@.len()))] + property_names(
            texts.drop_first(),
        )
    } else {
        property_names(texts.drop_first())
    }
}

/// A property line is no other line, and only it touches the properties.
proof fn lemma_line_kinds(h: HeaderModel, t: Seq<char>)
    ensures
        is_idle(t) ==> !is_property(t) && header_line(h, t) == LineOutcome::Continue(h),
        is_property(t) ==> !is_idle(t) && header_line(h, t) == LineOutcome::Continue(
            HeaderModel {
                properties: h.properties.push(trim(rest_after(t, "property float "@.len()))),
                ..h
            },
        ),
        !is_property(t) ==> (header_line(h, t) matches LineOutcome::Continue(next)
            ==> next.properties == h.properties),
{
    reveal_strlit("comment ");
    reveal_strlit("end_header");
    reveal_strlit("format ");
    reveal_strlit("element vertex ");
    reveal_strlit("property float ");
    assert("comment "@[0] == 'c');
    assert("end_header"@[0] == 'e');
    assert("format "@[0] == 'f');
    assert("element vertex "@[0] == 'e');
    assert("property float "@[0] == 'p');
    if "comment "@.is_prefix_of(t) {
        assert(t.subrange(0, 8)[0] == 'c');
    }
    if "format "@.is_prefix_of(t) {
        assert(t.subrange(0, 7)[0] == 'f');
    }
    if "element vertex "@.is_prefix_of(t) {
        assert(t.subrange(0, 15)[0] == 'e');
    }
    if is_property(t) {
        assert(t.subrange(0, 15)[0] == 'p');
    }
}

/// Two headers agree on everything but the properties.
pub open spec fn same_settings(a: HeaderModel, b: HeaderModel) -> bool {
    a.binary_le == b.binary_le && a.vertex_count == b.vertex_count
}

/// What a line that declares no property does to the settings rests on the
/// settings alone.
proof fn lemma_setting_line(a: HeaderModel, b: HeaderModel, t: Seq<char>)
    requires
        same_settings(a, b),
        !is_property(t),
    ensures
        match (header_line(a, t), header_line(b, t)) {
            (LineOutcome::Continue(x), LineOutcome::Continue(y)) => same_settings(x, y),
            (LineOutcome::End, LineOutcome::End) => true,
            (LineOutcome::Fail(x), LineOutcome::Fail(y)) => x == y,
            _ => false,
        },
{
}

/// Only the last line is `end_header`.
spec fn ends_once(texts: Seq<Seq<char>>) -> bool {
    forall|i: int| 0 <= i < texts.len() - 1 ==> #[trigger] texts[i] != "end_header"@
}

proof fn lemma_ends_once(texts: Seq<Seq<char>>)
    requires
        ends_once(texts),
        texts.len() > 0,
    ensures
        ends_once(texts.drop_first()),
{
    let rest = texts.drop_first();
    assert forall|i: int| 0 <= i < rest.len() - 1 implies #[trigger] rest[i] != "end_header"@ by {
        assert(rest[i] == texts[i + 1]);
    }
}

/// `header_line` ends a header at `end_header` and nowhere else.
proof fn lemma_only_end_ends(h: HeaderModel, t: Seq<char>)
    ensures
        header_line(h, t) is End <==> t == "end_header"@,
{
    lemma_end_line(h);
}

proof fn lemma_end_is_setting()
    ensures
        !is_idle("end_header"@),
        !is_property("end_header"@),
{
    lemma_end_line(no_declarations());
    lemma_line_kinds(no_declarations(), "end_header"@);
}

/// Reading lines collects the properties in order.
proof fn lemma_names_read(texts: Seq<Seq<char>>, h: HeaderModel)
    requires
        ends_once(texts),
        read_texts(texts, h) is Ok,
    ensures
        read_texts(texts, h)->Ok_0.properties == h.properties + property_names(texts),
    decreases texts.len(),
{
    let t = texts[0];
    let rest = texts.drop_first();
    lemma_line_kinds(h, t);
    lemma_only_end_ends(h, t);
    lemma_ends_once(texts);
    let got = read_texts(texts, h)->Ok_0;
    match header_line(h, t) {
        LineOutcome::Continue(next) => {
            lemma_names_read(rest, next);
            if is_property(t) {
                assert(got.properties =~= h.properties + property_names(texts));
            }
        },
        _ => {
            lemma_end_is_setting();
            assert(texts.len() == 1) by {
                if texts.len() > 1 {
                    assert(texts[0] != "end_header"@);
                }
            }
            assert(property_names(rest) =~= Seq::<Seq<char>>::empty());
            assert(got.properties =~= h.properties + property_names(texts));
        },
    }
}

/// Lines with the same settings are read to the same settings.
proof fn lemma_settings_read(
    a: Seq<Seq<char>>,
    x: HeaderModel,
    b: Seq<Seq<char>>,
    y: HeaderModel,
)
    requires
        same_settings(x, y),
        settings(a) == settings(b),
        read_texts(a, x) is Ok,
    ensures
        read_texts(b, y) is Ok,
        same_settings(read_texts(a, x)->Ok_0, read_texts(b, y)->Ok_0),
    decreases a.len() + b.len(),
{
    lemma_line_kinds(x, a[0]);
    lemma_only_end_ends(x, a[0]);
    if is_idle(a[0]) || is_property(a[0]) {
        let next = header_line(x, a[0])->Continue_0;
        lemma_settings_read(a.drop_first(), next, b, y);
    } else {
        assert(settings(a)[0] == a[0]);
        assert(settings(a).drop_first() =~= settings(a.drop_first()));
        assert(b.len() > 0);
        lemma_line_kinds(y, b[0]);
        if is_idle(b[0]) || is_property(b[0]) {
            let next = header_line(y, b[0])->Continue_0;
            lemma_settings_read(a, x, b.drop_first(), next);
        } else {
            assert(settings(b)[0] == b[0]);
            assert(settings(b).drop_first() =~= settings(b.drop_first()));
            lemma_setting_line(x, y, a[0]);
            match header_line(x, a[0]) {
                LineOutcome::Continue(next) => {
                    let other = header_line(y, b[0])->Continue_0;
                    lemma_settings_read(a.drop_first(), next, b.drop_first(), other);
                },
                _ => {},
            }
        }
    }
}

/// The settings and the properties are among the telling lines.
proof fn lemma_telling_decides(a: Seq<Seq<char>>, b: Seq<Seq<char>>)
    requires
        telling(a) == telling(b),
    ensures
        settings(a) == settings(b),
        property_names(a) == property_names(b),
{
    lemma_of_telling(a);
    lemma_of_telling(b);
}

proof fn lemma_of_telling(a: Seq<Seq<char>>)
    ensures
        settings(a) == settings(telling(a)),
        property_names(a) == property_names(telling(a)),
    decreases a.len(),
{
    if a.len() > 0 {
        let rest = a.drop_first();
        lemma_of_telling(rest);
        lemma_line_kinds(no_declarations(), a[0]);
        if !is_idle(a[0]) {
            let t = telling(a);
            assert(t[0] == a[0]);
            assert(t.drop_first() =~= telling(rest));
        }
    }
}

proof fn lemma_header_texts(lines: Seq<Seq<u8>>, tail: Seq<u8>)
    requires
        is_header(lines, tail),
    ensures
        ends_once(line_texts(lines.drop_first())),
        line_texts(lines)[0] == "ply"@,
        line_texts(lines).drop_first() == line_texts(lines.drop_first()),
        telling(line_texts(lines)) == seq!["ply"@] + telling(line_texts(lines.drop_first())),
        settings(line_texts(lines)) == seq!["ply"@] + settings(line_texts(lines.drop_first())),
        property_names(line_texts(lines)) == property_names(line_texts(lines.drop_first())),
{
    reveal_strlit("ply");
    reveal_strlit("comment ");
    reveal_strlit("property float ");
    let rest = lines.drop_first();
    let texts = line_texts(rest);
    assert(line_texts(lines).drop_first() =~= texts);
    assert forall|i: int| 0 <= i < texts.len() - 1 implies #[trigger] texts[i] != "end_header"@ by {
        assert(rest[i] == lines[i + 1]);
        assert(line_text(lines[i + 1]) != "end_header"@);
    }
}

/// Where two headers differ only in their blank lines and comments and in the
/// white space around their lines, both declare the same.
pub proof fn law_comments_and_blanks_are_free(
    a: Seq<Seq<u8>>,
    a_tail: Seq<u8>,
    b: Seq<Seq<u8>>,
    b_tail: Seq<u8>,
)
    requires
        is_header(a, a_tail),
        is_header(b, b_tail),
        telling(line_texts(a)) == telling(line_texts(b)),
        header_of(joined(a) + a_tail) is Ok,
    ensures
        header_of(joined(b) + b_tail) == Ok::<(HeaderModel, int), PlyErrorModel>(
            (header_of(joined(a) + a_tail)->Ok_0.0, joined(b).len() as int),
        ),
{
    lemma_telling_decides(line_texts(a), line_texts(b));
    law_property_lines_are_free(a, a_tail, b, b_tail);
}

proof fn lemma_idle_inserted(texts: Seq<Seq<char>>, i: int, t: Seq<char>)
    requires
        0 <= i <= texts.len(),
        is_idle(t),
    ensures
        telling(texts.insert(i, t)) == telling(texts),
    decreases i,
{
    let more = texts.insert(i, t);
    if i == 0 {
        assert(more.drop_first() =~= texts);
    } else {
        assert(more.drop_first() =~= texts.drop_first().insert(i - 1, t));
        lemma_idle_inserted(texts.drop_first(), i - 1, t);
    }
}

/// A blank line or a comment may stand anywhere between the first line of a
/// header and its last; the header declares the same, and the records start
/// that much later.
pub proof fn law_idle_line_changes_nothing(
    lines: Seq<Seq<u8>>,
    tail: Seq<u8>,
    i: int,
    line: Seq<u8>,
)
    requires
        is_header(lines, tail),
        0 < i < lines.len(),
        valid_utf8(line),
        ends_line(line),
        is_idle(line_text(line)),
        header_of(joined(lines) + tail) is Ok,
    ensures
        is_header(lines.insert(i, line), tail),
        header_of(joined(lines.insert(i, line)) + tail) == Ok::<(HeaderModel, int), PlyErrorModel>(
            (
                header_of(joined(lines) + tail)->Ok_0.0,
                joined(lines.insert(i, line)).len() as int,
            ),
        ),
{
    let more = lines.insert(i, line);
    let last = lines.len() - 1;
    lemma_end_is_setting();
    assert forall|k: int| 0 <= k < more.len() implies #[trigger] more[k] == if k < i {
        lines[k]
    } else if k == i {
        line
    } else {
        lines[k - 1]
    } by {}
    assert(more[last + 1] == lines[last]);
    assert(is_header(more, tail));
    assert(line_texts(more) =~= line_texts(lines).insert(i, line_text(line)));
    lemma_idle_inserted(line_texts(lines), i, line_text(line));
    law_comments_and_blanks_are_free(lines, tail, more, tail);
}

/// Where two headers differ only in their property lines, blank lines and
/// comments, and in the white space around their lines, both declare the same
/// format and count, and each the properties that its lines name, in order.
pub proof fn law_property_lines_are_free(
    a: Seq<Seq<u8>>,
    a_tail: Seq<u8>,
    b: Seq<Seq<u8>>,
    b_tail: Seq<u8>,
)
    requires
        is_header(a, a_tail),
        is_header(b, b_tail),
        settings(line_texts(a)) == settings(line_texts(b)),
        header_of(joined(a) + a_tail) is Ok,
    ensures
        header_of(joined(a) + a_tail)->Ok_0.0.properties == property_names(line_texts(a)),
        header_of(joined(a) + a_tail)->Ok_0.1 == joined(a).len(),
        header_of(joined(b) + b_tail) == Ok::<(HeaderModel, int), PlyErrorModel>(
            (
                HeaderModel {
                    properties: property_names(line_texts(b)),
                    ..header_of(joined(a) + a_tail)->Ok_0.0
                },
                joined(b).len() as int,
            ),
        ),
{
    let x = line_texts(a.drop_first());
    let y = line_texts(b.drop_first());
    lemma_header_texts(a, a_tail);
    lemma_header_texts(b, b_tail);
    law_header_is_its_lines(a, a_tail);
    law_header_is_its_lines(b, b_tail);
    assert(settings(line_texts(a)).drop_first() =~= settings(x));
    assert(settings(line_texts(b)).drop_first() =~= settings(y));
    lemma_settings_read(x, no_declarations(), y, no_declarations());
    lemma_names_read(x, no_declarations());
    lemma_names_read(y, no_declarations());
    assert(no_declarations().properties + property_names(x) =~= property_names(x));
    assert(no_declarations().properties + property_names(y) =~= property_names(y));
}

/// A line with a carriage return before its newline.
pub open spec fn with_crlf(line: Seq<u8>) -> Seq<u8> {
    if line.len() > 0 && line[line.len() - 1] == 10 {
        line.take(line.len() - 1) + seq![13u8, 10u8]
    } else {
        line
    }
}

/// Lines with a carriage return before every newline.
pub open spec fn all_with_crlf(lines: Seq<Seq<u8>>) -> Seq<Seq<u8>> {
    lines.map_values(|line: Seq<u8>| with_crlf(line))
}

/// White space at the end is trimmed off.
proof fn lemma_trim_white_end(s: Seq<char>, c: char)
    requires
        is_white(c),
    ensures
        trim(s.push(c)) == trim(s),
    decreases s.len(),
{
    let t = s.push(c);
    if s.len() == 0 {
        assert(t.subrange(1, 1) =~= s);
        reveal_with_fuel(trim, 2);
    } else if is_white(s[0]) {
        let rest = s.subrange(1, s.len() as int);
        assert(t.subrange(1, t.len() as int) =~= rest.push(c));
        lemma_trim_white_end(rest, c);
    } else {
        assert(t.subrange(0, t.len() - 1) =~= s);
    }
}

/// A line says the same with either ending.
proof fn lemma_crlf_line(line: Seq<u8>)
    requires
        valid_utf8(line),
        ends_line(line),
    ensures
        valid_utf8(with_crlf(line)),
        ends_line(with_crlf(line)),
        line_text(with_crlf(line)) == line_text(line),
{
    let n = line.len() - 1;
    let body = line.take(n);
    let lf = seq!['\n'];
    let crlf = seq!['\r', '\n'];
    let long = with_crlf(line);
    assert(vstd::utf8::is_ascii_chars(lf));
    assert(vstd::utf8::is_ascii_chars(crlf));
    vstd::utf8::is_ascii_chars_encode_utf8(lf);
    vstd::utf8::is_ascii_chars_encode_utf8(crlf);
    assert(lf[0] as u8 == encode_utf8(lf)[0]);
    assert(crlf[0] as u8 == encode_utf8(crlf)[0]);
    assert(crlf[1] as u8 == encode_utf8(crlf)[1]);
    assert(encode_utf8(lf) =~= seq![10u8]);
    assert(encode_utf8(crlf) =~= seq![13u8, 10u8]);
    vstd::utf8::encode_utf8_valid_utf8(crlf);
    vstd::utf8::encode_utf8_decode_utf8(lf);
    vstd::utf8::encode_utf8_decode_utf8(crlf);
    vstd::utf8::is_char_boundary_iff_not_is_continuation_byte(line, n);
    vstd::utf8::valid_utf8_split(line, n);
    vstd::utf8::decode_utf8_split(line, n);
    assert(line.subrange(0, n) =~= body);
    assert(line.subrange(n, line.len() as int) =~= seq![10u8]);
    vstd::utf8::valid_utf8_concat(body, seq![13u8, 10u8]);
    vstd::utf8::is_char_boundary_iff_not_is_continuation_byte(long, n);
    vstd::utf8::decode_utf8_split(long, n);
    assert(long.subrange(0, n) =~= body);
    assert(long.subrange(n, long.len() as int) =~= seq![13u8, 10u8]);
    let text = decode_utf8(body);
    assert(decode_utf8(line) =~= text.push('\n'));
    assert(decode_utf8(long) =~= text.push('\r').push('\n'));
    lemma_trim_white_end(text, '\n');
    lemma_trim_white_end(text.push('\r'), '\n');
    lemma_trim_white_end(text, '\r');
    assert forall|i: int| 0 <= i < long.len() - 1 implies #[trigger] long[i] != 10 by {
        if i < n {
            assert(long[i] == line[i]);
        }
    }
}

/// A header declares the same with carriage returns before its newlines.
pub proof fn law_line_endings_are_free(lines: Seq<Seq<u8>>, tail: Seq<u8>)
    requires
        is_header(lines, tail),
        header_of(joined(lines) + tail) is Ok,
    ensures
        is_header(all_with_crlf(lines), tail),
        header_of(joined(all_with_crlf(lines)) + tail) == Ok::<(HeaderModel, int), PlyErrorModel>(
            (
                header_of(joined(lines) + tail)->Ok_0.0,
                joined(all_with_crlf(lines)).len() as int,
            ),
        ),
{
    let longer = all_with_crlf(lines);
    let last = lines.len() - 1;
    assert forall|i: int| 0 <= i < lines.len() implies valid_utf8(#[trigger] longer[i])
        && line_text(longer[i]) == line_text(lines[i]) && (ends_line(lines[i]) ==> ends_line(
        longer[i],
    )) && (!ends_line(lines[i]) ==> longer[i] == lines[i]) by {
        assert(valid_utf8(lines[i]));
        if ends_line(lines[i]) {
            lemma_crlf_line(lines[i]);
        } else {
            assert(i == last);
            assert(no_newline(lines[i], 0, lines[i].len() as int));
            assert(lines[i][lines[i].len() - 1] != 10);
        }
    }
    assert forall|i: int| 0 <= i < last implies ends_line(#[trigger] longer[i]) by {
        assert(ends_line(lines[i]));
    }
    assert forall|i: int| 0 <= i < last implies line_text(#[trigger] longer[i]) != "end_header"@ by {
        assert(line_text(lines[i]) != "end_header"@);
    }
    assert(line_texts(longer) =~= line_texts(lines));
    law_comments_and_blanks_are_free(lines, tail, longer, tail);
}

proof fn lemma_digits_not_negative(s: Seq<char>, i: int, acc: int)
    requires
        acc >= 0,
        digits_value(s, i, acc) is Ok,
    ensures
        digits_value(s, i, acc)->Ok_0 >= 0,
    decreases s.len() - i,
{
    if i < s.len() {
        let d = digit_value(s[i])->0;
        lemma_digits_not_negative(s, i + 1, acc * 10 + d);
    }
}

/// No header declares fewer than no splats.
proof fn lemma_count_not_negative(texts: Seq<Seq<char>>, h: HeaderModel)
    requires
        h.vertex_count >= 0,
        read_texts(texts, h) is Ok,
    ensures
        read_texts(texts, h)->Ok_0.vertex_count >= 0,
    decreases texts.len(),
{
    match header_line(h, texts[0]) {
        LineOutcome::Continue(next) => {
            let digits = trim(rest_after(texts[0], "element vertex "@.len()));
            if count_value(digits) is Ok {
                if digits[0] == '+' {
                    lemma_digits_not_negative(digits, 1, 0);
                } else {
                    lemma_digits_not_negative(digits, 0, 0);
                }
            }
            lemma_count_not_negative(texts.drop_first(), next);
        },
        _ => {},
    }
}

/// Column `k` of record `r` in records of `columns` words.
pub open spec fn column(tail: Seq<u8>, columns: int, r: int, k: int) -> Seq<u8> {
    tail.subrange((r * columns + k) * 4, (r * columns + k) * 4 + 4)
}

/// Every property of `a` stands in `b` at `place`, and what else `b` declares
/// is not in the schema.
pub open spec fn rearranged(a: Seq<Seq<char>>, b: Seq<Seq<char>>, place: Seq<int>) -> bool {
    &&& place.len() == a.len()
    &&& forall|j: int| 0 <= j < a.len() ==> 0 <= #[trigger] place[j] < b.len() && b[place[j]] == a[j]
    &&& forall|k: int|
        0 <= k < b.len() ==> place.contains(k) || !schema().contains(#[trigger] b[k])
}

proof fn lemma_find_only(props: Seq<Seq<char>>, name: Seq<char>, k: int, i: int)
    requires
        0 <= i <= k < props.len(),
        props[k] == name,
        forall|m: int| 0 <= m < props.len() && m != k ==> #[trigger] props[m] != name,
    ensures
        find_from(props, name, i) == Some(k),
    decreases k - i,
{
    if i < k {
        assert(props[i] != name);
        lemma_find_only(props, name, k, i + 1);
    }
}

proof fn lemma_find_none(props: Seq<Seq<char>>, name: Seq<char>, i: int)
    requires
        0 <= i,
        forall|m: int| 0 <= m < props.len() ==> #[trigger] props[m] != name,
    ensures
        find_from(props, name, i) is None,
    decreases props.len() - i,
{
    if i < props.len() {
        assert(props[i] != name);
        lemma_find_none(props, name, i + 1);
    }
}

/// A name of the schema is found in both arrangements, at its place, or in
/// neither.
proof fn lemma_rearranged_find(
    a: Seq<Seq<char>>,
    b: Seq<Seq<char>>,
    place: Seq<int>,
    name: Seq<char>,
)
    requires
        a.no_duplicates(),
        rearranged(a, b, place),
        schema().contains(name),
    ensures
        match find_from(a, name, 0) {
            Some(j) => 0 <= j < a.len() && find_from(b, name, 0) == Some(place[j]),
            None => find_from(b, name, 0) is None,
        },
{
    if a.contains(name) {
        let j = choose|j: int| 0 <= j < a.len() && a[j] == name;
        lemma_find_only(a, name, j, 0);
        let k = place[j];
        assert forall|m: int| 0 <= m < b.len() && m != k implies #[trigger] b[m] != name by {
            if b[m] == name {
                assert(place.contains(m));
                let i = choose|i: int| 0 <= i < place.len() && place[i] == m;
                assert(b[place[i]] == a[i]);
            }
        }
        lemma_find_only(b, name, k, 0);
    } else {
        assert forall|m: int| 0 <= m < a.len() implies #[trigger] a[m] != name by {
            assert(a.contains(a[m]));
        }
        lemma_find_none(a, name, 0);
        assert forall|m: int| 0 <= m < b.len() implies #[trigger] b[m] != name by {
            if b[m] == name {
                assert(place.contains(m));
                let i = choose|i: int| 0 <= i < place.len() && place[i] == m;
                assert(b[place[i]] == a[i]);
            }
        }
        lemma_find_none(b, name, 0);
    }
}

/// A word of a record is the word in its column of the records.
proof fn lemma_record_column(b: Seq<u8>, pos: int, h: HeaderModel, r: int, k: int)
    requires
        0 <= pos <= b.len(),
        0 <= r < h.vertex_count,
        0 <= k < h.properties.len(),
        b.len() - pos >= h.vertex_count * (h.properties.len() * 4),
    ensures
        record_at(b, pos, h, r).subrange(k * 4, k * 4 + 4) == column(
            b.skip(pos),
            h.properties.len() as int,
            r,
            k,
        ),
{
    let c = h.properties.len() as int;
    let n = h.vertex_count;
    let tail = b.skip(pos);
    assert((r * c + k) * 4 == r * (c * 4) + k * 4) by (nonlinear_arith);
    assert(r * (c * 4) + c * 4 <= n * (c * 4)) by (nonlinear_arith)
        requires
            r + 1 <= n,
            c >= 0,
    ;
    assert(0 <= r * (c * 4)) by (nonlinear_arith)
        requires
            0 <= r,
            0 <= c,
    ;
    let rec = record_at(b, pos, h, r);
    let at = r * (c * 4);
    assert(rec.len() == c * 4);
    assert forall|i: int| 0 <= i < 4 implies rec.subrange(k * 4, k * 4 + 4)[i] == column(
        tail,
        c,
        r,
        k,
    )[i] by {
        assert(rec[k * 4 + i] == b[pos + at + (k * 4 + i)]);
        assert(tail[at + k * 4 + i] == b[pos + (at + k * 4 + i)]);
    }
    assert(rec.subrange(k * 4, k * 4 + 4) =~= column(tail, c, r, k));
}

/// Moving the property lines of a file, with the columns of its records moved
/// alike, changes nothing, and neither do properties outside the schema with
/// columns of their own: the splats are the same and stay aligned.
pub proof fn law_properties_may_move(
    a: Seq<Seq<u8>>,
    a_tail: Seq<u8>,
    b: Seq<Seq<u8>>,
    b_tail: Seq<u8>,
    place: Seq<int>,
)
    requires
        is_header(a, a_tail),
        is_header(b, b_tail),
        settings(line_texts(a)) == settings(line_texts(b)),
        property_names(line_texts(a)).no_duplicates(),
        rearranged(property_names(line_texts(a)), property_names(line_texts(b)), place),
        file_splats(joined(a) + a_tail) is Ok,
        ({
            let n = header_of(joined(a) + a_tail)->Ok_0.0.vertex_count;
            let from = property_names(line_texts(a)).len() as int;
            let to = property_names(line_texts(b)).len() as int;
            &&& b_tail.len() >= n * (to * 4)
            &&& forall|r: int, j: int|
                0 <= r < n && 0 <= j < from ==> #[trigger] column(a_tail, from, r, j) == column(
                    b_tail,
                    to,
                    r,
                    place[j],
                )
        }),
    ensures
        file_splats(joined(b) + b_tail) == file_splats(joined(a) + a_tail),
{
    law_property_lines_are_free(a, a_tail, b, b_tail);
    let x = joined(a) + a_tail;
    let y = joined(b) + b_tail;
    let (h, p) = header_of(x)->Ok_0;
    let (g, q) = header_of(y)->Ok_0;
    let n = h.vertex_count;
    law_header_is_its_lines(a, a_tail);
    lemma_count_not_negative(line_texts(a.drop_first()), no_declarations());
    assert(x.skip(p) =~= a_tail);
    assert(y.skip(q) =~= b_tail);
    if n > 0 {
        assert(x.len() - p >= n * (h.properties.len() * 4));
        assert forall|r: int, j: int| 0 <= r < n && 0 <= j < 62 implies #[trigger] known_word(
            record_at(x, p, h, r),
            h.properties,
            j,
        ) == known_word(record_at(y, q, g, r), g.properties, j) by {
            let name = schema_name(j);
            assert(schema()[j] == name);
            lemma_rearranged_find(h.properties, g.properties, place, name);
            match find_from(h.properties, name, 0) {
                Some(k) => {
                    lemma_record_column(x, p, h, r, k);
                    lemma_record_column(y, q, g, r, place[k]);
                    assert(column(a_tail, h.properties.len() as int, r, k) == column(
                        b_tail,
                        g.properties.len() as int,
                        r,
                        place[k],
                    ));
                },
                None => {},
            }
        }
        law_files_read_alike(x, p, h, y, q, g);
    }
}

} // verus!
