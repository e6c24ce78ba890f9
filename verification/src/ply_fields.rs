//! What a PLY record says under each property's name.
use vstd::bytes::spec_u32_from_le_bytes;
use vstd::prelude::*;
use vstd::string::*;

#[allow(unused_imports)]
use crate::ply::{
    byte_offset, file_bytes, find_from, first_missing, header_bytes, le_bytes, models, record_splat,
    records_bytes, required_names, rest_name, schema, schema_name, word_of, word_or_zero,
    Gaussian, GaussianModel, PlyHeader,
};
#[allow(unused_imports)]
use crate::ply_laws::{law_schema_distinct, lemma_le_len, lemma_le_word, lemma_records_slice};
#[allow(unused_imports)]
use crate::text::decimal;

verus! {

proof fn lemma_find_first(props: Seq<Seq<char>>, p: int, i: int)
    requires
        0 <= i <= p < props.len(),
        forall|q: int| 0 <= q < p ==> #[trigger] props[q] != props[p],
    ensures
        find_from(props, props[p], i) == Some(p),
    decreases p - i,
{
    if i < p {
        assert(props[i] != props[p]);
        lemma_find_first(props, p, i + 1);
    }
}

/// A name is found exactly where it is declared.
proof fn lemma_found(props: Seq<Seq<char>>, name: Seq<char>, i: int)
    requires
        0 <= i <= props.len(),
    ensures
        find_from(props, name, i) is Some <==> exists|q: int|
            i <= q < props.len() && #[trigger] props[q] == name,
    decreases props.len() - i,
{
    if i < props.len() {
        lemma_found(props, name, i + 1);
        if props[i] != name && find_from(props, name, i + 1) is None {
            assert forall|q: int| i <= q < props.len() implies #[trigger] props[q] != name by {
                if q > i {
                    assert(!(i + 1 <= q < props.len() && props[q] == name));
                }
            }
        }
    }
}

proof fn lemma_declared(props: Seq<Seq<char>>, name: Seq<char>)
    ensures
        byte_offset(props, name) is Some <==> props.contains(name),
{
    lemma_found(props, name, 0);
    if props.contains(name) {
        let q = choose|q: int| 0 <= q < props.len() && props[q] == name;
        assert(props[q] == name);
    }
}

/// Each field of a splat is the word under its own name. Where the property at
/// position `p` is the first of its name, the field of that name is the
/// little-endian word in the four bytes that start at `4 * p`.
pub proof fn law_fields_by_name(record: Seq<u8>, props: Seq<Seq<char>>, p: int)
    requires
        0 <= p < props.len(),
        forall|q: int| 0 <= q < p ==> #[trigger] props[q] != props[p],
    ensures
        ({
            let w = spec_u32_from_le_bytes(record.subrange(4 * p, 4 * p + 4));
            let g = record_splat(record, props);
            let normal = props.contains("nx"@) && props.contains("ny"@) && props.contains("nz"@);
            &&& g.pos.len() == 3 && g.normal.len() == 3 && g.sh_dc.len() == 3
            &&& g.sh_rest.len() == 45 && g.scale.len() == 3 && g.rotation.len() == 4
            &&& props[p] == "x"@ ==> g.pos[0] == w
            &&& props[p] == "y"@ ==> g.pos[1] == w
            &&& props[p] == "z"@ ==> g.pos[2] == w
            &&& props[p] == "f_dc_0"@ ==> g.sh_dc[0] == w
            &&& props[p] == "f_dc_1"@ ==> g.sh_dc[1] == w
            &&& props[p] == "f_dc_2"@ ==> g.sh_dc[2] == w
            &&& props[p] == "scale_0"@ ==> g.scale[0] == w
            &&& props[p] == "scale_1"@ ==> g.scale[1] == w
            &&& props[p] == "scale_2"@ ==> g.scale[2] == w
            &&& props[p] == "rot_0"@ ==> g.rotation[0] == w
            &&& props[p] == "rot_1"@ ==> g.rotation[1] == w
            &&& props[p] == "rot_2"@ ==> g.rotation[2] == w
            &&& props[p] == "rot_3"@ ==> g.rotation[3] == w
            &&& props[p] == "opacity"@ ==> g.opacity == w
            &&& props[p] == "nx"@ && normal ==> g.normal[0] == w
            &&& props[p] == "ny"@ && normal ==> g.normal[1] == w
            &&& props[p] == "nz"@ && normal ==> g.normal[2] == w
            &&& forall|i: int|
                0 <= i < 45 && props[p] == "f_rest_"@ + #[trigger] decimal(i as nat)
                    ==> g.sh_rest[i] == w
        }),
{
    let w = spec_u32_from_le_bytes(record.subrange(4 * p, 4 * p + 4));
    let g = record_splat(record, props);
    lemma_find_first(props, p, 0);
    lemma_declared(props, "nx"@);
    lemma_declared(props, "ny"@);
    lemma_declared(props, "nz"@);
    assert(byte_offset(props, props[p]) == Some(4 * p));
    assert(word_of(record, props, props[p]) == w);
    assert forall|i: int|
        0 <= i < 45 && props[p] == "f_rest_"@ + #[trigger] decimal(i as nat) implies g.sh_rest[i]
        == w by {
        assert(rest_name(i) == props[p]);
        assert(word_or_zero(record, props, rest_name(i)) == w);
    }
}

/// A field whose property is not declared is filled in: a higher coefficient
/// with zero, and the normal, unless all of it is declared, with the unit
/// vector along Y.
pub proof fn law_undeclared_fields(record: Seq<u8>, props: Seq<Seq<char>>)
    ensures
        forall|i: int|
            0 <= i < 45 && !props.contains("f_rest_"@ + #[trigger] decimal(i as nat))
                ==> record_splat(record, props).sh_rest[i] == 0,
        !props.contains("nx"@) || !props.contains("ny"@) || !props.contains("nz"@)
            ==> record_splat(record, props).normal == seq![0u32, 0x3f80_0000u32, 0u32],
{
    lemma_declared(props, "nx"@);
    lemma_declared(props, "ny"@);
    lemma_declared(props, "nz"@);
    assert forall|i: int|
        0 <= i < 45 && !props.contains("f_rest_"@ + #[trigger] decimal(i as nat)) implies record_splat(
        record,
        props,
    ).sh_rest[i] == 0 by {
        assert(rest_name(i) == "f_rest_"@ + decimal(i as nat));
        lemma_declared(props, rest_name(i));
    }
}

proof fn lemma_first_missing(props: Seq<Seq<char>>, names: Seq<Seq<char>>, i: int)
    requires
        0 <= i <= names.len(),
    ensures
        match first_missing(props, names, i) {
            None => forall|k: int| i <= k < names.len() ==> props.contains(#[trigger] names[k]),
            Some(name) => exists|k: int|
                i <= k < names.len() && #[trigger] names[k] == name && !props.contains(name) && (
                forall|m: int| i <= m < k ==> props.contains(#[trigger] names[m])),
        },
    decreases names.len() - i,
{
    if i < names.len() {
        lemma_declared(props, names[i]);
        lemma_first_missing(props, names, i + 1);
        if byte_offset(props, names[i]) is Some {
            if let Some(name) = first_missing(props, names, i + 1) {
                let k = choose|k: int|
                    i + 1 <= k < names.len() && #[trigger] names[k] == name && !props.contains(name)
                        && (forall|m: int| i + 1 <= m < k ==> props.contains(#[trigger] names[m]));
                assert forall|m: int| i <= m < k implies props.contains(#[trigger] names[m]) by {}
                assert(names[k] == name);
            }
        } else {
            assert(names[i] == first_missing(props, names, i)->0);
        }
    }
}

/// A record is read exactly where all of its fourteen required properties are
/// declared; otherwise the first of them that is not is what is missing.
pub proof fn law_required_properties(props: Seq<Seq<char>>)
    ensures
        first_missing(props, required_names(), 0) is None <==> (
            props.contains("x"@) && props.contains("y"@) && props.contains("z"@) && props.contains("f_dc_0"@)
            && props.contains("f_dc_1"@) && props.contains("f_dc_2"@) && props.contains("opacity"@)
            && props.contains("scale_0"@) && props.contains("scale_1"@) && props.contains("scale_2"@)
            && props.contains("rot_0"@) && props.contains("rot_1"@) && props.contains("rot_2"@) && props.contains("rot_3"@)),
        required_names().len() == 14,
        required_names()[0] == "x"@,
        required_names()[1] == "y"@,
        required_names()[2] == "z"@,
        required_names()[3] == "f_dc_0"@,
        required_names()[4] == "f_dc_1"@,
        required_names()[5] == "f_dc_2"@,
        required_names()[6] == "opacity"@,
        required_names()[7] == "scale_0"@,
        required_names()[8] == "scale_1"@,
        required_names()[9] == "scale_2"@,
        required_names()[10] == "rot_0"@,
        required_names()[11] == "rot_1"@,
        required_names()[12] == "rot_2"@,
        required_names()[13] == "rot_3"@,
        first_missing(props, required_names(), 0) matches Some(name) ==> !props.contains(name),
        forall|k: int|
            0 <= k < 14 && !props.contains(#[trigger] required_names()[k]) && (forall|m: int|
                0 <= m < k ==> props.contains(#[trigger] required_names()[m]))
                ==> first_missing(props, required_names(), 0) == Some(required_names()[k]),
{
    let names = required_names();
    lemma_first_missing(props, names, 0);
    assert(names[0] == "x"@);
    assert(names[1] == "y"@);
    assert(names[2] == "z"@);
    assert(names[3] == "f_dc_0"@);
    assert(names[4] == "f_dc_1"@);
    assert(names[5] == "f_dc_2"@);
    assert(names[6] == "opacity"@);
    assert(names[7] == "scale_0"@);
    assert(names[8] == "scale_1"@);
    assert(names[9] == "scale_2"@);
    assert(names[10] == "rot_0"@);
    assert(names[11] == "rot_1"@);
    assert(names[12] == "rot_2"@);
    assert(names[13] == "rot_3"@);
    assert forall|k: int|
        0 <= k < 14 && !props.contains(#[trigger] names[k]) && (forall|m: int|
            0 <= m < k ==> props.contains(#[trigger] names[m])) implies first_missing(
        props,
        names,
        0,
    ) == Some(names[k]) by {
        let name = first_missing(props, names, 0)->0;
        let j = choose|j: int|
            0 <= j < names.len() && #[trigger] names[j] == name && !props.contains(name) && (forall|
                m: int,
            |
                0 <= m < j ==> props.contains(#[trigger] names[m]));
        assert(names[j] == name);
        if j < k {
            assert(props.contains(names[j]));
        } else if k < j {
            assert(props.contains(names[k]));
        }
    }
}

/// The schema's names stand in a fixed order: position, normal, constant
/// coefficients, the 45 higher ones, opacity, scale and rotation.
pub proof fn law_schema_order()
    ensures
        schema().len() == 62,
        schema()[0] == "x"@,
        schema()[1] == "y"@,
        schema()[2] == "z"@,
        schema()[3] == "nx"@,
        schema()[4] == "ny"@,
        schema()[5] == "nz"@,
        schema()[6] == "f_dc_0"@,
        schema()[7] == "f_dc_1"@,
        schema()[8] == "f_dc_2"@,
        schema()[54] == "opacity"@,
        schema()[55] == "scale_0"@,
        schema()[56] == "scale_1"@,
        schema()[57] == "scale_2"@,
        schema()[58] == "rot_0"@,
        schema()[59] == "rot_1"@,
        schema()[60] == "rot_2"@,
        schema()[61] == "rot_3"@,
        forall|i: int| 0 <= i < 45 ==> #[trigger] schema()[9 + i] == "f_rest_"@ + decimal(i as nat),
{
    assert forall|i: int| 0 <= i < 45 implies #[trigger] schema()[9 + i] == "f_rest_"@ + decimal(
        i as nat,
    ) by {
        assert(schema()[9 + i] == schema_name(9 + i));
        assert(schema_name(9 + i) == rest_name(i));
    }
}

proof fn lemma_at_its_place(p: int, q: int)
    requires
        0 <= p < 62,
        0 <= q < 62,
        schema()[p] == schema()[q],
    ensures
        p == q,
{
    if p < q {
        law_schema_distinct(p, q);
    } else if q < p {
        law_schema_distinct(q, p);
    }
}

/// In a written record the word under each name is the field of that name:
/// where the schema has a name at position `p`, the four bytes that start at
/// `4 * p` are that field, least significant byte first. Higher coefficients
/// that the splat does not have are written as zero.
pub proof fn law_written_fields_by_name(g: GaussianModel, p: int)
    requires
        g.wf(),
        0 <= p < 62,
    ensures
        ({
            let record = le_bytes(g.words());
            let w = spec_u32_from_le_bytes(record.subrange(4 * p, 4 * p + 4));
            &&& record.len() == 248
            &&& schema()[p] == "x"@ ==> w == g.pos[0]
            &&& schema()[p] == "y"@ ==> w == g.pos[1]
            &&& schema()[p] == "z"@ ==> w == g.pos[2]
            &&& schema()[p] == "f_dc_0"@ ==> w == g.sh_dc[0]
            &&& schema()[p] == "f_dc_1"@ ==> w == g.sh_dc[1]
            &&& schema()[p] == "f_dc_2"@ ==> w == g.sh_dc[2]
            &&& schema()[p] == "scale_0"@ ==> w == g.scale[0]
            &&& schema()[p] == "scale_1"@ ==> w == g.scale[1]
            &&& schema()[p] == "scale_2"@ ==> w == g.scale[2]
            &&& schema()[p] == "rot_0"@ ==> w == g.rotation[0]
            &&& schema()[p] == "rot_1"@ ==> w == g.rotation[1]
            &&& schema()[p] == "rot_2"@ ==> w == g.rotation[2]
            &&& schema()[p] == "rot_3"@ ==> w == g.rotation[3]
            &&& schema()[p] == "opacity"@ ==> w == g.opacity
            &&& schema()[p] == "nx"@ ==> w == g.normal[0]
            &&& schema()[p] == "ny"@ ==> w == g.normal[1]
            &&& schema()[p] == "nz"@ ==> w == g.normal[2]
            &&& forall|i: int|
                0 <= i < 45 && schema()[p] == "f_rest_"@ + #[trigger] decimal(i as nat) ==> w
                    == if i < g.sh_rest.len() {
                    g.sh_rest[i]
                } else {
                    0
                }
        }),
{
    let ws = g.words();
    let w = spec_u32_from_le_bytes(le_bytes(ws).subrange(4 * p, 4 * p + 4));
    assert(ws.len() == 62);
    lemma_le_len(ws);
    lemma_le_word(ws, p);
    assert(w == ws[p]);
    law_schema_order();
    if schema()[p] == "x"@ {
        lemma_at_its_place(p, 0);
    }
    if schema()[p] == "y"@ {
        lemma_at_its_place(p, 1);
    }
    if schema()[p] == "z"@ {
        lemma_at_its_place(p, 2);
    }
    if schema()[p] == "nx"@ {
        lemma_at_its_place(p, 3);
    }
    if schema()[p] == "ny"@ {
        lemma_at_its_place(p, 4);
    }
    if schema()[p] == "nz"@ {
        lemma_at_its_place(p, 5);
    }
    if schema()[p] == "f_dc_0"@ {
        lemma_at_its_place(p, 6);
    }
    if schema()[p] == "f_dc_1"@ {
        lemma_at_its_place(p, 7);
    }
    if schema()[p] == "f_dc_2"@ {
        lemma_at_its_place(p, 8);
    }
    if schema()[p] == "opacity"@ {
        lemma_at_its_place(p, 54);
    }
    if schema()[p] == "scale_0"@ {
        lemma_at_its_place(p, 55);
    }
    if schema()[p] == "scale_1"@ {
        lemma_at_its_place(p, 56);
    }
    if schema()[p] == "scale_2"@ {
        lemma_at_its_place(p, 57);
    }
    if schema()[p] == "rot_0"@ {
        lemma_at_its_place(p, 58);
    }
    if schema()[p] == "rot_1"@ {
        lemma_at_its_place(p, 59);
    }
    if schema()[p] == "rot_2"@ {
        lemma_at_its_place(p, 60);
    }
    if schema()[p] == "rot_3"@ {
        lemma_at_its_place(p, 61);
    }
    assert forall|i: int|
        0 <= i < 45 && schema()[p] == "f_rest_"@ + #[trigger] decimal(i as nat) implies w == if i
        < g.sh_rest.len() {
        g.sh_rest[i]
    } else {
        0
    } by {
        assert(schema()[9 + i] == "f_rest_"@ + decimal(i as nat));
        lemma_at_its_place(p, 9 + i);
        assert(ws[9 + i] == g.rest45()[i]);
    }
}

/// A written file is its header and then the records of its splats in order,
/// 248 bytes each, and nothing more.
pub proof fn law_file_is_its_records(gs: Seq<GaussianModel>, r: int)
    requires
        forall|i: int| 0 <= i < gs.len() ==> (#[trigger] gs[i]).wf(),
        0 <= r < gs.len(),
    ensures
        ({
            let start = header_bytes(gs.len()).len() as int;
            &&& file_bytes(gs).len() == start + 248 * gs.len()
            &&& file_bytes(gs).take(start) == header_bytes(gs.len())
            &&& file_bytes(gs).subrange(start + 248 * r, start + 248 * r + 248) == le_bytes(
                gs[r].words(),
            )
        }),
{
    let start = header_bytes(gs.len()).len() as int;
    let tail = records_bytes(gs, gs.len() as int);
    lemma_records_slice(gs, r, gs.len() as int);
    assert(file_bytes(gs).take(start) =~= header_bytes(gs.len()));
    assert(file_bytes(gs).subrange(start + 248 * r, start + 248 * r + 248) =~= tail.subrange(
        r * 248,
        r * 248 + 248,
    ));
}

/// What a splat is taken to hold is what its fields hold, component by
/// component.
pub proof fn law_model_is_the_fields(g: Gaussian)
    ensures
        g@.wf(),
        g@.pos[0] == g.pos.x && g@.pos[1] == g.pos.y && g@.pos[2] == g.pos.z,
        g@.normal[0] == g.normal.x && g@.normal[1] == g.normal.y && g@.normal[2] == g.normal.z,
        g@.sh_dc[0] == g.sh_dc[0] && g@.sh_dc[1] == g.sh_dc[1] && g@.sh_dc[2] == g.sh_dc[2],
        g@.sh_rest == g.sh_rest@,
        g@.opacity == g.opacity,
        g@.scale[0] == g.scale[0] && g@.scale[1] == g.scale[1] && g@.scale[2] == g.scale[2],
        g@.rotation[0] == g.rotation[0] && g@.rotation[1] == g.rotation[1] && g@.rotation[2]
            == g.rotation[2] && g@.rotation[3] == g.rotation[3],
{
}

/// What a header is taken to declare is what its fields hold, name by name.
pub proof fn law_header_model_is_the_fields(h: PlyHeader)
    ensures
        h@.binary_le == h.binary_le,
        h@.vertex_count == h.vertex_count,
        h@.properties.len() == h.properties.len(),
        forall|i: int| 0 <= i < h.properties.len() ==> #[trigger] h@.properties[i]
            == h.properties@[i]@,
{
}

/// A property stands four bytes behind each one declared before the first of
/// its name; a name that is not declared stands nowhere.
pub proof fn law_offsets(props: Seq<Seq<char>>, name: Seq<char>, p: int)
    requires
        0 <= p < props.len(),
    ensures
        props[p] == name && (forall|q: int| 0 <= q < p ==> #[trigger] props[q] != name)
            ==> byte_offset(props, name) == Some(4 * p),
        !props.contains(name) ==> byte_offset(props, name) is None,
{
    lemma_declared(props, name);
    if props[p] == name && (forall|q: int| 0 <= q < p ==> #[trigger] props[q] != name) {
        lemma_find_first(props, p, 0);
    }
}

/// What comes back from a file has exactly 45 higher coefficients, the splat's
/// own as far as it has them and zeros behind; all else is unchanged.
pub proof fn law_stored(g: GaussianModel, i: int)
    requires
        0 <= i < 45,
    ensures
        g.stored().sh_rest.len() == 45,
        i < g.sh_rest.len() ==> g.stored().sh_rest[i] == g.sh_rest[i],
        i >= g.sh_rest.len() ==> g.stored().sh_rest[i] == 0,
        g.stored().pos == g.pos,
        g.stored().normal == g.normal,
        g.stored().sh_dc == g.sh_dc,
        g.stored().opacity == g.opacity,
        g.stored().scale == g.scale,
        g.stored().rotation == g.rotation,
{
}

/// Splats are written and read in the order in which they stand.
pub proof fn law_models_in_order(gs: Seq<Gaussian>, i: int)
    requires
        0 <= i < gs.len(),
    ensures
        models(gs).len() == gs.len(),
        models(gs)[i] == gs[i]@,
{
}

} // verus!
