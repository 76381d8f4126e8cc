//! What each field of a light, object or material read from a scene file
//! holds: the value of the paragraph's attribute of the same name, the last
//! one when the key is given twice, or the field's default when the key is
//! absent.
use vstd::prelude::*;
use crate::scene::{Triple, ColourValue, MaterialDesc, Coefficients, ObjectDesc, LightDesc};
use crate::text::words;
use crate::scene_file::{
    read_paragraph, read_attributes, read_value,
    AttrModel, ParaModel, ValueModel, find_attribute, into_light, into_object, into_material,
    SpecError, req_vector, req_float, req_word, req_colour, opt_float, opt_colour, req_material,
};

verus! {

/// `k` is the last attribute with the given key.
pub open spec fn last_with_key(attrs: Seq<AttrModel>, key: Seq<char>, k: int) -> bool {
    &&& 0 <= k < attrs.len()
    &&& attrs[k].key == key
    &&& forall|l: int| k < l < attrs.len() ==> (#[trigger] attrs[l]).key != key
}

/// No attribute has the given key.
pub open spec fn not_given(attrs: Seq<AttrModel>, key: Seq<char>) -> bool {
    forall|l: int| 0 <= l < attrs.len() ==> (#[trigger] attrs[l]).key != key
}

/// A vector written as three numbers, or as one number for all three.
pub open spec fn vector_value(v: ValueModel, t: Triple<Seq<char>>) -> bool {
    match v {
        ValueModel::Vector(u) => u == t,
        ValueModel::Number(f) => t == (Triple { x: f, y: f, z: f }),
        _ => false,
    }
}

/// A colour written as three numbers, one grey level, `White` or `Black`.
pub open spec fn colour_value(v: ValueModel, c: ColourValue<Seq<char>>) -> bool {
    match v {
        ValueModel::Vector(u) => c == ColourValue::Rgb(u),
        ValueModel::Number(f) => c == ColourValue::Rgb(Triple { x: f, y: f, z: f }),
        ValueModel::Word(w) => (w == "White"@ && c == ColourValue::<Seq<char>>::White) || (w
            == "Black"@ && c == ColourValue::<Seq<char>>::Black),
        ValueModel::Sub(_) => false,
    }
}

pub open spec fn vector_field(p: ParaModel, key: Seq<char>, t: Triple<Seq<char>>) -> bool {
    exists|k: int| last_with_key(p.attributes, key, k) && vector_value(p.attributes[k].value, t)
}

pub open spec fn float_field(p: ParaModel, key: Seq<char>, f: Seq<char>) -> bool {
    exists|k: int|
        last_with_key(p.attributes, key, k) && p.attributes[k].value == ValueModel::Number(f)
}

/// A number field, or `default` when the paragraph does not give the key.
pub open spec fn float_field_or(p: ParaModel, key: Seq<char>, default: Seq<char>, f: Seq<char>) -> bool {
    float_field(p, key, f) || (not_given(p.attributes, key) && f == default)
}

pub open spec fn word_field(p: ParaModel, key: Seq<char>, w: Seq<char>) -> bool {
    exists|k: int|
        last_with_key(p.attributes, key, k) && p.attributes[k].value == ValueModel::Word(w)
}

pub open spec fn colour_field(p: ParaModel, key: Seq<char>, c: ColourValue<Seq<char>>) -> bool {
    exists|k: int| last_with_key(p.attributes, key, k) && colour_value(p.attributes[k].value, c)
}

/// A colour field, white (the grey level `1.0`) when the key is absent.
pub open spec fn colour_field_or_white(p: ParaModel, key: Seq<char>, c: ColourValue<Seq<char>>) -> bool {
    colour_field(p, key, c) || (not_given(p.attributes, key) && c == ColourValue::Rgb(
        Triple { x: "1.0"@, y: "1.0"@, z: "1.0"@ },
    ))
}

/// A material field: the material that the attribute's sub-paragraph describes.
pub open spec fn material_field(p: ParaModel, key: Seq<char>, m: MaterialDesc<Seq<char>>) -> bool {
    exists|k: int|
        last_with_key(p.attributes, key, k) && (p.attributes[k].value matches ValueModel::Sub(q)
            && into_material(q) == Ok::<MaterialDesc<Seq<char>>, SpecError>(m))
}

proof fn lemma_find_attribute(attrs: Seq<AttrModel>, key: Seq<char>)
    ensures
        find_attribute(attrs, key) matches Some(a) ==> exists|k: int|
            last_with_key(attrs, key, k) && attrs[k] == a,
        find_attribute(attrs, key) is None ==> not_given(attrs, key),
    decreases attrs.len(),
{
    if attrs.len() > 0 {
        let n = attrs.len() - 1;
        if attrs.last().key == key {
            assert(last_with_key(attrs, key, n));
        } else {
            let init = attrs.drop_last();
            lemma_find_attribute(init, key);
            if let Some(a) = find_attribute(init, key) {
                let k = choose|k: int| last_with_key(init, key, k) && init[k] == a;
                assert(attrs[k] == init[k]);
                assert forall|l: int| k < l < attrs.len() implies (#[trigger] attrs[l]).key != key by {
                    if l < n {
                        assert(attrs[l] == init[l]);
                    }
                }
                assert(last_with_key(attrs, key, k));
            } else {
                assert forall|l: int| 0 <= l < attrs.len() implies (#[trigger] attrs[l]).key != key by {
                    if l < n {
                        assert(attrs[l] == init[l]);
                    }
                }
            }
        }
    }
}

proof fn lemma_fields(p: ParaModel, key: Seq<char>, default: Seq<char>)
    ensures
        req_vector(p, key) matches Ok(t) ==> vector_field(p, key, t),
        req_float(p, key) matches Ok(f) ==> float_field(p, key, f),
        req_word(p, key) matches Ok(w) ==> word_field(p, key, w),
        req_colour(p, key) matches Ok(c) ==> colour_field(p, key, c),
        opt_float(p, key, default) matches Ok(f) ==> float_field_or(
            p,
            key,
            default,
            f,
        ),
        opt_colour(p, key) matches Ok(c) ==> colour_field_or_white(p, key, c),
        req_material(p, key) matches Ok(m) ==> material_field(p, key, m),
{
    lemma_find_attribute(p.attributes, key);
    if let Some(a) = find_attribute(p.attributes, key) {
        let k = choose|k: int| last_with_key(p.attributes, key, k) && p.attributes[k] == a;
        assert(last_with_key(p.attributes, key, k) && p.attributes[k] == a);
    }
}

/// Each field of a light is the attribute of the same name, and the light's
/// kind is the paragraph's class: a directional light's `direction`, a point
/// light's `position`, a directional point light's `position` and
/// `direction`, as vectors; `colour` as a colour, white when absent.
pub proof fn law_light_fields(p: ParaModel)
    ensures
        into_light(p) matches Ok(LightDesc::Directional { direction, colour }) ==> {
            &&& p.class == "Directional"@
            &&& vector_field(p, "direction"@, direction)
            &&& colour_field_or_white(p, "colour"@, colour)
        },
        into_light(p) matches Ok(LightDesc::Point { position, colour }) ==> {
            &&& p.class == "Point"@
            &&& vector_field(p, "position"@, position)
            &&& colour_field_or_white(p, "colour"@, colour)
        },
        into_light(p) matches Ok(LightDesc::DirPoint { position, direction, colour }) ==> {
            &&& p.class == "DirPoint"@
            &&& vector_field(p, "position"@, position)
            &&& vector_field(p, "direction"@, direction)
            &&& colour_field_or_white(p, "colour"@, colour)
        },
{
    lemma_fields(p, "direction"@, "1.0"@);
    lemma_fields(p, "position"@, "1.0"@);
    lemma_fields(p, "colour"@, "1.0"@);
}

/// Each field of a material is the attribute of the same name, and the
/// material's kind is the paragraph's class; an absent `ambient` of a
/// monochrome material is `0.1`.
pub proof fn law_material_fields(p: ParaModel)
    ensures
        into_material(p) matches Ok(MaterialDesc::Simple { colour, reflectiveness }) ==> {
            &&& p.class == "Simple"@
            &&& colour_field(p, "colour"@, colour)
            &&& float_field(p, "reflectiveness"@, reflectiveness)
        },
        into_material(p) matches Ok(MaterialDesc::Transparent { colour, transparency, ior }) ==> {
            &&& p.class == "Transparent"@
            &&& colour_field(p, "colour"@, colour)
            &&& float_field(p, "transparency"@, transparency)
            &&& float_field(p, "ior"@, ior)
        },
        into_material(p) matches Ok(MaterialDesc::Global { reflect, refract, ior }) ==> {
            &&& p.class == "Global"@
            &&& float_field(p, "reflect"@, reflect)
            &&& float_field(p, "refract"@, refract)
            &&& float_field(p, "ior"@, ior)
        },
        into_material(p) matches Ok(MaterialDesc::Monochrome { colour, ambient, shininess }) ==> {
            &&& p.class == "Monochrome"@
            &&& colour_field(p, "colour"@, colour)
            &&& float_field_or(p, "ambient"@, "0.1"@, ambient)
            &&& float_field(p, "shininess"@, shininess)
        },
        into_material(p) matches Ok(MaterialDesc::Texture { name, scale, ambient, shininess }) ==> {
            &&& p.class == "Texture"@
            &&& word_field(p, "name"@, name)
            &&& float_field(p, "scale"@, scale)
            &&& float_field(p, "ambient"@, ambient)
            &&& float_field(p, "shininess"@, shininess)
        },
        into_material(p) matches Ok(MaterialDesc::FalseColour) ==> p.class == "FalseColour"@,
{
    lemma_fields(p, "colour"@, "0.1"@);
    lemma_fields(p, "reflectiveness"@, "0.1"@);
    lemma_fields(p, "transparency"@, "0.1"@);
    lemma_fields(p, "ior"@, "0.1"@);
    lemma_fields(p, "reflect"@, "0.1"@);
    lemma_fields(p, "refract"@, "0.1"@);
    lemma_fields(p, "ambient"@, "0.1"@);
    lemma_fields(p, "shininess"@, "0.1"@);
    lemma_fields(p, "name"@, "0.1"@);
    lemma_fields(p, "scale"@, "0.1"@);
}

/// Each quadratic coefficient is the attribute named by its letter, `0.0`
/// when absent.
pub open spec fn coefficient_fields(p: ParaModel, c: Coefficients<Seq<char>>) -> bool {
    let z = "0.0"@;
    &&& float_field_or(p, "a"@, z, c.a)
    &&& float_field_or(p, "b"@, z, c.b)
    &&& float_field_or(p, "c"@, z, c.c)
    &&& float_field_or(p, "d"@, z, c.d)
    &&& float_field_or(p, "e"@, z, c.e)
    &&& float_field_or(p, "f"@, z, c.f)
    &&& float_field_or(p, "g"@, z, c.g)
    &&& float_field_or(p, "h"@, z, c.h)
    &&& float_field_or(p, "i"@, z, c.i)
    &&& float_field_or(p, "j"@, z, c.j)
}

/// Each field of an object is the attribute of the same name, and the
/// object's kind is the paragraph's class.
pub proof fn law_object_fields(p: ParaModel)
    ensures
        into_object(p) matches Ok(ObjectDesc::Plane { point, up, normal, material }) ==> {
            &&& p.class == "Plane"@
            &&& vector_field(p, "point"@, point)
            &&& vector_field(p, "up"@, up)
            &&& vector_field(p, "normal"@, normal)
            &&& material_field(p, "material"@, material)
        },
        into_object(p) matches Ok(ObjectDesc::Sphere { centre, radius, material }) ==> {
            &&& p.class == "Sphere"@
            &&& vector_field(p, "centre"@, centre)
            &&& float_field(p, "radius"@, radius)
            &&& material_field(p, "material"@, material)
        },
        into_object(p) matches Ok(ObjectDesc::Cuboid { corner, size, material }) ==> {
            &&& p.class == "Cuboid"@
            &&& vector_field(p, "corner"@, corner)
            &&& vector_field(p, "size"@, size)
            &&& material_field(p, "material"@, material)
        },
        into_object(p) matches Ok(ObjectDesc::Quadratic { coefficients, material }) ==> {
            &&& p.class == "Quadratic"@
            &&& coefficient_fields(p, coefficients)
            &&& material_field(p, "material"@, material)
        },
{
    let z = "0.0"@;
    lemma_fields(p, "point"@, z);
    lemma_fields(p, "up"@, z);
    lemma_fields(p, "normal"@, z);
    lemma_fields(p, "material"@, z);
    lemma_fields(p, "centre"@, z);
    lemma_fields(p, "radius"@, z);
    lemma_fields(p, "corner"@, z);
    lemma_fields(p, "size"@, z);
    lemma_fields(p, "a"@, z);
    lemma_fields(p, "b"@, z);
    lemma_fields(p, "c"@, z);
    lemma_fields(p, "d"@, z);
    lemma_fields(p, "e"@, z);
    lemma_fields(p, "f"@, z);
    lemma_fields(p, "g"@, z);
    lemma_fields(p, "h"@, z);
    lemma_fields(p, "i"@, z);
    lemma_fields(p, "j"@, z);
}


/// The value that an attribute line's words give: three numbers after the
/// key make a vector of them in order; one word after the key makes a
/// number, a word, or (when more indented lines follow) a sub-paragraph.
pub open spec fn value_from_words(w: Seq<Seq<char>>, v: ValueModel) -> bool {
    match v {
        ValueModel::Vector(t) => w.len() == 4 && t == (Triple { x: w[1], y: w[2], z: w[3] }),
        ValueModel::Number(f) => w.len() == 2 && f == w[1],
        ValueModel::Word(x) => w.len() == 2 && x == w[1],
        ValueModel::Sub(_) => w.len() == 2,
    }
}

/// Attribute `a` was read from line `i` of a paragraph that starts on file
/// line `first`: its key is the line's first word and its value the rest.
pub open spec fn attribute_from_line(lines: Seq<Seq<char>>, first: u32, i: int, a: AttrModel) -> bool {
    &&& 1 <= i < lines.len()
    &&& a.key == words(lines[i])[0]
    &&& a.line == (first + i) as u32
    &&& value_from_words(words(lines[i]), a.value)
}

proof fn lemma_value_words(lines: Seq<Seq<char>>, i: int, ln: u32)
    requires
        0 <= i < lines.len(),
        words(lines[i]).len() >= 1,
    ensures
        read_value(lines, i, ln) matches Ok(v) ==> value_from_words(words(lines[i]), v),
{
    let w = words(lines[i]);
    let values = w.drop_first();
    assert(values.len() == w.len() - 1);
    if values.len() >= 1 {
        assert(values[0] == w[1]);
    }
    if values.len() == 3 {
        assert(values[1] == w[2]);
        assert(values[2] == w[3]);
    }
}

/// Each attribute was read from the paragraph line that its line number
/// names.
pub open spec fn all_from_lines(lines: Seq<Seq<char>>, first: u32, attrs: Seq<AttrModel>) -> bool {
    forall|k: int|
        #![trigger attrs[k]]
        0 <= k < attrs.len() ==> attribute_from_line(lines, first, attrs[k].line - first, attrs[k])
}

proof fn lemma_attributes_from_lines(
    lines: Seq<Seq<char>>,
    first: u32,
    ind: nat,
    i: int,
    acc: Seq<AttrModel>,
)
    requires
        forall|l: int| 0 <= l < lines.len() ==> !crate::text::is_blank(#[trigger] lines[l]),
        all_from_lines(lines, first, acc),
        first + lines.len() <= u32::MAX,
    ensures
        read_attributes(lines, first, ind, i, acc) matches Ok(res) ==> all_from_lines(lines, first, res),
    decreases lines.len() - i,
{
    if 0 < i < lines.len() && !(lines[i].len() == 0 || crate::text::indentation(lines[i]) <= ind) {
        let ln = (first + i) as u32;
        crate::text::lemma_words_nonempty(lines[i]);
        lemma_value_words(lines, i, ln);
        if let Ok(value) = read_value(lines, i, ln) {
            let a = AttrModel { key: words(lines[i])[0], value, line: ln };
            let acc2 = acc.push(a);
            assert(attribute_from_line(lines, first, i, a));
            assert forall|k: int| #![trigger acc2[k]] 0 <= k < acc2.len() implies
                attribute_from_line(lines, first, acc2[k].line - first, acc2[k]) by {
                if k < acc.len() {
                    assert(acc2[k] == acc[k]);
                } else {
                    assert(acc2[k] == a);
                }
            }
            assert(all_from_lines(lines, first, acc2));
            lemma_attributes_from_lines(lines, first, ind, i + 1, acc2);
        }
    }
}

/// A paragraph's kind and class are the two words of its first line, and
/// each of its attributes is read from the later line that its line number
/// names: the key is that line's first word and the value the words after
/// it.
pub proof fn law_paragraph_from_lines(lines: Seq<Seq<char>>, first: u32)
    requires
        lines.len() >= 1,
        forall|l: int| 0 <= l < lines.len() ==> !crate::text::is_blank(#[trigger] lines[l]),
        first + lines.len() <= u32::MAX,
    ensures
        read_paragraph(lines, first) matches Ok(p) ==> {
            &&& words(lines[0]).len() == 2
            &&& p.kind == words(lines[0])[0]
            &&& p.class == words(lines[0])[1]
            &&& p.start_line == first
            &&& all_from_lines(lines, first, p.attributes)
        },
{
    assert(all_from_lines(lines, first, Seq::<AttrModel>::empty()));
    lemma_attributes_from_lines(
        lines,
        first,
        crate::text::indentation(lines[0]),
        1,
        Seq::empty(),
    );
}

} // verus!
