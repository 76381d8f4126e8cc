//! The scene-file format.
//!
//! A file is a sequence of paragraphs separated by blank lines or lines that
//! start with `#`. A paragraph opens with an unindented header `kind class`;
//! each following, more indented line is an attribute `key value...`, whose
//! value is one word, three numbers, or, when the next line is indented
//! further, a sub-paragraph that starts on the attribute's own line.
use vstd::prelude::*;
use crate::text::{
    is_blank, indentation, words, lines, views, blank, indentation_of, split_words, split_lines,
    chars_of, eq_str, copy_chars, lemma_words_nonempty, lemma_lines_len,
};
use crate::numbers::{is_float_literal, float_literal};
use crate::scene::{Triple, ColourValue, MaterialDesc, Coefficients, ObjectDesc, LightDesc, EnvKind, SceneDesc, SceneModel};

verus! {

/// What went wrong while reading a scene file.
#[derive(Clone, Debug)]
pub enum ParseErrorKind<T> {
    /// An indented line where a paragraph should start, or an unindented line
    /// inside a paragraph.
    NoBlankLineBeforeParagraph,
    EmptyParagraph,
    MissingParagraphClass,
    /// A paragraph header with a third word (the word).
    TooManyWords(T),
    /// A three-value attribute with a value that is not a number.
    InvalidFloat,
    /// An attribute line with neither one nor three values (the line).
    InvalidWordCount(T),
    InvalidParagraphKind(T),
    InvalidSceneClass(T),
    InvalidLightClass(T),
    InvalidObjectClass(T),
    InvalidMaterialClass(T),
    /// A required attribute that the paragraph does not give (its key).
    MissingAttribute(T),
    NotAWord,
    NotAColour,
    UnknownColourName(T),
    NotAVector,
    NotAFloat,
    NotAMaterial,
    MultipleScenes,
    MaterialOnItsOwn,
}

/// A reading error and the line (counted from 1) that it is reported at.
#[derive(Clone, Debug)]
pub struct ParseError<T> {
    pub kind: ParseErrorKind<T>,
    pub line: u32,
}

impl<T: View> View for ParseErrorKind<T> {
    type V = ParseErrorKind<T::V>;

    open spec fn view(&self) -> ParseErrorKind<T::V> {
        match self {
            ParseErrorKind::NoBlankLineBeforeParagraph => ParseErrorKind::NoBlankLineBeforeParagraph,
            ParseErrorKind::EmptyParagraph => ParseErrorKind::EmptyParagraph,
            ParseErrorKind::MissingParagraphClass => ParseErrorKind::MissingParagraphClass,
            ParseErrorKind::TooManyWords(w) => ParseErrorKind::TooManyWords(w@),
            ParseErrorKind::InvalidFloat => ParseErrorKind::InvalidFloat,
            ParseErrorKind::InvalidWordCount(w) => ParseErrorKind::InvalidWordCount(w@),
            ParseErrorKind::InvalidParagraphKind(w) => ParseErrorKind::InvalidParagraphKind(w@),
            ParseErrorKind::InvalidSceneClass(w) => ParseErrorKind::InvalidSceneClass(w@),
            ParseErrorKind::InvalidLightClass(w) => ParseErrorKind::InvalidLightClass(w@),
            ParseErrorKind::InvalidObjectClass(w) => ParseErrorKind::InvalidObjectClass(w@),
            ParseErrorKind::InvalidMaterialClass(w) => ParseErrorKind::InvalidMaterialClass(w@),
            ParseErrorKind::MissingAttribute(w) => ParseErrorKind::MissingAttribute(w@),
            ParseErrorKind::NotAWord => ParseErrorKind::NotAWord,
            ParseErrorKind::NotAColour => ParseErrorKind::NotAColour,
            ParseErrorKind::UnknownColourName(w) => ParseErrorKind::UnknownColourName(w@),
            ParseErrorKind::NotAVector => ParseErrorKind::NotAVector,
            ParseErrorKind::NotAFloat => ParseErrorKind::NotAFloat,
            ParseErrorKind::NotAMaterial => ParseErrorKind::NotAMaterial,
            ParseErrorKind::MultipleScenes => ParseErrorKind::MultipleScenes,
            ParseErrorKind::MaterialOnItsOwn => ParseErrorKind::MaterialOnItsOwn,
        }
    }
}

impl<T: View> View for ParseError<T> {
    type V = ParseError<T::V>;

    open spec fn view(&self) -> ParseError<T::V> {
        ParseError { kind: self.kind@, line: self.line }
    }
}

pub type SpecError = ParseError<Seq<char>>;

pub open spec fn fail<A>(kind: ParseErrorKind<Seq<char>>, line: u32) -> Result<A, SpecError> {
    Err(ParseError { kind, line })
}

/// A paragraph as read: header words, attributes in file order (a later
/// attribute with the same key hides an earlier one), first line.
pub struct ParaModel {
    pub kind: Seq<char>,
    pub class: Seq<char>,
    pub attributes: Seq<AttrModel>,
    pub start_line: u32,
}

pub struct AttrModel {
    pub key: Seq<char>,
    pub value: ValueModel,
    pub line: u32,
}

pub enum ValueModel {
    Word(Seq<char>),
    Number(Seq<char>),
    Vector(Triple<Seq<char>>),
    Sub(ParaModel),
}

// ---------------------------------------------------------------------------
// Reading paragraphs
// ---------------------------------------------------------------------------
/// Reads the paragraph whose lines are `lines`, the first of them being line
/// `first` of the file.
pub open spec fn read_paragraph(lines: Seq<Seq<char>>, first: u32) -> Result<ParaModel, SpecError>
    decreases lines.len(), 1int, 0int,
{
    let header = words(lines[0]);
    if header.len() == 0 {
        fail(ParseErrorKind::EmptyParagraph, first)
    } else if header.len() == 1 {
        fail(ParseErrorKind::MissingParagraphClass, first)
    } else if header.len() > 2 {
        fail(ParseErrorKind::TooManyWords(header[2]), first)
    } else {
        match read_attributes(lines, first, indentation(lines[0]), 1, Seq::empty()) {
            Ok(attributes) => Ok(
                ParaModel { kind: header[0], class: header[1], attributes, start_line: first },
            ),
            Err(e) => Err(e),
        }
    }
}

/// Reads the value of the attribute on line `i` of a paragraph.
pub open spec fn read_value(lines: Seq<Seq<char>>, i: int, ln: u32) -> Result<ValueModel, SpecError>
    decreases lines.len(), 0int, 0int,
{
    let line = lines[i];
    let values = words(line).drop_first();
    if values.len() == 3 {
        if is_float_literal(values[0]) && is_float_literal(values[1]) && is_float_literal(
            values[2],
        ) {
            Ok(ValueModel::Vector(Triple { x: values[0], y: values[1], z: values[2] }))
        } else {
            fail(ParseErrorKind::InvalidFloat, ln)
        }
    } else if values.len() == 1 {
        if 0 < i && i + 1 < lines.len() && indentation(lines[i + 1]) > indentation(line) {
            match read_paragraph(lines.skip(i), ln) {
                Ok(p) => Ok(ValueModel::Sub(p)),
                Err(e) => Err(e),
            }
        } else if is_float_literal(values[0]) {
            Ok(ValueModel::Number(values[0]))
        } else {
            Ok(ValueModel::Word(values[0]))
        }
    } else {
        fail(ParseErrorKind::InvalidWordCount(line), ln)
    }
}

/// Reads attributes from line `i` on, after those in `acc`, until a line
/// that is not indented further than the header `ind`.
pub open spec fn read_attributes(
    lines: Seq<Seq<char>>,
    first: u32,
    ind: nat,
    i: int,
    acc: Seq<AttrModel>,
) -> Result<Seq<AttrModel>, SpecError>
    decreases lines.len(), 0int, lines.len() - i,
{
    if i <= 0 || i >= lines.len() {
        Ok(acc)
    } else if lines[i].len() == 0 || indentation(lines[i]) <= ind {
        Ok(acc)
    } else {
        let ln = (first + i) as u32;
        match read_value(lines, i, ln) {
            Err(e) => Err(e),
            Ok(value) => read_attributes(
                lines,
                first,
                ind,
                i + 1,
                acc.push(AttrModel { key: words(lines[i])[0], value, line: ln }),
            ),
        }
    }
}

pub open spec fn is_comment(line: Seq<char>) -> bool {
    line.len() > 0 && line[0] == '#'
}

/// Ends the paragraph being collected, if any.
pub open spec fn flush(cur: Seq<Seq<char>>, start: u32, acc: Seq<ParaModel>) -> Result<
    Seq<ParaModel>,
    SpecError,
> {
    if cur.len() == 0 {
        Ok(acc)
    } else {
        match read_paragraph(cur, start) {
            Ok(p) => Ok(acc.push(p)),
            Err(e) => Err(e),
        }
    }
}

/// Groups the lines from `i` on into paragraphs; `cur` holds the lines of the
/// paragraph being collected, which started on line `start`.
pub open spec fn group_paragraphs(
    lines: Seq<Seq<char>>,
    i: int,
    cur: Seq<Seq<char>>,
    start: u32,
    acc: Seq<ParaModel>,
) -> Result<Seq<ParaModel>, SpecError>
    decreases lines.len() - i,
{
    if i < 0 || i >= lines.len() {
        flush(cur, start, acc)
    } else {
        let line = lines[i];
        let ln = (i + 1) as u32;
        if is_blank(line) || is_comment(line) {
            match flush(cur, start, acc) {
                Err(e) => Err(e),
                Ok(acc2) => group_paragraphs(lines, i + 1, Seq::empty(), start, acc2),
            }
        } else if cur.len() == 0 && indentation(line) == 0 {
            group_paragraphs(lines, i + 1, seq![line], ln, acc)
        } else if cur.len() > 0 && indentation(line) > 0 {
            group_paragraphs(lines, i + 1, cur.push(line), start, acc)
        } else {
            fail(ParseErrorKind::NoBlankLineBeforeParagraph, ln)
        }
    }
}

/// The paragraphs of a whole file.
pub open spec fn paragraphs(text: Seq<char>) -> Result<Seq<ParaModel>, SpecError> {
    group_paragraphs(lines(text), 0, Seq::empty(), 0, Seq::empty())
}

// ---------------------------------------------------------------------------
// From paragraphs to descriptions
// ---------------------------------------------------------------------------
/// The attribute with the given key that the paragraph gives last.
pub open spec fn find_attribute(attrs: Seq<AttrModel>, key: Seq<char>) -> Option<AttrModel>
    decreases attrs.len(),
{
    if attrs.len() == 0 {
        None
    } else if attrs.last().key == key {
        Some(attrs.last())
    } else {
        find_attribute(attrs.drop_last(), key)
    }
}

pub open spec fn get_attr(p: ParaModel, key: Seq<char>) -> Result<AttrModel, SpecError> {
    match find_attribute(p.attributes, key) {
        Some(a) => Ok(a),
        None => fail(ParseErrorKind::MissingAttribute(key), p.start_line),
    }
}

/// An attribute, or `default` on line 0 when the paragraph does not give it.
pub open spec fn get_attr_or(p: ParaModel, key: Seq<char>, default: ValueModel) -> AttrModel {
    match find_attribute(p.attributes, key) {
        Some(a) => a,
        None => AttrModel { key, value: default, line: 0 },
    }
}

pub open spec fn splat(f: Seq<char>) -> Triple<Seq<char>> {
    Triple { x: f, y: f, z: f }
}

pub open spec fn as_word(a: AttrModel) -> Result<Seq<char>, SpecError> {
    match a.value {
        ValueModel::Word(w) => Ok(w),
        _ => fail(ParseErrorKind::NotAWord, a.line),
    }
}

pub open spec fn as_colour(a: AttrModel) -> Result<ColourValue<Seq<char>>, SpecError> {
    match a.value {
        ValueModel::Vector(t) => Ok(ColourValue::Rgb(t)),
        ValueModel::Number(f) => Ok(ColourValue::Rgb(splat(f))),
        ValueModel::Word(w) => if w == "White"@ {
            Ok(ColourValue::White)
        } else if w == "Black"@ {
            Ok(ColourValue::Black)
        } else {
            fail(ParseErrorKind::UnknownColourName(w), a.line)
        },
        ValueModel::Sub(_) => fail(ParseErrorKind::NotAColour, a.line),
    }
}

pub open spec fn as_vector(a: AttrModel) -> Result<Triple<Seq<char>>, SpecError> {
    match a.value {
        ValueModel::Vector(t) => Ok(t),
        ValueModel::Number(f) => Ok(splat(f)),
        _ => fail(ParseErrorKind::NotAVector, a.line),
    }
}

pub open spec fn as_float(a: AttrModel) -> Result<Seq<char>, SpecError> {
    match a.value {
        ValueModel::Number(f) => Ok(f),
        _ => fail(ParseErrorKind::NotAFloat, a.line),
    }
}

pub open spec fn req_word(p: ParaModel, key: Seq<char>) -> Result<Seq<char>, SpecError> {
    match get_attr(p, key) {
        Ok(a) => as_word(a),
        Err(e) => Err(e),
    }
}

pub open spec fn req_colour(p: ParaModel, key: Seq<char>) -> Result<ColourValue<Seq<char>>, SpecError> {
    match get_attr(p, key) {
        Ok(a) => as_colour(a),
        Err(e) => Err(e),
    }
}

pub open spec fn req_vector(p: ParaModel, key: Seq<char>) -> Result<Triple<Seq<char>>, SpecError> {
    match get_attr(p, key) {
        Ok(a) => as_vector(a),
        Err(e) => Err(e),
    }
}

pub open spec fn req_float(p: ParaModel, key: Seq<char>) -> Result<Seq<char>, SpecError> {
    match get_attr(p, key) {
        Ok(a) => as_float(a),
        Err(e) => Err(e),
    }
}

/// A colour attribute that defaults to white (the number 1).
pub open spec fn opt_colour(p: ParaModel, key: Seq<char>) -> Result<ColourValue<Seq<char>>, SpecError> {
    as_colour(get_attr_or(p, key, ValueModel::Number("1.0"@)))
}

pub open spec fn opt_float(p: ParaModel, key: Seq<char>, default: Seq<char>) -> Result<Seq<char>, SpecError> {
    as_float(get_attr_or(p, key, ValueModel::Number(default)))
}

/// The material paragraph of a paragraph's attribute.
pub open spec fn req_material(p: ParaModel, key: Seq<char>) -> Result<MaterialDesc<Seq<char>>, SpecError> {
    match get_attr(p, key) {
        Err(e) => Err(e),
        Ok(a) => match a.value {
            ValueModel::Sub(q) => into_material(q),
            _ => fail(ParseErrorKind::NotAMaterial, a.line),
        },
    }
}

pub open spec fn into_material(p: ParaModel) -> Result<MaterialDesc<Seq<char>>, SpecError> {
    if p.class == "Simple"@ {
        match req_colour(p, "colour"@) {
            Err(e) => Err(e),
            Ok(colour) => match req_float(p, "reflectiveness"@) {
                Err(e) => Err(e),
                Ok(reflectiveness) => Ok(MaterialDesc::Simple { colour, reflectiveness }),
            },
        }
    } else if p.class == "Transparent"@ {
        match req_colour(p, "colour"@) {
            Err(e) => Err(e),
            Ok(colour) => match req_float(p, "transparency"@) {
                Err(e) => Err(e),
                Ok(transparency) => match req_float(p, "ior"@) {
                    Err(e) => Err(e),
                    Ok(ior) => Ok(MaterialDesc::Transparent { colour, transparency, ior }),
                },
            },
        }
    } else if p.class == "Global"@ {
        match req_float(p, "reflect"@) {
            Err(e) => Err(e),
            Ok(reflect) => match req_float(p, "refract"@) {
                Err(e) => Err(e),
                Ok(refract) => match req_float(p, "ior"@) {
                    Err(e) => Err(e),
                    Ok(ior) => Ok(MaterialDesc::Global { reflect, refract, ior }),
                },
            },
        }
    } else if p.class == "Monochrome"@ {
        match req_colour(p, "colour"@) {
            Err(e) => Err(e),
            Ok(colour) => match opt_float(p, "ambient"@, "0.1"@) {
                Err(e) => Err(e),
                Ok(ambient) => match req_float(p, "shininess"@) {
                    Err(e) => Err(e),
                    Ok(shininess) => Ok(MaterialDesc::Monochrome { colour, ambient, shininess }),
                },
            },
        }
    } else if p.class == "Texture"@ {
        match req_word(p, "name"@) {
            Err(e) => Err(e),
            Ok(name) => match req_float(p, "scale"@) {
                Err(e) => Err(e),
                Ok(scale) => match req_float(p, "ambient"@) {
                    Err(e) => Err(e),
                    Ok(ambient) => match req_float(p, "shininess"@) {
                        Err(e) => Err(e),
                        Ok(shininess) => Ok(
                            MaterialDesc::Texture { name, scale, ambient, shininess },
                        ),
                    },
                },
            },
        }
    } else if p.class == "FalseColour"@ {
        Ok(MaterialDesc::FalseColour)
    } else {
        fail(ParseErrorKind::InvalidMaterialClass(p.class), p.start_line)
    }
}

pub open spec fn into_light(p: ParaModel) -> Result<LightDesc<Seq<char>>, SpecError> {
    if p.class == "Directional"@ {
        match req_vector(p, "direction"@) {
            Err(e) => Err(e),
            Ok(direction) => match opt_colour(p, "colour"@) {
                Err(e) => Err(e),
                Ok(colour) => Ok(LightDesc::Directional { direction, colour }),
            },
        }
    } else if p.class == "Point"@ {
        match req_vector(p, "position"@) {
            Err(e) => Err(e),
            Ok(position) => match opt_colour(p, "colour"@) {
                Err(e) => Err(e),
                Ok(colour) => Ok(LightDesc::Point { position, colour }),
            },
        }
    } else if p.class == "DirPoint"@ {
        match req_vector(p, "position"@) {
            Err(e) => Err(e),
            Ok(position) => match req_vector(p, "direction"@) {
                Err(e) => Err(e),
                Ok(direction) => match opt_colour(p, "colour"@) {
                    Err(e) => Err(e),
                    Ok(colour) => Ok(LightDesc::DirPoint { position, direction, colour }),
                },
            },
        }
    } else {
        fail(ParseErrorKind::InvalidLightClass(p.class), p.start_line)
    }
}

/// The ten quadratic coefficients, each defaulting to zero.
pub open spec fn coefficients(p: ParaModel) -> Result<Coefficients<Seq<char>>, SpecError> {
    let z = "0.0"@;
    match opt_float(p, "a"@, z) {
        Err(e) => Err(e),
        Ok(a) => match opt_float(p, "b"@, z) {
            Err(e) => Err(e),
            Ok(b) => match opt_float(p, "c"@, z) {
                Err(e) => Err(e),
                Ok(c) => match opt_float(p, "d"@, z) {
                    Err(e) => Err(e),
                    Ok(d) => match opt_float(p, "e"@, z) {
                        Err(e) => Err(e),
                        Ok(e_) => match opt_float(p, "f"@, z) {
                            Err(e) => Err(e),
                            Ok(f) => match opt_float(p, "g"@, z) {
                                Err(e) => Err(e),
                                Ok(g) => match opt_float(p, "h"@, z) {
                                    Err(e) => Err(e),
                                    Ok(h) => match opt_float(p, "i"@, z) {
                                        Err(e) => Err(e),
                                        Ok(i) => match opt_float(p, "j"@, z) {
                                            Err(e) => Err(e),
                                            Ok(j) => Ok(
                                                Coefficients { a, b, c, d, e: e_, f, g, h, i, j },
                                            ),
                                        },
                                    },
                                },
                            },
                        },
                    },
                },
            },
        },
    }
}

pub open spec fn into_object(p: ParaModel) -> Result<ObjectDesc<Seq<char>>, SpecError> {
    if p.class == "Plane"@ {
        match req_vector(p, "point"@) {
            Err(e) => Err(e),
            Ok(point) => match req_vector(p, "up"@) {
                Err(e) => Err(e),
                Ok(up) => match req_vector(p, "normal"@) {
                    Err(e) => Err(e),
                    Ok(normal) => match req_material(p, "material"@) {
                        Err(e) => Err(e),
                        Ok(material) => Ok(ObjectDesc::Plane { point, up, normal, material }),
                    },
                },
            },
        }
    } else if p.class == "Sphere"@ {
        match req_vector(p, "centre"@) {
            Err(e) => Err(e),
            Ok(centre) => match req_float(p, "radius"@) {
                Err(e) => Err(e),
                Ok(radius) => match req_material(p, "material"@) {
                    Err(e) => Err(e),
                    Ok(material) => Ok(ObjectDesc::Sphere { centre, radius, material }),
                },
            },
        }
    } else if p.class == "Cuboid"@ {
        match req_vector(p, "corner"@) {
            Err(e) => Err(e),
            Ok(corner) => match req_vector(p, "size"@) {
                Err(e) => Err(e),
                Ok(size) => match req_material(p, "material"@) {
                    Err(e) => Err(e),
                    Ok(material) => Ok(ObjectDesc::Cuboid { corner, size, material }),
                },
            },
        }
    } else if p.class == "Quadratic"@ {
        match coefficients(p) {
            Err(e) => Err(e),
            Ok(coefficients) => match req_material(p, "material"@) {
                Err(e) => Err(e),
                Ok(material) => Ok(ObjectDesc::Quadratic { coefficients, material }),
            },
        }
    } else {
        fail(ParseErrorKind::InvalidObjectClass(p.class), p.start_line)
    }
}

pub open spec fn into_scene(p: ParaModel) -> Result<EnvKind, SpecError> {
    if p.class == "Scene"@ {
        Ok(EnvKind::Scene)
    } else if p.class == "PhotonScene"@ {
        Ok(EnvKind::PhotonScene)
    } else {
        fail(ParseErrorKind::InvalidSceneClass(p.class), p.start_line)
    }
}

pub open spec fn is_scene(p: ParaModel) -> bool {
    p.kind == "scene"@
}

/// The scene paragraphs among the first `n` paragraphs, in order.
pub open spec fn scenes(ps: Seq<ParaModel>) -> Seq<ParaModel>
    decreases ps.len(),
{
    if ps.len() == 0 {
        Seq::empty()
    } else if is_scene(ps.last()) {
        scenes(ps.drop_last()).push(ps.last())
    } else {
        scenes(ps.drop_last())
    }
}

/// The other paragraphs, in order.
pub open spec fn others(ps: Seq<ParaModel>) -> Seq<ParaModel>
    decreases ps.len(),
{
    if ps.len() == 0 {
        Seq::empty()
    } else if !is_scene(ps.last()) {
        others(ps.drop_last()).push(ps.last())
    } else {
        others(ps.drop_last())
    }
}

/// Adds the lights and objects that the paragraphs `ps[i..]` describe.
pub open spec fn add_items(ps: Seq<ParaModel>, i: int, acc: SceneModel) -> Result<SceneModel, SpecError>
    decreases ps.len() - i,
{
    if i < 0 || i >= ps.len() {
        Ok(acc)
    } else {
        let p = ps[i];
        if p.kind == "light"@ {
            match into_light(p) {
                Err(e) => Err(e),
                Ok(l) => add_items(ps, i + 1, SceneModel { lights: acc.lights.push(l), ..acc }),
            }
        } else if p.kind == "object"@ {
            match into_object(p) {
                Err(e) => Err(e),
                Ok(o) => add_items(ps, i + 1, SceneModel { objects: acc.objects.push(o), ..acc }),
            }
        } else if p.kind == "material"@ {
            match into_material(p) {
                Err(e) => Err(e),
                Ok(_) => fail(ParseErrorKind::MaterialOnItsOwn, p.start_line),
            }
        } else {
            fail(ParseErrorKind::InvalidParagraphKind(p.kind), p.start_line)
        }
    }
}

/// The scene that a file describes: the environment of its one scene
/// paragraph (a plain `Scene` when it has none), then every other paragraph
/// read in order as a light or an object.
pub open spec fn scene_from_text(text: Seq<char>) -> Result<SceneModel, SpecError> {
    match paragraphs(text) {
        Err(e) => Err(e),
        Ok(ps) => {
            let sc = scenes(ps);
            let env = if sc.len() == 0 {
                Ok(EnvKind::Scene)
            } else {
                into_scene(sc[0])
            };
            match env {
                Err(e) => Err(e),
                Ok(env) => if sc.len() >= 2 {
                    fail(ParseErrorKind::MultipleScenes, sc[1].start_line)
                } else {
                    add_items(
                        others(ps),
                        0,
                        SceneModel { env, lights: Seq::empty(), objects: Seq::empty() },
                    )
                },
            }
        },
    }
}

proof fn lemma_add_items_count(ps: Seq<ParaModel>, i: int, acc: SceneModel)
    requires
        0 <= i <= ps.len(),
        add_items(ps, i, acc) is Ok,
    ensures
        add_items(ps, i, acc)->Ok_0.lights.len() + add_items(ps, i, acc)->Ok_0.objects.len()
            == acc.lights.len() + acc.objects.len() + ps.len() - i,
        add_items(ps, i, acc)->Ok_0.env == acc.env,
    decreases ps.len() - i,
{
    if i < ps.len() {
        let p = ps[i];
        if p.kind == "light"@ {
            let l = into_light(p)->Ok_0;
            lemma_add_items_count(ps, i + 1, SceneModel { lights: acc.lights.push(l), ..acc });
        } else if p.kind == "object"@ {
            let o = into_object(p)->Ok_0;
            lemma_add_items_count(ps, i + 1, SceneModel { objects: acc.objects.push(o), ..acc });
        }
    }
}

/// A file that reads without error has at most one scene paragraph, and
/// every other paragraph describes exactly one light or object.
pub proof fn law_one_item_per_paragraph(text: Seq<char>)
    requires
        scene_from_text(text) is Ok,
    ensures
        paragraphs(text) is Ok,
        scenes(paragraphs(text)->Ok_0).len() <= 1,
        scene_from_text(text)->Ok_0.lights.len() + scene_from_text(text)->Ok_0.objects.len()
            == others(paragraphs(text)->Ok_0).len(),
{
    let ps = paragraphs(text)->Ok_0;
    let sc = scenes(ps);
    let env = if sc.len() == 0 {
        EnvKind::Scene
    } else {
        into_scene(sc[0])->Ok_0
    };
    lemma_add_items_count(
        others(ps),
        0,
        SceneModel { env, lights: Seq::empty(), objects: Seq::empty() },
    );
}

// ---------------------------------------------------------------------------
// The reader
// ---------------------------------------------------------------------------
/// Agreement of an executable result with a result of the model.
pub open spec fn agrees<A: View>(r: Result<A, ParseError<Vec<char>>>, s: Result<A::V, SpecError>) -> bool {
    match r {
        Ok(v) => s == Ok::<A::V, SpecError>(v@),
        Err(e) => s == Err::<A::V, SpecError>(e@),
    }
}

struct Paragraph {
    kind: Vec<char>,
    class: Vec<char>,
    attributes: Vec<Attribute>,
    start_line: u32,
}

struct Attribute {
    key: Vec<char>,
    value: AttrValue,
    line: u32,
}

enum AttrValue {
    Word(Vec<char>),
    Number(Vec<char>),
    Vector(Triple<Vec<char>>),
    Sub(Box<Paragraph>),
}

spec fn para_model(p: Paragraph) -> ParaModel
    decreases p,
{
    ParaModel {
        kind: p.kind@,
        class: p.class@,
        attributes: attrs_model(p.attributes@),
        start_line: p.start_line,
    }
}

spec fn attrs_model(s: Seq<Attribute>) -> Seq<AttrModel>
    decreases s,
{
    if s.len() == 0 {
        Seq::empty()
    } else {
        attrs_model(s.drop_last()).push(attr_model(s.last()))
    }
}

spec fn attr_model(a: Attribute) -> AttrModel
    decreases a,
{
    AttrModel { key: a.key@, value: value_model(a.value), line: a.line }
}

spec fn value_model(v: AttrValue) -> ValueModel
    decreases v,
{
    match v {
        AttrValue::Word(w) => ValueModel::Word(w@),
        AttrValue::Number(w) => ValueModel::Number(w@),
        AttrValue::Vector(t) => ValueModel::Vector(t@),
        AttrValue::Sub(p) => ValueModel::Sub(para_model(*p)),
    }
}

spec fn paras_model(s: Seq<Paragraph>) -> Seq<ParaModel> {
    s.map_values(|p: Paragraph| para_model(p))
}

proof fn lemma_attrs_model(s: Seq<Attribute>)
    ensures
        attrs_model(s).len() == s.len(),
        forall|k: int| 0 <= k < s.len() ==> #[trigger] attrs_model(s)[k] == attr_model(s[k]),
    decreases s.len(),
{
    if s.len() > 0 {
        lemma_attrs_model(s.drop_last());
    }
}

fn error<A>(kind: ParseErrorKind<Vec<char>>, line: u32) -> (r: Result<A, ParseError<Vec<char>>>)
    ensures
        r matches Err(e) && e.kind == kind && e.line == line,
{
    Err(ParseError { kind, line })
}

/// Reads the paragraph made of lines `start..end`, the first of which is
/// line `first` of the file.
fn parse_paragraph(lines: &Vec<Vec<char>>, start: usize, end: usize, first: u32) -> (r: Result<
    Paragraph,
    ParseError<Vec<char>>,
>)
    requires
        start < end <= lines.len(),
        first + (end - start) <= u32::MAX,
        forall|k: int| start <= k < end ==> !is_blank(#[trigger] lines@[k]@),
    ensures
        match r {
            Ok(p) => read_paragraph(views(lines@).subrange(start as int, end as int), first) == Ok::<
                ParaModel,
                SpecError,
            >(para_model(p)),
            Err(e) => read_paragraph(views(lines@).subrange(start as int, end as int), first)
                == Err::<ParaModel, SpecError>(e@),
        },
    decreases end - start, 1int,
{
    let ghost l = views(lines@).subrange(start as int, end as int);
    assert(l[0] == lines@[start as int]@);
    let header = split_words(&lines[start]);
    if header.len() == 0 {
        return error(ParseErrorKind::EmptyParagraph, first);
    }
    if header.len() == 1 {
        return error(ParseErrorKind::MissingParagraphClass, first);
    }
    if header.len() > 2 {
        assert(views(header@)[2] == header@[2]@);
        return error(ParseErrorKind::TooManyWords(copy_chars(&header[2])), first);
    }
    assert(views(header@)[0] == header@[0]@);
    assert(views(header@)[1] == header@[1]@);
    let ind = indentation_of(&lines[start]);
    assert(attrs_model(Seq::<Attribute>::empty()) =~= Seq::<AttrModel>::empty());
    let mut attributes: Vec<Attribute> = Vec::new();
    let mut i: usize = 1;
    while start + i < end && lines[start + i].len() > 0 && indentation_of(&lines[start + i]) > ind
        invariant
            start < end <= lines.len(),
            first + (end - start) <= u32::MAX,
            forall|k: int| start <= k < end ==> !is_blank(#[trigger] lines@[k]@),
            l == views(lines@).subrange(start as int, end as int),
            ind == indentation(l[0]),
            views(header@) == words(l[0]),
            header.len() == 2,
            1 <= i <= end - start,
            read_attributes(l, first, ind as nat, 1, Seq::empty()) == read_attributes(
                l,
                first,
                ind as nat,
                i as int,
                attrs_model(attributes@),
            ),
        decreases end - start - i,
    {
        assert(l[i as int] == lines@[start + i]@);
        let ln = first + i as u32;
        let value = parse_value(lines, start, end, i, ln);
        match value {
            Err(e) => {
                assert(read_attributes(l, first, ind as nat, i as int, attrs_model(attributes@))
                    == Err::<Seq<AttrModel>, SpecError>(e@));
                return Err(e);
            },
            Ok(v) => {
                let ws = split_words(&lines[start + i]);
                proof {
                    lemma_words_nonempty(lines@[start + i]@);
                    assert(views(ws@)[0] == ws@[0]@);
                }
                let a = Attribute { key: copy_chars(&ws[0]), value: v, line: ln };
                proof {
                    assert(attributes@.push(a).drop_last() =~= attributes@);
                    assert(attrs_model(attributes@.push(a)) == attrs_model(attributes@).push(
                        attr_model(a),
                    ));
                    assert(attr_model(a) == AttrModel {
                        key: words(l[i as int])[0],
                        value: value_model(v),
                        line: ln,
                    });
                }
                attributes.push(a);
                i += 1;
            },
        }
    }
    assert(read_attributes(l, first, ind as nat, i as int, attrs_model(attributes@)) == Ok::<
        Seq<AttrModel>,
        SpecError,
    >(attrs_model(attributes@)));
    let p = Paragraph {
        kind: copy_chars(&header[0]),
        class: copy_chars(&header[1]),
        attributes,
        start_line: first,
    };
    Ok(p)
}

/// Reads the value of the attribute on line `start + i`, which is line `ln`.
fn parse_value(lines: &Vec<Vec<char>>, start: usize, end: usize, i: usize, ln: u32) -> (r: Result<
    AttrValue,
    ParseError<Vec<char>>,
>)
    requires
        start < end <= lines.len(),
        1 <= i < end - start,
        ln + (end - start - i) <= u32::MAX,
        forall|k: int| start <= k < end ==> !is_blank(#[trigger] lines@[k]@),
    ensures
        match r {
            Ok(v) => read_value(views(lines@).subrange(start as int, end as int), i as int, ln)
                == Ok::<ValueModel, SpecError>(value_model(v)),
            Err(e) => read_value(views(lines@).subrange(start as int, end as int), i as int, ln)
                == Err::<ValueModel, SpecError>(e@),
        },
    decreases end - start, 0int,
{
    let ghost l = views(lines@).subrange(start as int, end as int);
    assert(l[i as int] == lines@[start + i]@);
    let line = &lines[start + i];
    let ws = split_words(line);
    proof {
        lemma_words_nonempty(line@);
    }
    let nvals = ws.len() - 1;
    if nvals == 3 {
        assert(views(ws@)[1] == ws@[1]@);
        assert(views(ws@)[2] == ws@[2]@);
        assert(views(ws@)[3] == ws@[3]@);
        if float_literal(&ws[1]) && float_literal(&ws[2]) && float_literal(&ws[3]) {
            Ok(
                AttrValue::Vector(
                    Triple { x: copy_chars(&ws[1]), y: copy_chars(&ws[2]), z: copy_chars(&ws[3]) },
                ),
            )
        } else {
            error(ParseErrorKind::InvalidFloat, ln)
        }
    } else if nvals == 1 {
        assert(views(ws@)[1] == ws@[1]@);
        if start + i + 1 < end && indentation_of(&lines[start + i + 1]) > indentation_of(line) {
            proof {
                assert(l[i + 1] == lines@[start + i + 1]@);
                assert(l.skip(i as int) =~= views(lines@).subrange(start + i, end as int));
            }
            match parse_paragraph(lines, start + i, end, ln) {
                Ok(p) => Ok(AttrValue::Sub(Box::new(p))),
                Err(e) => Err(e),
            }
        } else if float_literal(&ws[1]) {
            Ok(AttrValue::Number(copy_chars(&ws[1])))
        } else {
            Ok(AttrValue::Word(copy_chars(&ws[1])))
        }
    } else {
        error(ParseErrorKind::InvalidWordCount(copy_chars(line)), ln)
    }
}

/// Reads every paragraph of a file given as lines.
fn parse_whole(lines: &Vec<Vec<char>>) -> (r: Result<Vec<Paragraph>, ParseError<Vec<char>>>)
    requires
        lines.len() < u32::MAX,
    ensures
        match r {
            Ok(ps) => group_paragraphs(views(lines@), 0, Seq::empty(), 0, Seq::empty()) == Ok::<
                Seq<ParaModel>,
                SpecError,
            >(paras_model(ps@)),
            Err(e) => group_paragraphs(views(lines@), 0, Seq::empty(), 0, Seq::empty()) == Err::<
                Seq<ParaModel>,
                SpecError,
            >(e@),
        },
{
    let ghost v = views(lines@);
    let n = lines.len();
    let mut paras: Vec<Paragraph> = Vec::new();
    let mut in_para = false;
    let mut pstart: usize = 0;
    let mut start_line: u32 = 0;
    let mut i: usize = 0;
    assert(paras_model(paras@) =~= Seq::<ParaModel>::empty());
    while i < n
        invariant
            n == lines.len(),
            n < u32::MAX,
            v == views(lines@),
            i <= n,
            in_para ==> pstart < i && start_line == pstart + 1,
            in_para ==> forall|k: int| pstart <= k < i ==> !is_blank(#[trigger] lines@[k]@),
            group_paragraphs(v, 0, Seq::empty(), 0, Seq::empty()) == group_paragraphs(
                v,
                i as int,
                if in_para {
                    v.subrange(pstart as int, i as int)
                } else {
                    Seq::empty()
                },
                start_line,
                paras_model(paras@),
            ),
        decreases n - i,
    {
        let line = &lines[i];
        let ln = (i + 1) as u32;
        assert(v[i as int] == line@);
        if blank(line) || (line.len() > 0 && line[0] == '#') {
            if in_para {
                match parse_paragraph(lines, pstart, i, start_line) {
                    Ok(p) => {
                        proof {
                            assert(paras_model(paras@.push(p)) =~= paras_model(paras@).push(
                                para_model(p),
                            ));
                        }
                        paras.push(p);
                    },
                    Err(e) => {
                        return Err(e);
                    },
                }
                in_para = false;
            }
            i += 1;
        } else {
            let ind = indentation_of(line);
            if !in_para && ind == 0 {
                assert(v.subrange(i as int, i + 1) =~= seq![line@]);
                in_para = true;
                pstart = i;
                start_line = ln;
                i += 1;
            } else if in_para && ind > 0 {
                assert(v.subrange(pstart as int, i + 1) =~= v.subrange(pstart as int, i as int).push(
                    line@,
                ));
                i += 1;
            } else {
                return error(ParseErrorKind::NoBlankLineBeforeParagraph, ln);
            }
        }
    }
    if in_para {
        match parse_paragraph(lines, pstart, n, start_line) {
            Ok(p) => {
                proof {
                    assert(paras_model(paras@.push(p)) =~= paras_model(paras@).push(para_model(p)));
                }
                paras.push(p);
            },
            Err(e) => {
                return Err(e);
            },
        }
    }
    Ok(paras)
}

type Outcome<A> = Result<A, ParseError<Vec<char>>>;

/// The attribute with the given key that the paragraph gives last.
fn lookup<'a>(p: &'a Paragraph, key: &str) -> (r: Option<&'a Attribute>)
    ensures
        match r {
            Some(a) => find_attribute(para_model(*p).attributes, key@) == Some(attr_model(*a)),
            None => find_attribute(para_model(*p).attributes, key@) == None::<AttrModel>,
        },
{
    let ghost m = attrs_model(p.attributes@);
    let n = p.attributes.len();
    let mut j = n;
    proof {
        lemma_attrs_model(p.attributes@);
        assert(m.take(n as int) =~= m);
    }
    while j > 0
        invariant
            j <= n,
            n == p.attributes@.len(),
            m == attrs_model(p.attributes@),
            m.len() == n,
            forall|k: int| 0 <= k < n ==> #[trigger] m[k] == attr_model(p.attributes@[k]),
            find_attribute(m, key@) == find_attribute(m.take(j as int), key@),
        decreases j,
    {
        assert(m.take(j as int).last() == m[j - 1]);
        if eq_str(&p.attributes[j - 1].key, key) {
            return Some(&p.attributes[j - 1]);
        }
        assert(m.take(j as int).drop_last() =~= m.take(j - 1));
        j -= 1;
    }
    None
}

fn missing<A>(p: &Paragraph, key: &str) -> (r: Outcome<A>)
    ensures
        r matches Err(e) && e@ == (ParseError {
            kind: ParseErrorKind::MissingAttribute(key@),
            line: p.start_line,
        }),
{
    error(ParseErrorKind::MissingAttribute(chars_of(key)), p.start_line)
}

fn word_of(a: &Attribute) -> (r: Outcome<Vec<char>>)
    ensures
        agrees(r, as_word(attr_model(*a))),
{
    match &a.value {
        AttrValue::Word(w) => Ok(copy_chars(w)),
        _ => error(ParseErrorKind::NotAWord, a.line),
    }
}

fn splat_of(f: &Vec<char>) -> (r: Triple<Vec<char>>)
    ensures
        r@ == splat(f@),
{
    Triple { x: copy_chars(f), y: copy_chars(f), z: copy_chars(f) }
}

fn copy_triple(t: &Triple<Vec<char>>) -> (r: Triple<Vec<char>>)
    ensures
        r@ == t@,
{
    Triple { x: copy_chars(&t.x), y: copy_chars(&t.y), z: copy_chars(&t.z) }
}

fn colour_of(a: &Attribute) -> (r: Outcome<ColourValue<Vec<char>>>)
    ensures
        agrees(r, as_colour(attr_model(*a))),
{
    match &a.value {
        AttrValue::Vector(t) => Ok(ColourValue::Rgb(copy_triple(t))),
        AttrValue::Number(f) => Ok(ColourValue::Rgb(splat_of(f))),
        AttrValue::Word(w) => {
            if eq_str(w, "White") {
                Ok(ColourValue::White)
            } else if eq_str(w, "Black") {
                Ok(ColourValue::Black)
            } else {
                error(ParseErrorKind::UnknownColourName(copy_chars(w)), a.line)
            }
        },
        AttrValue::Sub(_) => error(ParseErrorKind::NotAColour, a.line),
    }
}

fn vector_of(a: &Attribute) -> (r: Outcome<Triple<Vec<char>>>)
    ensures
        agrees(r, as_vector(attr_model(*a))),
{
    match &a.value {
        AttrValue::Vector(t) => Ok(copy_triple(t)),
        AttrValue::Number(f) => Ok(splat_of(f)),
        _ => error(ParseErrorKind::NotAVector, a.line),
    }
}

fn float_of(a: &Attribute) -> (r: Outcome<Vec<char>>)
    ensures
        agrees(r, as_float(attr_model(*a))),
{
    match &a.value {
        AttrValue::Number(f) => Ok(copy_chars(f)),
        _ => error(ParseErrorKind::NotAFloat, a.line),
    }
}

fn required_word(p: &Paragraph, key: &str) -> (r: Outcome<Vec<char>>)
    ensures
        agrees(r, req_word(para_model(*p), key@)),
{
    match lookup(p, key) {
        Some(a) => word_of(a),
        None => missing(p, key),
    }
}

fn required_colour(p: &Paragraph, key: &str) -> (r: Outcome<ColourValue<Vec<char>>>)
    ensures
        agrees(r, req_colour(para_model(*p), key@)),
{
    match lookup(p, key) {
        Some(a) => colour_of(a),
        None => missing(p, key),
    }
}

fn required_vector(p: &Paragraph, key: &str) -> (r: Outcome<Triple<Vec<char>>>)
    ensures
        agrees(r, req_vector(para_model(*p), key@)),
{
    match lookup(p, key) {
        Some(a) => vector_of(a),
        None => missing(p, key),
    }
}

fn required_float(p: &Paragraph, key: &str) -> (r: Outcome<Vec<char>>)
    ensures
        agrees(r, req_float(para_model(*p), key@)),
{
    match lookup(p, key) {
        Some(a) => float_of(a),
        None => missing(p, key),
    }
}

fn optional_colour(p: &Paragraph, key: &str) -> (r: Outcome<ColourValue<Vec<char>>>)
    ensures
        agrees(r, opt_colour(para_model(*p), key@)),
{
    match lookup(p, key) {
        Some(a) => colour_of(a),
        None => Ok(ColourValue::Rgb(splat_of(&chars_of("1.0")))),
    }
}

fn optional_float(p: &Paragraph, key: &str, default: &str) -> (r: Outcome<Vec<char>>)
    ensures
        agrees(r, opt_float(para_model(*p), key@, default@)),
{
    match lookup(p, key) {
        Some(a) => float_of(a),
        None => Ok(chars_of(default)),
    }
}

fn required_material(p: &Paragraph, key: &str) -> (r: Outcome<MaterialDesc<Vec<char>>>)
    ensures
        agrees(r, req_material(para_model(*p), key@)),
{
    match lookup(p, key) {
        Some(a) => match &a.value {
            AttrValue::Sub(q) => material_of(q),
            _ => error(ParseErrorKind::NotAMaterial, a.line),
        },
        None => missing(p, key),
    }
}

fn material_of(p: &Paragraph) -> (r: Outcome<MaterialDesc<Vec<char>>>)
    ensures
        agrees(r, into_material(para_model(*p))),
{
    if eq_str(&p.class, "Simple") {
        let colour = match required_colour(p, "colour") {
            Ok(c) => c,
            Err(e) => return Err(e),
        };
        let reflectiveness = match required_float(p, "reflectiveness") {
            Ok(c) => c,
            Err(e) => return Err(e),
        };
        Ok(MaterialDesc::Simple { colour, reflectiveness })
    } else if eq_str(&p.class, "Transparent") {
        let colour = match required_colour(p, "colour") {
            Ok(c) => c,
            Err(e) => return Err(e),
        };
        let transparency = match required_float(p, "transparency") {
            Ok(c) => c,
            Err(e) => return Err(e),
        };
        let ior = match required_float(p, "ior") {
            Ok(c) => c,
            Err(e) => return Err(e),
        };
        Ok(MaterialDesc::Transparent { colour, transparency, ior })
    } else if eq_str(&p.class, "Global") {
        let reflect = match required_float(p, "reflect") {
            Ok(c) => c,
            Err(e) => return Err(e),
        };
        let refract = match required_float(p, "refract") {
            Ok(c) => c,
            Err(e) => return Err(e),
        };
        let ior = match required_float(p, "ior") {
            Ok(c) => c,
            Err(e) => return Err(e),
        };
        Ok(MaterialDesc::Global { reflect, refract, ior })
    } else if eq_str(&p.class, "Monochrome") {
        let colour = match required_colour(p, "colour") {
            Ok(c) => c,
            Err(e) => return Err(e),
        };
        let ambient = match optional_float(p, "ambient", "0.1") {
            Ok(c) => c,
            Err(e) => return Err(e),
        };
        let shininess = match required_float(p, "shininess") {
            Ok(c) => c,
            Err(e) => return Err(e),
        };
        Ok(MaterialDesc::Monochrome { colour, ambient, shininess })
    } else if eq_str(&p.class, "Texture") {
        let name = match required_word(p, "name") {
            Ok(c) => c,
            Err(e) => return Err(e),
        };
        let scale = match required_float(p, "scale") {
            Ok(c) => c,
            Err(e) => return Err(e),
        };
        let ambient = match required_float(p, "ambient") {
            Ok(c) => c,
            Err(e) => return Err(e),
        };
        let shininess = match required_float(p, "shininess") {
            Ok(c) => c,
            Err(e) => return Err(e),
        };
        Ok(MaterialDesc::Texture { name, scale, ambient, shininess })
    } else if eq_str(&p.class, "FalseColour") {
        Ok(MaterialDesc::FalseColour)
    } else {
        error(ParseErrorKind::InvalidMaterialClass(copy_chars(&p.class)), p.start_line)
    }
}

fn light_of(p: &Paragraph) -> (r: Outcome<LightDesc<Vec<char>>>)
    ensures
        agrees(r, into_light(para_model(*p))),
{
    if eq_str(&p.class, "Directional") {
        let direction = match required_vector(p, "direction") {
            Ok(c) => c,
            Err(e) => return Err(e),
        };
        let colour = match optional_colour(p, "colour") {
            Ok(c) => c,
            Err(e) => return Err(e),
        };
        Ok(LightDesc::Directional { direction, colour })
    } else if eq_str(&p.class, "Point") {
        let position = match required_vector(p, "position") {
            Ok(c) => c,
            Err(e) => return Err(e),
        };
        let colour = match optional_colour(p, "colour") {
            Ok(c) => c,
            Err(e) => return Err(e),
        };
        Ok(LightDesc::Point { position, colour })
    } else if eq_str(&p.class, "DirPoint") {
        let position = match required_vector(p, "position") {
            Ok(c) => c,
            Err(e) => return Err(e),
        };
        let direction = match required_vector(p, "direction") {
            Ok(c) => c,
            Err(e) => return Err(e),
        };
        let colour = match optional_colour(p, "colour") {
            Ok(c) => c,
            Err(e) => return Err(e),
        };
        Ok(LightDesc::DirPoint { position, direction, colour })
    } else {
        error(ParseErrorKind::InvalidLightClass(copy_chars(&p.class)), p.start_line)
    }
}

fn coefficients_of(p: &Paragraph) -> (r: Outcome<Coefficients<Vec<char>>>)
    ensures
        agrees(r, coefficients(para_model(*p))),
{
    let a = match optional_float(p, "a", "0.0") {
        Ok(c) => c,
        Err(e) => return Err(e),
    };
    let b = match optional_float(p, "b", "0.0") {
        Ok(c) => c,
        Err(e) => return Err(e),
    };
    let c = match optional_float(p, "c", "0.0") {
        Ok(c) => c,
        Err(e) => return Err(e),
    };
    let d = match optional_float(p, "d", "0.0") {
        Ok(c) => c,
        Err(e) => return Err(e),
    };
    let e_ = match optional_float(p, "e", "0.0") {
        Ok(c) => c,
        Err(e) => return Err(e),
    };
    let f = match optional_float(p, "f", "0.0") {
        Ok(c) => c,
        Err(e) => return Err(e),
    };
    let g = match optional_float(p, "g", "0.0") {
        Ok(c) => c,
        Err(e) => return Err(e),
    };
    let h = match optional_float(p, "h", "0.0") {
        Ok(c) => c,
        Err(e) => return Err(e),
    };
    let i = match optional_float(p, "i", "0.0") {
        Ok(c) => c,
        Err(e) => return Err(e),
    };
    let j = match optional_float(p, "j", "0.0") {
        Ok(c) => c,
        Err(e) => return Err(e),
    };
    Ok(Coefficients { a, b, c, d, e: e_, f, g, h, i, j })
}

fn object_of(p: &Paragraph) -> (r: Outcome<ObjectDesc<Vec<char>>>)
    ensures
        agrees(r, into_object(para_model(*p))),
{
    if eq_str(&p.class, "Plane") {
        let point = match required_vector(p, "point") {
            Ok(c) => c,
            Err(e) => return Err(e),
        };
        let up = match required_vector(p, "up") {
            Ok(c) => c,
            Err(e) => return Err(e),
        };
        let normal = match required_vector(p, "normal") {
            Ok(c) => c,
            Err(e) => return Err(e),
        };
        let material = match required_material(p, "material") {
            Ok(c) => c,
            Err(e) => return Err(e),
        };
        Ok(ObjectDesc::Plane { point, up, normal, material })
    } else if eq_str(&p.class, "Sphere") {
        let centre = match required_vector(p, "centre") {
            Ok(c) => c,
            Err(e) => return Err(e),
        };
        let radius = match required_float(p, "radius") {
            Ok(c) => c,
            Err(e) => return Err(e),
        };
        let material = match required_material(p, "material") {
            Ok(c) => c,
            Err(e) => return Err(e),
        };
        Ok(ObjectDesc::Sphere { centre, radius, material })
    } else if eq_str(&p.class, "Cuboid") {
        let corner = match required_vector(p, "corner") {
            Ok(c) => c,
            Err(e) => return Err(e),
        };
        let size = match required_vector(p, "size") {
            Ok(c) => c,
            Err(e) => return Err(e),
        };
        let material = match required_material(p, "material") {
            Ok(c) => c,
            Err(e) => return Err(e),
        };
        Ok(ObjectDesc::Cuboid { corner, size, material })
    } else if eq_str(&p.class, "Quadratic") {
        let coefficients = match coefficients_of(p) {
            Ok(c) => c,
            Err(e) => return Err(e),
        };
        let material = match required_material(p, "material") {
            Ok(c) => c,
            Err(e) => return Err(e),
        };
        Ok(ObjectDesc::Quadratic { coefficients, material })
    } else {
        error(ParseErrorKind::InvalidObjectClass(copy_chars(&p.class)), p.start_line)
    }
}

fn scene_kind_of(p: &Paragraph) -> (r: Outcome<EnvKind>)
    ensures
        agrees(r, into_scene(para_model(*p))),
{
    if eq_str(&p.class, "Scene") {
        Ok(EnvKind::Scene)
    } else if eq_str(&p.class, "PhotonScene") {
        Ok(EnvKind::PhotonScene)
    } else {
        error(ParseErrorKind::InvalidSceneClass(copy_chars(&p.class)), p.start_line)
    }
}

/// A scene file's text.
pub struct SceneFile {
    contents: String,
}

impl SceneFile {
    /// Reads the scene that a scene file's text describes.
    pub fn from_contents(contents: String) -> (r: Result<SceneDesc, ParseError<Vec<char>>>)
        requires
            contents@.len() < u32::MAX,
        ensures
            agrees(r, scene_from_text(contents@)),
    {
        let chars = chars_of(contents.as_str());
        let lines = split_lines(&chars);
        proof {
            lemma_lines_len(chars@);
        }
        let paras = match parse_whole(&lines) {
            Ok(ps) => ps,
            Err(e) => return Err(e),
        };
        let ghost m = paras_model(paras@);
        let n = paras.len();
        let mut sidx: Vec<usize> = Vec::new();
        let mut oidx: Vec<usize> = Vec::new();
        let mut k: usize = 0;
        assert(m.take(0) =~= Seq::<ParaModel>::empty());
        assert(sidx@.map_values(|j: usize| m[j as int]) =~= Seq::<ParaModel>::empty());
        assert(oidx@.map_values(|j: usize| m[j as int]) =~= Seq::<ParaModel>::empty());
        while k < n
            invariant
                n == paras@.len(),
                k <= n,
                m == paras_model(paras@),
                m.len() == n,
                scenes(m.take(k as int)) == sidx@.map_values(|j: usize| m[j as int]),
                others(m.take(k as int)) == oidx@.map_values(|j: usize| m[j as int]),
                forall|t: int| 0 <= t < sidx@.len() ==> #[trigger] sidx@[t] < k,
                forall|t: int| 0 <= t < oidx@.len() ==> #[trigger] oidx@[t] < k,
            decreases n - k,
        {
            proof {
                assert(m.take(k + 1).drop_last() =~= m.take(k as int));
                assert(m.take(k + 1).last() == m[k as int]);
                assert(m[k as int] == para_model(paras@[k as int]));
            }
            if eq_str(&paras[k].kind, "scene") {
                proof {
                    assert(sidx@.push(k).map_values(|j: usize| m[j as int]) =~= sidx@.map_values(
                        |j: usize| m[j as int],
                    ).push(m[k as int]));
                }
                sidx.push(k);
            } else {
                proof {
                    assert(oidx@.push(k).map_values(|j: usize| m[j as int]) =~= oidx@.map_values(
                        |j: usize| m[j as int],
                    ).push(m[k as int]));
                }
                oidx.push(k);
            }
            k += 1;
        }
        assert(m.take(n as int) =~= m);
        let ghost sc = scenes(m);
        let ghost os = others(m);
        let env = if sidx.len() == 0 {
            EnvKind::Scene
        } else {
            assert(sc[0] == m[sidx@[0] as int]);
            match scene_kind_of(&paras[sidx[0]]) {
                Ok(env) => env,
                Err(e) => return Err(e),
            }
        };
        if sidx.len() >= 2 {
            assert(sc[1] == m[sidx@[1] as int]);
            return error(ParseErrorKind::MultipleScenes, paras[sidx[1]].start_line);
        }
        let mut lights: Vec<LightDesc<Vec<char>>> = Vec::new();
        let mut objects: Vec<ObjectDesc<Vec<char>>> = Vec::new();
        let mut t: usize = 0;
        let ghost init = SceneModel { env, lights: Seq::empty(), objects: Seq::empty() };
        assert(lights@.map_values(|l: LightDesc<Vec<char>>| l@) =~= Seq::<
            LightDesc<Seq<char>>,
        >::empty());
        assert(objects@.map_values(|o: ObjectDesc<Vec<char>>| o@) =~= Seq::<
            ObjectDesc<Seq<char>>,
        >::empty());
        assert(scene_from_text(contents@) == add_items(os, 0, init));
        while t < oidx.len()
            invariant
                scene_from_text(contents@) == add_items(os, 0, init),
                t <= oidx@.len(),
                os == oidx@.map_values(|j: usize| m[j as int]),
                m == paras_model(paras@),
                m.len() == n,
                n == paras@.len(),
                forall|u: int| 0 <= u < oidx@.len() ==> #[trigger] oidx@[u] < n,
                add_items(os, 0, init) == add_items(
                    os,
                    t as int,
                    SceneModel {
                        env,
                        lights: lights@.map_values(|l: LightDesc<Vec<char>>| l@),
                        objects: objects@.map_values(|o: ObjectDesc<Vec<char>>| o@),
                    },
                ),
            decreases oidx@.len() - t,
        {
            let p = &paras[oidx[t]];
            assert(os[t as int] == para_model(*p));
            if eq_str(&p.kind, "light") {
                match light_of(p) {
                    Ok(l) => {
                        proof {
                            assert(lights@.push(l).map_values(|l: LightDesc<Vec<char>>| l@)
                                =~= lights@.map_values(|l: LightDesc<Vec<char>>| l@).push(l@));
                        }
                        lights.push(l);
                    },
                    Err(e) => return Err(e),
                }
            } else if eq_str(&p.kind, "object") {
                match object_of(p) {
                    Ok(o) => {
                        proof {
                            assert(objects@.push(o).map_values(|o: ObjectDesc<Vec<char>>| o@)
                                =~= objects@.map_values(|o: ObjectDesc<Vec<char>>| o@).push(o@));
                        }
                        objects.push(o);
                    },
                    Err(e) => return Err(e),
                }
            } else if eq_str(&p.kind, "material") {
                match material_of(p) {
                    Ok(_) => return error(ParseErrorKind::MaterialOnItsOwn, p.start_line),
                    Err(e) => return Err(e),
                }
            } else {
                return error(ParseErrorKind::InvalidParagraphKind(copy_chars(&p.kind)), p.start_line);
            }
            t += 1;
        }
        Ok(SceneDesc { env, lights, objects })
    }
}

} // verus!
