//! What a scene file describes: the environment, its lights and its objects,
//! each with the attribute values written in the file. Numbers are kept as
//! the literal text that the file holds (a word that `f32::from_str`
//! accepts); turning them into floating-point values is left to the renderer.
use vstd::prelude::*;

verus! {

/// Three values given on one attribute line (a vector, a vertex or a colour).
#[derive(Clone, Debug)]
pub struct Triple<T> {
    pub x: T,
    pub y: T,
    pub z: T,
}

/// A colour attribute: three components, or one of the two named colours.
#[derive(Clone, Debug)]
pub enum ColourValue<T> {
    Rgb(Triple<T>),
    White,
    Black,
}

/// A material paragraph.
#[derive(Clone, Debug)]
pub enum MaterialDesc<T> {
    Simple { colour: ColourValue<T>, reflectiveness: T },
    Transparent { colour: ColourValue<T>, transparency: T, ior: T },
    Global { reflect: T, refract: T, ior: T },
    Monochrome { colour: ColourValue<T>, ambient: T, shininess: T },
    Texture { name: T, scale: T, ambient: T, shininess: T },
    FalseColour,
}

/// The ten coefficients of a quadratic surface
/// `ax^2 + 2bxy + 2cxz + 2dx + ey^2 + 2fyz + 2gy + hz^2 + 2iz + j = 0`.
#[derive(Clone, Debug)]
pub struct Coefficients<T> {
    pub a: T,
    pub b: T,
    pub c: T,
    pub d: T,
    pub e: T,
    pub f: T,
    pub g: T,
    pub h: T,
    pub i: T,
    pub j: T,
}

/// An object paragraph.
#[derive(Clone, Debug)]
pub enum ObjectDesc<T> {
    Plane { point: Triple<T>, up: Triple<T>, normal: Triple<T>, material: MaterialDesc<T> },
    Sphere { centre: Triple<T>, radius: T, material: MaterialDesc<T> },
    Cuboid { corner: Triple<T>, size: Triple<T>, material: MaterialDesc<T> },
    Quadratic { coefficients: Coefficients<T>, material: MaterialDesc<T> },
}

/// A light paragraph.
#[derive(Clone, Debug)]
pub enum LightDesc<T> {
    Directional { direction: Triple<T>, colour: ColourValue<T> },
    Point { position: Triple<T>, colour: ColourValue<T> },
    DirPoint { position: Triple<T>, direction: Triple<T>, colour: ColourValue<T> },
}

/// Which environment renders the scene.
#[derive(Clone, Copy, Debug, PartialEq, Eq, Structural)]
pub enum EnvKind {
    Scene,
    PhotonScene,
}

/// A whole scene file: the environment, then the lights and the objects in
/// the order in which the file gives them.
#[derive(Clone, Debug)]
pub struct SceneDesc {
    pub env: EnvKind,
    pub lights: Vec<LightDesc<Vec<char>>>,
    pub objects: Vec<ObjectDesc<Vec<char>>>,
}

/// The mathematical content of a [`SceneDesc`].
pub struct SceneModel {
    pub env: EnvKind,
    pub lights: Seq<LightDesc<Seq<char>>>,
    pub objects: Seq<ObjectDesc<Seq<char>>>,
}

impl<T: View> View for Triple<T> {
    type V = Triple<T::V>;

    open spec fn view(&self) -> Triple<T::V> {
        Triple { x: self.x@, y: self.y@, z: self.z@ }
    }
}

impl<T: View> View for ColourValue<T> {
    type V = ColourValue<T::V>;

    open spec fn view(&self) -> ColourValue<T::V> {
        match self {
            ColourValue::Rgb(t) => ColourValue::Rgb(t@),
            ColourValue::White => ColourValue::White,
            ColourValue::Black => ColourValue::Black,
        }
    }
}

impl<T: View> View for MaterialDesc<T> {
    type V = MaterialDesc<T::V>;

    open spec fn view(&self) -> MaterialDesc<T::V> {
        match self {
            MaterialDesc::Simple { colour, reflectiveness } => MaterialDesc::Simple {
                colour: colour@,
                reflectiveness: reflectiveness@,
            },
            MaterialDesc::Transparent { colour, transparency, ior } => MaterialDesc::Transparent {
                colour: colour@,
                transparency: transparency@,
                ior: ior@,
            },
            MaterialDesc::Global { reflect, refract, ior } => MaterialDesc::Global {
                reflect: reflect@,
                refract: refract@,
                ior: ior@,
            },
            MaterialDesc::Monochrome { colour, ambient, shininess } => MaterialDesc::Monochrome {
                colour: colour@,
                ambient: ambient@,
                shininess: shininess@,
            },
            MaterialDesc::Texture { name, scale, ambient, shininess } => MaterialDesc::Texture {
                name: name@,
                scale: scale@,
                ambient: ambient@,
                shininess: shininess@,
            },
            MaterialDesc::FalseColour => MaterialDesc::FalseColour,
        }
    }
}

impl<T: View> View for Coefficients<T> {
    type V = Coefficients<T::V>;

    open spec fn view(&self) -> Coefficients<T::V> {
        Coefficients {
            a: self.a@,
            b: self.b@,
            c: self.c@,
            d: self.d@,
            e: self.e@,
            f: self.f@,
            g: self.g@,
            h: self.h@,
            i: self.i@,
            j: self.j@,
        }
    }
}

impl<T: View> View for ObjectDesc<T> {
    type V = ObjectDesc<T::V>;

    open spec fn view(&self) -> ObjectDesc<T::V> {
        match self {
            ObjectDesc::Plane { point, up, normal, material } => ObjectDesc::Plane {
                point: point@,
                up: up@,
                normal: normal@,
                material: material@,
            },
            ObjectDesc::Sphere { centre, radius, material } => ObjectDesc::Sphere {
                centre: centre@,
                radius: radius@,
                material: material@,
            },
            ObjectDesc::Cuboid { corner, size, material } => ObjectDesc::Cuboid {
                corner: corner@,
                size: size@,
                material: material@,
            },
            ObjectDesc::Quadratic { coefficients, material } => ObjectDesc::Quadratic {
                coefficients: coefficients@,
                material: material@,
            },
        }
    }
}

impl<T: View> View for LightDesc<T> {
    type V = LightDesc<T::V>;

    open spec fn view(&self) -> LightDesc<T::V> {
        match self {
            LightDesc::Directional { direction, colour } => LightDesc::Directional {
                direction: direction@,
                colour: colour@,
            },
            LightDesc::Point { position, colour } => LightDesc::Point {
                position: position@,
                colour: colour@,
            },
            LightDesc::DirPoint { position, direction, colour } => LightDesc::DirPoint {
                position: position@,
                direction: direction@,
                colour: colour@,
            },
        }
    }
}

impl View for EnvKind {
    type V = EnvKind;

    open spec fn view(&self) -> EnvKind {
        *self
    }
}

impl View for SceneDesc {
    type V = SceneModel;

    open spec fn view(&self) -> SceneModel {
        SceneModel {
            env: self.env,
            lights: self.lights@.map_values(|l: LightDesc<Vec<char>>| l@),
            objects: self.objects@.map_values(|o: ObjectDesc<Vec<char>>| o@),
        }
    }
}

} // verus!
