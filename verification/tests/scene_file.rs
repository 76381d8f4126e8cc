use raytracer::scene::{ColourValue, EnvKind, LightDesc, MaterialDesc, ObjectDesc, SceneDesc, Triple};
use raytracer::scene_file::{ParseError, ParseErrorKind, SceneFile};

fn text(v: &[char]) -> String {
    v.iter().collect()
}

fn read(src: &str) -> Result<SceneDesc, ParseError<Vec<char>>> {
    SceneFile::from_contents(src.to_string())
}

fn err_of(src: &str) -> (ParseErrorKind<Vec<char>>, u32) {
    match read(src) {
        Ok(_) => panic!("expected an error"),
        Err(e) => (e.kind, e.line),
    }
}

fn triple(t: &Triple<Vec<char>>) -> (String, String, String) {
    (text(&t.x), text(&t.y), text(&t.z))
}

#[test]
fn empty_file_is_a_plain_scene() {
    let s = read("").unwrap();
    assert_eq!(s.env, EnvKind::Scene);
    assert!(s.lights.is_empty());
    assert!(s.objects.is_empty());
}

#[test]
fn full_scene_is_read_in_order() {
    let src = "\
# a test scene
scene PhotonScene

light Point
  position 1 2 3

light Directional
  direction 0 -1 0
  colour White

object Sphere
  centre 0 0 5
  radius 1.5
  material Simple
    colour 1 0 0
    reflectiveness 0.25

object Plane
  point 0 -1 0
  up 0 0 1
  normal 0 1 0
  material Monochrome
    colour 0.5
    shininess 20
";
    let s = read(src).unwrap();
    assert_eq!(s.env, EnvKind::PhotonScene);
    assert_eq!(s.lights.len(), 2);
    match &s.lights[0] {
        LightDesc::Point { position, colour } => {
            assert_eq!(triple(position), ("1".into(), "2".into(), "3".into()));
            match colour {
                ColourValue::Rgb(c) => assert_eq!(triple(c), ("1.0".into(), "1.0".into(), "1.0".into())),
                _ => panic!("default colour is the number 1"),
            }
        }
        _ => panic!("first light is a point light"),
    }
    match &s.lights[1] {
        LightDesc::Directional { direction, colour } => {
            assert_eq!(triple(direction), ("0".into(), "-1".into(), "0".into()));
            assert!(matches!(colour, ColourValue::White));
        }
        _ => panic!("second light is directional"),
    }
    assert_eq!(s.objects.len(), 2);
    match &s.objects[0] {
        ObjectDesc::Sphere { centre, radius, material } => {
            assert_eq!(triple(centre), ("0".into(), "0".into(), "5".into()));
            assert_eq!(text(radius), "1.5");
            match material {
                MaterialDesc::Simple { colour, reflectiveness } => {
                    assert_eq!(text(reflectiveness), "0.25");
                    match colour {
                        ColourValue::Rgb(c) => assert_eq!(triple(c), ("1".into(), "0".into(), "0".into())),
                        _ => panic!("rgb colour"),
                    }
                }
                _ => panic!("simple material"),
            }
        }
        _ => panic!("first object is a sphere"),
    }
    match &s.objects[1] {
        ObjectDesc::Plane { point, up, normal, material } => {
            assert_eq!(triple(point), ("0".into(), "-1".into(), "0".into()));
            assert_eq!(triple(up), ("0".into(), "0".into(), "1".into()));
            assert_eq!(triple(normal), ("0".into(), "1".into(), "0".into()));
            match material {
                MaterialDesc::Monochrome { colour, ambient, shininess } => {
                    assert_eq!(text(ambient), "0.1");
                    assert_eq!(text(shininess), "20");
                    match colour {
                        ColourValue::Rgb(c) => assert_eq!(triple(c), ("0.5".into(), "0.5".into(), "0.5".into())),
                        _ => panic!("grey colour"),
                    }
                }
                _ => panic!("monochrome material"),
            }
        }
        _ => panic!("second object is a plane"),
    }
}

#[test]
fn quadratic_coefficients_default_to_zero() {
    let src = "object Quadratic\n  a 1\n  h 1\n  j -1\n  material FalseColour\n    x y\n";
    let s = read(src).unwrap();
    match &s.objects[0] {
        ObjectDesc::Quadratic { coefficients, material } => {
            assert_eq!(text(&coefficients.a), "1");
            assert_eq!(text(&coefficients.b), "0.0");
            assert_eq!(text(&coefficients.h), "1");
            assert_eq!(text(&coefficients.j), "-1");
            assert!(matches!(material, MaterialDesc::FalseColour));
        }
        _ => panic!("quadratic"),
    }
}

#[test]
fn later_attribute_hides_earlier_one() {
    let src = "light Point\n  position 1 1 1\n  position 2\n";
    let s = read(src).unwrap();
    match &s.lights[0] {
        LightDesc::Point { position, .. } => assert_eq!(triple(position), ("2".into(), "2".into(), "2".into())),
        _ => panic!("point light"),
    }
}

#[test]
fn windows_line_endings_are_accepted() {
    let s = read("scene Scene\r\n\r\nlight Point\r\n  position 1 2 3\r\n").unwrap();
    assert_eq!(s.env, EnvKind::Scene);
    assert_eq!(s.lights.len(), 1);
}

#[test]
fn textured_and_transparent_materials() {
    let src = "object Cuboid\n  corner 0 0 0\n  size 1 2 3\n  material Texture\n    name bricks\n    scale 2\n    ambient 0.2\n    shininess 5\n\nobject Sphere\n  centre 0\n  radius 1\n  material Transparent\n    colour Black\n    transparency 0.9\n    ior 1.5\n";
    let s = read(src).unwrap();
    match &s.objects[0] {
        ObjectDesc::Cuboid { size, material: MaterialDesc::Texture { name, scale, ambient, shininess }, .. } => {
            assert_eq!(triple(size), ("1".into(), "2".into(), "3".into()));
            assert_eq!(text(name), "bricks");
            assert_eq!(text(scale), "2");
            assert_eq!(text(ambient), "0.2");
            assert_eq!(text(shininess), "5");
        }
        _ => panic!("textured cuboid"),
    }
    match &s.objects[1] {
        ObjectDesc::Sphere { centre, material: MaterialDesc::Transparent { colour, transparency, ior }, .. } => {
            assert_eq!(triple(centre), ("0".into(), "0".into(), "0".into()));
            assert!(matches!(colour, ColourValue::Black));
            assert_eq!(text(transparency), "0.9");
            assert_eq!(text(ior), "1.5");
        }
        _ => panic!("transparent sphere"),
    }
}

#[test]
fn global_material_and_dirpoint_light() {
    let src = "light DirPoint\n  position 0 5 0\n  direction 0 -1 0\n  colour 0.5 0.5 0.5\n\nobject Sphere\n  centre 1 1 1\n  radius 2\n  material Global\n    reflect 0.5\n    refract 0.5\n    ior 1.33\n";
    let s = read(src).unwrap();
    assert!(matches!(&s.lights[0], LightDesc::DirPoint { .. }));
    match &s.objects[0] {
        ObjectDesc::Sphere { material: MaterialDesc::Global { reflect, refract, ior }, .. } => {
            assert_eq!(text(reflect), "0.5");
            assert_eq!(text(refract), "0.5");
            assert_eq!(text(ior), "1.33");
        }
        _ => panic!("global sphere"),
    }
}

#[test]
fn error_started_without_blank_line() {
    assert!(matches!(err_of("  light Point\n"), (ParseErrorKind::NoBlankLineBeforeParagraph, 1)));
    assert!(matches!(
        err_of("light Point\n  position 1 2 3\nobject Sphere\n"),
        (ParseErrorKind::NoBlankLineBeforeParagraph, 3)
    ));
}

#[test]
fn error_header_word_counts() {
    assert!(matches!(err_of("light\n"), (ParseErrorKind::MissingParagraphClass, 1)));
    match err_of("\nlight Point extra\n") {
        (ParseErrorKind::TooManyWords(w), 2) => assert_eq!(text(&w), "extra"),
        other => panic!("unexpected {:?}", other),
    }
}

#[test]
fn error_invalid_float_and_word_count() {
    assert!(matches!(err_of("light Point\n  position 1 x 3\n"), (ParseErrorKind::InvalidFloat, 2)));
    match err_of("light Point\n  position 1 2\n") {
        (ParseErrorKind::InvalidWordCount(line), 2) => assert_eq!(text(&line), "  position 1 2"),
        other => panic!("unexpected {:?}", other),
    }
}

#[test]
fn error_invalid_kinds_and_classes() {
    match err_of("thing Point\n") {
        (ParseErrorKind::InvalidParagraphKind(k), 1) => assert_eq!(text(&k), "thing"),
        other => panic!("unexpected {:?}", other),
    }
    assert!(matches!(err_of("scene Other\n"), (ParseErrorKind::InvalidSceneClass(_), 1)));
    assert!(matches!(err_of("light Spot\n"), (ParseErrorKind::InvalidLightClass(_), 1)));
    assert!(matches!(err_of("object Torus\n"), (ParseErrorKind::InvalidObjectClass(_), 1)));
    assert!(matches!(
        err_of("object Sphere\n  centre 0\n  radius 1\n  material Wood\n    x 1\n"),
        (ParseErrorKind::InvalidMaterialClass(_), 4)
    ));
}

#[test]
fn error_missing_attribute_is_reported_at_the_paragraph() {
    match err_of("\n\nlight Point\n  colour 1\n") {
        (ParseErrorKind::MissingAttribute(k), 3) => assert_eq!(text(&k), "position"),
        other => panic!("unexpected {:?}", other),
    }
}

#[test]
fn error_wrong_attribute_value_kinds() {
    assert!(matches!(err_of("light Point\n  position here\n"), (ParseErrorKind::NotAVector, 2)));
    assert!(matches!(
        err_of("object Sphere\n  centre 0\n  radius big\n"),
        (ParseErrorKind::NotAFloat, 3)
    ));
    assert!(matches!(
        err_of("object Sphere\n  centre 0\n  radius 1\n  material 3\n"),
        (ParseErrorKind::NotAMaterial, 4)
    ));
    assert!(matches!(
        err_of("light Point\n  position 0\n  colour Purple\n"),
        (ParseErrorKind::UnknownColourName(_), 3)
    ));
    assert!(matches!(
        err_of("light Point\n  position 0\n  colour sub\n    a 1\n"),
        (ParseErrorKind::NotAColour, 3)
    ));
    assert!(matches!(
        err_of("object Cuboid\n  corner 0\n  size 1\n  material Texture\n    name 7\n"),
        (ParseErrorKind::NotAWord, 5)
    ));
}

#[test]
fn error_multiple_scenes_and_lone_material() {
    assert!(matches!(err_of("scene Scene\n\nscene PhotonScene\n"), (ParseErrorKind::MultipleScenes, 3)));
    assert!(matches!(err_of("material FalseColour\n"), (ParseErrorKind::MaterialOnItsOwn, 1)));
}

#[test]
fn indented_comment_is_not_a_comment() {
    assert!(matches!(err_of("  # note\n"), (ParseErrorKind::NoBlankLineBeforeParagraph, 1)));
}
