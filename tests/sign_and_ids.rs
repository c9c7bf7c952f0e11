use bevy_cryotheum::material_toml::{MaterialTomlClearcoatMode, MaterialTomlNormalsYDir};
use bevy_cryotheum::registry::{RegistryId, RegistryIdError};
use bevy_cryotheum::sign::Sign;
use bevy_cryotheum::utils::{alpha_numeric_byte, IsAlphaNumeric};

struct Marker;
struct Other;

#[test]
fn sign_wraps_and_unwraps() {
    let s: Sign<u32, Marker> = Sign::new(5);
    assert_eq!(*s.inner(), 5);
    let t: Sign<u32, Other> = s.map_phantom::<Other>();
    assert_eq!(t.take(), 5);
    let f: Sign<u64, Marker> = Sign::from(7u32);
    assert_eq!(f.take(), 7);
    let mut g = Sign::<String, Marker>::signed::<Other>(String::from("x"));
    g.inner_mut().push('y');
    assert_eq!(g.clone().take(), "xy");
    let _ = g.phantom();
    let _ = g.take_phantom();
    let d: Sign<u8, u16> = Sign::new(1);
    assert_eq!(d.default_phantom_instance(), 0);
}

#[test]
fn normals_flip_only_for_directx() {
    assert!(!MaterialTomlNormalsYDir::OpenGL.should_flip());
    assert!(MaterialTomlNormalsYDir::DirectX.should_flip());
    assert_eq!(MaterialTomlNormalsYDir::default(), MaterialTomlNormalsYDir::OpenGL);
    assert_eq!(MaterialTomlClearcoatMode::default(), MaterialTomlClearcoatMode::CustomNormal);
}

#[test]
fn registry_id_parts() {
    let id = RegistryId::new(String::from("core"), String::from("stone"));
    assert_eq!(id.id(), "core:stone");
    assert_eq!(id.source(), "core");
    assert_eq!(id.name(), "stone");
    assert!(id == id.clone());
}

#[test]
fn registry_id_parse() {
    let id = RegistryId::parse("mod_1:iron_ore").unwrap();
    assert_eq!(id.source(), "mod_1");
    assert_eq!(id.name(), "iron_ore");
    assert_eq!(RegistryId::parse("é:b").err(), Some(RegistryIdError::NotAscii));
    assert_eq!(RegistryId::parse("Core:b").err(), Some(RegistryIdError::NotLowercase));
    assert_eq!(RegistryId::parse("core").err(), Some(RegistryIdError::MissingSeparator));
    assert_eq!(RegistryId::parse("a:b:c").err(), Some(RegistryIdError::MissingSeparator));
    assert_eq!(RegistryId::parse(":b").err(), Some(RegistryIdError::BadStart));
    assert_eq!(RegistryId::parse("a:").err(), Some(RegistryIdError::BadStart));
    assert_eq!(RegistryId::parse("1a:b").err(), Some(RegistryIdError::BadStart));
    assert_eq!(RegistryId::parse("a-b:c").err(), Some(RegistryIdError::NotAlphaNumeric));
}

#[test]
fn alpha_numeric_checks() {
    assert!("abc_XYZ_09".is_alpha_numeric());
    assert!(!"ab c".is_alpha_numeric());
    assert!(String::from("q1").is_alpha_numeric());
    assert!(!String::from("q!").is_alpha_numeric());
    assert!(b'_'.is_alpha_numeric());
    assert!(!b'-'.is_alpha_numeric());
    assert!(65usize.is_alpha_numeric());
    assert!(!300usize.is_alpha_numeric());
    assert!(alpha_numeric_byte(b'z'));
}
