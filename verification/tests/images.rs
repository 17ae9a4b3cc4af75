use oxideav_pdf::images::ColorSpace;
use oxideav_pdf::objects::Object;

#[test]
fn color_space_from_name_recognises_devicergb() {
    assert_eq!(
        ColorSpace::from_object(&Object::Name("DeviceRGB".into())),
        ColorSpace::DeviceRGB
    );
    assert_eq!(
        ColorSpace::from_object(&Object::Name("DeviceCMYK".into())),
        ColorSpace::DeviceCMYK
    );
    assert_eq!(
        ColorSpace::from_object(&Object::Name("DeviceGray".into())),
        ColorSpace::DeviceGray
    );
}

#[test]
fn color_space_from_indexed_array() {
    let cs = Object::Array(vec![
        Object::Name("Indexed".into()),
        Object::Name("DeviceRGB".into()),
        Object::Integer(255),
        Object::HexString(b"".to_vec()),
    ]);
    assert_eq!(ColorSpace::from_object(&cs), ColorSpace::Indexed);
}
