use kks_launcher::setup::{
    decode_setup_xml, save_setup_xml, setup_file_bytes, setup_xml_text, SetupConfig,
};

fn sample() -> SetupConfig {
    SetupConfig {
        size: "1920 x 1080 (16 : 9)".to_string(),
        width: 1920,
        height: 1080,
        quality: 2,
        full_screen: true,
        display: 0,
        language: -1,
    }
}

#[test]
fn setup_xml_text_layout() {
    assert_eq!(
        setup_xml_text(&sample()),
        "<?xml version=\"1.0\" encoding=\"utf-16\"?>\r\n<Setting>\r\n  <Size>1920 x 1080 (16 : 9)</Size>\r\n  <Width>1920</Width>\r\n  <Height>1080</Height>\r\n  <Quality>2</Quality>\r\n  <FullScreen>true</FullScreen>\r\n  <Display>0</Display>\r\n  <Language>-1</Language>\r\n</Setting>"
    );
}

#[test]
fn integer_extremes_in_xml() {
    let mut c = sample();
    c.width = i32::MIN;
    c.height = i32::MAX;
    c.full_screen = false;
    let t = setup_xml_text(&c);
    assert!(t.contains("<Width>-2147483648</Width>"));
    assert!(t.contains("<Height>2147483647</Height>"));
    assert!(t.contains("<FullScreen>false</FullScreen>"));
}

#[test]
fn setup_bytes_are_utf16le_with_bom() {
    let bytes = setup_file_bytes(&sample());
    let text = setup_xml_text(&sample());
    let mut expected: Vec<u8> = vec![0xFF, 0xFE];
    for u in text.encode_utf16() {
        expected.extend_from_slice(&u.to_le_bytes());
    }
    assert_eq!(bytes, expected);
}

#[test]
fn setup_read_back_declares_utf8() {
    let mut c = sample();
    c.size = "𝄞 größe".to_string();
    let bytes = setup_file_bytes(&c);
    let text = decode_setup_xml(&bytes).ok().unwrap();
    assert_eq!(text, setup_xml_text(&c).replace("encoding=\"utf-16\"", "encoding=\"utf-8\""));
    assert!(text.starts_with("<?xml version=\"1.0\" encoding=\"utf-8\"?>"));
}

#[test]
fn decode_without_bom_and_odd_byte() {
    let bytes = [b'a', 0, b'b', 0, 0x41];
    assert_eq!(decode_setup_xml(&bytes).ok().unwrap(), "ab");
}

#[test]
fn decode_surrogate_pair() {
    // U+1F600 is D83D DE00.
    let bytes = [0xFF, 0xFE, 0x3D, 0xD8, 0x00, 0xDE];
    assert_eq!(decode_setup_xml(&bytes).ok().unwrap(), "\u{1F600}");
}

#[test]
fn decode_lone_surrogate_is_error() {
    let bytes = [0x00, 0xDC, b'a', 0];
    assert_eq!(
        decode_setup_xml(&bytes).err().unwrap(),
        "Error al decodificar UTF-16: invalid utf-16: lone surrogate found"
    );
    let truncated = [0x3D, 0xD8];
    assert!(decode_setup_xml(&truncated).is_err());
}

#[test]
fn decode_error_text_matches_std() {
    let units = [0xDC00u16];
    let e = String::from_utf16(&units).err().unwrap();
    assert_eq!(format!("Error al decodificar UTF-16: {}", e), decode_setup_xml(&[0x00, 0xDC]).err().unwrap());
}

#[test]
fn every_declaration_is_rewritten() {
    let text = "encoding=\"utf-16\" x encoding=\"utf-16\"";
    let mut bytes = vec![];
    for u in text.encode_utf16() {
        bytes.extend_from_slice(&u.to_le_bytes());
    }
    assert_eq!(decode_setup_xml(&bytes).ok().unwrap(), "encoding=\"utf-8\" x encoding=\"utf-8\"");
}

#[test]
fn saving_settings() {
    let s = save_setup_xml(&sample(), "es");
    assert_eq!(s.bytes, setup_file_bytes(&sample()));
    assert!(s.update_language);
    assert_eq!(s.message, "Configuración guardada correctamente.");
    assert!(!save_setup_xml(&sample(), "").update_language);
}
