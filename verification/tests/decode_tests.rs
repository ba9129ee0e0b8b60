use arcanaeum::cursor::ByteCursor;
use arcanaeum::decode::decode_save;
use arcanaeum::encode::encode_save;
use arcanaeum::error::DecodeError;
use arcanaeum::save::Generation;

fn push_entry(buf: &mut Vec<u8>, name: &str) {
    buf.extend_from_slice(&(name.len() as u16).to_le_bytes());
    buf.extend_from_slice(name.as_bytes());
}

fn save_bytes(engine_version: u32, format_version: u32, plugins: &[&str], lights: &[&str]) -> Vec<u8> {
    let mut buf = b"TESV_SAVEGAME".to_vec();
    buf.extend_from_slice(&8u32.to_le_bytes());
    buf.extend_from_slice(&engine_version.to_le_bytes());
    buf.extend_from_slice(&format_version.to_le_bytes());
    buf.push(plugins.len() as u8);
    for p in plugins {
        push_entry(&mut buf, p);
    }
    if engine_version >= 12 {
        buf.extend_from_slice(&(lights.len() as u16).to_le_bytes());
        for l in lights {
            push_entry(&mut buf, l);
        }
    }
    buf
}

fn names(list: &[&str]) -> Vec<Vec<u8>> {
    list.iter().map(|s| s.as_bytes().to_vec()).collect()
}

#[test]
fn decodes_se_save_with_plugins() {
    let buf = save_bytes(12, 74, &["Skyrim.esm", "Update.esm"], &["QuickLight.esl"]);
    let info = decode_save(&buf).expect("valid save");
    assert_eq!(info.header.generation, Generation::SpecialEdition);
    assert_eq!(info.header.engine_version, 12);
    assert_eq!(info.header.format_version, 74);
    assert!(info.header.is_se());
    assert_eq!(info.plugin_info.plugins, names(&["skyrim.esm", "update.esm"]));
    assert_eq!(info.plugin_info.light_plugins, names(&["quicklight.esl"]));
}

#[test]
fn decodes_legacy_save_without_light_table() {
    let buf = save_bytes(9, 64, &["Skyrim.esm", "Falskaar.esm"], &[]);
    let info = decode_save(&buf).expect("valid save");
    assert_eq!(info.header.generation, Generation::LegacyEngine);
    assert!(!info.header.is_se());
    assert_eq!(info.plugin_info.plugins, names(&["skyrim.esm", "falskaar.esm"]));
    assert!(info.plugin_info.light_plugins.is_empty());
}

#[test]
fn round_trip_special_edition() {
    let buf = save_bytes(12, 74, &["Skyrim.esm", "Update.esm", "Dawnguard.esm"], &["Tiny.esl"]);
    let info = decode_save(&buf).expect("valid save");
    let encoded = encode_save(&info);
    let again = decode_save(&encoded).expect("re-encoded save decodes");
    assert_eq!(info, again);
}

#[test]
fn round_trip_legacy() {
    let buf = save_bytes(7, 64, &["Skyrim.esm"], &[]);
    let info = decode_save(&buf).expect("valid save");
    let encoded = decode_save(&encode_save(&info)).expect("re-encoded save decodes");
    assert_eq!(info, encoded);
}

#[test]
fn zero_plugin_count_is_empty_not_error() {
    let legacy = save_bytes(9, 64, &[], &[]);
    let info = decode_save(&legacy).expect("zero count decodes");
    assert!(info.plugin_info.plugins.is_empty());
    let se = save_bytes(12, 74, &[], &[]);
    let info = decode_save(&se).expect("zero count decodes");
    assert!(info.plugin_info.plugins.is_empty());
    assert!(info.plugin_info.light_plugins.is_empty());
}

#[test]
fn truncation_inside_plugin_table_fails() {
    let buf = save_bytes(12, 74, &["Skyrim.esm", "Update.esm"], &["Tiny.esl"]);
    for k in 25..buf.len() {
        let cut = buf[..k].to_vec();
        assert_eq!(
            decode_save(&cut),
            Err(DecodeError::TruncatedManifest),
            "cut at {}",
            k
        );
    }
}

#[test]
fn truncation_inside_header_fails() {
    let buf = save_bytes(9, 64, &["Skyrim.esm"], &[]);
    for k in 13..25 {
        let cut = buf[..k].to_vec();
        assert_eq!(
            decode_save(&cut),
            Err(DecodeError::UnexpectedEndOfData),
            "cut at {}",
            k
        );
    }
}

#[test]
fn wrong_magic_is_not_a_save_file() {
    assert_eq!(decode_save(&Vec::new()), Err(DecodeError::NotASaveFile));
    assert_eq!(decode_save(&b"TESV".to_vec()), Err(DecodeError::NotASaveFile));
    let mut buf = save_bytes(12, 74, &["Skyrim.esm"], &[]);
    buf[0] = b'X';
    assert_eq!(decode_save(&buf), Err(DecodeError::NotASaveFile));
    let long = vec![0u8; 4096];
    assert_eq!(decode_save(&long), Err(DecodeError::NotASaveFile));
}

#[test]
fn unprintable_plugin_name_is_malformed() {
    let mut buf = save_bytes(9, 64, &[], &[]);
    let count_at = buf.len() - 1;
    buf[count_at] = 1;
    buf.extend_from_slice(&3u16.to_le_bytes());
    buf.extend_from_slice(&[b'a', 0x07, b'b']);
    assert_eq!(decode_save(&buf), Err(DecodeError::MalformedPluginName));
}

#[test]
fn empty_plugin_name_is_malformed() {
    let mut buf = save_bytes(9, 64, &[], &[]);
    let count_at = buf.len() - 1;
    buf[count_at] = 1;
    buf.extend_from_slice(&0u16.to_le_bytes());
    assert_eq!(decode_save(&buf), Err(DecodeError::MalformedPluginName));
}

#[test]
fn duplicate_filenames_keep_first_seen() {
    let buf = save_bytes(9, 64, &["Update.esm", "UPDATE.ESM", "Other.esp"], &[]);
    let info = decode_save(&buf).expect("valid save");
    assert_eq!(info.plugin_info.plugins, names(&["update.esm", "other.esp"]));
}

#[test]
fn short_declared_header_is_rejected() {
    let mut buf = b"TESV_SAVEGAME".to_vec();
    buf.extend_from_slice(&4u32.to_le_bytes());
    buf.extend_from_slice(&[0u8; 64]);
    assert_eq!(decode_save(&buf), Err(DecodeError::UnexpectedEndOfData));
}

#[test]
fn header_padding_is_skipped() {
    let mut buf = b"TESV_SAVEGAME".to_vec();
    buf.extend_from_slice(&12u32.to_le_bytes());
    buf.extend_from_slice(&9u32.to_le_bytes());
    buf.extend_from_slice(&64u32.to_le_bytes());
    buf.extend_from_slice(&[0xAA; 4]);
    buf.push(1);
    push_entry(&mut buf, "Skyrim.esm");
    let info = decode_save(&buf).expect("padded header decodes");
    assert_eq!(info.plugin_info.plugins, names(&["skyrim.esm"]));
}

#[test]
fn trailing_payload_is_ignored() {
    let mut buf = save_bytes(9, 64, &["Skyrim.esm"], &[]);
    buf.extend_from_slice(&[0xFF; 100]);
    let info = decode_save(&buf).expect("payload after tables is opaque");
    assert_eq!(info.plugin_info.plugins, names(&["skyrim.esm"]));
}

#[test]
fn error_messages_are_readable() {
    assert_eq!(DecodeError::NotASaveFile.message(), "not a save file");
    assert_eq!(DecodeError::UnexpectedEndOfData.message(), "unexpected end of data");
    assert_eq!(
        DecodeError::TruncatedManifest.message(),
        "save file ends inside its plugin table"
    );
    assert_eq!(DecodeError::MalformedPluginName.message(), "malformed plugin filename");
}

#[test]
fn cursor_reads_little_endian() {
    let data = vec![0x01, 0x02, 0x03, 0x04, 0x05, 0x06, 0x07];
    let mut cur = ByteCursor::new(&data);
    assert_eq!(cur.read_u8(), Ok(0x01));
    assert_eq!(cur.read_u16_le(), Ok(0x0302));
    assert_eq!(cur.read_u32_le(), Ok(0x07060504));
    assert_eq!(cur.read_u8(), Err(DecodeError::UnexpectedEndOfData));
}

#[test]
fn cursor_rejects_reads_past_the_end() {
    let data = vec![0x01, 0x02];
    let mut cur = ByteCursor::new(&data);
    assert_eq!(cur.read_u32_le(), Err(DecodeError::UnexpectedEndOfData));
    assert_eq!(cur.position(), 0);
    assert_eq!(cur.read_exact(3), Err(DecodeError::UnexpectedEndOfData));
    assert_eq!(cur.read_exact(2), Ok(vec![0x01, 0x02]));
    assert_eq!(cur.skip(1), Err(DecodeError::UnexpectedEndOfData));
}
