use vstd::prelude::*;

use crate::error::DecodeError;
use crate::names::{dedup_first, fold_name, printable_name};
use crate::save::{generation_of, Generation, SaveHeader, SaveModel};

verus! {

/// The magic signature at offset 0 of every save file.
pub open spec fn magic() -> Seq<u8> {
    seq![0x54u8, 0x45, 0x53, 0x56, 0x5f, 0x53, 0x41, 0x56, 0x45, 0x47, 0x41, 0x4d, 0x45]
}

/// The buffer begins with the magic signature.
pub open spec fn magic_matches(b: Seq<u8>) -> bool {
    b.len() >= 13 && b.subrange(0, 13) == magic()
}

/// The little-endian 16-bit integer at offset `i`.
pub open spec fn le16_at(b: Seq<u8>, i: int) -> int {
    b[i] + 0x100 * b[i + 1]
}

/// The little-endian 32-bit integer at offset `i`.
pub open spec fn le32_at(b: Seq<u8>, i: int) -> int {
    b[i] + 0x100 * b[i + 1] + 0x10000 * b[i + 2] + 0x1000000 * b[i + 3]
}

/// The little-endian bytes of a 16-bit integer.
pub open spec fn le16_bytes(v: int) -> Seq<u8> {
    seq![(v % 0x100) as u8, ((v / 0x100) % 0x100) as u8]
}

/// The little-endian bytes of a 32-bit integer.
pub open spec fn le32_bytes(v: int) -> Seq<u8> {
    seq![
        (v % 0x100) as u8,
        ((v / 0x100) % 0x100) as u8,
        ((v / 0x10000) % 0x100) as u8,
        ((v / 0x1000000) % 0x100) as u8,
    ]
}

/// Reads `n` length-prefixed plugin names starting at `pos`: each entry is a
/// 16-bit little-endian length followed by that many bytes, which must be a
/// non-empty printable name. Yields the case-folded names in order and the
/// offset just past the table.
pub open spec fn parse_names(b: Seq<u8>, pos: int, n: nat) -> Result<
    (Seq<Seq<u8>>, int),
    DecodeError,
>
    decreases n,
{
    if n == 0 {
        Ok((Seq::empty(), pos))
    } else if pos + 2 > b.len() {
        Err(DecodeError::TruncatedManifest)
    } else {
        let len = le16_at(b, pos);
        if pos + 2 + len > b.len() {
            Err(DecodeError::TruncatedManifest)
        } else {
            let raw = b.subrange(pos + 2, pos + 2 + len);
            if raw.len() == 0 || !printable_name(raw) {
                Err(DecodeError::MalformedPluginName)
            } else {
                match parse_names(b, pos + 2 + len, (n - 1) as nat) {
                    Ok((rest, end)) => Ok((seq![fold_name(raw)] + rest, end)),
                    Err(e) => Err(e),
                }
            }
        }
    }
}

/// The offset of the plugin table: just past the magic, the header-size
/// field, and the declared header body.
pub open spec fn table_start(b: Seq<u8>) -> int {
    17 + le32_at(b, 13)
}

/// The offset just past the declared plugin data: the end of the plugin
/// table, or of the light-plugin table for the newer generation. Meaningful
/// when decoding succeeds.
pub open spec fn table_end(b: Seq<u8>) -> int {
    let table = table_start(b);
    let count = b[table];
    let end = parse_names(b, table + 1, count as nat)->Ok_0.1;
    if generation_of(le32_at(b, 17) as u32) == Generation::SpecialEdition {
        let light_count = le16_at(b, end);
        parse_names(b, end + 2, light_count as nat)->Ok_0.1
    } else {
        end
    }
}

/// What decoding a byte buffer yields: the header summary and the two plugin
/// tables, or the first error the single forward pass meets.
pub open spec fn spec_decode(b: Seq<u8>) -> Result<SaveModel, DecodeError> {
    if !magic_matches(b) {
        Err(DecodeError::NotASaveFile)
    } else if b.len() < 17 {
        Err(DecodeError::UnexpectedEndOfData)
    } else {
        let header_size = le32_at(b, 13);
        if header_size < 8 || 17 + header_size > b.len() {
            Err(DecodeError::UnexpectedEndOfData)
        } else {
            let engine_version = le32_at(b, 17) as u32;
            let format_version = le32_at(b, 21) as u32;
            let generation = generation_of(engine_version);
            let table = 17 + header_size;
            if table + 1 > b.len() {
                Err(DecodeError::TruncatedManifest)
            } else {
                let count = b[table];
                match parse_names(b, table + 1, count as nat) {
                    Err(e) => Err(e),
                    Ok((names, end)) => {
                        let header = SaveHeader { generation, engine_version, format_version };
                        if generation == Generation::SpecialEdition {
                            if end + 2 > b.len() {
                                Err(DecodeError::TruncatedManifest)
                            } else {
                                let light_count = le16_at(b, end);
                                match parse_names(b, end + 2, light_count as nat) {
                                    Err(e) => Err(e),
                                    Ok((light_names, _light_end)) => Ok(
                                        SaveModel {
                                            header,
                                            plugins: dedup_first(names),
                                            light_plugins: dedup_first(light_names),
                                        },
                                    ),
                                }
                            }
                        } else {
                            Ok(
                                SaveModel {
                                    header,
                                    plugins: dedup_first(names),
                                    light_plugins: Seq::empty(),
                                },
                            )
                        }
                    },
                }
            }
        }
    }
}

/// The encoded form of one plugin table, without its count field.
pub open spec fn encode_names(names: Seq<Seq<u8>>) -> Seq<u8>
    decreases names.len(),
{
    if names.len() == 0 {
        Seq::empty()
    } else {
        le16_bytes(names.first().len() as int) + names.first() + encode_names(names.drop_first())
    }
}

/// The canonical encoding of a save model: magic, a minimal header of the
/// two version fields, the plugin table, and — for the newer generation —
/// the light-plugin table.
pub open spec fn spec_encode(v: SaveModel) -> Seq<u8> {
    magic() + le32_bytes(8) + le32_bytes(v.header.engine_version as int) + le32_bytes(
        v.header.format_version as int,
    ) + seq![v.plugins.len() as u8] + encode_names(v.plugins) + (
    if v.header.generation == Generation::SpecialEdition {
        le16_bytes(v.light_plugins.len() as int) + encode_names(v.light_plugins)
    } else {
        Seq::empty()
    })
}

} // verus!
