use vstd::prelude::*;

use crate::codec::{le16_at, magic, magic_matches, parse_names, spec_decode};
use crate::cursor::ByteCursor;
use crate::error::DecodeError;
use crate::names::{
    dedup_first, dedup_names, fold_name, fold_name_vec, is_printable_name, lemma_dedup_distinct,
    lemma_dedup_membership, lemma_fold_props, names_eq, names_of, valid_name,
};
use crate::save::{generation_of, model_wf, Generation, PluginManifest, SaveHeader, SaveInfo,
    SaveModel, SE_MIN_ENGINE_VERSION};

verus! {

/// A parsed table has exactly `n` names, every one valid, and ends inside
/// the buffer.
pub proof fn lemma_parse_names_props(b: Seq<u8>, pos: int, n: nat)
    requires
        0 <= pos <= b.len(),
        parse_names(b, pos, n) is Ok,
    ensures
        parse_names(b, pos, n)->Ok_0.0.len() == n,
        forall|i: int|
            0 <= i < n ==> valid_name(#[trigger] parse_names(b, pos, n)->Ok_0.0[i]),
        pos <= parse_names(b, pos, n)->Ok_0.1 <= b.len(),
    decreases n,
{
    if n > 0 {
        let len = le16_at(b, pos);
        let raw = b.subrange(pos + 2, pos + 2 + len);
        lemma_fold_props(raw);
        lemma_parse_names_props(b, pos + 2 + len, (n - 1) as nat);
        let rest = parse_names(b, pos + 2 + len, (n - 1) as nat)->Ok_0.0;
        let whole = parse_names(b, pos, n)->Ok_0.0;
        assert(whole == seq![fold_name(raw)] + rest);
        assert(valid_name(whole[0]));
        assert forall|i: int| 0 <= i < n implies valid_name(#[trigger] whole[i]) by {
            if i > 0 {
                assert(whole[i] == rest[i - 1]);
            }
        }
    }
}

/// Whatever decoding returns is a well-formed save model.
pub proof fn lemma_decode_wf(b: Seq<u8>)
    requires
        spec_decode(b) is Ok,
    ensures
        model_wf(spec_decode(b)->Ok_0),
{
    let header_size = crate::codec::le32_at(b, 13);
    let table = 17 + header_size;
    let count = b[table];
    let names = parse_names(b, table + 1, count as nat)->Ok_0.0;
    let end = parse_names(b, table + 1, count as nat)->Ok_0.1;
    lemma_parse_names_props(b, table + 1, count as nat);
    lemma_dedup_distinct(names);
    lemma_dedup_membership(names);
    assert forall|i: int|
        0 <= i < dedup_first(names).len() implies valid_name(
        #[trigger] dedup_first(names)[i],
    ) by {
        assert(dedup_first(names).contains(dedup_first(names)[i]));
        assert(names.contains(dedup_first(names)[i]));
        let j = choose|j: int| 0 <= j < names.len() && names[j] == dedup_first(names)[i];
        assert(valid_name(names[j]));
    }
    let generation = generation_of(crate::codec::le32_at(b, 17) as u32);
    if generation == Generation::SpecialEdition {
        let light_count = le16_at(b, end);
        let light_names = parse_names(b, end + 2, light_count as nat)->Ok_0.0;
        lemma_parse_names_props(b, end + 2, light_count as nat);
        lemma_dedup_distinct(light_names);
        lemma_dedup_membership(light_names);
        assert forall|i: int|
            0 <= i < dedup_first(light_names).len() implies valid_name(
            #[trigger] dedup_first(light_names)[i],
        ) by {
            assert(dedup_first(light_names).contains(dedup_first(light_names)[i]));
            assert(light_names.contains(dedup_first(light_names)[i]));
            let j = choose|j: int|
                0 <= j < light_names.len() && light_names[j] == dedup_first(light_names)[i];
            assert(valid_name(light_names[j]));
        }
    }
}

/// Reads one plugin table of `n` length-prefixed names, case-folding each.
fn read_name_table(cur: &mut ByteCursor, n: usize) -> (r: Result<Vec<Vec<u8>>, DecodeError>)
    requires
        old(cur).wf(),
    ensures
        final(cur).wf(),
        final(cur).spec_data() == old(cur).spec_data(),
        match r {
            Ok(v) => parse_names(old(cur).spec_data(), old(cur).spec_pos(), n as nat)
                == Ok::<(Seq<Seq<u8>>, int), DecodeError>((names_of(v@), final(cur).spec_pos())),
            Err(e) => parse_names(old(cur).spec_data(), old(cur).spec_pos(), n as nat)
                == Err::<(Seq<Seq<u8>>, int), DecodeError>(e),
        },
{
    let ghost data = old(cur).spec_data();
    let ghost pos0 = old(cur).spec_pos();
    let mut acc: Vec<Vec<u8>> = Vec::new();
    let mut i: usize = 0;
    proof {
        assert(names_of(acc@) =~= Seq::<Seq<u8>>::empty());
        if parse_names(data, pos0, n as nat) is Ok {
            let p = parse_names(data, pos0, n as nat)->Ok_0;
            assert(names_of(acc@) + p.0 =~= p.0);
        }
    }
    while i < n
        invariant
            i <= n,
            cur.wf(),
            cur.spec_data() == data,
            data == old(cur).spec_data(),
            pos0 == old(cur).spec_pos(),
            match parse_names(data, cur.spec_pos(), (n - i) as nat) {
                Ok(p) => parse_names(data, pos0, n as nat) == Ok::<
                    (Seq<Seq<u8>>, int),
                    DecodeError,
                >((names_of(acc@) + p.0, p.1)),
                Err(e) => parse_names(data, pos0, n as nat) == Err::<
                    (Seq<Seq<u8>>, int),
                    DecodeError,
                >(e),
            },
        decreases n - i,
    {
        let ghost cpos = cur.spec_pos();
        let ghost m = (n - i) as nat;
        let len = match cur.read_u16_le() {
            Ok(l) => l,
            Err(_) => {
                assert(parse_names(data, cpos, m) == Err::<
                    (Seq<Seq<u8>>, int),
                    DecodeError,
                >(DecodeError::TruncatedManifest));
                return Err(DecodeError::TruncatedManifest);
            },
        };
        let raw = match cur.read_exact(len as usize) {
            Ok(v) => v,
            Err(_) => {
                assert(parse_names(data, cpos, m) == Err::<
                    (Seq<Seq<u8>>, int),
                    DecodeError,
                >(DecodeError::TruncatedManifest));
                return Err(DecodeError::TruncatedManifest);
            },
        };
        assert(raw@ == data.subrange(cpos + 2, cpos + 2 + le16_at(data, cpos)));
        if raw.len() == 0 {
            assert(parse_names(data, cpos, m) == Err::<
                (Seq<Seq<u8>>, int),
                DecodeError,
            >(DecodeError::MalformedPluginName));
            return Err(DecodeError::MalformedPluginName);
        }
        if !is_printable_name(&raw) {
            assert(parse_names(data, cpos, m) == Err::<
                (Seq<Seq<u8>>, int),
                DecodeError,
            >(DecodeError::MalformedPluginName));
            return Err(DecodeError::MalformedPluginName);
        }
        let folded = fold_name_vec(&raw);
        let ghost acc_old = acc@;
        acc.push(folded);
        proof {
            assert(names_of(acc@) =~= names_of(acc_old).push(fold_name(raw@)));
            match parse_names(data, cur.spec_pos(), (m - 1) as nat) {
                Ok(p) => {
                    assert(parse_names(data, cpos, m) == Ok::<
                        (Seq<Seq<u8>>, int),
                        DecodeError,
                    >((seq![fold_name(raw@)] + p.0, p.1)));
                    assert(names_of(acc_old) + (seq![fold_name(raw@)] + p.0) =~= names_of(acc@)
                        + p.0);
                },
                Err(_) => {},
            }
        }
        i = i + 1;
    }
    proof {
        assert(parse_names(data, cur.spec_pos(), 0) == Ok::<(Seq<Seq<u8>>, int), DecodeError>(
            (Seq::empty(), cur.spec_pos()),
        ));
        assert(names_of(acc@) + Seq::<Seq<u8>>::empty() =~= names_of(acc@));
    }
    Ok(acc)
}

/// The magic signature as bytes.
pub(crate) fn magic_vec() -> (r: Vec<u8>)
    ensures
        r@ == magic(),
{
    let mut v: Vec<u8> = Vec::new();
    v.push(0x54);
    v.push(0x45);
    v.push(0x53);
    v.push(0x56);
    v.push(0x5f);
    v.push(0x53);
    v.push(0x41);
    v.push(0x56);
    v.push(0x45);
    v.push(0x47);
    v.push(0x41);
    v.push(0x4d);
    v.push(0x45);
    assert(v@ =~= magic());
    v
}

/// Decodes a candidate save file: checks the magic signature, reads the
/// header fields, then reads the plugin table — and, for the newer
/// generation, the light-plugin table — in one bounds-checked forward pass.
///
/// The result is exactly what the format relation `spec_decode` assigns to
/// the buffer: a well-formed save on success, and on any malformed,
/// truncated, or foreign input the error of the first failing step.
pub fn decode_save(data: &Vec<u8>) -> (r: Result<SaveInfo, DecodeError>)
    ensures
        match r {
            Ok(info) => spec_decode(data@) == Ok::<SaveModel, DecodeError>(info@) && model_wf(
                info@,
            ),
            Err(e) => spec_decode(data@) == Err::<SaveModel, DecodeError>(e),
        },
{
    let mut cur = ByteCursor::new(data);
    let magic_read = match cur.read_exact(13) {
        Ok(m) => m,
        Err(_) => {
            assert(data@.len() < 13);
            return Err(DecodeError::NotASaveFile);
        },
    };
    if !names_eq(&magic_read, &magic_vec()) {
        assert(!magic_matches(data@));
        return Err(DecodeError::NotASaveFile);
    }
    assert(magic_matches(data@));
    let header_size = match cur.read_u32_le() {
        Ok(v) => v,
        Err(_) => {
            return Err(DecodeError::UnexpectedEndOfData);
        },
    };
    if header_size < 8 {
        return Err(DecodeError::UnexpectedEndOfData);
    }
    let engine_version = match cur.read_u32_le() {
        Ok(v) => v,
        Err(_) => {
            return Err(DecodeError::UnexpectedEndOfData);
        },
    };
    let format_version = match cur.read_u32_le() {
        Ok(v) => v,
        Err(_) => {
            return Err(DecodeError::UnexpectedEndOfData);
        },
    };
    if let Err(_) = cur.skip((header_size - 8) as usize) {
        return Err(DecodeError::UnexpectedEndOfData);
    }
    assert(cur.spec_pos() == 17 + crate::codec::le32_at(data@, 13));
    let count = match cur.read_u8() {
        Ok(c) => c,
        Err(_) => {
            return Err(DecodeError::TruncatedManifest);
        },
    };
    let ghost table = 17 + crate::codec::le32_at(data@, 13);
    assert(count == data@[table]);
    let names_raw = match read_name_table(&mut cur, count as usize) {
        Ok(v) => v,
        Err(e) => {
            return Err(e);
        },
    };
    let plugins = dedup_names(names_raw);
    let generation = if engine_version >= SE_MIN_ENGINE_VERSION {
        Generation::SpecialEdition
    } else {
        Generation::LegacyEngine
    };
    assert(generation == generation_of(engine_version));
    let light_plugins: Vec<Vec<u8>> = if engine_version >= SE_MIN_ENGINE_VERSION {
        let light_count = match cur.read_u16_le() {
            Ok(c) => c,
            Err(_) => {
                return Err(DecodeError::TruncatedManifest);
            },
        };
        let light_raw = match read_name_table(&mut cur, light_count as usize) {
            Ok(v) => v,
            Err(e) => {
                return Err(e);
            },
        };
        dedup_names(light_raw)
    } else {
        Vec::new()
    };
    let info = SaveInfo {
        header: SaveHeader { generation, engine_version, format_version },
        plugin_info: PluginManifest { plugins, light_plugins },
    };
    proof {
        if generation == Generation::LegacyEngine {
            assert(names_of(info.plugin_info.light_plugins@) =~= Seq::<Seq<u8>>::empty());
        }
        assert(spec_decode(data@) == Ok::<SaveModel, DecodeError>(info@));
        lemma_decode_wf(data@);
    }
    Ok(info)
}

} // verus!
