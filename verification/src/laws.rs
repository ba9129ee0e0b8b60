use vstd::prelude::*;

use vstd::arithmetic::div_mod::{lemma_div_denominator, lemma_fundamental_div_mod};

use crate::codec::{
    encode_names, le16_at, le16_bytes, le32_at, le32_bytes, magic, magic_matches, parse_names,
    spec_decode, spec_encode, table_end, table_start,
};
use crate::decode::lemma_parse_names_props;
use crate::error::DecodeError;
use crate::names::{fold_name, lemma_dedup_identity, printable_name, valid_name};
use crate::save::{generation_of, model_wf, Generation, SaveHeader, SaveModel};

verus! {

/// Reading back the two little-endian bytes of a 16-bit value yields it.
proof fn lemma_le16_round(b: Seq<u8>, pos: int, v: int)
    requires
        0 <= v < 0x10000,
        0 <= pos,
        pos + 2 <= b.len(),
        b.subrange(pos, pos + 2) == le16_bytes(v),
    ensures
        le16_at(b, pos) == v,
{
    assert(b[pos] == le16_bytes(v)[0]);
    assert(b[pos + 1] == le16_bytes(v)[1]);
    lemma_fundamental_div_mod(v, 0x100);
    assert(v / 0x100 < 0x100);
    assert((v / 0x100) % 0x100 == v / 0x100) by {
        vstd::arithmetic::div_mod::lemma_small_mod((v / 0x100) as nat, 0x100nat);
    }
}

/// Reading back the four little-endian bytes of a 32-bit value yields it.
proof fn lemma_le32_round(b: Seq<u8>, pos: int, v: int)
    requires
        0 <= v < 0x1_0000_0000,
        0 <= pos,
        pos + 4 <= b.len(),
        b.subrange(pos, pos + 4) == le32_bytes(v),
    ensures
        le32_at(b, pos) == v,
{
    assert(b[pos] == le32_bytes(v)[0]);
    assert(b[pos + 1] == le32_bytes(v)[1]);
    assert(b[pos + 2] == le32_bytes(v)[2]);
    assert(b[pos + 3] == le32_bytes(v)[3]);
    lemma_fundamental_div_mod(v, 0x100);
    lemma_fundamental_div_mod(v / 0x100, 0x100);
    lemma_fundamental_div_mod(v / 0x10000, 0x100);
    lemma_div_denominator(v, 0x100, 0x100);
    lemma_div_denominator(v, 0x10000, 0x100);
    assert(v / 0x100 / 0x100 == v / 0x10000);
    assert(v / 0x10000 / 0x100 == v / 0x1000000);
    assert(v / 0x1000000 < 0x100);
    assert((v / 0x1000000) % 0x100 == v / 0x1000000) by {
        vstd::arithmetic::div_mod::lemma_small_mod((v / 0x1000000) as nat, 0x100nat);
    }
}

/// A table of valid names, laid out by `encode_names`, parses back to
/// exactly those names.
proof fn lemma_parse_encoded(b: Seq<u8>, pos: int, names: Seq<Seq<u8>>)
    requires
        0 <= pos,
        pos + encode_names(names).len() <= b.len(),
        b.subrange(pos, pos + encode_names(names).len() as int) == encode_names(names),
        forall|i: int| 0 <= i < names.len() ==> valid_name(#[trigger] names[i]),
    ensures
        parse_names(b, pos, names.len()) == Ok::<(Seq<Seq<u8>>, int), DecodeError>(
            (names, pos + encode_names(names).len() as int),
        ),
    decreases names.len(),
{
    if names.len() == 0 {
        assert(parse_names(b, pos, 0) == Ok::<(Seq<Seq<u8>>, int), DecodeError>(
            (Seq::empty(), pos),
        ));
        assert(Seq::<Seq<u8>>::empty() =~= names);
    } else {
        let x = names.first();
        let rest = names.drop_first();
        let erest = encode_names(rest);
        let enc = encode_names(names);
        assert(valid_name(names[0]));
        assert(enc == le16_bytes(x.len() as int) + x + erest);
        assert(enc.len() == 2 + x.len() + erest.len());
        let region = b.subrange(pos, pos + enc.len() as int);
        assert(b.subrange(pos, pos + 2) =~= le16_bytes(x.len() as int)) by {
            assert forall|i: int| 0 <= i < 2 implies b.subrange(pos, pos + 2)[i] == le16_bytes(
                x.len() as int,
            )[i] by {
                assert(region[i] == enc[i]);
            }
        }
        lemma_le16_round(b, pos, x.len() as int);
        assert(le16_at(b, pos) == x.len());
        let raw = b.subrange(pos + 2, pos + 2 + x.len());
        assert(raw =~= x) by {
            assert forall|i: int| 0 <= i < x.len() implies raw[i] == x[i] by {
                assert(region[2 + i] == enc[2 + i]);
            }
        }
        assert(printable_name(raw));
        assert(fold_name(raw) == x);
        let pos2 = pos + 2 + x.len() as int;
        assert(b.subrange(pos2, pos2 + erest.len() as int) =~= erest) by {
            assert forall|i: int| 0 <= i < erest.len() implies b.subrange(
                pos2,
                pos2 + erest.len() as int,
            )[i] == erest[i] by {
                assert(region[2 + x.len() + i] == enc[2 + x.len() + i]);
            }
        }
        assert forall|i: int| 0 <= i < rest.len() implies valid_name(#[trigger] rest[i]) by {
            assert(rest[i] == names[i + 1]);
        }
        lemma_parse_encoded(b, pos2, rest);
        assert(rest.len() == (names.len() - 1) as nat);
        assert(parse_names(b, pos2, (names.len() - 1) as nat)
            == Ok::<(Seq<Seq<u8>>, int), DecodeError>((rest, pos2 + erest.len() as int)));
        assert(seq![fold_name(raw)] + rest =~= names);
        assert(pos2 + erest.len() == pos + enc.len());
    }
}

/// Round trip: re-encoding a well-formed decoded save and decoding the
/// result recovers an equal save. The encoded region covers the header and
/// both plugin tables; decoding reads nothing past them.
pub proof fn lemma_encode_decode(v: SaveModel)
    requires
        model_wf(v),
    ensures
        spec_decode(spec_encode(v)) == Ok::<SaveModel, DecodeError>(v),
{
    let b = spec_encode(v);
    let e1 = encode_names(v.plugins);
    let head = magic() + le32_bytes(8) + le32_bytes(v.header.engine_version as int) + le32_bytes(
        v.header.format_version as int,
    ) + seq![v.plugins.len() as u8] + e1;
    let se = v.header.generation == Generation::SpecialEdition;
    let tail = if se {
        le16_bytes(v.light_plugins.len() as int) + encode_names(v.light_plugins)
    } else {
        Seq::<u8>::empty()
    };
    assert(b == head + tail);
    assert(b.len() == 26 + e1.len() + tail.len());
    assert(b.subrange(0, 13) =~= magic());
    assert(magic_matches(b));
    assert(b.subrange(13, 17) =~= le32_bytes(8));
    lemma_le32_round(b, 13, 8);
    assert(le32_at(b, 13) == 8);
    assert(b.subrange(17, 21) =~= le32_bytes(v.header.engine_version as int));
    lemma_le32_round(b, 17, v.header.engine_version as int);
    assert(b.subrange(21, 25) =~= le32_bytes(v.header.format_version as int));
    lemma_le32_round(b, 21, v.header.format_version as int);
    assert(le32_at(b, 17) as u32 == v.header.engine_version);
    assert(le32_at(b, 21) as u32 == v.header.format_version);
    assert(generation_of(v.header.engine_version) == v.header.generation);
    assert(b[25] == v.plugins.len() as u8);
    assert((v.plugins.len() as u8) as nat == v.plugins.len());
    assert(b.subrange(26, 26 + e1.len() as int) =~= e1) by {
        assert forall|i: int| 0 <= i < e1.len() implies b.subrange(26, 26 + e1.len() as int)[i]
            == e1[i] by {
            assert(b[26 + i] == head[26 + i]);
        }
    }
    lemma_parse_encoded(b, 26, v.plugins);
    assert(parse_names(b, 26, v.plugins.len()) == Ok::<(Seq<Seq<u8>>, int), DecodeError>(
        (v.plugins, 26 + e1.len() as int),
    ));
    lemma_dedup_identity(v.plugins);
    let end = 26 + e1.len() as int;
    if se {
        let e2 = encode_names(v.light_plugins);
        assert(b.subrange(end, end + 2) =~= le16_bytes(v.light_plugins.len() as int)) by {
            assert forall|i: int| 0 <= i < 2 implies b.subrange(end, end + 2)[i] == le16_bytes(
                v.light_plugins.len() as int,
            )[i] by {
                assert(b[end + i] == tail[i]);
            }
        }
        lemma_le16_round(b, end, v.light_plugins.len() as int);
        assert((v.light_plugins.len() as u16) as nat == v.light_plugins.len());
        assert(b.subrange(end + 2, end + 2 + e2.len() as int) =~= e2) by {
            assert forall|i: int| 0 <= i < e2.len() implies b.subrange(
                end + 2,
                end + 2 + e2.len() as int,
            )[i] == e2[i] by {
                assert(b[end + 2 + i] == tail[2 + i]);
            }
        }
        lemma_parse_encoded(b, end + 2, v.light_plugins);
        lemma_dedup_identity(v.light_plugins);
        assert(spec_decode(b)->Ok_0 == v);
    } else {
        assert(v.light_plugins =~= Seq::<Seq<u8>>::empty());
        assert(spec_decode(b)->Ok_0 == v);
    }
}

/// A successfully parsed table parses the same on any prefix that still
/// holds all of it.
proof fn lemma_parse_prefix_stable(b: Seq<u8>, pos: int, n: nat, k: int)
    requires
        0 <= pos <= b.len(),
        parse_names(b, pos, n) is Ok,
        parse_names(b, pos, n)->Ok_0.1 <= k <= b.len(),
    ensures
        parse_names(b.take(k), pos, n) == parse_names(b, pos, n),
    decreases n,
{
    if n > 0 {
        let len = le16_at(b, pos);
        let entry_end = pos + 2 + len;
        lemma_parse_names_props(b, entry_end, (n - 1) as nat);
        let end = parse_names(b, pos, n)->Ok_0.1;
        assert(end == parse_names(b, entry_end, (n - 1) as nat)->Ok_0.1);
        assert(entry_end <= end);
        assert(pos + 2 <= k);
        assert(le16_at(b.take(k), pos) == len);
        assert(b.take(k).subrange(pos + 2, entry_end) =~= b.subrange(pos + 2, entry_end));
        lemma_parse_prefix_stable(b, entry_end, (n - 1) as nat, k);
    }
}

/// Truncating a successfully parsed table strictly before its end makes it
/// parse to a truncation error.
proof fn lemma_parse_truncated(b: Seq<u8>, pos: int, n: nat, k: int)
    requires
        0 <= pos <= b.len(),
        parse_names(b, pos, n) is Ok,
        pos <= k < parse_names(b, pos, n)->Ok_0.1,
    ensures
        parse_names(b.take(k), pos, n) == Err::<(Seq<Seq<u8>>, int), DecodeError>(
            DecodeError::TruncatedManifest,
        ),
    decreases n,
{
    lemma_parse_names_props(b, pos, n);
    let end = parse_names(b, pos, n)->Ok_0.1;
    if n == 0 {
        assert(end == pos);
        assert(false);
    } else {
        let len = le16_at(b, pos);
        let entry_end = pos + 2 + len;
        lemma_parse_names_props(b, entry_end, (n - 1) as nat);
        assert(end == parse_names(b, entry_end, (n - 1) as nat)->Ok_0.1);
        assert(entry_end <= end);
        if k < pos + 2 {
            assert(b.take(k).len() == k);
            assert(parse_names(b.take(k), pos, n) == Err::<(Seq<Seq<u8>>, int), DecodeError>(
                DecodeError::TruncatedManifest,
            ));
        } else {
            assert(le16_at(b.take(k), pos) == len);
            if k < entry_end {
                assert(parse_names(b.take(k), pos, n) == Err::<(Seq<Seq<u8>>, int), DecodeError>(
                    DecodeError::TruncatedManifest,
                ));
            } else {
                assert(b.take(k).subrange(pos + 2, entry_end) =~= b.subrange(pos + 2, entry_end));
                lemma_parse_truncated(b, entry_end, (n - 1) as nat, k);
            }
        }
    }
}

/// Truncating a decodable buffer anywhere strictly inside the declared
/// structure — past the magic signature, before the end of the declared
/// plugin data — makes decoding fail with a truncation error. No partial
/// manifest is ever surfaced.
pub proof fn lemma_truncated_decode(b: Seq<u8>, k: int)
    requires
        spec_decode(b) is Ok,
        13 <= k < table_end(b),
    ensures
        spec_decode(b.take(k)) == Err::<SaveModel, DecodeError>(DecodeError::UnexpectedEndOfData)
            || spec_decode(b.take(k)) == Err::<SaveModel, DecodeError>(
            DecodeError::TruncatedManifest,
        ),
{
    let bp = b.take(k);
    let hs = le32_at(b, 13);
    let table = table_start(b);
    let count = b[table];
    let end = parse_names(b, table + 1, count as nat)->Ok_0.1;
    lemma_parse_names_props(b, table + 1, count as nat);
    let se = generation_of(le32_at(b, 17) as u32) == Generation::SpecialEdition;
    assert(k <= b.len()) by {
        if se {
            let light_count = le16_at(b, end);
            lemma_parse_names_props(b, end + 2, light_count as nat);
        }
    }
    assert(bp.len() == k);
    assert(bp.subrange(0, 13) =~= b.subrange(0, 13));
    assert(magic_matches(bp));
    if k < 17 {
        assert(spec_decode(bp) == Err::<SaveModel, DecodeError>(DecodeError::UnexpectedEndOfData));
    } else {
        assert(le32_at(bp, 13) == hs);
        if 17 + hs > k {
            assert(spec_decode(bp) == Err::<SaveModel, DecodeError>(
                DecodeError::UnexpectedEndOfData,
            ));
        } else {
            assert(k >= table);
            assert(table >= 25);
            assert(le32_at(bp, 17) == le32_at(b, 17));
            assert(le32_at(bp, 21) == le32_at(b, 21));
            if table + 1 > k {
                assert(spec_decode(bp) == Err::<SaveModel, DecodeError>(
                    DecodeError::TruncatedManifest,
                ));
            } else {
                assert(bp[table] == count);
                if k < end {
                    lemma_parse_truncated(b, table + 1, count as nat, k);
                    assert(spec_decode(bp) == Err::<SaveModel, DecodeError>(
                        DecodeError::TruncatedManifest,
                    ));
                } else {
                    assert(se) by {
                        if !se {
                            assert(table_end(b) == end);
                        }
                    }
                    lemma_parse_prefix_stable(b, table + 1, count as nat, k);
                    let light_count = le16_at(b, end);
                    let light_end = parse_names(b, end + 2, light_count as nat)->Ok_0.1;
                    lemma_parse_names_props(b, end + 2, light_count as nat);
                    if end + 2 > k {
                        assert(spec_decode(bp) == Err::<SaveModel, DecodeError>(
                            DecodeError::TruncatedManifest,
                        ));
                    } else {
                        assert(le16_at(bp, end) == light_count);
                        assert(k < light_end);
                        lemma_parse_truncated(b, end + 2, light_count as nat, k);
                        assert(spec_decode(bp) == Err::<SaveModel, DecodeError>(
                            DecodeError::TruncatedManifest,
                        ));
                    }
                }
            }
        }
    }
}

/// A buffer that does not begin with the magic signature — the empty buffer
/// included — decodes to `NotASaveFile`, whatever follows.
pub proof fn lemma_not_a_save_file(b: Seq<u8>)
    requires
        !magic_matches(b),
    ensures
        spec_decode(b) == Err::<SaveModel, DecodeError>(DecodeError::NotASaveFile),
{
}

/// A plugin count of zero is not an error: whenever decoding succeeds and
/// the count byte is zero, the plugin sequence is empty.
pub proof fn lemma_zero_count(b: Seq<u8>)
    requires
        spec_decode(b) is Ok,
        b[table_start(b)] == 0,
    ensures
        spec_decode(b)->Ok_0.plugins == Seq::<Seq<u8>>::empty(),
{
    let table = table_start(b);
    assert(parse_names(b, table + 1, 0) == Ok::<(Seq<Seq<u8>>, int), DecodeError>(
        (Seq::empty(), table + 1),
    ));
}

/// A plugin count of zero is decodable for every well-formed header: the
/// encoding of a save without plugins decodes successfully to empty tables.
pub proof fn lemma_zero_count_not_error(header: SaveHeader)
    requires
        header.wf(),
    ensures
        spec_decode(
            spec_encode(
                SaveModel { header, plugins: Seq::empty(), light_plugins: Seq::empty() },
            ),
        ) == Ok::<SaveModel, DecodeError>(
            SaveModel { header, plugins: Seq::empty(), light_plugins: Seq::empty() },
        ),
{
    lemma_encode_decode(SaveModel { header, plugins: Seq::empty(), light_plugins: Seq::empty() });
}

/// Decoding keeps the first occurrence of a repeated filename and drops the
/// repeats: the plugin tables of a decoded save never hold a name twice.
pub proof fn lemma_no_duplicates(b: Seq<u8>)
    requires
        spec_decode(b) is Ok,
    ensures
        crate::names::distinct_names(spec_decode(b)->Ok_0.plugins),
        crate::names::distinct_names(spec_decode(b)->Ok_0.light_plugins),
{
    crate::decode::lemma_decode_wf(b);
}

} // verus!
