use vstd::prelude::*;

use crate::codec::{encode_names, le16_bytes, le32_bytes, spec_encode};
use crate::names::{names_of, valid_name};
use crate::save::{model_wf, Generation, SaveInfo};

verus! {

/// Appending one name to a table appends its encoded entry.
pub proof fn lemma_encode_names_snoc(s: Seq<Seq<u8>>, x: Seq<u8>)
    ensures
        encode_names(s.push(x)) == encode_names(s) + le16_bytes(x.len() as int) + x,
    decreases s.len(),
{
    if s.len() == 0 {
        assert(s.push(x).first() == x);
        assert(s.push(x).drop_first() =~= Seq::<Seq<u8>>::empty());
        assert(encode_names(s.push(x)) == le16_bytes(x.len() as int) + x + encode_names(
            s.push(x).drop_first(),
        ));
        assert(encode_names(s.push(x).drop_first()) == Seq::<u8>::empty());
        assert(encode_names(s) == Seq::<u8>::empty());
        assert(encode_names(s.push(x)) =~= encode_names(s) + le16_bytes(x.len() as int) + x);
    } else {
        assert(s.push(x).first() == s.first());
        assert(s.push(x).drop_first() =~= s.drop_first().push(x));
        lemma_encode_names_snoc(s.drop_first(), x);
        assert(encode_names(s.push(x)) == le16_bytes(s.first().len() as int) + s.first()
            + encode_names(s.drop_first().push(x)));
        assert(encode_names(s.push(x)) =~= encode_names(s) + le16_bytes(x.len() as int) + x);
    }
}

/// Appends the little-endian bytes of a 16-bit integer.
fn push_le16(out: &mut Vec<u8>, x: u16)
    ensures
        final(out)@ == old(out)@ + le16_bytes(x as int),
{
    out.push((x % 0x100) as u8);
    out.push(((x / 0x100) % 0x100) as u8);
    assert(out@ =~= old(out)@ + le16_bytes(x as int));
}

/// Appends the little-endian bytes of a 32-bit integer.
fn push_le32(out: &mut Vec<u8>, x: u32)
    ensures
        final(out)@ == old(out)@ + le32_bytes(x as int),
{
    out.push((x % 0x100) as u8);
    out.push(((x / 0x100) % 0x100) as u8);
    out.push(((x / 0x10000) % 0x100) as u8);
    out.push(((x / 0x1000000) % 0x100) as u8);
    assert(out@ =~= old(out)@ + le32_bytes(x as int));
}

/// Appends a copy of the given bytes.
fn push_bytes(out: &mut Vec<u8>, bytes: &Vec<u8>)
    ensures
        final(out)@ == old(out)@ + bytes@,
{
    let n = bytes.len();
    let mut i: usize = 0;
    while i < n
        invariant
            n == bytes.len(),
            i <= n,
            out@ =~= old(out)@ + bytes@.take(i as int),
        decreases n - i,
    {
        out.push(bytes[i]);
        assert(out@ =~= old(out)@ + bytes@.take(i + 1 as int));
        i = i + 1;
    }
    assert(bytes@.take(n as int) =~= bytes@);
}

/// Appends one plugin table, without its count field.
fn write_table(out: &mut Vec<u8>, names: &Vec<Vec<u8>>)
    requires
        forall|i: int| 0 <= i < names@.len() ==> valid_name(#[trigger] names_of(names@)[i]),
    ensures
        final(out)@ == old(out)@ + encode_names(names_of(names@)),
{
    let n = names.len();
    let mut k: usize = 0;
    proof {
        assert(names_of(names@).take(0) =~= Seq::<Seq<u8>>::empty());
        assert(out@ =~= old(out)@ + encode_names(names_of(names@).take(0)));
    }
    while k < n
        invariant
            n == names.len(),
            k <= n,
            forall|i: int| 0 <= i < names@.len() ==> valid_name(#[trigger] names_of(names@)[i]),
            out@ == old(out)@ + encode_names(names_of(names@).take(k as int)),
        decreases n - k,
    {
        let name = &names[k];
        assert(valid_name(names_of(names@)[k as int]));
        assert(name@.len() <= 0xffff);
        push_le16(out, name.len() as u16);
        push_bytes(out, name);
        proof {
            let prefix = names_of(names@).take(k as int);
            assert(names_of(names@).take(k + 1) =~= prefix.push(name@));
            lemma_encode_names_snoc(prefix, name@);
            assert(out@ =~= old(out)@ + encode_names(names_of(names@).take(k + 1)));
        }
        k = k + 1;
    }
    assert(names_of(names@).take(n as int) =~= names_of(names@));
}

/// Re-encodes a decoded save into its canonical byte form: the magic
/// signature, a minimal header, and the plugin table(s). Decoding the result
/// recovers an equal save.
pub fn encode_save(info: &SaveInfo) -> (r: Vec<u8>)
    requires
        model_wf(info@),
    ensures
        r@ == spec_encode(info@),
{
    let mut out = crate::decode::magic_vec();
    push_le32(&mut out, 8);
    push_le32(&mut out, info.header.engine_version);
    push_le32(&mut out, info.header.format_version);
    out.push(info.plugin_info.plugins.len() as u8);
    write_table(&mut out, &info.plugin_info.plugins);
    if info.header.is_se() {
        push_le16(&mut out, info.plugin_info.light_plugins.len() as u16);
        write_table(&mut out, &info.plugin_info.light_plugins);
        assert(out@ =~= spec_encode(info@));
    } else {
        assert(out@ =~= spec_encode(info@));
    }
    out
}

} // verus!
