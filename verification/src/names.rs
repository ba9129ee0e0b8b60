use vstd::prelude::*;

verus! {

/// A byte a plugin filename may hold: the printable ASCII range.
pub open spec fn printable_byte(b: u8) -> bool {
    0x20 <= b <= 0x7e
}

/// Every byte of the name is printable.
pub open spec fn printable_name(s: Seq<u8>) -> bool {
    forall|i: int| 0 <= i < s.len() ==> printable_byte(#[trigger] s[i])
}

/// Case folding of one byte: ASCII upper-case letters map to lower case,
/// everything else is unchanged.
pub open spec fn fold_byte(b: u8) -> u8 {
    if 0x41 <= b <= 0x5a {
        (b + 0x20) as u8
    } else {
        b
    }
}

/// Case folding of a whole name. Two filenames match case-insensitively
/// exactly when their folded forms are equal.
pub open spec fn fold_name(s: Seq<u8>) -> Seq<u8> {
    s.map(|_i: int, b: u8| fold_byte(b))
}

/// A filename as it may stand in a decoded manifest: non-empty, short enough
/// for its length field, printable, and already case-folded.
pub open spec fn valid_name(s: Seq<u8>) -> bool {
    &&& 1 <= s.len() <= 0xffff
    &&& printable_name(s)
    &&& fold_name(s) == s
}

/// The views of a vector of byte names.
pub open spec fn names_of(v: Seq<Vec<u8>>) -> Seq<Seq<u8>> {
    v.map(|_i: int, n: Vec<u8>| n@)
}

/// No name occurs twice.
pub open spec fn distinct_names(s: Seq<Seq<u8>>) -> bool {
    forall|i: int, j: int| 0 <= i < j < s.len() ==> s[i] != s[j]
}

/// Keeps the first occurrence of every name and drops later repeats,
/// preserving order.
pub open spec fn dedup_first(s: Seq<Seq<u8>>) -> Seq<Seq<u8>>
    decreases s.len(),
{
    if s.len() == 0 {
        Seq::empty()
    } else {
        let pre = dedup_first(s.drop_last());
        if s.drop_last().contains(s.last()) {
            pre
        } else {
            pre.push(s.last())
        }
    }
}

/// Case folding keeps a name printable, keeps its length, and is idempotent.
pub proof fn lemma_fold_props(s: Seq<u8>)
    ensures
        fold_name(s).len() == s.len(),
        printable_name(s) ==> printable_name(fold_name(s)),
        fold_name(fold_name(s)) == fold_name(s),
{
    assert forall|i: int| 0 <= i < s.len() implies fold_byte(fold_byte(s[i])) == fold_byte(s[i]) by {
    }
    assert(fold_name(fold_name(s)) =~= fold_name(s));
}

/// Deduplication neither adds nor loses names.
pub proof fn lemma_dedup_membership(s: Seq<Seq<u8>>)
    ensures
        forall|x: Seq<u8>| dedup_first(s).contains(x) <==> s.contains(x),
    decreases s.len(),
{
    if s.len() > 0 {
        lemma_dedup_membership(s.drop_last());
        assert forall|x: Seq<u8>| s.contains(x) implies dedup_first(s).contains(x) by {
            if x == s.last() {
                if s.drop_last().contains(x) {
                    assert(dedup_first(s.drop_last()).contains(x));
                } else {
                    assert(dedup_first(s) == dedup_first(s.drop_last()).push(x));
                    assert(dedup_first(s).last() == x);
                }
            } else {
                let i = choose|i: int| 0 <= i < s.len() && s[i] == x;
                assert(s.drop_last()[i] == x);
                assert(s.drop_last().contains(x));
                assert(dedup_first(s.drop_last()).contains(x));
                let j = choose|j: int| 0 <= j < dedup_first(s.drop_last()).len()
                    && dedup_first(s.drop_last())[j] == x;
                if !s.drop_last().contains(s.last()) {
                    assert(dedup_first(s)[j] == x);
                }
            }
        }
        assert forall|x: Seq<u8>| dedup_first(s).contains(x) implies s.contains(x) by {
            let j = choose|j: int| 0 <= j < dedup_first(s).len() && dedup_first(s)[j] == x;
            let pre = dedup_first(s.drop_last());
            if s.drop_last().contains(s.last()) {
                assert(pre.contains(x));
            } else {
                if j < pre.len() {
                    assert(pre.contains(x));
                } else {
                    assert(x == s.last());
                    assert(s[s.len() - 1] == x);
                }
            }
            if pre.contains(x) {
                assert(s.drop_last().contains(x));
                let i = choose|i: int| 0 <= i < s.drop_last().len() && s.drop_last()[i] == x;
                assert(s[i] == x);
            }
        }
    }
}

/// Deduplication yields distinct names and never lengthens the sequence.
pub proof fn lemma_dedup_distinct(s: Seq<Seq<u8>>)
    ensures
        distinct_names(dedup_first(s)),
        dedup_first(s).len() <= s.len(),
    decreases s.len(),
{
    if s.len() > 0 {
        lemma_dedup_distinct(s.drop_last());
        lemma_dedup_membership(s.drop_last());
        let pre = dedup_first(s.drop_last());
        if !s.drop_last().contains(s.last()) {
            assert(!pre.contains(s.last()));
            assert forall|i: int, j: int|
                0 <= i < j < pre.push(s.last()).len() implies pre.push(s.last())[i]
                != pre.push(s.last())[j] by {
                if j < pre.len() {
                } else {
                    assert(pre.push(s.last())[j] == s.last());
                    if pre[i] == s.last() {
                        assert(pre.contains(s.last()));
                    }
                }
            }
        }
    }
}

/// On a sequence without repeats, deduplication changes nothing.
pub proof fn lemma_dedup_identity(s: Seq<Seq<u8>>)
    requires
        distinct_names(s),
    ensures
        dedup_first(s) == s,
    decreases s.len(),
{
    if s.len() > 0 {
        assert forall|i: int, j: int|
            0 <= i < j < s.drop_last().len() implies s.drop_last()[i] != s.drop_last()[j] by {
            assert(s[i] != s[j]);
        }
        lemma_dedup_identity(s.drop_last());
        if s.drop_last().contains(s.last()) {
            let i = choose|i: int| 0 <= i < s.drop_last().len() && s.drop_last()[i] == s.last();
            assert(s[i] == s[s.len() - 1]);
            assert(false);
        }
        assert(dedup_first(s) =~= s);
    }
}

/// Byte-for-byte equality of two names.
pub fn names_eq(a: &Vec<u8>, b: &Vec<u8>) -> (r: bool)
    ensures
        r == (a@ == b@),
{
    if a.len() != b.len() {
        assert(a@ != b@);
        return false;
    }
    let n = a.len();
    let mut i: usize = 0;
    while i < n
        invariant
            n == a.len() == b.len(),
            i <= n,
            forall|j: int| 0 <= j < i ==> a@[j] == b@[j],
        decreases n - i,
    {
        if a[i] != b[i] {
            return false;
        }
        i = i + 1;
    }
    assert(a@ =~= b@);
    true
}

/// A fresh copy of a name's bytes.
pub fn copy_name(v: &Vec<u8>) -> (r: Vec<u8>)
    ensures
        r@ == v@,
{
    let mut out: Vec<u8> = Vec::new();
    let n = v.len();
    let mut i: usize = 0;
    while i < n
        invariant
            n == v.len(),
            i <= n,
            out@ =~= v@.take(i as int),
        decreases n - i,
    {
        out.push(v[i]);
        assert(out@ =~= v@.take(i + 1 as int));
        i = i + 1;
    }
    assert(v@.take(n as int) =~= v@);
    out
}

/// The case-folded copy of a name.
pub fn fold_name_vec(v: &Vec<u8>) -> (r: Vec<u8>)
    ensures
        r@ == fold_name(v@),
{
    let mut out: Vec<u8> = Vec::new();
    let n = v.len();
    let mut i: usize = 0;
    while i < n
        invariant
            n == v.len(),
            i <= n,
            out@.len() == i,
            forall|j: int| 0 <= j < i ==> out@[j] == fold_byte(v@[j]),
        decreases n - i,
    {
        let b = v[i];
        if 0x41 <= b && b <= 0x5a {
            out.push(b + 0x20);
        } else {
            out.push(b);
        }
        i = i + 1;
    }
    assert(out@ =~= fold_name(v@));
    out
}

/// Whether every byte of the name is printable.
pub fn is_printable_name(v: &Vec<u8>) -> (r: bool)
    ensures
        r == printable_name(v@),
{
    let n = v.len();
    let mut i: usize = 0;
    while i < n
        invariant
            n == v.len(),
            i <= n,
            forall|j: int| 0 <= j < i ==> printable_byte(#[trigger] v@[j]),
        decreases n - i,
    {
        let b = v[i];
        if b < 0x20 || b > 0x7e {
            return false;
        }
        i = i + 1;
    }
    true
}

/// Whether one of the names equals the given name.
pub fn contains_name(v: &Vec<Vec<u8>>, n: &Vec<u8>) -> (r: bool)
    ensures
        r == names_of(v@).contains(n@),
{
    let len = v.len();
    let mut i: usize = 0;
    while i < len
        invariant
            len == v.len(),
            i <= len,
            forall|j: int| 0 <= j < i ==> names_of(v@)[j] != n@,
        decreases len - i,
    {
        if names_eq(&v[i], n) {
            assert(names_of(v@)[i as int] == n@);
            return true;
        }
        i = i + 1;
    }
    assert forall|j: int| 0 <= j < names_of(v@).len() implies names_of(v@)[j] != n@ by {
    }
    false
}

/// Keeps the first occurrence of each name, in order.
pub fn dedup_names(v: Vec<Vec<u8>>) -> (r: Vec<Vec<u8>>)
    ensures
        names_of(r@) == dedup_first(names_of(v@)),
{
    let mut out: Vec<Vec<u8>> = Vec::new();
    let len = v.len();
    let mut i: usize = 0;
    assert(names_of(v@).take(0) =~= Seq::<Seq<u8>>::empty());
    assert(names_of(out@) =~= dedup_first(names_of(v@).take(0)));
    while i < len
        invariant
            len == v.len(),
            i <= len,
            names_of(out@) == dedup_first(names_of(v@).take(i as int)),
        decreases len - i,
    {
        let ghost prefix = names_of(v@).take(i as int);
        let ghost full = names_of(v@).take(i + 1 as int);
        proof {
            assert(full.drop_last() =~= prefix);
            assert(full.last() == v@[i as int]@);
            lemma_dedup_membership(prefix);
        }
        let name = copy_name(&v[i]);
        if !contains_name(&out, &name) {
            assert(!prefix.contains(v@[i as int]@));
            out.push(name);
            assert(names_of(out@) =~= dedup_first(full));
        } else {
            assert(prefix.contains(v@[i as int]@));
            assert(names_of(out@) =~= dedup_first(full));
        }
        i = i + 1;
    }
    assert(names_of(v@).take(len as int) =~= names_of(v@));
    out
}

} // verus!
