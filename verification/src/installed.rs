use vstd::prelude::*;

use crate::names::{fold_name, fold_name_vec, names_eq, names_of};

verus! {

/// The set of plugin filenames the game currently has enabled, read from its
/// load-order source. Names are stored folded; membership is
/// case-insensitive.
#[derive(Clone, Debug, PartialEq, Eq)]
pub struct InstalledSet {
    names: Vec<Vec<u8>>,
}

impl InstalledSet {
    /// The folded names recorded, in source order.
    pub closed spec fn model(&self) -> Seq<Seq<u8>> {
        names_of(self.names@)
    }

    /// Whether the filename is enabled, case-insensitively.
    pub open spec fn spec_contains(&self, name: Seq<u8>) -> bool {
        self.model().contains(fold_name(name))
    }

    /// A set with nothing in it: the legitimate state of a machine whose
    /// load-order source does not exist.
    pub fn new() -> (r: InstalledSet)
        ensures
            r.model() == Seq::<Seq<u8>>::empty(),
    {
        let r = InstalledSet { names: Vec::new() };
        proof {
            assert(r.model() =~= Seq::<Seq<u8>>::empty());
        }
        r
    }

    /// How many names the set records.
    pub fn name_count(&self) -> (r: usize)
        ensures
            r == self.model().len(),
    {
        self.names.len()
    }

    /// Records an enabled filename, folding it as it is stored.
    pub fn insert(&mut self, name: Vec<u8>)
        ensures
            final(self).model() == old(self).model().push(fold_name(name@)),
    {
        let folded = fold_name_vec(&name);
        self.names.push(folded);
        proof {
            assert(self.model() =~= old(self).model().push(fold_name(name@)));
        }
    }

    /// Whether the filename is enabled, case-insensitively.
    pub fn contains(&self, name: &Vec<u8>) -> (r: bool)
        ensures
            r == self.spec_contains(name@),
    {
        let key = fold_name_vec(name);
        let n = self.names.len();
        let mut i: usize = 0;
        while i < n
            invariant
                n == self.names.len(),
                key@ == fold_name(name@),
                i <= n,
                forall|j: int| 0 <= j < i ==> self.model()[j] != key@,
            decreases n - i,
        {
            if names_eq(&self.names[i], &key) {
                assert(self.model()[i as int] == key@);
                return true;
            }
            i = i + 1;
        }
        assert forall|j: int| 0 <= j < self.model().len() implies self.model()[j] != key@ by {}
        false
    }
}

/// The index of the first line break in the bytes, or their length if there
/// is none.
pub open spec fn first_break(s: Seq<u8>) -> int
    decreases s.len(),
{
    if s.len() == 0 {
        0
    } else if s[0] == 10 {
        0
    } else {
        1 + first_break(s.drop_first())
    }
}

/// `first_break` is the index with no break before it and a break (or the
/// end) at it.
pub proof fn lemma_first_break_at(s: Seq<u8>, k: int)
    requires
        0 <= k <= s.len(),
        forall|i: int| 0 <= i < k ==> s[i] != 10,
        k < s.len() ==> s[k] == 10,
    ensures
        first_break(s) == k,
    decreases s.len(),
{
    if k == 0 {
    } else {
        assert(s[0] != 10);
        let t = s.drop_first();
        assert forall|i: int| 0 <= i < k - 1 implies t[i] != 10 by {
            assert(t[i] == s[i + 1]);
        }
        if k - 1 < t.len() {
            assert(t[k - 1] == s[k]);
        }
        lemma_first_break_at(t, k - 1);
    }
}

/// A line with any trailing carriage return removed.
pub open spec fn trim_cr(line: Seq<u8>) -> Seq<u8> {
    if line.len() > 0 && line.last() == 13 {
        line.drop_last()
    } else {
        line
    }
}

/// The non-empty lines of a simple enumerated-list source: split on line
/// breaks, trailing carriage returns removed, empty lines dropped.
pub open spec fn split_lines(s: Seq<u8>) -> Seq<Seq<u8>>
    decreases s.len(),
    via split_lines_decreases
{
    if s.len() == 0 {
        Seq::empty()
    } else {
        let j = first_break(s);
        let line = trim_cr(s.take(j));
        let rest = if j < s.len() {
            split_lines(s.skip(j + 1))
        } else {
            Seq::empty()
        };
        if line.len() == 0 {
            rest
        } else {
            seq![line] + rest
        }
    }
}

#[via_fn]
proof fn split_lines_decreases(s: Seq<u8>) {
    lemma_first_break_range(s);
}

/// `first_break` stays within the bytes.
proof fn lemma_first_break_range(s: Seq<u8>)
    ensures
        0 <= first_break(s) <= s.len(),
    decreases s.len(),
{
    if s.len() > 0 && s[0] != 10 {
        lemma_first_break_range(s.drop_first());
    }
}

/// The non-empty lines of the byte buffer, in order.
pub fn split_lines_vec(data: &Vec<u8>) -> (r: Vec<Vec<u8>>)
    ensures
        names_of(r@) == split_lines(data@),
{
    let n = data.len();
    let mut out: Vec<Vec<u8>> = Vec::new();
    let mut pos: usize = 0;
    proof {
        assert(names_of(out@) =~= Seq::<Seq<u8>>::empty());
        assert(names_of(out@) + split_lines(data@.skip(0)) =~= split_lines(data@.skip(0)));
        assert(data@.skip(0) =~= data@);
    }
    while pos < n
        invariant
            n == data.len(),
            pos <= n,
            names_of(out@) + split_lines(data@.skip(pos as int)) == split_lines(data@),
        decreases n - pos,
    {
        let ghost s = data@.skip(pos as int);
        let mut j: usize = pos;
        while j < n && data[j] != 10
            invariant
                n == data.len(),
                pos <= j <= n,
                forall|t: int| pos <= t < j ==> data@[t] != 10,
            decreases n - j,
        {
            j = j + 1;
        }
        proof {
            assert forall|i: int| 0 <= i < j - pos implies s[i] != 10 by {
                assert(s[i] == data@[pos + i]);
            }
            if j < n {
                assert(s[j - pos] == data@[j as int]);
            }
            lemma_first_break_at(s, j - pos);
        }
        let mut line: Vec<u8> = Vec::new();
        let mut t: usize = pos;
        while t < j
            invariant
                n == data.len(),
                pos <= t <= j <= n,
                line@ =~= data@.subrange(pos as int, t as int),
            decreases j - t,
        {
            line.push(data[t]);
            assert(line@ =~= data@.subrange(pos as int, t + 1));
            t = t + 1;
        }
        proof {
            assert(line@ =~= s.take(j - pos));
        }
        if line.len() > 0 && line[line.len() - 1] == 13 {
            line.pop();
            assert(line@ == trim_cr(s.take(j - pos)));
        } else {
            assert(line@ == trim_cr(s.take(j - pos)));
        }
        let ghost out_old = out@;
        if line.len() > 0 {
            out.push(line);
            proof {
                assert(names_of(out@) =~= names_of(out_old).push(trim_cr(s.take(j - pos))));
            }
        }
        proof {
            let jj = (j - pos) as int;
            assert(s.len() == n - pos);
            if j < n {
                assert(split_lines(s) == if trim_cr(s.take(jj)).len() == 0 {
                    split_lines(s.skip(jj + 1))
                } else {
                    seq![trim_cr(s.take(jj))] + split_lines(s.skip(jj + 1))
                });
                assert(s.skip(jj + 1) =~= data@.skip(j + 1));
                assert(names_of(out@) + split_lines(data@.skip(j + 1)) =~= names_of(out_old)
                    + split_lines(s));
            } else {
                assert(jj == s.len());
                assert(split_lines(s) == if trim_cr(s.take(jj)).len() == 0 {
                    Seq::<Seq<u8>>::empty()
                } else {
                    seq![trim_cr(s.take(jj))] + Seq::<Seq<u8>>::empty()
                });
                assert(data@.skip(n as int) =~= Seq::<u8>::empty());
                assert(names_of(out@) + split_lines(data@.skip(n as int)) =~= names_of(out_old)
                    + split_lines(s));
            }
        }
        if j < n {
            pos = j + 1;
        } else {
            pos = n;
        }
    }
    proof {
        assert(data@.skip(n as int) =~= Seq::<u8>::empty());
        assert(names_of(out@) + split_lines(data@.skip(n as int)) =~= names_of(out@));
    }
    out
}

/// Builds the set of enabled filenames from the load-order source's bytes: one
/// filename per non-empty line, folded. A missing or unreadable source is
/// handed in as an empty buffer and yields an empty set: absence is a
/// legitimate state, not an error.
pub fn build_installed_set(source: &Vec<u8>) -> (r: InstalledSet)
    ensures
        r.model() == split_lines(source@).map(|_i: int, l: Seq<u8>| fold_name(l)),
        forall|q: Seq<u8>| #[trigger] r.spec_contains(q) == split_lines(source@).map(
            |_i: int, l: Seq<u8>| fold_name(l),
        ).contains(fold_name(q)),
{
    let lines = split_lines_vec(source);
    let mut set = InstalledSet::new();
    let n = lines.len();
    let mut i: usize = 0;
    let ghost target = split_lines(source@).map(|_i: int, l: Seq<u8>| fold_name(l));
    proof {
        assert(set.model() =~= target.take(0));
    }
    while i < n
        invariant
            n == lines.len(),
            i <= n,
            names_of(lines@) == split_lines(source@),
            target == split_lines(source@).map(|_i: int, l: Seq<u8>| fold_name(l)),
            set.model() == target.take(i as int),
        decreases n - i,
    {
        let name = crate::names::copy_name(&lines[i]);
        set.insert(name);
        proof {
            assert(target[i as int] == fold_name(names_of(lines@)[i as int]));
            assert(set.model() =~= target.take(i + 1));
        }
        i = i + 1;
    }
    proof {
        assert(target.take(n as int) =~= target);
    }
    set
}

} // verus!
