//! The detected IDEs: every launcher found on the search path gives a name and
//! the program that it starts; the first launcher of each name wins, and the
//! names are listed in increasing order.
use vstd::prelude::*;

use crate::text::{chars_eq, chars_of};

verus! {

/// `a` comes before `b` in lexicographic order of their characters, which is
/// the order of `String`'s `Ord` (UTF-8 byte order and code point order agree).
pub open spec fn seq_less(a: Seq<char>, b: Seq<char>) -> bool
    decreases a.len(),
{
    if b.len() == 0 {
        false
    } else if a.len() == 0 {
        true
    } else if a[0] != b[0] {
        (a[0] as u32) < (b[0] as u32)
    } else {
        seq_less(a.drop_first(), b.drop_first())
    }
}

/// `seq_less` is total and asymmetric.
pub proof fn lemma_less_total(a: Seq<char>, b: Seq<char>)
    ensures
        a == b || seq_less(a, b) || seq_less(b, a),
        !(seq_less(a, b) && seq_less(b, a)),
    decreases a.len(),
{
    if a.len() > 0 && b.len() > 0 {
        if a[0] == b[0] {
            lemma_less_total(a.drop_first(), b.drop_first());
            if a.drop_first() == b.drop_first() {
                assert(a =~= seq![a[0]] + a.drop_first());
                assert(b =~= seq![b[0]] + b.drop_first());
            }
        } else {
            vstd::utf8::char_u32_cast(a[0], a[0] as u32);
            vstd::utf8::char_u32_cast(b[0], b[0] as u32);
        }
    } else if a.len() == 0 && b.len() == 0 {
        assert(a =~= b);
    }
}

/// `seq_less` is transitive.
pub proof fn lemma_less_transitive(a: Seq<char>, b: Seq<char>, c: Seq<char>)
    requires
        seq_less(a, b),
        seq_less(b, c),
    ensures
        seq_less(a, c),
    decreases a.len(),
{
    if a.len() > 0 && b.len() > 0 && c.len() > 0 {
        if a[0] == b[0] && b[0] == c[0] {
            lemma_less_transitive(a.drop_first(), b.drop_first(), c.drop_first());
        }
    }
}

/// Whether `a` comes before `b` (see `seq_less`).
pub fn chars_less(a: &Vec<char>, b: &Vec<char>) -> (r: bool)
    ensures
        r == seq_less(a@, b@),
{
    let mut i: usize = 0;
    assert(a@.skip(0) =~= a@ && b@.skip(0) =~= b@);
    while i < a.len() && i < b.len() && a[i] == b[i]
        invariant
            i <= a.len(),
            i <= b.len(),
            seq_less(a@, b@) == seq_less(a@.skip(i as int), b@.skip(i as int)),
        decreases a.len() - i,
    {
        proof {
            let sa = a@.skip(i as int);
            let sb = b@.skip(i as int);
            assert(sa.drop_first() =~= a@.skip(i + 1));
            assert(sb.drop_first() =~= b@.skip(i + 1));
        }
        i = i + 1;
    }
    if i == b.len() {
        false
    } else if i == a.len() {
        true
    } else {
        proof {
            assert(a@.skip(i as int)[0] == a@[i as int]);
            assert(b@.skip(i as int)[0] == b@[i as int]);
        }
        (a[i] as u32) < (b[i] as u32)
    }
}

/// The names are in strictly increasing order (so no name occurs twice).
pub open spec fn strictly_sorted(names: Seq<Seq<char>>) -> bool {
    forall|i: int, j: int| 0 <= i < j < names.len() ==> seq_less(names[i], names[j])
}

/// The `j`-th launcher found is the first one with its name.
pub open spec fn first_of_name(found: Seq<(Seq<char>, Seq<char>)>, j: int) -> bool {
    forall|m: int| 0 <= m < j ==> (#[trigger] found[m]).0 != found[j].0
}

/// `name` is one of `names`.
pub open spec fn lists(names: Seq<Seq<char>>, name: Seq<char>) -> bool {
    exists|i: int| 0 <= i < names.len() && names[i] == name
}

/// Some launcher of `found` is the first with `name` and has `target`.
pub open spec fn first_entry(
    found: Seq<(Seq<char>, Seq<char>)>,
    name: Seq<char>,
    target: Seq<char>,
) -> bool {
    exists|j: int|
        0 <= j < found.len() && found[j].0 == name && found[j].1 == target && first_of_name(found, j)
}

/// `names`/`targets` list each name of `found` once, in increasing order, with
/// the target of the first launcher of that name.
pub open spec fn registry_of(
    found: Seq<(Seq<char>, Seq<char>)>,
    names: Seq<Seq<char>>,
    targets: Seq<Seq<char>>,
) -> bool {
    &&& names.len() == targets.len()
    &&& strictly_sorted(names)
    &&& forall|j: int| 0 <= j < found.len() ==> lists(names, #[trigger] found[j].0)
    &&& forall|i: int| 0 <= i < names.len() ==> first_entry(found, #[trigger] names[i], targets[i])
}

/// The launchers as plain values.
pub open spec fn found_view(found: Seq<(String, String)>) -> Seq<(Seq<char>, Seq<char>)> {
    Seq::new(found.len(), |j: int| (found[j].0@, found[j].1@))
}

/// The names of a list of strings as plain values.
pub open spec fn strings_view(v: Seq<String>) -> Seq<Seq<char>> {
    Seq::new(v.len(), |i: int| v[i]@)
}

/// `registry_of` for the first `n` launchers, with witnesses: `pos[j]` is where
/// the name of launcher `j` is listed, `src[i]` is the first launcher of name `i`.
spec fn registry_upto(
    fv: Seq<(Seq<char>, Seq<char>)>,
    n: int,
    names: Seq<Seq<char>>,
    targets: Seq<Seq<char>>,
    src: Seq<int>,
    pos: Seq<int>,
) -> bool {
    &&& 0 <= n <= fv.len()
    &&& names.len() == targets.len()
    &&& src.len() == names.len()
    &&& pos.len() == n
    &&& strictly_sorted(names)
    &&& forall|j: int|
        0 <= j < n ==> 0 <= #[trigger] pos[j] < names.len() && names[pos[j]] == fv[j].0
    &&& forall|i: int|
        0 <= i < names.len() ==> 0 <= #[trigger] src[i] < n && fv[src[i]].0 == names[i]
            && fv[src[i]].1 == targets[i] && (forall|m: int|
            0 <= m < src[i] ==> (#[trigger] fv[m]).0 != names[i])
}

proof fn lemma_registry_done(
    fv: Seq<(Seq<char>, Seq<char>)>,
    names: Seq<Seq<char>>,
    targets: Seq<Seq<char>>,
    src: Seq<int>,
    pos: Seq<int>,
)
    requires
        registry_upto(fv, fv.len() as int, names, targets, src, pos),
    ensures
        registry_of(fv, names, targets),
{
    assert forall|j: int| 0 <= j < fv.len() implies lists(names, #[trigger] fv[j].0) by {
        let i = pos[j];
        assert(names[i] == fv[j].0);
    }
    assert forall|i: int| 0 <= i < names.len() implies first_entry(
        fv,
        #[trigger] names[i],
        targets[i],
    ) by {
        let j = src[i];
        assert(fv[j].0 == names[i]);
        assert forall|m: int| 0 <= m < j implies (#[trigger] fv[m]).0 != fv[j].0 by {}
        assert(first_of_name(fv, j));
    }
}

/// Lists each launcher name once, in increasing order, with the target of the
/// first launcher of that name.
pub fn collect_apps(found: &Vec<(String, String)>) -> (r: (Vec<String>, Vec<String>))
    ensures
        registry_of(found_view(found@), strings_view(r.0@), strings_view(r.1@)),
{
    let ghost fv = found_view(found@);
    let mut keys: Vec<Vec<char>> = Vec::new();
    let mut names: Vec<String> = Vec::new();
    let mut targets: Vec<String> = Vec::new();
    let ghost mut src: Seq<int> = Seq::empty();
    let ghost mut pos: Seq<int> = Seq::empty();
    let mut j: usize = 0;
    while j < found.len()
        invariant
            j <= found@.len(),
            fv == found_view(found@),
            keys@.len() == names@.len(),
            forall|i: int| 0 <= i < keys@.len() ==> #[trigger] keys@[i]@ == names@[i]@,
            registry_upto(fv, j as int, strings_view(names@), strings_view(targets@), src, pos),
        decreases found@.len() - j,
    {
        let ghost nv = strings_view(names@);
        let ghost tv = strings_view(targets@);
        let key = chars_of(found[j].0.as_str());
        assert(key@ == fv[j as int].0);
        // look for the name among those already listed
        let mut present = false;
        let mut w: usize = 0;
        let mut p: usize = 0;
        while p < keys.len()
            invariant
                keys@.len() == names@.len(),
                p <= keys@.len(),
                forall|i: int| 0 <= i < keys@.len() ==> #[trigger] keys@[i]@ == names@[i]@,
                present ==> w < names@.len() && names@[w as int]@ == key@,
                !present ==> forall|i: int| 0 <= i < p ==> names@[i]@ != key@,
            decreases keys@.len() - p,
        {
            if chars_eq(&keys[p], &key) {
                present = true;
                w = p;
            }
            p = p + 1;
        }
        if present {
            proof {
                assert(nv[w as int] == key@);
                pos = pos.push(w as int);
                assert forall|i: int| 0 <= i < nv.len() implies 0 <= #[trigger] src[i] < j + 1
                    && fv[src[i]].0 == nv[i] && fv[src[i]].1 == tv[i] && (forall|m: int|
                    0 <= m < src[i] ==> (#[trigger] fv[m]).0 != nv[i]) by {}
            }
        } else {
            // position: first listed name after the new one
            let mut q: usize = 0;
            while q < keys.len() && !chars_less(&key, &keys[q])
                invariant
                    keys@.len() == names@.len(),
                    q <= keys@.len(),
                    forall|i: int| 0 <= i < keys@.len() ==> #[trigger] keys@[i]@ == names@[i]@,
                    forall|i: int| 0 <= i < q ==> !seq_less(key@, #[trigger] names@[i]@),
                decreases keys@.len() - q,
            {
                q = q + 1;
            }
            let ghost kv = key@;
            let ghost tgt = fv[j as int].1;
            proof {
                assert forall|i: int| 0 <= i < nv.len() implies #[trigger] nv[i] != kv by {
                    assert(names@[i]@ != key@);
                }
                assert forall|i: int| 0 <= i < q implies !seq_less(kv, #[trigger] nv[i]) by {
                    assert(!seq_less(key@, names@[i]@));
                }
                let (s2, p2) = lemma_registry_insert(fv, j as int, nv, tv, src, pos, q as int);
                src = s2;
                pos = p2;
            }
            keys.insert(q, key);
            names.insert(q, found[j].0.clone());
            targets.insert(q, found[j].1.clone());
            proof {
                assert(strings_view(names@) =~= nv.insert(q as int, kv));
                assert(strings_view(targets@) =~= tv.insert(q as int, tgt));
                assert forall|i: int| 0 <= i < keys@.len() implies #[trigger] keys@[i]@
                    == names@[i]@ by {
                    if i < q {
                    } else if i > q {
                    }
                }
            }
        }
        j = j + 1;
    }
    proof {
        lemma_registry_done(fv, strings_view(names@), strings_view(targets@), src, pos);
    }
    (names, targets)
}

proof fn lemma_registry_insert(
    fv: Seq<(Seq<char>, Seq<char>)>,
    j: int,
    nv: Seq<Seq<char>>,
    tv: Seq<Seq<char>>,
    src: Seq<int>,
    pos: Seq<int>,
    q: int,
) -> (r: (Seq<int>, Seq<int>))
    requires
        0 <= j < fv.len(),
        registry_upto(fv, j, nv, tv, src, pos),
        0 <= q <= nv.len(),
        forall|i: int| 0 <= i < nv.len() ==> #[trigger] nv[i] != fv[j].0,
        forall|i: int| 0 <= i < q ==> !seq_less(fv[j].0, #[trigger] nv[i]),
        q < nv.len() ==> seq_less(fv[j].0, nv[q]),
    ensures
        registry_upto(fv, j + 1, nv.insert(q, fv[j].0), tv.insert(q, fv[j].1), r.0, r.1),
{
    let kv = fv[j].0;
    let nv2 = nv.insert(q, kv);
    let tv2 = tv.insert(q, fv[j].1);
    let src2 = src.insert(q, j);
    let pos2 = Seq::new((j + 1) as nat, |m: int| if m == j {
        q
    } else if pos[m] < q {
        pos[m]
    } else {
        pos[m] + 1
    });
    // sortedness
    assert forall|a: int, b: int| 0 <= a < b < nv2.len() implies seq_less(nv2[a], nv2[b]) by {
        if b < q {
            assert(nv2[a] == nv[a] && nv2[b] == nv[b]);
        } else if b == q {
            assert(nv2[a] == nv[a]);
            assert(!seq_less(kv, nv[a]));
            assert(nv[a] != kv);
            lemma_less_total(kv, nv[a]);
        } else if a == q {
            assert(nv2[b] == nv[b - 1]);
            if b - 1 > q {
                lemma_less_transitive(kv, nv[q], nv[b - 1]);
            }
        } else if a < q {
            assert(nv2[a] == nv[a] && nv2[b] == nv[b - 1]);
        } else {
            assert(nv2[a] == nv[a - 1] && nv2[b] == nv[b - 1]);
        }
    }
    assert forall|m: int| 0 <= m < j + 1 implies 0 <= #[trigger] pos2[m] < nv2.len() && nv2[pos2[m]]
        == fv[m].0 by {
        if m < j {
            if pos[m] < q {
                assert(nv2[pos[m]] == nv[pos[m]]);
            } else {
                assert(nv2[pos[m] + 1] == nv[pos[m]]);
            }
        }
    }
    assert forall|i: int| 0 <= i < nv2.len() implies 0 <= #[trigger] src2[i] < j + 1
        && fv[src2[i]].0 == nv2[i] && fv[src2[i]].1 == tv2[i] && (forall|m: int|
        0 <= m < src2[i] ==> (#[trigger] fv[m]).0 != nv2[i]) by {
        if i == q {
            assert forall|m: int| 0 <= m < j implies (#[trigger] fv[m]).0 != kv by {
                assert(nv[pos[m]] == fv[m].0);
            }
        } else if i < q {
            assert(src2[i] == src[i] && nv2[i] == nv[i] && tv2[i] == tv[i]);
        } else {
            assert(src2[i] == src[i - 1] && nv2[i] == nv[i - 1] && tv2[i] == tv[i - 1]);
        }
    }
    (src2, pos2)
}

} // verus!
