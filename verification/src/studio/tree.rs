//! Project-tree assembly: one asset node per directory entry, and the
//! order the tree lists siblings in — directories first, then by name
//! without regard to case, equal names keeping their scan order.

use std::path::PathBuf;

use vstd::prelude::*;

use super::assets::{classified, classify};
use super::model::{new_uuid_v4, uuid_v4_text, Asset};

verus! {

/// Lexicographic order of character sequences by code point (the order of
/// `String`s, whose UTF-8 byte order agrees with code-point order).
pub open spec fn lex_lt(a: Seq<char>, b: Seq<char>) -> bool {
    exists|i: int| #[trigger] lex_split(a, b, i)
}

/// `a` and `b` agree before position `i`, where `a` ends first or has the
/// smaller character.
pub open spec fn lex_split(a: Seq<char>, b: Seq<char>, i: int) -> bool {
    &&& 0 <= i <= a.len()
    &&& i <= b.len()
    &&& forall|k: int| 0 <= k < i ==> a[k] == b[k]
    &&& ((i == a.len() && i < b.len()) || (i < a.len() && i < b.len() && (a[i] as int) < (b[i] as int)))
}

proof fn lemma_lex_transitive(a: Seq<char>, b: Seq<char>, c: Seq<char>)
    requires
        lex_lt(a, b),
        lex_lt(b, c),
    ensures
        lex_lt(a, c),
{
    let i = choose|i: int| #[trigger] lex_split(a, b, i);
    let j = choose|j: int| #[trigger] lex_split(b, c, j);
    let m = if i < j { i } else { j };
    assert(lex_split(a, c, m));
}

proof fn lemma_lex_total(a: Seq<char>, b: Seq<char>)
    requires
        a != b,
    ensures
        lex_lt(a, b) || lex_lt(b, a),
{
    let n = if a.len() < b.len() { a.len() as int } else { b.len() as int };
    if forall|k: int| 0 <= k < n ==> a[k] == b[k] {
        if a.len() == b.len() {
            assert(a =~= b);
        } else if a.len() < b.len() {
            assert(lex_split(a, b, n));
        } else {
            assert(lex_split(b, a, n));
        }
    } else {
        let k0 = choose|k: int| 0 <= k < n && a[k] != b[k];
        lemma_first_difference(a, b, k0);
    }
}

proof fn lemma_first_difference(a: Seq<char>, b: Seq<char>, k0: int)
    requires
        0 <= k0 < a.len(),
        k0 < b.len(),
        a[k0] != b[k0],
    ensures
        lex_lt(a, b) || lex_lt(b, a),
    decreases k0,
{
    if forall|k: int| 0 <= k < k0 ==> a[k] == b[k] {
        if (a[k0] as int) < (b[k0] as int) {
            assert(lex_split(a, b, k0));
        } else {
            assert((b[k0] as int) != (a[k0] as int));
            assert(lex_split(b, a, k0));
        }
    } else {
        let k1 = choose|k: int| 0 <= k < k0 && a[k] != b[k];
        lemma_first_difference(a, b, k1);
    }
}

/// Whether `a` comes strictly before `b` in code-point order.
pub fn lex_less(a: &str, b: &str) -> (r: bool)
    ensures
        r == lex_lt(a@, b@),
{
    let na = a.unicode_len();
    let nb = b.unicode_len();
    let mut i: usize = 0;
    while i < na && i < nb
        invariant
            na == a@.len(),
            nb == b@.len(),
            i <= na,
            i <= nb,
            forall|k: int| 0 <= k < i ==> a@[k] == b@[k],
        decreases na - i,
    {
        let ca = a.get_char(i);
        let cb = b.get_char(i);
        if ca != cb {
            proof {
                if (ca as u32) < (cb as u32) {
                    assert(lex_split(a@, b@, i as int));
                } else {
                    assert(!lex_lt(a@, b@)) by {
                        if lex_lt(a@, b@) {
                            let j = choose|j: int| #[trigger] lex_split(a@, b@, j);
                            if j < i {
                                assert(a@[j] == b@[j]);
                            } else if j > i {
                                assert(a@[i as int] == b@[i as int]);
                            }
                        }
                    }
                }
            }
            return (ca as u32) < (cb as u32);
        }
        i = i + 1;
    }
    proof {
        if i == na && i < nb {
            assert(lex_split(a@, b@, i as int));
        } else {
            assert(!lex_lt(a@, b@)) by {
                if lex_lt(a@, b@) {
                    let j = choose|j: int| #[trigger] lex_split(a@, b@, j);
                    if j < i {
                        assert(a@[j] == b@[j]);
                    }
                }
            }
        }
    }
    i == na && i < nb
}

/// What `str::to_lowercase` returns for `s` (full Unicode case mapping).
pub uninterp spec fn unicode_lowercase(s: Seq<char>) -> Seq<char>;

/// `str::to_lowercase`: the Unicode lower-case mapping of `s`, a function
/// of `s` alone.
#[verifier::external_body]
pub(crate) fn to_lowercase(s: &str) -> (r: String)
    ensures
        r@ == unicode_lowercase(s@),
{
    s.to_lowercase()
}

/// Sort key of a tree entry whose case-folded name is `folded`: its
/// directory flag and that name.
pub open spec fn key_with(a: Asset, folded: Seq<char>) -> (bool, Seq<char>) {
    (a.is_dir, folded)
}

/// Directories before files; within each, names in code-point order.
pub open spec fn key_before(a: (bool, Seq<char>), b: (bool, Seq<char>)) -> bool {
    (a.0 && !b.0) || (a.0 == b.0 && lex_lt(a.1, b.1))
}

/// The listing order of entries with keys `ka`, `kb` scanned at positions
/// `pa`, `pb`: by key, and by scan position among equal keys.
pub open spec fn listed_before(ka: (bool, Seq<char>), pa: int, kb: (bool, Seq<char>), pb: int) -> bool {
    key_before(ka, kb) || (ka == kb && pa < pb)
}

/// `perm` is a permutation of `0..n`.
pub open spec fn is_permutation(perm: Seq<int>, n: nat) -> bool {
    &&& perm.len() == n
    &&& forall|k: int| 0 <= k < n ==> 0 <= #[trigger] perm[k] < n
    &&& forall|a: int, b: int| 0 <= a < n && 0 <= b < n && a != b ==> #[trigger] perm[a] != #[trigger] perm[b]
}

/// `out` lists the entries of `inp` in listing order, where `folded[i]`
/// is the case-folded name of `inp[i]`: it is `inp` rearranged by a
/// permutation under which keys (with scan position as the tie-break)
/// strictly increase.
pub open spec fn listing_by(out: Seq<Asset>, inp: Seq<Asset>, folded: Seq<Seq<char>>) -> bool {
    exists|perm: Seq<int>|
        {
            &&& #[trigger] is_permutation(perm, inp.len())
            &&& out.len() == inp.len()
            &&& forall|k: int| 0 <= k < out.len() ==> out[k] == inp[#[trigger] perm[k]]
            &&& forall|a: int, b: int|
                0 <= a < b < out.len() ==> listed_before(
                    key_with(#[trigger] out[a], folded[perm[a]]),
                    perm[a],
                    key_with(#[trigger] out[b], folded[perm[b]]),
                    perm[b],
                )
        }
}

/// The entries' names under `str::to_lowercase`.
pub open spec fn folded_names(inp: Seq<Asset>) -> Seq<Seq<char>> {
    inp.map_values(|a: Asset| unicode_lowercase(a.name@))
}

/// `out` lists the entries of `inp` in listing order, names compared
/// after `str::to_lowercase`.
pub open spec fn listing_of(out: Seq<Asset>, inp: Seq<Asset>) -> bool {
    listing_by(out, inp, folded_names(inp))
}

proof fn lemma_listed_trans(
    ka: (bool, Seq<char>),
    pa: int,
    kb: (bool, Seq<char>),
    pb: int,
    kc: (bool, Seq<char>),
    pc: int,
)
    requires
        listed_before(ka, pa, kb, pb),
        listed_before(kb, pb, kc, pc),
    ensures
        listed_before(ka, pa, kc, pc),
{
    if ka.0 == kb.0 && kb.0 == kc.0 && lex_lt(ka.1, kb.1) && lex_lt(kb.1, kc.1) {
        lemma_lex_transitive(ka.1, kb.1, kc.1);
    }
}

proof fn lemma_listed_total(ka: (bool, Seq<char>), pa: int, kb: (bool, Seq<char>), pb: int)
    requires
        pa != pb,
        !key_before(ka, kb),
    ensures
        listed_before(kb, pb, ka, pa) || (ka == kb && pa < pb),
{
    if ka != kb && ka.0 == kb.0 {
        if ka.1 == kb.1 {
            assert(ka == kb);
        }
        lemma_lex_total(ka.1, kb.1);
    }
}

/// Sort sibling entries into listing order given their case-folded names
/// (`folded[i]` for `assets[i]`): directories first, then by folded name
/// in code-point order, entries with equal keys keeping their order.
pub fn sort_by_folded(assets: &mut Vec<Asset>, folded: Vec<String>)
    requires
        folded@.len() == old(assets)@.len(),
    ensures
        listing_by(final(assets)@, old(assets)@, folded@.map_values(|s: String| s@)),
{
    let ghost orig = assets@;
    let ghost f0 = folded@.map_values(|s: String| s@);
    let n = assets.len();
    let mut keys = folded;
    let ghost mut perm: Seq<int> = Seq::new(n as nat, |m: int| m);
    let mut i: usize = 0;
    while i < n
        invariant
            n == orig.len(),
            f0.len() == n,
            assets@.len() == n,
            keys@.len() == n,
            i <= n,
            is_permutation(perm, n as nat),
            forall|m: int| 0 <= m < n ==> assets@[m] == orig[#[trigger] perm[m]],
            forall|m: int| 0 <= m < n ==> (#[trigger] keys@[m])@ == f0[perm[m]],
            forall|m: int| i <= m < n ==> #[trigger] perm[m] == m,
            forall|m: int| 0 <= m < i ==> #[trigger] perm[m] < i,
            forall|a: int, b: int|
                0 <= a < b < i ==> listed_before(
                    key_with(#[trigger] assets@[a], keys@[a]@),
                    perm[a],
                    key_with(#[trigger] assets@[b], keys@[b]@),
                    perm[b],
                ),
        decreases n - i,
    {
        let mut j: usize = i;
        while j > 0 && before_at(assets, &keys, j)
            invariant
                n == orig.len(),
                f0.len() == n,
                assets@.len() == n,
                keys@.len() == n,
                i < n,
                j <= i,
                is_permutation(perm, n as nat),
                forall|m: int| 0 <= m < n ==> assets@[m] == orig[#[trigger] perm[m]],
                forall|m: int| 0 <= m < n ==> (#[trigger] keys@[m])@ == f0[perm[m]],
                forall|m: int| i < m < n ==> #[trigger] perm[m] == m,
                forall|m: int| 0 <= m <= i && m != j ==> #[trigger] perm[m] < i,
                perm[j as int] == i,
                forall|a: int, b: int|
                    0 <= a < b < j ==> listed_before(
                        key_with(#[trigger] assets@[a], keys@[a]@),
                        perm[a],
                        key_with(#[trigger] assets@[b], keys@[b]@),
                        perm[b],
                    ),
                forall|a: int, b: int|
                    j <= a < b <= i ==> listed_before(
                        key_with(#[trigger] assets@[a], keys@[a]@),
                        perm[a],
                        key_with(#[trigger] assets@[b], keys@[b]@),
                        perm[b],
                    ),
                forall|a: int, b: int|
                    0 <= a < j && j < b <= i ==> listed_before(
                        key_with(#[trigger] assets@[a], keys@[a]@),
                        perm[a],
                        key_with(#[trigger] assets@[b], keys@[b]@),
                        perm[b],
                    ),
            decreases j,
        {
            let ghost pre = assets@;
            let ghost pre_keys = keys@;
            let ghost pre_perm = perm;
            let moved = assets.remove(j);
            assets.insert(j - 1, moved);
            let moved_key = keys.remove(j);
            keys.insert(j - 1, moved_key);
            proof {
                let jj = j as int;
                perm = pre_perm.update(jj - 1, pre_perm[jj]).update(jj, pre_perm[jj - 1]);
                assert(assets@ =~= pre.update(jj - 1, pre[jj]).update(jj, pre[jj - 1]));
                assert(keys@ =~= pre_keys.update(jj - 1, pre_keys[jj]).update(jj, pre_keys[jj - 1]));
                assert forall|a: int, b: int|
                    jj - 1 <= a < b <= i implies listed_before(
                        key_with(#[trigger] assets@[a], keys@[a]@),
                        perm[a],
                        key_with(#[trigger] assets@[b], keys@[b]@),
                        perm[b],
                    ) by {
                    if a == jj - 1 && b == jj {
                    } else if a == jj - 1 {
                        assert(listed_before(
                            key_with(pre[jj], pre_keys[jj]@),
                            pre_perm[jj],
                            key_with(pre[b], pre_keys[b]@),
                            pre_perm[b],
                        ));
                    } else {
                        assert(listed_before(
                            key_with(pre[jj - 1], pre_keys[jj - 1]@),
                            pre_perm[jj - 1],
                            key_with(pre[b], pre_keys[b]@),
                            pre_perm[b],
                        ));
                    }
                }
                assert forall|a: int, b: int|
                    0 <= a < jj - 1 && jj - 1 < b <= i implies listed_before(
                        key_with(#[trigger] assets@[a], keys@[a]@),
                        perm[a],
                        key_with(#[trigger] assets@[b], keys@[b]@),
                        perm[b],
                    ) by {
                    if b == jj {
                        assert(listed_before(
                            key_with(pre[a], pre_keys[a]@),
                            pre_perm[a],
                            key_with(pre[jj - 1], pre_keys[jj - 1]@),
                            pre_perm[jj - 1],
                        ));
                    } else {
                        assert(listed_before(
                            key_with(pre[a], pre_keys[a]@),
                            pre_perm[a],
                            key_with(pre[b], pre_keys[b]@),
                            pre_perm[b],
                        ));
                    }
                }
            }
            j = j - 1;
        }
        proof {
            let jj = j as int;
            if jj > 0 {
                lemma_listed_total(
                    key_with(assets@[jj], keys@[jj]@),
                    perm[jj],
                    key_with(assets@[jj - 1], keys@[jj - 1]@),
                    perm[jj - 1],
                );
            }
            assert forall|a: int, b: int|
                0 <= a < b < i + 1 implies listed_before(
                    key_with(#[trigger] assets@[a], keys@[a]@),
                    perm[a],
                    key_with(#[trigger] assets@[b], keys@[b]@),
                    perm[b],
                ) by {
                if a < jj && b == jj {
                    if a < jj - 1 {
                        lemma_listed_trans(
                            key_with(assets@[a], keys@[a]@),
                            perm[a],
                            key_with(assets@[jj - 1], keys@[jj - 1]@),
                            perm[jj - 1],
                            key_with(assets@[jj], keys@[jj]@),
                            perm[jj],
                        );
                    }
                }
            }
        }
        i = i + 1;
    }
    proof {
        assert(is_permutation(perm, orig.len()));
        assert forall|a: int, b: int|
            0 <= a < b < assets@.len() implies listed_before(
                key_with(#[trigger] assets@[a], f0[perm[a]]),
                perm[a],
                key_with(#[trigger] assets@[b], f0[perm[b]]),
                perm[b],
            ) by {
            assert(keys@[a]@ == f0[perm[a]]);
            assert(keys@[b]@ == f0[perm[b]]);
        }
    }
}

/// Whether the entry at `j` sorts strictly before the one at `j - 1`.
fn before_at(assets: &Vec<Asset>, keys: &Vec<String>, j: usize) -> (r: bool)
    requires
        0 < j < assets@.len(),
        keys@.len() == assets@.len(),
    ensures
        r == key_before(key_with(assets@[j as int], keys@[j as int]@), key_with(assets@[j - 1], keys@[j - 1]@)),
{
    let a = assets[j].is_dir;
    let b = assets[j - 1].is_dir;
    if a && !b {
        true
    } else if a == b {
        lex_less(keys[j].as_str(), keys[j - 1].as_str())
    } else {
        false
    }
}

/// Sort sibling entries into listing order: directories first, then by
/// name lower-cased with `str::to_lowercase`, entries with equal keys
/// keeping their order.
pub fn sort_assets(assets: &mut Vec<Asset>)
    ensures
        listing_of(final(assets)@, old(assets)@),
{
    let ghost orig = assets@;
    let n = assets.len();
    let mut keys: Vec<String> = Vec::new();
    let mut k: usize = 0;
    while k < n
        invariant
            assets@ == orig,
            n == orig.len(),
            k <= n,
            keys@.len() == k,
            forall|m: int| 0 <= m < k ==> (#[trigger] keys@[m])@ == unicode_lowercase(orig[m].name@),
        decreases n - k,
    {
        let lowered = to_lowercase(assets[k].name.as_str());
        keys.push(lowered);
        k = k + 1;
    }
    proof {
        assert(keys@.map_values(|s: String| s@) =~= folded_names(orig));
    }
    sort_by_folded(assets, keys);
}

/// Sort key of entry `i` of a listing given its directory flags and names.
pub open spec fn name_key(dirs: Seq<bool>, names: Seq<String>, i: int) -> (bool, Seq<char>) {
    (dirs[i], names[i]@)
}

/// Whether entry `i` sorts strictly before entry `j`.
fn key_before_at(dirs: &Vec<bool>, names: &Vec<String>, i: usize, j: usize) -> (r: bool)
    requires
        i < dirs@.len(),
        j < dirs@.len(),
        names@.len() == dirs@.len(),
    ensures
        r == key_before(name_key(dirs@, names@, i as int), name_key(dirs@, names@, j as int)),
{
    let a = dirs[i];
    let b = dirs[j];
    if a && !b {
        true
    } else if a == b {
        lex_less(names[i].as_str(), names[j].as_str())
    } else {
        false
    }
}

/// The listing order of directory entries given by their directory flags
/// and names, as positions into them: directories first, then names in
/// code-point order, entries with equal keys keeping their order.
pub fn listing_order(dirs: &Vec<bool>, names: &Vec<String>) -> (r: Vec<usize>)
    requires
        names@.len() == dirs@.len(),
    ensures
        r@.len() == dirs@.len(),
        forall|k: int| 0 <= k < r@.len() ==> #[trigger] r@[k] < dirs@.len(),
        forall|a: int, b: int| 0 <= a < r@.len() && 0 <= b < r@.len() && a != b ==> #[trigger] r@[a] != #[trigger] r@[b],
        forall|a: int, b: int|
            0 <= a < b < r@.len() ==> listed_before(
                name_key(dirs@, names@, #[trigger] r@[a] as int),
                r@[a] as int,
                name_key(dirs@, names@, #[trigger] r@[b] as int),
                r@[b] as int,
            ),
{
    let n = dirs.len();
    let mut order: Vec<usize> = Vec::new();
    let mut k: usize = 0;
    while k < n
        invariant
            k <= n,
            order@.len() == k,
            forall|m: int| 0 <= m < k ==> #[trigger] order@[m] == m,
        decreases n - k,
    {
        order.push(k);
        k = k + 1;
    }
    let mut i: usize = 0;
    while i < n
        invariant
            n == dirs@.len(),
            names@.len() == n,
            order@.len() == n,
            i <= n,
            forall|m: int| 0 <= m < n ==> #[trigger] order@[m] < n,
            forall|a: int, b: int| 0 <= a < n && 0 <= b < n && a != b ==> #[trigger] order@[a] != #[trigger] order@[b],
            forall|m: int| i <= m < n ==> #[trigger] order@[m] == m,
            forall|m: int| 0 <= m < i ==> #[trigger] order@[m] < i,
            forall|a: int, b: int|
                0 <= a < b < i ==> listed_before(
                    name_key(dirs@, names@, #[trigger] order@[a] as int),
                    order@[a] as int,
                    name_key(dirs@, names@, #[trigger] order@[b] as int),
                    order@[b] as int,
                ),
        decreases n - i,
    {
        let mut j: usize = i;
        while j > 0 && key_before_at(dirs, names, order[j], order[j - 1])
            invariant
                n == dirs@.len(),
                names@.len() == n,
                order@.len() == n,
                i < n,
                j <= i,
                forall|m: int| 0 <= m < n ==> #[trigger] order@[m] < n,
                forall|a: int, b: int| 0 <= a < n && 0 <= b < n && a != b ==> #[trigger] order@[a] != #[trigger] order@[b],
                forall|m: int| i < m < n ==> #[trigger] order@[m] == m,
                forall|m: int| 0 <= m <= i && m != j ==> #[trigger] order@[m] < i,
                order@[j as int] == i,
                forall|a: int, b: int|
                    0 <= a < b < j ==> listed_before(
                        name_key(dirs@, names@, #[trigger] order@[a] as int),
                        order@[a] as int,
                        name_key(dirs@, names@, #[trigger] order@[b] as int),
                        order@[b] as int,
                    ),
                forall|a: int, b: int|
                    j <= a < b <= i ==> listed_before(
                        name_key(dirs@, names@, #[trigger] order@[a] as int),
                        order@[a] as int,
                        name_key(dirs@, names@, #[trigger] order@[b] as int),
                        order@[b] as int,
                    ),
                forall|a: int, b: int|
                    0 <= a < j && j < b <= i ==> listed_before(
                        name_key(dirs@, names@, #[trigger] order@[a] as int),
                        order@[a] as int,
                        name_key(dirs@, names@, #[trigger] order@[b] as int),
                        order@[b] as int,
                    ),
            decreases j,
        {
            let ghost pre = order@;
            let lo = order[j - 1];
            let hi = order[j];
            order.set(j - 1, hi);
            order.set(j, lo);
            proof {
                let jj = j as int;
                assert(order@ =~= pre.update(jj - 1, pre[jj]).update(jj, pre[jj - 1]));
                assert forall|a: int, b: int| 0 <= a < n && 0 <= b < n && a != b implies #[trigger] order@[a]
                    != #[trigger] order@[b] by {
                    let pa = if a == jj - 1 { jj } else if a == jj { jj - 1 } else { a };
                    let pb = if b == jj - 1 { jj } else if b == jj { jj - 1 } else { b };
                    assert(order@[a] == pre[pa] && order@[b] == pre[pb]);
                }
                assert forall|a: int, b: int|
                    jj - 1 <= a < b <= i implies listed_before(
                        name_key(dirs@, names@, #[trigger] order@[a] as int),
                        order@[a] as int,
                        name_key(dirs@, names@, #[trigger] order@[b] as int),
                        order@[b] as int,
                    ) by {
                    if a == jj - 1 && b == jj {
                    } else if a == jj - 1 {
                        assert(listed_before(
                            name_key(dirs@, names@, pre[jj] as int),
                            pre[jj] as int,
                            name_key(dirs@, names@, pre[b] as int),
                            pre[b] as int,
                        ));
                    } else {
                        assert(listed_before(
                            name_key(dirs@, names@, pre[jj - 1] as int),
                            pre[jj - 1] as int,
                            name_key(dirs@, names@, pre[b] as int),
                            pre[b] as int,
                        ));
                    }
                }
                assert forall|a: int, b: int|
                    0 <= a < jj - 1 && jj - 1 < b <= i implies listed_before(
                        name_key(dirs@, names@, #[trigger] order@[a] as int),
                        order@[a] as int,
                        name_key(dirs@, names@, #[trigger] order@[b] as int),
                        order@[b] as int,
                    ) by {
                    if b == jj {
                        assert(listed_before(
                            name_key(dirs@, names@, pre[a] as int),
                            pre[a] as int,
                            name_key(dirs@, names@, pre[jj - 1] as int),
                            pre[jj - 1] as int,
                        ));
                    } else {
                        assert(listed_before(
                            name_key(dirs@, names@, pre[a] as int),
                            pre[a] as int,
                            name_key(dirs@, names@, pre[b] as int),
                            pre[b] as int,
                        ));
                    }
                }
            }
            j = j - 1;
        }
        proof {
            let jj = j as int;
            if jj > 0 {
                lemma_listed_total(
                    name_key(dirs@, names@, order@[jj] as int),
                    order@[jj] as int,
                    name_key(dirs@, names@, order@[jj - 1] as int),
                    order@[jj - 1] as int,
                );
            }
            assert forall|a: int, b: int|
                0 <= a < b < i + 1 implies listed_before(
                    name_key(dirs@, names@, #[trigger] order@[a] as int),
                    order@[a] as int,
                    name_key(dirs@, names@, #[trigger] order@[b] as int),
                    order@[b] as int,
                ) by {
                if a < jj && b == jj {
                    if a < jj - 1 {
                        lemma_listed_trans(
                            name_key(dirs@, names@, order@[a] as int),
                            order@[a] as int,
                            name_key(dirs@, names@, order@[jj - 1] as int),
                            order@[jj - 1] as int,
                            name_key(dirs@, names@, order@[jj] as int),
                            order@[jj] as int,
                        );
                    }
                }
            }
        }
        i = i + 1;
    }
    order
}

/// The tree node for a scanned entry: a fresh random id, its name and
/// path, its kind from the extension (or `Dir`), and the entries found
/// below it.
pub fn make_asset(name: String, path: PathBuf, ext: Option<&str>, is_dir: bool, children: Vec<Asset>) -> (r: Asset)
    ensures
        uuid_v4_text(r.id@),
        r.name == name,
        r.path == path,
        r.kind == classified(
            match ext {
                Some(e) => Some(e@),
                None => None,
            },
            is_dir,
        ),
        r.is_dir == is_dir,
        r.children == children,
{
    let kind = classify(ext, is_dir);
    Asset { id: new_uuid_v4(), name, path, kind, is_dir, children }
}

} // verus!
