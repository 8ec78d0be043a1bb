//! Classification of object keys into up and down migrations.
use vstd::prelude::*;
use vstd::utf8::encode_utf8;

verus! {

/// The UTF-8 bytes of `migrations/`: every migration key lies under a first
/// path segment `migrations`.
pub open spec fn migrations_prefix() -> Seq<u8> {
    seq![109u8, 105u8, 103u8, 114u8, 97u8, 116u8, 105u8, 111u8, 110u8, 115u8, 47u8]
}

/// The UTF-8 bytes of `up.sql`, which every up-migration key ends with.
pub open spec fn up_suffix() -> Seq<u8> {
    seq![117u8, 112u8, 46u8, 115u8, 113u8, 108u8]
}

/// The UTF-8 bytes of `down.sql`, which every down-migration key ends with.
pub open spec fn down_suffix() -> Seq<u8> {
    seq![100u8, 111u8, 119u8, 110u8, 46u8, 115u8, 113u8, 108u8]
}

pub open spec fn seq_has_prefix(b: Seq<u8>, p: Seq<u8>) -> bool {
    p.len() <= b.len() && b.subrange(0, p.len() as int) == p
}

pub open spec fn seq_has_suffix(b: Seq<u8>, p: Seq<u8>) -> bool {
    p.len() <= b.len() && b.subrange(b.len() - p.len(), b.len() as int) == p
}

/// A key names an up migration: it lies under the path segment
/// `migrations` (begins with `migrations/`) and ends with `up.sql`.
pub open spec fn is_up_key(k: String) -> bool {
    seq_has_prefix(encode_utf8(k@), migrations_prefix()) && seq_has_suffix(
        encode_utf8(k@),
        up_suffix(),
    )
}

/// A key names a down migration: it lies under the path segment
/// `migrations` (begins with `migrations/`) and ends with `down.sql`.
pub open spec fn is_down_key(k: String) -> bool {
    seq_has_prefix(encode_utf8(k@), migrations_prefix()) && seq_has_suffix(
        encode_utf8(k@),
        down_suffix(),
    )
}

pub open spec fn up_pred() -> spec_fn(String) -> bool {
    |k: String| is_up_key(k)
}

pub open spec fn down_pred() -> spec_fn(String) -> bool {
    |k: String| is_down_key(k)
}

/// The up migrations among `keys`, in the order they were listed.
pub open spec fn up_keys(keys: Seq<String>) -> Seq<String> {
    keys.filter(up_pred())
}

/// The down migrations among `keys`, in the order they were listed.
pub open spec fn down_keys(keys: Seq<String>) -> Seq<String> {
    keys.filter(down_pred())
}

fn has_prefix(b: &[u8], p: &[u8]) -> (r: bool)
    ensures
        r == seq_has_prefix(b@, p@),
{
    if p.len() > b.len() {
        return false;
    }
    let mut i: usize = 0;
    while i < p.len()
        invariant
            p@.len() <= b@.len(),
            i <= p@.len(),
            forall|j: int| 0 <= j < i ==> b@[j] == p@[j],
        decreases p@.len() - i,
    {
        if b[i] != p[i] {
            assert(b@.subrange(0, p@.len() as int)[i as int] != p@[i as int]);
            return false;
        }
        i = i + 1;
    }
    assert(b@.subrange(0, p@.len() as int) =~= p@);
    true
}

fn has_suffix(b: &[u8], p: &[u8]) -> (r: bool)
    ensures
        r == seq_has_suffix(b@, p@),
{
    if p.len() > b.len() {
        return false;
    }
    let off: usize = b.len() - p.len();
    let mut i: usize = 0;
    while i < p.len()
        invariant
            p@.len() <= b@.len(),
            off == b@.len() - p@.len(),
            off + p@.len() == b.len(),
            i <= p@.len(),
            forall|j: int| 0 <= j < i ==> b@[off + j] == p@[j],
        decreases p@.len() - i,
    {
        if b[off + i] != p[i] {
            assert(b@.subrange(off as int, b@.len() as int)[i as int] != p@[i as int]);
            return false;
        }
        i = i + 1;
    }
    assert(b@.subrange(off as int, b@.len() as int) =~= p@);
    true
}

/// Whether `key` names an up migration.
pub fn is_up_migration(key: &String) -> (r: bool)
    ensures
        r == is_up_key(*key),
{
    let b = key.as_str().as_bytes();
    let pre: Vec<u8> = vec![109u8, 105u8, 103u8, 114u8, 97u8, 116u8, 105u8, 111u8, 110u8, 115u8, 47u8];
    let suf: Vec<u8> = vec![117u8, 112u8, 46u8, 115u8, 113u8, 108u8];
    assert(pre@ =~= migrations_prefix());
    assert(suf@ =~= up_suffix());
    has_prefix(b, pre.as_slice()) && has_suffix(b, suf.as_slice())
}

/// Whether `key` names a down migration.
pub fn is_down_migration(key: &String) -> (r: bool)
    ensures
        r == is_down_key(*key),
{
    let b = key.as_str().as_bytes();
    let pre: Vec<u8> = vec![109u8, 105u8, 103u8, 114u8, 97u8, 116u8, 105u8, 111u8, 110u8, 115u8, 47u8];
    let suf: Vec<u8> = vec![100u8, 111u8, 119u8, 110u8, 46u8, 115u8, 113u8, 108u8];
    assert(pre@ =~= migrations_prefix());
    assert(suf@ =~= down_suffix());
    has_prefix(b, pre.as_slice()) && has_suffix(b, suf.as_slice())
}


proof fn lemma_filter_step(keys: Seq<String>, i: int, pred: spec_fn(String) -> bool)
    requires
        0 <= i < keys.len(),
    ensures
        keys.subrange(0, i + 1).filter(pred) == if pred(keys[i]) {
            keys.subrange(0, i).filter(pred).push(keys[i])
        } else {
            keys.subrange(0, i).filter(pred)
        },
{
    reveal(Seq::filter);
    assert(keys.subrange(0, i + 1).drop_last() =~= keys.subrange(0, i));
}

/// The keys of `keys` that name up migrations, in their listed order.
pub fn select_up(keys: &Vec<String>) -> (r: Vec<String>)
    ensures
        r@ == up_keys(keys@),
{
    let mut out: Vec<String> = Vec::new();
    let mut i: usize = 0;
    while i < keys.len()
        invariant
            i <= keys@.len(),
            out@ == keys@.subrange(0, i as int).filter(up_pred()),
        decreases keys@.len() - i,
    {
        proof {
            lemma_filter_step(keys@, i as int, up_pred());
        }
        if is_up_migration(&keys[i]) {
            out.push(keys[i].clone());
        }
        i = i + 1;
    }
    assert(keys@.subrange(0, keys@.len() as int) =~= keys@);
    out
}

/// The keys of `keys` that name down migrations, in their listed order.
pub fn select_down(keys: &Vec<String>) -> (r: Vec<String>)
    ensures
        r@ == down_keys(keys@),
{
    let mut out: Vec<String> = Vec::new();
    let mut i: usize = 0;
    while i < keys.len()
        invariant
            i <= keys@.len(),
            out@ == keys@.subrange(0, i as int).filter(down_pred()),
        decreases keys@.len() - i,
    {
        proof {
            lemma_filter_step(keys@, i as int, down_pred());
        }
        if is_down_migration(&keys[i]) {
            out.push(keys[i].clone());
        }
        i = i + 1;
    }
    assert(keys@.subrange(0, keys@.len() as int) =~= keys@);
    out
}

/// No key names both an up and a down migration: the last six bytes of an
/// up key spell `up.sql`, those of a down key `wn.sql`.
pub proof fn lemma_up_down_exclusive(k: String)
    ensures
        !(is_up_key(k) && is_down_key(k)),
{
    let b = encode_utf8(k@);
    if is_up_key(k) && is_down_key(k) {
        assert(b.subrange(b.len() - 6, b.len() as int)[0] == 117u8);
        assert(b.subrange(b.len() - 8, b.len() as int)[2] == 119u8);
        assert(b[b.len() - 6] == 117u8);
        assert(b[b.len() - 6] == 119u8);
    }
}

proof fn lemma_filter_contains_iff(keys: Seq<String>, pred: spec_fn(String) -> bool)
    ensures
        forall|k: String| #[trigger]
            keys.filter(pred).contains(k) <==> keys.contains(k) && pred(k),
{
    assert forall|k: String| #[trigger]
        keys.filter(pred).contains(k) <==> keys.contains(k) && pred(k) by {
        if keys.filter(pred).contains(k) {
            keys.lemma_filter_contains_rev(pred, k);
            let j = choose|j: int| 0 <= j < keys.filter(pred).len() && keys.filter(pred)[j] == k;
            keys.lemma_filter_pred(pred, j);
        }
        if keys.contains(k) && pred(k) {
            let j = choose|j: int| 0 <= j < keys.len() && keys[j] == k;
            keys.lemma_filter_contains(pred, j);
        }
    }
}

/// The up and down selections split a listing into two disjoint parts: each
/// holds exactly the listed keys of its kind, no key lands in both, and a
/// key of neither kind lands in neither.
pub proof fn lemma_selections_partition(keys: Seq<String>)
    ensures
        forall|k: String| #[trigger]
            up_keys(keys).contains(k) <==> keys.contains(k) && is_up_key(k),
        forall|k: String| #[trigger]
            down_keys(keys).contains(k) <==> keys.contains(k) && is_down_key(k),
        forall|k: String|
            !(#[trigger] up_keys(keys).contains(k) && #[trigger] down_keys(keys).contains(k)),
        forall|k: String|
            !is_up_key(k) && !is_down_key(k) ==> !(#[trigger] up_keys(keys).contains(k))
                && !(#[trigger] down_keys(keys).contains(k)),
{
    lemma_filter_contains_iff(keys, up_pred());
    lemma_filter_contains_iff(keys, down_pred());
    assert forall|k: String|
        !(#[trigger] up_keys(keys).contains(k) && #[trigger] down_keys(keys).contains(k)) by {
        lemma_up_down_exclusive(k);
    }
}

/// Selection keeps the listed order: the selection of two listings one after
/// the other is the selection of the first followed by that of the second,
/// and a single key is kept exactly when it is of the selected kind.
pub proof fn lemma_selection_keeps_order(a: Seq<String>, b: Seq<String>, k: String)
    ensures
        up_keys(a + b) == up_keys(a) + up_keys(b),
        down_keys(a + b) == down_keys(a) + down_keys(b),
        up_keys(seq![k]) == if is_up_key(k) { seq![k] } else { Seq::<String>::empty() },
        down_keys(seq![k]) == if is_down_key(k) { seq![k] } else { Seq::<String>::empty() },
{
    Seq::filter_distributes_over_add(a, b, up_pred());
    Seq::filter_distributes_over_add(a, b, down_pred());
    reveal_with_fuel(Seq::filter, 2);
    assert(seq![k].drop_last() =~= Seq::<String>::empty());
}

proof fn lemma_filter_idempotent(keys: Seq<String>, pred: spec_fn(String) -> bool)
    ensures
        keys.filter(pred).filter(pred) == keys.filter(pred),
    decreases keys.len(),
{
    reveal(Seq::filter);
    if keys.len() > 0 {
        let rest = keys.drop_last().filter(pred);
        lemma_filter_idempotent(keys.drop_last(), pred);
        if pred(keys.last()) {
            assert(rest.push(keys.last()).drop_last() =~= rest);
        }
    }
}

/// Selecting again from a selection changes nothing.
pub proof fn lemma_selection_idempotent(keys: Seq<String>)
    ensures
        up_keys(up_keys(keys)) == up_keys(keys),
        down_keys(down_keys(keys)) == down_keys(keys),
{
    lemma_filter_idempotent(keys, up_pred());
    lemma_filter_idempotent(keys, down_pred());
}

proof fn lemma_filter_keeps_order(s: Seq<String>, pred: spec_fn(String) -> bool, i: int, j: int)
    requires
        0 <= i < j < s.filter(pred).len(),
    ensures
        exists|p: int, q: int|
            #![trigger s[p], s[q]]
            0 <= p < q < s.len() && s[p] == s.filter(pred)[i] && s[q] == s.filter(pred)[j],
    decreases s.len(),
{
    reveal(Seq::filter);
    let t = s.drop_last();
    let rt = t.filter(pred);
    let r = s.filter(pred);
    if j < rt.len() {
        assert(r[i] == rt[i] && r[j] == rt[j]);
        lemma_filter_keeps_order(t, pred, i, j);
        let (p, q) = choose|p: int, q: int|
            #![trigger t[p], t[q]]
            0 <= p < q < t.len() && t[p] == rt[i] && t[q] == rt[j];
        assert(s[p] == r[i] && s[q] == r[j]);
    } else {
        assert(pred(s.last()) && r[j] == s.last());
        assert(r[i] == rt[i]);
        assert(rt.contains(rt[i]));
        t.lemma_filter_contains_rev(pred, rt[i]);
        let p = choose|p: int| 0 <= p < t.len() && t[p] == rt[i];
        assert(s[p] == r[i] && s[s.len() - 1] == r[j]);
    }
}

/// Selection keeps the listed order, index by index: the selected keys at
/// positions `i < j` stand in the listing at positions `p < q`.
pub proof fn lemma_selection_keeps_positions(keys: Seq<String>, i: int, j: int)
    ensures
        0 <= i < j < up_keys(keys).len() ==> exists|p: int, q: int|
            #![trigger keys[p], keys[q]]
            0 <= p < q < keys.len() && keys[p] == up_keys(keys)[i] && keys[q] == up_keys(keys)[j],
        0 <= i < j < down_keys(keys).len() ==> exists|p: int, q: int|
            #![trigger keys[p], keys[q]]
            0 <= p < q < keys.len() && keys[p] == down_keys(keys)[i] && keys[q] == down_keys(
                keys,
            )[j],
{
    if 0 <= i < j < up_keys(keys).len() {
        lemma_filter_keeps_order(keys, up_pred(), i, j);
    }
    if 0 <= i < j < down_keys(keys).len() {
        lemma_filter_keeps_order(keys, down_pred(), i, j);
    }
}

} // verus!
