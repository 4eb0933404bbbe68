//! The ordered byte store that the tables live in, and the order of its keys.

use vstd::prelude::*;
use cosmwasm_std::MemoryStorage;
use cosmwasm_std::Storage;
use cosmwasm_std::Order;

verus! {

/// `cosmwasm_std::MemoryStorage`: an ordered map from byte keys to byte values.
#[verifier::external_type_specification]
#[verifier::external_body]
pub struct ExMemoryStorage(MemoryStorage);

/// The entries that a store holds.
pub uninterp spec fn contents(store: MemoryStorage) -> Map<Seq<u8>, Seq<u8>>;

/// Strictly before, in the lexicographic order of byte strings.
pub open spec fn lex_lt(a: Seq<u8>, b: Seq<u8>) -> bool
    decreases a.len(),
{
    if b.len() == 0 {
        false
    } else if a.len() == 0 {
        true
    } else if a[0] != b[0] {
        a[0] < b[0]
    } else {
        lex_lt(a.skip(1), b.skip(1))
    }
}

/// Before or equal, in the lexicographic order of byte strings.
pub open spec fn lex_le(a: Seq<u8>, b: Seq<u8>) -> bool {
    a == b || lex_lt(a, b)
}

/// `MemoryStorage::new`: the store made holds no entry.
#[verifier::external_body]
pub(crate) fn store_new() -> (r: MemoryStorage)
    ensures
        contents(r).dom() == Set::<Seq<u8>>::empty(),
{
    MemoryStorage::new()
}

/// `Storage::get` on a `ReadonlyPrefixedStorage` of cosmwasm_storage made
/// with `new` over the store: a copy of the value under the namespace's
/// length-prefixed bytes followed by the key, where there is one. A namespace
/// longer than 0xFFFF bytes makes it panic, so it is left out.
#[verifier::external_body]
pub(crate) fn prefixed_get(store: &MemoryStorage, namespace: &[u8], key: &[u8]) -> (r: Option<
    Vec<u8>,
>)
    requires
        namespace@.len() <= 0xFFFF,
    ensures
        r is Some <==> contents(*store).dom().contains(length_prefix(namespace@) + key@),
        r matches Some(v) ==> v@ == contents(*store)[length_prefix(namespace@) + key@],
{
    cosmwasm_storage::ReadonlyPrefixedStorage::new(store, namespace).get(key)
}

/// `Storage::set` on a `PrefixedStorage` of cosmwasm_storage made with `new`
/// over the store: the value stands under the namespace's length-prefixed
/// bytes followed by the key, and no other entry changes. An empty value or a
/// namespace longer than 0xFFFF bytes makes it panic, so they are left out.
#[verifier::external_body]
pub(crate) fn prefixed_set(store: &mut MemoryStorage, namespace: &[u8], key: &[u8], value: &[u8])
    requires
        namespace@.len() <= 0xFFFF,
        value@.len() > 0,
    ensures
        contents(*final(store)) == contents(*old(store)).insert(
            length_prefix(namespace@) + key@,
            value@,
        ),
{
    cosmwasm_storage::PrefixedStorage::new(store, namespace).set(key, value)
}

/// `Storage::remove` on a `PrefixedStorage` of cosmwasm_storage made with
/// `new` over the store: nothing stands afterwards under the namespace's
/// length-prefixed bytes followed by the key, and no other entry changes. A
/// namespace longer than 0xFFFF bytes makes it panic, so it is left out.
#[verifier::external_body]
pub(crate) fn prefixed_remove(store: &mut MemoryStorage, namespace: &[u8], key: &[u8])
    requires
        namespace@.len() <= 0xFFFF,
    ensures
        contents(*final(store)) == contents(*old(store)).remove(length_prefix(namespace@) + key@),
{
    cosmwasm_storage::PrefixedStorage::new(store, namespace).remove(key)
}

/// `Storage::set` on a `PrefixedStorage` of cosmwasm_storage made with
/// `multilevel` over the store and two namespaces: the value stands under the
/// two namespaces' length-prefixed bytes followed by the key, and no other
/// entry changes. An empty value or a namespace longer than 0xFFFF bytes
/// makes it panic, so they are left out.
#[verifier::external_body]
pub(crate) fn nested_set(
    store: &mut MemoryStorage,
    outer: &[u8],
    inner: &[u8],
    key: &[u8],
    value: &[u8],
)
    requires
        outer@.len() <= 0xFFFF,
        inner@.len() <= 0xFFFF,
        value@.len() > 0,
    ensures
        contents(*final(store)) == contents(*old(store)).insert(
            length_prefix(outer@) + length_prefix(inner@) + key@,
            value@,
        ),
{
    cosmwasm_storage::PrefixedStorage::multilevel(store, &[outer, inner]).set(key, value)
}

/// `Storage::remove` on a `PrefixedStorage` of cosmwasm_storage made with
/// `multilevel` over the store and two namespaces: nothing stands afterwards
/// under the two namespaces' length-prefixed bytes followed by the key, and
/// no other entry changes. A namespace longer than 0xFFFF bytes makes it
/// panic, so it is left out.
#[verifier::external_body]
pub(crate) fn nested_remove(store: &mut MemoryStorage, outer: &[u8], inner: &[u8], key: &[u8])
    requires
        outer@.len() <= 0xFFFF,
        inner@.len() <= 0xFFFF,
    ensures
        contents(*final(store)) == contents(*old(store)).remove(
            length_prefix(outer@) + length_prefix(inner@) + key@,
        ),
{
    cosmwasm_storage::PrefixedStorage::multilevel(store, &[outer, inner]).remove(key)
}

/// `Storage::range` on a `MemoryStorage`, ascending and without an upper
/// bound: every entry whose key is at or after `start`, each once, in
/// ascending order of the keys.
#[verifier::external_body]
pub(crate) fn store_scan(store: &MemoryStorage, start: &[u8]) -> (r: Vec<(Vec<u8>, Vec<u8>)>)
    ensures
        forall|i: int| 0 <= i < r@.len() ==> {
            &&& #[trigger] contents(*store).dom().contains(r@[i].0@)
            &&& contents(*store)[r@[i].0@] == r@[i].1@
            &&& lex_le(start@, r@[i].0@)
        },
        forall|i: int, j: int|
            0 <= i < j < r@.len() ==> lex_lt(#[trigger] r@[i].0@, #[trigger] r@[j].0@),
        forall|k: Seq<u8>| #[trigger] contents(*store).dom().contains(k) && lex_le(start@, k)
            ==> exists|i: int| 0 <= i < r@.len() && #[trigger] r@[i].0@ == k,
{
    store.range(Some(start), None, Order::Ascending).collect()
}


/// The page size used where none is asked for.
pub const DEFAULT_LIMIT: u32 = 10;

/// The largest page size.
pub const MAX_LIMIT: u32 = 30;

/// The page size that a request gets: ten where none is asked for, and never
/// more than thirty.
pub open spec fn page_limit(limit: Option<u32>) -> nat {
    let asked = match limit {
        Some(l) => l,
        None => DEFAULT_LIMIT,
    };
    if asked < MAX_LIMIT {
        asked as nat
    } else {
        MAX_LIMIT as nat
    }
}

/// The least key that a page may hold: the empty key where the page starts at
/// the beginning, else the key to start after, followed by one byte 1.
pub open spec fn range_start(start_after: Option<Vec<u8>>) -> Seq<u8> {
    match start_after {
        Some(a) => a@.push(1u8),
        None => Seq::empty(),
    }
}

/// The page size of a request, as a number of entries.
pub fn clamp_limit(limit: Option<u32>) -> (r: usize)
    ensures
        r == page_limit(limit),
{
    let asked: u32 = match limit {
        Some(l) => l,
        None => DEFAULT_LIMIT,
    };
    if asked < MAX_LIMIT {
        asked as usize
    } else {
        MAX_LIMIT as usize
    }
}

/// The first key after the given one: its bytes followed by one byte 1.
pub fn calc_range_start(start_after: Option<Vec<u8>>) -> (r: Option<Vec<u8>>)
    ensures
        start_after is Some <==> r is Some,
        r matches Some(v) ==> v@ == start_after->0@.push(1u8),
{
    match start_after {
        Some(addr) => {
            let mut v = addr;
            v.push(1);
            Some(v)
        },
        None => None,
    }
}

/// Whether two byte strings are the same.
pub fn bytes_eq(a: &[u8], b: &[u8]) -> (r: bool)
    ensures
        r == (a@ == b@),
{
    if a.len() != b.len() {
        return false;
    }
    let mut i: usize = 0;
    while i < a.len()
        invariant
            a@.len() == b@.len(),
            0 <= i <= a@.len(),
            forall|j: int| 0 <= j < i ==> a@[j] == b@[j],
        decreases a@.len() - i,
    {
        if a[i] != b[i] {
            return false;
        }
        i += 1;
    }
    assert(a@ =~= b@);
    true
}



/// Whether a key begins with the given bytes.
pub open spec fn has_prefix(k: Seq<u8>, p: Seq<u8>) -> bool {
    k.len() >= p.len() && k.subrange(0, p.len() as int) == p
}

/// A namespace's bytes behind their count, written as two bytes, the high one
/// first.
pub open spec fn length_prefix(namespace: Seq<u8>) -> Seq<u8> {
    seq![(namespace.len() / 256) as u8, (namespace.len() % 256) as u8] + namespace
}

/// `cosmwasm_storage::to_length_prefixed`: the namespace behind its length as
/// a two-byte big-endian number. A namespace longer than 0xFFFF bytes makes
/// it panic, so it is left out.
#[verifier::external_body]
pub(crate) fn length_prefixed(namespace: &[u8]) -> (r: Vec<u8>)
    requires
        namespace@.len() <= 0xFFFF,
    ensures
        r@ == length_prefix(namespace@),
{
    cosmwasm_storage::to_length_prefixed(namespace)
}

/// One byte string followed by another.
pub fn join_bytes(a: &[u8], b: &[u8]) -> (r: Vec<u8>)
    ensures
        r@ == a@ + b@,
{
    let mut out: Vec<u8> = Vec::new();
    out.extend_from_slice(a);
    out.extend_from_slice(b);
    assert(out@ =~= a@ + b@);
    out
}

/// Whether a key begins with the given bytes.
pub fn starts_with(k: &[u8], p: &[u8]) -> (r: bool)
    ensures
        r == has_prefix(k@, p@),
{
    if k.len() < p.len() {
        return false;
    }
    let mut i: usize = 0;
    while i < p.len()
        invariant
            k@.len() >= p@.len(),
            0 <= i <= p@.len(),
            forall|j: int| 0 <= j < i ==> k@[j] == p@[j],
        decreases p@.len() - i,
    {
        if k[i] != p[i] {
            assert(k@.subrange(0, p@.len() as int)[i as int] != p@[i as int]);
            return false;
        }
        i += 1;
    }
    assert(k@.subrange(0, p@.len() as int) =~= p@);
    true
}

/// A common beginning does not change the order of two keys.
pub proof fn lemma_lex_prefix(p: Seq<u8>, a: Seq<u8>, b: Seq<u8>)
    ensures
        lex_lt(p + a, p + b) == lex_lt(a, b),
        lex_le(p + a, p + b) == lex_le(a, b),
    decreases p.len(),
{
    if p.len() == 0 {
        assert(p + a =~= a);
        assert(p + b =~= b);
    } else {
        assert((p + a).skip(1) =~= p.skip(1) + a);
        assert((p + b).skip(1) =~= p.skip(1) + b);
        lemma_lex_prefix(p.skip(1), a, b);
        assert((p + a)[0] == (p + b)[0]);
        if p + a == p + b {
            assert(a =~= (p + a).subrange(p.len() as int, (p + a).len() as int));
            assert(b =~= (p + b).subrange(p.len() as int, (p + b).len() as int));
        }
    }
}

/// A key between two keys that share a beginning shares it too.
pub proof fn lemma_between_prefixed(p: Seq<u8>, a: Seq<u8>, x: Seq<u8>, c: Seq<u8>)
    requires
        lex_le(p + a, x),
        lex_le(x, p + c),
    ensures
        has_prefix(x, p),
    decreases p.len(),
{
    if p.len() == 0 {
        assert(x.subrange(0, 0) =~= p);
    } else {
        assert((p + a)[0] == p[0]);
        assert((p + c)[0] == p[0]);
        assert(x.len() > 0);
        assert(x[0] == p[0]);
        assert((p + a).skip(1) =~= p.skip(1) + a);
        assert((p + c).skip(1) =~= p.skip(1) + c);
        if p + a == x {
            assert(x.subrange(0, p.len() as int) =~= p);
        } else if x == p + c {
            assert(x.subrange(0, p.len() as int) =~= p);
        } else {
            lemma_between_prefixed(p.skip(1), a, x.skip(1), c);
            assert(x.subrange(0, p.len() as int) =~= p) by {
                assert forall|i: int| 0 <= i < p.len() implies x[i] == p[i] by {
                    if i > 0 {
                        assert(x.skip(1).subrange(0, p.len() - 1)[i - 1] == p.skip(1)[i - 1]);
                    }
                }
            }
        }
    }
}

/// A key that begins with `p` is `p` followed by the rest of the key.
pub proof fn lemma_split_prefixed(k: Seq<u8>, p: Seq<u8>)
    requires
        has_prefix(k, p),
    ensures
        k == p + k.subrange(p.len() as int, k.len() as int),
{
    assert(k =~= p + k.subrange(p.len() as int, k.len() as int));
}

/// A page of the entries whose keys begin with `prefix`: at most `limit` of
/// them, from the one whose remaining key bytes are at or after `start`, in
/// ascending order. Each is given as the rest of its key and its value.
pub(crate) fn scan_prefixed(
    store: &MemoryStorage,
    prefix: &[u8],
    start: &[u8],
    limit: usize,
) -> (r: Vec<(Vec<u8>, Vec<u8>)>)
    ensures
        r@.len() <= limit,
        forall|i: int| 0 <= i < r@.len() ==> {
            &&& contents(*store).dom().contains(prefix@ + (#[trigger] r@[i]).0@)
            &&& contents(*store)[prefix@ + r@[i].0@] == r@[i].1@
            &&& lex_le(start@, r@[i].0@)
        },
        forall|i: int, j: int|
            0 <= i < j < r@.len() ==> lex_lt(#[trigger] r@[i].0@, #[trigger] r@[j].0@),
        forall|s: Seq<u8>|
            (#[trigger] contents(*store).dom().contains(prefix@ + s)) && lex_le(start@, s) ==> {
            ||| exists|i: int| 0 <= i < r@.len() && #[trigger] r@[i].0@ == s
            ||| (r@.len() == limit && (limit > 0 ==> lex_lt(r@[limit - 1].0@, s)))
        },
        is_key_page(
            keys_under(contents(*store), prefix@),
            start@,
            limit as nat,
            entry_keys(r@),
        ),
{
    let first = join_bytes(prefix, start);
    let scan = store_scan(store, first.as_slice());
    let mut out: Vec<(Vec<u8>, Vec<u8>)> = Vec::new();
    let mut i: usize = 0;
    let mut open: bool = true;
    while open && i < scan.len() && i < limit
        invariant
            0 <= i <= scan@.len(),
            i <= limit,
            out@.len() == i,
            first@ == prefix@ + start@,
            !open ==> i < scan@.len() && i < limit && !has_prefix(scan@[i as int].0@, prefix@),
            forall|j: int| 0 <= j < i ==> {
                &&& scan@[j].0@ == prefix@ + (#[trigger] out@[j]).0@
                &&& out@[j].1@ == scan@[j].1@
            },
        decreases scan@.len() - i + if open { 1int } else { 0int },
    {
        if starts_with(scan[i].0.as_slice(), prefix) {
            let key = &scan[i].0;
            proof {
                lemma_split_prefixed(key@, prefix@);
            }
            let rest = vstd::slice::slice_to_vec(
                vstd::slice::slice_subrange(key.as_slice(), prefix.len(), key.len()),
            );
            let value = vstd::slice::slice_to_vec(scan[i].1.as_slice());
            out.push((rest, value));
            i += 1;
        } else {
            open = false;
        }
    }
    proof {
        let r = out@;
        assert forall|j: int| 0 <= j < r.len() implies {
            &&& contents(*store).dom().contains(prefix@ + (#[trigger] r[j]).0@)
            &&& contents(*store)[prefix@ + r[j].0@] == r[j].1@
            &&& lex_le(start@, r[j].0@)
        } by {
            assert(contents(*store).dom().contains(scan@[j].0@));
            lemma_lex_prefix(prefix@, start@, r[j].0@);
        }
        assert forall|a: int, b: int| 0 <= a < b < r.len() implies lex_lt(
            #[trigger] r[a].0@,
            #[trigger] r[b].0@,
        ) by {
            assert(lex_lt(scan@[a].0@, scan@[b].0@));
            lemma_lex_prefix(prefix@, r[a].0@, r[b].0@);
        }
        assert forall|s: Seq<u8>| #[trigger] contents(*store).dom().contains(prefix@ + s) && lex_le(
            start@,
            s,
        ) implies {
            ||| exists|j: int| 0 <= j < r.len() && #[trigger] r[j].0@ == s
            ||| (r.len() == limit && (limit > 0 ==> lex_lt(r[limit - 1].0@, s)))
        } by {
            let k = prefix@ + s;
            lemma_lex_prefix(prefix@, start@, s);
            assert(contents(*store).dom().contains(k) && lex_le(first@, k));
            let j = choose|j: int| 0 <= j < scan@.len() && #[trigger] scan@[j].0@ == k;
            if j < r.len() {
                assert(prefix@ + r[j].0@ == prefix@ + s);
                assert(r[j].0@ =~= (prefix@ + r[j].0@).subrange(prefix@.len() as int, k.len() as int));
                assert(s =~= k.subrange(prefix@.len() as int, k.len() as int));
            } else if !open {
                let m = i as int;
                assert(contents(*store).dom().contains(scan@[m].0@));
                if m < j {
                    assert(lex_lt(scan@[m].0@, scan@[j].0@));
                }
                lemma_between_prefixed(prefix@, start@, scan@[m].0@, s);
            } else if limit > 0 {
                assert(lex_lt(scan@[limit - 1].0@, scan@[j].0@));
                lemma_lex_prefix(prefix@, r[limit - 1].0@, s);
            }
        }
        let keys = entry_keys(r);
        let index = keys_under(contents(*store), prefix@);
        assert forall|j: int| 0 <= j < keys.len() implies index.contains(#[trigger] keys[j])
            && lex_le(start@, keys[j]) by {
            assert(contents(*store).dom().contains(prefix@ + r[j].0@));
        }
        assert forall|a: int, b: int| 0 <= a < b < keys.len() implies lex_lt(
            #[trigger] keys[a],
            #[trigger] keys[b],
        ) by {
            assert(lex_lt(r[a].0@, r[b].0@));
        }
        assert forall|k: Seq<u8>|
            (#[trigger] index.contains(k)) && lex_le(start@, k) implies keys.contains(k) || (
        keys.len() == limit && (limit > 0 ==> lex_lt(keys[limit - 1], k))) by {
            assert(contents(*store).dom().contains(prefix@ + k));
            if exists|j: int| 0 <= j < r.len() && #[trigger] r[j].0@ == k {
                let j = choose|j: int| 0 <= j < r.len() && #[trigger] r[j].0@ == k;
                assert(keys[j] == k);
            } else if limit > 0 {
                assert(keys[limit - 1] == r[limit - 1].0@);
            }
        }
    }
    out
}


/// The keys that a store holds behind a prefix, without the prefix.
pub open spec fn keys_under(entries: Map<Seq<u8>, Seq<u8>>, prefix: Seq<u8>) -> Set<Seq<u8>> {
    Set::new(|s: Seq<u8>| entries.dom().contains(prefix + s))
}

/// The keys of a list of entries, in the list's order.
pub open spec fn entry_keys(entries: Seq<(Vec<u8>, Vec<u8>)>) -> Seq<Seq<u8>> {
    Seq::new(entries.len(), |i: int| entries[i].0@)
}

/// Two keys behind one prefix are the same where the whole is the same.
pub proof fn lemma_append_cancel(p: Seq<u8>, a: Seq<u8>, b: Seq<u8>)
    requires
        p + a == p + b,
    ensures
        a == b,
{
    assert(a =~= (p + a).subrange(p.len() as int, (p + a).len() as int));
    assert(b =~= (p + b).subrange(p.len() as int, (p + b).len() as int));
}

/// The keys of a page of an index: keys of the index at or after the start,
/// in strictly ascending order, no more than the limit, and no key of the
/// index at or after the start passed over.
pub open spec fn is_key_page(
    index: Set<Seq<u8>>,
    start: Seq<u8>,
    limit: nat,
    keys: Seq<Seq<u8>>,
) -> bool {
    &&& keys.len() <= limit
    &&& forall|i: int|
        0 <= i < keys.len() ==> index.contains(#[trigger] keys[i]) && lex_le(start, keys[i])
    &&& forall|i: int, j: int|
        0 <= i < j < keys.len() ==> lex_lt(#[trigger] keys[i], #[trigger] keys[j])
    &&& forall|k: Seq<u8>|
        (#[trigger] index.contains(k)) && lex_le(start, k) ==> {
            ||| keys.contains(k)
            ||| (keys.len() == limit && (limit > 0 ==> lex_lt(keys[limit - 1], k)))
        }
}


/// No key is strictly before itself.
pub proof fn lemma_lex_irreflexive(a: Seq<u8>)
    ensures
        !lex_lt(a, a),
    decreases a.len(),
{
    if a.len() > 0 {
        lemma_lex_irreflexive(a.skip(1));
    }
}

/// Of two keys, at most one is strictly before the other.
pub proof fn lemma_lex_asymmetric(a: Seq<u8>, b: Seq<u8>)
    requires
        lex_lt(a, b),
    ensures
        !lex_lt(b, a),
    decreases a.len(),
{
    if a.len() > 0 && b.len() > 0 && a[0] == b[0] {
        lemma_lex_asymmetric(a.skip(1), b.skip(1));
    }
}

/// The order of keys is transitive.
pub proof fn lemma_lex_transitive(a: Seq<u8>, b: Seq<u8>, c: Seq<u8>)
    requires
        lex_lt(a, b),
        lex_lt(b, c),
    ensures
        lex_lt(a, c),
    decreases a.len(),
{
    if a.len() > 0 && b.len() > 0 && c.len() > 0 && a[0] == b[0] && b[0] == c[0] {
        lemma_lex_transitive(a.skip(1), b.skip(1), c.skip(1));
    }
}

/// In two pages of one index for one start and limit, a place that both have
/// holds the same key, or the second's key is the earlier one.
proof fn lemma_page_key_not_after(
    index: Set<Seq<u8>>,
    start: Seq<u8>,
    limit: nat,
    a: Seq<Seq<u8>>,
    b: Seq<Seq<u8>>,
    i: int,
)
    requires
        is_key_page(index, start, limit, a),
        is_key_page(index, start, limit, b),
        0 <= i < a.len(),
        i < b.len(),
        forall|j: int| 0 <= j < i ==> a[j] == b[j],
    ensures
        lex_le(b[i], a[i]),
{
    let k = a[i];
    assert(index.contains(k) && lex_le(start, k));
    if b.contains(k) {
        let m = choose|m: int| 0 <= m < b.len() && b[m] == k;
        if m < i {
            assert(lex_lt(a[m], a[i]));
            lemma_lex_irreflexive(k);
        } else if m > i {
            assert(lex_lt(b[i], b[m]));
        }
    } else {
        assert(lex_lt(b[limit - 1], k));
        if i < limit - 1 {
            assert(lex_lt(b[i], b[limit - 1]));
            lemma_lex_transitive(b[i], b[limit - 1], k);
        }
    }
}

/// Two pages of one index for one start and limit hold the same keys up to
/// any place that both have.
proof fn lemma_pages_agree(
    index: Set<Seq<u8>>,
    start: Seq<u8>,
    limit: nat,
    a: Seq<Seq<u8>>,
    b: Seq<Seq<u8>>,
    i: int,
)
    requires
        is_key_page(index, start, limit, a),
        is_key_page(index, start, limit, b),
        0 <= i <= a.len(),
        i <= b.len(),
    ensures
        forall|j: int| 0 <= j < i ==> a[j] == b[j],
    decreases i,
{
    if i > 0 {
        lemma_pages_agree(index, start, limit, a, b, i - 1);
        lemma_page_key_not_after(index, start, limit, a, b, i - 1);
        lemma_page_key_not_after(index, start, limit, b, a, i - 1);
        if a[i - 1] != b[i - 1] {
            lemma_lex_asymmetric(a[i - 1], b[i - 1]);
        }
    }
}

/// An index has one page for a start and a limit.
pub proof fn lemma_key_page_unique(
    index: Set<Seq<u8>>,
    start: Seq<u8>,
    limit: nat,
    a: Seq<Seq<u8>>,
    b: Seq<Seq<u8>>,
)
    requires
        is_key_page(index, start, limit, a),
        is_key_page(index, start, limit, b),
    ensures
        a == b,
{
    let n = if a.len() <= b.len() { a.len() as int } else { b.len() as int };
    lemma_pages_agree(index, start, limit, a, b, n);
    if a.len() < b.len() {
        lemma_pages_same_length(index, start, limit, a, b);
    } else if b.len() < a.len() {
        assert forall|j: int| 0 <= j < n implies b[j] == a[j] by {}
        lemma_pages_same_length(index, start, limit, b, a);
    }
    assert(a =~= b);
}

/// Of two pages of one index for one start and limit that agree where both
/// have a key, neither is longer.
proof fn lemma_pages_same_length(
    index: Set<Seq<u8>>,
    start: Seq<u8>,
    limit: nat,
    a: Seq<Seq<u8>>,
    b: Seq<Seq<u8>>,
)
    requires
        is_key_page(index, start, limit, a),
        is_key_page(index, start, limit, b),
        a.len() <= b.len(),
        forall|j: int| 0 <= j < a.len() ==> a[j] == b[j],
    ensures
        a.len() == b.len(),
{
    if a.len() < b.len() {
        let i = a.len() as int;
        let k = b[i];
        assert(index.contains(k) && lex_le(start, k));
        if a.contains(k) {
            let m = choose|m: int| 0 <= m < a.len() && a[m] == k;
            assert(lex_lt(b[m], b[i]));
            lemma_lex_irreflexive(k);
        }
    }
}

/// Of two keys, one is before the other or they are the same.
pub proof fn lemma_lex_total(a: Seq<u8>, b: Seq<u8>)
    ensures
        lex_lt(a, b) || a == b || lex_lt(b, a),
    decreases a.len(),
{
    if a.len() == 0 || b.len() == 0 {
        if a.len() == 0 && b.len() == 0 {
            assert(a =~= b);
        }
    } else if a[0] == b[0] {
        lemma_lex_total(a.skip(1), b.skip(1));
        if a.skip(1) == b.skip(1) {
            assert(a =~= seq![a[0]] + a.skip(1));
            assert(b =~= seq![b[0]] + b.skip(1));
        }
    }
}

/// A key is strictly before the key made of it and one more byte.
pub proof fn lemma_lex_push(a: Seq<u8>, byte: u8)
    ensures
        lex_lt(a, a.push(byte)),
    decreases a.len(),
{
    if a.len() > 0 {
        lemma_lex_push(a.skip(1), byte);
        assert(a.push(byte).skip(1) =~= a.skip(1).push(byte));
    }
}

/// A full page and the page that starts after its last key make one page of
/// both limits together, where the index holds no key between that last key
/// and the start of the second page.
pub proof fn lemma_pages_concatenate(
    index: Set<Seq<u8>>,
    start: Seq<u8>,
    limit: nat,
    more: nat,
    first: Seq<Seq<u8>>,
    next: Seq<Seq<u8>>,
)
    requires
        limit > 0,
        first.len() == limit,
        is_key_page(index, start, limit, first),
        is_key_page(index, first[limit - 1].push(1u8), more, next),
        forall|k: Seq<u8>| #[trigger]
            index.contains(k) ==> !(lex_lt(first[limit - 1], k) && lex_lt(
                k,
                first[limit - 1].push(1u8),
            )),
    ensures
        is_key_page(index, start, limit + more, first + next),
{
    let last = first[limit - 1];
    let resume = last.push(1u8);
    let all = first + next;
    lemma_lex_push(last, 1u8);
    assert(lex_le(start, last));
    if start != last {
        lemma_lex_transitive(start, last, resume);
    }
    assert forall|i: int| 0 <= i < all.len() implies index.contains(#[trigger] all[i]) && lex_le(
        start,
        all[i],
    ) && (i >= limit ==> lex_lt(last, all[i])) by {
        if i >= limit {
            let k = next[i - limit];
            assert(all[i] == k);
            assert(index.contains(k) && lex_le(resume, k));
            if resume != k {
                lemma_lex_transitive(last, resume, k);
                lemma_lex_transitive(start, resume, k);
            }
        } else {
            assert(all[i] == first[i]);
        }
    }
    assert forall|i: int, j: int| 0 <= i < j < all.len() implies lex_lt(
        #[trigger] all[i],
        #[trigger] all[j],
    ) by {
        if j < limit {
            assert(lex_lt(first[i], first[j]));
        } else if i >= limit {
            assert(lex_lt(next[i - limit], next[j - limit]));
        } else {
            assert(lex_lt(last, all[j]));
            if i < limit - 1 {
                assert(lex_lt(first[i], first[limit - 1]));
                lemma_lex_transitive(all[i], last, all[j]);
            }
        }
    }
    assert forall|k: Seq<u8>| (#[trigger] index.contains(k)) && lex_le(start, k) implies {
        ||| all.contains(k)
        ||| (all.len() == limit + more && (limit + more > 0 ==> lex_lt(all[limit + more - 1], k)))
    } by {
        if first.contains(k) {
            let i = choose|i: int| 0 <= i < first.len() && first[i] == k;
            assert(all[i] == k);
        } else {
            assert(lex_lt(last, k));
            lemma_lex_total(resume, k);
            assert(lex_le(resume, k));
            if next.contains(k) {
                let j = choose|j: int| 0 <= j < next.len() && next[j] == k;
                assert(all[limit + j] == k);
            } else if more > 0 {
                assert(all[limit + more - 1] == next[more - 1]);
            } else {
                assert(all[limit - 1] == last);
            }
        }
    }
}

} // verus!
