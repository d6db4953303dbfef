//! Writing ordered maps: entries in increasing key order, which the standard
//! library's ordered map walks in and which one sequence alone satisfies.
use vstd::prelude::*;
use vstd::laws_cmp::{obeys_cmp, obeys_cmp_ord, obeys_partial_cmp_spec_properties};
use vstd::std_specs::btree::increasing_seq;
use vstd::std_specs::iter::IteratorSpec;
use vstd::std_specs::cmp::{OrdSpec, PartialOrdSpec};
use std::collections::BTreeMap;
use crate::codec::DotosEncode;
use crate::collections::{keys_ordered, map_of};
use crate::model::Delimiter;
use crate::text::{push_str, string_views, text_of};

verus! {

/// `s` lists every entry of `m` once, in increasing key order.
pub open spec fn sorted_listing<Key: Ord, Value>(m: Map<Key, Value>, s: Seq<(Key, Value)>) -> bool {
    &&& forall|i: int| 0 <= i < s.len() ==> #[trigger] m.contains_key(s[i].0) && m[s[i].0] == s[i].1
    &&& forall|k: Key| #[trigger] m.contains_key(k) ==> exists|i: int| 0 <= i < s.len() && s[i].0 == k
    &&& increasing_seq(s.map_values(|kv: (Key, Value)| kv.0))
}

/// The entries of `m` in increasing key order.
pub open spec fn sorted_entries<Key: Ord, Value>(m: Map<Key, Value>) -> Seq<(Key, Value)> {
    choose|s: Seq<(Key, Value)>| sorted_listing(m, s)
}

/// `key.value` for each entry.
pub open spec fn entry_texts<Key: DotosEncode, Value: DotosEncode>(s: Seq<(Key, Value)>) -> Seq<Seq<char>> {
    s.map_values(|kv: (Key, Value)| kv.0.encoding() + "."@ + kv.1.encoding())
}

/// Strictly smaller in the key order.
pub open spec fn key_less<Key: Ord>(a: Key, b: Key) -> bool {
    a.cmp_spec(&b) is Less
}

proof fn lemma_order_laws<Key: Ord>()
    requires
        obeys_cmp::<Key>(),
    ensures
        forall|a: Key| !#[trigger] key_less(a, a),
        forall|a: Key, b: Key| #[trigger] key_less(a, b) ==> !#[trigger] key_less(b, a),
        forall|a: Key, b: Key, c: Key|
            #[trigger] key_less(a, b) && #[trigger] key_less(b, c) ==> key_less(a, c),
{
    reveal(obeys_partial_cmp_spec_properties);
    reveal(obeys_cmp_ord);
    assert forall|a: Key| !#[trigger] key_less(a, a) by {
        assert(a.partial_cmp_spec(&a) == Some(a.cmp_spec(&a)));
    }
    assert forall|a: Key, b: Key| #[trigger] key_less(a, b) implies !#[trigger] key_less(b, a) by {
        assert(a.partial_cmp_spec(&b) == Some(a.cmp_spec(&b)));
        assert(b.partial_cmp_spec(&a) == Some(b.cmp_spec(&a)));
    }
    assert forall|a: Key, b: Key, c: Key|
        #[trigger] key_less(a, b) && #[trigger] key_less(b, c) implies key_less(a, c) by {
        assert(a.partial_cmp_spec(&b) == Some(a.cmp_spec(&b)));
        assert(b.partial_cmp_spec(&c) == Some(b.cmp_spec(&c)));
        assert(a.partial_cmp_spec(&c) == Some(a.cmp_spec(&c)));
    }
}

proof fn lemma_listing_order<Key: Ord, Value>(m: Map<Key, Value>, s: Seq<(Key, Value)>)
    requires
        obeys_cmp::<Key>(),
        sorted_listing(m, s),
    ensures
        forall|i: int, j: int| 0 <= i < j < s.len() ==> key_less(#[trigger] s[i].0, #[trigger] s[j].0),
{
    let keys = s.map_values(|kv: (Key, Value)| kv.0);
    assert forall|i: int, j: int| 0 <= i < j < s.len() implies key_less(
        #[trigger] s[i].0,
        #[trigger] s[j].0,
    ) by {
        assert(keys[i] == s[i].0);
        assert(keys[j] == s[j].0);
    }
}

/// One sequence alone lists a map's entries in increasing key order.
#[verifier::spinoff_prover]
pub(crate) proof fn lemma_listing_unique<Key: Ord, Value>(
    m: Map<Key, Value>,
    s: Seq<(Key, Value)>,
    t: Seq<(Key, Value)>,
)
    requires
        obeys_cmp::<Key>(),
        sorted_listing(m, s),
        sorted_listing(m, t),
    ensures
        s == t,
    decreases s.len(),
{
    lemma_order_laws::<Key>();
    lemma_listing_order(m, s);
    lemma_listing_order(m, t);
    if s.len() == 0 {
        if t.len() > 0 {
            assert(m.contains_key(t[0].0));
        }
        assert(s =~= t);
    } else {
        assert(m.contains_key(s[0].0));
        let j = choose|j: int| 0 <= j < t.len() && t[j].0 == s[0].0;
        assert(m.contains_key(t[0].0));
        let i = choose|i: int| 0 <= i < s.len() && s[i].0 == t[0].0;
        if j > 0 && i > 0 {
            assert(key_less(t[0].0, t[j].0));
            assert(key_less(s[0].0, s[i].0));
        }
        assert(s[0].0 == t[0].0);
        assert(s[0] == t[0]);
        let k = s[0].0;
        let rest = m.remove(k);
        let s1 = s.drop_first();
        let t1 = t.drop_first();
        assert(sorted_listing(rest, s1)) by {
            assert forall|a: int| 0 <= a < s1.len() implies #[trigger] rest.contains_key(s1[a].0)
                && rest[s1[a].0] == s1[a].1 by {
                assert(s1[a] == s[a + 1]);
                assert(key_less(s[0].0, s[a + 1].0));
            }
            assert forall|x: Key| #[trigger] rest.contains_key(x) implies exists|a: int|
                0 <= a < s1.len() && s1[a].0 == x by {
                let b = choose|b: int| 0 <= b < s.len() && s[b].0 == x;
                assert(b != 0);
                assert(s1[b - 1] == s[b]);
            }
            assert(s1.map_values(|kv: (Key, Value)| kv.0) =~= s.map_values(
                |kv: (Key, Value)| kv.0,
            ).drop_first());
            let keys1 = s1.map_values(|kv: (Key, Value)| kv.0);
            assert forall|a: int, b: int|
                #![trigger keys1[a], keys1[b]]
                0 <= a < b < keys1.len() implies keys1[a].cmp_spec(&keys1[b]) is Less by {
                assert(s1[a] == s[a + 1]);
                assert(s1[b] == s[b + 1]);
                assert(key_less(s[a + 1].0, s[b + 1].0));
            }
        }
        assert(sorted_listing(rest, t1)) by {
            assert forall|a: int| 0 <= a < t1.len() implies #[trigger] rest.contains_key(t1[a].0)
                && rest[t1[a].0] == t1[a].1 by {
                assert(t1[a] == t[a + 1]);
                assert(key_less(t[0].0, t[a + 1].0));
            }
            assert forall|x: Key| #[trigger] rest.contains_key(x) implies exists|a: int|
                0 <= a < t1.len() && t1[a].0 == x by {
                let b = choose|b: int| 0 <= b < t.len() && t[b].0 == x;
                assert(b != 0);
                assert(t1[b - 1] == t[b]);
            }
            let keys1 = t1.map_values(|kv: (Key, Value)| kv.0);
            assert forall|a: int, b: int|
                #![trigger keys1[a], keys1[b]]
                0 <= a < b < keys1.len() implies keys1[a].cmp_spec(&keys1[b]) is Less by {
                assert(t1[a] == t[a + 1]);
                assert(t1[b] == t[b + 1]);
                assert(key_less(t[a + 1].0, t[b + 1].0));
            }
        }
        lemma_listing_unique(rest, s1, t1);
        assert(s =~= seq![s[0]] + s1);
        assert(t =~= seq![t[0]] + t1);
    }
}

/// What the map's walk yields is its sorted listing.
proof fn lemma_walk_is_sorted<Key: Ord, Value>(m: &BTreeMap<Key, Value>, walk: Seq<(&Key, &Value)>)
    requires
        obeys_cmp::<Key>(),
        walk == vstd::std_specs::btree::spec_btree_map_iter(m).remaining(),
        increasing_seq(walk.map_values(|kv: (&Key, &Value)| *kv.0)),
    ensures
        walk.unref() == sorted_entries(m@),
{
    let s = walk.unref();
    assert forall|i: int| 0 <= i < s.len() implies #[trigger] m@.contains_key(s[i].0) && m@[s[i].0]
        == s[i].1 by {
        assert(m@.contains_key(*walk[i].0));
    }
    assert forall|k: Key| #[trigger] m@.contains_key(k) implies exists|i: int|
        0 <= i < s.len() && s[i].0 == k by {
        assert(walk.contains((&k, &m@[k])));
        let i = choose|i: int| 0 <= i < walk.len() && walk[i] == (&k, &m@[k]);
        assert(s[i].0 == k);
    }
    assert(s.map_values(|kv: (Key, Value)| kv.0) =~= walk.map_values(|kv: (&Key, &Value)| *kv.0));
    assert(sorted_listing(m@, s));
    lemma_listing_unique(m@, s, sorted_entries(m@));
}


/// The keys of a listing, in order.
pub open spec fn listing_keys<Key, Value>(s: Seq<(Key, Value)>) -> Seq<Key> {
    s.map_values(|kv: (Key, Value)| kv.0)
}

/// The values of a listing, in order.
pub open spec fn listing_values<Key, Value>(s: Seq<(Key, Value)>) -> Seq<Value> {
    s.map_values(|kv: (Key, Value)| kv.1)
}

/// Inserting a map's sorted listing in order builds the map again.
#[verifier::spinoff_prover]
pub proof fn lemma_listing_builds_map<Key: Ord, Value>(m: Map<Key, Value>, s: Seq<(Key, Value)>)
    requires
        obeys_cmp::<Key>(),
        sorted_listing(m, s),
    ensures
        map_of(listing_keys(s), listing_values(s)) == m,
    decreases s.len(),
{
    lemma_order_laws::<Key>();
    lemma_listing_order(m, s);
    if s.len() == 0 {
        assert forall|k: Key| !m.contains_key(k) by {
            if m.contains_key(k) {
                let i = choose|i: int| 0 <= i < s.len() && s[i].0 == k;
            }
        }
        assert(m =~= Map::<Key, Value>::empty());
        assert(listing_keys(s).len() == 0);
    } else {
        let n = s.len() - 1;
        let last = s[n];
        assert(m.contains_key(s[n].0) && m[s[n].0] == s[n].1);
        let s1 = s.drop_last();
        let m1 = m.remove(last.0);
        assert forall|i: int| 0 <= i < s1.len() implies #[trigger] m1.contains_key(s1[i].0)
            && m1[s1[i].0] == s1[i].1 by {
            assert(s1[i] == s[i]);
            assert(key_less(s[i].0, s[n].0));
            assert(m.contains_key(s[i].0));
        }
        assert forall|k: Key| #[trigger] m1.contains_key(k) implies exists|i: int|
            0 <= i < s1.len() && s1[i].0 == k by {
            assert(m.contains_key(k));
            let i = choose|i: int| 0 <= i < s.len() && s[i].0 == k;
            assert(i != n);
            assert(s1[i] == s[i]);
        }
        assert(listing_keys(s1) =~= listing_keys(s).drop_last());
        assert(sorted_listing(m1, s1)) by {
            let ks = listing_keys(s);
            let ks1 = listing_keys(s1);
            assert forall|a: int, b: int|
                #![trigger ks1[a], ks1[b]]
                0 <= a < b < ks1.len() implies ks1[a].cmp_spec(&ks1[b]) is Less by {
                assert(ks1[a] == ks[a]);
                assert(ks1[b] == ks[b]);
                assert(key_less(s[a].0, s[b].0));
            }
        }
        lemma_listing_builds_map(m1, s1);
        assert(listing_values(s1) =~= listing_values(s).drop_last());
        assert(listing_keys(s).last() == last.0);
        assert(listing_values(s).last() == last.1);
        assert(m1.insert(last.0, last.1) =~= m);
    }
}

/// A finite nonempty set of unsigned integers has a greatest element.
proof fn lemma_u64_set_max(s: Set<u64>)
    requires
        s.finite(),
        s.len() > 0,
    ensures
        exists|x: u64| s.contains(x) && forall|y: u64| #[trigger] s.contains(y) ==> y <= x,
    decreases s.len(),
{
    let x0 = s.choose();
    assert(s.contains(x0));
    let rest = s.remove(x0);
    if rest.len() == 0 {
        assert forall|y: u64| #[trigger] s.contains(y) implies y <= x0 by {
            if y != x0 {
                assert(rest.contains(y));
            }
        }
    } else {
        lemma_u64_set_max(rest);
        let xr = choose|x: u64| rest.contains(x) && forall|y: u64| #[trigger] rest.contains(y) ==> y <= x;
        let x = if x0 <= xr { xr } else { x0 };
        assert forall|y: u64| #[trigger] s.contains(y) implies y <= x by {
            if y != x0 {
                assert(rest.contains(y));
            }
        }
        assert(s.contains(x));
    }
}

/// Every finite map keyed by unsigned integers has a listing in increasing
/// key order.
pub proof fn lemma_u64_listing_exists<Value>(m: Map<u64, Value>)
    requires
        m.dom().finite(),
    ensures
        exists|s: Seq<(u64, Value)>| sorted_listing(m, s),
    decreases m.dom().len(),
{
    broadcast use vstd::laws_cmp::group_laws_cmp;
    broadcast use vstd::std_specs::btree::axiom_increasing_seq_meaning;

    assert(obeys_cmp::<u64>());
    if m.dom().len() == 0 {
        let s = Seq::<(u64, Value)>::empty();
        assert forall|k: u64| #[trigger] m.contains_key(k) implies exists|i: int|
            0 <= i < s.len() && s[i].0 == k by {
            assert(m.dom().contains(k));
            assert(m.dom().len() > 0);
        }
        assert(sorted_listing(m, s));
    } else {
        lemma_u64_set_max(m.dom());
        let x = choose|x: u64| m.dom().contains(x) && forall|y: u64| #[trigger] m.dom().contains(y) ==> y <= x;
        let m1 = m.remove(x);
        assert(m1.dom() =~= m.dom().remove(x));
        lemma_u64_listing_exists(m1);
        let s1 = choose|s: Seq<(u64, Value)>| sorted_listing(m1, s);
        let s = s1.push((x, m[x]));
        assert forall|i: int| 0 <= i < s.len() implies #[trigger] m.contains_key(s[i].0) && m[s[i].0]
            == s[i].1 by {
            if i < s1.len() {
                assert(s[i] == s1[i]);
                assert(m1.contains_key(s1[i].0));
            }
        }
        assert forall|k: u64| #[trigger] m.contains_key(k) implies exists|i: int|
            0 <= i < s.len() && s[i].0 == k by {
            if k == x {
                assert(s[s.len() - 1].0 == k);
            } else {
                assert(m1.contains_key(k));
                let i = choose|i: int| 0 <= i < s1.len() && s1[i].0 == k;
                assert(s[i] == s1[i]);
            }
        }
        let ks1 = s1.map_values(|kv: (u64, Value)| kv.0);
        let ks = s.map_values(|kv: (u64, Value)| kv.0);
        assert(increasing_seq(ks1));
        assert forall|a: int, b: int|
            #![trigger ks[a], ks[b]]
            0 <= a < b < ks.len() implies ks[a].cmp_spec(&ks[b]) is Less by {
            assert(ks[a] == s[a].0);
            assert(ks[b] == s[b].0);
            if b < s1.len() {
                assert(ks1[a] == ks[a]);
                assert(ks1[b] == ks[b]);
                assert(ks1[a].cmp_spec(&ks1[b]) is Less);
            } else {
                assert(s[a] == s1[a]);
                assert(m1.contains_key(s1[a].0));
                assert(m.dom().contains(s1[a].0));
            }
        }
        assert(increasing_seq(ks));
        assert(sorted_listing(m, s));
    }
}

impl<Key: DotosEncode + Ord, Value: DotosEncode> DotosEncode for BTreeMap<Key, Value> {
    open spec fn encoding_known() -> bool {
        keys_ordered::<Key>() && Key::encoding_known() && Value::encoding_known()
    }

    open spec fn encoding(&self) -> Seq<char> {
        "Map."@ + Delimiter::Parenthesis.spec_opening_text() + crate::text::joined(
            entry_texts(sorted_entries(self@)),
            " "@,
        ) + Delimiter::Parenthesis.spec_closing_text()
    }

    fn to_dotos(&self) -> (r: String) {
        write_map(self)
    }
}

/// Advances an iterator by one item.
fn advance<I: Iterator>(it: &mut I) -> (r: Option<I::Item>)
    ensures
        <I as IteratorSpec>::obeys_prophetic_iter_laws(old(it)) ==> if <I as IteratorSpec>::remaining(
            old(it),
        ).len() > 0 {
            &&& <I as IteratorSpec>::remaining(final(it)) == <I as IteratorSpec>::remaining(
                old(it),
            ).drop_first()
            &&& r == Some(<I as IteratorSpec>::remaining(old(it))[0])
        } else {
            r is None
        },
{
    it.next()
}

/// Writes `Map.(key.value ..)` with the entries in the map's walk order.
fn write_map<Key: DotosEncode + Ord, Value: DotosEncode>(map: &BTreeMap<Key, Value>) -> (r: String)
    ensures
        BTreeMap::<Key, Value>::encoding_known() ==> r@ == map.encoding(),
{
    let ghost known = BTreeMap::<Key, Value>::encoding_known();
    let mut it = map.iter();
    let ghost all = it.remaining();
    let n = map.len();
    let mut texts: Vec<String> = Vec::new();
    let mut i: usize = 0;
    while i < n
        invariant
            i <= n,
            known == BTreeMap::<Key, Value>::encoding_known(),
            known ==> all == vstd::std_specs::btree::spec_btree_map_iter(map).remaining(),
            known ==> increasing_seq(all.map_values(|kv: (&Key, &Value)| *kv.0)),
            known ==> all.len() == n,
            known ==> it.remaining() == all.skip(i as int),
            known ==> string_views(texts@) == entry_texts(all.unref().take(i as int)),
        decreases n - i,
    {
        let ghost before = texts@;
        match advance(&mut it) {
            Some(kv) => {
                let (k, v) = kv;
                let mut text = k.to_dotos();
                push_str(&mut text, ".");
                push_str(&mut text, v.to_dotos().as_str());
                texts.push(text);
                proof {
                    if known {
                        assert(all.skip(i as int)[0] == all[i as int]);
                        assert(all.skip(i as int).drop_first() =~= all.skip(i + 1));
                        let e = all.unref()[i as int];
                        assert(e == (*k, *v));
                        assert(all.unref().take(i + 1) =~= all.unref().take(i as int).push(e));
                        assert(string_views(texts@) =~= string_views(before).push(
                            e.0.encoding() + "."@ + e.1.encoding(),
                        ));
                        assert(entry_texts(all.unref().take(i + 1)) =~= entry_texts(
                            all.unref().take(i as int),
                        ).push(e.0.encoding() + "."@ + e.1.encoding()));
                    }
                }
                i = i + 1;
            },
            None => {
                i = n;
            },
        }
    }
    proof {
        if known {
            assert(all.unref().take(n as int) =~= all.unref());
            lemma_walk_is_sorted(map, all);
        }
    }
    let mut r = text_of("Map.");
    push_str(&mut r, Delimiter::Parenthesis.wrap(texts).as_str());
    r
}

} // verus!
