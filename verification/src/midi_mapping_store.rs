//! MIDI mapping layers: the file-name slug a connected device's user
//! mapping layer is stored under, and how the layers combine (lowest to
//! highest precedence: the factory device preset, then the user's overrides
//! for the device). Reading and writing the files is the application's job.

use vstd::prelude::*;
use std::collections::HashMap;
use vstd::std_specs::iter::IteratorSpec;
use crate::chars::{char_is_alphanumeric, chars_of, is_alphanumeric, str_lowercase, string_from_chars, to_lowercase};

verus! {

/// Scan of `s` for the slug: alphanumeric characters are kept, every run of
/// other characters after a kept one becomes a single `'-'`. The flag tells
/// whether the scan last emitted a separator (or nothing yet).
pub open spec fn slug_scan(s: Seq<char>) -> (Seq<char>, bool)
    decreases s.len(),
{
    if s.len() == 0 {
        (Seq::<char>::empty(), true)
    } else {
        let prev = slug_scan(s.drop_last());
        let ch = s.last();
        if char_is_alphanumeric(ch) {
            (prev.0.push(ch), false)
        } else if !prev.1 {
            (prev.0.push('-'), true)
        } else {
            prev
        }
    }
}

/// `s` without its trailing `'-'` characters.
pub open spec fn trim_end_dashes(s: Seq<char>) -> Seq<char>
    decreases s.len(),
{
    if s.len() > 0 && s.last() == '-' {
        trim_end_dashes(s.drop_last())
    } else {
        s
    }
}

/// The slug of an (already lowercased) device name.
pub open spec fn slug_spec(s: Seq<char>) -> Seq<char> {
    trim_end_dashes(slug_scan(s).0)
}

/// Turn an already lowercased device name into a file-name slug: runs of
/// non-alphanumeric characters become one `'-'`, leading and trailing
/// separators are dropped.
pub fn slugify(lowered: &str) -> (r: String)
    ensures
        r@ == slug_spec(lowered@),
{
    let chars = chars_of(lowered);
    let mut slug: Vec<char> = Vec::new();
    let mut last_sep = true;
    let mut i: usize = 0;
    while i < chars.len()
        invariant
            i <= chars.len(),
            chars@ == lowered@,
            slug_scan(chars@.subrange(0, i as int)) == (slug@, last_sep),
        decreases chars.len() - i,
    {
        let ch = chars[i];
        assert(chars@.subrange(0, i + 1).drop_last() =~= chars@.subrange(0, i as int));
        if is_alphanumeric(ch) {
            slug.push(ch);
            last_sep = false;
        } else if !last_sep {
            slug.push('-');
            last_sep = true;
        }
        i = i + 1;
    }
    assert(chars@.subrange(0, i as int) =~= lowered@);
    let mut e = slug.len();
    assert(slug@.subrange(0, e as int) =~= slug@);
    while e > 0 && slug[e - 1] == '-'
        invariant
            e <= slug.len(),
            trim_end_dashes(slug@) == trim_end_dashes(slug@.subrange(0, e as int)),
        decreases e,
    {
        assert(slug@.subrange(0, e as int).drop_last() =~= slug@.subrange(0, e - 1));
        e = e - 1;
    }
    slug.truncate(e);
    proof {
        if e == 0 {
            assert(slug@ =~= Seq::<char>::empty());
        }
    }
    string_from_chars(&slug)
}

/// Normalize a device name to a safe filename slug.
/// "Arturia KeyLab mkIII MIDI In" → "arturia-keylab-mkiii-midi-in"
pub fn device_slug(name: &str) -> (r: String)
    ensures
        r@ == slug_spec(str_lowercase(name@)),
{
    let lowered = to_lowercase(name);
    slugify(lowered.as_str())
}

/// File name (inside the MIDI mappings directory) of the user layer for
/// the device called `device_name`: its slug with a `.json` extension.
pub fn device_mapping_file_name(device_name: &str) -> (r: String)
    ensures
        r@ == slug_spec(str_lowercase(device_name@)) + ".json"@,
{
    let slug = device_slug(device_name);
    slug.concat(".json")
}


/// Shape of a slug: made of alphanumeric characters and `'-'`, and every
/// character that is not alphanumeric directly follows one that is.
pub open spec fn is_slug_shaped(t: Seq<char>) -> bool {
    &&& forall|i: int| 0 <= i < t.len() ==> char_is_alphanumeric(#[trigger] t[i]) || t[i] == '-'
    &&& forall|i: int|
        0 <= i < t.len() && !char_is_alphanumeric(#[trigger] t[i]) ==> i > 0 && char_is_alphanumeric(t[i - 1])
}

/// What the scan emits is slug shaped; when it did not just emit a
/// separator, its last character is alphanumeric.
proof fn lemma_slug_scan_shape(s: Seq<char>)
    ensures
        is_slug_shaped(slug_scan(s).0),
        !slug_scan(s).1 ==> slug_scan(s).0.len() > 0 && char_is_alphanumeric(slug_scan(s).0.last()),
    decreases s.len(),
{
    if s.len() > 0 {
        lemma_slug_scan_shape(s.drop_last());
        let prev = slug_scan(s.drop_last());
        let out = slug_scan(s).0;
        assert forall|i: int| 0 <= i < out.len() implies char_is_alphanumeric(#[trigger] out[i]) || out[i] == '-' by {
            if i < prev.0.len() {
                assert(out[i] == prev.0[i]);
            }
        }
        assert forall|i: int|
            0 <= i < out.len() && !char_is_alphanumeric(#[trigger] out[i]) implies i > 0 && char_is_alphanumeric(out[i - 1]) by {
            if i < prev.0.len() {
                assert(out[i] == prev.0[i]);
                assert(out[i - 1] == prev.0[i - 1]);
            } else {
                assert(out[i - 1] == prev.0.last());
            }
        }
    }
}

/// Dropping trailing dashes keeps a prefix.
proof fn lemma_trim_end_dashes_prefix(t: Seq<char>) -> (e: int)
    ensures
        0 <= e <= t.len(),
        trim_end_dashes(t) == t.subrange(0, e),
        e > 0 ==> t[e - 1] != '-',
    decreases t.len(),
{
    if t.len() > 0 && t.last() == '-' {
        let e = lemma_trim_end_dashes_prefix(t.drop_last());
        assert(t.drop_last().subrange(0, e) =~= t.subrange(0, e));
        e
    } else {
        assert(t.subrange(0, t.len() as int) =~= t);
        t.len() as int
    }
}

/// A slug is made of alphanumeric characters and `'-'`; every character
/// that is not alphanumeric directly follows one that is, a non-empty slug
/// starts with an alphanumeric character, and it never ends with `'-'`.
pub proof fn lemma_slug_shape(s: Seq<char>)
    ensures
        is_slug_shaped(slug_spec(s)),
        slug_spec(s).len() > 0 ==> char_is_alphanumeric(slug_spec(s)[0]) && slug_spec(s).last() != '-',
{
    lemma_slug_scan_shape(s);
    let t = slug_scan(s).0;
    let e = lemma_trim_end_dashes_prefix(t);
    let r = slug_spec(s);
    assert forall|i: int| 0 <= i < r.len() implies #[trigger] r[i] == t[i] by {}
    if r.len() > 0 {
        assert(r[0] == t[0]);
        assert(!char_is_alphanumeric(r[0]) ==> false);
    }
}

/// Scanning a slug-shaped string gives it back unchanged.
proof fn lemma_slug_scan_of_shaped(t: Seq<char>)
    requires
        is_slug_shaped(t),
    ensures
        slug_scan(t).0 == t,
        t.len() > 0 ==> (!slug_scan(t).1 <==> char_is_alphanumeric(t.last())),
        t.len() == 0 ==> slug_scan(t).1,
    decreases t.len(),
{
    if t.len() > 0 {
        let p = t.drop_last();
        assert(is_slug_shaped(p)) by {
            assert forall|i: int| 0 <= i < p.len() implies char_is_alphanumeric(#[trigger] p[i]) || p[i] == '-' by {
                assert(p[i] == t[i]);
            }
            assert forall|i: int|
                0 <= i < p.len() && !char_is_alphanumeric(#[trigger] p[i]) implies i > 0 && char_is_alphanumeric(p[i - 1]) by {
                assert(p[i] == t[i]);
                assert(t[i - 1] == p[i - 1]);
            }
        }
        lemma_slug_scan_of_shaped(p);
        let last = t.last();
        if !char_is_alphanumeric(last) {
            assert(t[t.len() - 1] == last);
            assert(char_is_alphanumeric(t[t.len() - 2]));
            assert(p.last() == t[t.len() - 2]);
            assert(last == '-');
        }
        assert(p.push(last) =~= t);
    }
}

/// Slugifying a slug leaves it unchanged.
pub proof fn lemma_slug_idempotent(s: Seq<char>)
    ensures
        slug_spec(slug_spec(s)) == slug_spec(s),
{
    let r = slug_spec(s);
    lemma_slug_shape(s);
    lemma_slug_scan_of_shaped(r);
}

/// Bindings given as (CC number, parameter id) pairs, a later pair for the
/// same CC number winning.
pub open spec fn pairs_map(s: Seq<(u8, u32)>) -> Map<u8, u32>
    decreases s.len(),
{
    if s.len() == 0 {
        Map::<u8, u32>::empty()
    } else {
        pairs_map(s.drop_last()).insert(s.last().0, s.last().1)
    }
}

/// A key is bound by `pairs_map(s)` exactly when some pair names it, and
/// then to the value of some pair naming it.
proof fn lemma_pairs_map(s: Seq<(u8, u32)>)
    ensures
        forall|k: u8| #[trigger] pairs_map(s).contains_key(k) <==> exists|i: int| 0 <= i < s.len() && s[i].0 == k,
        forall|k: u8|
            #[trigger] pairs_map(s).contains_key(k) ==> exists|i: int|
                0 <= i < s.len() && s[i].0 == k && s[i].1 == pairs_map(s)[k],
    decreases s.len(),
{
    if s.len() > 0 {
        let p = s.drop_last();
        lemma_pairs_map(p);
        assert forall|k: u8| #[trigger] pairs_map(s).contains_key(k) <==> exists|i: int| 0 <= i < s.len() && s[i].0 == k by {
            if pairs_map(s).contains_key(k) && k != s.last().0 {
                assert(pairs_map(p).contains_key(k));
                let i = choose|i: int| 0 <= i < p.len() && p[i].0 == k;
                assert(s[i] == p[i]);
            }
            if exists|i: int| 0 <= i < s.len() && s[i].0 == k {
                let i = choose|i: int| 0 <= i < s.len() && s[i].0 == k;
                if i < s.len() - 1 {
                    assert(p[i] == s[i]);
                    assert(pairs_map(p).contains_key(k));
                }
            }
            if k == s.last().0 {
                assert(s[s.len() - 1].0 == k);
            }
        }
        assert forall|k: u8| #[trigger] pairs_map(s).contains_key(k) implies exists|i: int|
            0 <= i < s.len() && s[i].0 == k && s[i].1 == pairs_map(s)[k] by {
            if k == s.last().0 {
                assert(s[s.len() - 1].0 == k);
            } else {
                assert(pairs_map(p).contains_key(k));
                let i = choose|i: int| 0 <= i < p.len() && p[i].0 == k && p[i].1 == pairs_map(p)[k];
                assert(s[i] == p[i]);
            }
        }
    }
}

/// Pairs that agree with `m` and name every key of `m` bind exactly `m`.
proof fn lemma_pairs_map_is(s: Seq<(u8, u32)>, m: Map<u8, u32>)
    requires
        forall|i: int| 0 <= i < s.len() ==> m.contains_key(#[trigger] s[i].0) && m[s[i].0] == s[i].1,
        forall|k: u8| #[trigger] m.contains_key(k) ==> exists|i: int| 0 <= i < s.len() && s[i].0 == k,
    ensures
        pairs_map(s) == m,
{
    lemma_pairs_map(s);
    assert forall|k: u8| #[trigger] pairs_map(s).contains_key(k) implies pairs_map(s)[k] == m[k] by {
        let i = choose|i: int| 0 <= i < s.len() && s[i].0 == k && s[i].1 == pairs_map(s)[k];
        assert(m.contains_key(s[i].0));
    }
    assert(pairs_map(s) =~= m);
}

/// The bindings of a connected device: the factory preset for the device,
/// with the user's own overrides winning on any CC number both bind.
pub fn merge_device_layers(factory: &HashMap<u8, u32>, user: &HashMap<u8, u32>) -> (r: HashMap<u8, u32>)
    ensures
        r@ == factory@.union_prefer_right(user@),
{
    broadcast use vstd::std_specs::hash::group_hash_axioms;
    let mut merged = factory.clone();
    let ghost pairs = user.iter().remaining().unref();
    for kv in it: user.iter()
        invariant
            it.seq().unref() == pairs,
            merged@ == factory@.union_prefer_right(pairs_map(pairs.take(it.index() as int))),
    {
        let (k, v) = kv;
        assert(pairs.take(it.index() + 1).drop_last() =~= pairs.take(it.index() as int));
        merged.insert(*k, *v);
        assert(merged@ =~= factory@.union_prefer_right(pairs_map(pairs.take(it.index() + 1))));
    }
    proof {
        assert(pairs.take(pairs.len() as int) =~= pairs);
        let refs = user.iter().remaining();
        assert forall|k: u8| #[trigger] user@.contains_key(k) implies exists|i: int| 0 <= i < pairs.len() && pairs[i].0 == k by {
            assert(refs.contains((&k, &user@[k])));
            let j = choose|j: int| 0 <= j < refs.len() && refs[j] == (&k, &user@[k]);
            assert(pairs[j].0 == k);
        }
        lemma_pairs_map_is(pairs, user@);
    }
    merged
}

} // verus!
