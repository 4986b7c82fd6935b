//! Patch browser: which patches the category, search and tag filters let
//! through, the favourites and recent sections, and the favourite / tag
//! switches. Drawing the browser is the application's job.

use vstd::prelude::*;
use crate::chars::{chars_of, str_lowercase, string_from_chars, to_lowercase};

verus! {

broadcast use vstd::seq_lib::group_to_multiset_ensures;

/// What the browser reads of a patch.
pub struct PatchInfo {
    pub name: String,
    pub category: String,
    pub tags: Vec<String>,
}

/// `needle` occurs in `hay` as a contiguous run (`str::contains`).
pub open spec fn seq_contains(hay: Seq<char>, needle: Seq<char>) -> bool {
    exists|i: int| 0 <= i && i + needle.len() <= hay.len() && #[trigger] hay.subrange(i, i + needle.len()) == needle
}

/// Some string of `v` has the characters `s`.
pub open spec fn has_name(v: Seq<String>, s: Seq<char>) -> bool {
    exists|k: int| 0 <= k < v.len() && #[trigger] v[k]@ == s
}

/// The category filter lets `p` through.
pub open spec fn category_ok(p: PatchInfo, category: Seq<char>) -> bool {
    category == "All"@ || p.category@ == category
}

/// The (lowercased) search text occurs in `p`'s lowercased name or
/// category, or in one of its tags; an empty search matches everything.
pub open spec fn search_ok(p: PatchInfo, search_lc: Seq<char>) -> bool {
    ||| search_lc.len() == 0
    ||| seq_contains(str_lowercase(p.name@), search_lc)
    ||| seq_contains(str_lowercase(p.category@), search_lc)
    ||| exists|k: int| 0 <= k < p.tags@.len() && seq_contains(#[trigger] p.tags@[k]@, search_lc)
}

/// `p` carries every active tag.
pub open spec fn tags_ok(p: PatchInfo, active_tags: Seq<String>) -> bool {
    forall|j: int| 0 <= j < active_tags.len() ==> has_name(p.tags@, #[trigger] active_tags[j]@)
}

/// `p` passes all three filters.
pub open spec fn patch_matches_spec(p: PatchInfo, category: Seq<char>, search_lc: Seq<char>, active_tags: Seq<String>) -> bool {
    category_ok(p, category) && search_ok(p, search_lc) && tags_ok(p, active_tags)
}

/// Indices `i < n` of the patches of `lib` that pass the filters, in order.
pub open spec fn matching_indices(
    lib: Seq<PatchInfo>,
    n: int,
    category: Seq<char>,
    search_lc: Seq<char>,
    active_tags: Seq<String>,
) -> Seq<usize>
    decreases n,
{
    if n <= 0 {
        Seq::<usize>::empty()
    } else {
        let prev = matching_indices(lib, n - 1, category, search_lc, active_tags);
        if patch_matches_spec(lib[n - 1], category, search_lc, active_tags) {
            prev.push((n - 1) as usize)
        } else {
            prev
        }
    }
}

/// Whether `needle` occurs in `hay`.
pub fn str_contains(hay: &str, needle: &str) -> (r: bool)
    ensures
        r == seq_contains(hay@, needle@),
{
    let h = chars_of(hay);
    let n = chars_of(needle);
    if n.len() == 0 {
        assert(h@.subrange(0, 0int + n@.len()) =~= n@);
        assert(hay@.subrange(0, 0int + needle@.len()) == needle@);
        return true;
    }
    let mut i: usize = 0;
    while i < h.len() && n.len() <= h.len() - i
        invariant
            h@ == hay@,
            n@ == needle@,
            n.len() > 0,
            i <= h.len(),
            forall|k: int| 0 <= k < i ==> #[trigger] h@.subrange(k, k + n@.len()) != n@,
        decreases h.len() - i,
    {
        let mut j: usize = 0;
        let mut same = true;
        while j < n.len()
            invariant
                h@ == hay@,
                n@ == needle@,
                i + n.len() <= h.len(),
                j <= n.len(),
                same == forall|m: int| 0 <= m < j ==> h@[i + m] == #[trigger] n@[m],
            decreases n.len() - j,
        {
            if h[i + j] != n[j] {
                same = false;
            }
            j = j + 1;
        }
        if same {
            assert(h@.subrange(i as int, i + n@.len()) =~= n@);
            return true;
        }
        proof {
            if h@.subrange(i as int, i + n@.len()) == n@ {
                assert forall|m: int| 0 <= m < n@.len() implies h@[i + m] == #[trigger] n@[m] by {
                    assert(h@.subrange(i as int, i + n@.len())[m] == n@[m]);
                }
            }
        }
        i = i + 1;
    }
    proof {
        assert forall|k: int| 0 <= k && k + n@.len() <= h@.len() implies #[trigger] h@.subrange(k, k + n@.len())
            != n@ by {
            assert(k < i);
        }
    }
    false
}

/// Whether some string of `v` equals `s`.
pub fn contains_name(v: &Vec<String>, s: &String) -> (r: bool)
    ensures
        r == has_name(v@, s@),
{
    let mut k: usize = 0;
    while k < v.len()
        invariant
            k <= v.len(),
            forall|j: int| 0 <= j < k ==> #[trigger] v@[j]@ != s@,
        decreases v.len() - k,
    {
        if v[k] == *s {
            return true;
        }
        k = k + 1;
    }
    false
}

/// Whether `p` passes the category, search and tag filters; `search_lc` is
/// the search text already lowercased.
pub fn patch_matches(p: &PatchInfo, category: &String, search_lc: &String, active_tags: &Vec<String>) -> (r: bool)
    ensures
        r == patch_matches_spec(*p, category@, search_lc@, active_tags@),
{
    let all = String::from_str("All");
    let cat_ok = *category == all || p.category == *category;
    let search = search_lc.as_str();
    let mut search_ok = search.unicode_len() == 0;
    if !search_ok {
        let name_lc = to_lowercase(p.name.as_str());
        let cat_lc = to_lowercase(p.category.as_str());
        search_ok = str_contains(name_lc.as_str(), search) || str_contains(cat_lc.as_str(), search);
        let mut k: usize = 0;
        while k < p.tags.len()
            invariant
                k <= p.tags.len(),
                search@ == search_lc@,
                search_ok == (seq_contains(str_lowercase(p.name@), search_lc@) || seq_contains(
                    str_lowercase(p.category@),
                    search_lc@,
                ) || exists|j: int| 0 <= j < k && seq_contains(#[trigger] p.tags@[j]@, search_lc@)),
            decreases p.tags.len() - k,
        {
            if str_contains(p.tags[k].as_str(), search) {
                search_ok = true;
            }
            k = k + 1;
        }
    }
    let mut tag_ok = true;
    let mut j: usize = 0;
    while j < active_tags.len()
        invariant
            j <= active_tags.len(),
            tag_ok == forall|m: int| 0 <= m < j ==> has_name(p.tags@, #[trigger] active_tags@[m]@),
        decreases active_tags.len() - j,
    {
        if !contains_name(&p.tags, &active_tags[j]) {
            tag_ok = false;
        }
        j = j + 1;
    }
    cat_ok && search_ok && tag_ok
}

/// Indices of the patches of `library` that pass the filters for the
/// selected `category` ("All" for any), the `search` text (matched without
/// regard to case against names and categories, as typed against tags) and
/// the `active_tags` (all of which a patch must carry).
pub fn filter_patches(library: &Vec<PatchInfo>, category: &String, search: &String, active_tags: &Vec<String>) -> (r: Vec<usize>)
    ensures
        r@ == matching_indices(library@, library@.len() as int, category@, str_lowercase(search@), active_tags@),
        category@ == "All"@ && search@.len() == 0 && active_tags@.len() == 0 ==> r@ == Seq::new(
            library@.len(),
            |i: int| i as usize,
        ),
{
    let search_lc = to_lowercase(search.as_str());
    proof {
        if category@ == "All"@ && search@.len() == 0 && active_tags@.len() == 0 {
            assert(search_lc@ =~= Seq::<char>::empty());
            assert(active_tags@ =~= Seq::<String>::empty());
            lemma_no_filters_lists_everything(library@, library@.len() as int);
        }
    }
    let mut r: Vec<usize> = Vec::new();
    let mut i: usize = 0;
    while i < library.len()
        invariant
            i <= library.len(),
            search_lc@ == str_lowercase(search@),
            r@ == matching_indices(library@, i as int, category@, search_lc@, active_tags@),
        decreases library.len() - i,
    {
        if patch_matches(&library[i], category, &search_lc, active_tags) {
            r.push(i);
        }
        i = i + 1;
    }
    r
}


/// The browser's filter settings.
pub struct BrowserFilters {
    /// Selected category, "All" for any.
    pub category: String,
    /// Search text as typed.
    pub search: String,
    /// Tags a patch must all carry.
    pub active_tags: Vec<String>,
}

impl BrowserFilters {
    /// "Clear filters": back to all categories and no active tag; the
    /// search text is kept.
    pub fn clear_filters(&mut self)
        ensures
            final(self).category@ == "All"@,
            final(self).active_tags@.len() == 0,
            final(self).search == old(self).search,
    {
        self.active_tags.clear();
        self.category = String::from_str("All");
    }

    /// A click on a category in the sidebar selects it.
    pub fn select_category(&mut self, category: String)
        ensures
            final(self).category == category,
            final(self).search == old(self).search,
            final(self).active_tags == old(self).active_tags,
    {
        self.category = category;
    }

    /// A click on a tag in the sidebar: it becomes active, or inactive when
    /// it was.
    pub fn toggle_tag(&mut self, tag: String)
        requires
            distinct_names(old(self).active_tags@),
        ensures
            toggles_name(old(self).active_tags@, final(self).active_tags@, tag@),
            final(self).category == old(self).category,
            final(self).search == old(self).search,
    {
        toggle_name(&mut self.active_tags, tag);
    }

    /// Indices of the patches of `library` that the filters let through.
    pub fn matching(&self, library: &Vec<PatchInfo>) -> (r: Vec<usize>)
        ensures
            r@ == matching_indices(
                library@,
                library@.len() as int,
                self.category@,
                str_lowercase(self.search@),
                self.active_tags@,
            ),
    {
        filter_patches(library, &self.category, &self.search, &self.active_tags)
    }
}

/// The entries of `filtered` whose patch name is among `favorites`, in order.
pub open spec fn favourite_entries(lib: Seq<PatchInfo>, filtered: Seq<usize>, favorites: Seq<String>) -> Seq<usize>
    decreases filtered.len(),
{
    if filtered.len() == 0 {
        Seq::<usize>::empty()
    } else {
        let prev = favourite_entries(lib, filtered.drop_last(), favorites);
        let i = filtered.last();
        if has_name(favorites, lib[i as int].name@) {
            prev.push(i)
        } else {
            prev
        }
    }
}

/// First entry of `filtered` whose patch is called `name`.
pub open spec fn first_named(lib: Seq<PatchInfo>, filtered: Seq<usize>, name: Seq<char>) -> Option<usize>
    decreases filtered.len(),
{
    if filtered.len() == 0 {
        None
    } else if lib[filtered[0] as int].name@ == name {
        Some(filtered[0])
    } else {
        first_named(lib, filtered.drop_first(), name)
    }
}

/// For each recently loaded name that some filtered patch has, the first
/// such patch, in order of `recent`.
pub open spec fn recent_entries(lib: Seq<PatchInfo>, filtered: Seq<usize>, recent: Seq<String>) -> Seq<usize>
    decreases recent.len(),
{
    if recent.len() == 0 {
        Seq::<usize>::empty()
    } else {
        let prev = recent_entries(lib, filtered, recent.drop_last());
        match first_named(lib, filtered, recent.last()@) {
            Some(i) => prev.push(i),
            None => prev,
        }
    }
}

/// Number of recent patches the browser lists.
pub const RECENT_SHOWN: usize = 6;

/// The favourites section: the filtered patches whose names are starred.
pub fn favourite_indices(library: &Vec<PatchInfo>, filtered: &Vec<usize>, favorites: &Vec<String>) -> (r: Vec<usize>)
    requires
        forall|k: int| 0 <= k < filtered.len() ==> #[trigger] filtered[k] < library.len(),
    ensures
        r@ == favourite_entries(library@, filtered@, favorites@),
{
    let mut r: Vec<usize> = Vec::new();
    let mut k: usize = 0;
    while k < filtered.len()
        invariant
            k <= filtered.len(),
            forall|m: int| 0 <= m < filtered.len() ==> #[trigger] filtered[m] < library.len(),
            r@ == favourite_entries(library@, filtered@.subrange(0, k as int), favorites@),
        decreases filtered.len() - k,
    {
        let i = filtered[k];
        assert(filtered@.subrange(0, k + 1).drop_last() =~= filtered@.subrange(0, k as int));
        if contains_name(favorites, &library[i].name) {
            r.push(i);
        }
        k = k + 1;
    }
    assert(filtered@.subrange(0, k as int) =~= filtered@);
    r
}

/// First entry of `filtered` whose patch is called `name`.
fn find_named(library: &Vec<PatchInfo>, filtered: &Vec<usize>, name: &String) -> (r: Option<usize>)
    requires
        forall|k: int| 0 <= k < filtered.len() ==> #[trigger] filtered[k] < library.len(),
    ensures
        r == first_named(library@, filtered@, name@),
{
    let mut k: usize = 0;
    assert(filtered@.subrange(0, filtered@.len() as int) =~= filtered@);
    while k < filtered.len()
        invariant
            k <= filtered.len(),
            forall|m: int| 0 <= m < filtered.len() ==> #[trigger] filtered[m] < library.len(),
            first_named(library@, filtered@, name@) == first_named(
                library@,
                filtered@.subrange(k as int, filtered@.len() as int),
                name@,
            ),
        decreases filtered.len() - k,
    {
        let i = filtered[k];
        let ghost rest = filtered@.subrange(k as int, filtered@.len() as int);
        assert(rest[0] == i);
        assert(rest.drop_first() =~= filtered@.subrange(k + 1, filtered@.len() as int));
        if library[i].name == *name {
            return Some(i);
        }
        k = k + 1;
    }
    None
}

/// The recent section: for each recently loaded name, newest first, the
/// first filtered patch of that name; at most `RECENT_SHOWN` of them.
pub fn recent_indices(library: &Vec<PatchInfo>, filtered: &Vec<usize>, recent: &Vec<String>) -> (r: Vec<usize>)
    requires
        forall|k: int| 0 <= k < filtered.len() ==> #[trigger] filtered[k] < library.len(),
    ensures
        r@ == recent_entries(library@, filtered@, recent@).take(
            if recent_entries(library@, filtered@, recent@).len() < RECENT_SHOWN {
                recent_entries(library@, filtered@, recent@).len() as int
            } else {
                RECENT_SHOWN as int
            },
        ),
{
    let mut r: Vec<usize> = Vec::new();
    let mut k: usize = 0;
    while k < recent.len()
        invariant
            k <= recent.len(),
            forall|m: int| 0 <= m < filtered.len() ==> #[trigger] filtered[m] < library.len(),
            r@ == recent_entries(library@, filtered@, recent@.subrange(0, k as int)).take(
                if recent_entries(library@, filtered@, recent@.subrange(0, k as int)).len() < RECENT_SHOWN {
                    recent_entries(library@, filtered@, recent@.subrange(0, k as int)).len() as int
                } else {
                    RECENT_SHOWN as int
                },
            ),
        decreases recent.len() - k,
    {
        let ghost prev = recent_entries(library@, filtered@, recent@.subrange(0, k as int));
        assert(recent@.subrange(0, k + 1).drop_last() =~= recent@.subrange(0, k as int));
        assert(recent@.subrange(0, k + 1).last() == recent@[k as int]);
        let found = find_named(library, filtered, &recent[k]);
        if let Some(i) = found {
            if r.len() < RECENT_SHOWN {
                r.push(i);
                assert(prev.push(i).take(prev.len() + 1int) =~= prev.push(i));
                assert(prev.take(prev.len() as int) =~= prev);
            } else {
                assert(prev.push(i).take(RECENT_SHOWN as int) =~= prev.take(RECENT_SHOWN as int));
            }
        }
        k = k + 1;
    }
    assert(recent@.subrange(0, k as int) =~= recent@);
    r
}


/// The names held by `v`.
pub open spec fn name_set(v: Seq<String>) -> Set<Seq<char>> {
    Set::new(|s: Seq<char>| has_name(v, s))
}

/// No name occurs twice in `v`.
pub open spec fn distinct_names(v: Seq<String>) -> bool {
    forall|i: int, j: int| 0 <= i < v.len() && 0 <= j < v.len() && i != j ==> #[trigger] v[i]@ != #[trigger] v[j]@
}

/// `w` is the set `v` with `name` added, or removed when it was there.
pub open spec fn toggles_name(v: Seq<String>, w: Seq<String>, name: Seq<char>) -> bool {
    &&& distinct_names(w)
    &&& name_set(w) == if name_set(v).contains(name) {
        name_set(v).remove(name)
    } else {
        name_set(v).insert(name)
    }
}

/// Star or unstar a name (a favourite patch, an active tag): remove it from
/// the set when present, add it otherwise.
pub fn toggle_name(set: &mut Vec<String>, name: String)
    requires
        distinct_names(old(set)@),
    ensures
        toggles_name(old(set)@, final(set)@, name@),
{
    let mut k: usize = 0;
    while k < set.len()
        invariant
            k <= set.len(),
            set@ == old(set)@,
            distinct_names(set@),
            forall|j: int| 0 <= j < k ==> #[trigger] set@[j]@ != name@,
        decreases set.len() - k,
    {
        if set[k] == name {
            let ghost before = set@;
            set.remove(k);
            proof {
                assert(set@ =~= before.remove(k as int));
                assert forall|i: int, j: int|
                    0 <= i < set@.len() && 0 <= j < set@.len() && i != j implies #[trigger] set@[i]@ != #[trigger] set@[j]@ by {
                    let bi = if i < k { i } else { i + 1 };
                    let bj = if j < k { j } else { j + 1 };
                    assert(set@[i] == before[bi]);
                    assert(set@[j] == before[bj]);
                }
                assert(name_set(before).contains(name@)) by {
                    assert(before[k as int]@ == name@);
                }
                assert forall|s: Seq<char>| #[trigger] name_set(set@).contains(s) <==> name_set(before).remove(name@).contains(s) by {
                    if has_name(set@, s) {
                        let m = choose|m: int| 0 <= m < set@.len() && #[trigger] set@[m]@ == s;
                        let bm = if m < k { m } else { m + 1 };
                        assert(before[bm]@ == s);
                        assert(bm != k);
                        assert(s != name@);
                    }
                    if has_name(before, s) && s != name@ {
                        let m = choose|m: int| 0 <= m < before.len() && #[trigger] before[m]@ == s;
                        assert(m != k);
                        let sm = if m < k { m } else { m - 1 };
                        assert(set@[sm]@ == s);
                    }
                }
                assert(name_set(set@) =~= name_set(before).remove(name@));
            }
            return;
        }
        k = k + 1;
    }
    let ghost before = set@;
    set.push(name);
    proof {
        assert(!name_set(before).contains(name@)) by {
            if has_name(before, name@) {
                let m = choose|m: int| 0 <= m < before.len() && #[trigger] before[m]@ == name@;
                assert(before[m]@ != name@);
            }
        }
        assert forall|i: int, j: int|
            0 <= i < set@.len() && 0 <= j < set@.len() && i != j implies #[trigger] set@[i]@ != #[trigger] set@[j]@ by {
            if i < before.len() && j < before.len() {
                assert(set@[i] == before[i]);
                assert(set@[j] == before[j]);
            } else if i < before.len() {
                assert(set@[i] == before[i]);
                assert(before[i]@ != name@);
            } else {
                assert(set@[j] == before[j]);
                assert(before[j]@ != name@);
            }
        }
        assert forall|s: Seq<char>| #[trigger] name_set(set@).contains(s) <==> name_set(before).insert(name@).contains(s) by {
            if has_name(set@, s) {
                let m = choose|m: int| 0 <= m < set@.len() && #[trigger] set@[m]@ == s;
                if m < before.len() {
                    assert(before[m]@ == s);
                }
            }
            if has_name(before, s) {
                let m = choose|m: int| 0 <= m < before.len() && #[trigger] before[m]@ == s;
                assert(set@[m]@ == s);
            }
            if s == name@ {
                assert(set@[before.len() as int]@ == s);
            }
        }
        assert(name_set(set@) =~= name_set(before).insert(name@));
    }
}

/// Toggling the same name twice gives back the same set of names.
pub proof fn lemma_toggle_name_twice(v: Seq<String>, w: Seq<String>, u: Seq<String>, name: Seq<char>)
    requires
        toggles_name(v, w, name),
        toggles_name(w, u, name),
    ensures
        name_set(u) == name_set(v),
{
    if name_set(v).contains(name) {
        assert(name_set(u) =~= name_set(v));
    } else {
        assert(name_set(u) =~= name_set(v));
    }
}

/// With the category on "All", an empty search and no active tag, every
/// patch is listed.
pub proof fn lemma_no_filters_lists_everything(lib: Seq<PatchInfo>, n: int)
    requires
        0 <= n <= lib.len(),
    ensures
        matching_indices(lib, n, "All"@, Seq::<char>::empty(), Seq::<String>::empty())
            == Seq::new(n as nat, |i: int| i as usize),
    decreases n,
{
    if n > 0 {
        lemma_no_filters_lists_everything(lib, n - 1);
        assert(patch_matches_spec(lib[n - 1], "All"@, Seq::<char>::empty(), Seq::<String>::empty()));
        assert(Seq::new((n - 1) as nat, |i: int| i as usize).push((n - 1) as usize) =~= Seq::new(
            n as nat,
            |i: int| i as usize,
        ));
    }
}


/// `a` comes before `b` in lexicographic order of code points (the order
/// of `str`).
pub open spec fn lex_lt(a: Seq<char>, b: Seq<char>) -> bool
    decreases a.len(),
{
    if a.len() == 0 {
        b.len() > 0
    } else if b.len() == 0 {
        false
    } else if a[0] != b[0] {
        a[0] < b[0]
    } else {
        lex_lt(a.drop_first(), b.drop_first())
    }
}

/// No string comes before itself.
pub proof fn lemma_lex_irreflexive(a: Seq<char>)
    ensures
        !lex_lt(a, a),
    decreases a.len(),
{
    if a.len() > 0 {
        lemma_lex_irreflexive(a.drop_first());
    }
}

/// The lexicographic order is transitive.
pub proof fn lemma_lex_transitive(a: Seq<char>, b: Seq<char>, c: Seq<char>)
    requires
        lex_lt(a, b),
        lex_lt(b, c),
    ensures
        lex_lt(a, c),
    decreases a.len(),
{
    if a.len() > 0 && b.len() > 0 && c.len() > 0 && a[0] == b[0] && b[0] == c[0] {
        lemma_lex_transitive(a.drop_first(), b.drop_first(), c.drop_first());
    }
}

/// Of two different strings, one comes before the other.
pub proof fn lemma_lex_total(a: Seq<char>, b: Seq<char>)
    ensures
        a == b || lex_lt(a, b) || lex_lt(b, a),
    decreases a.len(),
{
    if a.len() > 0 && b.len() > 0 && a[0] == b[0] {
        lemma_lex_total(a.drop_first(), b.drop_first());
        if a.drop_first() == b.drop_first() {
            assert(a =~= b) by {
                assert forall|i: int| 0 <= i < a.len() implies a[i] == b[i] by {
                    if i > 0 {
                        assert(a[i] == a.drop_first()[i - 1]);
                        assert(b[i] == b.drop_first()[i - 1]);
                    }
                }
            }
        }
    } else if a.len() == 0 && b.len() == 0 {
        assert(a =~= b);
    }
}

/// Category-list order: "All" first, the others lexicographically.
pub open spec fn category_before(a: Seq<char>, b: Seq<char>) -> bool {
    ||| a == "All"@ && b != "All"@
    ||| a != "All"@ && b != "All"@ && lex_lt(a, b)
}

/// Whenever `a` comes before `b`, any `c` comes after `a` or before `b`.
proof fn lemma_category_split(a: Seq<char>, b: Seq<char>, c: Seq<char>)
    requires
        category_before(a, b),
    ensures
        category_before(a, c) || category_before(c, b),
{
    if a != "All"@ && b != "All"@ && c != "All"@ {
        lemma_lex_total(a, c);
        if lex_lt(c, a) {
            lemma_lex_transitive(c, a, b);
        }
    }
}

/// `category_before` is asymmetric.
proof fn lemma_category_asymmetric(a: Seq<char>, b: Seq<char>)
    requires
        category_before(a, b),
    ensures
        !category_before(b, a),
{
    if lex_lt(a, b) && lex_lt(b, a) {
        lemma_lex_transitive(a, b, a);
        lemma_lex_irreflexive(a);
    }
}

/// The names of `v` are in category-list order.
pub open spec fn categories_sorted(v: Seq<Seq<char>>) -> bool {
    forall|i: int, j: int| 0 <= i < j < v.len() ==> !category_before(#[trigger] v[j], #[trigger] v[i])
}

/// Each distinct category of the first `n` patches, in order of first use.
pub open spec fn distinct_categories(lib: Seq<PatchInfo>, n: int) -> Seq<Seq<char>>
    decreases n,
{
    if n <= 0 {
        Seq::<Seq<char>>::empty()
    } else {
        let prev = distinct_categories(lib, n - 1);
        if prev.contains(lib[n - 1].category@) {
            prev
        } else {
            prev.push(lib[n - 1].category@)
        }
    }
}

/// The characters of each string of `v`.
pub open spec fn names_of(v: Seq<String>) -> Seq<Seq<char>> {
    v.map_values(|s: String| s@)
}

/// Whether `a` comes before `b` lexicographically.
pub fn lex_less(a: &String, b: &String) -> (r: bool)
    ensures
        r == lex_lt(a@, b@),
{
    let x = chars_of(a.as_str());
    let y = chars_of(b.as_str());
    let mut i: usize = 0;
    assert(x@.subrange(0, x@.len() as int) =~= x@);
    assert(y@.subrange(0, y@.len() as int) =~= y@);
    while i < x.len() && i < y.len() && x[i] == y[i]
        invariant
            x@ == a@,
            y@ == b@,
            i <= x.len(),
            i <= y.len(),
            lex_lt(a@, b@) == lex_lt(x@.subrange(i as int, x@.len() as int), y@.subrange(i as int, y@.len() as int)),
        decreases x.len() - i,
    {
        assert(x@.subrange(i as int, x@.len() as int).drop_first() =~= x@.subrange(i + 1, x@.len() as int));
        assert(y@.subrange(i as int, y@.len() as int).drop_first() =~= y@.subrange(i + 1, y@.len() as int));
        i = i + 1;
    }
    if i == x.len() {
        i < y.len()
    } else if i == y.len() {
        false
    } else {
        assert(x@.subrange(i as int, x@.len() as int)[0] == x@[i as int]);
        assert(y@.subrange(i as int, y@.len() as int)[0] == y@[i as int]);
        x[i] < y[i]
    }
}

/// Whether `a` comes before `b` in the category list.
fn category_less(a: &String, b: &String, all: &String) -> (r: bool)
    requires
        all@ == "All"@,
    ensures
        r == category_before(a@, b@),
{
    if *a == *all {
        !(*b == *all)
    } else if *b == *all {
        false
    } else {
        lex_less(a, b)
    }
}

/// The category list of the browser: "All", then each distinct category of
/// the library, sorted with "All" first and the rest lexicographically.
pub fn browser_categories(library: &Vec<PatchInfo>) -> (r: Vec<String>)
    ensures
        categories_sorted(names_of(r@)),
        r@.len() > 0 && names_of(r@)[0] == "All"@,
        names_of(r@).to_multiset() == seq!["All"@].add(distinct_categories(library@, library@.len() as int)).to_multiset(),
{
    let all = String::from_str("All");
    let mut unique: Vec<String> = Vec::new();
    let mut i: usize = 0;
    while i < library.len()
        invariant
            i <= library.len(),
            names_of(unique@) == distinct_categories(library@, i as int),
        decreases library.len() - i,
    {
        let c = &library[i].category;
        proof {
            assert(distinct_categories(library@, i + 1) == if distinct_categories(library@, i as int).contains(c@) {
                distinct_categories(library@, i as int)
            } else {
                distinct_categories(library@, i as int).push(c@)
            });
        }
        let known = contains_name(&unique, c);
        proof {
            if has_name(unique@, c@) {
                let k = choose|k: int| 0 <= k < unique@.len() && #[trigger] unique@[k]@ == c@;
                assert(names_of(unique@)[k] == c@);
            }
            if names_of(unique@).contains(c@) {
                let k = choose|k: int| 0 <= k < names_of(unique@).len() && names_of(unique@)[k] == c@;
                assert(unique@[k]@ == c@);
            }
        }
        if !known {
            unique.push(c.clone());
            assert(names_of(unique@) =~= distinct_categories(library@, i as int).push(c@));
        }
        i = i + 1;
    }
    let mut input: Vec<String> = Vec::new();
    input.push(String::from_str("All"));
    let mut k: usize = 0;
    while k < unique.len()
        invariant
            k <= unique.len(),
            names_of(input@) == seq!["All"@].add(names_of(unique@).subrange(0, k as int)),
        decreases unique.len() - k,
    {
        let v = unique[k].clone();
        let ghost prev = input@;
        assert(v@ == names_of(unique@)[k as int]);
        input.push(v);
        assert(input@ == prev.push(v));
        assert(names_of(input@) =~= names_of(prev).push(v@));
        assert(names_of(unique@).subrange(0, k + 1) =~= names_of(unique@).subrange(0, k as int).push(v@));
        assert(names_of(input@) =~= seq!["All"@].add(names_of(unique@).subrange(0, k + 1)));
        k = k + 1;
    }
    assert(names_of(unique@).subrange(0, k as int) =~= names_of(unique@));
    let mut sorted: Vec<String> = Vec::new();
    let mut n: usize = 0;
    while n < input.len()
        invariant
            n <= input.len(),
            all@ == "All"@,
            categories_sorted(names_of(sorted@)),
            names_of(sorted@).to_multiset() == names_of(input@).subrange(0, n as int).to_multiset(),
        decreases input.len() - n,
    {
        let x = input[n].clone();
        let mut pos: usize = 0;
        while pos < sorted.len() && !category_less(&x, &sorted[pos], &all)
            invariant
                pos <= sorted.len(),
                all@ == "All"@,
                forall|m: int| 0 <= m < pos ==> !category_before(x@, #[trigger] names_of(sorted@)[m]),
            decreases sorted.len() - pos,
        {
            pos = pos + 1;
        }
        let ghost before = names_of(sorted@);
        sorted.insert(pos, x.clone());
        proof {
            assert(names_of(sorted@) =~= before.insert(pos as int, x@));
            let after = names_of(sorted@);
            assert forall|a: int, b: int| 0 <= a < b < after.len() implies !category_before(
                #[trigger] after[b],
                #[trigger] after[a],
            ) by {
                if a < pos && b < pos {
                    assert(after[a] == before[a] && after[b] == before[b]);
                } else if a < pos && b == pos {
                    assert(after[a] == before[a] && after[b] == x@);
                } else if a < pos {
                    assert(after[a] == before[a] && after[b] == before[b - 1]);
                } else if a == pos {
                    assert(after[a] == x@ && after[b] == before[b - 1]);
                    assert(category_before(x@, before[pos as int]));
                    if b - 1 > pos {
                        assert(!category_before(before[b - 1], before[pos as int]));
                    }
                    lemma_category_split(x@, before[pos as int], before[b - 1]);
                    lemma_category_asymmetric(x@, before[b - 1]);
                } else {
                    assert(after[a] == before[a - 1] && after[b] == before[b - 1]);
                }
            }
            assert(names_of(input@).subrange(0, n + 1) =~= names_of(input@).subrange(0, n as int).push(x@));
        }
        n = n + 1;
    }
    assert(names_of(input@).subrange(0, n as int) =~= names_of(input@));
    proof {
        let v = names_of(sorted@);
        assert(names_of(input@)[0] == "All"@);
        assert(names_of(input@).to_multiset().contains("All"@));
        assert(v.to_multiset().contains("All"@));
        assert(v.contains("All"@));
        let m = choose|m: int| 0 <= m < v.len() && v[m] == "All"@;
        if m > 0 && v[0] != "All"@ {
            assert(!category_before(v[m], v[0]));
        }
    }
    sorted
}

/// Tags of a sidebar group that some patch of the library carries.
pub open spec fn used_tags(group: Seq<Seq<char>>, lib: Seq<PatchInfo>) -> Seq<Seq<char>>
    decreases group.len(),
{
    if group.len() == 0 {
        Seq::<Seq<char>>::empty()
    } else {
        let prev = used_tags(group.drop_last(), lib);
        if exists|i: int| 0 <= i < lib.len() && has_name(#[trigger] lib[i].tags@, group.last()) {
            prev.push(group.last())
        } else {
            prev
        }
    }
}

/// "Inspired by" tag group of the sidebar.
pub const INSPIRED_BY_TAGS: [&'static str; 6] = ["eno", "pink-floyd", "frahm", "zimmer", "glass", "wagner"];

/// "Character" tag group of the sidebar.
pub const CHARACTER_TAGS: [&'static str; 13] = [
    "warm",
    "dark",
    "bright",
    "cold",
    "lush",
    "raw",
    "soft",
    "aggressive",
    "evolving",
    "drone",
    "pulsing",
    "rhythmic",
    "glitchy",
];

/// "Timbre" tag group of the sidebar.
pub const TIMBRE_TAGS: [&'static str; 10] = [
    "analog",
    "digital",
    "fm",
    "bell",
    "choir",
    "strings",
    "noise",
    "plucked",
    "long-release",
    "short-attack",
];

/// "Genre" tag group of the sidebar.
pub const GENRE_TAGS: [&'static str; 4] = ["electronic", "synthwave", "rock", "cinematic"];

/// The tags of a sidebar group worth showing: those some patch carries,
/// in the group's order.
pub fn relevant_tags(group: &Vec<String>, library: &Vec<PatchInfo>) -> (r: Vec<String>)
    ensures
        names_of(r@) == used_tags(names_of(group@), library@),
{
    let mut r: Vec<String> = Vec::new();
    let mut k: usize = 0;
    while k < group.len()
        invariant
            k <= group.len(),
            names_of(r@) == used_tags(names_of(group@).subrange(0, k as int), library@),
        decreases group.len() - k,
    {
        let t = &group[k];
        let mut used = false;
        let mut i: usize = 0;
        while i < library.len()
            invariant
                i <= library.len(),
                used == exists|m: int| 0 <= m < i && has_name(#[trigger] library@[m].tags@, t@),
            decreases library.len() - i,
        {
            if contains_name(&library[i].tags, t) {
                used = true;
            }
            i = i + 1;
        }
        let ghost prefix = names_of(group@).subrange(0, k + 1);
        assert(prefix.drop_last() =~= names_of(group@).subrange(0, k as int));
        assert(prefix.last() == t@);
        if used {
            let v = t.clone();
            let ghost prev = r@;
            r.push(v);
            assert(names_of(r@) =~= names_of(prev).push(t@));
        }
        k = k + 1;
    }
    assert(names_of(group@).subrange(0, k as int) =~= names_of(group@));
    r
}

/// The strings of `v` joined by `sep`.
pub open spec fn joined(v: Seq<Seq<char>>, sep: Seq<char>) -> Seq<char>
    decreases v.len(),
{
    if v.len() == 0 {
        Seq::<char>::empty()
    } else if v.len() == 1 {
        v[0]
    } else {
        joined(v.drop_last(), sep) + sep + v.last()
    }
}

/// The category chip of a patch row: the category in square brackets.
pub fn category_chip(category: &String) -> (r: String)
    ensures
        r@ == "["@ + category@ + "]"@,
{
    let mut r = String::from_str("[");
    r.append(category.as_str());
    r.append("]");
    r
}

/// The tag line of a patch row: the tags joined by " · " (empty when the
/// patch has no tags, and then not shown).
pub fn tag_line(tags: &Vec<String>) -> (r: String)
    ensures
        r@ == joined(names_of(tags@), " · "@),
{
    let mut r = String::from_str("");
    let mut i: usize = 0;
    proof {
        reveal_strlit("");
        assert(names_of(tags@.subrange(0, 0)) =~= Seq::<Seq<char>>::empty());
    }
    while i < tags.len()
        invariant
            i <= tags.len(),
            r@ == joined(names_of(tags@.subrange(0, i as int)), " · "@),
        decreases tags.len() - i,
    {
        proof {
            assert(names_of(tags@.subrange(0, i + 1)).drop_last() =~= names_of(tags@.subrange(0, i as int)));
            assert(names_of(tags@.subrange(0, i + 1)).last() == tags@[i as int]@);
        }
        if i > 0 {
            r.append(" · ");
        }
        r.append(tags[i].as_str());
        proof {
            if i == 0 {
                assert(r@ =~= tags@[0]@);
            }
        }
        i = i + 1;
    }
    assert(tags@.subrange(0, i as int) =~= tags@);
    r
}

/// The decimal digit `d` (0–9) as a character.
pub open spec fn digit_char(d: int) -> char {
    (48 + d) as char
}

/// The decimal numeral of `n`, without leading zeros.
pub open spec fn decimal(n: nat) -> Seq<char>
    decreases n,
{
    if n < 10 {
        seq![digit_char(n as int)]
    } else {
        decimal(n / 10).push(digit_char((n % 10) as int))
    }
}

/// Append the decimal numeral of `n` to `v`.
fn push_decimal(v: &mut Vec<char>, n: usize)
    ensures
        final(v)@ == old(v)@ + decimal(n as nat),
    decreases n,
{
    if n >= 10 {
        push_decimal(v, n / 10);
    }
    let d = n % 10;
    let c = if d == 0 {
        '0'
    } else if d == 1 {
        '1'
    } else if d == 2 {
        '2'
    } else if d == 3 {
        '3'
    } else if d == 4 {
        '4'
    } else if d == 5 {
        '5'
    } else if d == 6 {
        '6'
    } else if d == 7 {
        '7'
    } else if d == 8 {
        '8'
    } else {
        '9'
    };
    assert(c == digit_char(d as int));
    v.push(c);
    proof {
        if n < 10 {
            assert(d == n);
        }
    }
}

/// The count line above the patch list: "`showing` / `total` patches".
pub fn count_label(showing: usize, total: usize) -> (r: String)
    ensures
        r@ == decimal(showing as nat) + " / "@ + decimal(total as nat) + " patches"@,
{
    let mut a: Vec<char> = Vec::new();
    push_decimal(&mut a, showing);
    let mut b: Vec<char> = Vec::new();
    push_decimal(&mut b, total);
    let mut r = string_from_chars(&a);
    r.append(" / ");
    let t = string_from_chars(&b);
    r.append(t.as_str());
    r.append(" patches");
    assert(a@ =~= decimal(showing as nat));
    assert(b@ =~= decimal(total as nat));
    r
}

/// A patch that passes the filters is listed by `matching_indices`.
proof fn lemma_matching_lists(
    lib: Seq<PatchInfo>,
    n: int,
    category: Seq<char>,
    search_lc: Seq<char>,
    active_tags: Seq<String>,
    i: int,
)
    requires
        0 <= i < n <= lib.len(),
        lib.len() <= usize::MAX,
        patch_matches_spec(lib[i], category, search_lc, active_tags),
    ensures
        matching_indices(lib, n, category, search_lc, active_tags).contains(i as usize),
    decreases n,
{
    let prev = matching_indices(lib, n - 1, category, search_lc, active_tags);
    if i == n - 1 {
        assert(prev.push((n - 1) as usize)[prev.len() as int] == i as usize);
    } else {
        lemma_matching_lists(lib, n - 1, category, search_lc, active_tags, i);
        let k = choose|k: int| 0 <= k < prev.len() && prev[k] == i as usize;
        if patch_matches_spec(lib[n - 1], category, search_lc, active_tags) {
            assert(prev.push((n - 1) as usize)[k] == i as usize);
        }
    }
}

/// The search ignores case on patch names: with every category and no
/// active tag, a patch whose lowercased name contains the lowercased search
/// text is listed by `filter_patches`.
pub proof fn lemma_search_ignores_case(lib: Seq<PatchInfo>, search: Seq<char>, i: int)
    requires
        0 <= i < lib.len(),
        lib.len() <= usize::MAX,
        seq_contains(str_lowercase(lib[i].name@), str_lowercase(search)),
    ensures
        matching_indices(lib, lib.len() as int, "All"@, str_lowercase(search), Seq::<String>::empty()).contains(
            i as usize,
        ),
{
    assert(category_ok(lib[i], "All"@));
    assert(search_ok(lib[i], str_lowercase(search)));
    assert(tags_ok(lib[i], Seq::<String>::empty()));
    lemma_matching_lists(lib, lib.len() as int, "All"@, str_lowercase(search), Seq::<String>::empty(), i);
}

} // verus!
