//! Layout persistence: the file names that user-saved layouts are stored
//! under, and the order in which they are listed. Reading and writing the
//! files is the application's job.

use vstd::prelude::*;
use crate::patch_browser::{lemma_lex_irreflexive, lemma_lex_transitive, lex_less, lex_lt, names_of};
use crate::chars::{
    char_is_alphanumeric, char_is_whitespace, chars_of, is_ascii_alnum, is_ascii_char, is_alphanumeric, is_whitespace,
    string_from_chars,
};

verus! {

broadcast use vstd::seq_lib::group_to_multiset_ensures;

/// A character that `sanitize` keeps as it is.
pub open spec fn is_filename_char(c: char) -> bool {
    char_is_alphanumeric(c) || c == ' ' || c == '-' || c == '_'
}

/// `c` itself when it is safe in a file name, `'_'` otherwise.
pub open spec fn sanitize_char(c: char) -> char {
    if is_filename_char(c) { c } else { '_' }
}

/// `s` without its trailing whitespace.
pub open spec fn trim_end_ws(s: Seq<char>) -> Seq<char>
    decreases s.len(),
{
    if s.len() > 0 && char_is_whitespace(s.last()) {
        trim_end_ws(s.drop_last())
    } else {
        s
    }
}

/// `s` without its leading whitespace.
pub open spec fn trim_start_ws(s: Seq<char>) -> Seq<char>
    decreases s.len(),
{
    if s.len() > 0 && char_is_whitespace(s[0]) {
        trim_start_ws(s.drop_first())
    } else {
        s
    }
}

/// `s` without leading and trailing whitespace (`str::trim`).
pub open spec fn trim_ws(s: Seq<char>) -> Seq<char> {
    trim_start_ws(trim_end_ws(s))
}

/// What `sanitize(name)` returns: every unsafe character replaced by `'_'`,
/// then surrounding whitespace trimmed.
pub open spec fn sanitize_spec(name: Seq<char>) -> Seq<char> {
    trim_ws(name.map_values(|c: char| sanitize_char(c)))
}

/// Index just past the last non-whitespace character of `v[0 .. e]`.
fn trimmed_end(v: &Vec<char>) -> (e: usize)
    ensures
        e <= v.len(),
        trim_end_ws(v@) == v@.subrange(0, e as int),
{
    let mut e = v.len();
    assert(v@.subrange(0, e as int) =~= v@);
    while e > 0 && is_whitespace(v[e - 1])
        invariant
            e <= v.len(),
            trim_end_ws(v@) == trim_end_ws(v@.subrange(0, e as int)),
        decreases e,
    {
        assert(v@.subrange(0, e as int).drop_last() == v@.subrange(0, e - 1));
        e = e - 1;
    }
    proof {
        if e == 0 {
            assert(v@.subrange(0, 0) =~= Seq::<char>::empty());
        }
    }
    e
}

/// Index of the first non-whitespace character of `v[0 .. e]`, or `e`.
fn trimmed_start(v: &Vec<char>, e: usize) -> (b: usize)
    requires
        e <= v.len(),
    ensures
        b <= e,
        trim_start_ws(v@.subrange(0, e as int)) == v@.subrange(b as int, e as int),
{
    let mut b: usize = 0;
    assert(v@.subrange(0, e as int) == v@.subrange(0, e as int).subrange(0, e as int));
    while b < e && is_whitespace(v[b])
        invariant
            b <= e <= v.len(),
            trim_start_ws(v@.subrange(0, e as int)) == trim_start_ws(v@.subrange(b as int, e as int)),
        decreases e - b,
    {
        assert(v@.subrange(b as int, e as int).drop_first() == v@.subrange(b + 1, e as int));
        b = b + 1;
    }
    b
}

/// `v[b .. e]` as a vector.
fn copy_range(v: &Vec<char>, b: usize, e: usize) -> (r: Vec<char>)
    requires
        b <= e <= v.len(),
    ensures
        r@ == v@.subrange(b as int, e as int),
{
    let mut r: Vec<char> = Vec::new();
    let mut i = b;
    while i < e
        invariant
            b <= i <= e <= v.len(),
            r@ == v@.subrange(b as int, i as int),
        decreases e - i,
    {
        r.push(v[i]);
        i = i + 1;
    }
    r
}

/// Strip characters that are unsafe in filenames.
pub fn sanitize(name: &str) -> (r: String)
    ensures
        r@ == sanitize_spec(name@),
        forall|i: int|
            0 <= i < r@.len() && is_ascii_char(#[trigger] r@[i]) ==> is_ascii_alnum(r@[i]) || r@[i] == ' '
                || r@[i] == '-' || r@[i] == '_',
{
    let chars = chars_of(name);
    let mut mapped: Vec<char> = Vec::new();
    let mut i: usize = 0;
    while i < chars.len()
        invariant
            i <= chars.len(),
            chars@ == name@,
            mapped@ == chars@.subrange(0, i as int).map_values(|c: char| sanitize_char(c)),
            forall|k: int|
                0 <= k < i && is_ascii_char(#[trigger] chars@[k]) ==> (char_is_alphanumeric(chars@[k])
                    <==> is_ascii_alnum(chars@[k])),
        decreases chars.len() - i,
    {
        let c = chars[i];
        let keep = is_alphanumeric(c) || c == ' ' || c == '-' || c == '_';
        if keep {
            mapped.push(c);
        } else {
            mapped.push('_');
        }
        assert(chars@.subrange(0, i + 1).map_values(|c: char| sanitize_char(c))
            =~= chars@.subrange(0, i as int).map_values(|c: char| sanitize_char(c)).push(sanitize_char(c)));
        i = i + 1;
    }
    assert(chars@.subrange(0, i as int) =~= name@);
    let e = trimmed_end(&mapped);
    let b = trimmed_start(&mapped, e);
    let kept = copy_range(&mapped, b, e);
    proof {
        assert forall|k: int| 0 <= k < kept@.len() && is_ascii_char(#[trigger] kept@[k]) implies
            is_ascii_alnum(kept@[k]) || kept@[k] == ' ' || kept@[k] == '-' || kept@[k] == '_' by {
            let j = b + k;
            assert(kept@[k] == mapped@[j]);
            assert(mapped@[j] == sanitize_char(chars@[j]));
        }
    }
    string_from_chars(&kept)
}


/// `trim_end_ws(s)` is a prefix of `s` that is empty or ends in a
/// non-whitespace character.
proof fn lemma_trim_end_shape(s: Seq<char>) -> (e: int)
    ensures
        0 <= e <= s.len(),
        trim_end_ws(s) == s.subrange(0, e),
        e > 0 ==> !char_is_whitespace(s[e - 1]),
    decreases s.len(),
{
    if s.len() > 0 && char_is_whitespace(s.last()) {
        let e = lemma_trim_end_shape(s.drop_last());
        assert(s.drop_last().subrange(0, e) =~= s.subrange(0, e));
        e
    } else {
        assert(s.subrange(0, s.len() as int) =~= s);
        s.len() as int
    }
}

/// `trim_start_ws(s)` is a suffix of `s` that is empty or starts with a
/// non-whitespace character.
proof fn lemma_trim_start_shape(s: Seq<char>) -> (b: int)
    ensures
        0 <= b <= s.len(),
        trim_start_ws(s) == s.subrange(b, s.len() as int),
        b < s.len() ==> !char_is_whitespace(s[b]),
    decreases s.len(),
{
    if s.len() > 0 && char_is_whitespace(s[0]) {
        let b = lemma_trim_start_shape(s.drop_first());
        assert(s.drop_first().subrange(b, s.drop_first().len() as int) =~= s.subrange(b + 1, s.len() as int));
        b + 1
    } else {
        assert(s.subrange(0, s.len() as int) =~= s);
        0
    }
}

/// Trimming a string that neither starts nor ends in whitespace changes nothing.
proof fn lemma_trim_noop(t: Seq<char>)
    requires
        t.len() > 0 ==> !char_is_whitespace(t[0]) && !char_is_whitespace(t.last()),
    ensures
        trim_ws(t) == t,
{
}

/// A sanitized name is made of file-name characters only, and it neither
/// starts nor ends with whitespace.
pub proof fn lemma_sanitize_shape(name: Seq<char>)
    ensures
        forall|i: int| 0 <= i < sanitize_spec(name).len() ==> is_filename_char(#[trigger] sanitize_spec(name)[i]),
        sanitize_spec(name).len() > 0 ==> !char_is_whitespace(sanitize_spec(name)[0])
            && !char_is_whitespace(sanitize_spec(name).last()),
{
    let m = name.map_values(|c: char| sanitize_char(c));
    let e = lemma_trim_end_shape(m);
    let p = m.subrange(0, e);
    let b = lemma_trim_start_shape(p);
    let r = sanitize_spec(name);
    assert(r == p.subrange(b, e));
    assert forall|i: int| 0 <= i < r.len() implies is_filename_char(#[trigger] r[i]) by {
        assert(r[i] == m[b + i]);
        assert(m[b + i] == sanitize_char(name[b + i]));
    }
    if r.len() > 0 {
        assert(r[0] == p[b]);
        assert(r.last() == p[e - 1]);
    }
}

/// Sanitizing an already sanitized name leaves it unchanged.
pub proof fn lemma_sanitize_idempotent(name: Seq<char>)
    ensures
        sanitize_spec(sanitize_spec(name)) == sanitize_spec(name),
{
    let r = sanitize_spec(name);
    lemma_sanitize_shape(name);
    let m = r.map_values(|c: char| sanitize_char(c));
    assert(m =~= r);
    lemma_trim_noop(r);
}


/// File name (inside the user layouts directory) under which a layout saved
/// as `name` is stored: the sanitized name with a `.json` extension.
pub fn user_layout_file_name(name: &str) -> (r: String)
    ensures
        r@ == sanitize_spec(name@) + ".json"@,
{
    let base = sanitize(name);
    base.concat(".json")
}

/// The names of `v` are in lexicographic order.
pub open spec fn names_sorted(v: Seq<Seq<char>>) -> bool {
    forall|i: int, j: int| 0 <= i < j < v.len() ==> !lex_lt(#[trigger] v[j], #[trigger] v[i])
}

/// The user-saved layout names (the stems of the `.json` files in the user
/// layouts directory) in the order they are listed: sorted lexicographically,
/// each kept as often as it occurs.
pub fn sorted_layout_names(stems: Vec<String>) -> (r: Vec<String>)
    ensures
        names_sorted(names_of(r@)),
        names_of(r@).to_multiset() == names_of(stems@).to_multiset(),
{
    let mut sorted: Vec<String> = Vec::new();
    let mut n: usize = 0;
    while n < stems.len()
        invariant
            n <= stems.len(),
            names_sorted(names_of(sorted@)),
            names_of(sorted@).to_multiset() == names_of(stems@).subrange(0, n as int).to_multiset(),
        decreases stems.len() - n,
    {
        let x = stems[n].clone();
        let mut pos: usize = 0;
        while pos < sorted.len() && !lex_less(&x, &sorted[pos])
            invariant
                pos <= sorted.len(),
                forall|m: int| 0 <= m < pos ==> !lex_lt(x@, #[trigger] names_of(sorted@)[m]),
            decreases sorted.len() - pos,
        {
            pos = pos + 1;
        }
        let ghost before = names_of(sorted@);
        sorted.insert(pos, x.clone());
        proof {
            assert(names_of(sorted@) =~= before.insert(pos as int, x@));
            let after = names_of(sorted@);
            assert forall|a: int, b: int| 0 <= a < b < after.len() implies !lex_lt(
                #[trigger] after[b],
                #[trigger] after[a],
            ) by {
                if a < pos && b < pos {
                    assert(after[a] == before[a] && after[b] == before[b]);
                } else if a < pos && b == pos {
                    assert(after[a] == before[a] && after[b] == x@);
                } else if a < pos {
                    assert(after[a] == before[a] && after[b] == before[b - 1]);
                } else if a == pos {
                    assert(after[a] == x@ && after[b] == before[b - 1]);
                    assert(lex_lt(x@, before[pos as int]));
                    if b - 1 > pos {
                        assert(!lex_lt(before[b - 1], before[pos as int]));
                    }
                    if lex_lt(before[b - 1], x@) {
                        lemma_lex_transitive(before[b - 1], x@, before[pos as int]);
                        lemma_lex_irreflexive(before[pos as int]);
                    }
                } else {
                    assert(after[a] == before[a - 1] && after[b] == before[b - 1]);
                }
            }
            assert(names_of(stems@).subrange(0, n + 1) =~= names_of(stems@).subrange(0, n as int).push(x@));
        }
        n = n + 1;
    }
    assert(names_of(stems@).subrange(0, n as int) =~= names_of(stems@));
    sorted
}

/// The name a layout is saved under from the name field: the text without
/// surrounding whitespace, or `None` (the Save button is disabled) when
/// nothing else is left.
pub fn layout_save_name(input: &str) -> (r: Option<String>)
    ensures
        r is None <==> trim_ws(input@).len() == 0,
        r matches Some(name) ==> name@ == trim_ws(input@),
{
    let chars = chars_of(input);
    let e = trimmed_end(&chars);
    let b = trimmed_start(&chars, e);
    if b == e {
        None
    } else {
        let kept = copy_range(&chars, b, e);
        Some(string_from_chars(&kept))
    }
}

/// The layout name a file in the user layouts directory is listed under:
/// its stem when its extension is exactly `json` (a name of at least one
/// character before `.json`), none otherwise.
pub fn layout_name_of_file(file_name: &str) -> (r: Option<String>)
    ensures
        r is Some <==> file_name@.len() > 5 && file_name@.subrange(file_name@.len() - 5, file_name@.len() as int)
            == ".json"@,
        r matches Some(name) ==> name@ == file_name@.subrange(0, file_name@.len() - 5),
{
    proof {
        reveal_strlit(".json");
    }
    let chars = chars_of(file_name);
    let n = chars.len();
    if n > 5 && chars[n - 5] == '.' && chars[n - 4] == 'j' && chars[n - 3] == 's' && chars[n - 2] == 'o'
        && chars[n - 1] == 'n' {
        assert(chars@.subrange(n - 5, n as int) =~= ".json"@);
        let stem = copy_range(&chars, 0, n - 5);
        Some(string_from_chars(&stem))
    } else {
        proof {
            if n > 5 && file_name@.subrange(n - 5, n as int) == ".json"@ {
                assert(chars@.subrange(n - 5, n as int)[0] == '.');
                assert(chars@.subrange(n - 5, n as int)[1] == 'j');
                assert(chars@.subrange(n - 5, n as int)[2] == 's');
                assert(chars@.subrange(n - 5, n as int)[3] == 'o');
                assert(chars@.subrange(n - 5, n as int)[4] == 'n');
            }
        }
        None
    }
}

} // verus!
