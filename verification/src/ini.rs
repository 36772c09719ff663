//! An INI parser: sections in square brackets, `key = value` lines below
//! them. The result keeps sections and keys in first-appearance order; a
//! repeated key replaces its value, a repeated section is continued.
//!
//! Whitespace is trimmed as the Unicode white-space characters; inputs that
//! the format rejects — a value with an equals sign, a bracketed line with
//! a bad name, a key before any section — are excluded by precondition.

use vstd::prelude::*;
use vstd::seq_lib::*;
use vstd::std_specs::iter::IteratorSpec;

verus! {

broadcast use vstd::string::next_postcondition;

/// One parsed section: its name and its key-value pairs in order.
pub type SectionEntry = (Seq<char>, Seq<(Seq<char>, Seq<char>)>);

/// Whether `c` is trimmed away at the ends of a line, key or value: the
/// Unicode white-space characters.
pub open spec fn is_space(c: char) -> bool {
    ||| c == ' '
    ||| c == '\t'
    ||| c == '\n'
    ||| c == '\u{b}'
    ||| c == '\u{c}'
    ||| c == '\r'
    ||| c == '\u{85}'
    ||| c == '\u{a0}'
    ||| c == '\u{1680}'
    ||| ('\u{2000}' <= c && c <= '\u{200a}')
    ||| c == '\u{2028}'
    ||| c == '\u{2029}'
    ||| c == '\u{202f}'
    ||| c == '\u{205f}'
    ||| c == '\u{3000}'
}

/// `s` without its leading spaces.
pub open spec fn trim_front(s: Seq<char>) -> Seq<char>
    decreases s.len(),
{
    if s.len() > 0 && is_space(s[0]) {
        trim_front(s.drop_first())
    } else {
        s
    }
}

/// `s` without its trailing spaces.
pub open spec fn trim_back(s: Seq<char>) -> Seq<char>
    decreases s.len(),
{
    if s.len() > 0 && is_space(s.last()) {
        trim_back(s.drop_last())
    } else {
        s
    }
}

/// `s` without its leading and trailing spaces.
pub open spec fn trim_of(s: Seq<char>) -> Seq<char> {
    trim_back(trim_front(s))
}

/// The position of the first `sep` in `s`, or the length of `s`.
pub open spec fn first_occ(s: Seq<char>, sep: char) -> int
    decreases s.len(),
{
    if s.len() == 0 {
        0
    } else if s[0] == sep {
        0
    } else {
        1 + first_occ(s.drop_first(), sep)
    }
}

/// The first occurrence lies within the characters, or just past them.
proof fn lemma_first_occ_bounds(s: Seq<char>, sep: char)
    ensures
        0 <= first_occ(s, sep) <= s.len(),
    decreases s.len(),
{
    if s.len() > 0 && s[0] != sep {
        lemma_first_occ_bounds(s.drop_first(), sep);
    }
}

/// A separator first appears where it first appears.
proof fn lemma_first_occ_at(s: Seq<char>, sep: char, k: int)
    requires
        0 <= k < s.len(),
        s[k] == sep,
        forall|j: int| 0 <= j < k ==> s[j] != sep,
    ensures
        first_occ(s, sep) == k,
    decreases k,
{
    if k > 0 {
        lemma_first_occ_at(s.drop_first(), sep, k - 1);
    }
}

/// Without the separator its first occurrence lies just past the characters.
proof fn lemma_first_occ_none(s: Seq<char>, sep: char)
    requires
        forall|j: int| 0 <= j < s.len() ==> s[j] != sep,
    ensures
        first_occ(s, sep) == s.len(),
    decreases s.len(),
{
    if s.len() > 0 {
        lemma_first_occ_none(s.drop_first(), sep);
    }
}

/// `s` cut at every `sep`; the separators are dropped and every piece is
/// kept, so a trailing separator yields a final empty piece.
pub open spec fn split_sep(s: Seq<char>, sep: char) -> Seq<Seq<char>>
    decreases s.len(),
    via split_sep_via
{
    let i = first_occ(s, sep);
    if i >= s.len() {
        seq![s]
    } else {
        seq![s.take(i)] + split_sep(s.skip(i + 1), sep)
    }
}

#[via_fn]
proof fn split_sep_via(s: Seq<char>, sep: char) {
    lemma_first_occ_bounds(s, sep);
}

/// Whether a trimmed line has the shape of a section header.
pub open spec fn is_section_line(t: Seq<char>) -> bool {
    t.len() >= 2 && t[0] == '[' && t.last() == ']'
}

/// The name between the brackets.
pub open spec fn section_name(t: Seq<char>) -> Seq<char> {
    t.subrange(1, t.len() - 1)
}

/// A section name must be non-empty and hold no bracket.
pub open spec fn section_name_ok(n: Seq<char>) -> bool {
    n.len() > 0 && forall|j: int| 0 <= j < n.len() ==> n[j] != '[' && n[j] != ']'
}

/// The key and value of a trimmed key-value line: cut at the first equals
/// sign and trimmed; a line without one is a key with an empty value.
pub open spec fn kv_of(t: Seq<char>) -> (Seq<char>, Seq<char>) {
    let e = first_occ(t, '=');
    if e >= t.len() {
        (t, Seq::empty())
    } else {
        (trim_of(t.take(e)), trim_of(t.skip(e + 1)))
    }
}

/// A key-value line may hold at most one equals sign.
pub open spec fn kv_line_ok(t: Seq<char>) -> bool {
    let e = first_occ(t, '=');
    e >= t.len() || first_occ(t.skip(e + 1), '=') >= t.skip(e + 1).len()
}

/// Whether the lines parse: sections are well named, key-value lines carry
/// at most one equals sign, and no key-value line comes before a section.
pub open spec fn lines_valid(ls: Seq<Seq<char>>, has_section: bool) -> bool
    decreases ls.len(),
{
    if ls.len() == 0 {
        true
    } else {
        let t = trim_of(ls[0]);
        if t.len() == 0 {
            lines_valid(ls.drop_first(), has_section)
        } else if is_section_line(t) {
            section_name_ok(section_name(t)) && lines_valid(ls.drop_first(), true)
        } else {
            has_section && kv_line_ok(t) && lines_valid(ls.drop_first(), has_section)
        }
    }
}

/// The whole input parses, starting outside any section.
pub open spec fn ini_valid(s: Seq<char>) -> bool {
    lines_valid(split_sep(s, '\n'), false)
}

/// The position of `k` among the keys of an association sequence, or its
/// length if `k` is absent.
pub open spec fn key_index_of<T>(s: Seq<(Seq<char>, T)>, k: Seq<char>) -> int
    decreases s.len(),
{
    if s.len() == 0 {
        0
    } else if s[0].0 == k {
        0
    } else {
        1 + key_index_of(s.drop_first(), k)
    }
}

/// The key's position lies within the entries, or just past them.
proof fn lemma_key_index_bounds<T>(s: Seq<(Seq<char>, T)>, k: Seq<char>)
    ensures
        0 <= key_index_of(s, k) <= s.len(),
    decreases s.len(),
{
    if s.len() > 0 && s[0].0 != k {
        lemma_key_index_bounds(s.drop_first(), k);
    }
}

/// A key first appears where it first appears.
proof fn lemma_key_index_at<T>(s: Seq<(Seq<char>, T)>, k: Seq<char>, j: int)
    requires
        0 <= j < s.len(),
        s[j].0 == k,
        forall|i: int| 0 <= i < j ==> (#[trigger] s[i]).0 != k,
    ensures
        key_index_of(s, k) == j,
    decreases j,
{
    if j > 0 {
        lemma_key_index_at(s.drop_first(), k, j - 1);
    }
}

/// No entry before the key's position carries the key.
proof fn lemma_key_index_prefix<T>(s: Seq<(Seq<char>, T)>, k: Seq<char>)
    ensures
        forall|i: int| 0 <= i < key_index_of(s, k) ==> (#[trigger] s[i]).0 != k,
    decreases s.len(),
{
    if s.len() > 0 && s[0].0 != k {
        lemma_key_index_prefix(s.drop_first(), k);
        lemma_key_index_bounds(s.drop_first(), k);
        assert forall|i: int| 0 <= i < key_index_of(s, k) implies (#[trigger] s[i]).0 != k by {
            if i > 0 {
                assert(s[i] == s.drop_first()[i - 1]);
                assert(s.drop_first()[i - 1].0 != k);
            }
        }
    }
}

/// An absent key's position lies just past the entries.
proof fn lemma_key_index_none<T>(s: Seq<(Seq<char>, T)>, k: Seq<char>)
    requires
        forall|i: int| 0 <= i < s.len() ==> (#[trigger] s[i]).0 != k,
    ensures
        key_index_of(s, k) == s.len(),
    decreases s.len(),
{
    if s.len() > 0 {
        lemma_key_index_none(s.drop_first(), k);
    }
}

/// The pairs with `k` bound to `v`: in place if `k` is already a key, at
/// the end otherwise.
pub open spec fn upserted(s: Seq<(Seq<char>, Seq<char>)>, k: Seq<char>, v: Seq<char>) -> Seq<
    (Seq<char>, Seq<char>),
> {
    let i = key_index_of(s, k);
    if i < s.len() {
        s.update(i, (k, v))
    } else {
        s.push((k, v))
    }
}

/// The sections after parsing `ls` with current section `cur` over the
/// sections parsed so far. An empty trimmed line changes nothing; a section
/// header makes its section current, adding it empty if it is new; any
/// other line binds its key and value in the current section.
pub open spec fn assoc_parse(ls: Seq<Seq<char>>, cur: Seq<char>, acc: Seq<SectionEntry>) -> Seq<
    SectionEntry,
>
    decreases ls.len(),
{
    if ls.len() == 0 {
        acc
    } else {
        let t = trim_of(ls[0]);
        if t.len() == 0 {
            assoc_parse(ls.drop_first(), cur, acc)
        } else if is_section_line(t) {
            let sec = section_name(t);
            let acc1 = if key_index_of(acc, sec) < acc.len() {
                acc
            } else {
                acc.push((sec, Seq::empty()))
            };
            assoc_parse(ls.drop_first(), sec, acc1)
        } else {
            let i = key_index_of(acc, cur);
            let kv = kv_of(t);
            let acc1 = acc.update(i, (cur, upserted(acc[i].1, kv.0, kv.1)));
            assoc_parse(ls.drop_first(), cur, acc1)
        }
    }
}

/// The parsed sections of the whole input.
pub open spec fn ini_of(s: Seq<char>) -> Seq<SectionEntry> {
    assoc_parse(split_sep(s, '\n'), Seq::empty(), Seq::empty())
}


/// An association sequence with no key repeated.
pub open spec fn distinct_keys<T>(s: Seq<(Seq<char>, T)>) -> bool {
    forall|i: int, j: int|
        0 <= i < j < s.len() ==> (#[trigger] s[i]).0 != (#[trigger] s[j]).0
}

/// Every section list the parser builds: section names distinct, and the
/// keys within each section distinct.
pub open spec fn wf_sections(s: Seq<SectionEntry>) -> bool {
    &&& distinct_keys(s)
    &&& forall|i: int| 0 <= i < s.len() ==> distinct_keys((#[trigger] s[i]).1)
}

/// The section list read as a nested map: section names to their key-value
/// maps.
pub open spec fn sections_map(s: Seq<SectionEntry>) -> Map<Seq<char>, Map<Seq<char>, Seq<char>>> {
    crate::flatmap::map_of_entries(
        s.map_values(|p: SectionEntry| (p.0, crate::flatmap::map_of_entries(p.1))),
    )
}

/// The parse, carried out directly on nested maps: an empty trimmed line
/// changes nothing, a section header makes its section current and present,
/// and any other line binds its key in the current section.
pub open spec fn map_parse(
    ls: Seq<Seq<char>>,
    cur: Seq<char>,
    m: Map<Seq<char>, Map<Seq<char>, Seq<char>>>,
) -> Map<Seq<char>, Map<Seq<char>, Seq<char>>>
    decreases ls.len(),
{
    if ls.len() == 0 {
        m
    } else {
        let t = trim_of(ls[0]);
        if t.len() == 0 {
            map_parse(ls.drop_first(), cur, m)
        } else if is_section_line(t) {
            let sec = section_name(t);
            let m1 = if m.dom().contains(sec) {
                m
            } else {
                m.insert(sec, Map::empty())
            };
            map_parse(ls.drop_first(), sec, m1)
        } else {
            let kv = kv_of(t);
            map_parse(ls.drop_first(), cur, m.insert(cur, m[cur].insert(kv.0, kv.1)))
        }
    }
}

/// Reading the map of a distinct-keyed association sequence at an entry's
/// key yields that entry's value.
proof fn lemma_entry_lookup<T>(s: Seq<(Seq<char>, T)>, i: int)
    requires
        distinct_keys(s),
        0 <= i < s.len(),
    ensures
        crate::flatmap::map_of_entries(s).dom().contains(s[i].0),
        crate::flatmap::map_of_entries(s)[s[i].0] == s[i].1,
{
    assert(crate::flatmap::key_present(s, s[i].0));
    let j = choose|j: int| 0 <= j < s.len() && (#[trigger] s[j]).0 == s[i].0;
    assert(j == i);
}

/// A key is present in the map exactly when it is present in the entries.
proof fn lemma_key_membership<T>(s: Seq<(Seq<char>, T)>, k: Seq<char>)
    ensures
        crate::flatmap::map_of_entries(s).dom().contains(k) == (key_index_of(s, k) < s.len()),
{
    lemma_key_index_bounds(s, k);
    lemma_key_index_prefix(s, k);
    if crate::flatmap::key_present(s, k) {
        let j = choose|j: int| 0 <= j < s.len() && (#[trigger] s[j]).0 == k;
        assert(key_index_of(s, k) < s.len()) by {
            if key_index_of(s, k) == s.len() {
                assert(s[j].0 != k);
            }
        }
    } else {
        lemma_key_index_none(s, k);
    }
    if key_index_of(s, k) < s.len() {
        lemma_key_index_found(s, k);
        assert(crate::flatmap::key_present(s, k));
    }
}

/// An in-range key position carries the key.
proof fn lemma_key_index_found<T>(s: Seq<(Seq<char>, T)>, k: Seq<char>)
    requires
        key_index_of(s, k) < s.len(),
    ensures
        0 <= key_index_of(s, k),
        s[key_index_of(s, k)].0 == k,
    decreases s.len(),
{
    if s.len() > 0 && s[0].0 != k {
        lemma_key_index_bounds(s.drop_first(), k);
        lemma_key_index_found(s.drop_first(), k);
    }
}

/// Appending an entry with a fresh key reads as a map insertion.
proof fn lemma_push_as_insert<T>(s: Seq<(Seq<char>, T)>, k: Seq<char>, v: T)
    requires
        distinct_keys(s),
        key_index_of(s, k) == s.len(),
    ensures
        distinct_keys(s.push((k, v))),
        crate::flatmap::map_of_entries(s.push((k, v))) == crate::flatmap::map_of_entries(s).insert(
            k,
            v,
        ),
{
    let s1 = s.push((k, v));
    lemma_key_index_prefix(s, k);
    assert(distinct_keys(s1)) by {
        assert(forall|i: int| 0 <= i < s.len() ==> (#[trigger] s1[i]) == s[i]);
    }
    assert(crate::flatmap::map_of_entries(s1) =~= crate::flatmap::map_of_entries(s).insert(
        k,
        v,
    )) by {
        assert forall|k1: Seq<char>| true implies #[trigger] crate::flatmap::key_present(s1, k1)
            == (crate::flatmap::key_present(s, k1) || k1 == k) by {
            if crate::flatmap::key_present(s1, k1) {
                let j = choose|j: int| 0 <= j < s1.len() && (#[trigger] s1[j]).0 == k1;
                if j < s.len() {
                    assert(s[j].0 == k1);
                }
            }
            if crate::flatmap::key_present(s, k1) {
                let j = choose|j: int| 0 <= j < s.len() && (#[trigger] s[j]).0 == k1;
                assert(s1[j].0 == k1);
            }
            assert(s1[s.len() as int].0 == k);
        }
        assert forall|k1: Seq<char>| #[trigger]
            crate::flatmap::map_of_entries(s1).dom().contains(
                k1,
            ) implies crate::flatmap::map_of_entries(s1)[k1] == crate::flatmap::map_of_entries(
            s,
        ).insert(k, v)[k1] by {
            let j = choose|j: int| 0 <= j < s1.len() && (#[trigger] s1[j]).0 == k1;
            lemma_entry_lookup(s1, j);
            if k1 == k {
                assert(j == s.len());
            } else {
                assert(j < s.len());
                lemma_entry_lookup(s, j);
            }
        }
    }
}

/// Replacing the entry at a key's position reads as a map insertion.
proof fn lemma_update_as_insert<T>(s: Seq<(Seq<char>, T)>, k: Seq<char>, v: T)
    requires
        distinct_keys(s),
        key_index_of(s, k) < s.len(),
    ensures
        distinct_keys(s.update(key_index_of(s, k), (k, v))),
        crate::flatmap::map_of_entries(s.update(key_index_of(s, k), (k, v)))
            == crate::flatmap::map_of_entries(s).insert(k, v),
{
    let i = key_index_of(s, k);
    lemma_key_index_bounds(s, k);
    lemma_key_index_found(s, k);
    let s1 = s.update(i, (k, v));
    assert(distinct_keys(s1)) by {
        assert(forall|j: int| 0 <= j < s.len() ==> (#[trigger] s1[j]).0 == s[j].0);
    }
    assert(crate::flatmap::map_of_entries(s1) =~= crate::flatmap::map_of_entries(s).insert(
        k,
        v,
    )) by {
        assert forall|k1: Seq<char>| true implies #[trigger] crate::flatmap::key_present(s1, k1)
            == crate::flatmap::key_present(s, k1) by {
            if crate::flatmap::key_present(s1, k1) {
                let j = choose|j: int| 0 <= j < s1.len() && (#[trigger] s1[j]).0 == k1;
                assert(s[j].0 == k1);
            }
            if crate::flatmap::key_present(s, k1) {
                let j = choose|j: int| 0 <= j < s.len() && (#[trigger] s[j]).0 == k1;
                assert(s1[j].0 == k1);
            }
        }
        assert forall|k1: Seq<char>| #[trigger]
            crate::flatmap::map_of_entries(s1).dom().contains(
                k1,
            ) implies crate::flatmap::map_of_entries(s1)[k1] == crate::flatmap::map_of_entries(
            s,
        ).insert(k, v)[k1] by {
            let j = choose|j: int| 0 <= j < s1.len() && (#[trigger] s1[j]).0 == k1;
            lemma_entry_lookup(s1, j);
            if k1 == k {
                assert(distinct_keys(s1));
                assert(s1[i].0 == k);
                assert(j == i);
            } else {
                assert(j != i);
                lemma_entry_lookup(s, j);
                assert(s1[j] == s[j]);
            }
        }
    }
}

/// Binding a key among distinct-keyed pairs reads as a map insertion.
proof fn lemma_upserted_as_insert(s: Seq<(Seq<char>, Seq<char>)>, k: Seq<char>, v: Seq<char>)
    requires
        distinct_keys(s),
    ensures
        distinct_keys(upserted(s, k, v)),
        crate::flatmap::map_of_entries(upserted(s, k, v)) == crate::flatmap::map_of_entries(
            s,
        ).insert(k, v),
{
    lemma_key_index_bounds(s, k);
    if key_index_of(s, k) < s.len() {
        lemma_update_as_insert(s, k, v);
    } else {
        lemma_push_as_insert(s, k, v);
    }
}

/// The positions of keys are blind to the values beside them.
proof fn lemma_key_index_mapped(s: Seq<SectionEntry>, k: Seq<char>)
    ensures
        key_index_of(
            s.map_values(|p: SectionEntry| (p.0, crate::flatmap::map_of_entries(p.1))),
            k,
        ) == key_index_of(s, k),
    decreases s.len(),
{
    let f = |p: SectionEntry| (p.0, crate::flatmap::map_of_entries(p.1));
    if s.len() > 0 {
        lemma_key_index_mapped(s.drop_first(), k);
        assert(s.drop_first().map_values(f) =~= s.map_values(f).drop_first());
    }
}

/// Parsing over the ordered section list and parsing over nested maps
/// agree: the section list the parser builds, read as a map, is the
/// map-level parse of the same lines.
pub proof fn lemma_assoc_parse_as_maps(ls: Seq<Seq<char>>, cur: Seq<char>, acc: Seq<SectionEntry>)
    requires
        wf_sections(acc),
        lines_valid(ls, cur.len() > 0),
        cur.len() > 0 ==> key_index_of(acc, cur) < acc.len(),
    ensures
        wf_sections(assoc_parse(ls, cur, acc)),
        sections_map(assoc_parse(ls, cur, acc)) == map_parse(ls, cur, sections_map(acc)),
    decreases ls.len(),
{
    let f = |p: SectionEntry| (p.0, crate::flatmap::map_of_entries(p.1));
    if ls.len() > 0 {
        let t = trim_of(ls[0]);
        if t.len() == 0 {
            lemma_assoc_parse_as_maps(ls.drop_first(), cur, acc);
        } else if is_section_line(t) {
            let sec = section_name(t);
            lemma_key_index_bounds(acc, sec);
            lemma_key_index_mapped(acc, sec);
            lemma_key_membership(acc.map_values(f), sec);
            if key_index_of(acc, sec) < acc.len() {
                lemma_assoc_parse_as_maps(ls.drop_first(), sec, acc);
            } else {
                let acc1 = acc.push((sec, Seq::empty()));
                lemma_push_as_insert(acc, sec, Seq::<(Seq<char>, Seq<char>)>::empty());
                assert(wf_sections(acc1)) by {
                    assert(forall|i: int| 0 <= i < acc.len() ==> (#[trigger] acc1[i]) == acc[i]);
                }
                assert(acc1.map_values(f) =~= acc.map_values(f).push(
                    (sec, crate::flatmap::map_of_entries(Seq::<(Seq<char>, Seq<char>)>::empty())),
                ));
                lemma_key_index_mapped(acc1, sec);
                lemma_push_as_insert(
                    acc.map_values(f),
                    sec,
                    crate::flatmap::map_of_entries(Seq::<(Seq<char>, Seq<char>)>::empty()),
                );
                assert(crate::flatmap::map_of_entries(Seq::<(Seq<char>, Seq<char>)>::empty())
                    =~= Map::<Seq<char>, Seq<char>>::empty());
                lemma_key_index_prefix(acc1, sec);
                assert(acc1[acc.len() as int].0 == sec);
                lemma_key_index_at(acc1, sec, acc.len() as int);
                lemma_assoc_parse_as_maps(ls.drop_first(), sec, acc1);
            }
        } else {
            let i = key_index_of(acc, cur);
            lemma_key_index_found(acc, cur);
            let kv = kv_of(t);
            let inner1 = upserted(acc[i].1, kv.0, kv.1);
            let acc1 = acc.update(i, (cur, inner1));
            lemma_upserted_as_insert(acc[i].1, kv.0, kv.1);
            assert(wf_sections(acc1)) by {
                assert(forall|j: int| 0 <= j < acc.len() && j != i ==> (#[trigger] acc1[j])
                    == acc[j]);
                assert(forall|j: int| 0 <= j < acc.len() ==> (#[trigger] acc1[j]).0 == acc[j].0);
            }
            assert(acc1.map_values(f) =~= acc.map_values(f).update(
                i,
                (cur, crate::flatmap::map_of_entries(inner1)),
            ));
            lemma_key_index_mapped(acc, cur);
            lemma_update_as_insert(
                acc.map_values(f),
                cur,
                crate::flatmap::map_of_entries(inner1),
            );
            lemma_entry_lookup(acc.map_values(f), i);
            lemma_key_index_prefix(acc1, cur);
            assert(forall|j: int| 0 <= j < i ==> (#[trigger] acc1[j]).0 == acc[j].0);
            lemma_key_index_prefix(acc, cur);
            lemma_key_index_at(acc1, cur, i);
            lemma_assoc_parse_as_maps(ls.drop_first(), cur, acc1);
        }
    }
}

/// An INI text denotes a nested map, section names to key-value maps; the
/// parsed section list, read as such a map, is exactly that denotation.
pub proof fn lemma_ini_denotes_maps(s: Seq<char>)
    requires
        ini_valid(s),
    ensures
        sections_map(ini_of(s)) == map_parse(
            split_sep(s, '\n'),
            Seq::empty(),
            Map::empty(),
        ),
{
    assert(Seq::<SectionEntry>::empty().map_values(
        |p: SectionEntry| (p.0, crate::flatmap::map_of_entries(p.1)),
    ) =~= Seq::<(Seq<char>, Map<Seq<char>, Seq<char>>)>::empty());
    assert(sections_map(Seq::<SectionEntry>::empty()) =~= Map::<
        Seq<char>,
        Map<Seq<char>, Seq<char>>,
    >::empty());
    lemma_assoc_parse_as_maps(split_sep(s, '\n'), Seq::empty(), Seq::empty());
}

/// The mathematical value of one section's key-value pairs.
pub open spec fn kv_view(s: Seq<(String, String)>) -> Seq<(Seq<char>, Seq<char>)> {
    s.map_values(|q: (String, String)| (q.0@, q.1@))
}

/// The mathematical value of one parsed section list.
pub open spec fn sections_view(r: Seq<(String, Vec<(String, String)>)>) -> Seq<SectionEntry> {
    r.map_values(|p: (String, Vec<(String, String)>)| (p.0@, kv_view(p.1@)))
}

/// Relies on String::push: appends one character to the string.
#[verifier::external_body]
fn string_push(s: &mut String, c: char)
    ensures
        final (s)@ == old(s)@.push(c),
{
    s.push(c);
}

/// The string holding exactly these characters.
fn chars_to_string(chars: &[char]) -> (r: String)
    ensures
        r@ == chars@,
{
    let mut s = String::new();
    let mut i: usize = 0;
    while i < chars.len()
        invariant
            i <= chars@.len(),
            s@ == chars@.take(i as int),
        decreases chars@.len() - i,
    {
        string_push(&mut s, chars[i]);
        i += 1;
        proof {
            assert(chars@.take(i as int) =~= chars@.take(i - 1).push(chars@[i - 1]));
        }
    }
    proof {
        assert(chars@.take(chars@.len() as int) =~= chars@);
    }
    s
}

/// The characters of the string, in order.
fn str_to_chars(s: &str) -> (r: Vec<char>)
    ensures
        r@ == s@,
{
    proof {
        vstd::string::axiom_spec_iter(s);
    }
    let mut it = s.chars();
    let mut out: Vec<char> = Vec::new();
    loop
        invariant
            it.obeys_prophetic_iter_laws(),
            out@ + it.remaining() == s@,
        ensures
            out@ == s@,
        decreases s@.len() - out@.len(),
    {
        match it.next() {
            Some(c) => {
                out.push(c);
                proof {
                    assert(out@ + it.remaining() =~= s@);
                }
            },
            None => {
                proof {
                    assert(out@ =~= s@);
                }
                break ;
            },
        }
    }
    out
}

/// Whether the character is trimmed away.
fn is_space_char(c: char) -> (r: bool)
    ensures
        r == is_space(c),
{
    c == ' ' || c == '\t' || c == '\n' || c == '\u{b}' || c == '\u{c}' || c == '\r' || c
        == '\u{85}' || c == '\u{a0}' || c == '\u{1680}' || ('\u{2000}' <= c && c <= '\u{200a}')
        || c == '\u{2028}' || c == '\u{2029}' || c == '\u{202f}' || c == '\u{205f}' || c
        == '\u{3000}'
}

/// A space prefix trims to the suffix after it.
proof fn lemma_trim_front_skip(s: Seq<char>, a: int)
    requires
        0 <= a <= s.len(),
        forall|j: int| 0 <= j < a ==> is_space(s[j]),
        a < s.len() ==> !is_space(s[a]),
    ensures
        trim_front(s) == s.skip(a),
    decreases a,
{
    if a == 0 {
        assert(s.skip(0) =~= s);
    } else {
        lemma_trim_front_skip(s.drop_first(), a - 1);
        assert(s.drop_first().skip(a - 1) =~= s.skip(a));
    }
}

/// A space suffix trims to the prefix before it.
proof fn lemma_trim_back_take(s: Seq<char>, b: int)
    requires
        0 <= b <= s.len(),
        forall|j: int| b <= j < s.len() ==> is_space(s[j]),
        b > 0 ==> !is_space(s[b - 1]),
    ensures
        trim_back(s) == s.take(b),
    decreases s.len() - b,
{
    if b == s.len() {
        assert(s.take(b) =~= s);
    } else {
        lemma_trim_back_take(s.drop_last(), b);
        assert(s.drop_last().take(b) =~= s.take(b));
    }
}

/// The characters of `s` from `a` to `b`.
fn copy_range(s: &[char], a: usize, b: usize) -> (r: Vec<char>)
    requires
        a <= b <= s@.len(),
    ensures
        r@ == s@.subrange(a as int, b as int),
{
    let mut out: Vec<char> = Vec::new();
    let mut i: usize = a;
    while i < b
        invariant
            a <= i <= b <= s@.len(),
            out@ == s@.subrange(a as int, i as int),
        decreases b - i,
    {
        out.push(s[i]);
        i += 1;
        proof {
            assert(s@.subrange(a as int, i as int) =~= s@.subrange(a as int, i - 1).push(
                s@[i - 1],
            ));
        }
    }
    out
}

/// `s` with leading and trailing spaces removed.
fn trim_slice(s: &[char]) -> (r: Vec<char>)
    ensures
        r@ == trim_of(s@),
{
    let len = s.len();
    let mut a: usize = 0;
    while a < len && is_space_char(s[a])
        invariant
            a <= len == s@.len(),
            forall|j: int| 0 <= j < a ==> is_space(s@[j]),
        decreases len - a,
    {
        a += 1;
    }
    let mut b: usize = len;
    while b > a && is_space_char(s[b - 1])
        invariant
            a <= b <= len == s@.len(),
            forall|j: int| 0 <= j < a ==> is_space(s@[j]),
            forall|j: int| b <= j < s@.len() ==> is_space(s@[j]),
        decreases b,
    {
        b -= 1;
    }
    proof {
        lemma_trim_front_skip(s@, a as int);
        let t = s@.skip(a as int);
        lemma_trim_back_take(t, b - a);
        assert(t.take(b - a) =~= s@.subrange(a as int, b as int));
    }
    copy_range(s, a, b)
}

/// The position of the first `sep` in `s`, or its length.
fn find_first(s: &[char], sep: char) -> (r: usize)
    ensures
        r as int == first_occ(s@, sep),
{
    let len = s.len();
    let mut i: usize = 0;
    while i < len
        invariant
            i <= len == s@.len(),
            forall|j: int| 0 <= j < i ==> s@[j] != sep,
        decreases len - i,
    {
        if s[i] == sep {
            proof {
                lemma_first_occ_at(s@, sep, i as int);
            }
            return i;
        }
        i += 1;
    }
    proof {
        lemma_first_occ_none(s@, sep);
    }
    len
}

/// The input cut into lines at every line feed.
fn split_newline_chars(content: &[char]) -> (r: Vec<Vec<char>>)
    ensures
        r@.len() == split_sep(content@, '\n').len(),
        forall|i: int| 0 <= i < r@.len() ==> #[trigger] r@[i]@ == split_sep(content@, '\n')[i],
{
    let s = content.len();
    let ghost whole = content@;
    let mut lines: Vec<Vec<char>> = Vec::new();
    let ghost mut done: Seq<Seq<char>> = Seq::empty();
    let mut cur: Vec<char> = Vec::new();
    let mut start: usize = 0;
    let mut i: usize = 0;
    proof {
        assert(whole.skip(0) =~= whole);
        assert(done + split_sep(whole, '\n') =~= split_sep(whole, '\n'));
        assert(cur@ =~= whole.subrange(0, 0));
    }
    while i < s
        invariant
            s == whole.len(),
            whole == content@,
            start <= i <= s,
            forall|j: int| start <= j < i ==> whole[j] != '\n',
            cur@ == whole.subrange(start as int, i as int),
            split_sep(whole, '\n') == done + split_sep(whole.skip(start as int), '\n'),
            lines@.len() == done.len(),
            forall|k: int| 0 <= k < done.len() ==> #[trigger] lines@[k]@ == done[k],
        decreases s - i,
    {
        let c = content[i];
        if c == '\n' {
            proof {
                let rest = whole.skip(start as int);
                assert(rest[i - start] == '\n');
                assert(forall|j: int| 0 <= j < i - start ==> rest[j] != '\n');
                lemma_first_occ_at(rest, '\n', i - start);
                assert(rest.take(i - start) =~= whole.subrange(start as int, i as int));
                assert(rest.skip(i - start + 1) =~= whole.skip(i + 1));
                assert(split_sep(rest, '\n') == seq![cur@] + split_sep(whole.skip(i + 1), '\n'));
                assert(done + split_sep(rest, '\n') =~= (done + seq![cur@]) + split_sep(
                    whole.skip(i + 1),
                    '\n',
                ));
                done = done + seq![cur@];
            }
            lines.push(cur);
            cur = Vec::new();
            start = i + 1;
            proof {
                assert(cur@ =~= whole.subrange(start as int, start as int));
                assert(forall|k: int|
                    0 <= k < done.len() - 1 ==> #[trigger] done[k] == done.drop_last()[k]);
            }
        } else {
            cur.push(c);
            proof {
                assert(cur@ =~= whole.subrange(start as int, i + 1));
            }
        }
        i += 1;
    }
    proof {
        let rest = whole.skip(start as int);
        lemma_first_occ_none(rest, '\n');
        assert(split_sep(rest, '\n') == seq![rest]);
        assert(split_sep(whole, '\n') == done.push(rest)) by {
            assert(done + seq![rest] =~= done.push(rest));
        }
        assert(cur@ == rest) by {
            assert(whole.subrange(start as int, s as int) =~= rest);
        }
    }
    lines.push(cur);
    lines
}

/// Binds `key` to `value` among the pairs: in place if the key is present,
/// at the end otherwise.
fn upsert_kv(pairs: &mut Vec<(String, String)>, key: String, value: String)
    ensures
        kv_view(final (pairs)@) == upserted(kv_view(old(pairs)@), key@, value@),
{
    let ghost s = kv_view(pairs@);
    let n = pairs.len();
    let mut j: usize = 0;
    while j < n
        invariant
            n == pairs@.len(),
            j <= n,
            s == kv_view(pairs@),
            s == kv_view(old(pairs)@),
            forall|i: int| 0 <= i < j ==> (#[trigger] s[i]).0 != key@,
        decreases n - j,
    {
        if pairs[j].0 == key {
            proof {
                lemma_key_index_at(s, key@, j as int);
            }
            let ghost p0 = pairs@;
            let _ = pairs.remove(j);
            pairs.insert(j, (key, value));
            proof {
                assert(pairs@ =~= p0.update(j as int, (key, value)));
                assert(kv_view(pairs@) =~~= s.update(j as int, (key@, value@)));
            }
            return ;
        }
        j += 1;
    }
    proof {
        lemma_key_index_none(s, key@);
    }
    pairs.push((key, value));
    proof {
        assert(kv_view(pairs@) =~~= s.push((key@, value@)));
    }
}

/// Parses INI text: the sections in first-appearance order, each with its
/// key-value pairs in first-appearance order, later values replacing
/// earlier ones. Only inputs that the format accepts are allowed in.
pub fn parse(content: &str) -> (r: Vec<(String, Vec<(String, String)>)>)
    requires
        ini_valid(content@),
    ensures
        sections_view(r@) == ini_of(content@),
{
    let chars = str_to_chars(content);
    let mut lines = split_newline_chars(chars.as_slice());
    let ghost all = split_sep(content@, '\n');
    let total = lines.len();
    let mut result: Vec<(String, Vec<(String, String)>)> = Vec::new();
    let mut cur_idx: usize = 0;
    let ghost mut cur: Seq<char> = Seq::empty();
    let mut k: usize = 0;
    proof {
        assert(sections_view(result@) =~= Seq::<SectionEntry>::empty());
        assert(all.skip(0) =~= all);
    }
    while k < total
        invariant
            total == all.len(),
            k <= total,
            lines@.len() == total - k,
            forall|i: int| 0 <= i < lines@.len() ==> #[trigger] lines@[i]@ == all[k + i],
            lines_valid(all.skip(k as int), cur.len() > 0),
            assoc_parse(all, Seq::empty(), Seq::empty()) == assoc_parse(
                all.skip(k as int),
                cur,
                sections_view(result@),
            ),
            cur.len() > 0 ==> cur_idx < result@.len() && sections_view(result@)[cur_idx as int].0
                == cur && key_index_of(sections_view(result@), cur) == cur_idx,
        decreases total - k,
    {
        let ghost rest = all.skip(k as int);
        let ghost acc = sections_view(result@);
        let ghost cur0 = cur;
        let line = lines.remove(0);
        let t = trim_slice(line.as_slice());
        proof {
            assert(rest[0] == line@);
            assert(rest.drop_first() =~= all.skip(k + 1));
        }
        if t.len() == 0 {
            // an empty line changes nothing
        } else if t.len() >= 2 && t[0] == '[' && t[t.len() - 1] == ']' {
            let name_chars = copy_range(t.as_slice(), 1, t.len() - 1);
            proof {
                assert(name_chars@ == section_name(t@));
            }
            let name = chars_to_string(name_chars.as_slice());
            let n = result.len();
            let mut j: usize = 0;
            let mut found = false;
            while j < n && !found
                invariant
                    n == result@.len(),
                    j <= n,
                    acc == sections_view(result@),
                    name@ == section_name(t@),
                    forall|i: int| 0 <= i < j ==> (#[trigger] acc[i]).0 != name@,
                    found ==> j < n && acc[j as int].0 == name@,
                decreases n - j, if found {
                    0int
                } else {
                    1int
                },
            {
                if result[j].0 == name {
                    found = true;
                } else {
                    j += 1;
                }
            }
            if found {
                cur_idx = j;
                proof {
                    lemma_key_index_at(acc, name@, j as int);
                    cur = name@;
                    assert(assoc_parse(rest, cur0, acc) == assoc_parse(
                        rest.drop_first(),
                        cur,
                        sections_view(result@),
                    ));
                }
            } else {
                cur_idx = result.len();
                result.push((name, Vec::new()));
                proof {
                    lemma_key_index_none(acc, name@);
                    cur = name@;
                    assert(sections_view(result@) =~~= acc.push((name@, Seq::empty())));
                    assert(sections_view(result@)[cur_idx as int].0 == name@);
                    assert(forall|i: int|
                        0 <= i < cur_idx ==> (#[trigger] sections_view(result@)[i]).0 == acc[i].0);
                    lemma_key_index_at(sections_view(result@), name@, cur_idx as int);
                    assert(assoc_parse(rest, cur0, acc) == assoc_parse(
                        rest.drop_first(),
                        cur,
                        sections_view(result@),
                    ));
                }
            }
        } else {
            proof {
                assert(cur.len() > 0);
                lemma_key_index_bounds(acc, cur);
            }
            let e = find_first(t.as_slice(), '=');
            proof {
                lemma_first_occ_bounds(t@, '=');
            }
            let (key_s, value_s) = if e == t.len() {
                (chars_to_string(t.as_slice()), String::new())
            } else {
                let key_part = trim_slice(copy_range(t.as_slice(), 0, e).as_slice());
                let value_part = trim_slice(copy_range(t.as_slice(), e + 1, t.len()).as_slice());
                proof {
                    assert(t@.subrange(0, e as int) =~= t@.take(e as int));
                    assert(t@.subrange(e + 1, t@.len() as int) =~= t@.skip(e + 1));
                }
                (chars_to_string(key_part.as_slice()), chars_to_string(value_part.as_slice()))
            };
            proof {
                assert((key_s@, value_s@) == kv_of(t@));
            }
            let ghost r0 = result@;
            let mut pair = result.remove(cur_idx);
            let ghost pair0 = pair;
            upsert_kv(&mut pair.1, key_s, value_s);
            result.insert(cur_idx, pair);
            proof {
                assert(result@ =~= r0.update(cur_idx as int, pair));
                assert(pair.0 == pair0.0);
                assert(pair0.0@ == acc[cur_idx as int].0);
                assert(kv_view(pair0.1@) == acc[cur_idx as int].1);
                assert(sections_view(result@) =~~= acc.update(
                    cur_idx as int,
                    (cur, upserted(acc[cur_idx as int].1, kv_of(t@).0, kv_of(t@).1)),
                ));
                lemma_key_index_prefix(acc, cur);
                assert(forall|i: int|
                    0 <= i < cur_idx ==> (#[trigger] sections_view(result@)[i]).0 == acc[i].0);
                lemma_key_index_at(sections_view(result@), cur, cur_idx as int);
                assert(assoc_parse(rest, cur0, acc) == assoc_parse(
                    rest.drop_first(),
                    cur,
                    sections_view(result@),
                ));
            }
        }
        k += 1;
        proof {
            assert(forall|i: int|
                0 <= i < lines@.len() ==> #[trigger] lines@[i]@ == all[k + i]);
        }
    }
    proof {
        assert(all.skip(total as int) =~= Seq::<Seq<char>>::empty());
    }
    result
}

} // verus!
