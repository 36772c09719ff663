//! Line matching: splitting a file's bytes into lines the way a buffered
//! reader does, and finding the lines that contain a pattern. Walking the
//! directory tree and opening files is I/O and lives outside the library.

use vstd::prelude::*;
use vstd::seq_lib::*;

verus! {

/// The line-feed byte.
pub const NEWLINE: u8 = 10;

/// The carriage-return byte.
pub const CARRIAGE_RETURN: u8 = 13;

/// The position of the first line feed in `s`, or the length of `s` if
/// there is none.
pub open spec fn first_nl(s: Seq<u8>) -> int
    decreases s.len(),
{
    if s.len() == 0 {
        0
    } else if s[0] == NEWLINE {
        0
    } else {
        1 + first_nl(s.drop_first())
    }
}

/// The first line feed lies within the bytes, or just past them.
proof fn lemma_first_nl_bounds(s: Seq<u8>)
    ensures
        0 <= first_nl(s) <= s.len(),
    decreases s.len(),
{
    if s.len() > 0 && s[0] != NEWLINE {
        lemma_first_nl_bounds(s.drop_first());
    }
}

/// `s` cut at every line feed; the separators are dropped.
pub open spec fn split_newlines(s: Seq<u8>) -> Seq<Seq<u8>>
    decreases s.len(),
    via split_newlines_via
{
    let i = first_nl(s);
    if i >= s.len() {
        seq![s]
    } else {
        seq![s.take(i)] + split_newlines(s.skip(i + 1))
    }
}

#[via_fn]
proof fn split_newlines_via(s: Seq<u8>) {
    lemma_first_nl_bounds(s);
}

/// A line with its terminating carriage return removed, if it had one.
pub open spec fn strip_cr(l: Seq<u8>) -> Seq<u8> {
    if l.len() > 0 && l.last() == CARRIAGE_RETURN {
        l.drop_last()
    } else {
        l
    }
}

/// The lines of `s`, the way a buffered reader yields them: split at line
/// feeds, a carriage return before each line feed dropped, and no final
/// empty line for input ending in a line feed.
pub open spec fn lines_of(s: Seq<u8>) -> Seq<Seq<u8>> {
    if s.len() == 0 {
        Seq::empty()
    } else {
        let parts = split_newlines(s);
        if s.last() == NEWLINE {
            parts.drop_last().map_values(|l: Seq<u8>| strip_cr(l))
        } else {
            parts.drop_last().map_values(|l: Seq<u8>| strip_cr(l)).push(parts.last())
        }
    }
}

/// Whether `needle` occurs in `hay` starting at `at`.
pub open spec fn matches_at(hay: Seq<u8>, needle: Seq<u8>, at: int) -> bool {
    0 <= at && at + needle.len() <= hay.len() && hay.subrange(at, at + needle.len()) == needle
}

/// Whether `needle` occurs anywhere in `hay`.
pub open spec fn contains_needle(hay: Seq<u8>, needle: Seq<u8>) -> bool {
    exists|at: int| matches_at(hay, needle, at)
}

/// The matching lines of `ls`, each with its 1-based line number.
pub open spec fn matching_lines(ls: Seq<Seq<u8>>, pattern: Seq<u8>) -> Seq<(int, Seq<u8>)>
    decreases ls.len(),
{
    if ls.len() == 0 {
        Seq::empty()
    } else if contains_needle(ls.last(), pattern) {
        matching_lines(ls.drop_last(), pattern).push((ls.len() as int, ls.last()))
    } else {
        matching_lines(ls.drop_last(), pattern)
    }
}

/// A line feed first appears where it first appears.
proof fn lemma_first_nl_at(s: Seq<u8>, k: int)
    requires
        0 <= k < s.len(),
        s[k] == NEWLINE,
        forall|j: int| 0 <= j < k ==> s[j] != NEWLINE,
    ensures
        first_nl(s) == k,
    decreases k,
{
    if k > 0 {
        lemma_first_nl_at(s.drop_first(), k - 1);
    }
}

/// Without a line feed the first line feed lies just past the bytes.
proof fn lemma_first_nl_none(s: Seq<u8>)
    requires
        forall|j: int| 0 <= j < s.len() ==> s[j] != NEWLINE,
    ensures
        first_nl(s) == s.len(),
    decreases s.len(),
{
    if s.len() > 0 {
        lemma_first_nl_none(s.drop_first());
    }
}

/// Whether `needle` occurs as a contiguous run of bytes anywhere in `hay`.
pub fn contains_subslice(hay: &[u8], needle: &[u8]) -> (r: bool)
    ensures
        r == contains_needle(hay@, needle@),
{
    let n = needle.len();
    let h = hay.len();
    if n > h {
        proof {
            assert(forall|at: int| !matches_at(hay@, needle@, at));
        }
        return false;
    }
    if n == 0 {
        proof {
            assert(hay@.subrange(0, 0) =~= needle@);
            assert(matches_at(hay@, needle@, 0));
        }
        return true;
    }
    let mut at: usize = 0;
    while at <= h - n
        invariant
            1 <= n <= h == hay@.len(),
            n == needle@.len(),
            at <= h - n + 1,
            forall|a: int| 0 <= a < at ==> !matches_at(hay@, needle@, a),
        decreases h + 1 - n - at,
    {
        let mut j: usize = 0;
        let mut mismatch = false;
        while j < n && !mismatch
            invariant
                n <= h == hay@.len(),
                n == needle@.len(),
                at <= h - n,
                j <= n,
                !mismatch ==> forall|i: int| 0 <= i < j ==> hay@[at + i] == needle@[i],
                mismatch ==> !matches_at(hay@, needle@, at as int),
            decreases n - j, if mismatch { 0int } else { 1int },
        {
            if hay[at + j] != needle[j] {
                proof {
                    if matches_at(hay@, needle@, at as int) {
                        assert(hay@.subrange(at as int, at + n)[j as int] == needle@[j as int]);
                    }
                }
                mismatch = true;
            } else {
                j += 1;
            }
        }
        if !mismatch {
            proof {
                assert(hay@.subrange(at as int, at + n) =~= needle@);
                assert(matches_at(hay@, needle@, at as int));
            }
            return true;
        }
        at += 1;
    }
    proof {
        assert forall|a: int| !matches_at(hay@, needle@, a) by {
            if a > h - n {
                assert(!matches_at(hay@, needle@, a));
            }
        }
    }
    false
}

/// The lines of `content`, the way a buffered reader yields them.
pub fn split_lines(content: &[u8]) -> (r: Vec<Vec<u8>>)
    ensures
        r@.len() == lines_of(content@).len(),
        forall|i: int| 0 <= i < r@.len() ==> #[trigger] r@[i]@ == lines_of(content@)[i],
{
    let s = content.len();
    let ghost whole = content@;
    let mut lines: Vec<Vec<u8>> = Vec::new();
    let ghost mut done: Seq<Seq<u8>> = Seq::empty();
    let mut cur: Vec<u8> = Vec::new();
    let mut start: usize = 0;
    let mut i: usize = 0;
    proof {
        assert(whole.skip(0) =~= whole);
        assert(done + split_newlines(whole) =~= split_newlines(whole));
        assert(cur@ =~= whole.subrange(0, 0));
    }
    while i < s
        invariant
            s == whole.len(),
            whole == content@,
            start <= i <= s,
            start == 0 || whole[start - 1] == NEWLINE,
            forall|j: int| start <= j < i ==> whole[j] != NEWLINE,
            cur@ == whole.subrange(start as int, i as int),
            split_newlines(whole) == done + split_newlines(whole.skip(start as int)),
            lines@.len() == done.len(),
            forall|k: int| 0 <= k < done.len() ==> #[trigger] lines@[k]@ == strip_cr(done[k]),
        decreases s - i,
    {
        let byte = content[i];
        if byte == NEWLINE {
            proof {
                let rest = whole.skip(start as int);
                assert(rest[i - start] == NEWLINE);
                assert(forall|j: int| 0 <= j < i - start ==> rest[j] != NEWLINE);
                lemma_first_nl_at(rest, i - start);
                assert(rest.take(i - start) =~= whole.subrange(start as int, i as int));
                assert(rest.skip(i - start + 1) =~= whole.skip(i + 1));
                assert(split_newlines(rest) == seq![cur@] + split_newlines(whole.skip(i + 1)));
                assert(done + split_newlines(rest) =~= (done + seq![cur@]) + split_newlines(
                    whole.skip(i + 1),
                ));
            }
            let mut line = cur;
            cur = Vec::new();
            if line.len() > 0 && line[line.len() - 1] == CARRIAGE_RETURN {
                let _ = line.pop();
            }
            proof {
                let prev = whole.subrange(start as int, i as int);
                assert(line@ == strip_cr(prev));
                done = done + seq![prev];
                assert(forall|k: int|
                    0 <= k < done.len() - 1 ==> #[trigger] done[k] == done.drop_last()[k]);
            }
            lines.push(line);
            start = i + 1;
            proof {
                assert(cur@ =~= whole.subrange(start as int, i + 1 as int).take(0));
                assert(cur@ =~= whole.subrange(start as int, start as int));
            }
        } else {
            cur.push(byte);
            proof {
                assert(cur@ =~= whole.subrange(start as int, i + 1));
            }
        }
        i += 1;
    }
    proof {
        let rest = whole.skip(start as int);
        lemma_first_nl_none(rest);
        assert(split_newlines(rest) == seq![rest]);
        assert(split_newlines(whole) == done.push(rest)) by {
            assert(done + seq![rest] =~= done.push(rest));
        }
        assert(rest =~= whole.subrange(start as int, s as int));
    }
    if s == 0 {
        proof {
            assert(lines@.len() == 0 && lines_of(whole).len() == 0);
        }
        return lines;
    }
    let last_byte = content[s - 1];
    if last_byte == NEWLINE {
        proof {
            assert(start == s);
            let parts = split_newlines(whole);
            assert(parts.drop_last() =~= done);
            let stripped = parts.drop_last().map_values(|l: Seq<u8>| strip_cr(l));
            assert(lines_of(whole) == stripped);
            assert(stripped.len() == done.len());
            assert(forall|k: int|
                0 <= k < done.len() ==> #[trigger] stripped[k] == strip_cr(done[k]));
        }
        lines
    } else {
        proof {
            assert(start < s);
            let rest = whole.skip(start as int);
            let parts = split_newlines(whole);
            assert(parts.drop_last() =~= done);
            assert(parts.last() == rest);
            let stripped = parts.drop_last().map_values(|l: Seq<u8>| strip_cr(l));
            assert(lines_of(whole) == stripped.push(rest));
            assert(stripped.len() == done.len());
            assert(forall|k: int|
                0 <= k < done.len() ==> #[trigger] stripped[k] == strip_cr(done[k]));
            assert(cur@ == rest);
        }
        lines.push(cur);
        lines
    }
}

/// The 1-based numbers and contents of the lines of `content` that contain
/// `pattern`.
pub fn match_lines(content: &[u8], pattern: &[u8]) -> (r: Vec<(usize, Vec<u8>)>)
    ensures
        ({
            let found = matching_lines(lines_of(content@), pattern@);
            &&& r@.len() == found.len()
            &&& forall|m: int|
                0 <= m < r@.len() ==> (#[trigger] r@[m]).0 as int == found[m].0 && r@[m].1@
                    == found[m].1
        }),
{
    let ghost ls = lines_of(content@);
    let mut lines = split_lines(content);
    let total = lines.len();
    let mut r: Vec<(usize, Vec<u8>)> = Vec::new();
    let mut k: usize = 0;
    while k < total
        invariant
            total == ls.len(),
            k <= total,
            lines@.len() == total - k,
            forall|i: int| 0 <= i < lines@.len() ==> #[trigger] lines@[i]@ == ls[k + i],
            ({
                let found = matching_lines(ls.take(k as int), pattern@);
                &&& r@.len() == found.len()
                &&& forall|m: int|
                    0 <= m < r@.len() ==> (#[trigger] r@[m]).0 as int == found[m].0 && r@[m].1@
                        == found[m].1
            }),
        decreases total - k,
    {
        let line = lines.remove(0);
        let hit = contains_subslice(line.as_slice(), pattern);
        proof {
            assert(ls.take(k + 1).drop_last() =~= ls.take(k as int));
            assert(ls.take(k + 1).last() == ls[k as int]);
        }
        if hit {
            r.push((k + 1, line));
        }
        k += 1;
    }
    proof {
        assert(ls.take(total as int) =~= ls);
    }
    r
}

} // verus!
