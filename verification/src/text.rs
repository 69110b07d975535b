//! Verified text utilities: substring search, prefix tests, joining and
//! character normalization, all specified over `Seq<char>` views.

use vstd::prelude::*;

verus! {

/// `needle` occurs in `hay` starting at position `i`.
pub open spec fn matches_at(hay: Seq<char>, needle: Seq<char>, i: int) -> bool {
    0 <= i && i + needle.len() <= hay.len() && hay.subrange(i, i + needle.len()) == needle
}

/// `needle` occurs somewhere in `hay`.
pub open spec fn contains_seq(hay: Seq<char>, needle: Seq<char>) -> bool {
    exists|i: int| matches_at(hay, needle, i)
}

/// `prefix` is an initial segment of `s`.
pub open spec fn starts_with_seq(s: Seq<char>, prefix: Seq<char>) -> bool {
    prefix.len() <= s.len() && s.subrange(0, prefix.len() as int) == prefix
}

/// What `str::to_lowercase` returns; the result depends on the characters alone.
pub uninterp spec fn lower_of(s: Seq<char>) -> Seq<char>;

/// Relies on str::to_lowercase: the result is a function of the characters
/// alone, and an empty string stays empty.
#[verifier::external_body]
pub(crate) fn lowercase(s: &str) -> (r: String)
    ensures
        r@ == lower_of(s@),
        s@.len() == 0 ==> r@.len() == 0,
{
    s.to_lowercase()
}

/// Relies on String::push: appends exactly the one character.
#[verifier::external_body]
pub(crate) fn push_char(s: &mut String, c: char)
    ensures
        final(s)@ == old(s)@.push(c),
{
    s.push(c);
}

/// First position where `needle` occurs in `hay`, if any.
pub fn find_sub(hay: &str, needle: &str) -> (r: Option<usize>)
    ensures
        match r {
            Some(i) => matches_at(hay@, needle@, i as int) && forall|j: int|
                0 <= j < i ==> !matches_at(hay@, needle@, j),
            None => !contains_seq(hay@, needle@),
        },
{
    let n = hay.unicode_len();
    let m = needle.unicode_len();
    if m > n {
        return None;
    }
    if m == 0 {
        proof {
            assert(hay@.subrange(0, 0) =~= needle@);
        }
        return Some(0);
    }
    let mut i: usize = 0;
    while i <= n - m
        invariant
            1 <= m <= n,
            n == hay@.len(),
            m == needle@.len(),
            i <= n - m + 1,
            forall|j: int| 0 <= j < i ==> !matches_at(hay@, needle@, j),
        decreases n - m + 1 - i,
    {
        let mut k: usize = 0;
        let mut hit = true;
        while k < m
            invariant
                m <= n,
                n == hay@.len(),
                m == needle@.len(),
                i <= n - m,
                k <= m,
                hit ==> forall|t: int| 0 <= t < k ==> hay@[i + t] == needle@[t],
                !hit ==> !matches_at(hay@, needle@, i as int),
            decreases m - k,
        {
            if hay.get_char(i + k) != needle.get_char(k) {
                proof {
                    if matches_at(hay@, needle@, i as int) {
                        assert(hay@.subrange(i as int, i + m)[k as int] == needle@[k as int]);
                    }
                }
                hit = false;
                k = m;
            } else {
                k = k + 1;
            }
        }
        if hit {
            proof {
                assert(hay@.subrange(i as int, i + m) =~= needle@);
            }
            return Some(i);
        }
        i = i + 1;
    }
    proof {
        assert forall|j: int| !matches_at(hay@, needle@, j) by {
            if 0 <= j && j + m <= n {
                assert(j < i);
            }
        }
    }
    None
}

/// Whether `needle` occurs in `hay`.
pub fn contains_sub(hay: &str, needle: &str) -> (r: bool)
    ensures
        r == contains_seq(hay@, needle@),
{
    let found = find_sub(hay, needle);
    proof {
        if found is Some {
            assert(matches_at(hay@, needle@, found->0 as int));
        }
    }
    found.is_some()
}

/// Character-for-character string equality.
pub fn str_eq(a: &str, b: &str) -> (r: bool)
    ensures
        r == (a@ == b@),
{
    let n = a.unicode_len();
    if n != b.unicode_len() {
        return false;
    }
    let mut i: usize = 0;
    while i < n
        invariant
            n == a@.len(),
            n == b@.len(),
            i <= n,
            forall|j: int| 0 <= j < i ==> a@[j] == b@[j],
        decreases n - i,
    {
        if a.get_char(i) != b.get_char(i) {
            return false;
        }
        i = i + 1;
    }
    proof {
        assert(a@ =~= b@);
    }
    true
}

/// Whether `prefix` is an initial segment of `s`.
pub fn starts_with_str(s: &str, prefix: &str) -> (r: bool)
    ensures
        r == starts_with_seq(s@, prefix@),
{
    let n = s.unicode_len();
    let m = prefix.unicode_len();
    if m > n {
        return false;
    }
    let mut i: usize = 0;
    while i < m
        invariant
            n == s@.len(),
            m == prefix@.len(),
            m <= n,
            i <= m,
            forall|j: int| 0 <= j < i ==> s@[j] == prefix@[j],
        decreases m - i,
    {
        if s.get_char(i) != prefix.get_char(i) {
            proof {
                if starts_with_seq(s@, prefix@) {
                    assert(s@.subrange(0, m as int)[i as int] == prefix@[i as int]);
                }
            }
            return false;
        }
        i = i + 1;
    }
    proof {
        assert(s@.subrange(0, m as int) =~= prefix@);
    }
    true
}

/// `needle` occurs in `hay` first at position `i`.
pub open spec fn first_match_at(hay: Seq<char>, needle: Seq<char>, i: int) -> bool {
    matches_at(hay, needle, i) && forall|j: int| 0 <= j < i ==> !matches_at(hay, needle, j)
}

/// The two paths share an application-bundle root: each contains `.app`,
/// and their prefixes up to and including its first occurrence are equal.
pub open spec fn spec_bundle_match(a: Seq<char>, b: Seq<char>) -> bool {
    exists|ia: int, ib: int|
        first_match_at(a, ".app"@, ia) && first_match_at(b, ".app"@, ib) && a.subrange(
            0,
            ia + ".app"@.len(),
        ) == b.subrange(0, ib + ".app"@.len())
}

/// Whether the two paths share an application-bundle root.
pub fn bundle_match(a: &str, b: &str) -> (r: bool)
    ensures
        r == spec_bundle_match(a@, b@),
{
    // the lengths bound the prefix-end additions below
    let na = a.unicode_len();
    let nb = b.unicode_len();
    let fa = find_sub(a, ".app");
    let fb = find_sub(b, ".app");
    match (fa, fb) {
        (Some(ia), Some(ib)) => {
            let m = ".app".unicode_len();
            let pa = a.substring_char(0, ia + m);
            let pb = b.substring_char(0, ib + m);
            let r = str_eq(pa, pb);
            proof {
                if r {
                    assert(first_match_at(a@, ".app"@, ia as int) && first_match_at(
                        b@,
                        ".app"@,
                        ib as int,
                    ) && a@.subrange(0, ia + ".app"@.len()) == b@.subrange(
                        0,
                        ib + ".app"@.len(),
                    ));
                } else {
                    assert forall|xa: int, xb: int|
                        first_match_at(a@, ".app"@, xa) && first_match_at(
                            b@,
                            ".app"@,
                            xb,
                        ) implies a@.subrange(0, xa + ".app"@.len()) != b@.subrange(
                        0,
                        xb + ".app"@.len(),
                    ) by {
                        assert(xa == ia as int);
                        assert(xb == ib as int);
                    }
                }
            }
            r
        },
        (None, _) => {
            proof {
                assert forall|xa: int| !first_match_at(a@, ".app"@, xa) by {
                    if matches_at(a@, ".app"@, xa) {
                        assert(contains_seq(a@, ".app"@));
                    }
                }
            }
            false
        },
        (_, None) => {
            proof {
                assert forall|xb: int| !first_match_at(b@, ".app"@, xb) by {
                    if matches_at(b@, ".app"@, xb) {
                        assert(contains_seq(b@, ".app"@));
                    }
                }
            }
            false
        },
    }
}

/// `suffix` is a final segment of `s`.
pub open spec fn ends_with_seq(s: Seq<char>, suffix: Seq<char>) -> bool {
    suffix.len() <= s.len() && s.subrange(s.len() - suffix.len(), s.len() as int) == suffix
}

/// Whether `suffix` is a final segment of `s`.
pub fn ends_with_str(s: &str, suffix: &str) -> (r: bool)
    ensures
        r == ends_with_seq(s@, suffix@),
{
    let n = s.unicode_len();
    let m = suffix.unicode_len();
    if m > n {
        return false;
    }
    let mut i: usize = 0;
    while i < m
        invariant
            n == s@.len(),
            m == suffix@.len(),
            m <= n,
            i <= m,
            forall|j: int| 0 <= j < i ==> s@[n - m + j] == suffix@[j],
        decreases m - i,
    {
        if s.get_char(n - m + i) != suffix.get_char(i) {
            proof {
                if ends_with_seq(s@, suffix@) {
                    assert(s@.subrange(n - m, n as int)[i as int] == suffix@[i as int]);
                }
            }
            return false;
        }
        i = i + 1;
    }
    proof {
        assert(s@.subrange(n - m, n as int) =~= suffix@);
    }
    true
}

/// The path up to and including its first `.app` segment; a path without
/// one stays as it is.
pub open spec fn spec_bundle_trim(path: Seq<char>) -> Seq<char> {
    if contains_seq(path, ".app"@) {
        path.subrange(0, (choose|ia: int| first_match_at(path, ".app"@, ia)) + ".app"@.len())
    } else {
        path
    }
}

/// Trims a path to its application-bundle root, when it carries one.
pub fn bundle_trim(path: &str) -> (r: String)
    ensures
        r@ == spec_bundle_trim(path@),
{
    match find_sub(path, ".app") {
        Some(ia) => {
            let n = path.unicode_len();
            let m = ".app".unicode_len();
            proof {
                assert(ia + m <= n);
            }
            let pa = path.substring_char(0, ia + m);
            proof {
                assert(first_match_at(path@, ".app"@, ia as int));
                let gx = choose|gx: int| first_match_at(path@, ".app"@, gx);
                assert(gx == ia as int);
                assert(contains_seq(path@, ".app"@));
            }
            pa.to_owned()
        },
        None => {
            proof {
                if contains_seq(path@, ".app"@) {
                    let w = choose|w: int| matches_at(path@, ".app"@, w);
                    assert(false);
                }
            }
            path.to_owned()
        },
    }
}

/// The parts joined with single spaces: `join_spaces([a, b, c]) == a + " " + b + " " + c`.
pub open spec fn join_spaces(parts: Seq<Seq<char>>) -> Seq<char>
    decreases parts.len(),
{
    if parts.len() == 0 {
        Seq::empty()
    } else if parts.len() == 1 {
        parts[0]
    } else {
        join_spaces(parts.drop_last()) + seq![' '] + parts.last()
    }
}

/// Every part lowercased.
pub open spec fn lowered_all(parts: Seq<Seq<char>>) -> Seq<Seq<char>> {
    parts.map_values(|a: Seq<char>| lower_of(a))
}

/// Lowercases every string and joins them with single spaces.
pub fn lower_join(parts: &Vec<String>) -> (r: String)
    ensures
        r@ == join_spaces(lowered_all(parts.deep_view())),
{
    let mut lowered: Vec<String> = Vec::new();
    let mut i: usize = 0;
    while i < parts.len()
        invariant
            i <= parts.len(),
            parts.deep_view().len() == parts.len(),
            forall|j: int| 0 <= j < parts.len() ==> parts.deep_view()[j] == parts[j]@,
            lowered.deep_view() == lowered_all(parts.deep_view().take(i as int)),
        decreases parts.len() - i,
    {
        let ghost low0 = lowered.deep_view();
        let one = lowercase(parts[i].as_str());
        lowered.push(one);
        proof {
            assert(lowered.deep_view() =~= low0.push(lower_of(parts.deep_view()[i as int])));
            assert(lowered_all(parts.deep_view().take(i + 1)) =~= low0.push(
                lower_of(parts.deep_view()[i as int]),
            ));
        }
        i = i + 1;
    }
    proof {
        assert(parts.deep_view().take(parts.len() as int) =~= parts.deep_view());
    }
    join_with_spaces(&lowered)
}

/// The sequence with every `/` replaced by `\`; path-separator normalization
/// before directory/command-line containment tests.
pub open spec fn backslashed(s: Seq<char>) -> Seq<char> {
    s.map_values(|c: char| if c == '/' { '\\' } else { c })
}

/// Replaces every `/` with `\`.
pub fn backslash_str(s: &str) -> (r: String)
    ensures
        r@ == backslashed(s@),
{
    let n = s.unicode_len();
    let mut out = String::new();
    let mut i: usize = 0;
    while i < n
        invariant
            n == s@.len(),
            i <= n,
            out@ == backslashed(s@.take(i as int)),
        decreases n - i,
    {
        let c = s.get_char(i);
        if c == '/' {
            push_char(&mut out, '\\');
        } else {
            push_char(&mut out, c);
        }
        proof {
            assert(backslashed(s@.take(i + 1)) =~= backslashed(s@.take(i as int)).push(
                if s@[i as int] == '/' {
                    '\\'
                } else {
                    s@[i as int]
                },
            ));
        }
        i = i + 1;
    }
    proof {
        assert(s@.take(n as int) =~= s@);
    }
    out
}

/// Joins the strings with single spaces.
pub fn join_with_spaces(parts: &Vec<String>) -> (r: String)
    ensures
        r@ == join_spaces(parts.deep_view()),
{
    let mut out = String::new();
    let mut i: usize = 0;
    while i < parts.len()
        invariant
            i <= parts.len(),
            parts.deep_view().len() == parts.len(),
            forall|j: int| 0 <= j < parts.len() ==> parts.deep_view()[j] == parts[j]@,
            out@ == join_spaces(parts.deep_view().take(i as int)),
        decreases parts.len() - i,
    {
        if i > 0 {
            push_char(&mut out, ' ');
        }
        out.append(parts[i].as_str());
        proof {
            let dv = parts.deep_view();
            assert(dv.take(i + 1).drop_last() =~= dv.take(i as int));
            assert(dv.take(i + 1).last() == dv[i as int]);
        }
        i = i + 1;
    }
    proof {
        assert(parts.deep_view().take(parts.len() as int) =~= parts.deep_view());
    }
    out
}

} // verus!
