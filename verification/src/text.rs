//! Text helpers shared by the library: lower-casing, alphanumeric tests and
//! small string constructions with exact specifications.

use vstd::prelude::*;
use vstd::string::*;

verus! {

/// What `str::to_lowercase` returns for a string that holds a non-ASCII
/// character (Unicode lower-casing).
pub uninterp spec fn unicode_lowercase(s: Seq<char>) -> Seq<char>;

/// Lower-casing as `str::to_lowercase` does it: on ASCII text it maps `A`-`Z`
/// to `a`-`z` and keeps every other character.
pub open spec fn lowercase(s: Seq<char>) -> Seq<char> {
    if all_ascii(s) {
        ascii_lower(s)
    } else {
        unicode_lowercase(s)
    }
}

/// True when every character of `s` is ASCII.
pub open spec fn all_ascii(s: Seq<char>) -> bool {
    forall|i: int| 0 <= i < s.len() ==> (#[trigger] s[i] as u32) < 128
}

/// ASCII lower-casing of one character.
pub open spec fn ascii_lower_char(c: char) -> char {
    if 65 <= (c as u32) && (c as u32) <= 90 {
        ((c as u32) + 32) as char
    } else {
        c
    }
}

/// ASCII lower-casing of a character sequence.
pub open spec fn ascii_lower(s: Seq<char>) -> Seq<char> {
    Seq::new(s.len(), |i: int| ascii_lower_char(s[i]))
}

/// Lower-cases a string with `str::to_lowercase`.
///
/// Trusted: for an all-ASCII argument the result is the ASCII lower-casing,
/// as the documentation of `to_lowercase` states; for other text the result is
/// named `unicode_lowercase` and nothing more is said of it.
#[verifier::external_body]
pub(crate) fn to_lowercase(s: &str) -> (res: String)
    ensures
        res@ == lowercase(s@),
        !all_ascii(s@) ==> res@ == unicode_lowercase(s@),
{
    s.to_lowercase()
}

/// Whether `char::is_alphanumeric` holds of a non-ASCII character (Unicode
/// classes).
pub uninterp spec fn unicode_alphanumeric(c: char) -> bool;

/// `char::is_alphanumeric`: on ASCII it is the letters and digits.
pub open spec fn alphanumeric(c: char) -> bool {
    if (c as u32) < 128 {
        ascii_alphanumeric(c)
    } else {
        unicode_alphanumeric(c)
    }
}

/// ASCII letters and digits.
pub open spec fn ascii_alphanumeric(c: char) -> bool {
    let u = c as u32;
    (48 <= u && u <= 57) || (65 <= u && u <= 90) || (97 <= u && u <= 122)
}

/// Tests a character with `char::is_alphanumeric`.
///
/// Trusted: on ASCII characters the result is exactly the ASCII letters and
/// digits, as the standard library documents; on other characters it is
/// named `unicode_alphanumeric` and nothing more is said of it.
#[verifier::external_body]
pub(crate) fn is_alphanumeric(c: char) -> (b: bool)
    ensures
        b == alphanumeric(c),
        (c as u32) >= 128 ==> b == unicode_alphanumeric(c),
{
    c.is_alphanumeric()
}

/// The texts of a list of strings.
pub open spec fn id_views(v: Seq<String>) -> Seq<Seq<char>> {
    v.map_values(|s: String| s@)
}

/// A copy of a list of strings, with the same texts in the same order.
pub fn clone_strings(v: &Vec<String>) -> (r: Vec<String>)
    ensures
        id_views(r@) == id_views(v@),
{
    let mut r: Vec<String> = Vec::new();
    let mut i: usize = 0;
    while i < v.len()
        invariant
            i <= v.len(),
            id_views(r@) == id_views(v@.take(i as int)),
        decreases v.len() - i,
    {
        let ghost prev = r@;
        let s = v[i].clone();
        r.push(s);
        assert(v@.take(i as int + 1) =~= v@.take(i as int).push(v@[i as int]));
        assert(id_views(r@) =~= id_views(prev).push(v@[i as int]@));
        assert(id_views(v@.take(i as int + 1)) =~= id_views(v@.take(i as int)).push(v@[i as int]@));
        i = i + 1;
    }
    assert(v@.take(v@.len() as int) =~= v@);
    r
}

/// Whether `needle` occurs in `hay` as a run of consecutive characters (the
/// empty text occurs everywhere).
pub open spec fn contains_text(hay: Seq<char>, needle: Seq<char>) -> bool {
    exists|i: int| 0 <= i <= hay.len() - needle.len() && #[trigger] hay.subrange(i, i + needle.len()) == needle
}

/// Whether `needle` occurs in `hay` at position `i`.
fn occurs_at(hay: &Vec<char>, needle: &Vec<char>, i: usize) -> (r: bool)
    requires
        i + needle@.len() <= hay@.len(),
    ensures
        r == (hay@.subrange(i as int, i + needle@.len()) == needle@),
{
    let mut k: usize = 0;
    while k < needle.len()
        invariant
            k <= needle@.len(),
            i + needle@.len() <= hay@.len(),
            forall|j: int| 0 <= j < k ==> hay@[i + j] == needle@[j],
        decreases needle@.len() - k,
    {
        assert(i + k < hay@.len());
        assert(hay@.len() == hay.len());
        let idx: usize = i + k;
        if hay[idx] != needle[k] {
            assert(hay@.subrange(i as int, i + needle@.len())[k as int] != needle@[k as int]);
            return false;
        }
        k = k + 1;
    }
    assert(hay@.subrange(i as int, i + needle@.len()) =~= needle@);
    true
}

/// The characters of a string.
pub fn chars_of(s: &str) -> (cs: Vec<char>)
    ensures
        cs@ == s@,
{
    let mut cs: Vec<char> = Vec::new();
    for c in it: s.chars()
        invariant
            it.seq() == s@,
            cs@ == s@.take(it.index() as int),
    {
        cs.push(c);
        assert(cs@ =~= s@.take(it.index() as int + 1));
    }
    assert(s@.take(s@.len() as int) =~= s@);
    cs
}

/// `s` ends with `suffix`.
pub open spec fn has_suffix(s: Seq<char>, suffix: Seq<char>) -> bool {
    suffix.len() <= s.len() && s.subrange(s.len() - suffix.len(), s.len() as int) == suffix
}

/// Whether `s` ends with `suffix`, as `str::ends_with` tests it.
pub fn text_ends_with(s: &str, suffix: &str) -> (r: bool)
    ensures
        r == has_suffix(s@, suffix@),
{
    let cs = chars_of(s);
    let xs = chars_of(suffix);
    if xs.len() > cs.len() {
        return false;
    }
    let start = cs.len() - xs.len();
    let mut i: usize = 0;
    while i < xs.len()
        invariant
            cs@ == s@,
            xs@ == suffix@,
            start + xs.len() == cs.len(),
            i <= xs.len(),
            forall|j: int| 0 <= j < i ==> cs@[start + j] == xs@[j],
        decreases xs.len() - i,
    {
        if cs[start + i] != xs[i] {
            assert(s@.subrange(start as int, s@.len() as int)[i as int] != suffix@[i as int]);
            return false;
        }
        i = i + 1;
    }
    assert(s@.subrange(start as int, s@.len() as int) =~= suffix@);
    true
}

/// Whether `needle` occurs in `hay`, as `str::contains` tests it.
pub fn text_contains(hay: &str, needle: &str) -> (r: bool)
    ensures
        r == contains_text(hay@, needle@),
{
    let h = chars_of(hay);
    let n = chars_of(needle);
    if n.len() > h.len() {
        assert(!contains_text(hay@, needle@));
        return false;
    }
    let last = h.len() - n.len();
    let mut i: usize = 0;
    loop
        invariant
            i <= last,
            last == h@.len() - n@.len(),
            h@ == hay@,
            n@ == needle@,
            forall|j: int| 0 <= j < i ==> #[trigger] h@.subrange(j, j + n@.len()) != n@,
        ensures
            forall|j: int| 0 <= j <= last ==> #[trigger] h@.subrange(j, j + n@.len()) != n@,
        decreases last - i,
    {
        if occurs_at(&h, &n, i) {
            assert(contains_text(hay@, needle@)) by {
                assert(hay@.subrange(i as int, i + needle@.len()) == needle@);
            }
            return true;
        }
        if i == last {
            break;
        }
        i = i + 1;
    }
    assert(!contains_text(hay@, needle@)) by {
        if contains_text(hay@, needle@) {
            let k = choose|k: int| 0 <= k <= hay@.len() - needle@.len() && #[trigger] hay@.subrange(k, k + needle@.len()) == needle@;
            assert(h@.subrange(k, k + n@.len()) == n@);
        }
    }
    false
}

/// `s` with every occurrence of `pat` taken out, scanning from the left as
/// `str::replace` does; an empty pattern takes nothing out.
pub open spec fn remove_text(s: Seq<char>, pat: Seq<char>) -> Seq<char>
    decreases s.len(),
{
    if s.len() == 0 || pat.len() == 0 {
        s
    } else if pat.len() <= s.len() && s.take(pat.len() as int) == pat {
        remove_text(s.skip(pat.len() as int), pat)
    } else {
        seq![s[0]] + remove_text(s.drop_first(), pat)
    }
}

/// Takes every occurrence of `pat` out of `s`, as `s.replace(pat, "")`;
/// an empty pattern leaves `s` as it is.
pub fn remove_occurrences(s: &str, pat: &str) -> (r: String)
    ensures
        r@ == remove_text(s@, pat@),
{
    let cs = chars_of(s);
    let p = chars_of(pat);
    if p.len() == 0 {
        assert(remove_text(s@, pat@) == s@);
        return String::from_str(s);
    }
    let mut result = String::new();
    let mut seg: usize = 0;
    let mut i: usize = 0;
    assert(s@.skip(0) =~= s@);
    assert(result@ + s@.subrange(0, 0) =~= Seq::<char>::empty());
    while i < cs.len()
        invariant
            cs@ == s@,
            p@ == pat@,
            p@.len() > 0,
            seg <= i <= cs@.len(),
            remove_text(s@, pat@) == result@ + s@.subrange(seg as int, i as int) + remove_text(s@.skip(i as int), pat@),
        decreases cs@.len() - i,
    {
        let ghost rest = s@.skip(i as int);
        if p.len() <= cs.len() - i && occurs_at(&cs, &p, i) {
            assert(rest.take(p@.len() as int) =~= s@.subrange(i as int, i + p@.len()));
            assert(rest.skip(p@.len() as int) =~= s@.skip(i + p@.len()));
            let piece = s.substring_char(seg, i);
            result.append(piece);
            i = i + p.len();
            seg = i;
            assert(s@.subrange(seg as int, i as int) =~= Seq::<char>::empty());
        } else {
            proof {
                if p@.len() <= rest.len() {
                    assert(rest.take(p@.len() as int) =~= s@.subrange(i as int, i + p@.len()));
                }
            }
            assert(rest.drop_first() =~= s@.skip(i + 1));
            assert(s@.subrange(seg as int, i + 1) =~= s@.subrange(seg as int, i as int) + seq![rest[0]]);
            i = i + 1;
        }
    }
    let piece = s.substring_char(seg, i);
    result.append(piece);
    assert(s@.skip(i as int) =~= Seq::<char>::empty());
    assert(result@ =~= remove_text(s@, pat@));
    result
}

/// The part of `s` after its last `:`, or all of `s` when it has none.
pub open spec fn after_last_colon(s: Seq<char>) -> Seq<char> {
    if s.contains(':') {
        let k = choose|k: int| 0 <= k < s.len() && s[k] == ':' && forall|j: int| k < j < s.len() ==> s[j] != ':';
        s.skip(k + 1)
    } else {
        s
    }
}

/// The part of `s` after its last `:`, as `s.split(':').last()` gives it.
pub fn text_after_last_colon(s: &str) -> (r: String)
    ensures
        r@ == after_last_colon(s@),
{
    let cs = chars_of(s);
    let mut i: usize = cs.len();
    while i > 0
        invariant
            i <= cs@.len(),
            cs@ == s@,
            forall|j: int| i <= j < cs@.len() ==> cs@[j] != ':',
        decreases i,
    {
        if cs[i - 1] == ':' {
            let ghost k = (i - 1) as int;
            assert(s@.contains(':')) by {
                assert(s@[k] == ':');
            }
            let r = String::from_str(s.substring_char(i, cs.len()));
            assert forall|k2: int| 0 <= k2 < s@.len() && s@[k2] == ':' && (forall|j: int| k2 < j < s@.len() ==> s@[j] != ':')
                implies k2 == k by {
                if k2 < k {
                    assert(s@[k] != ':');
                }
            }
            assert(r@ =~= after_last_colon(s@));
            return r;
        }
        i = i - 1;
    }
    assert(!s@.contains(':'));
    String::from_str(s)
}

/// The texts of a list joined with a separator between consecutive items.
pub open spec fn join_texts(items: Seq<Seq<char>>, sep: Seq<char>) -> Seq<char>
    decreases items.len(),
{
    if items.len() == 0 {
        Seq::empty()
    } else if items.len() == 1 {
        items[0]
    } else {
        join_texts(items.drop_last(), sep) + sep + items.last()
    }
}

/// Joins strings with a separator, as `join` on a slice of strings does.
pub fn join_strings(items: &Vec<String>, sep: &str) -> (r: String)
    ensures
        r@ == join_texts(id_views(items@), sep@),
{
    let mut r = String::new();
    let ghost v = id_views(items@);
    let mut i: usize = 0;
    while i < items.len()
        invariant
            i <= items@.len(),
            v == id_views(items@),
            r@ == join_texts(v.take(i as int), sep@),
        decreases items@.len() - i,
    {
        assert(v.take(i as int + 1).drop_last() =~= v.take(i as int));
        if i > 0 {
            r.append(sep);
        } else {
            assert(r@ =~= Seq::<char>::empty());
        }
        r.append(items[i].as_str());
        i = i + 1;
    }
    assert(v.take(v.len() as int) =~= v);
    r
}

} // verus!
