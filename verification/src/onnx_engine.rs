//! Keyword statistics behind document similarity: word splitting, the
//! hashed keyword buckets of an embedding, and word-set overlap.

use vstd::prelude::*;
use vstd::string::*;
use vstd::utf8::{encode_utf8, encode_scalar};
use crate::errors::AxiomError;
use crate::text::{alphanumeric, chars_of, is_alphanumeric, lowercase, to_lowercase};

verus! {

broadcast use vstd::set::group_set_axioms, vstd::seq_lib::seq_to_set_is_finite;

/// Number of components of an embedding.
pub const EMBEDDING_DIM: usize = 384;

/// The FNV-1a hash (64 bits) of a byte sequence.
pub open spec fn fnv1a(bytes: Seq<u8>) -> u64
    decreases bytes.len(),
{
    if bytes.len() == 0 {
        0xcbf29ce484222325u64
    } else {
        vstd::wrapping::u64_specs::wrapping_mul(fnv1a(bytes.drop_last()) ^ (bytes.last() as u64), 0x100000001b3u64)
    }
}

/// The pieces of a text cut at every character that is not alphanumeric, as
/// `str::split` cuts them (empty pieces included).
pub open spec fn pieces(s: Seq<char>) -> Seq<Seq<char>>
    decreases s.len(),
{
    if s.len() == 0 {
        seq![Seq::<char>::empty()]
    } else {
        let p = pieces(s.drop_last());
        if alphanumeric(s.last()) {
            p.update(p.len() - 1, p.last().push(s.last()))
        } else {
            p.push(Seq::<char>::empty())
        }
    }
}

/// The pieces of a text are its maximal runs of alphanumeric characters
/// (digits as much as letters): every character of a piece is alphanumeric,
/// the pieces together hold exactly the alphanumeric characters of the text,
/// in order, and there is one piece more than the text has other characters,
/// each of which ends a piece.
pub proof fn lemma_pieces_are_alphanumeric_runs(s: Seq<char>)
    ensures
        forall|i: int, j: int| 0 <= i < pieces(s).len() && 0 <= j < pieces(s)[i].len()
            ==> alphanumeric(#[trigger] pieces(s)[i][j]),
        pieces(s).flatten_alt() == s.filter(|c: char| alphanumeric(c)),
        pieces(s).len() == s.filter(|c: char| !alphanumeric(c)).len() + 1,
    decreases s.len(),
{
    reveal(Seq::filter);
    if s.len() == 0 {
        let p = pieces(s);
        assert(p.drop_last() =~= Seq::<Seq<char>>::empty());
        assert(p.drop_last().flatten_alt() == Seq::<char>::empty());
        assert(p.last() == Seq::<char>::empty());
        assert(p.flatten_alt() == p.drop_last().flatten_alt().add(p.last()));
        assert(p.flatten_alt() =~= Seq::<char>::empty());
    } else {
        let q = s.drop_last();
        let c = s.last();
        lemma_pieces_are_alphanumeric_runs(q);
        let p = pieces(q);
        let n = pieces(s);
        if alphanumeric(c) {
            assert(n.drop_last() =~= p.drop_last());
            assert(n.flatten_alt() == n.drop_last().flatten_alt().add(n.last()));
            assert(p.flatten_alt() == p.drop_last().flatten_alt().add(p.last()));
            assert(n.flatten_alt() =~= p.flatten_alt().push(c));
            assert forall|i: int, j: int| 0 <= i < n.len() && 0 <= j < n[i].len() implies alphanumeric(
                #[trigger] n[i][j],
            ) by {
                if i < p.len() - 1 {
                    assert(n[i] == p[i]);
                } else if j < p.last().len() {
                    assert(n[i][j] == p[i][j]);
                }
            }
        } else {
            assert(n.drop_last() == p);
            assert(n.flatten_alt() =~= p.flatten_alt());
            assert forall|i: int, j: int| 0 <= i < n.len() && 0 <= j < n[i].len() implies alphanumeric(
                #[trigger] n[i][j],
            ) by {
                assert(n[i] == p[i]);
            }
        }
    }
}

/// Reading one more character: an alphanumeric one, a digit as much as a
/// letter, extends the last piece; any other starts a new, empty piece.
pub proof fn lemma_pieces_push(s: Seq<char>, c: char)
    ensures
        alphanumeric(c) ==> pieces(s.push(c)) == pieces(s).update(pieces(s).len() - 1, pieces(s).last().push(c)),
        !alphanumeric(c) ==> pieces(s.push(c)) == pieces(s).push(Seq::<char>::empty()),
        pieces(s).len() >= 1,
{
    lemma_pieces_are_alphanumeric_runs(s);
    assert(s.push(c).drop_last() =~= s);
}

/// A piece counts as a word when its UTF-8 encoding is longer than two bytes.
pub open spec fn is_word(w: Seq<char>) -> bool {
    encode_utf8(w).len() > 2
}

/// The words among pieces, in order.
pub open spec fn keep_words(ps: Seq<Seq<char>>) -> Seq<Seq<char>>
    decreases ps.len(),
{
    if ps.len() == 0 {
        ps
    } else if is_word(ps.last()) {
        keep_words(ps.drop_last()).push(ps.last())
    } else {
        keep_words(ps.drop_last())
    }
}

/// The words among pieces are exactly the pieces whose UTF-8 encoding is
/// longer than two bytes, in their order.
pub proof fn lemma_keep_words_is_filter(ps: Seq<Seq<char>>)
    ensures
        keep_words(ps) == ps.filter(|w: Seq<char>| encode_utf8(w).len() > 2),
    decreases ps.len(),
{
    reveal(Seq::filter);
    if ps.len() > 0 {
        lemma_keep_words_is_filter(ps.drop_last());
    }
}

/// The words of a text: the lower-cased text cut at non-alphanumeric
/// characters, keeping the pieces longer than two bytes.
pub open spec fn text_words(text: Seq<char>) -> Seq<Seq<char>> {
    keep_words(pieces(lowercase(text)))
}

/// The hash of a word: FNV-1a of its UTF-8 bytes.
pub open spec fn word_hash(w: Seq<char>) -> u64 {
    fnv1a(encode_utf8(w))
}

/// The component a word adds a full unit to: its hash, taken as a `usize`,
/// modulo 384.
pub open spec fn primary_bucket(w: Seq<char>) -> int {
    ((word_hash(w) as usize) % 384) as int
}

/// The component a word adds half a unit to: its hash shifted right by eight
/// bits, taken as a `usize`, modulo 384.
pub open spec fn secondary_bucket(w: Seq<char>) -> int {
    (((word_hash(w) >> 8) as usize) % 384) as int
}

/// How many of the words fall in component `k` as their full unit.
pub open spec fn primary_hits(ws: Seq<Seq<char>>, k: int) -> nat
    decreases ws.len(),
{
    if ws.len() == 0 {
        0
    } else {
        primary_hits(ws.drop_last(), k) + if primary_bucket(ws.last()) == k { 1nat } else { 0nat }
    }
}

/// How many of the words fall in component `k` as their half unit.
pub open spec fn secondary_hits(ws: Seq<Seq<char>>, k: int) -> nat
    decreases ws.len(),
{
    if ws.len() == 0 {
        0
    } else {
        secondary_hits(ws.drop_last(), k) + if secondary_bucket(ws.last()) == k { 1nat } else { 0nat }
    }
}

/// The full units of components `0 .. n` added up.
pub open spec fn primary_total(ws: Seq<Seq<char>>, n: nat) -> nat
    decreases n,
{
    if n == 0 {
        0
    } else {
        primary_total(ws, (n - 1) as nat) + primary_hits(ws, n - 1)
    }
}

/// The half units of components `0 .. n` added up.
pub open spec fn secondary_total(ws: Seq<Seq<char>>, n: nat) -> nat
    decreases n,
{
    if n == 0 {
        0
    } else {
        secondary_total(ws, (n - 1) as nat) + secondary_hits(ws, n - 1)
    }
}

/// One more word adds one to the totals of the components below `n` exactly
/// when its component is below `n`.
proof fn lemma_totals_push(ws: Seq<Seq<char>>, w: Seq<char>, n: nat)
    ensures
        primary_total(ws.push(w), n) == primary_total(ws, n) + if primary_bucket(w) < n { 1nat } else { 0nat },
        secondary_total(ws.push(w), n) == secondary_total(ws, n) + if secondary_bucket(w) < n { 1nat } else { 0nat },
    decreases n,
{
    assert(ws.push(w).drop_last() =~= ws);
    assert(ws.push(w).last() == w);
    if n > 0 {
        lemma_totals_push(ws, w, (n - 1) as nat);
    }
}

/// Every word is counted, wherever it stands in the text: one more word adds
/// exactly one to its own component of each list and leaves the others as
/// they were, so the 384 components of each list together count every word.
pub proof fn lemma_every_word_counted(ws: Seq<Seq<char>>, w: Seq<char>)
    ensures
        forall|k: int| #[trigger] primary_hits(ws.push(w), k) == primary_hits(ws, k)
            + if primary_bucket(w) == k { 1nat } else { 0nat },
        forall|k: int| #[trigger] secondary_hits(ws.push(w), k) == secondary_hits(ws, k)
            + if secondary_bucket(w) == k { 1nat } else { 0nat },
        0 <= primary_bucket(w) < 384,
        0 <= secondary_bucket(w) < 384,
        primary_total(ws, 384) == ws.len(),
        secondary_total(ws, 384) == ws.len(),
    decreases ws.len(),
{
    assert(ws.push(w).drop_last() =~= ws);
    assert(ws.push(w).last() == w);
    if ws.len() == 0 {
        lemma_totals_zero(ws, 384);
    } else {
        let p = ws.drop_last();
        lemma_every_word_counted(p, ws.last());
        assert(p.push(ws.last()) =~= ws);
        lemma_totals_push(p, ws.last(), 384);
    }
}

/// No words, no units.
proof fn lemma_totals_zero(ws: Seq<Seq<char>>, n: nat)
    requires
        ws.len() == 0,
    ensures
        primary_total(ws, n) == 0,
        secondary_total(ws, n) == 0,
    decreases n,
{
    if n > 0 {
        lemma_totals_zero(ws, (n - 1) as nat);
    }
}

/// The texts of a list of words.
pub open spec fn words_view(ws: Seq<Vec<char>>) -> Seq<Seq<char>> {
    ws.map_values(|w: Vec<char>| w@)
}

/// The keyword counts of a text before normalisation: component `k` of the
/// embedding is `primary[k] + secondary[k] / 2`, where `primary[k]` counts
/// the words whose hash falls in `k` and `secondary[k]` the words whose
/// shifted hash does.
pub struct KeywordBuckets {
    pub primary: Vec<u64>,
    pub secondary: Vec<u64>,
}

/// How much two texts share: the number of distinct words of each and the
/// number of distinct words they have in common. The distinct words of both
/// together number `first + second - shared`.
#[derive(Debug, Clone, Copy, PartialEq, Eq, Structural)]
pub struct WordOverlap {
    pub first: usize,
    pub second: usize,
    pub shared: usize,
}

/// An embedding engine that works from keyword statistics.
pub struct OnnxEngine {
    model_path: Option<String>,
    is_ready: bool,
}

/// Encoding one more character appends its UTF-8 bytes.
proof fn lemma_encode_push(w: Seq<char>, c: char)
    ensures
        encode_utf8(w.push(c)) == encode_utf8(w) + encode_scalar(c as u32),
    decreases w.len(),
{
    if w.len() == 0 {
        assert(w.push(c).drop_first() =~= Seq::<char>::empty());
        assert(w.push(c)[0] == c);
        assert(encode_utf8(Seq::<char>::empty()) =~= Seq::<u8>::empty());
        assert(encode_utf8(w) =~= Seq::<u8>::empty());
        assert(encode_utf8(w.push(c)) =~= encode_scalar(c as u32));
    } else {
        lemma_encode_push(w.drop_first(), c);
        assert(w.push(c).drop_first() =~= w.drop_first().push(c));
        assert(encode_utf8(w.push(c)) =~= encode_utf8(w) + encode_scalar(c as u32));
    }
}

/// Number of bytes of the UTF-8 encoding of a character.
fn utf8_width(c: char) -> (n: usize)
    ensures
        n == encode_scalar(c as u32).len(),
        1 <= n <= 4,
{
    proof {
        vstd::utf8::char_is_scalar(c);
    }
    let v = c as u32;
    if v < 0x80 {
        1
    } else if v < 0x800 {
        2
    } else if v < 0x10000 {
        3
    } else {
        4
    }
}

/// Appends the UTF-8 encoding of a character.
fn push_utf8(bytes: &mut Vec<u8>, c: char)
    ensures
        final(bytes)@ == old(bytes)@ + encode_scalar(c as u32),
{
    proof {
        vstd::utf8::char_is_scalar(c);
    }
    let v = c as u32;
    if v < 0x80 {
        bytes.push((v & 0x7F) as u8);
    } else if v < 0x800 {
        bytes.push(0xC0u8 | ((v >> 6) & 0x1F) as u8);
        bytes.push(0x80u8 | (v & 0x3F) as u8);
    } else if v < 0x10000 {
        bytes.push(0xE0u8 | ((v >> 12) & 0x0F) as u8);
        bytes.push(0x80u8 | ((v >> 6) & 0x3F) as u8);
        bytes.push(0x80u8 | (v & 0x3F) as u8);
    } else {
        bytes.push(0xF0u8 | ((v >> 18) & 0x7) as u8);
        bytes.push(0x80u8 | ((v >> 12) & 0x3F) as u8);
        bytes.push(0x80u8 | ((v >> 6) & 0x3F) as u8);
        bytes.push(0x80u8 | (v & 0x3F) as u8);
    }
    assert(bytes@ =~= old(bytes)@ + encode_scalar(c as u32));
}

/// The UTF-8 encoding of a word.
fn encode_word(w: &Vec<char>) -> (b: Vec<u8>)
    ensures
        b@ == encode_utf8(w@),
{
    let mut b: Vec<u8> = Vec::new();
    let mut i: usize = 0;
    while i < w.len()
        invariant
            i <= w.len(),
            b@ == encode_utf8(w@.take(i as int)),
        decreases w.len() - i,
    {
        proof {
            lemma_encode_push(w@.take(i as int), w@[i as int]);
            assert(w@.take(i as int + 1) =~= w@.take(i as int).push(w@[i as int]));
        }
        push_utf8(&mut b, w[i]);
        i = i + 1;
    }
    assert(w@.take(w@.len() as int) =~= w@);
    b
}

/// FNV-1a over a byte slice.
fn fnv1a_bytes(b: &[u8]) -> (h: u64)
    ensures
        h == fnv1a(b@),
{
    let mut hash: u64 = 0xcbf29ce484222325;
    let mut i: usize = 0;
    while i < b.len()
        invariant
            i <= b@.len(),
            hash == fnv1a(b@.take(i as int)),
        decreases b@.len() - i,
    {
        assert(b@.take(i as int + 1).drop_last() =~= b@.take(i as int));
        hash = hash ^ (b[i] as u64);
        hash = hash.wrapping_mul(0x100000001b3);
        i = i + 1;
    }
    assert(b@.take(b@.len() as int) =~= b@);
    hash
}

/// Cuts a character sequence into its words.
fn split_words(s: &Vec<char>) -> (ws: Vec<Vec<char>>)
    ensures
        words_view(ws@) == keep_words(pieces(s@)),
{
    let mut ws: Vec<Vec<char>> = Vec::new();
    let mut cur: Vec<char> = Vec::new();
    let mut cur_bytes: usize = 0;
    let ghost mut done: Seq<Seq<char>> = Seq::empty();
    assert(pieces(s@.take(0)) =~= done.push(cur@));
    let mut i: usize = 0;
    while i < s.len()
        invariant
            i <= s@.len(),
            pieces(s@.take(i as int)) == done.push(cur@),
            words_view(ws@) == keep_words(done),
            cur_bytes == if encode_utf8(cur@).len() > 3 { 3 } else { encode_utf8(cur@).len() },
        decreases s@.len() - i,
    {
        let c = s[i];
        assert(s@.take(i as int + 1).drop_last() =~= s@.take(i as int));
        assert(s@.take(i as int + 1).last() == c);
        if is_alphanumeric(c) {
            let n = utf8_width(c);
            proof {
                lemma_encode_push(cur@, c);
            }
            cur.push(c);
            cur_bytes = if cur_bytes + n > 3 { 3 } else { cur_bytes + n };
            assert(pieces(s@.take(i as int + 1)) =~= done.push(cur@));
        } else {
            let ghost prev = done;
            proof {
                done = done.push(cur@);
            }
            assert(done.drop_last() =~= prev);
            if cur_bytes > 2 {
                let ghost before = ws@;
                ws.push(cur);
                assert(words_view(ws@) =~= words_view(before).push(done.last()));
            }
            cur = Vec::new();
            cur_bytes = 0;
            assert(encode_utf8(cur@) =~= Seq::<u8>::empty());
            assert(pieces(s@.take(i as int + 1)) =~= done.push(cur@));
        }
        i = i + 1;
    }
    assert(s@.take(s@.len() as int) =~= s@);
    assert(done.push(cur@).drop_last() =~= done);
    if cur_bytes > 2 {
        let ghost before = ws@;
        ws.push(cur);
        assert(words_view(ws@) =~= words_view(before).push(done.push(cur@).last()));
    }
    ws
}

/// The words of a text: lower-cased, cut at non-alphanumeric characters,
/// keeping pieces longer than two bytes.
pub fn text_words_of(text: &str) -> (ws: Vec<Vec<char>>)
    ensures
        words_view(ws@) == text_words(text@),
{
    let lowered = to_lowercase(text);
    let cs = chars_of(lowered.as_str());
    split_words(&cs)
}

/// A list of 384 zero counts.
fn zero_counts() -> (v: Vec<u64>)
    ensures
        v@.len() == 384,
        forall|k: int| 0 <= k < 384 ==> v@[k] == 0,
{
    let mut v: Vec<u64> = Vec::new();
    let mut i: usize = 0;
    while i < EMBEDDING_DIM
        invariant
            i <= 384,
            v@.len() == i,
            forall|k: int| 0 <= k < i ==> v@[k] == 0,
        decreases 384 - i,
    {
        v.push(0);
        i = i + 1;
    }
    v
}

/// The keyword counts of a list of words.
fn count_buckets(ws: &Vec<Vec<char>>) -> (b: KeywordBuckets)
    ensures
        b.primary@.len() == 384,
        b.secondary@.len() == 384,
        forall|k: int| 0 <= k < 384 ==> b.primary@[k] == primary_hits(words_view(ws@), k),
        forall|k: int| 0 <= k < 384 ==> b.secondary@[k] == secondary_hits(words_view(ws@), k),
{
    let mut primary = zero_counts();
    let mut secondary = zero_counts();
    let ghost wv = words_view(ws@);
    let mut j: usize = 0;
    while j < ws.len()
        invariant
            j <= ws@.len(),
            wv == words_view(ws@),
            primary@.len() == 384,
            secondary@.len() == 384,
            forall|k: int| 0 <= k < 384 ==> primary@[k] == primary_hits(wv.take(j as int), k),
            forall|k: int| 0 <= k < 384 ==> secondary@[k] == secondary_hits(wv.take(j as int), k),
            forall|k: int| 0 <= k < 384 ==> primary@[k] <= j,
            forall|k: int| 0 <= k < 384 ==> secondary@[k] <= j,
        decreases ws@.len() - j,
    {
        let bytes = encode_word(&ws[j]);
        let h = fnv1a_bytes(bytes.as_slice());
        let k1 = (h as usize) % 384;
        let k2 = ((h >> 8) as usize) % 384;
        let ghost pre = wv.take(j as int);
        assert(wv.take(j as int + 1).drop_last() =~= pre);
        assert(wv.take(j as int + 1).last() == ws@[j as int]@);
        assert(k1 as int == primary_bucket(wv[j as int]));
        assert(k2 as int == secondary_bucket(wv[j as int]));
        let p = primary[k1];
        primary.set(k1, p + 1);
        let s = secondary[k2];
        secondary.set(k2, s + 1);
        j = j + 1;
    }
    assert(wv.take(wv.len() as int) =~= wv);
    KeywordBuckets { primary, secondary }
}

/// Whether two words are the same text.
fn same_word(a: &Vec<char>, b: &Vec<char>) -> (r: bool)
    ensures
        r == (a@ == b@),
{
    if a.len() != b.len() {
        return false;
    }
    let mut i: usize = 0;
    while i < a.len()
        invariant
            i <= a@.len(),
            a@.len() == b@.len(),
            forall|k: int| 0 <= k < i ==> a@[k] == b@[k],
        decreases a@.len() - i,
    {
        if a[i] != b[i] {
            return false;
        }
        i = i + 1;
    }
    assert(a@ =~= b@);
    true
}

/// Whether a list of words holds the text of `w`.
fn holds_word(ws: &Vec<Vec<char>>, w: &Vec<char>) -> (r: bool)
    ensures
        r == words_view(ws@).contains(w@),
{
    let mut i: usize = 0;
    while i < ws.len()
        invariant
            i <= ws@.len(),
            forall|k: int| 0 <= k < i ==> ws@[k]@ != w@,
        decreases ws@.len() - i,
    {
        if same_word(&ws[i], w) {
            assert(words_view(ws@)[i as int] == w@);
            return true;
        }
        i = i + 1;
    }
    assert(!words_view(ws@).contains(w@)) by {
        if words_view(ws@).contains(w@) {
            let k = choose|k: int| 0 <= k < words_view(ws@).len() && words_view(ws@)[k] == w@;
            assert(ws@[k]@ == w@);
        }
    }
    false
}

/// The distinct words of a list, each once, in order of first occurrence.
fn distinct_words(ws: Vec<Vec<char>>) -> (u: Vec<Vec<char>>)
    ensures
        words_view(u@).no_duplicates(),
        words_view(u@).to_set() == words_view(ws@).to_set(),
{
    let ghost wv = words_view(ws@);
    let mut u: Vec<Vec<char>> = Vec::new();
    assert(words_view(u@).to_set() =~= wv.take(0).to_set());
    for w in it: ws
        invariant
            it.seq() == ws@,
            wv == words_view(ws@),
            words_view(u@).no_duplicates(),
            words_view(u@).to_set() == wv.take(it.index() as int).to_set(),
    {
        let ghost idx = it.index();
        assert(wv.take(idx as int + 1) =~= wv.take(idx as int).push(w@));
        proof {
            Seq::<Seq<char>>::lemma_to_set_insert_commutes(wv.take(idx as int), w@);
            assert(wv.take(idx as int) + seq![w@] =~= wv.take(idx as int + 1));
        }
        if !holds_word(&u, &w) {
            let ghost before = words_view(u@);
            u.push(w);
            assert(words_view(u@) =~= before.push(wv[idx as int]));
            proof {
                Seq::<Seq<char>>::lemma_to_set_insert_commutes(before, wv[idx as int]);
                assert(before + seq![wv[idx as int]] =~= words_view(u@));
            }
            assert(words_view(u@).to_set() =~= wv.take(idx as int + 1).to_set());
        } else {
            assert(words_view(u@).to_set().contains(w@));
            assert(words_view(u@).to_set() =~= wv.take(idx as int + 1).to_set());
        }
    }
    assert(wv.take(wv.len() as int) =~= wv);
    u
}

/// How many elements of a list belong to a set.
pub open spec fn count_in(s: Seq<Seq<char>>, b: Set<Seq<char>>) -> nat
    decreases s.len(),
{
    if s.len() == 0 {
        0
    } else {
        count_in(s.drop_last(), b) + if b.contains(s.last()) { 1nat } else { 0nat }
    }
}

/// For a list without repetitions, the elements in a set are as many as the
/// common part of the list's set and that set.
proof fn lemma_count_in(s: Seq<Seq<char>>, b: Set<Seq<char>>)
    requires
        s.no_duplicates(),
    ensures
        count_in(s, b) == s.to_set().intersect(b).len(),
    decreases s.len(),
{
    if s.len() == 0 {
        assert(s.to_set().intersect(b) =~= Set::<Seq<char>>::empty());
    } else {
        let p = s.drop_last();
        assert(p.no_duplicates()) by {
            assert forall|i: int, j: int| 0 <= i < p.len() && 0 <= j < p.len() && i != j
                implies p[i] != p[j] by {
                assert(p[i] == s[i] && p[j] == s[j]);
            }
        }
        lemma_count_in(p, b);
        assert(!p.contains(s.last())) by {
            if p.contains(s.last()) {
                let k = choose|k: int| 0 <= k < p.len() && p[k] == s.last();
                assert(s[k] == s[s.len() - 1]);
            }
        }
        assert(s =~= p.push(s.last()));
        assert(s.to_set() =~= p.to_set().insert(s.last()));
        if b.contains(s.last()) {
            assert(s.to_set().intersect(b) =~= p.to_set().intersect(b).insert(s.last()));
        } else {
            assert(s.to_set().intersect(b) =~= p.to_set().intersect(b));
        }
    }
}

/// The sizes of the word sets of two texts and of their common part, when
/// both have words.
pub open spec fn word_overlap(a: Seq<char>, b: Seq<char>) -> Option<(nat, nat, nat)> {
    let sa = text_words(a).to_set();
    let sb = text_words(b).to_set();
    if sa.len() == 0 || sb.len() == 0 {
        None
    } else {
        Some((sa.len(), sb.len(), sa.intersect(sb).len()))
    }
}

impl OnnxEngine {
    /// An engine that works without a model file.
    pub fn new() -> (r: Result<OnnxEngine, AxiomError>)
        ensures
            r matches Ok(e) && e.model_path_spec() is None && e.ready(),
    {
        Ok(OnnxEngine { model_path: None, is_ready: true })
    }

    /// An engine configured with a model file; it works from keyword
    /// statistics whether or not the file exists.
    pub fn with_model_path(model_path: String) -> (r: Result<OnnxEngine, AxiomError>)
        ensures
            r matches Ok(e) && e.model_path_spec() == Some(model_path@) && e.ready(),
    {
        Ok(OnnxEngine { model_path: Some(model_path), is_ready: true })
    }

    /// The configured model path, as text.
    pub closed spec fn model_path_spec(&self) -> Option<Seq<char>> {
        match self.model_path {
            Some(p) => Some(p@),
            None => None,
        }
    }

    /// Whether the engine can compute embeddings.
    pub closed spec fn ready(&self) -> bool {
        self.is_ready
    }

    /// Whether the engine can compute embeddings.
    pub fn is_ready(&self) -> (b: bool)
        ensures
            b == self.ready(),
    {
        self.is_ready
    }

    /// The configured model path, if any.
    pub fn model_path(&self) -> (p: Option<&String>)
        ensures
            match p {
                Some(s) => self.model_path_spec() == Some(s@),
                None => self.model_path_spec() is None,
            },
    {
        match &self.model_path {
            Some(p) => Some(p),
            None => None,
        }
    }

    /// The FNV-1a hash of the UTF-8 bytes of `s`.
    pub fn simple_hash(s: &str) -> (h: u64)
        ensures
            h == fnv1a(s.spec_bytes()),
    {
        fnv1a_bytes(s.as_bytes())
    }

    /// The keyword counts from which the embedding of `text` is made: for
    /// each word, its hash picks a component that gets a full unit, and the
    /// hash shifted by eight bits picks one that gets half a unit.
    pub fn keyword_buckets(&self, text: &str) -> (b: KeywordBuckets)
        ensures
            b.primary@.len() == 384,
            b.secondary@.len() == 384,
            forall|k: int| 0 <= k < 384 ==> b.primary@[k] == primary_hits(text_words(text@), k),
            forall|k: int| 0 <= k < 384 ==> b.secondary@[k] == secondary_hits(text_words(text@), k),
    {
        let ws = text_words_of(text);
        count_buckets(&ws)
    }

    /// The overlap of the word sets of two texts: `None` when either has no
    /// words, otherwise the number of distinct words of each and of those
    /// they share.
    pub fn text_overlap(a: &str, b: &str) -> (r: Option<WordOverlap>)
        ensures
            match (r, word_overlap(a@, b@)) {
                (None, None) => true,
                (Some(o), Some((first, second, shared))) => o.first == first && o.second == second
                    && o.shared == shared,
                _ => false,
            },
    {
        let wa = distinct_words(text_words_of(a));
        let wb = distinct_words(text_words_of(b));
        let ghost sa = text_words(a@).to_set();
        let ghost sb = text_words(b@).to_set();
        proof {
            words_view(wa@).unique_seq_to_set();
            words_view(wb@).unique_seq_to_set();
        }
        if wa.len() == 0 || wb.len() == 0 {
            return None;
        }
        let mut shared: usize = 0;
        let mut i: usize = 0;
        while i < wa.len()
            invariant
                i <= wa@.len(),
                shared <= i,
                shared == count_in(words_view(wa@).take(i as int), sb),
                sb == words_view(wb@).to_set(),
            decreases wa@.len() - i,
        {
            let ghost pre = words_view(wa@).take(i as int);
            assert(words_view(wa@).take(i as int + 1).drop_last() =~= pre);
            assert(words_view(wa@).take(i as int + 1).last() == wa@[i as int]@);
            if holds_word(&wb, &wa[i]) {
                shared = shared + 1;
            }
            i = i + 1;
        }
        proof {
            assert(words_view(wa@).take(wa@.len() as int) =~= words_view(wa@));
            lemma_count_in(words_view(wa@), sb);
        }
        Some(WordOverlap { first: wa.len(), second: wb.len(), shared })
    }
}


/// The overlap of two texts does not depend on their order.
pub proof fn lemma_overlap_symmetric(a: Seq<char>, b: Seq<char>)
    ensures
        match (word_overlap(a, b), word_overlap(b, a)) {
            (None, None) => true,
            (Some((f1, s1, c1)), Some((f2, s2, c2))) => f1 == s2 && s1 == f2 && c1 == c2,
            _ => false,
        },
{
    let sa = text_words(a).to_set();
    let sb = text_words(b).to_set();
    assert(sa.intersect(sb) =~= sb.intersect(sa));
}

/// The shared words are at most the words of either text, and the words of
/// both texts together number the words of each less the shared ones.
pub proof fn lemma_overlap_union_size(a: Seq<char>, b: Seq<char>)
    ensures
        word_overlap(a, b) matches Some((first, second, shared)) ==> {
            &&& shared <= first
            &&& shared <= second
            &&& text_words(a).to_set().union(text_words(b).to_set()).len() == first + second - shared
        },
{
    let sa = text_words(a).to_set();
    let sb = text_words(b).to_set();
    vstd::set_lib::lemma_set_intersect_union_lens(sa, sb);
    vstd::set_lib::lemma_len_intersect(sa, sb);
    vstd::set_lib::lemma_len_intersect(sb, sa);
    assert(sb.intersect(sa) =~= sa.intersect(sb));
    assert(sa + sb == sa.union(sb));
}

impl Default for OnnxEngine {
    /// An engine that works without a model file.
    fn default() -> (e: OnnxEngine)
        ensures
            e.model_path_spec() is None,
            e.ready(),
    {
        OnnxEngine { model_path: None, is_ready: true }
    }
}

} // verus!
