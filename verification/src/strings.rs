//! Character-sequence utilities shared by the codec: splitting and joining
//! URL paths on `/`, first-match lookup in key/value pair lists, and the
//! bridge between ASCII byte sequences and character sequences.

use vstd::prelude::*;
use vstd::utf8::{decode_utf8, encode_utf8, encode_utf8_decode_utf8, is_ascii_chars,
    is_ascii_chars_encode_utf8, valid_utf8};
use vstd::string::StrSliceExecFns;
use vstd::string::StringExecFns;

verus! {

// ---------------------------------------------------------------------------
// Splitting a character sequence on a separator
// ---------------------------------------------------------------------------

/// Holds when no character of `s` is the separator.
pub open spec fn sep_free(s: Seq<char>, sep: char) -> bool {
    forall|i: int| 0 <= i < s.len() ==> s[i] != sep
}

/// The pieces of `s` between occurrences of `sep`, in order. Splitting the
/// empty sequence gives one empty piece, so the result is never empty.
pub open spec fn split_seq(s: Seq<char>, sep: char) -> Seq<Seq<char>>
    decreases s.len(),
{
    if s.len() == 0 {
        seq![Seq::<char>::empty()]
    } else if s[0] == sep {
        seq![Seq::<char>::empty()] + split_seq(s.drop_first(), sep)
    } else {
        let rest = split_seq(s.drop_first(), sep);
        seq![seq![s[0]] + rest[0]] + rest.drop_first()
    }
}

/// The pieces joined back together with `sep` between consecutive pieces.
pub open spec fn join_seq(segs: Seq<Seq<char>>, sep: char) -> Seq<char>
    decreases segs.len(),
{
    if segs.len() == 0 {
        Seq::<char>::empty()
    } else if segs.len() == 1 {
        segs[0]
    } else {
        segs[0] + seq![sep] + join_seq(segs.drop_first(), sep)
    }
}

pub proof fn lemma_split_len(s: Seq<char>, sep: char)
    ensures
        split_seq(s, sep).len() >= 1,
    decreases s.len(),
{
    if s.len() == 0 {
    } else {
        lemma_split_len(s.drop_first(), sep);
    }
}

/// Every piece produced by `split_seq` is free of the separator.
pub proof fn lemma_split_sep_free(s: Seq<char>, sep: char)
    ensures
        forall|j: int|
            0 <= j < split_seq(s, sep).len() ==> sep_free(#[trigger] split_seq(s, sep)[j], sep),
    decreases s.len(),
{
    if s.len() == 0 {
    } else {
        lemma_split_sep_free(s.drop_first(), sep);
        lemma_split_len(s.drop_first(), sep);
        let rest = split_seq(s.drop_first(), sep);
        if s[0] == sep {
            assert(forall|j: int|
                0 <= j < split_seq(s, sep).len() ==> sep_free(
                    #[trigger] split_seq(s, sep)[j],
                    sep,
                ));
        } else {
            assert(split_seq(s, sep)[0] == seq![s[0]] + rest[0]);
            assert(sep_free(seq![s[0]] + rest[0], sep));
            assert(forall|j: int|
                1 <= j < split_seq(s, sep).len() ==> split_seq(s, sep)[j] == rest[j]);
        }
    }
}

/// Splitting `x + t` where `x` is separator-free prepends `x` to the first
/// piece of the split of `t`.
pub proof fn lemma_split_prepend(x: Seq<char>, t: Seq<char>, sep: char)
    requires
        sep_free(x, sep),
    ensures
        split_seq(x + t, sep) == seq![x + split_seq(t, sep)[0]] + split_seq(t, sep).drop_first(),
    decreases x.len(),
{
    lemma_split_len(t, sep);
    if x.len() == 0 {
        assert(x + t =~= t);
        assert(x + split_seq(t, sep)[0] =~= split_seq(t, sep)[0]);
        if t.len() == 0 {
            assert(split_seq(t, sep) =~= seq![Seq::<char>::empty()]);
            assert(split_seq(x + t, sep) =~= seq![x + split_seq(t, sep)[0]] + split_seq(
                t,
                sep,
            ).drop_first());
        } else {
            assert(split_seq(x + t, sep) =~= seq![x + split_seq(t, sep)[0]] + split_seq(
                t,
                sep,
            ).drop_first());
        }
    } else {
        let u = x + t;
        assert(u.len() > 0);
        assert(u[0] == x[0]);
        assert(u[0] != sep);
        assert(u.drop_first() =~= x.drop_first() + t);
        assert(sep_free(x.drop_first(), sep));
        lemma_split_prepend(x.drop_first(), t, sep);
        let rest = split_seq(x.drop_first() + t, sep);
        lemma_split_len(x.drop_first() + t, sep);
        assert(rest[0] == x.drop_first() + split_seq(t, sep)[0]);
        assert(rest.drop_first() =~= split_seq(t, sep).drop_first());
        assert(seq![x[0]] + rest[0] =~= x + split_seq(t, sep)[0]);
        assert(split_seq(u, sep) =~= seq![seq![u[0]] + rest[0]] + rest.drop_first());
        assert(split_seq(x + t, sep) =~= seq![x + split_seq(t, sep)[0]] + split_seq(
            t,
            sep,
        ).drop_first());
    }
}

/// Joining separator-free pieces and splitting again restores the pieces.
pub proof fn lemma_split_join(segs: Seq<Seq<char>>, sep: char)
    requires
        segs.len() >= 1,
        forall|j: int| 0 <= j < segs.len() ==> sep_free(#[trigger] segs[j], sep),
    ensures
        split_seq(join_seq(segs, sep), sep) == segs,
    decreases segs.len(),
{
    if segs.len() == 1 {
        let x = segs[0];
        lemma_split_prepend(x, Seq::<char>::empty(), sep);
        assert(x + Seq::<char>::empty() =~= x);
        assert(join_seq(segs, sep) == x);
        assert(split_seq(Seq::<char>::empty(), sep) == seq![Seq::<char>::empty()]);
        assert(x + split_seq(Seq::<char>::empty(), sep)[0] =~= x);
        assert(split_seq(x, sep) =~= seq![x]);
        assert(split_seq(join_seq(segs, sep), sep) =~= segs);
    } else {
        let x = segs[0];
        let rest = segs.drop_first();
        lemma_split_join(rest, sep);
        let t = seq![sep] + join_seq(rest, sep);
        assert(join_seq(segs, sep) =~= x + t);
        assert(t[0] == sep);
        assert(t.drop_first() =~= join_seq(rest, sep));
        lemma_split_len(join_seq(rest, sep), sep);
        assert(split_seq(t, sep) =~= seq![Seq::<char>::empty()] + split_seq(
            join_seq(rest, sep),
            sep,
        ));
        lemma_split_prepend(x, t, sep);
        assert(split_seq(t, sep)[0] == Seq::<char>::empty());
        assert(x + split_seq(t, sep)[0] =~= x);
        assert(split_seq(t, sep).drop_first() =~= rest);
        assert(split_seq(x + t, sep) =~= seq![x] + rest);
        assert(seq![x] + rest =~= segs);
    }
}

/// Splits a string into the pieces between `/` characters.
pub fn split_slashes(s: &str) -> (r: Vec<String>)
    ensures
        r.deep_view() == split_seq(s@, '/'),
{
    proof {
        reveal_strlit("/");
    }
    let n: usize = s.unicode_len();
    let mut r: Vec<String> = Vec::new();
    let mut start: usize = 0;
    let mut i: usize = 0;
    proof {
        assert(s@.skip(0) =~= s@);
        assert(r.deep_view() =~= Seq::<Seq<char>>::empty());
        assert(r.deep_view() + split_seq(s@, '/') =~= split_seq(s@, '/'));
        assert(sep_free(s@.subrange(0, 0), '/'));
    }
    while i < n
        invariant
            0 <= start <= i <= n,
            n == s@.len(),
            sep_free(s@.subrange(start as int, i as int), '/'),
            split_seq(s@, '/') == r.deep_view() + split_seq(s@.skip(start as int), '/'),
        decreases n - i,
    {
        let c = s.get_char(i);
        if c == '/' {
            let piece = s.substring_char(start, i).to_owned();
            proof {
                let x = s@.subrange(start as int, i as int);
                let t = s@.skip(i as int);
                assert(s@.skip(start as int) =~= x + t);
                assert(t[0] == '/');
                assert(t.drop_first() =~= s@.skip(i as int + 1));
                lemma_split_len(t.drop_first(), '/');
                assert(split_seq(t, '/') =~= seq![Seq::<char>::empty()] + split_seq(
                    s@.skip(i as int + 1),
                    '/',
                ));
                lemma_split_prepend(x, t, '/');
                assert(x + split_seq(t, '/')[0] =~= x);
                assert(split_seq(t, '/').drop_first() =~= split_seq(s@.skip(i as int + 1), '/'));
                assert(split_seq(s@.skip(start as int), '/') =~= seq![x] + split_seq(
                    s@.skip(i as int + 1),
                    '/',
                ));
                assert((r.deep_view() + seq![x]) + split_seq(s@.skip(i as int + 1), '/')
                    =~= r.deep_view() + split_seq(s@.skip(start as int), '/'));
            }
            let ghost old_r = r.deep_view();
            r.push(piece);
            proof {
                assert(r.deep_view() =~= old_r + seq![s@.subrange(start as int, i as int)]);
                assert(sep_free(s@.subrange(i as int + 1, i as int + 1), '/'));
            }
            start = i + 1;
        } else {
            proof {
                assert(s@.subrange(start as int, i as int + 1) =~= s@.subrange(
                    start as int,
                    i as int,
                ) + seq![s@[i as int]]);
            }
        }
        i += 1;
    }
    let piece = s.substring_char(start, n).to_owned();
    proof {
        let x = s@.subrange(start as int, n as int);
        assert(s@.skip(start as int) =~= x);
        lemma_split_prepend(x, Seq::<char>::empty(), '/');
        assert(x + Seq::<char>::empty() =~= x);
        assert(x + split_seq(Seq::<char>::empty(), '/')[0] =~= x);
        assert(split_seq(x, '/') =~= seq![x]);
    }
    let ghost old_r = r.deep_view();
    r.push(piece);
    proof {
        assert(r.deep_view() =~= old_r + seq![s@.subrange(start as int, n as int)]);
        assert(r.deep_view() =~= split_seq(s@, '/'));
    }
    r
}

/// Appending one more piece appends one separator and the piece.
pub proof fn lemma_join_push(segs: Seq<Seq<char>>, x: Seq<char>, sep: char)
    requires
        segs.len() >= 1,
    ensures
        join_seq(segs.push(x), sep) == join_seq(segs, sep) + seq![sep] + x,
    decreases segs.len(),
{
    if segs.len() == 1 {
        assert(segs.push(x).drop_first() =~= seq![x]);
        assert(join_seq(seq![x], sep) == x);
        assert(segs.push(x)[0] == segs[0]);
        assert(join_seq(segs.push(x), sep) =~= join_seq(segs, sep) + seq![sep] + x);
    } else {
        lemma_join_push(segs.drop_first(), x, sep);
        assert(segs.push(x).drop_first() =~= segs.drop_first().push(x));
        assert(segs.push(x)[0] == segs[0]);
        assert(join_seq(segs.push(x), sep) =~= join_seq(segs, sep) + seq![sep] + x);
    }
}

/// Joins the pieces with `/` between consecutive pieces.
pub fn join_slashes(segs: &Vec<String>) -> (r: String)
    requires
        segs.len() >= 1,
    ensures
        r@ == join_seq(segs.deep_view(), '/'),
{
    proof {
        reveal_strlit("/");
        assert("/"@ =~= seq!['/']);
    }
    let mut r: String = String::new();
    r.append(segs[0].as_str());
    proof {
        assert(segs.deep_view().take(1) =~= seq![segs.deep_view()[0]]);
        assert(r@ =~= join_seq(segs.deep_view().take(1), '/'));
    }
    let mut i: usize = 1;
    while i < segs.len()
        invariant
            1 <= i <= segs.len(),
            "/"@ =~= seq!['/'],
            r@ == join_seq(segs.deep_view().take(i as int), '/'),
        decreases segs.len() - i,
    {
        proof {
            lemma_join_push(segs.deep_view().take(i as int), segs.deep_view()[i as int], '/');
            assert(segs.deep_view().take(i as int).push(segs.deep_view()[i as int])
                =~= segs.deep_view().take(i as int + 1));
        }
        r.append("/");
        r.append(segs[i].as_str());
        i += 1;
    }
    proof {
        assert(segs.deep_view().take(segs.len() as int) =~= segs.deep_view());
    }
    r
}

// ---------------------------------------------------------------------------
// First-match lookup in key/value pair lists
// ---------------------------------------------------------------------------

/// The value of the first pair whose key is `k`, if any.
pub open spec fn lookup(m: Seq<(Seq<char>, Seq<char>)>, k: Seq<char>) -> Option<Seq<char>>
    decreases m.len(),
{
    if m.len() == 0 {
        None
    } else if m[0].0 == k {
        Some(m[0].1)
    } else {
        lookup(m.drop_first(), k)
    }
}

/// Pairs each key with the value at the same position.
pub open spec fn zip_pairs(ks: Seq<Seq<char>>, vs: Seq<Seq<char>>) -> Seq<(Seq<char>, Seq<char>)> {
    Seq::new(ks.len(), |i: int| (ks[i], if 0 <= i < vs.len() { vs[i] } else { Seq::empty() }))
}

/// Holds when no two elements are equal.
pub open spec fn distinct_seqs(ks: Seq<Seq<char>>) -> bool {
    forall|i: int, j: int| 0 <= i < j < ks.len() ==> ks[i] != ks[j]
}

/// In a zip of distinct keys, looking a key up returns the value that was
/// zipped with it.
pub proof fn lemma_lookup_zip(ks: Seq<Seq<char>>, vs: Seq<Seq<char>>, j: int)
    requires
        ks.len() == vs.len(),
        distinct_seqs(ks),
        0 <= j < ks.len(),
    ensures
        lookup(zip_pairs(ks, vs), ks[j]) == Some(vs[j]),
    decreases j,
{
    let m = zip_pairs(ks, vs);
    if j == 0 {
        assert(m[0] == (ks[0], vs[0]));
    } else {
        assert(m[0].0 == ks[0]);
        assert(ks[0] != ks[j]);
        lemma_lookup_zip(ks.drop_first(), vs.drop_first(), j - 1);
        assert(m.drop_first() =~= zip_pairs(ks.drop_first(), vs.drop_first()));
        assert(ks.drop_first()[j - 1] == ks[j]);
        assert(vs.drop_first()[j - 1] == vs[j]);
    }
}

/// A lookup in a concatenation tries the first list first.
pub proof fn lemma_lookup_append(
    a: Seq<(Seq<char>, Seq<char>)>,
    b: Seq<(Seq<char>, Seq<char>)>,
    k: Seq<char>,
)
    ensures
        lookup(a + b, k) == (match lookup(a, k) {
            Some(v) => Some(v),
            None => lookup(b, k),
        }),
    decreases a.len(),
{
    if a.len() == 0 {
        assert(a + b =~= b);
    } else {
        assert((a + b)[0] == a[0]);
        assert((a + b).drop_first() =~= a.drop_first() + b);
        lemma_lookup_append(a.drop_first(), b, k);
    }
}

/// Finds the value of the first pair whose key equals `key`.
pub fn lookup_pair(pairs: &Vec<(String, String)>, key: &String) -> (r: Option<String>)
    ensures
        match r {
            Some(v) => lookup(pairs.deep_view(), key@) == Some(v@),
            None => lookup(pairs.deep_view(), key@) is None,
        },
{
    let ghost m = pairs.deep_view();
    proof {
        assert(m.skip(0) =~= m);
    }
    let mut i: usize = 0;
    while i < pairs.len()
        invariant
            0 <= i <= pairs.len(),
            m == pairs.deep_view(),
            lookup(m, key@) == lookup(m.skip(i as int), key@),
        decreases pairs.len() - i,
    {
        proof {
            assert(m[i as int] == pairs@[i as int].deep_view());
            assert(m.skip(i as int)[0] == m[i as int]);
            assert(m.skip(i as int).drop_first() =~= m.skip(i as int + 1));
        }
        if pairs[i].0 == *key {
            return Some(pairs[i].1.clone());
        }
        i += 1;
    }
    proof {
        assert(m.skip(pairs.len() as int) =~= Seq::<(Seq<char>, Seq<char>)>::empty());
    }
    None
}

/// Reports whether all strings in the list are distinct.
pub fn all_distinct(v: &Vec<String>) -> (r: bool)
    ensures
        r == distinct_seqs(v.deep_view()),
{
    let ghost ks = v.deep_view();
    let mut i: usize = 0;
    while i < v.len()
        invariant
            0 <= i <= v.len(),
            ks == v.deep_view(),
            forall|p: int, q: int| 0 <= p < q < i ==> ks[p] != ks[q],
        decreases v.len() - i,
    {
        let mut j: usize = 0;
        while j < i
            invariant
                0 <= j <= i < v.len(),
                ks == v.deep_view(),
                forall|p: int, q: int| 0 <= p < q < i ==> ks[p] != ks[q],
                forall|p: int| 0 <= p < j ==> ks[p] != ks[i as int],
            decreases i - j,
        {
            proof {
                assert(ks[j as int] == v@[j as int]@);
                assert(ks[i as int] == v@[i as int]@);
            }
            if v[j] == v[i] {
                proof {
                    assert(ks[j as int] == ks[i as int]);
                    assert(!distinct_seqs(ks));
                }
                return false;
            }
            j += 1;
        }
        i += 1;
    }
    true
}

// ---------------------------------------------------------------------------
// ASCII bytes as characters
// ---------------------------------------------------------------------------

/// Holds when every byte is below 128.
pub open spec fn all_ascii_bytes(bs: Seq<u8>) -> bool {
    forall|i: int| 0 <= i < bs.len() ==> bs[i] < 128
}

/// The characters whose code points are the given bytes.
pub open spec fn ascii_chars_of(bs: Seq<u8>) -> Seq<char> {
    Seq::new(bs.len(), |i: int| bs[i] as char)
}

/// An ASCII byte sequence is valid UTF-8 and encodes exactly the characters
/// with the same code points, one byte per character.
pub proof fn lemma_ascii_bridge(bs: Seq<u8>)
    requires
        all_ascii_bytes(bs),
    ensures
        is_ascii_chars(ascii_chars_of(bs)),
        encode_utf8(ascii_chars_of(bs)) == bs,
        valid_utf8(bs),
        decode_utf8(bs) == ascii_chars_of(bs),
{
    let cs = ascii_chars_of(bs);
    assert forall|i: int| 0 <= i < cs.len() implies '\0' <= #[trigger] cs[i] <= '\u{7f}' by {
        assert(bs[i] < 128);
    }
    is_ascii_chars_encode_utf8(cs);
    assert(encode_utf8(cs) =~= bs);
    vstd::utf8::encode_utf8_valid_utf8(cs);
    encode_utf8_decode_utf8(cs);
}

} // verus!

