//! Character-level helpers: splitting, joining and the precision of a
//! decimal literal.

use vstd::prelude::*;
use vstd::utf8::encode_utf8;

verus! {

/// The pieces of `s` between the occurrences of `sep`, in order; as many
/// pieces as there are separators plus one (the behaviour of `str::split`
/// with a character pattern).
pub open spec fn split_on(s: Seq<char>, sep: char) -> Seq<Seq<char>>
    decreases s.len(),
{
    if s.len() == 0 {
        seq![Seq::<char>::empty()]
    } else {
        let rest = split_on(s.drop_last(), sep);
        if s.last() == sep {
            rest.push(Seq::<char>::empty())
        } else {
            rest.update(rest.len() - 1, rest.last().push(s.last()))
        }
    }
}

/// The pieces joined with `sep` between neighbours.
pub open spec fn join(parts: Seq<Seq<char>>, sep: char) -> Seq<char>
    decreases parts.len(),
{
    if parts.len() == 0 {
        Seq::<char>::empty()
    } else if parts.len() == 1 {
        parts[0]
    } else {
        join(parts.drop_last(), sep).push(sep) + parts.last()
    }
}

/// The characters after the first `'.'` of `s`, or none if there is none.
pub open spec fn after_first_dot(s: Seq<char>) -> Seq<char>
    decreases s.len(),
{
    if s.len() == 0 {
        Seq::<char>::empty()
    } else if s[0] == '.' {
        s.drop_first()
    } else {
        after_first_dot(s.drop_first())
    }
}

/// The number of UTF-8 bytes after the first `'.'` of `s`, 0 without one:
/// the byte length of the string minus the byte position of the dot minus one.
pub open spec fn spec_precision(s: Seq<char>) -> usize {
    encode_utf8(after_first_dot(s)).len() as usize
}

pub proof fn lemma_split_nonempty(s: Seq<char>, sep: char)
    ensures
        split_on(s, sep).len() >= 1,
    decreases s.len(),
{
    if s.len() > 0 {
        lemma_split_nonempty(s.drop_last(), sep);
    }
}

/// Each part, preceded by `sep`.
pub open spec fn prefixed(parts: Seq<Seq<char>>, sep: char) -> Seq<char>
    decreases parts.len(),
{
    if parts.len() == 0 {
        Seq::empty()
    } else {
        prefixed(parts.drop_last(), sep).push(sep) + parts.last()
    }
}

/// Joining the pieces of a split gives the text back.
pub proof fn lemma_join_split(s: Seq<char>, sep: char)
    ensures
        join(split_on(s, sep), sep) == s,
    decreases s.len(),
{
    if s.len() == 0 {
        assert(join(split_on(s, sep), sep) =~= s);
    } else {
        let s1 = s.drop_last();
        let rest = split_on(s1, sep);
        lemma_join_split(s1, sep);
        lemma_split_nonempty(s1, sep);
        if s.last() == sep {
            let p = rest.push(Seq::<char>::empty());
            assert(p.drop_last() =~= rest);
            assert(join(p, sep) =~= s);
        } else {
            let u = rest.update(rest.len() - 1, rest.last().push(s.last()));
            assert(s =~= s1.push(s.last()));
            if rest.len() == 1 {
                assert(join(u, sep) == u[0]);
            } else {
                assert(u.drop_last() =~= rest.drop_last());
                let j = join(rest.drop_last(), sep).push(sep);
                assert(j + rest.last().push(s.last()) =~= (j + rest.last()).push(s.last()));
            }
        }
    }
}

/// A join is its first piece followed by each other piece after a separator.
pub proof fn lemma_join_prefixed(p: Seq<Seq<char>>, sep: char)
    requires
        p.len() >= 1,
    ensures
        join(p, sep) == p[0] + prefixed(p.skip(1), sep),
    decreases p.len(),
{
    if p.len() == 1 {
        assert(p.skip(1) =~= Seq::<Seq<char>>::empty());
        assert(join(p, sep) =~= p[0] + prefixed(p.skip(1), sep));
    } else {
        lemma_join_prefixed(p.drop_last(), sep);
        assert(p.skip(1).drop_last() =~= p.drop_last().skip(1));
        assert(p.skip(1).last() == p.last());
        assert(join(p, sep) =~= p[0] + prefixed(p.skip(1), sep));
    }
}

/// Joining the first `k + 1` pieces is joining the first `k`, a separator
/// and piece `k`.
pub proof fn lemma_join_take(p: Seq<Seq<char>>, sep: char, k: int)
    requires
        1 <= k < p.len(),
    ensures
        join(p.take(k + 1), sep) == join(p.take(k), sep).push(sep) + p[k],
{
    assert(p.take(k + 1).drop_last() =~= p.take(k));
}

/// `s` holds no `c`.
pub open spec fn lacks(s: Seq<char>, c: char) -> bool {
    forall|i: int| 0 <= i < s.len() ==> s[i] != c
}

/// A text without the separator is one piece.
pub proof fn lemma_split_single(s: Seq<char>, sep: char)
    requires
        lacks(s, sep),
    ensures
        split_on(s, sep) == seq![s],
    decreases s.len(),
{
    if s.len() == 0 {
        assert(s =~= Seq::<char>::empty());
        assert(split_on(s, sep) =~= seq![s]);
    } else {
        let s1 = s.drop_last();
        assert(lacks(s1, sep));
        lemma_split_single(s1, sep);
        assert(s.last() != sep);
        assert(s1.push(s.last()) =~= s);
        assert(split_on(s, sep) =~= seq![s]);
    }
}

/// Splitting a text that holds a separator splits it there.
pub proof fn lemma_split_concat(a: Seq<char>, b: Seq<char>, sep: char)
    ensures
        split_on(a + seq![sep] + b, sep) == split_on(a, sep) + split_on(b, sep),
    decreases b.len(),
{
    let s = a + seq![sep] + b;
    lemma_split_nonempty(a, sep);
    lemma_split_nonempty(b, sep);
    if b.len() == 0 {
        assert(s.drop_last() =~= a);
        assert(split_on(b, sep) =~= seq![Seq::<char>::empty()]);
        assert(split_on(s, sep) =~= split_on(a, sep) + split_on(b, sep));
    } else {
        let b1 = b.drop_last();
        lemma_split_concat(a, b1, sep);
        lemma_split_nonempty(b1, sep);
        assert(s.drop_last() =~= a + seq![sep] + b1);
        assert(s.last() == b.last());
        let x = split_on(a, sep);
        let y = split_on(b1, sep);
        if b.last() == sep {
            assert(split_on(s, sep) =~= x + y.push(Seq::<char>::empty()));
        } else {
            let xy = x + y;
            assert(xy.update(xy.len() - 1, xy.last().push(b.last())) =~= x + y.update(
                y.len() - 1,
                y.last().push(b.last()),
            ));
        }
    }
}

/// Splitting pieces joined with a separator that none of them holds gives
/// the pieces back.
pub proof fn lemma_split_join(parts: Seq<Seq<char>>, sep: char)
    requires
        parts.len() >= 1,
        forall|i: int| 0 <= i < parts.len() ==> lacks(#[trigger] parts[i], sep),
    ensures
        split_on(join(parts, sep), sep) == parts,
    decreases parts.len(),
{
    if parts.len() == 1 {
        lemma_split_single(parts[0], sep);
        assert(seq![parts[0]] =~= parts);
    } else {
        let p1 = parts.drop_last();
        assert forall|i: int| 0 <= i < p1.len() implies lacks(#[trigger] p1[i], sep) by {
            assert(p1[i] == parts[i]);
        }
        lemma_split_join(p1, sep);
        assert(lacks(parts[parts.len() - 1], sep));
        lemma_split_single(parts.last(), sep);
        lemma_split_concat(join(p1, sep), parts.last(), sep);
        assert(join(p1, sep).push(sep) + parts.last() =~= join(p1, sep) + seq![sep] + parts.last());
        assert(p1 + seq![parts.last()] =~= parts);
    }
}

/// Pieces without `c`, joined with a separator other than `c`, hold no `c`.
pub proof fn lemma_join_lacks(parts: Seq<Seq<char>>, sep: char, c: char)
    requires
        c != sep,
        forall|i: int| 0 <= i < parts.len() ==> lacks(#[trigger] parts[i], c),
    ensures
        lacks(join(parts, sep), c),
    decreases parts.len(),
{
    if parts.len() > 1 {
        let p1 = parts.drop_last();
        assert forall|i: int| 0 <= i < p1.len() implies lacks(#[trigger] p1[i], c) by {
            assert(p1[i] == parts[i]);
        }
        lemma_join_lacks(p1, sep, c);
        assert(lacks(parts[parts.len() - 1], c));
    } else if parts.len() == 1 {
        assert(lacks(parts[0], c));
    }
}

/// Splits `s` at every occurrence of `sep`.
pub fn split<'a>(s: &'a str, sep: char) -> (parts: Vec<&'a str>)
    ensures
        parts.deep_view() == split_on(s@, sep),
{
    let n = s.unicode_len();
    let mut parts: Vec<&'a str> = Vec::new();
    let mut start: usize = 0;
    let mut i: usize = 0;
    proof {
        assert(s@.take(0) =~= Seq::<char>::empty());
        assert(parts.deep_view().push(s@.subrange(0, 0)) =~= seq![Seq::<char>::empty()]);
    }
    while i < n
        invariant
            n == s@.len(),
            start <= i <= n,
            split_on(s@.take(i as int), sep) == parts.deep_view().push(
                s@.subrange(start as int, i as int),
            ),
        decreases n - i,
    {
        let c = s.get_char(i);
        let ghost before = parts.deep_view();
        proof {
            assert(s@.take(i + 1).drop_last() =~= s@.take(i as int));
            assert(s@.take(i + 1).last() == c);
        }
        if c == sep {
            let piece = s.substring_char(start, i);
            parts.push(piece);
            start = i + 1;
            proof {
                assert(parts.deep_view() =~= before.push(piece@));
                assert(s@.subrange(start as int, i + 1) =~= Seq::<char>::empty());
            }
        } else {
            proof {
                let rest = before.push(s@.subrange(start as int, i as int));
                assert(rest.last() == s@.subrange(start as int, i as int));
                assert(s@.subrange(start as int, i as int).push(c) =~= s@.subrange(
                    start as int,
                    i + 1,
                ));
                assert(rest.update(rest.len() - 1, rest.last().push(c)) =~= before.push(
                    s@.subrange(start as int, i + 1),
                ));
            }
        }
        i += 1;
    }
    let ghost before = parts.deep_view();
    let last = s.substring_char(start, n);
    parts.push(last);
    proof {
        assert(s@.take(n as int) =~= s@);
        assert(parts.deep_view() =~= before.push(last@));
    }
    parts
}

/// Number of digits after the decimal point of a decimal literal, counted in
/// bytes of its UTF-8 text; 0 when it has no point.
pub fn get_precision(value: &str) -> (precision: usize)
    ensures
        precision == spec_precision(value@),
{
    let n = value.unicode_len();
    let mut i: usize = 0;
    proof {
        assert(value@.skip(0) =~= value@);
    }
    while i < n
        invariant
            n == value@.len(),
            i <= n,
            after_first_dot(value@) == after_first_dot(value@.skip(i as int)),
        decreases n - i,
    {
        proof {
            assert(value@.skip(i as int).drop_first() =~= value@.skip(i + 1));
        }
        if value.get_char(i) == '.' {
            let rest = value.substring_char(i + 1, n);
            proof {
                assert(rest@ =~= value@.skip(i + 1));
            }
            return rest.len();
        }
        i += 1;
    }
    proof {
        assert(value@.skip(n as int) =~= Seq::<char>::empty());
    }
    0
}

proof fn lemma_encode_utf8_concat(a: Seq<char>, b: Seq<char>)
    ensures
        encode_utf8(a + b) == encode_utf8(a) + encode_utf8(b),
    decreases a.len(),
{
    if a.len() == 0 {
        assert(a + b =~= b);
        assert(encode_utf8(a) + encode_utf8(b) =~= encode_utf8(b));
    } else {
        lemma_encode_utf8_concat(a.drop_first(), b);
        assert((a + b).drop_first() =~= a.drop_first() + b);
        assert((a + b)[0] == a[0]);
        assert(encode_utf8(a + b) =~= encode_utf8(a) + encode_utf8(b));
    }
}

proof fn lemma_after_first_dot_shorter(s: Seq<char>)
    ensures
        encode_utf8(after_first_dot(s)).len() <= encode_utf8(s).len(),
    decreases s.len(),
{
    if s.len() > 0 {
        lemma_after_first_dot_shorter(s.drop_first());
    }
}

proof fn lemma_after_first_dot_concat(s: Seq<char>, u: Seq<char>)
    ensures
        s.contains('.') ==> after_first_dot(s + u) == after_first_dot(s) + u,
        !s.contains('.') ==> after_first_dot(s + u) == after_first_dot(u),
    decreases s.len(),
{
    if s.len() == 0 {
        assert(s + u =~= u);
    } else {
        let s1 = s.drop_first();
        lemma_after_first_dot_concat(s1, u);
        assert((s + u).drop_first() =~= s1 + u);
        assert((s + u)[0] == s[0]);
        if s[0] == '.' {
            assert(s.contains('.'));
        } else {
            assert(s.contains('.') == s1.contains('.')) by {
                if s.contains('.') {
                    let i = choose|i: int| 0 <= i < s.len() && s[i] == '.';
                    assert(s1[i - 1] == '.');
                }
                if s1.contains('.') {
                    let i = choose|i: int| 0 <= i < s1.len() && s1[i] == '.';
                    assert(s[i + 1] == '.');
                }
            }
        }
    }
}

/// The precision of a text followed by more text: when the first text has
/// a point, its precision grows by the byte length of what follows; when it
/// has none, the precision is that of what follows.  (The byte length of the
/// whole text fits in `usize`.)
pub proof fn law_precision_concat(s: Seq<char>, u: Seq<char>)
    requires
        encode_utf8(s + u).len() <= usize::MAX,
    ensures
        s.contains('.') ==> spec_precision(s + u) == spec_precision(s) + encode_utf8(u).len(),
        !s.contains('.') ==> spec_precision(s + u) == spec_precision(u),
{
    lemma_after_first_dot_concat(s, u);
    lemma_encode_utf8_concat(s, u);
    lemma_after_first_dot_shorter(s);
    if s.contains('.') {
        lemma_encode_utf8_concat(after_first_dot(s), u);
    }
}

} // verus!
