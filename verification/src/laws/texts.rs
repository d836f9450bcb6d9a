//! What trimming, splitting, joining and reading of texts do.
use vstd::prelude::*;

use crate::text;

verus! {

/// Whether a text is white space throughout.
pub open spec fn is_blank_text(s: Seq<char>) -> bool {
    forall|i: int| 0 <= i < s.len() ==> text::is_white_space(#[trigger] s[i])
}

proof fn lemma_trim_front(s: Seq<char>)
    ensures
        text::trim_front(s).len() <= s.len(),
        text::trim_front(s) == s.skip(s.len() - text::trim_front(s).len()),
        is_blank_text(s.take(s.len() - text::trim_front(s).len())),
        text::trim_front(s).len() > 0 ==> !text::is_white_space(text::trim_front(s)[0]),
    decreases s.len(),
{
    if s.len() > 0 && text::is_white_space(s[0]) {
        let rest = s.drop_first();
        lemma_trim_front(rest);
        let n = s.len() - text::trim_front(s).len();
        assert(rest.skip(n - 1) =~= s.skip(n));
        assert forall|i: int| 0 <= i < n implies text::is_white_space(#[trigger] s.take(n)[i]) by {
            if i > 0 {
                assert(rest.take(n - 1)[i - 1] == s[i]);
            }
        }
    } else {
        assert(s.skip(0) =~= s);
    }
}

proof fn lemma_trim_back(s: Seq<char>)
    ensures
        text::trim_back(s).len() <= s.len(),
        text::trim_back(s) == s.take(text::trim_back(s).len() as int),
        is_blank_text(s.skip(text::trim_back(s).len() as int)),
        text::trim_back(s).len() > 0 ==> !text::is_white_space(text::trim_back(s).last()),
    decreases s.len(),
{
    if s.len() > 0 && text::is_white_space(s.last()) {
        let rest = s.drop_last();
        lemma_trim_back(rest);
        let n = text::trim_back(s).len() as int;
        assert(rest.take(n) =~= s.take(n));
        assert forall|i: int| 0 <= i < s.len() - n implies text::is_white_space(
            #[trigger] s.skip(n)[i],
        ) by {
            if i < s.len() - n - 1 {
                assert(rest.skip(n)[i] == s[n + i]);
            }
        }
    } else {
        assert(s.take(s.len() as int) =~= s);
    }
}

/// Trimming takes nothing off a text but white space at its ends, and leaves none there.
pub proof fn lemma_trimming(s: Seq<char>)
    ensures
        exists|a: Seq<char>, b: Seq<char>|
            is_blank_text(a) && is_blank_text(b) && s == #[trigger] (a + text::trimmed(s) + b),
        text::trimmed(s).len() > 0 ==> !text::is_white_space(text::trimmed(s)[0])
            && !text::is_white_space(text::trimmed(s).last()),
        text::trimmed(s).len() == 0 <==> is_blank_text(s),
{
    lemma_trim_front(s);
    let front = text::trim_front(s);
    lemma_trim_back(front);
    let t = text::trimmed(s);
    let n = s.len() - front.len();
    let a = s.take(n);
    let b = front.skip(t.len() as int);
    assert(s =~= a + t + b);
    assert(is_blank_text(a) && is_blank_text(b) && s == a + t + b);
    if t.len() > 0 {
        assert(t[0] == front[0]);
        assert(s[n] == t[0]);
    } else {
        assert forall|i: int| 0 <= i < s.len() implies text::is_white_space(#[trigger] s[i]) by {
            if i < n {
                assert(a[i] == s[i]);
            } else {
                assert(b[i - n] == s[i]);
            }
        }
    }
}

/// The characters that are white space, by their code points.
pub proof fn lemma_white_space(c: char)
    ensures
        text::is_white_space(c) <==> ({
            let n = c as int;
            ||| 9 <= n <= 13
            ||| n == 32
            ||| n == 133
            ||| n == 160
            ||| n == 5760
            ||| 8192 <= n <= 8202
            ||| n == 8232
            ||| n == 8233
            ||| n == 8239
            ||| n == 8287
            ||| n == 12288
        }),
{
}

/// Joining puts the first part and a separator in front.
pub proof fn lemma_join_front(first: Seq<char>, rest: Seq<Seq<char>>, sep: Seq<char>)
    requires
        rest.len() > 0,
    ensures
        text::join_text(seq![first] + rest, sep) == first + sep + text::join_text(rest, sep),
    decreases rest.len(),
{
    let all = seq![first] + rest;
    assert(all.drop_last() =~= seq![first] + rest.drop_last());
    if rest.len() == 1 {
        assert(all.drop_last() =~= seq![first]);
        assert(text::join_text(seq![first], sep) == first);
        assert(text::join_text(all, sep) =~= first + sep + text::join_text(rest, sep));
    } else {
        lemma_join_front(first, rest.drop_last(), sep);
        assert(text::join_text(all, sep) =~= first + sep + text::join_text(rest, sep));
    }
}

/// Splitting at a separator loses nothing: the pieces, joined by it, are the text, and none of
/// them holds it.
pub proof fn lemma_splitting(s: Seq<char>, sep: char)
    ensures
        text::join_text(text::split_text(s, sep), seq![sep]) == s,
        text::split_text(s, sep).len() > 0,
        forall|i: int|
            0 <= i < text::split_text(s, sep).len() ==> !(#[trigger] text::split_text(
                s,
                sep,
            )[i]).contains(sep),
    decreases s.len(),
{
    text::lemma_piece_len(s, sep);
    let n = text::piece_len(s, sep) as int;
    let pieces = text::split_text(s, sep);
    if n >= s.len() {
        assert(pieces =~= seq![s]);
        assert(text::join_text(pieces, seq![sep]) == s);
    } else {
        let rest = s.skip(n + 1);
        lemma_splitting(rest, sep);
        lemma_join_front(s.take(n), text::split_text(rest, sep), seq![sep]);
        assert(s.take(n) + seq![sep] + rest =~= s);
        assert forall|i: int| 0 <= i < pieces.len() implies !(#[trigger] pieces[i]).contains(
            sep,
        ) by {
            if i == 0 {
                assert(pieces[0] == s.take(n));
                if s.take(n).contains(sep) {
                    let k = s.take(n).index_of(sep);
                    assert(s[k] == sep);
                }
            } else {
                assert(pieces[i] == text::split_text(rest, sep)[i - 1]);
            }
        }
    }
}

/// The pieces of a text come out one by one: each is trimmed, and left out where nothing is left
/// of it.
pub proof fn lemma_pieces_are_trimmed(a: Seq<Seq<char>>, b: Seq<Seq<char>>, piece: Seq<char>)
    ensures
        text::trimmed_pieces(a + b) == text::trimmed_pieces(a) + text::trimmed_pieces(b),
        text::trimmed_pieces(seq![piece]) == if text::trimmed(piece).len() == 0 {
            Seq::empty()
        } else {
            seq![text::trimmed(piece)]
        },
    decreases a.len(),
{
    reveal_with_fuel(text::trimmed_pieces, 2);
    assert(seq![piece].drop_first() =~= Seq::<Seq<char>>::empty());
    assert(text::trimmed_pieces(seq![piece]) =~= if text::trimmed(piece).len() == 0 {
        Seq::empty()
    } else {
        seq![text::trimmed(piece)]
    });
    if a.len() == 0 {
        assert(a + b =~= b);
        assert(text::trimmed_pieces(a) + text::trimmed_pieces(b) =~= text::trimmed_pieces(b));
    } else {
        lemma_pieces_are_trimmed(a.drop_first(), b, piece);
        assert((a + b).drop_first() =~= a.drop_first() + b);
        assert(text::trimmed_pieces(a + b) =~= text::trimmed_pieces(a) + text::trimmed_pieces(b));
    }
}

/// Lower case changes letters from `A` to `Z` and nothing else, and lower case stays as it is.
pub proof fn lemma_lower_case(s: Seq<char>)
    ensures
        text::lower_text(s).len() == s.len(),
        forall|i: int|
            0 <= i < s.len() ==> {
                let c = #[trigger] s[i];
                let l = text::lower_text(s)[i];
                if 'A' <= c <= 'Z' {
                    l as int == c as int + 32
                } else {
                    l == c
                }
            },
        text::lower_text(text::lower_text(s)) == text::lower_text(s),
{
    assert(text::lower_text(text::lower_text(s)) =~= text::lower_text(s));
}

/// Leading and trailing characters are taken off, and no others: nothing of them is left there.
pub proof fn lemma_stripping(s: Seq<char>, c: char)
    ensures
        ({
            let l = text::without_leading(s, c);
            &&& l.len() <= s.len()
            &&& l == s.skip(s.len() - l.len())
            &&& forall|i: int| 0 <= i < s.len() - l.len() ==> s[i] == c
            &&& l.len() > 0 ==> l[0] != c
        }),
        ({
            let t = text::without_trailing(s, c);
            &&& t.len() <= s.len()
            &&& t == s.take(t.len() as int)
            &&& forall|i: int| t.len() <= i < s.len() ==> s[i] == c
            &&& t.len() > 0 ==> t.last() != c
        }),
    decreases s.len(),
{
    if s.len() > 0 {
        if s[0] == c {
            let rest = s.drop_first();
            lemma_stripping(rest, c);
            let l = text::without_leading(s, c);
            assert(rest.skip(rest.len() - l.len()) =~= s.skip(s.len() - l.len()));
            assert forall|i: int| 0 <= i < s.len() - l.len() implies s[i] == c by {
                if i > 0 {
                    assert(rest[i - 1] == s[i]);
                }
            }
        } else {
            assert(s.skip(0) =~= s);
        }
        if s.last() == c {
            let rest = s.drop_last();
            lemma_stripping(rest, c);
            let t = text::without_trailing(s, c);
            assert(rest.take(t.len() as int) =~= s.take(t.len() as int));
            assert forall|i: int| t.len() <= i < s.len() implies s[i] == c by {
                if i < rest.len() {
                    assert(rest[i] == s[i]);
                }
            }
        } else {
            assert(s.take(s.len() as int) =~= s);
        }
    } else {
        assert(s.skip(0) =~= s);
        assert(s.take(0) =~= s);
    }
}

} // verus!
