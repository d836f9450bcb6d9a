//! Text as sequences of characters.
//!
//! Every function here is stated over `Seq<char>`, the view of `str` and `String`.
use vstd::prelude::*;
use vstd::string::*;

verus! {

/// `String::push` appends one character.
pub assume_specification[ String::push ](s: &mut String, c: char)
    ensures
        final(s)@ == old(s)@.push(c),
;

/// `std::str::from_utf8` accepts exactly the valid UTF-8 byte sequences, and the text that
/// it returns has these bytes as its encoding.
#[verifier::external_body]
fn utf8_text(bytes: &[u8]) -> (r: Option<String>)
    ensures
        r is Some <==> vstd::utf8::valid_utf8(bytes@),
        r matches Some(s) ==> vstd::utf8::encode_utf8(s@) == bytes@,
{
    std::str::from_utf8(bytes).ok().map(|s| s.to_string())
}

/// The text of some bytes, where they are UTF-8.
pub fn read_utf8(bytes: &[u8]) -> (r: Option<String>)
    ensures
        r is Some <==> vstd::utf8::valid_utf8(bytes@),
        r matches Some(s) ==> s@ == vstd::utf8::decode_utf8(bytes@)
            && vstd::utf8::encode_utf8(s@) == bytes@,
{
    broadcast use vstd::utf8::group_utf8_lib;

    match utf8_text(bytes) {
        Some(s) => {
            assert(s@ == vstd::utf8::decode_utf8(vstd::utf8::encode_utf8(s@)));
            Some(s)
        },
        None => None,
    }
}

/// The views of a sequence of strings.
pub open spec fn texts(parts: Seq<String>) -> Seq<Seq<char>> {
    Seq::new(parts.len(), |i: int| parts[i]@)
}

/// The view of an optional string.
pub open spec fn opt_text(s: Option<String>) -> Option<Seq<char>> {
    match s {
        Some(t) => Some(t@),
        None => None,
    }
}

/// A copy of an optional string.
pub fn clone_opt(s: &Option<String>) -> (r: Option<String>)
    ensures
        opt_text(r) == opt_text(*s),
        r == *s,
{
    match s {
        Some(t) => Some(t.clone()),
        None => None,
    }
}

/// The characters of a text.
pub fn to_chars(s: &str) -> (r: Vec<char>)
    ensures
        r@ == s@,
{
    let mut out: Vec<char> = Vec::new();
    for c in it: s.chars()
        invariant
            out@ =~= it.seq().take(it.index() as int),
    {
        out.push(c);
    }
    out
}

/// The text of a range of characters.
pub fn from_range(chars: &Vec<char>, start: usize, end: usize) -> (r: String)
    requires
        start <= end <= chars@.len(),
    ensures
        r@ == chars@.subrange(start as int, end as int),
{
    let mut out = String::new();
    let mut i: usize = start;
    while i < end
        invariant
            start <= i <= end <= chars@.len(),
            out@ =~= chars@.subrange(start as int, i as int),
        decreases end - i,
    {
        out.push(chars[i]);
        i = i + 1;
    }
    out
}

/// Whether two texts are the same.
pub fn same_text(a: &str, b: &str) -> (r: bool)
    ensures
        r == (a@ == b@),
{
    a.to_owned() == b.to_owned()
}

/// Whether a text has no characters.
pub fn is_empty(s: &str) -> (r: bool)
    ensures
        r == (s@.len() == 0),
{
    let r = same_text(s, "");
    proof {
        reveal_strlit("");
        assert(s@.len() == 0 ==> s@ =~= ""@);
    }
    r
}

/// The characters with the Unicode property `White_Space`.
pub open spec fn is_white_space(c: char) -> bool {
    ||| '\u{9}' <= c <= '\u{d}'
    ||| c == ' '
    ||| c == '\u{85}'
    ||| c == '\u{a0}'
    ||| c == '\u{1680}'
    ||| '\u{2000}' <= c <= '\u{200a}'
    ||| c == '\u{2028}'
    ||| c == '\u{2029}'
    ||| c == '\u{202f}'
    ||| c == '\u{205f}'
    ||| c == '\u{3000}'
}

fn white_space(c: char) -> (r: bool)
    ensures
        r == is_white_space(c),
{
    ('\u{9}' <= c && c <= '\u{d}') || c == ' ' || c == '\u{85}' || c == '\u{a0}' || c == '\u{1680}'
        || ('\u{2000}' <= c && c <= '\u{200a}') || c == '\u{2028}' || c == '\u{2029}'
        || c == '\u{202f}' || c == '\u{205f}' || c == '\u{3000}'
}

/// A text without its leading white space.
pub open spec fn trim_front(s: Seq<char>) -> Seq<char>
    decreases s.len(),
{
    if s.len() > 0 && is_white_space(s[0]) {
        trim_front(s.drop_first())
    } else {
        s
    }
}

/// A text without its trailing white space.
pub open spec fn trim_back(s: Seq<char>) -> Seq<char>
    decreases s.len(),
{
    if s.len() > 0 && is_white_space(s.last()) {
        trim_back(s.drop_last())
    } else {
        s
    }
}

/// A text without its leading and trailing white space.
pub open spec fn trimmed(s: Seq<char>) -> Seq<char> {
    trim_back(trim_front(s))
}

/// The range of characters that trimming keeps.
fn trim_range(chars: &Vec<char>, from: usize, to: usize) -> (r: (usize, usize))
    requires
        from <= to <= chars@.len(),
    ensures
        from <= r.0 <= r.1 <= to,
        chars@.subrange(r.0 as int, r.1 as int) == trimmed(chars@.subrange(from as int, to as int)),
{
    let ghost whole = chars@.subrange(from as int, to as int);
    let mut start: usize = from;
    while start < to && white_space(chars[start])
        invariant
            from <= start <= to <= chars@.len(),
            whole == chars@.subrange(from as int, to as int),
            trim_front(whole) == trim_front(chars@.subrange(start as int, to as int)),
        decreases to - start,
    {
        proof {
            let rest = chars@.subrange(start as int, to as int);
            assert(rest.drop_first() =~= chars@.subrange(start + 1, to as int));
        }
        start = start + 1;
    }
    let ghost front = chars@.subrange(start as int, to as int);
    let mut end: usize = to;
    while end > start && white_space(chars[end - 1])
        invariant
            from <= start <= end <= to <= chars@.len(),
            front == chars@.subrange(start as int, to as int),
            trim_back(front) == trim_back(chars@.subrange(start as int, end as int)),
        decreases end - start,
    {
        proof {
            let rest = chars@.subrange(start as int, end as int);
            assert(rest.drop_last() =~= chars@.subrange(start as int, end - 1));
        }
        end = end - 1;
    }
    (start, end)
}

/// The text without its leading and trailing white space.
pub fn trim(s: &str) -> (r: String)
    ensures
        r@ == trimmed(s@),
{
    let chars = to_chars(s);
    let (start, end) = trim_range(&chars, 0, chars.len());
    assert(chars@.subrange(0, chars@.len() as int) =~= s@);
    from_range(&chars, start, end)
}

/// A text without the characters `c` at its start.
pub open spec fn without_leading(s: Seq<char>, c: char) -> Seq<char>
    decreases s.len(),
{
    if s.len() > 0 && s[0] == c {
        without_leading(s.drop_first(), c)
    } else {
        s
    }
}

/// The text without the characters `c` at its start.
pub fn trim_start_matches(s: &str, c: char) -> (r: String)
    ensures
        r@ == without_leading(s@, c),
{
    let chars = to_chars(s);
    let mut start: usize = 0;
    assert(chars@.skip(0) =~= s@);
    while start < chars.len() && chars[start] == c
        invariant
            start <= chars@.len(),
            without_leading(s@, c) == without_leading(chars@.skip(start as int), c),
        decreases chars@.len() - start,
    {
        assert(chars@.skip(start as int).drop_first() =~= chars@.skip(start + 1));
        start = start + 1;
    }
    assert(chars@.subrange(start as int, chars@.len() as int) =~= chars@.skip(start as int));
    from_range(&chars, start, chars.len())
}

/// A text without the characters `c` at its end.
pub open spec fn without_trailing(s: Seq<char>, c: char) -> Seq<char>
    decreases s.len(),
{
    if s.len() > 0 && s.last() == c {
        without_trailing(s.drop_last(), c)
    } else {
        s
    }
}

/// The text without the characters `c` at its end.
pub fn trim_end_matches(s: &str, c: char) -> (r: String)
    ensures
        r@ == without_trailing(s@, c),
{
    let chars = to_chars(s);
    let mut end: usize = chars.len();
    assert(chars@.take(end as int) =~= s@);
    while end > 0 && chars[end - 1] == c
        invariant
            end <= chars@.len(),
            without_trailing(s@, c) == without_trailing(chars@.take(end as int), c),
        decreases end,
    {
        assert(chars@.take(end as int).drop_last() =~= chars@.take(end - 1));
        end = end - 1;
    }
    assert(chars@.subrange(0, end as int) =~= chars@.take(end as int));
    from_range(&chars, 0, end)
}

/// The number of characters before the first `sep`, or all of them.
pub open spec fn piece_len(s: Seq<char>, sep: char) -> nat
    decreases s.len(),
{
    if s.len() == 0 || s[0] == sep {
        0
    } else {
        1 + piece_len(s.drop_first(), sep)
    }
}

/// The first piece ends at the first separator.
pub proof fn lemma_piece_len(s: Seq<char>, sep: char)
    ensures
        piece_len(s, sep) <= s.len(),
        piece_len(s, sep) < s.len() ==> s[piece_len(s, sep) as int] == sep,
        forall|i: int| 0 <= i < piece_len(s, sep) ==> s[i] != sep,
    decreases s.len(),
{
    if s.len() > 0 && s[0] != sep {
        lemma_piece_len(s.drop_first(), sep);
        assert forall|i: int| 0 <= i < piece_len(s, sep) implies s[i] != sep by {
            if i > 0 {
                assert(s.drop_first()[i - 1] == s[i]);
            }
        }
    }
}

/// The pieces of a text between the occurrences of `sep`.
pub open spec fn split_text(s: Seq<char>, sep: char) -> Seq<Seq<char>>
    decreases s.len(),
{
    let n = piece_len(s, sep) as int;
    if n >= s.len() {
        seq![s]
    } else {
        seq![s.take(n)] + split_text(s.skip(n + 1), sep)
    }
}

/// The index of the first `sep` at or after `from`, or the length.
pub fn find_char(chars: &Vec<char>, sep: char, from: usize) -> (r: usize)
    requires
        from <= chars@.len(),
    ensures
        from <= r <= chars@.len(),
        r - from == piece_len(chars@.skip(from as int), sep),
{
    let mut i: usize = from;
    while i < chars.len() && chars[i] != sep
        invariant
            from <= i <= chars@.len(),
            piece_len(chars@.skip(from as int), sep) == i - from + piece_len(chars@.skip(i as int), sep),
        decreases chars@.len() - i,
    {
        assert(chars@.skip(i as int).drop_first() =~= chars@.skip(i + 1));
        i = i + 1;
    }
    i
}

/// Whether a text holds a character.
pub fn contains_char(s: &str, c: char) -> (r: bool)
    ensures
        r == s@.contains(c),
{
    let chars = to_chars(s);
    let n = find_char(&chars, c, 0);
    proof {
        assert(chars@.skip(0) =~= s@);
        lemma_piece_len(s@, c);
        if n < chars@.len() {
            assert(s@[n as int] == c);
        }
    }
    n < chars.len()
}

/// The pieces of a text, trimmed, without the empty ones.
pub open spec fn trimmed_pieces(pieces: Seq<Seq<char>>) -> Seq<Seq<char>>
    decreases pieces.len(),
{
    if pieces.len() == 0 {
        Seq::empty()
    } else {
        let head = trimmed(pieces[0]);
        let tail = trimmed_pieces(pieces.drop_first());
        if head.len() == 0 {
            tail
        } else {
            seq![head] + tail
        }
    }
}

/// Splits at `sep`, trims each piece and drops the empty ones.
pub fn split_trimmed(s: &str, sep: char) -> (r: Vec<String>)
    ensures
        texts(r@) == trimmed_pieces(split_text(s@, sep)),
{
    let chars = to_chars(s);
    let mut out: Vec<String> = Vec::new();
    let mut from: usize = 0;
    assert(chars@.skip(0) =~= s@);
    assert(texts(out@) =~= Seq::<Seq<char>>::empty());
    loop
        invariant_except_break
            from <= chars@.len(),
            texts(out@) + trimmed_pieces(split_text(chars@.skip(from as int), sep)) == trimmed_pieces(
                split_text(s@, sep),
            ),
        ensures
            texts(out@) == trimmed_pieces(split_text(s@, sep)),
        decreases chars@.len() - from,
    {
        let ghost rest = chars@.skip(from as int);
        let ghost before = texts(out@);
        let end = find_char(&chars, sep, from);
        let (a, b) = trim_range(&chars, from, end);
        let ghost pieces = split_text(rest, sep);
        let ghost piece = chars@.subrange(from as int, end as int);
        proof {
            assert(piece =~= rest.take(end - from));
            if end == chars@.len() {
                assert(piece =~= rest);
            }
            assert(pieces[0] == piece);
        }
        if a < b {
            let t = from_range(&chars, a, b);
            out.push(t);
            assert(texts(out@) =~= before.push(trimmed(piece)));
        }
        if end == chars.len() {
            proof {
                assert(pieces.drop_first() =~= Seq::<Seq<char>>::empty());
                assert(trimmed_pieces(pieces.drop_first()) =~= Seq::<Seq<char>>::empty());
                assert(texts(out@) =~= before + trimmed_pieces(pieces));
            }
            break;
        }
        proof {
            assert(rest.skip(end - from + 1) =~= chars@.skip(end + 1));
            assert(pieces.drop_first() =~= split_text(chars@.skip(end + 1), sep));
            assert(texts(out@) + trimmed_pieces(pieces.drop_first()) =~= before + trimmed_pieces(
                pieces,
            ));
        }
        from = end + 1;
    }
    out
}

/// The trimmed text before the first `sep`.
pub fn first_trimmed(s: &str, sep: char) -> (r: String)
    ensures
        r@ == trimmed(split_text(s@, sep)[0]),
{
    let chars = to_chars(s);
    let end = find_char(&chars, sep, 0);
    proof {
        assert(chars@.skip(0) =~= s@);
        assert(chars@.subrange(0, end as int) =~= s@.take(end as int));
        if end == chars@.len() {
            assert(s@.take(end as int) =~= s@);
        }
    }
    let (a, b) = trim_range(&chars, 0, end);
    from_range(&chars, a, b)
}

/// The lower-case form of an ASCII letter; every other character stays.
pub open spec fn ascii_lower(c: char) -> char {
    if 'A' <= c <= 'Z' {
        (c as u8 + 32) as char
    } else {
        c
    }
}

/// A text with its ASCII letters in lower case.
pub open spec fn lower_text(s: Seq<char>) -> Seq<char> {
    Seq::new(s.len(), |i: int| ascii_lower(s[i]))
}

/// The text with its ASCII letters in lower case.
pub fn to_ascii_lower(s: &str) -> (r: String)
    ensures
        r@ == lower_text(s@),
{
    let mut out = String::new();
    for c in it: s.chars()
        invariant
            out@ =~= lower_text(it.seq()).take(it.index() as int),
    {
        if 'A' <= c && c <= 'Z' {
            out.push((c as u8 + 32) as char);
        } else {
            out.push(c);
        }
    }
    out
}

/// The decimal digit of a number below ten.
pub open spec fn digit(n: nat) -> char {
    (48 + n) as char
}

/// The decimal notation of a number.
pub open spec fn decimal_text(n: nat) -> Seq<char>
    decreases n,
{
    if n < 10 {
        seq![digit(n)]
    } else {
        decimal_text(n / 10).push(digit(n % 10))
    }
}

/// The decimal notation of a number.
pub fn decimal(n: u64) -> (r: String)
    ensures
        r@ == decimal_text(n as nat),
    decreases n,
{
    let d = (48 + (n % 10) as u8) as char;
    if n < 10 {
        let mut s = String::new();
        s.push(d);
        assert(s@ =~= seq![digit(n as nat)]);
        s
    } else {
        let mut s = decimal(n / 10);
        s.push(d);
        s
    }
}

/// The texts one after another, with `sep` between them.
pub open spec fn join_text(parts: Seq<Seq<char>>, sep: Seq<char>) -> Seq<char>
    decreases parts.len(),
{
    if parts.len() == 0 {
        Seq::empty()
    } else if parts.len() == 1 {
        parts[0]
    } else {
        join_text(parts.drop_last(), sep) + sep + parts.last()
    }
}

/// The texts one after another, with `sep` between them.
pub fn join(parts: &Vec<String>, sep: &str) -> (r: String)
    ensures
        r@ == join_text(texts(parts@), sep@),
{
    let mut out = String::new();
    let mut i: usize = 0;
    assert(texts(parts@).take(0) =~= Seq::<Seq<char>>::empty());
    while i < parts.len()
        invariant
            i <= parts@.len(),
            out@ == join_text(texts(parts@).take(i as int), sep@),
        decreases parts@.len() - i,
    {
        proof {
            let next = texts(parts@).take(i + 1);
            assert(next.drop_last() =~= texts(parts@).take(i as int));
            assert(next.last() == parts@[i as int]@);
        }
        if i > 0 {
            out.append(sep);
        }
        out.append(parts[i].as_str());
        proof {
            if i == 0 {
                assert(out@ =~= parts@[0]@);
            }
        }
        i = i + 1;
    }
    assert(texts(parts@).take(parts@.len() as int) =~= texts(parts@));
    out
}

/// Two texts joined.
pub fn concat(a: &str, b: &str) -> (r: String)
    ensures
        r@ == a@ + b@,
{
    let mut out = a.to_owned();
    out.append(b);
    out
}

/// Whether a text comes before another, character by character.
pub open spec fn before(a: Seq<char>, b: Seq<char>) -> bool
    decreases a.len(),
{
    if b.len() == 0 {
        false
    } else if a.len() == 0 {
        true
    } else if a[0] == b[0] {
        before(a.drop_first(), b.drop_first())
    } else {
        a[0] < b[0]
    }
}

/// Whether each text comes before those behind it.
pub open spec fn ascending(s: Seq<Seq<char>>) -> bool {
    forall|i: int, j: int| 0 <= i < j < s.len() ==> before(#[trigger] s[i], #[trigger] s[j])
}

proof fn lemma_not_before_itself(s: Seq<char>)
    ensures
        !before(s, s),
    decreases s.len(),
{
    if s.len() > 0 {
        lemma_not_before_itself(s.drop_first());
    }
}

/// No text occurs twice among ascending ones.
pub proof fn lemma_ascending_texts_differ(s: Seq<Seq<char>>)
    requires
        ascending(s),
    ensures
        s.no_duplicates(),
{
    assert forall|i: int, j: int| 0 <= i < j < s.len() implies s[i] != s[j] by {
        lemma_not_before_itself(s[i]);
    }
}

/// Texts that are picked out of ascending ones are ascending.
pub proof fn lemma_filter_keeps_ascending(s: Seq<Seq<char>>, pred: spec_fn(Seq<char>) -> bool)
    requires
        ascending(s),
    ensures
        ascending(s.filter(pred)),
    decreases s.len(),
{
    broadcast use vstd::seq_lib::group_filter_ensures;

    reveal(Seq::filter);
    if s.len() > 0 {
        let head = s.drop_last();
        lemma_filter_keeps_ascending(head, pred);
        if pred(s.last()) {
            let f = head.filter(pred);
            assert forall|i: int, j: int| 0 <= i < j < s.filter(pred).len() implies before(
                #[trigger] s.filter(pred)[i],
                #[trigger] s.filter(pred)[j],
            ) by {
                if j == f.len() {
                    assert(f.contains(f[i]));
                    head.lemma_filter_contains_rev(pred, f[i]);
                    let k = head.index_of(f[i]);
                    assert(s[k] == f[i]);
                }
            }
        }
    }
}

/// Whether a text begins with another.
pub open spec fn has_prefix(s: Seq<char>, prefix: Seq<char>) -> bool {
    prefix.len() <= s.len() && s.take(prefix.len() as int) == prefix
}

/// The text behind `prefix`, where it begins with it.
pub fn strip_prefix(s: &str, prefix: &str) -> (r: Option<String>)
    ensures
        r is Some <==> has_prefix(s@, prefix@),
        r matches Some(t) ==> t@ == s@.skip(prefix@.len() as int),
{
    let chars = to_chars(s);
    let head = to_chars(prefix);
    if head.len() > chars.len() {
        return None;
    }
    let mut i: usize = 0;
    while i < head.len()
        invariant
            i <= head@.len() <= chars@.len(),
            head@ == prefix@,
            chars@ == s@,
            forall|j: int| 0 <= j < i ==> chars@[j] == head@[j],
        decreases head@.len() - i,
    {
        if chars[i] != head[i] {
            assert(s@.take(prefix@.len() as int)[i as int] != prefix@[i as int]);
            return None;
        }
        i = i + 1;
    }
    assert(s@.take(prefix@.len() as int) =~= prefix@);
    assert(chars@.subrange(head@.len() as int, chars@.len() as int) =~= s@.skip(
        prefix@.len() as int,
    ));
    Some(from_range(&chars, head.len(), chars.len()))
}

} // verus!
