//! Character-level helpers shared by the parsers: whitespace, trimming,
//! ASCII case folding, searching and splitting.
//!
//! Every parser first turns its input into a vector of characters and then
//! works on index ranges of that vector; the specifications speak of the
//! corresponding sub-sequences.

use vstd::prelude::*;

verus! {

/// The characters that count as white space: the Unicode `White_Space` set.
pub open spec fn is_whitespace(c: char) -> bool {
    let n = c as u32;
    ||| 0x09 <= n <= 0x0D
    ||| n == 0x20
    ||| n == 0x85
    ||| n == 0xA0
    ||| n == 0x1680
    ||| 0x2000 <= n <= 0x200A
    ||| n == 0x2028
    ||| n == 0x2029
    ||| n == 0x202F
    ||| n == 0x205F
    ||| n == 0x3000
}

/// `s` without its leading white space.
pub open spec fn trim_start(s: Seq<char>) -> Seq<char>
    decreases s.len(),
{
    if s.len() > 0 && is_whitespace(s[0]) {
        trim_start(s.drop_first())
    } else {
        s
    }
}

/// `s` without its trailing white space.
pub open spec fn trim_end(s: Seq<char>) -> Seq<char>
    decreases s.len(),
{
    if s.len() > 0 && is_whitespace(s.last()) {
        trim_end(s.drop_last())
    } else {
        s
    }
}

/// `s` without its leading and trailing white space.
pub open spec fn trim(s: Seq<char>) -> Seq<char> {
    trim_end(trim_start(s))
}

/// The lower-case form of an ASCII capital letter; every other character is
/// left as it is.
pub open spec fn lower_char(c: char) -> char {
    if 'A' <= c <= 'Z' {
        ((c as u8) + 32) as char
    } else {
        c
    }
}

/// `s` with every ASCII capital letter replaced by its lower-case form.
pub open spec fn lower(s: Seq<char>) -> Seq<char> {
    Seq::new(s.len(), |i: int| lower_char(s[i]))
}

/// The pieces of `s` between the occurrences of `sep`, in order. A sequence
/// with `n` separators has `n + 1` pieces, some of which may be empty.
pub open spec fn split(s: Seq<char>, sep: char) -> Seq<Seq<char>>
    decreases s.len(),
{
    if s.len() == 0 {
        seq![Seq::<char>::empty()]
    } else {
        let before = split(s.drop_last(), sep);
        if s.last() == sep {
            before.push(Seq::<char>::empty())
        } else {
            before.drop_last().push(before.last().push(s.last()))
        }
    }
}

/// The text between the first `(` and the last `)` of `s`. `None` where
/// either is missing, or where the last `)` does not come after the character
/// that follows the first `(`.
pub open spec fn interior(s: Seq<char>) -> Option<Seq<char>> {
    match (s.index_of_first('('), s.index_of_last(')')) {
        (Some(open), Some(close)) => if close <= open + 1 {
            None
        } else {
            Some(s.subrange(open + 1, close))
        },
        _ => None,
    }
}

/// The comma-separated pieces of `inner`, each without its surrounding white
/// space.
pub open spec fn arguments(inner: Seq<char>) -> Seq<Seq<char>> {
    Seq::new(split(inner, ',').len(), |k: int| trim(split(inner, ',')[k]))
}

/// Tells whether every character of `s` is white space.
pub open spec fn all_whitespace(s: Seq<char>) -> bool {
    forall|i: int| 0 <= i < s.len() ==> is_whitespace(#[trigger] s[i])
}

/// White space in front of a text does not change what is left when the
/// leading white space is taken away.
pub proof fn lemma_trim_start_skips(w: Seq<char>, s: Seq<char>)
    requires
        all_whitespace(w),
    ensures
        trim_start(w + s) == trim_start(s),
    decreases w.len(),
{
    if w.len() > 0 {
        assert((w + s).drop_first() =~= w.drop_first() + s);
        assert((w + s)[0] == w[0]);
        lemma_trim_start_skips(w.drop_first(), s);
    } else {
        assert(w + s =~= s);
    }
}

/// White space behind a text does not change what is left when the trailing
/// white space is taken away.
pub proof fn lemma_trim_end_skips(s: Seq<char>, w: Seq<char>)
    requires
        all_whitespace(w),
    ensures
        trim_end(s + w) == trim_end(s),
    decreases w.len(),
{
    if w.len() > 0 {
        assert((s + w).drop_last() =~= s + w.drop_last());
        assert((s + w).last() == w.last());
        lemma_trim_end_skips(s, w.drop_last());
    } else {
        assert(s + w =~= s);
    }
}

/// Taking the leading white space from a text that is followed by white
/// space leaves nothing where the text itself is white space, and otherwise
/// the text without its leading white space, still followed by the rest.
pub proof fn lemma_trim_start_append(s: Seq<char>, w: Seq<char>)
    requires
        all_whitespace(w),
    ensures
        trim_start(s + w) == if all_whitespace(s) {
            Seq::<char>::empty()
        } else {
            trim_start(s) + w
        },
    decreases s.len(),
{
    if s.len() == 0 {
        lemma_trim_start_skips(w, s);
        assert(w + s =~= s + w);
    } else if is_whitespace(s[0]) {
        assert((s + w).drop_first() =~= s.drop_first() + w);
        assert((s + w)[0] == s[0]);
        lemma_trim_start_append(s.drop_first(), w);
        if all_whitespace(s.drop_first()) {
            assert forall|i: int| 0 <= i < s.len() implies is_whitespace(#[trigger] s[i]) by {
                if i > 0 {
                    assert(s[i] == s.drop_first()[i - 1]);
                }
            }
        } else {
            let i = choose|i: int|
                0 <= i < s.drop_first().len() && !is_whitespace(#[trigger] s.drop_first()[i]);
            assert(!is_whitespace(s[i + 1]));
        }
    } else {
        assert((s + w)[0] == s[0]);
    }
}

/// White space around a text does not change what is left when the
/// surrounding white space is taken away.
pub proof fn lemma_trim_ignores_padding(before: Seq<char>, s: Seq<char>, after: Seq<char>)
    requires
        all_whitespace(before),
        all_whitespace(after),
    ensures
        trim(before + s + after) == trim(s),
{
    assert(before + s + after =~= before + (s + after));
    lemma_trim_start_skips(before, s + after);
    lemma_trim_start_append(s, after);
    if all_whitespace(s) {
        lemma_trim_start_append(s, Seq::<char>::empty());
        assert(s + Seq::<char>::empty() =~= s);
    } else {
        lemma_trim_end_skips(trim_start(s), after);
    }
}

/// Folding to lower case twice is the same as folding once.
pub proof fn lemma_lower_twice(s: Seq<char>)
    ensures
        lower(lower(s)) == lower(s),
{
    assert(lower(lower(s)) =~= lower(s));
}

/// A text has at least one piece.
pub proof fn lemma_split_has_pieces(s: Seq<char>, sep: char)
    ensures
        split(s, sep).len() >= 1,
    decreases s.len(),
{
    if s.len() > 0 {
        lemma_split_has_pieces(s.drop_last(), sep);
    }
}

/// A text without a separator is its own single piece.
pub proof fn lemma_split_single(s: Seq<char>, sep: char)
    requires
        !s.contains(sep),
    ensures
        split(s, sep) == seq![s],
    decreases s.len(),
{
    if s.len() > 0 {
        assert(s.last() == s[s.len() - 1]);
        assert forall|i: int| 0 <= i < s.drop_last().len() implies s.drop_last()[i] != sep by {
            assert(s.drop_last()[i] == s[i]);
        }
        lemma_split_single(s.drop_last(), sep);
        assert(seq![s.drop_last()].drop_last().push(seq![s.drop_last()].last().push(s.last()))
            =~= seq![s]) by {
            assert(s.drop_last().push(s.last()) =~= s);
        }
    } else {
        assert(s =~= Seq::<char>::empty());
    }
}

/// The pieces of two texts joined by a separator are the pieces of the first
/// followed by the pieces of the second.
pub proof fn lemma_split_joined(x: Seq<char>, y: Seq<char>, sep: char)
    ensures
        split(x + seq![sep] + y, sep) == split(x, sep) + split(y, sep),
    decreases y.len(),
{
    let joined = x + seq![sep] + y;
    if y.len() == 0 {
        assert(joined.drop_last() =~= x);
        assert(joined.last() == sep);
        assert(split(y, sep) =~= seq![Seq::<char>::empty()]);
        assert(split(x, sep).push(Seq::<char>::empty()) =~= split(x, sep) + split(y, sep));
    } else {
        assert(joined.drop_last() =~= x + seq![sep] + y.drop_last());
        assert(joined.last() == y.last());
        lemma_split_joined(x, y.drop_last(), sep);
        lemma_split_has_pieces(y.drop_last(), sep);
        let a = split(x, sep);
        let b = split(y.drop_last(), sep);
        if y.last() == sep {
            assert((a + b).push(Seq::<char>::empty()) =~= a + b.push(Seq::<char>::empty()));
        } else {
            assert((a + b).drop_last().push((a + b).last().push(y.last())) =~= a
                + b.drop_last().push(b.last().push(y.last())));
        }
    }
}

/// An index found by a search, as a mathematical integer.
pub open spec fn position(found: Option<usize>) -> Option<int> {
    match found {
        Some(i) => Some(i as int),
        None => None,
    }
}

/// Collects the characters of `text` into a vector, in order.
pub fn chars_of(text: &str) -> (chars: Vec<char>)
    ensures
        chars@ == text@,
{
    let mut chars: Vec<char> = Vec::new();
    for c in it: text.chars()
        invariant
            chars@ == it.seq().take(it.index() as int),
            it.seq() == text@,
    {
        chars.push(c);
    }
    chars
}

/// Tells whether `c` is white space.
pub fn char_is_whitespace(c: char) -> (b: bool)
    ensures
        b == is_whitespace(c),
{
    let n: u32 = c as u32;
    (0x09 <= n && n <= 0x0D) || n == 0x20 || n == 0x85 || n == 0xA0 || n == 0x1680 || (0x2000 <= n
        && n <= 0x200A) || n == 0x2028 || n == 0x2029 || n == 0x202F || n == 0x205F || n == 0x3000
}

/// Folds an ASCII capital letter to lower case.
pub fn char_to_lower(c: char) -> (l: char)
    ensures
        l == lower_char(c),
{
    if 'A' <= c && c <= 'Z' {
        let n: u8 = c as u8;
        (n + 32) as char
    } else {
        c
    }
}

/// Finds the bounds of `chars[from..to]` without its surrounding white space.
pub fn trim_bounds(chars: &Vec<char>, from: usize, to: usize) -> (bounds: (usize, usize))
    requires
        from <= to <= chars.len(),
    ensures
        from <= bounds.0 <= bounds.1 <= to,
        chars@.subrange(bounds.0 as int, bounds.1 as int) == trim(
            chars@.subrange(from as int, to as int),
        ),
{
    let mut start: usize = from;
    while start < to && char_is_whitespace(chars[start])
        invariant
            from <= start <= to <= chars.len(),
            trim_start(chars@.subrange(from as int, to as int)) == trim_start(
                chars@.subrange(start as int, to as int),
            ),
        decreases to - start,
    {
        assert(chars@.subrange(start as int, to as int).drop_first() =~= chars@.subrange(
            start + 1,
            to as int,
        ));
        start += 1;
    }
    let mut end: usize = to;
    while end > start && char_is_whitespace(chars[end - 1])
        invariant
            start <= end <= to <= chars.len(),
            trim_end(chars@.subrange(start as int, to as int)) == trim_end(
                chars@.subrange(start as int, end as int),
            ),
        decreases end - start,
    {
        assert(chars@.subrange(start as int, end as int).drop_last() =~= chars@.subrange(
            start as int,
            end - 1,
        ));
        end -= 1;
    }
    (start, end)
}

/// Finds the first occurrence of `c` in `chars[from..to]`, as an index into
/// that range.
pub fn find_first(chars: &Vec<char>, from: usize, to: usize, c: char) -> (found: Option<usize>)
    requires
        from <= to <= chars.len(),
    ensures
        position(found) == chars@.subrange(from as int, to as int).index_of_first(c),
        found matches Some(i) ==> i < to - from,
{
    let ghost s = chars@.subrange(from as int, to as int);
    let mut i: usize = from;
    while i < to
        invariant
            from <= i <= to <= chars.len(),
            s == chars@.subrange(from as int, to as int),
            forall|j: int| 0 <= j < i - from ==> s[j] != c,
        decreases to - i,
    {
        if chars[i] == c {
            proof {
                assert(s[i - from] == c);
                s.index_of_first_ensures(c);
            }
            return Some(i - from);
        }
        i += 1;
    }
    proof {
        s.index_of_first_ensures(c);
    }
    None
}

/// Finds the last occurrence of `c` in `chars[from..to]`, as an index into
/// that range.
pub fn find_last(chars: &Vec<char>, from: usize, to: usize, c: char) -> (found: Option<usize>)
    requires
        from <= to <= chars.len(),
    ensures
        position(found) == chars@.subrange(from as int, to as int).index_of_last(c),
        found matches Some(i) ==> i < to - from,
{
    let ghost s = chars@.subrange(from as int, to as int);
    let mut i: usize = to;
    while i > from
        invariant
            from <= i <= to <= chars.len(),
            s == chars@.subrange(from as int, to as int),
            forall|j: int| i - from <= j < to - from ==> s[j] != c,
        decreases i - from,
    {
        i -= 1;
        if chars[i] == c {
            proof {
                assert(s[i - from] == c);
                s.index_of_last_ensures(c);
            }
            return Some(i - from);
        }
    }
    proof {
        s.index_of_last_ensures(c);
    }
    None
}

/// Tells whether `chars[from..to]`, folded to lower case, begins with `prefix`.
pub fn starts_with_lower(chars: &Vec<char>, from: usize, to: usize, prefix: &str) -> (b: bool)
    requires
        from <= to <= chars.len(),
    ensures
        b == prefix@.is_prefix_of(lower(chars@.subrange(from as int, to as int))),
{
    let n: usize = prefix.unicode_len();
    if n > to - from {
        return false;
    }
    let ghost folded = lower(chars@.subrange(from as int, to as int));
    let mut i: usize = 0;
    while i < n
        invariant
            from <= to <= chars.len(),
            i <= n <= to - from,
            n == prefix@.len(),
            folded == lower(chars@.subrange(from as int, to as int)),
            forall|j: int| 0 <= j < i ==> prefix@[j] == folded[j],
        decreases n - i,
    {
        if char_to_lower(chars[from + i]) != prefix.get_char(i) {
            assert(folded.subrange(0, n as int)[i as int] != prefix@[i as int]);
            return false;
        }
        i += 1;
    }
    assert(prefix@ =~= folded.subrange(0, n as int));
    true
}

/// Tells whether `chars[from..to]`, folded to lower case, is exactly `word`.
pub fn equals_lower(chars: &Vec<char>, from: usize, to: usize, word: &str) -> (b: bool)
    requires
        from <= to <= chars.len(),
    ensures
        b == (lower(chars@.subrange(from as int, to as int)) == word@),
{
    let n: usize = word.unicode_len();
    if n != to - from {
        return false;
    }
    let b = starts_with_lower(chars, from, to, word);
    proof {
        let folded = lower(chars@.subrange(from as int, to as int));
        assert(folded.subrange(0, n as int) =~= folded);
    }
    b
}

/// Splits `chars[from..to]` at every `sep` and returns the bounds of the
/// pieces, as indices into `chars`.
pub fn split_bounds(chars: &Vec<char>, from: usize, to: usize, sep: char) -> (pieces: Vec<
    (usize, usize),
>)
    requires
        from <= to <= chars.len(),
    ensures
        pieces.len() == split(chars@.subrange(from as int, to as int), sep).len(),
        forall|k: int|
            0 <= k < pieces.len() ==> from <= (#[trigger] pieces[k]).0 <= pieces[k].1 <= to,
        forall|k: int|
            0 <= k < pieces.len() ==> chars@.subrange(
                (#[trigger] pieces[k]).0 as int,
                pieces[k].1 as int,
            ) == split(chars@.subrange(from as int, to as int), sep)[k],
{
    let mut pieces: Vec<(usize, usize)> = Vec::new();
    let mut start: usize = from;
    let mut i: usize = from;
    assert(chars@.subrange(from as int, from as int) =~= Seq::<char>::empty());
    while i < to
        invariant
            from <= start <= i <= to <= chars.len(),
            split(chars@.subrange(from as int, i as int), sep).len() == pieces.len() + 1,
            split(chars@.subrange(from as int, i as int), sep).last() == chars@.subrange(
                start as int,
                i as int,
            ),
            forall|k: int|
                0 <= k < pieces.len() ==> from <= (#[trigger] pieces[k]).0 <= pieces[k].1 <= to,
            forall|k: int|
                0 <= k < pieces.len() ==> chars@.subrange(
                    (#[trigger] pieces[k]).0 as int,
                    pieces[k].1 as int,
                ) == split(chars@.subrange(from as int, i as int), sep)[k],
        decreases to - i,
    {
        let ghost before = chars@.subrange(from as int, i as int);
        let ghost now = chars@.subrange(from as int, i + 1);
        assert(now.drop_last() =~= before);
        assert(now.last() == chars@[i as int]);
        if chars[i] == sep {
            pieces.push((start, i));
            start = i + 1;
            assert(chars@.subrange(start as int, start as int) =~= Seq::<char>::empty());
        } else {
            assert(chars@.subrange(start as int, i as int).push(chars@[i as int])
                =~= chars@.subrange(start as int, i + 1));
        }
        i += 1;
    }
    pieces.push((start, to));
    pieces
}

/// Finds the bounds of the arguments between the first `(` and the last `)`
/// of `chars`, as indices into `chars`.
pub fn argument_bounds(chars: &Vec<char>) -> (found: Option<Vec<(usize, usize)>>)
    ensures
        found is Some == interior(chars@) is Some,
        found matches Some(pieces) ==> {
            let args = arguments(interior(chars@)->0);
            &&& pieces.len() == args.len()
            &&& forall|k: int|
                0 <= k < pieces.len() ==> (#[trigger] pieces[k]).0 <= pieces[k].1 <= chars.len()
            &&& forall|k: int|
                0 <= k < pieces.len() ==> chars@.subrange(
                    (#[trigger] pieces[k]).0 as int,
                    pieces[k].1 as int,
                ) == args[k]
        },
{
    let n: usize = chars.len();
    assert(chars@.subrange(0, n as int) =~= chars@);
    let open: usize = match find_first(chars, 0, n, '(') {
        Some(i) => i,
        None => { return None; },
    };
    let close: usize = match find_last(chars, 0, n, ')') {
        Some(i) => i,
        None => { return None; },
    };
    if close <= open + 1 {
        return None;
    }
    let ghost inner = chars@.subrange(open + 1, close as int);
    let raw = split_bounds(chars, open + 1, close, ',');
    let mut pieces: Vec<(usize, usize)> = Vec::new();
    let mut k: usize = 0;
    while k < raw.len()
        invariant
            k <= raw.len(),
            pieces.len() == k,
            raw.len() == split(inner, ',').len(),
            forall|j: int| 0 <= j < raw.len() ==> (#[trigger] raw[j]).0 <= raw[j].1 <= chars.len(),
            forall|j: int|
                0 <= j < raw.len() ==> chars@.subrange(
                    (#[trigger] raw[j]).0 as int,
                    raw[j].1 as int,
                ) == split(inner, ',')[j],
            forall|j: int|
                0 <= j < pieces.len() ==> (#[trigger] pieces[j]).0 <= pieces[j].1 <= chars.len(),
            forall|j: int|
                0 <= j < pieces.len() ==> chars@.subrange(
                    (#[trigger] pieces[j]).0 as int,
                    pieces[j].1 as int,
                ) == trim(split(inner, ',')[j]),
        decreases raw.len() - k,
    {
        let (from, to) = raw[k];
        let bounds = trim_bounds(chars, from, to);
        pieces.push(bounds);
        k += 1;
    }
    Some(pieces)
}

} // verus!
