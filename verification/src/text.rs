//! Text primitives shared by the two parsers: white space, trimming, splitting into pieces
//! and words, and the `#:` annotation marker. Every function is stated over `Seq<char>`,
//! the view of `str`.
use vstd::prelude::*;
use vstd::std_specs::iter::IteratorSpec;
use vstd::string::StrSliceExecFns;

verus! {

/// White space in the sense of Unicode's `White_Space` property.
pub open spec fn is_space(c: char) -> bool {
    let u = c as u32;
    ||| 0x09 <= u <= 0x0D
    ||| u == 0x20
    ||| u == 0x85
    ||| u == 0xA0
    ||| u == 0x1680
    ||| 0x2000 <= u <= 0x200A
    ||| u == 0x2028
    ||| u == 0x2029
    ||| u == 0x202F
    ||| u == 0x205F
    ||| u == 0x3000
}

/// `s` without its leading white space.
pub open spec fn trim_start(s: Seq<char>) -> Seq<char>
    decreases s.len(),
{
    if s.len() > 0 && is_space(s[0]) {
        trim_start(s.drop_first())
    } else {
        s
    }
}

/// `s` without its trailing white space.
pub open spec fn trim_end(s: Seq<char>) -> Seq<char>
    decreases s.len(),
{
    if s.len() > 0 && is_space(s.last()) {
        trim_end(s.drop_last())
    } else {
        s
    }
}

/// `s` without leading and trailing white space.
pub open spec fn trim(s: Seq<char>) -> Seq<char> {
    trim_end(trim_start(s))
}

/// The pieces of `s` that lie between the characters satisfying `sep`. A sequence with `n`
/// separators has `n + 1` pieces, some of which may be empty.
pub open spec fn pieces(s: Seq<char>, sep: spec_fn(char) -> bool) -> Seq<Seq<char>>
    decreases s.len(),
{
    if s.len() == 0 {
        seq![Seq::<char>::empty()]
    } else {
        let before = pieces(s.drop_last(), sep);
        if sep(s.last()) {
            before.push(Seq::<char>::empty())
        } else {
            before.drop_last().push(before.last().push(s.last()))
        }
    }
}

/// The test for being the character `c`.
pub open spec fn is_char(c: char) -> spec_fn(char) -> bool {
    |x: char| x == c
}

/// The pieces of `s` between occurrences of the character `c`.
pub open spec fn split(s: Seq<char>, c: char) -> Seq<Seq<char>> {
    pieces(s, is_char(c))
}

/// The white-space-delimited words of `s`: its pieces between white-space characters,
/// without the empty ones.
pub open spec fn words(s: Seq<char>) -> Seq<Seq<char>> {
    pieces(s, |x: char| is_space(x)).filter(|p: Seq<char>| p.len() > 0)
}

/// Whether the annotation marker `#:` stands at index `i` of `s`.
pub open spec fn marker_at(s: Seq<char>, i: int) -> bool {
    0 <= i && i + 1 < s.len() && s[i] == '#' && s[i + 1] == ':'
}

/// Index of the first annotation marker `#:` in `s`, or `s.len()` if there is none.
pub open spec fn find_marker(s: Seq<char>) -> int
    decreases s.len(),
{
    if s.len() < 2 {
        s.len() as int
    } else if marker_at(s, 0) {
        0
    } else {
        1 + find_marker(s.drop_first())
    }
}

/// Index of the first occurrence of `c` in `s`, or `s.len()` if there is none.
pub open spec fn find_char(s: Seq<char>, c: char) -> int
    decreases s.len(),
{
    if s.len() == 0 {
        0
    } else if s[0] == c {
        0
    } else {
        1 + find_char(s.drop_first(), c)
    }
}

/// The views of a sequence of string slices.
pub open spec fn str_views(v: Seq<&str>) -> Seq<Seq<char>> {
    v.map_values(|w: &str| w@)
}

/// The views of a sequence of strings.
pub open spec fn string_views(v: Seq<String>) -> Seq<Seq<char>> {
    v.map_values(|w: String| w@)
}

/// `pieces` never returns an empty sequence.
pub proof fn lemma_pieces_nonempty(s: Seq<char>, sep: spec_fn(char) -> bool)
    ensures
        pieces(s, sep).len() >= 1,
    decreases s.len(),
{
    if s.len() > 0 {
        lemma_pieces_nonempty(s.drop_last(), sep);
    }
}

/// No word is empty.
pub proof fn lemma_words_nonempty(s: Seq<char>, i: int)
    requires
        0 <= i < words(s).len(),
    ensures
        words(s)[i].len() > 0,
{
    pieces(s, |x: char| is_space(x)).lemma_filter_pred(|p: Seq<char>| p.len() > 0, i);
}

/// A sequence without separators is a single piece.
pub proof fn lemma_pieces_without_separator(s: Seq<char>, sep: spec_fn(char) -> bool)
    requires
        forall|i: int| 0 <= i < s.len() ==> !sep(#[trigger] s[i]),
    ensures
        pieces(s, sep) == seq![s],
    decreases s.len(),
{
    if s.len() == 0 {
        assert(s =~= Seq::<char>::empty());
    } else {
        let init = s.drop_last();
        assert forall|i: int| 0 <= i < init.len() implies !sep(#[trigger] init[i]) by {
            assert(init[i] == s[i]);
        }
        lemma_pieces_without_separator(init, sep);
        assert(!sep(s[s.len() - 1]));
        assert(seq![init].drop_last() =~= Seq::<Seq<char>>::empty());
        assert(init.push(s.last()) =~= s);
        assert(pieces(s, sep) =~= seq![s]);
    }
}

/// The pieces of two sequences joined by a separator are the pieces of the first
/// followed by the pieces of the second.
pub proof fn lemma_pieces_joined(a: Seq<char>, c: char, b: Seq<char>, sep: spec_fn(char) -> bool)
    requires
        sep(c),
    ensures
        pieces(a.push(c) + b, sep) == pieces(a, sep) + pieces(b, sep),
    decreases b.len(),
{
    let whole = a.push(c) + b;
    if b.len() == 0 {
        assert(whole =~= a.push(c));
        assert(whole.drop_last() =~= a);
        assert(pieces(whole, sep) =~= pieces(a, sep) + pieces(b, sep));
    } else {
        let init = b.drop_last();
        lemma_pieces_joined(a, c, init, sep);
        lemma_pieces_nonempty(init, sep);
        assert(whole.drop_last() =~= a.push(c) + init);
        assert(whole.last() == b.last());
        assert(pieces(whole, sep) =~= pieces(a, sep) + pieces(b, sep));
    }
}

/// The first piece is a prefix of the sequence, and all of it where there is no other piece.
proof fn lemma_first_piece(s: Seq<char>, sep: spec_fn(char) -> bool)
    ensures
        pieces(s, sep).len() >= 1,
        pieces(s, sep)[0].len() <= s.len(),
        pieces(s, sep)[0] == s.take(pieces(s, sep)[0].len() as int),
        pieces(s, sep).len() == 1 ==> pieces(s, sep)[0] == s,
        s.len() > 0 && !sep(s[0]) ==> pieces(s, sep)[0].len() > 0,
    decreases s.len(),
{
    if s.len() == 0 {
        assert(pieces(s, sep)[0] =~= s.take(0));
        assert(pieces(s, sep)[0] =~= s);
    } else {
        let init = s.drop_last();
        let before = pieces(init, sep);
        lemma_first_piece(init, sep);
        let k = before[0].len() as int;
        assert(init.take(k) =~= s.take(k));
        if !sep(s.last()) && before.len() == 1 {
            assert(before[0].push(s.last()) =~= s);
            assert(s.take(s.len() as int) =~= s);
        }
    }
}

/// Filtering keeps a first element that passes the test in first place.
proof fn lemma_filter_first<A>(p: Seq<A>, keep: spec_fn(A) -> bool)
    requires
        p.len() > 0,
        keep(p[0]),
    ensures
        p.filter(keep).len() > 0,
        p.filter(keep)[0] == p[0],
    decreases p.len(),
{
    reveal(Seq::filter);
    if p.len() > 1 {
        lemma_filter_first(p.drop_last(), keep);
    } else {
        assert(p.drop_last().filter(keep) =~= Seq::empty());
    }
}

/// A text that begins with a character that is not white space has a first word, and
/// the text begins with that word.
pub proof fn lemma_first_word_starts_text(s: Seq<char>)
    requires
        s.len() > 0,
        !is_space(s[0]),
    ensures
        words(s).len() >= 1,
        0 < words(s)[0].len() <= s.len(),
        words(s)[0] == s.take(words(s)[0].len() as int),
        words(s)[0][0] == s[0],
{
    let sep = |x: char| is_space(x);
    lemma_first_piece(s, sep);
    lemma_filter_first(pieces(s, sep), |p: Seq<char>| p.len() > 0);
}

/// An empty text has no words.
pub proof fn lemma_words_of_empty()
    ensures
        words(Seq::empty()).len() == 0,
{
    reveal_with_fuel(Seq::filter, 2);
    let p = pieces(Seq::empty(), |x: char| is_space(x));
    assert(p =~= seq![Seq::<char>::empty()]);
    assert(p.drop_last() =~= Seq::empty());
}

/// Reading one more character either closes the current piece or extends it.
proof fn lemma_pieces_step(s: Seq<char>, i: int, sep: spec_fn(char) -> bool)
    requires
        0 <= i < s.len(),
    ensures
        pieces(s.take(i), sep).len() >= 1,
        sep(s[i]) ==> pieces(s.take(i + 1), sep) == pieces(s.take(i), sep).push(
            Seq::<char>::empty(),
        ),
        !sep(s[i]) ==> pieces(s.take(i + 1), sep) == pieces(s.take(i), sep).drop_last().push(
            pieces(s.take(i), sep).last().push(s[i]),
        ),
{
    lemma_pieces_nonempty(s.take(i), sep);
    assert(s.take(i + 1).drop_last() =~= s.take(i));
    assert(s.take(i + 1).last() == s[i]);
}

/// `trim_start` drops exactly the leading run of white space.
pub proof fn lemma_trim_start(s: Seq<char>, a: int)
    requires
        0 <= a <= s.len(),
        forall|k: int| 0 <= k < a ==> is_space(#[trigger] s[k]),
        a == s.len() || !is_space(s[a]),
    ensures
        trim_start(s) == s.skip(a),
    decreases a,
{
    if a == 0 {
        assert(s.skip(0) =~= s);
    } else {
        let t = s.drop_first();
        assert forall|k: int| 0 <= k < a - 1 implies is_space(#[trigger] t[k]) by {
            assert(t[k] == s[k + 1]);
        }
        lemma_trim_start(t, a - 1);
        assert(t.skip(a - 1) =~= s.skip(a));
    }
}

/// `trim_end` drops exactly the trailing run of white space.
pub proof fn lemma_trim_end(s: Seq<char>, b: int)
    requires
        0 <= b <= s.len(),
        forall|k: int| b <= k < s.len() ==> is_space(#[trigger] s[k]),
        b == 0 || !is_space(s[b - 1]),
    ensures
        trim_end(s) == s.take(b),
    decreases s.len() - b,
{
    if b == s.len() {
        assert(s.take(b) =~= s);
    } else {
        let t = s.drop_last();
        lemma_trim_end(t, b);
        assert(t.take(b) =~= s.take(b));
    }
}

/// Trimming a sequence that begins with a character that is not white space leaves that
/// character in first place.
pub proof fn lemma_trim_keeps_start(s: Seq<char>)
    requires
        s.len() > 0,
        !is_space(s[0]),
    ensures
        trim(s).len() > 0,
        trim(s)[0] == s[0],
{
    lemma_trim_end_keeps_start(s);
}

proof fn lemma_trim_end_keeps_start(s: Seq<char>)
    requires
        s.len() > 0,
        !is_space(s[0]),
    ensures
        trim_end(s).len() > 0,
        trim_end(s)[0] == s[0],
    decreases s.len(),
{
    if is_space(s.last()) {
        lemma_trim_end_keeps_start(s.drop_last());
    }
}

/// A trimmed sequence neither starts nor ends with white space.
pub proof fn lemma_trim_ends(s: Seq<char>)
    ensures
        trim(s).len() > 0 ==> !is_space(trim(s)[0]) && !is_space(trim(s).last()),
        trim(s).len() <= s.len(),
{
    lemma_trim_start_shape(s);
    lemma_trim_end_shape(trim_start(s));
}

proof fn lemma_trim_start_shape(s: Seq<char>)
    ensures
        trim_start(s).len() <= s.len(),
        trim_start(s).len() > 0 ==> !is_space(trim_start(s)[0]),
    decreases s.len(),
{
    if s.len() > 0 && is_space(s[0]) {
        lemma_trim_start_shape(s.drop_first());
    }
}

proof fn lemma_trim_end_shape(s: Seq<char>)
    ensures
        trim_end(s).len() <= s.len(),
        trim_end(s).len() > 0 ==> !is_space(trim_end(s).last()) && trim_end(s)[0] == s[0],
    decreases s.len(),
{
    if s.len() > 0 && is_space(s.last()) {
        lemma_trim_end_shape(s.drop_last());
    }
}

/// Whether `c` is white space.
pub fn is_whitespace(c: char) -> (b: bool)
    ensures
        b == is_space(c),
{
    let u: u32 = c as u32;
    (0x09 <= u && u <= 0x0D) || u == 0x20 || u == 0x85 || u == 0xA0 || u == 0x1680 || (0x2000 <= u
        && u <= 0x200A) || u == 0x2028 || u == 0x2029 || u == 0x202F || u == 0x205F || u == 0x3000
}

/// Collects the characters of `s` into a vector, so that they can be indexed in constant time.
pub fn chars_of(s: &str) -> (v: Vec<char>)
    ensures
        v@ == s@,
{
    let mut v: Vec<char> = Vec::new();
    for c in it: s.chars()
        invariant
            v@ == it.seq().take(it.index()),
            it.seq() == s@,
    {
        v.push(c);
    }
    v
}

/// `s` without leading and trailing white space.
pub fn trimmed<'a>(s: &'a str) -> (r: &'a str)
    ensures
        r@ == trim(s@),
{
    let v = chars_of(s);
    let n = v.len();
    let mut a: usize = 0;
    while a < n && is_whitespace(v[a])
        invariant
            a <= n,
            n == v.len(),
            forall|k: int| 0 <= k < a ==> is_space(#[trigger] v@[k]),
        decreases n - a,
    {
        a += 1;
    }
    let mut b: usize = n;
    while b > a && is_whitespace(v[b - 1])
        invariant
            a <= b <= n,
            n == v.len(),
            forall|k: int| b <= k < n ==> is_space(#[trigger] v@[k]),
        decreases b,
    {
        b -= 1;
    }
    proof {
        lemma_trim_start(v@, a as int);
        let t = v@.skip(a as int);
        assert forall|k: int| b - a <= k < t.len() implies is_space(#[trigger] t[k]) by {
            assert(t[k] == v@[k + a]);
        }
        lemma_trim_end(t, b - a);
        assert(t.take(b - a) =~= v@.subrange(a as int, b as int));
    }
    s.substring_char(a, b)
}

/// The pieces of `s` between occurrences of the character `c`, in order.
pub fn split_on<'a>(s: &'a str, c: char) -> (out: Vec<&'a str>)
    ensures
        str_views(out@) == split(s@, c),
        out@.len() >= 1,
{
    let v = chars_of(s);
    let n = v.len();
    let ghost sep = is_char(c);
    let mut out: Vec<&'a str> = Vec::new();
    let mut start: usize = 0;
    let mut i: usize = 0;
    proof {
        assert(v@.take(0) =~= Seq::<char>::empty());
        assert(v@.subrange(0, 0) =~= Seq::<char>::empty());
        assert(pieces(v@.take(0), sep) =~= str_views(out@).push(v@.subrange(0, 0)));
    }
    while i < n
        invariant
            start <= i <= n,
            n == v.len(),
            v@ == s@,
            sep == is_char(c),
            pieces(v@.take(i as int), sep) == str_views(out@).push(
                v@.subrange(start as int, i as int),
            ),
        decreases n - i,
    {
        let ghost before = str_views(out@);
        proof {
            lemma_pieces_step(v@, i as int, sep);
        }
        if v[i] == c {
            let piece = s.substring_char(start, i);
            out.push(piece);
            start = i + 1;
            proof {
                assert(str_views(out@) =~= before.push(piece@));
                assert(v@.subrange(start as int, start as int) =~= Seq::<char>::empty());
            }
        } else {
            proof {
                let cur = v@.subrange(start as int, i as int);
                assert(before.push(cur).drop_last() =~= before);
                assert(cur.push(v@[i as int]) =~= v@.subrange(start as int, i + 1));
            }
        }
        i += 1;
    }
    let piece = s.substring_char(start, n);
    proof {
        assert(v@.take(n as int) =~= v@);
        assert(str_views(out@.push(piece)) =~= str_views(out@).push(piece@));
    }
    out.push(piece);
    out
}

/// The white-space-delimited words of `s`, in order.
pub fn split_words<'a>(s: &'a str) -> (out: Vec<&'a str>)
    ensures
        str_views(out@) == words(s@),
{
    let v = chars_of(s);
    let n = v.len();
    let ghost sep = |x: char| is_space(x);
    let ghost keep = |p: Seq<char>| p.len() > 0;
    let ghost closed: Seq<Seq<char>> = Seq::empty();
    let mut out: Vec<&'a str> = Vec::new();
    let mut start: usize = 0;
    let mut i: usize = 0;
    proof {
        assert(v@.take(0) =~= Seq::<char>::empty());
        assert(v@.subrange(0, 0) =~= Seq::<char>::empty());
        assert(pieces(v@.take(0), sep) =~= closed.push(v@.subrange(0, 0)));
        reveal(Seq::filter);
        assert(closed.filter(keep) =~= str_views(out@));
    }
    while i < n
        invariant
            start <= i <= n,
            n == v.len(),
            v@ == s@,
            sep == (|x: char| is_space(x)),
            keep == (|p: Seq<char>| p.len() > 0),
            pieces(v@.take(i as int), sep) == closed.push(v@.subrange(start as int, i as int)),
            closed.filter(keep) == str_views(out@),
        decreases n - i,
    {
        let ghost cur = v@.subrange(start as int, i as int);
        let ghost before = str_views(out@);
        proof {
            lemma_pieces_step(v@, i as int, sep);
        }
        if is_whitespace(v[i]) {
            if start < i {
                let word = s.substring_char(start, i);
                out.push(word);
                proof {
                    assert(str_views(out@) =~= before.push(word@));
                }
            }
            proof {
                closed.lemma_filter_push(cur, keep);
                closed = closed.push(cur);
                assert(v@.subrange(i + 1, i + 1) =~= Seq::<char>::empty());
            }
            start = i + 1;
        } else {
            proof {
                assert(closed.push(cur).drop_last() =~= closed);
                assert(cur.push(v@[i as int]) =~= v@.subrange(start as int, i + 1));
            }
        }
        i += 1;
    }
    let ghost cur = v@.subrange(start as int, n as int);
    proof {
        assert(v@.take(n as int) =~= v@);
        closed.lemma_filter_push(cur, keep);
    }
    if start < n {
        let word = s.substring_char(start, n);
        proof {
            assert(str_views(out@.push(word)) =~= str_views(out@).push(word@));
        }
        out.push(word);
    }
    out
}

/// Index of the first occurrence of `c` among the characters `v`, or `v.len()`.
pub fn char_index(v: &Vec<char>, c: char) -> (i: usize)
    ensures
        i == find_char(v@, c),
        i <= v.len(),
        i < v.len() ==> v@[i as int] == c,
        forall|k: int| 0 <= k < i ==> v@[k] != c,
{
    let n = v.len();
    let mut i: usize = 0;
    proof {
        assert(v@.skip(0) =~= v@);
    }
    while i < n
        invariant
            i <= n,
            n == v.len(),
            find_char(v@, c) == i + find_char(v@.skip(i as int), c),
            forall|k: int| 0 <= k < i ==> v@[k] != c,
        decreases n - i,
    {
        if v[i] == c {
            return i;
        }
        proof {
            assert(v@.skip(i as int).drop_first() =~= v@.skip(i + 1));
        }
        i += 1;
    }
    n
}

/// Index of the first annotation marker `#:` among the characters `v`, or `v.len()`.
pub fn marker_index(v: &Vec<char>) -> (m: usize)
    ensures
        m == find_marker(v@),
        m <= v.len(),
{
    let n = v.len();
    let mut i: usize = 0;
    proof {
        assert(v@.skip(0) =~= v@);
    }
    while n - i > 1
        invariant
            i <= n,
            n == v.len(),
            find_marker(v@) == i + find_marker(v@.skip(i as int)),
        decreases n - i,
    {
        if v[i] == '#' && v[i + 1] == ':' {
            return i;
        }
        proof {
            assert(v@.skip(i as int).drop_first() =~= v@.skip(i + 1));
        }
        i += 1;
    }
    proof {
        let rest = v@.skip(i as int);
        assert(rest.len() < 2);
        assert(i + rest.len() == n);
    }
    n
}

} // verus!
