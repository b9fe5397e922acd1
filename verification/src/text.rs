//! Text handling shared by the rest of the crate: trimming, splitting the output of
//! commands into fields, rendering numbers, and joining pieces.
//!
//! Every specification here speaks of `Seq<char>`, the view of `str` and `String`.

use vstd::prelude::*;
use vstd::string::*;

verus! {

/// The views of a list of strings, in order.
pub open spec fn texts(list: Seq<String>) -> Seq<Seq<char>> {
    list.map_values(|s: String| s@)
}

/// Pushing onto a list of strings pushes the new string's view onto the list of views.
pub proof fn lemma_texts_push(list: Seq<String>, s: String)
    ensures
        texts(list.push(s)) == texts(list).push(s@),
{
    assert(texts(list.push(s)) =~= texts(list).push(s@));
}

/// Whether `c` has the Unicode property `White_Space`, the set that `char::is_whitespace`
/// documents.
pub open spec fn is_whitespace(c: char) -> bool {
    let u = c as u32;
    ||| 0x09 <= u <= 0x0D
    ||| u == 0x20
    ||| u == 0x85
    ||| u == 0xA0
    ||| u == 0x1680
    ||| 0x2000 <= u <= 0x200A
    ||| u == 0x2028
    ||| u == 0x2029
    ||| u == 0x202F
    ||| u == 0x205F
    ||| u == 0x3000
}

/// `s` without its leading whitespace.
pub open spec fn trim_start(s: Seq<char>) -> Seq<char>
    decreases s.len(),
{
    if s.len() > 0 && is_whitespace(s.first()) {
        trim_start(s.drop_first())
    } else {
        s
    }
}

/// `s` without its trailing whitespace.
pub open spec fn trim_end(s: Seq<char>) -> Seq<char>
    decreases s.len(),
{
    if s.len() > 0 && is_whitespace(s.last()) {
        trim_end(s.drop_last())
    } else {
        s
    }
}

/// `s` without leading and trailing whitespace.
pub open spec fn trim(s: Seq<char>) -> Seq<char> {
    trim_end(trim_start(s))
}

/// The pieces of `s` between occurrences of `sep`. There is always at least one piece; a
/// separator at the very end leaves an empty last piece.
pub open spec fn split(s: Seq<char>, sep: char) -> Seq<Seq<char>>
    decreases s.len(),
{
    if s.len() == 0 {
        seq![Seq::<char>::empty()]
    } else {
        let before = split(s.drop_last(), sep);
        if s.last() == sep {
            before.push(Seq::<char>::empty())
        } else {
            before.drop_last().push(before.last().push(s.last()))
        }
    }
}

/// The pieces of `s` where `sep` ends a piece rather than standing between two: as `split`,
/// without the empty piece that a closing separator (or an empty text) leaves at the end.
pub open spec fn split_terminator(s: Seq<char>, sep: char) -> Seq<Seq<char>> {
    let pieces = split(s, sep);
    if pieces.last().len() == 0 {
        pieces.drop_last()
    } else {
        pieces
    }
}

/// The word that is still open at the end of `s`: its longest suffix free of whitespace.
pub open spec fn open_word(s: Seq<char>) -> Seq<char>
    decreases s.len(),
{
    if s.len() == 0 || is_whitespace(s.last()) {
        Seq::<char>::empty()
    } else {
        open_word(s.drop_last()).push(s.last())
    }
}

/// The words of `s` that whitespace has already closed.
pub open spec fn closed_words(s: Seq<char>) -> Seq<Seq<char>>
    decreases s.len(),
{
    if s.len() == 0 {
        Seq::<Seq<char>>::empty()
    } else if is_whitespace(s.last()) && open_word(s.drop_last()).len() > 0 {
        closed_words(s.drop_last()).push(open_word(s.drop_last()))
    } else {
        closed_words(s.drop_last())
    }
}

/// The maximal runs of non-whitespace characters of `s`, in order.
pub open spec fn words(s: Seq<char>) -> Seq<Seq<char>> {
    if open_word(s).len() > 0 {
        closed_words(s).push(open_word(s))
    } else {
        closed_words(s)
    }
}

/// The decimal digit for `d`, which is below ten.
pub open spec fn digit(d: nat) -> char {
    if d == 0 {
        '0'
    } else if d == 1 {
        '1'
    } else if d == 2 {
        '2'
    } else if d == 3 {
        '3'
    } else if d == 4 {
        '4'
    } else if d == 5 {
        '5'
    } else if d == 6 {
        '6'
    } else if d == 7 {
        '7'
    } else if d == 8 {
        '8'
    } else {
        '9'
    }
}

/// `n` in decimal, without leading zeros.
pub open spec fn decimal(n: nat) -> Seq<char>
    decreases n,
{
    if n < 10 {
        seq![digit(n)]
    } else {
        decimal(n / 10).push(digit(n % 10))
    }
}

/// The pieces joined into one text, with `sep` between neighbours.
pub open spec fn join(pieces: Seq<Seq<char>>, sep: Seq<char>) -> Seq<char>
    decreases pieces.len(),
{
    if pieces.len() == 0 {
        Seq::<char>::empty()
    } else if pieces.len() == 1 {
        pieces[0]
    } else {
        join(pieces.drop_last(), sep) + sep + pieces.last()
    }
}

/// Splitting loses nothing: there is at least one piece, no piece holds the separator, and
/// the pieces joined by the separator give the text back.
pub proof fn lemma_split(s: Seq<char>, sep: char)
    ensures
        split(s, sep).len() >= 1,
        forall|i: int| 0 <= i < split(s, sep).len() ==> !(#[trigger] split(s, sep)[i]).contains(sep),
        join(split(s, sep), seq![sep]) == s,
    decreases s.len(),
{
    let pieces = split(s, sep);
    if s.len() == 0 {
        assert forall|i: int| 0 <= i < pieces.len() implies !(#[trigger] pieces[i]).contains(
            sep,
        ) by {
            assert(pieces[i].len() == 0);
        }
    } else {
        let rest = s.drop_last();
        let before = split(rest, sep);
        lemma_split(rest, sep);
        assert(rest.push(s.last()) =~= s);
        if s.last() == sep {
            assert(pieces.drop_last() =~= before);
            assert(pieces.last().len() == 0);
            assert(join(pieces, seq![sep]) =~= rest + seq![sep]);
            assert forall|i: int| 0 <= i < pieces.len() implies !(#[trigger] pieces[i]).contains(
                sep,
            ) by {
                if i < before.len() {
                    assert(pieces[i] == before[i]);
                }
            }
        } else {
            let grown = before.last().push(s.last());
            assert(pieces.drop_last() =~= before.drop_last());
            assert(pieces.last() == grown);
            if before.len() == 1 {
                assert(before[0] == before.last());
                assert(join(pieces, seq![sep]) =~= rest.push(s.last()));
            } else {
                assert(join(before, seq![sep]) == join(before.drop_last(), seq![sep]) + seq![sep]
                    + before.last());
                assert(join(pieces, seq![sep]) =~= join(before.drop_last(), seq![sep]) + seq![sep]
                    + before.last().push(s.last()));
                assert(join(pieces, seq![sep]) =~= rest.push(s.last()));
            }
            assert forall|i: int| 0 <= i < pieces.len() implies !(#[trigger] pieces[i]).contains(
                sep,
            ) by {
                if i < before.len() - 1 {
                    assert(pieces[i] == before[i]);
                } else {
                    crate::paths::lemma_contains_push(before.last(), s.last(), sep);
                    assert(!before[before.len() - 1].contains(sep));
                }
            }
        }
    }
}

/// The number that a text of decimal digits stands for.
pub open spec fn decimal_value(s: Seq<char>) -> nat
    decreases s.len(),
{
    if s.len() == 0 {
        0
    } else {
        decimal_value(s.drop_last()) * 10 + (s.last() as u32 - '0' as u32) as nat
    }
}

/// A number written in decimal reads back as itself, and is written without a leading
/// zero unless it is zero.
pub proof fn lemma_decimal(n: nat)
    ensures
        decimal_value(decimal(n)) == n,
        decimal(n).len() >= 1,
        forall|i: int| 0 <= i < decimal(n).len() ==> '0' <= #[trigger] decimal(n)[i] <= '9',
        decimal(n)[0] == '0' ==> n == 0,
    decreases n,
{
    let text = decimal(n);
    if n < 10 {
        assert(text.drop_last() =~= Seq::<char>::empty());
        assert(decimal_value(text.drop_last()) == 0);
    } else {
        lemma_decimal(n / 10);
        let head = decimal(n / 10);
        assert(text.drop_last() =~= head);
        assert(text.last() == digit(n % 10));
        assert forall|i: int| 0 <= i < text.len() implies '0' <= #[trigger] text[i] <= '9' by {
            if i < head.len() {
                assert(text[i] == head[i]);
            }
        }
        assert(text[0] == head[0]);
    }
}

/// Words are what white space leaves: no word is empty, and none holds white space.
pub proof fn lemma_words(s: Seq<char>)
    ensures
        forall|i: int|
            0 <= i < words(s).len() ==> (#[trigger] words(s)[i]).len() > 0 && (forall|k: int|
                0 <= k < words(s)[i].len() ==> !is_whitespace(#[trigger] words(s)[i][k])),
{
    lemma_word_parts(s);
    assert forall|i: int| 0 <= i < words(s).len() implies (#[trigger] words(s)[i]).len() > 0 && (
    forall|k: int| 0 <= k < words(s)[i].len() ==> !is_whitespace(#[trigger] words(s)[i][k])) by {
        if i < closed_words(s).len() {
            assert(words(s)[i] == closed_words(s)[i]);
        } else {
            assert(words(s)[i] == open_word(s));
        }
    }
}

proof fn lemma_word_parts(s: Seq<char>)
    ensures
        forall|k: int| 0 <= k < open_word(s).len() ==> !is_whitespace(#[trigger] open_word(s)[k]),
        forall|i: int|
            0 <= i < closed_words(s).len() ==> (#[trigger] closed_words(s)[i]).len() > 0 && (
            forall|k: int|
                0 <= k < closed_words(s)[i].len() ==> !is_whitespace(
                    #[trigger] closed_words(s)[i][k],
                )),
    decreases s.len(),
{
    if s.len() > 0 {
        let rest = s.drop_last();
        lemma_word_parts(rest);
        assert forall|k: int| 0 <= k < open_word(s).len() implies !is_whitespace(
            #[trigger] open_word(s)[k],
        ) by {
            if k < open_word(rest).len() {
                assert(open_word(s)[k] == open_word(rest)[k]);
            }
        }
        assert forall|i: int| 0 <= i < closed_words(s).len() implies (#[trigger] closed_words(
            s,
        )[i]).len() > 0 && (forall|k: int|
            0 <= k < closed_words(s)[i].len() ==> !is_whitespace(
                #[trigger] closed_words(s)[i][k],
            )) by {
            if i < closed_words(rest).len() {
                assert(closed_words(s)[i] == closed_words(rest)[i]);
            } else {
                assert(closed_words(s)[i] == open_word(rest));
            }
        }
    }
}

/// Trimming takes away white space only, and all of it at both ends: the trimmed text
/// neither starts nor ends with white space, and it is the text between two runs of white
/// space.
pub proof fn lemma_trim(s: Seq<char>)
    ensures
        trim(s).len() > 0 ==> !is_whitespace(trim(s).first()) && !is_whitespace(trim(s).last()),
        exists|a: int, b: int|
            0 <= a <= b <= s.len() && trim(s) == s.subrange(a, b) && (forall|i: int|
                0 <= i < a || b <= i < s.len() ==> is_whitespace(#[trigger] s[i])),
{
    lemma_trim_start_shape(s);
    let a = choose|a: int|
        0 <= a <= s.len() && trim_start(s) == s.subrange(a, s.len() as int) && (forall|i: int|
            0 <= i < a ==> is_whitespace(#[trigger] s[i])) && (a < s.len() ==> !is_whitespace(
            s[a],
        ));
    let t = s.subrange(a, s.len() as int);
    lemma_trim_end_shape(t);
    let n = choose|n: int|
        0 <= n <= t.len() && trim_end(t) == t.subrange(0, n) && (forall|i: int|
            n <= i < t.len() ==> is_whitespace(#[trigger] t[i])) && (n > 0 ==> !is_whitespace(
            t[n - 1],
        ));
    let b = a + n;
    assert(t.subrange(0, n) =~= s.subrange(a, b));
    assert forall|i: int| 0 <= i < a || b <= i < s.len() implies is_whitespace(
        #[trigger] s[i],
    ) by {
        if b <= i {
            assert(t[i - a] == s[i]);
        }
    }
    if trim(s).len() > 0 {
        assert(trim(s).first() == s[a]);
        assert(trim(s).last() == t[n - 1]);
    }
}

proof fn lemma_trim_start_shape(s: Seq<char>)
    ensures
        exists|a: int|
            0 <= a <= s.len() && trim_start(s) == s.subrange(a, s.len() as int) && (forall|i: int|
                0 <= i < a ==> is_whitespace(#[trigger] s[i])) && (a < s.len() ==> !is_whitespace(
                s[a],
            )),
    decreases s.len(),
{
    if s.len() > 0 && is_whitespace(s.first()) {
        let rest = s.drop_first();
        lemma_trim_start_shape(rest);
        let r = choose|r: int|
            0 <= r <= rest.len() && trim_start(rest) == rest.subrange(r, rest.len() as int)
                && (forall|i: int| 0 <= i < r ==> is_whitespace(#[trigger] rest[i])) && (r
                < rest.len() ==> !is_whitespace(rest[r]));
        let a = r + 1;
        assert(rest.subrange(r, rest.len() as int) =~= s.subrange(a, s.len() as int));
        assert forall|i: int| 0 <= i < a implies is_whitespace(#[trigger] s[i]) by {
            if i > 0 {
                assert(rest[i - 1] == s[i]);
            }
        }
        if a < s.len() {
            assert(rest[r] == s[a]);
        }
        assert(0 <= a <= s.len() && trim_start(s) == s.subrange(a, s.len() as int) && (forall|
            i: int,
        |
            0 <= i < a ==> is_whitespace(#[trigger] s[i])) && (a < s.len() ==> !is_whitespace(
            s[a],
        )));
    } else {
        assert(s.subrange(0, s.len() as int) =~= s);
        assert(0 <= 0 <= s.len() && trim_start(s) == s.subrange(0, s.len() as int) && (forall|
            i: int,
        |
            0 <= i < 0 ==> is_whitespace(#[trigger] s[i])) && (0 < s.len() ==> !is_whitespace(
            s[0],
        )));
    }
}

proof fn lemma_trim_end_shape(s: Seq<char>)
    ensures
        exists|n: int|
            0 <= n <= s.len() && trim_end(s) == s.subrange(0, n) && (forall|i: int|
                n <= i < s.len() ==> is_whitespace(#[trigger] s[i])) && (n > 0 ==> !is_whitespace(
                s[n - 1],
            )),
    decreases s.len(),
{
    if s.len() > 0 && is_whitespace(s.last()) {
        let rest = s.drop_last();
        lemma_trim_end_shape(rest);
        let n = choose|n: int|
            0 <= n <= rest.len() && trim_end(rest) == rest.subrange(0, n) && (forall|i: int|
                n <= i < rest.len() ==> is_whitespace(#[trigger] rest[i])) && (n > 0
                ==> !is_whitespace(rest[n - 1]));
        assert(rest.subrange(0, n) =~= s.subrange(0, n));
        assert forall|i: int| n <= i < s.len() implies is_whitespace(#[trigger] s[i]) by {
            if i < rest.len() {
                assert(rest[i] == s[i]);
            }
        }
        if n > 0 {
            assert(rest[n - 1] == s[n - 1]);
        }
        assert(0 <= n <= s.len() && trim_end(s) == s.subrange(0, n) && (forall|i: int|
            n <= i < s.len() ==> is_whitespace(#[trigger] s[i])) && (n > 0 ==> !is_whitespace(
            s[n - 1],
        )));
    } else {
        let n = s.len() as int;
        assert(s.subrange(0, n) =~= s);
        assert(0 <= n <= s.len() && trim_end(s) == s.subrange(0, n) && (forall|i: int|
            n <= i < s.len() ==> is_whitespace(#[trigger] s[i])) && (n > 0 ==> !is_whitespace(
            s[n - 1],
        )));
    }
}

/// Appends one character to a string (`String::push`): the string's view grows by exactly
/// that character.
#[verifier::external_body]
pub(crate) fn push_char(s: &mut String, c: char)
    ensures
        final(s)@ == old(s)@.push(c),
{
    s.push(c)
}

/// The characters of `s`.
pub fn chars_of(s: &str) -> (v: Vec<char>)
    ensures
        v@ == s@,
{
    let mut v: Vec<char> = Vec::new();
    for c in it: s.chars()
        invariant
            v@ == it.seq().take(it.index() as int),
            it.seq() == s@,
    {
        v.push(c);
    }
    v
}

/// The text made of `chars[from..to]`.
pub(crate) fn text_of(chars: &Vec<char>, from: usize, to: usize) -> (s: String)
    requires
        from <= to <= chars.len(),
    ensures
        s@ == chars@.subrange(from as int, to as int),
{
    let mut s = String::new();
    let mut i: usize = from;
    while i < to
        invariant
            from <= i <= to <= chars.len(),
            s@ == chars@.subrange(from as int, i as int),
        decreases to - i,
    {
        push_char(&mut s, chars[i]);
        assert(chars@.subrange(from as int, i + 1) =~= chars@.subrange(from as int, i as int).push(
            chars@[i as int],
        ));
        i += 1;
    }
    s
}

/// Whether `c` is whitespace.
pub fn char_is_whitespace(c: char) -> (b: bool)
    ensures
        b == is_whitespace(c),
{
    let u: u32 = c as u32;
    (0x09 <= u && u <= 0x0D) || u == 0x20 || u == 0x85 || u == 0xA0 || u == 0x1680 || (0x2000 <= u
        && u <= 0x200A) || u == 0x2028 || u == 0x2029 || u == 0x202F || u == 0x205F || u == 0x3000
}

proof fn lemma_trim_start(s: Seq<char>, a: int)
    requires
        0 <= a <= s.len(),
        forall|i: int| 0 <= i < a ==> is_whitespace(s[i]),
        a < s.len() ==> !is_whitespace(s[a]),
    ensures
        trim_start(s) == s.subrange(a, s.len() as int),
    decreases a,
{
    if a == 0 {
        assert(s.subrange(0, s.len() as int) =~= s);
    } else {
        let rest = s.drop_first();
        assert forall|i: int| 0 <= i < a - 1 implies is_whitespace(rest[i]) by {
            assert(rest[i] == s[i + 1]);
        }
        lemma_trim_start(rest, a - 1);
        assert(rest.subrange(a - 1, rest.len() as int) =~= s.subrange(a, s.len() as int));
    }
}

proof fn lemma_trim_end(s: Seq<char>, b: int)
    requires
        0 <= b <= s.len(),
        forall|i: int| b <= i < s.len() ==> is_whitespace(s[i]),
        b > 0 ==> !is_whitespace(s[b - 1]),
    ensures
        trim_end(s) == s.subrange(0, b),
    decreases s.len() - b,
{
    if b == s.len() {
        assert(s.subrange(0, b) =~= s);
    } else {
        let rest = s.drop_last();
        lemma_trim_end(rest, b);
        assert(rest.subrange(0, b) =~= s.subrange(0, b));
    }
}

/// The bounds of `trim(chars@)` inside `chars`.
pub fn trim_bounds(chars: &Vec<char>) -> (bounds: (usize, usize))
    ensures
        bounds.0 <= bounds.1 <= chars.len(),
        trim(chars@) == chars@.subrange(bounds.0 as int, bounds.1 as int),
{
    let n = chars.len();
    let mut a: usize = 0;
    while a < n && char_is_whitespace(chars[a])
        invariant
            a <= n,
            n == chars.len(),
            forall|i: int| 0 <= i < a ==> is_whitespace(chars@[i]),
        decreases n - a,
    {
        a += 1;
    }
    let mut b: usize = n;
    while b > a && char_is_whitespace(chars[b - 1])
        invariant
            a <= b <= n,
            n == chars.len(),
            forall|i: int| b <= i < n ==> is_whitespace(chars@[i]),
        decreases b,
    {
        b -= 1;
    }
    proof {
        let s = chars@;
        lemma_trim_start(s, a as int);
        let t = s.subrange(a as int, n as int);
        assert forall|i: int| b - a <= i < t.len() implies is_whitespace(t[i]) by {
            assert(t[i] == s[i + a]);
        }
        if b > a {
            assert(t[b - a - 1] == s[b - 1]);
        }
        lemma_trim_end(t, b - a);
        assert(t.subrange(0, b - a) =~= s.subrange(a as int, b as int));
    }
    (a, b)
}

/// `s` without leading and trailing whitespace.
pub fn trimmed(s: &str) -> (t: String)
    ensures
        t@ == trim(s@),
{
    let chars = chars_of(s);
    let (a, b) = trim_bounds(&chars);
    text_of(&chars, a, b)
}

/// Cuts `chars[from..to]` at every `sep`: the pieces before the last one, and the last one.
fn split_range(chars: &Vec<char>, from: usize, to: usize, sep: char) -> (pieces: (
    Vec<String>,
    String,
))
    requires
        from <= to <= chars.len(),
    ensures
        split(chars@.subrange(from as int, to as int), sep) == texts(pieces.0@).push(pieces.1@),
{
    let ghost body = chars@.subrange(from as int, to as int);
    let mut done: Vec<String> = Vec::new();
    let mut cur = String::new();
    let mut i: usize = from;
    proof {
        assert(body.subrange(0, 0) =~= Seq::<char>::empty());
        assert(texts(done@).push(cur@) =~= seq![Seq::<char>::empty()]);
    }
    while i < to
        invariant
            from <= i <= to <= chars.len(),
            body == chars@.subrange(from as int, to as int),
            split(body.subrange(0, i - from), sep) == texts(done@).push(cur@),
        decreases to - i,
    {
        let c = chars[i];
        proof {
            let now = body.subrange(0, i + 1 - from);
            assert(now.drop_last() =~= body.subrange(0, i - from));
            assert(now.last() == c);
            let before = texts(done@).push(cur@);
            assert(before.drop_last() =~= texts(done@));
            assert(before.last() == cur@);
        }
        if c == sep {
            proof {
                lemma_texts_push(done@, cur);
            }
            done.push(cur);
            cur = String::new();
        } else {
            push_char(&mut cur, c);
        }
        i += 1;
    }
    proof {
        assert(body.subrange(0, to - from) =~= body);
    }
    (done, cur)
}

/// The pieces of `s` between occurrences of `sep`.
pub fn split_fields(s: &str, sep: char) -> (fields: Vec<String>)
    ensures
        texts(fields@) == split(s@, sep),
        fields.len() >= 1,
{
    let chars = chars_of(s);
    let (mut done, cur) = split_range(&chars, 0, chars.len(), sep);
    proof {
        assert(chars@.subrange(0, chars.len() as int) =~= chars@);
        lemma_texts_push(done@, cur);
    }
    done.push(cur);
    done
}

/// The fields of a command's output in which `sep` ends each field: the output is trimmed,
/// then cut at every `sep`.
pub fn terminated_fields(output: &str, sep: char) -> (fields: Vec<String>)
    ensures
        texts(fields@) == split_terminator(trim(output@), sep),
{
    let chars = chars_of(output);
    let (a, b) = trim_bounds(&chars);
    let (mut done, cur) = split_range(&chars, a, b, sep);
    proof {
        let pieces = texts(done@).push(cur@);
        assert(pieces.last() == cur@);
        assert(pieces.drop_last() =~= texts(done@));
    }
    if cur.as_str().unicode_len() > 0 {
        proof {
            lemma_texts_push(done@, cur);
        }
        done.push(cur);
    }
    done
}

/// The words of `s`: its maximal runs of characters that are not whitespace.
pub fn split_whitespace(s: &str) -> (found: Vec<String>)
    ensures
        texts(found@) == words(s@),
{
    let chars = chars_of(s);
    let n = chars.len();
    let mut done: Vec<String> = Vec::new();
    let mut cur = String::new();
    let mut i: usize = 0;
    proof {
        assert(texts(done@) =~= Seq::<Seq<char>>::empty());
    }
    while i < n
        invariant
            i <= n,
            n == chars.len(),
            chars@ == s@,
            texts(done@) == closed_words(chars@.take(i as int)),
            cur@ == open_word(chars@.take(i as int)),
        decreases n - i,
    {
        let c = chars[i];
        proof {
            let now = chars@.take(i + 1);
            assert(now.drop_last() =~= chars@.take(i as int));
            assert(now.last() == c);
        }
        if char_is_whitespace(c) {
            if cur.as_str().unicode_len() > 0 {
                proof {
                    lemma_texts_push(done@, cur);
                }
                done.push(cur);
            }
            cur = String::new();
        } else {
            push_char(&mut cur, c);
        }
        i += 1;
    }
    proof {
        assert(chars@.take(n as int) =~= chars@);
    }
    if cur.as_str().unicode_len() > 0 {
        proof {
            lemma_texts_push(done@, cur);
        }
        done.push(cur);
    }
    done
}

/// The text of one decimal digit.
fn digit_text(d: u8) -> (t: &'static str)
    requires
        d < 10,
    ensures
        t@ == seq![digit(d as nat)],
{
    proof {
        reveal_strlit("0");
        reveal_strlit("1");
        reveal_strlit("2");
        reveal_strlit("3");
        reveal_strlit("4");
        reveal_strlit("5");
        reveal_strlit("6");
        reveal_strlit("7");
        reveal_strlit("8");
        reveal_strlit("9");
    }
    let t = if d == 0 {
        "0"
    } else if d == 1 {
        "1"
    } else if d == 2 {
        "2"
    } else if d == 3 {
        "3"
    } else if d == 4 {
        "4"
    } else if d == 5 {
        "5"
    } else if d == 6 {
        "6"
    } else if d == 7 {
        "7"
    } else if d == 8 {
        "8"
    } else {
        "9"
    };
    assert(t@ =~= seq![digit(d as nat)]);
    t
}

/// Appends `n` in decimal to `out`.
pub fn append_decimal(out: &mut String, n: u128)
    ensures
        final(out)@ == old(out)@ + decimal(n as nat),
    decreases n,
{
    if n >= 10 {
        append_decimal(out, n / 10);
    }
    let d: u8 = (n % 10) as u8;
    out.append(digit_text(d));
    proof {
        if n >= 10 {
            assert(old(out)@ + decimal((n / 10) as nat) + seq![digit((n % 10) as nat)] =~= old(
                out,
            )@ + decimal(n as nat));
        } else {
            assert(n % 10 == n);
        }
    }
}

/// `n` in decimal.
pub fn decimal_text(n: u128) -> (t: String)
    ensures
        t@ == decimal(n as nat),
{
    let mut t = String::new();
    append_decimal(&mut t, n);
    assert(Seq::<char>::empty() + decimal(n as nat) =~= decimal(n as nat));
    t
}

/// Whether `s` begins with `prefix`.
pub fn starts_with(s: &str, prefix: &str) -> (b: bool)
    ensures
        b == prefix@.is_prefix_of(s@),
{
    let text = chars_of(s);
    let head = chars_of(prefix);
    if head.len() > text.len() {
        return false;
    }
    let mut i: usize = 0;
    while i < head.len()
        invariant
            i <= head.len() <= text.len(),
            text@ == s@,
            head@ == prefix@,
            forall|k: int| 0 <= k < i ==> text@[k] == head@[k],
        decreases head.len() - i,
    {
        if text[i] != head[i] {
            return false;
        }
        i += 1;
    }
    assert(prefix@ =~= s@.subrange(0, prefix@.len() as int));
    true
}

/// Whether `s` ends with `suffix`.
pub open spec fn ends_with(s: Seq<char>, suffix: Seq<char>) -> bool {
    suffix.len() <= s.len() && s.subrange(s.len() - suffix.len(), s.len() as int) == suffix
}

/// `s` without the `suffix` that it ends with, or `None` where it does not end with it.
pub fn strip_suffix(s: &str, suffix: &str) -> (stem: Option<String>)
    ensures
        match stem {
            Some(rest) => ends_with(s@, suffix@) && rest@ == s@.subrange(
                0,
                s@.len() - suffix@.len(),
            ),
            None => !ends_with(s@, suffix@),
        },
{
    let text = chars_of(s);
    let tail = chars_of(suffix);
    if tail.len() > text.len() {
        return None;
    }
    let start = text.len() - tail.len();
    let mut i: usize = 0;
    while i < tail.len()
        invariant
            i <= tail.len() <= text.len(),
            start == text.len() - tail.len(),
            text@ == s@,
            tail@ == suffix@,
            forall|k: int| 0 <= k < i ==> text@[start + k] == tail@[k],
        decreases tail.len() - i,
    {
        if text[start + i] != tail[i] {
            assert(s@.subrange(s@.len() - suffix@.len(), s@.len() as int)[i as int] != suffix@[i as int]);
            return None;
        }
        i += 1;
    }
    assert(s@.subrange(s@.len() - suffix@.len(), s@.len() as int) =~= suffix@);
    Some(text_of(&text, 0, start))
}

/// Whether the text is empty.
pub fn is_empty_text(s: &str) -> (b: bool)
    ensures
        b == (s@.len() == 0),
{
    s.unicode_len() == 0
}

/// Whether the two texts are the same.
pub fn same_text(a: &str, b: &str) -> (same: bool)
    ensures
        same == (a@ == b@),
{
    let left = String::from_str(a);
    let right = String::from_str(b);
    left == right
}

/// Whether `list` holds a string equal to `item`.
pub fn contains_text(list: &Vec<String>, item: &String) -> (b: bool)
    ensures
        b == texts(list@).contains(item@),
{
    let mut i: usize = 0;
    while i < list.len()
        invariant
            i <= list.len(),
            forall|k: int| 0 <= k < i ==> texts(list@)[k] != item@,
        decreases list.len() - i,
    {
        if list[i] == *item {
            assert(texts(list@)[i as int] == item@);
            return true;
        }
        i += 1;
    }
    false
}

/// Appends copies of `items` to `list`.
pub fn extend_texts(list: &mut Vec<String>, items: &Vec<String>)
    ensures
        texts(final(list)@) == texts(old(list)@) + texts(items@),
{
    let mut i: usize = 0;
    assert(texts(list@) =~= texts(old(list)@) + texts(items@).take(0));
    while i < items.len()
        invariant
            i <= items.len(),
            texts(list@) == texts(old(list)@) + texts(items@).take(i as int),
        decreases items.len() - i,
    {
        let item = items[i].clone();
        proof {
            lemma_texts_push(list@, item);
            assert(texts(old(list)@) + texts(items@).take(i + 1) =~= (texts(old(list)@) + texts(
                items@,
            ).take(i as int)).push(item@));
        }
        list.push(item);
        i += 1;
    }
    assert(texts(items@).take(items.len() as int) =~= texts(items@));
}

/// The strings joined into one, with `sep` between neighbours.
pub fn join_texts(pieces: &Vec<String>, sep: &str) -> (joined: String)
    ensures
        joined@ == join(texts(pieces@), sep@),
{
    let mut joined = String::new();
    let mut i: usize = 0;
    while i < pieces.len()
        invariant
            i <= pieces.len(),
            joined@ == join(texts(pieces@).take(i as int), sep@),
        decreases pieces.len() - i,
    {
        if i > 0 {
            joined.append(sep);
        }
        joined.append(pieces[i].as_str());
        proof {
            let now = texts(pieces@).take(i + 1);
            assert(now.drop_last() =~= texts(pieces@).take(i as int));
            assert(now.last() == pieces@[i as int]@);
            if i == 0 {
                assert(Seq::<char>::empty() + pieces@[0]@ =~= pieces@[0]@);
            }
        }
        i += 1;
    }
    assert(texts(pieces@).take(pieces.len() as int) =~= texts(pieces@));
    joined
}

} // verus!
