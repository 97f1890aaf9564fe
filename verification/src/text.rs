//! Small text tools: decimal numbers, whitespace, splitting into words.
use vstd::prelude::*;

verus! {

/// `String::push` of std: appends one character at the end of the string.
pub assume_specification[ String::push ](s: &mut String, c: char)
    ensures
        final(s)@ == old(s)@.push(c),
;

/// The character of a decimal digit.
pub open spec fn digit_char(d: int) -> char {
    (48 + d) as char
}

/// A number written in decimal, without leading zeros.
pub open spec fn decimal(n: nat) -> Seq<char>
    decreases n,
{
    if n < 10 {
        seq![digit_char(n as int)]
    } else {
        decimal(n / 10).push(digit_char((n % 10) as int))
    }
}

/// An integer written in decimal, with a minus sign when it is negative.
pub open spec fn signed_decimal(n: int) -> Seq<char> {
    if n < 0 {
        seq!['-'] + decimal((-n) as nat)
    } else {
        decimal(n as nat)
    }
}

/// Appends a number in decimal.
pub fn push_decimal(s: &mut String, n: u128)
    ensures
        final(s)@ == old(s)@ + decimal(n as nat),
    decreases n,
{
    if n >= 10 {
        push_decimal(s, n / 10);
    }
    let d: u8 = (n % 10) as u8;
    s.push((48 + d) as char);
    assert(s@ =~= old(s)@ + decimal(n as nat));
}

/// Appends an integer in decimal.
pub fn push_signed(s: &mut String, n: i64)
    requires
        n > i64::MIN,
    ensures
        final(s)@ == old(s)@ + signed_decimal(n as int),
{
    if n < 0 {
        s.push('-');
        push_decimal(s, (-n) as u128);
        assert(s@ =~= old(s)@ + signed_decimal(n as int));
    } else {
        push_decimal(s, n as u128);
    }
}

/// The characters of a text, one by one.
pub fn chars_of(s: &str) -> (r: Vec<char>)
    ensures
        r@ == s@,
{
    let mut r: Vec<char> = Vec::new();
    for c in it: s.chars()
        invariant
            r@ == s@.take(it.index() as int),
            it.seq() == s@,
    {
        r.push(c);
        assert(s@.take(it.index() + 1) =~= s@.take(it.index() as int).push(c));
    }
    assert(s@.take(s@.len() as int) =~= s@);
    r
}

/// A text made of the characters `from .. to`.
pub fn text_of(chars: &Vec<char>, from: usize, to: usize) -> (r: String)
    requires
        from <= to <= chars.len(),
    ensures
        r@ == chars@.subrange(from as int, to as int),
{
    let mut r = String::new();
    for i in from..to
        invariant
            from <= i <= to <= chars.len(),
            r@ == chars@.subrange(from as int, i as int),
    {
        r.push(chars[i]);
        assert(r@ =~= chars@.subrange(from as int, i + 1));
    }
    r
}

/// White space: the Unicode property of that name.
pub open spec fn is_space(c: char) -> bool {
    let u = c as u32;
    ||| 0x9 <= u <= 0xd
    ||| u == 0x20
    ||| u == 0x85
    ||| u == 0xa0
    ||| u == 0x1680
    ||| 0x2000 <= u <= 0x200a
    ||| u == 0x2028
    ||| u == 0x2029
    ||| u == 0x202f
    ||| u == 0x205f
    ||| u == 0x3000
}

/// Whether a character is white space.
pub fn space(c: char) -> (r: bool)
    ensures
        r == is_space(c),
{
    let u = c as u32;
    (0x9 <= u && u <= 0xd) || u == 0x20 || u == 0x85 || u == 0xa0 || u == 0x1680 || (0x2000 <= u
        && u <= 0x200a) || u == 0x2028 || u == 0x2029 || u == 0x202f || u == 0x205f || u == 0x3000
}

/// A text without the white space at its end.
pub open spec fn trim_end(s: Seq<char>) -> Seq<char>
    decreases s.len(),
{
    if s.len() > 0 && is_space(s.last()) {
        trim_end(s.drop_last())
    } else {
        s
    }
}

/// A text without the white space at its start.
pub open spec fn trim_start(s: Seq<char>) -> Seq<char>
    decreases s.len(),
{
    if s.len() > 0 && is_space(s[0]) {
        trim_start(s.drop_first())
    } else {
        s
    }
}

/// A text without the white space at both ends.
pub open spec fn trimmed_text(s: Seq<char>) -> Seq<char> {
    trim_start(trim_end(s))
}

/// Removes the white space at both ends of a text.
pub fn trim(s: &str) -> (r: String)
    ensures
        r@ == trimmed_text(s@),
{
    let chars = chars_of(s);
    let mut to: usize = chars.len();
    assert(s@.take(to as int) =~= s@);
    while to > 0 && space(chars[to - 1])
        invariant
            to <= chars.len(),
            chars@ == s@,
            trim_end(s@.take(to as int)) == trim_end(s@),
        decreases to,
    {
        assert(s@.take(to as int).drop_last() =~= s@.take(to - 1));
        to = to - 1;
    }
    let ghost t = s@.take(to as int);
    assert(trim_end(s@) == t);
    let mut from: usize = 0;
    assert(t.skip(0) =~= t);
    while from < to && space(chars[from])
        invariant
            from <= to <= chars.len(),
            chars@ == s@,
            t == s@.take(to as int),
            trim_start(t.skip(from as int)) == trim_start(t),
        decreases to - from,
    {
        assert(t.skip(from as int).drop_first() =~= t.skip(from + 1));
        from = from + 1;
    }
    assert(trim_start(t) == t.skip(from as int));
    assert(t.skip(from as int) =~= chars@.subrange(from as int, to as int));
    text_of(&chars, from, to)
}

/// What separates words in a list of names: a comma or white space.
pub open spec fn is_separator(c: char) -> bool {
    c == ',' || is_space(c)
}

/// The pieces of a text between separators, empty ones included.
pub open spec fn pieces(s: Seq<char>) -> Seq<Seq<char>>
    decreases s.len(),
{
    if s.len() == 0 {
        seq![Seq::empty()]
    } else {
        let p = pieces(s.drop_last());
        if is_separator(s.last()) {
            p.push(Seq::empty())
        } else {
            p.drop_last().push(p.last().push(s.last()))
        }
    }
}

/// The words of a text: its non-empty pieces.
pub open spec fn words(s: Seq<char>) -> Seq<Seq<char>> {
    pieces(s).filter(|w: Seq<char>| w.len() > 0)
}

/// The contents of a list of texts.
pub open spec fn text_views(s: Seq<String>) -> Seq<Seq<char>> {
    Seq::new(s.len(), |i: int| s[i]@)
}

proof fn lemma_pieces_nonempty(s: Seq<char>)
    ensures
        pieces(s).len() > 0,
    decreases s.len(),
{
    if s.len() > 0 {
        lemma_pieces_nonempty(s.drop_last());
    }
}

proof fn lemma_filter_push(p: Seq<Seq<char>>, w: Seq<char>)
    ensures
        p.push(w).filter(|w: Seq<char>| w.len() > 0) == if w.len() > 0 {
            p.filter(|w: Seq<char>| w.len() > 0).push(w)
        } else {
            p.filter(|w: Seq<char>| w.len() > 0)
        },
{
    reveal(Seq::filter);
    assert(p.push(w).drop_last() =~= p);
}

/// Splits a list of names into its words.
pub fn split_words(s: &str) -> (r: Vec<String>)
    ensures
        text_views(r@) == words(s@),
{
    let chars = chars_of(s);
    let mut done: Vec<String> = Vec::new();
    let mut word = String::new();
    proof {
        reveal(Seq::filter);
        assert(s@.take(0) =~= Seq::<char>::empty());
        assert(text_views(done@) =~= Seq::<Seq<char>>::empty());
    }
    for i in 0..chars.len()
        invariant
            chars@ == s@,
            pieces(s@.take(i as int)).len() > 0,
            word@ == pieces(s@.take(i as int)).last(),
            text_views(done@) == pieces(s@.take(i as int)).drop_last().filter(
                |w: Seq<char>| w.len() > 0,
            ),
    {
        let c = chars[i];
        let ghost p = pieces(s@.take(i as int));
        let ghost q = pieces(s@.take(i + 1));
        let ghost before = done@;
        proof {
            assert(s@.take(i + 1).drop_last() =~= s@.take(i as int));
            assert(s@.take(i + 1).last() == c);
        }
        if c == ',' || space(c) {
            proof {
                assert(q == p.push(Seq::empty()));
                assert(q.drop_last() =~= p);
                assert(p =~= p.drop_last().push(p.last()));
                lemma_filter_push(p.drop_last(), p.last());
            }
            if !word.as_str().is_empty() {
                done.push(word);
                assert(text_views(done@) =~= text_views(before).push(p.last()));
            }
            word = String::new();
            assert(word@ =~= q.last());
        } else {
            word.push(c);
            proof {
                assert(q.drop_last() =~= p.drop_last());
            }
        }
    }
    proof {
        assert(s@.take(s@.len() as int) =~= s@);
        let p = pieces(s@);
        assert(p =~= p.drop_last().push(p.last()));
        lemma_filter_push(p.drop_last(), p.last());
    }
    let ghost before = done@;
    if !word.as_str().is_empty() {
        done.push(word);
        assert(text_views(done@) =~= text_views(before).push(pieces(s@).last()));
    }
    done
}

} // verus!
