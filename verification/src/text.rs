//! Text helpers: trimming, splitting and searching.

use vstd::prelude::*;

verus! {

/// Whether a character has the Unicode `White_Space` property.
pub open spec fn white_space(c: char) -> bool {
    let n = c as int;
    ||| 0x09 <= n <= 0x0d
    ||| n == 0x20
    ||| n == 0x85
    ||| n == 0xa0
    ||| n == 0x1680
    ||| 0x2000 <= n <= 0x200a
    ||| n == 0x2028
    ||| n == 0x2029
    ||| n == 0x202f
    ||| n == 0x205f
    ||| n == 0x3000
}

/// `char::is_whitespace` of std: whether the character has the Unicode
/// `White_Space` property.
pub assume_specification[ char::is_whitespace ](c: char) -> (r: bool)
    ensures
        r == white_space(c),
;

/// `String::push` of std appends the given character to the end.
pub assume_specification[ String::push ](s: &mut String, c: char)
    ensures
        final(s)@ == old(s)@.push(c),
;

/// The text without its leading white space.
pub open spec fn trim_start(s: Seq<char>) -> Seq<char>
    decreases s.len(),
{
    if s.len() > 0 && white_space(s.first()) {
        trim_start(s.drop_first())
    } else {
        s
    }
}

/// The text without its trailing white space.
pub open spec fn trim_end(s: Seq<char>) -> Seq<char>
    decreases s.len(),
{
    if s.len() > 0 && white_space(s.last()) {
        trim_end(s.drop_last())
    } else {
        s
    }
}

/// The text without leading and trailing white space.
pub open spec fn trimmed(s: Seq<char>) -> Seq<char> {
    trim_end(trim_start(s))
}

/// The position of the first `c`, or the length where there is none.
pub open spec fn first_index(s: Seq<char>, c: char) -> nat
    decreases s.len(),
{
    if s.len() == 0 || s.first() == c {
        0
    } else {
        1 + first_index(s.drop_first(), c)
    }
}

/// The parts before and after the first `c`.
pub open spec fn split_first(s: Seq<char>, c: char) -> Option<(Seq<char>, Seq<char>)> {
    let n = first_index(s, c) as int;
    if n < s.len() {
        Some((s.take(n), s.skip(n + 1)))
    } else {
        None
    }
}

/// The text without one carriage return at its end.
pub open spec fn without_cr(s: Seq<char>) -> Seq<char> {
    if s.len() > 0 && s.last() == '\r' {
        s.drop_last()
    } else {
        s
    }
}

/// The lines of a text: each ends at a line feed, or at a carriage return and
/// a line feed; the last line needs no ending.
pub open spec fn line_seq(s: Seq<char>) -> Seq<Seq<char>>
    decreases s.len(),
{
    proof {
        lemma_first_index(s, '\n');
    }
    let n = first_index(s, '\n') as int;
    if s.len() == 0 {
        Seq::empty()
    } else if n == s.len() {
        seq![s]
    } else {
        seq![without_cr(s.take(n))] + line_seq(s.skip(n + 1))
    }
}

/// The number of leading characters that are not white space.
pub open spec fn word_len(s: Seq<char>) -> nat
    decreases s.len(),
{
    if s.len() == 0 || white_space(s.first()) {
        0
    } else {
        1 + word_len(s.drop_first())
    }
}

/// The words of a text: its longest runs without white space.
pub open spec fn word_seq(s: Seq<char>) -> Seq<Seq<char>>
    decreases s.len(),
{
    proof {
        lemma_trim_start(s);
        lemma_word_len(trim_start(s));
    }
    let t = trim_start(s);
    if t.len() == 0 {
        Seq::empty()
    } else {
        seq![t.take(word_len(t) as int)] + word_seq(t.skip(word_len(t) as int))
    }
}

/// The texts one after the other, with `sep` between each two.
pub open spec fn joined(parts: Seq<Seq<char>>, sep: Seq<char>) -> Seq<char>
    decreases parts.len(),
{
    if parts.len() == 0 {
        Seq::empty()
    } else if parts.len() == 1 {
        parts[0]
    } else {
        joined(parts.drop_last(), sep) + sep + parts.last()
    }
}

/// Whether `p` is how `s` begins.
pub open spec fn has_prefix(s: Seq<char>, p: Seq<char>) -> bool {
    p.len() <= s.len() && s.take(p.len() as int) == p
}

/// Whether `p` occurs in `s`.
pub open spec fn occurs(s: Seq<char>, p: Seq<char>) -> bool {
    exists|i: int| 0 <= i <= s.len() - p.len() && #[trigger] s.subrange(i, i + p.len()) == p
}

/// The characters of each text.
pub open spec fn views(v: Seq<String>) -> Seq<Seq<char>> {
    Seq::new(v.len(), |i: int| v[i]@)
}

pub proof fn lemma_first_index(s: Seq<char>, c: char)
    ensures
        first_index(s, c) <= s.len(),
        forall|i: int| 0 <= i < first_index(s, c) ==> s[i] != c,
        first_index(s, c) < s.len() ==> s[first_index(s, c) as int] == c,
    decreases s.len(),
{
    if s.len() > 0 && s.first() != c {
        lemma_first_index(s.drop_first(), c);
        let n = first_index(s.drop_first(), c) as int;
        assert forall|i: int| 0 <= i < first_index(s, c) implies s[i] != c by {
            if i > 0 {
                assert(s.drop_first()[i - 1] == s[i]);
            }
        }
        if first_index(s, c) < s.len() {
            assert(s.drop_first()[n] == s[n + 1]);
        }
    }
}

/// What fixes the position of the first `c`.
pub proof fn lemma_first_index_is(s: Seq<char>, c: char, n: int)
    requires
        0 <= n <= s.len(),
        forall|i: int| 0 <= i < n ==> s[i] != c,
        n < s.len() ==> s[n] == c,
    ensures
        first_index(s, c) == n,
{
    lemma_first_index(s, c);
    let m = first_index(s, c) as int;
    if m < n {
        assert(s[m] == c);
    } else if n < m {
        assert(s[n] != c);
    }
}

pub proof fn lemma_trim_start_is(s: Seq<char>, n: int)
    requires
        0 <= n <= s.len(),
        forall|i: int| 0 <= i < n ==> white_space(s[i]),
        n < s.len() ==> !white_space(s[n]),
    ensures
        trim_start(s) == s.skip(n),
    decreases n,
{
    if n > 0 {
        assert(white_space(s[0]));
        assert forall|i: int| 0 <= i < n - 1 implies white_space(s.drop_first()[i]) by {
            assert(s.drop_first()[i] == s[i + 1]);
        }
        lemma_trim_start_is(s.drop_first(), n - 1);
        assert(s.drop_first().skip(n - 1) =~= s.skip(n));
    } else {
        assert(s.skip(0) =~= s);
    }
}

pub proof fn lemma_trim_end_is(s: Seq<char>, n: int)
    requires
        0 <= n <= s.len(),
        forall|i: int| n <= i < s.len() ==> white_space(s[i]),
        n > 0 ==> !white_space(s[n - 1]),
    ensures
        trim_end(s) == s.take(n),
    decreases s.len() - n,
{
    if n < s.len() {
        assert(white_space(s[s.len() - 1]));
        lemma_trim_end_is(s.drop_last(), n);
        assert(s.drop_last().take(n) =~= s.take(n));
    } else {
        assert(s.take(n) =~= s);
    }
}

pub proof fn lemma_word_len_is(s: Seq<char>, n: int)
    requires
        0 <= n <= s.len(),
        forall|i: int| 0 <= i < n ==> !white_space(s[i]),
        n < s.len() ==> white_space(s[n]),
    ensures
        word_len(s) == n,
    decreases n,
{
    if n > 0 {
        assert(!white_space(s[0]));
        assert forall|i: int| 0 <= i < n - 1 implies !white_space(s.drop_first()[i]) by {
            assert(s.drop_first()[i] == s[i + 1]);
        }
        lemma_word_len_is(s.drop_first(), n - 1);
    }
}

pub proof fn lemma_trim_start(s: Seq<char>)
    ensures
        trim_start(s).len() <= s.len(),
        trim_start(s) == s.skip(s.len() - trim_start(s).len()),
        trim_start(s).len() > 0 ==> !white_space(trim_start(s).first()),
    decreases s.len(),
{
    if s.len() > 0 && white_space(s.first()) {
        lemma_trim_start(s.drop_first());
        let k = trim_start(s).len() as int;
        assert(s.drop_first().skip(s.len() - 1 - k) =~= s.skip(s.len() - k));
    } else {
        assert(s.skip(0) =~= s);
    }
}

pub proof fn lemma_word_len(s: Seq<char>)
    ensures
        word_len(s) <= s.len(),
        s.len() > 0 && !white_space(s.first()) ==> word_len(s) > 0,
    decreases s.len(),
{
    if s.len() > 0 && !white_space(s.first()) {
        lemma_word_len(s.drop_first());
    }
}

/// A text that neither begins nor ends with white space is its own trimming.
pub proof fn lemma_trimmed_same(s: Seq<char>)
    requires
        s.len() > 0 ==> !white_space(s.first()) && !white_space(s.last()),
    ensures
        trimmed(s) == s,
{
}

proof fn lemma_trim_end_part(s: Seq<char>)
    ensures
        trim_end(s).len() <= s.len(),
        trim_end(s) == s.take(trim_end(s).len() as int),
        trim_end(s).len() > 0 ==> !white_space(trim_end(s).last()),
    decreases s.len(),
{
    if s.len() > 0 && white_space(s.last()) {
        lemma_trim_end_part(s.drop_last());
        assert(s.drop_last().take(trim_end(s).len() as int) =~= s.take(trim_end(s).len() as int));
    } else {
        assert(s.take(s.len() as int) =~= s);
    }
}

/// A trimmed text is its own trimming and holds only what the text held.
pub proof fn lemma_trimmed_part(s: Seq<char>)
    ensures
        trimmed(trimmed(s)) == trimmed(s),
        forall|c: char| !s.contains(c) ==> !#[trigger] trimmed(s).contains(c),
{
    let t = trim_start(s);
    let u = trim_end(t);
    lemma_trim_start(s);
    lemma_trim_end_part(t);
    if u.len() > 0 {
        assert(u.first() == t.first());
    }
    lemma_trimmed_same(u);
    assert forall|c: char| !s.contains(c) implies !#[trigger] trimmed(s).contains(c) by {
        if u.contains(c) {
            let i = choose|i: int| 0 <= i < u.len() && u[i] == c;
            assert(t[i] == c);
            assert(s[i + (s.len() - t.len())] == c);
        }
    }
}

/// The characters of a text, in order.
pub fn chars_of(s: &str) -> (r: Vec<char>)
    ensures
        r@ == s@,
{
    let mut out: Vec<char> = Vec::new();
    for c in it: s.chars()
        invariant
            out@ == it.seq().take(it.index() as int),
            it.seq() == s@,
    {
        out.push(c);
    }
    out
}

/// The text made of `chars[from..to]`.
pub fn text_of(chars: &[char], from: usize, to: usize) -> (r: String)
    requires
        from <= to <= chars@.len(),
    ensures
        r@ == chars@.subrange(from as int, to as int),
{
    let mut out = String::new();
    let mut i: usize = from;
    while i < to
        invariant
            from <= i <= to <= chars@.len(),
            out@ == chars@.subrange(from as int, i as int),
        decreases to - i,
    {
        out.push(chars[i]);
        i += 1;
    }
    out
}

/// Whether two texts hold the same characters.
pub fn same_text(a: &str, b: &str) -> (r: bool)
    ensures
        r == (a@ == b@),
{
    a.to_owned() == b.to_owned()
}

/// The text without leading and trailing white space.
pub fn trim(s: &str) -> (r: String)
    ensures
        r@ == trimmed(s@),
{
    let chars = chars_of(s);
    let mut from: usize = 0;
    while from < chars.len() && chars[from].is_whitespace()
        invariant
            from <= chars@.len(),
            forall|i: int| 0 <= i < from ==> white_space(chars@[i]),
        decreases chars@.len() - from,
    {
        from += 1;
    }
    proof {
        lemma_trim_start_is(s@, from as int);
    }
    let ghost rest = chars@.skip(from as int);
    let mut to: usize = chars.len();
    while to > from && chars[to - 1].is_whitespace()
        invariant
            from <= to <= chars@.len(),
            rest == chars@.skip(from as int),
            forall|i: int| to - from <= i < rest.len() ==> white_space(rest[i]),
        decreases to,
    {
        to -= 1;
    }
    proof {
        lemma_trim_end_is(rest, to - from);
        assert(rest.take(to - from) =~= chars@.subrange(from as int, to as int));
    }
    text_of(&chars, from, to)
}

/// The position of the first `c` at or after `from`, or the length.
fn find_char(chars: &[char], from: usize, c: char) -> (r: usize)
    requires
        from <= chars@.len(),
    ensures
        from <= r <= chars@.len(),
        r - from == first_index(chars@.skip(from as int), c),
{
    let mut i: usize = from;
    let ghost rest = chars@.skip(from as int);
    while i < chars.len() && chars[i] != c
        invariant
            from <= i <= chars@.len(),
            rest == chars@.skip(from as int),
            forall|k: int| 0 <= k < i - from ==> rest[k] != c,
        decreases chars@.len() - i,
    {
        i += 1;
    }
    proof {
        lemma_first_index_is(rest, c, i - from);
    }
    i
}

/// The parts before and after the first `c`, if the text holds one.
pub fn split_once(s: &str, c: char) -> (r: Option<(String, String)>)
    ensures
        r is Some <==> split_first(s@, c) is Some,
        r matches Some(p) ==> split_first(s@, c) == Some((p.0@, p.1@)),
{
    let chars = chars_of(s);
    assert(chars@.skip(0) =~= chars@);
    let n = find_char(&chars, 0, c);
    if n < chars.len() {
        let before = text_of(&chars, 0, n);
        let after = text_of(&chars, n + 1, chars.len());
        proof {
            assert(before@ =~= s@.take(n as int));
            assert(after@ =~= s@.skip(n + 1));
        }
        Some((before, after))
    } else {
        None
    }
}

/// The lines of a text.
pub fn lines(s: &str) -> (r: Vec<String>)
    ensures
        views(r@) == line_seq(s@),
{
    let chars = chars_of(s);
    let mut out: Vec<String> = Vec::new();
    let mut i: usize = 0;
    assert(chars@.skip(0) =~= chars@);
    while i < chars.len()
        invariant
            i <= chars@.len(),
            line_seq(chars@) == views(out@) + line_seq(chars@.skip(i as int)),
        decreases chars@.len() - i,
    {
        let ghost rest = chars@.skip(i as int);
        let n = find_char(&chars, i, '\n');
        proof {
            lemma_first_index(rest, '\n');
        }
        let ghost before = out@;
        if n == chars.len() {
            out.push(text_of(&chars, i, n));
            proof {
                assert(chars@.subrange(i as int, n as int) =~= rest);
                assert(views(out@) =~= views(before).push(rest));
                assert(line_seq(rest) =~= seq![rest]);
                assert(chars@.skip(n as int) =~= Seq::<char>::empty());
                assert(views(before) + seq![rest] =~= views(out@) + line_seq(
                    chars@.skip(n as int),
                ));
            }
            i = n;
        } else {
            let end: usize = if n > i && chars[n - 1] == '\r' {
                n - 1
            } else {
                n
            };
            out.push(text_of(&chars, i, end));
            proof {
                let line = rest.take(n - i);
                assert(line =~= chars@.subrange(i as int, n as int));
                assert(chars@.subrange(i as int, end as int) =~= without_cr(line));
                assert(rest.skip(n - i + 1) =~= chars@.skip(n + 1));
                assert(views(out@) =~= views(before).push(without_cr(line)));
                assert(views(before) + line_seq(rest) =~= views(out@) + line_seq(
                    chars@.skip(n + 1),
                ));
            }
            i = n + 1;
        }
    }
    proof {
        assert(chars@.skip(i as int) =~= Seq::<char>::empty());
        assert(views(out@) + Seq::<Seq<char>>::empty() =~= views(out@));
    }
    out
}

/// The words of a text.
pub fn words(s: &str) -> (r: Vec<String>)
    ensures
        views(r@) == word_seq(s@),
{
    let chars = chars_of(s);
    let mut out: Vec<String> = Vec::new();
    let mut i: usize = 0;
    assert(chars@.skip(0) =~= chars@);
    while i < chars.len()
        invariant
            i <= chars@.len(),
            word_seq(chars@) == views(out@) + word_seq(chars@.skip(i as int)),
        decreases chars@.len() - i,
    {
        let ghost rest = chars@.skip(i as int);
        let mut from: usize = i;
        while from < chars.len() && chars[from].is_whitespace()
            invariant
                i <= from <= chars@.len(),
                rest == chars@.skip(i as int),
                forall|k: int| 0 <= k < from - i ==> white_space(rest[k]),
            decreases chars@.len() - from,
        {
            from += 1;
        }
        let ghost t = chars@.skip(from as int);
        proof {
            lemma_trim_start_is(rest, from - i);
            assert(rest.skip(from - i) =~= t);
            lemma_word_len(t);
        }
        let ghost before = out@;
        if from == chars.len() {
            proof {
                assert(chars@.skip(from as int) =~= Seq::<char>::empty());
                assert(word_seq(rest) =~= Seq::<Seq<char>>::empty());
            }
            i = from;
        } else {
            let mut to: usize = from;
            while to < chars.len() && !chars[to].is_whitespace()
                invariant
                    from <= to <= chars@.len(),
                    t == chars@.skip(from as int),
                    forall|k: int| 0 <= k < to - from ==> !white_space(t[k]),
                decreases chars@.len() - to,
            {
                to += 1;
            }
            out.push(text_of(&chars, from, to));
            proof {
                lemma_word_len_is(t, to - from);
                assert(t.take(to - from) =~= chars@.subrange(from as int, to as int));
                assert(t.skip(to - from) =~= chars@.skip(to as int));
                assert(views(out@) =~= views(before).push(t.take(to - from)));
                assert(views(before) + word_seq(rest) =~= views(out@) + word_seq(
                    chars@.skip(to as int),
                ));
            }
            i = to;
        }
    }
    proof {
        assert(chars@.skip(i as int) =~= Seq::<char>::empty());
        assert(word_seq(Seq::<char>::empty()) =~= Seq::<Seq<char>>::empty());
        assert(views(out@) + Seq::<Seq<char>>::empty() =~= views(out@));
    }
    out
}

/// `parts[from..]` one after the other, with `sep` between each two.
pub fn join_from(parts: &Vec<String>, from: usize, sep: &str) -> (r: String)
    requires
        from <= parts@.len(),
    ensures
        r@ == joined(views(parts@).skip(from as int), sep@),
{
    let mut out = String::new();
    let mut i: usize = from;
    let ghost all = views(parts@).skip(from as int);
    while i < parts.len()
        invariant
            from <= i <= parts@.len(),
            all == views(parts@).skip(from as int),
            out@ == joined(all.take(i - from), sep@),
        decreases parts@.len() - i,
    {
        proof {
            assert(all.take(i - from + 1).drop_last() =~= all.take(i - from));
        }
        if i > from {
            out.append(sep);
        }
        out.append(parts[i].as_str());
        i += 1;
        proof {
            assert(out@ =~= joined(all.take(i - from), sep@));
        }
    }
    assert(all.take(i - from) =~= all);
    out
}

/// Whether `p` is how `s` begins.
pub fn starts_with(s: &str, p: &str) -> (r: bool)
    ensures
        r == has_prefix(s@, p@),
{
    let a = chars_of(s);
    let b = chars_of(p);
    if b.len() > a.len() {
        return false;
    }
    let mut i: usize = 0;
    while i < b.len()
        invariant
            i <= b@.len() <= a@.len(),
            a@ == s@,
            b@ == p@,
            forall|k: int| 0 <= k < i ==> a@[k] == b@[k],
        decreases b@.len() - i,
    {
        if a[i] != b[i] {
            proof {
                assert(s@.take(p@.len() as int)[i as int] != p@[i as int]);
            }
            return false;
        }
        i += 1;
    }
    assert(s@.take(p@.len() as int) =~= p@);
    true
}

/// Whether `p` occurs in `chars`.
pub fn contains_text(chars: &[char], p: &str) -> (r: bool)
    ensures
        r == occurs(chars@, p@),
{
    let b = chars_of(p);
    if b.len() > chars.len() {
        return false;
    }
    let last: usize = chars.len() - b.len();
    let mut i: usize = 0;
    loop
        invariant
            b@ == p@,
            i <= last,
            last == chars@.len() - b@.len(),
            chars@.len() <= usize::MAX,
            forall|k: int| 0 <= k < i ==> #[trigger] chars@.subrange(k, k + b@.len()) != p@,
        decreases last - i,
    {
        let mut j: usize = 0;
        while j < b.len() && chars[i + j] == b[j]
            invariant
                b@ == p@,
                j <= b@.len(),
                i + b@.len() <= chars@.len() <= usize::MAX,
                forall|k: int| 0 <= k < j ==> chars@[i + k] == b@[k],
            decreases b@.len() - j,
        {
            j += 1;
        }
        if j == b.len() {
            assert(chars@.subrange(i as int, i + b@.len()) =~= p@);
            return true;
        }
        assert(chars@.subrange(i as int, i + b@.len())[j as int] != p@[j as int]);
        if i == last {
            return false;
        }
        i += 1;
    }
}

/// White space is the twenty-five characters that have the property.
pub proof fn white_space_is_listed(c: char)
    ensures
        white_space(c) <==> seq![
            '\t',
            '\n',
            '\x0b',
            '\x0c',
            '\r',
            ' ',
            '\u{85}',
            '\u{a0}',
            '\u{1680}',
            '\u{2000}',
            '\u{2001}',
            '\u{2002}',
            '\u{2003}',
            '\u{2004}',
            '\u{2005}',
            '\u{2006}',
            '\u{2007}',
            '\u{2008}',
            '\u{2009}',
            '\u{200a}',
            '\u{2028}',
            '\u{2029}',
            '\u{202f}',
            '\u{205f}',
            '\u{3000}',
        ].contains(c),
{
    let s = seq![
        '\t',
        '\n',
        '\x0b',
        '\x0c',
        '\r',
        ' ',
        '\u{85}',
        '\u{a0}',
        '\u{1680}',
        '\u{2000}',
        '\u{2001}',
        '\u{2002}',
        '\u{2003}',
        '\u{2004}',
        '\u{2005}',
        '\u{2006}',
        '\u{2007}',
        '\u{2008}',
        '\u{2009}',
        '\u{200a}',
        '\u{2028}',
        '\u{2029}',
        '\u{202f}',
        '\u{205f}',
        '\u{3000}',
    ];
    let n = c as int;
    let i = if 0x09 <= n <= 0x0d {
        n - 0x09
    } else if n == 0x20 {
        5
    } else if n == 0x85 {
        6
    } else if n == 0xa0 {
        7
    } else if n == 0x1680 {
        8
    } else if 0x2000 <= n <= 0x200a {
        n - 0x2000 + 9
    } else if n == 0x2028 {
        20
    } else if n == 0x2029 {
        21
    } else if n == 0x202f {
        22
    } else if n == 0x205f {
        23
    } else {
        24
    };
    if white_space(c) {
        assert(s[i] == c);
    }
}

/// Trimming takes the white space off both ends of a text, and no more.
pub proof fn trimming_cuts_ends(before: Seq<char>, s: Seq<char>, after: Seq<char>)
    requires
        forall|i: int| 0 <= i < before.len() ==> white_space(#[trigger] before[i]),
        forall|i: int| 0 <= i < after.len() ==> white_space(#[trigger] after[i]),
        s.len() > 0 ==> !white_space(s.first()) && !white_space(s.last()),
    ensures
        trimmed(before + s + after) == s,
{
    let t = before + s + after;
    if s.len() == 0 {
        assert forall|i: int| 0 <= i < t.len() implies white_space(t[i]) by {
            if i < before.len() {
                assert(t[i] == before[i]);
            } else {
                assert(t[i] == after[i - before.len()]);
            }
        }
        lemma_trim_start_is(t, t.len() as int);
        assert(t.skip(t.len() as int) =~= s);
    } else {
        assert forall|i: int| 0 <= i < before.len() implies white_space(t[i]) by {
            assert(t[i] == before[i]);
        }
        lemma_trim_start_is(t, before.len() as int);
        let u = t.skip(before.len() as int);
        assert(u =~= s + after);
        assert forall|i: int| s.len() <= i < u.len() implies white_space(u[i]) by {
            assert(u[i] == after[i - s.len()]);
        }
        lemma_trim_end_is(u, s.len() as int);
        assert(u.take(s.len() as int) =~= s);
    }
}

/// A text splits where the character first stands: what was put before it and
/// after it comes back. One without the character does not split.
pub proof fn split_undoes_joining(a: Seq<char>, c: char, b: Seq<char>)
    requires
        !a.contains(c),
    ensures
        split_first(a + seq![c] + b, c) == Some((a, b)),
        split_first(a, c) is None,
{
    let s = a + seq![c] + b;
    assert forall|i: int| 0 <= i < a.len() implies s[i] != c by {
        assert(s[i] == a[i]);
        assert(a.contains(a[i]));
    }
    lemma_first_index_is(s, c, a.len() as int);
    assert(s.take(a.len() as int) =~= a);
    assert(s.skip(a.len() as int + 1) =~= b);
    assert forall|i: int| 0 <= i < a.len() implies a[i] != c by {
        assert(a.contains(a[i]));
    }
    lemma_first_index_is(a, c, a.len() as int);
}

/// Lines end at line feeds, with or without a carriage return before. The last
/// one need not be ended, and an empty text has none.
pub proof fn lines_end_at_feeds(a: Seq<char>, rest: Seq<char>)
    requires
        !a.contains('\n'),
        a.len() > 0 ==> a.last() != '\r',
    ensures
        line_seq(a + seq!['\n'] + rest) == seq![a] + line_seq(rest),
        line_seq(a + seq!['\r', '\n'] + rest) == seq![a] + line_seq(rest),
        a.len() > 0 ==> line_seq(a) == seq![a],
        line_seq(Seq::empty()).len() == 0,
{
    assert forall|i: int| 0 <= i < a.len() implies a[i] != '\n' by {
        assert(a.contains(a[i]));
    }
    let s = a + seq!['\n'] + rest;
    assert forall|i: int| 0 <= i < a.len() implies s[i] != '\n' by {
        assert(s[i] == a[i]);
    }
    lemma_first_index_is(s, '\n', a.len() as int);
    assert(s.take(a.len() as int) =~= a);
    assert(s.skip(a.len() as int + 1) =~= rest);
    let t = a + seq!['\r', '\n'] + rest;
    assert forall|i: int| 0 <= i < a.len() + 1 implies t[i] != '\n' by {
        if i < a.len() {
            assert(t[i] == a[i]);
        }
    }
    lemma_first_index_is(t, '\n', a.len() as int + 1);
    assert(t.take(a.len() as int + 1) =~= a.push('\r'));
    assert(a.push('\r').drop_last() =~= a);
    assert(t.skip(a.len() as int + 2) =~= rest);
    lemma_first_index_is(a, '\n', a.len() as int);
}

/// Words are what stands between white space.
pub proof fn words_stand_between_spaces(w: Seq<char>, c: char, rest: Seq<char>)
    requires
        w.len() > 0,
        forall|i: int| 0 <= i < w.len() ==> !white_space(#[trigger] w[i]),
        white_space(c),
    ensures
        word_seq(w + seq![c] + rest) == seq![w] + word_seq(rest),
        word_seq(w) == seq![w],
        word_seq(seq![c] + rest) == word_seq(rest),
        word_seq(Seq::empty()).len() == 0,
{
    let s = w + seq![c] + rest;
    let n = w.len() as int;
    assert(s[0] == w[0]);
    assert(trim_start(s) == s);
    assert forall|i: int| 0 <= i < n implies !white_space(s[i]) by {
        assert(s[i] == w[i]);
    }
    lemma_word_len_is(s, n);
    assert(s.take(n) =~= w);
    assert(s.skip(n) =~= seq![c] + rest);
    lemma_word_len_is(w, n);
    assert(w[0] == w.first());
    assert(w.take(n) =~= w);
    assert(w.skip(n).len() == 0);
    assert(word_seq(w.skip(n)) =~= Seq::<Seq<char>>::empty());
    let t = seq![c] + rest;
    assert(t.drop_first() =~= rest);
    assert(trim_start(t) == trim_start(rest));
    assert(word_seq(t) == word_seq(rest));
}

/// Joining two lists that are not empty joins what each of them joins to; a
/// single part stands for itself.
pub proof fn joining_in_parts(a: Seq<Seq<char>>, b: Seq<Seq<char>>, sep: Seq<char>, x: Seq<char>)
    requires
        a.len() > 0,
        b.len() > 0,
    ensures
        joined(a + b, sep) == joined(a, sep) + sep + joined(b, sep),
        joined(seq![x], sep) == x,
        joined(Seq::empty(), sep).len() == 0,
    decreases b.len(),
{
    let s = a + b;
    assert(s.last() == b.last());
    if b.len() == 1 {
        assert(s.drop_last() =~= a);
    } else {
        joining_in_parts(a, b.drop_last(), sep, x);
        assert(s.drop_last() =~= a + b.drop_last());
        assert(joined(s, sep) =~= joined(a, sep) + sep + joined(b, sep));
    }
}

/// A text begins with what was put before it, and holds what was put into it.
/// What it begins with can be put before the rest.
pub proof fn parts_are_found(a: Seq<char>, p: Seq<char>, b: Seq<char>)
    ensures
        has_prefix(p + b, p),
        has_prefix(a, p) ==> a == p + a.skip(p.len() as int),
        occurs(a + p + b, p),
        occurs(a, p) ==> p.len() <= a.len(),
{
    assert((p + b).take(p.len() as int) =~= p);
    if has_prefix(a, p) {
        assert(a =~= a.take(p.len() as int) + a.skip(p.len() as int));
    }
    let s = a + p + b;
    let n = a.len() as int;
    assert(s.subrange(n, n + p.len()) =~= p);
}

} // verus!
