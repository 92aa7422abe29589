//! Character-level helpers: white space, conversion between strings and
//! character vectors, splitting and joining.

use vstd::prelude::*;

verus! {

/// `String::push` appends the character to the end of the string.
pub assume_specification[ String::push ](s: &mut String, c: char)
    ensures
        final(s)@ == old(s)@.push(c),
;

/// The characters with the Unicode property `White_Space`.
pub open spec fn is_whitespace(c: char) -> bool {
    let n = c as u32;
    ||| 0x09 <= n <= 0x0D
    ||| n == 0x20
    ||| n == 0x85
    ||| n == 0xA0
    ||| n == 0x1680
    ||| 0x2000 <= n <= 0x200A
    ||| n == 0x2028
    ||| n == 0x2029
    ||| n == 0x202F
    ||| n == 0x205F
    ||| n == 0x3000
}

/// Decides whether `c` is white space.
pub fn char_is_whitespace(c: char) -> (b: bool)
    ensures
        b == is_whitespace(c),
{
    let n: u32 = c as u32;
    (0x09 <= n && n <= 0x0D) || n == 0x20 || n == 0x85 || n == 0xA0 || n == 0x1680 || (0x2000 <= n
        && n <= 0x200A) || n == 0x2028 || n == 0x2029 || n == 0x202F || n == 0x205F || n == 0x3000
}

/// The characters of `s`, in order.
pub fn chars_of(s: &str) -> (v: Vec<char>)
    ensures
        v@ == s@,
{
    let mut v: Vec<char> = Vec::new();
    for c in it: s.chars()
        invariant
            v@ == s@.take(it.index() as int),
            it.seq() == s@,
    {
        v.push(c);
    }
    v
}

/// The string made of the characters `v[from..to]`.
pub(crate) fn string_of(v: &Vec<char>, from: usize, to: usize) -> (s: String)
    requires
        from <= to <= v.len(),
    ensures
        s@ == v@.subrange(from as int, to as int),
{
    let mut s = String::new();
    let mut i: usize = from;
    while i < to
        invariant
            from <= i <= to <= v.len(),
            s@ == v@.subrange(from as int, i as int),
        decreases to - i,
    {
        s.push(v[i]);
        i += 1;
    }
    s
}

/// Decides whether two string slices hold the same characters.
pub fn same_text(a: &str, b: &str) -> (same: bool)
    ensures
        same == (a@ == b@),
{
    let x = chars_of(a);
    let y = chars_of(b);
    if x.len() != y.len() {
        return false;
    }
    let mut i: usize = 0;
    while i < x.len()
        invariant
            x@ == a@,
            y@ == b@,
            x.len() == y.len(),
            i <= x.len(),
            forall|k: int| 0 <= k < i ==> x@[k] == y@[k],
        decreases x.len() - i,
    {
        if x[i] != y[i] {
            return false;
        }
        i += 1;
    }
    assert(a@ =~= b@);
    true
}

/// The views of the strings of `v`, in order.
pub open spec fn views(v: Seq<String>) -> Seq<Seq<char>> {
    Seq::new(v.len(), |i: int| v[i]@)
}

/// The view of an optional string.
pub open spec fn opt_view(o: Option<String>) -> Option<Seq<char>> {
    match o {
        Some(s) => Some(s@),
        None => None,
    }
}

/// `s` cut at every occurrence of `sep`. The separators are left out, and an
/// empty piece stands between two adjacent separators, before a leading one
/// and after a trailing one, so there is always one piece more than there are
/// separators.
pub open spec fn split(s: Seq<char>, sep: char) -> Seq<Seq<char>>
    decreases s.len(),
{
    if s.len() == 0 {
        seq![Seq::empty()]
    } else {
        let before = split(s.drop_last(), sep);
        if s.last() == sep {
            before.push(Seq::empty())
        } else {
            before.drop_last().push(before.last().push(s.last()))
        }
    }
}

/// The maximal runs of characters of `s` that are not white space, in order.
pub open spec fn words(s: Seq<char>) -> Seq<Seq<char>>
    decreases s.len(),
{
    if s.len() == 0 {
        Seq::empty()
    } else {
        let before = words(s.drop_last());
        if is_whitespace(s.last()) {
            before
        } else if s.len() >= 2 && !is_whitespace(s[s.len() - 2]) {
            before.drop_last().push(before.last().push(s.last()))
        } else {
            before.push(seq![s.last()])
        }
    }
}

/// The parts written one after another with `sep` between each two.
pub open spec fn join(parts: Seq<Seq<char>>, sep: Seq<char>) -> Seq<char>
    decreases parts.len(),
{
    if parts.len() == 0 {
        Seq::empty()
    } else if parts.len() == 1 {
        parts[0]
    } else {
        join(parts.drop_last(), sep) + sep + parts.last()
    }
}

/// Cuts `s` at every occurrence of `sep`.
pub fn split_at_char(s: &str, sep: char) -> (pieces: Vec<String>)
    ensures
        views(pieces@) == split(s@, sep),
{
    let v = chars_of(s);
    let n = v.len();
    let mut pieces: Vec<String> = Vec::new();
    let mut start: usize = 0;
    let mut i: usize = 0;
    proof {
        assert(s@.take(0).len() == 0);
        assert(views(pieces@).push(s@.subrange(0, 0)) =~~= seq![Seq::<char>::empty()]);
    }
    while i < n
        invariant
            v@ == s@,
            n == v.len(),
            start <= i <= n,
            split(s@.take(i as int), sep) == views(pieces@).push(
                s@.subrange(start as int, i as int),
            ),
        decreases n - i,
    {
        let ghost before = s@.take(i as int);
        let ghost now = s@.take(i + 1);
        let ghost done = views(pieces@);
        let ghost open = s@.subrange(start as int, i as int);
        assert(now.drop_last() == before);
        assert(now.last() == s@[i as int]);
        assert(split(before, sep) == done.push(open));
        if v[i] == sep {
            let piece = string_of(&v, start, i);
            pieces.push(piece);
            start = i + 1;
            assert(views(pieces@) =~= done.push(open));
            assert(s@.subrange(i + 1, i + 1) =~= Seq::<char>::empty());
        } else {
            assert(done.push(open).drop_last() =~= done);
            assert(done.push(open).last() == open);
            assert(open.push(s@[i as int]) =~= s@.subrange(start as int, i + 1));
        }
        i += 1;
    }
    assert(s@.take(n as int) == s@);
    let piece = string_of(&v, start, n);
    let ghost done = views(pieces@);
    pieces.push(piece);
    assert(views(pieces@) =~= done.push(piece@));
    pieces
}

/// Cuts `s` into its words: the maximal runs of characters that are not white
/// space.
pub fn split_words(s: &str) -> (found: Vec<String>)
    ensures
        views(found@) == words(s@),
{
    let v = chars_of(s);
    let n = v.len();
    let mut found: Vec<String> = Vec::new();
    let mut start: usize = 0;
    let mut i: usize = 0;
    proof {
        assert(s@.take(0).len() == 0);
        assert(views(found@) =~= Seq::<Seq<char>>::empty());
    }
    while i < n
        invariant
            v@ == s@,
            n == v.len(),
            start <= i <= n,
            start < i ==> !is_whitespace(s@[i - 1]),
            start == i && i > 0 ==> is_whitespace(s@[i - 1]),
            words(s@.take(i as int)) == if start < i {
                views(found@).push(s@.subrange(start as int, i as int))
            } else {
                views(found@)
            },
        decreases n - i,
    {
        let ghost before = s@.take(i as int);
        let ghost now = s@.take(i + 1);
        let ghost done = views(found@);
        let ghost open = s@.subrange(start as int, i as int);
        assert(now.drop_last() == before);
        assert(now.last() == s@[i as int]);
        assert(i > 0 ==> now[now.len() - 2] == s@[i - 1]);
        if char_is_whitespace(v[i]) {
            if start < i {
                let word = string_of(&v, start, i);
                found.push(word);
                assert(views(found@) =~= done.push(open));
            }
            start = i + 1;
        } else {
            if start < i {
                assert(done.push(open).drop_last() =~= done);
                assert(done.push(open).last() == open);
                assert(open.push(s@[i as int]) =~= s@.subrange(start as int, i + 1));
            } else {
                assert(seq![s@[i as int]] =~= s@.subrange(start as int, i + 1));
            }
        }
        i += 1;
    }
    assert(s@.take(n as int) == s@);
    if start < n {
        let word = string_of(&v, start, n);
        let ghost done = views(found@);
        found.push(word);
        assert(views(found@) =~= done.push(word@));
    }
    found
}

/// Writes the parts one after another with `sep` between each two.
pub fn join_strings(parts: &Vec<String>, sep: &str) -> (joined: String)
    ensures
        joined@ == join(views(parts@), sep@),
{
    let mut joined = String::new();
    let n = parts.len();
    let mut i: usize = 0;
    assert(views(parts@).take(0).len() == 0);
    while i < n
        invariant
            n == parts.len(),
            i <= n,
            joined@ == join(views(parts@).take(i as int), sep@),
        decreases n - i,
    {
        let ghost now = views(parts@).take(i + 1);
        assert(now.drop_last() == views(parts@).take(i as int));
        assert(now.last() == parts@[i as int]@);
        if i > 0 {
            joined.append(sep);
        } else {
            assert(join(views(parts@).take(0), sep@) =~= Seq::<char>::empty());
            assert(now[0] =~= Seq::<char>::empty() + now[0]);
        }
        joined.append(parts[i].as_str());
        i += 1;
    }
    assert(views(parts@).take(n as int) == views(parts@));
    joined
}

/// `s` without the longest tail made of repetitions of `pat`.
pub open spec fn trim_end_matches(s: Seq<char>, pat: Seq<char>) -> Seq<char>
    decreases s.len(),
{
    if 0 < pat.len() <= s.len() && s.subrange(s.len() - pat.len(), s.len() as int) == pat {
        trim_end_matches(s.take(s.len() - pat.len()), pat)
    } else {
        s
    }
}

/// A line as it was read, without its line ending: first every trailing
/// carriage return and line feed pair is dropped, then every trailing line
/// feed.
pub open spec fn without_line_end(s: Seq<char>) -> Seq<char> {
    trim_end_matches(trim_end_matches(s, seq!['\r', '\n']), seq!['\n'])
}

/// Drops the line ending of a line as it was read.
pub fn strip_line_end(s: &str) -> (line: String)
    ensures
        line@ == without_line_end(s@),
{
    let v = chars_of(s);
    let mut end: usize = v.len();
    let ghost crlf = seq!['\r', '\n'];
    let ghost lf = seq!['\n'];
    assert(s@.take(end as int) == s@);
    while end >= 2 && v[end - 2] == '\r' && v[end - 1] == '\n'
        invariant
            v@ == s@,
            end <= v.len(),
            crlf == seq!['\r', '\n'],
            trim_end_matches(s@, crlf) == trim_end_matches(s@.take(end as int), crlf),
        decreases end,
    {
        let ghost cur = s@.take(end as int);
        assert(cur.subrange(cur.len() - 2, cur.len() as int) =~= crlf);
        assert(cur.take(cur.len() - 2) =~= s@.take(end - 2));
        end -= 2;
    }
    let ghost mid = s@.take(end as int);
    assert(trim_end_matches(mid, crlf) == mid) by {
        if mid.len() >= 2 {
            assert(mid.subrange(mid.len() - 2, mid.len() as int)[0] == mid[mid.len() - 2]);
            assert(mid.subrange(mid.len() - 2, mid.len() as int)[1] == mid[mid.len() - 1]);
        }
    }
    let mid_end = end;
    assert(mid.take(end as int) == mid);
    while end >= 1 && v[end - 1] == '\n'
        invariant
            v@ == s@,
            end <= mid_end <= v.len(),
            mid == s@.take(mid_end as int),
            lf == seq!['\n'],
            trim_end_matches(mid, lf) == trim_end_matches(mid.take(end as int), lf),
        decreases end,
    {
        let ghost cur = mid.take(end as int);
        assert(cur.subrange(cur.len() - 1, cur.len() as int) =~= lf);
        assert(cur.take(cur.len() - 1) =~= mid.take(end - 1));
        end -= 1;
    }
    let ghost last = mid.take(end as int);
    assert(trim_end_matches(last, lf) == last) by {
        if last.len() >= 1 {
            assert(last.subrange(last.len() - 1, last.len() as int)[0] == last[last.len() - 1]);
        }
    }
    assert(last =~= s@.subrange(0, end as int));
    string_of(&v, 0, end)
}

/// Between the pieces of a split lies exactly the separator: no piece holds
/// it, and the pieces joined by it give the text back. There is always at
/// least one piece.
pub proof fn lemma_split_join(s: Seq<char>, sep: char)
    ensures
        split(s, sep).len() >= 1,
        forall|i: int| 0 <= i < split(s, sep).len() ==> !(#[trigger] split(s, sep)[i]).contains(sep),
        join(split(s, sep), seq![sep]) == s,
    decreases s.len(),
{
    let pieces = split(s, sep);
    if s.len() == 0 {
        assert(pieces[0] =~= s);
    } else {
        let rest = s.drop_last();
        let before = split(rest, sep);
        lemma_split_join(rest, sep);
        if s.last() == sep {
            assert(pieces.drop_last() =~= before);
            assert(join(pieces, seq![sep]) =~= s);
        } else {
            let grown = before.last().push(s.last());
            assert forall|i: int| 0 <= i < pieces.len() implies !(#[trigger] pieces[i]).contains(
                sep,
            ) by {
                if i < pieces.len() - 1 {
                    assert(pieces[i] == before[i]);
                } else {
                    assert(pieces[i] == grown);
                    if grown.contains(sep) {
                        let k = choose|k: int| 0 <= k < grown.len() && grown[k] == sep;
                        assert(before.last()[k] == sep);
                        assert(before.last().contains(sep));
                    }
                }
            }
            if before.len() == 1 {
                assert(before[0] == rest);
                assert(grown =~= s);
            } else {
                let head = join(before.drop_last(), seq![sep]) + seq![sep];
                assert(pieces.drop_last() =~= before.drop_last());
                assert(join(before, seq![sep]) == head + before.last());
                assert(join(pieces, seq![sep]) == head + grown);
                assert(head + grown =~= (head + before.last()).push(s.last()));
                assert(rest.push(s.last()) =~= s);
            }
        }
    }
}

/// Every word holds at least one character and no white space.
pub proof fn lemma_words_are_solid(s: Seq<char>)
    ensures
        forall|i: int|
            0 <= i < words(s).len() ==> (#[trigger] words(s)[i]).len() > 0 && forall|j: int|
                0 <= j < words(s)[i].len() ==> !is_whitespace(#[trigger] words(s)[i][j]),
        s.len() > 0 && !is_whitespace(s.last()) ==> words(s).len() > 0,
    decreases s.len(),
{
    if s.len() > 0 {
        let rest = s.drop_last();
        let before = words(rest);
        let found = words(s);
        lemma_words_are_solid(rest);
        if is_whitespace(s.last()) {
        } else if s.len() >= 2 && !is_whitespace(s[s.len() - 2]) {
            assert(rest.last() == s[s.len() - 2]);
            let grown = before.last().push(s.last());
            assert forall|i: int| 0 <= i < found.len() implies (#[trigger] found[i]).len() > 0
                && forall|j: int| 0 <= j < found[i].len() ==> !is_whitespace(#[trigger] found[i][j]) by {
                if i < found.len() - 1 {
                    assert(found[i] == before[i]);
                } else {
                    assert(found[i] == grown);
                    assert forall|j: int| 0 <= j < grown.len() implies !is_whitespace(
                        #[trigger] grown[j],
                    ) by {
                        if j < grown.len() - 1 {
                            assert(grown[j] == before.last()[j]);
                        }
                    }
                }
            }
        } else {
            assert forall|i: int| 0 <= i < found.len() implies (#[trigger] found[i]).len() > 0
                && forall|j: int| 0 <= j < found[i].len() ==> !is_whitespace(#[trigger] found[i][j]) by {
                if i < found.len() - 1 {
                    assert(found[i] == before[i]);
                }
            }
        }
    }
}

/// A text holds at least one character and no white space.
pub open spec fn is_solid(w: Seq<char>) -> bool {
    w.len() > 0 && forall|j: int| 0 <= j < w.len() ==> !is_whitespace(#[trigger] w[j])
}

/// Where white space or nothing stands at the seam of two texts, the words of
/// the whole are the words of the first and then the words of the second.
pub proof fn lemma_words_seam(a: Seq<char>, b: Seq<char>)
    requires
        a.len() == 0 || is_whitespace(a.last()) || b.len() == 0 || is_whitespace(b[0]),
    ensures
        words(a + b) == words(a) + words(b),
    decreases b.len(),
{
    if b.len() == 0 {
        assert(a + b =~= a);
        assert(words(a) + words(b) =~= words(a));
    } else {
        let rest = b.drop_last();
        let c = b.last();
        let whole = a + b;
        assert(whole.drop_last() =~= a + rest);
        assert(whole.last() == c);
        if rest.len() > 0 {
            assert(rest[0] == b[0]);
        }
        lemma_words_seam(a, rest);
        lemma_words_are_solid(rest);
        if is_whitespace(c) {
        } else if rest.len() > 0 {
            assert(whole[whole.len() - 2] == rest.last());
            assert(b[b.len() - 2] == rest.last());
            if !is_whitespace(rest.last()) {
                let front = words(a) + words(rest);
                assert(front.last() == words(rest).last());
                assert(front.drop_last() =~= words(a) + words(rest).drop_last());
                assert(words(whole) =~= words(a) + words(b));
            } else {
                assert(words(whole) =~= words(a) + words(b));
            }
        } else {
            assert(a + rest =~= a);
            if a.len() > 0 {
                assert(whole[whole.len() - 2] == a.last());
            }
            assert(words(b) =~= seq![seq![c]]);
            assert(words(whole) =~= words(a) + words(b));
        }
    }
}

/// A text without white space is one word.
pub proof fn lemma_words_of_word(w: Seq<char>)
    requires
        is_solid(w),
    ensures
        words(w) == seq![w],
    decreases w.len(),
{
    let rest = w.drop_last();
    assert(!is_whitespace(w[w.len() - 1]));
    if rest.len() == 0 {
        assert(words(rest) =~= Seq::<Seq<char>>::empty());
        assert(words(w) =~= seq![seq![w.last()]]);
        assert(seq![w.last()] =~= w);
    } else {
        assert forall|j: int| 0 <= j < rest.len() implies !is_whitespace(#[trigger] rest[j]) by {
            assert(rest[j] == w[j]);
        }
        lemma_words_of_word(rest);
        assert(w[w.len() - 2] == rest.last());
        assert(rest.push(w.last()) =~= w);
        assert(words(w) =~= seq![w]);
    }
}

/// Words joined by single spaces read back as the same words.
pub proof fn lemma_words_of_join(parts: Seq<Seq<char>>)
    requires
        forall|i: int| 0 <= i < parts.len() ==> is_solid(#[trigger] parts[i]),
    ensures
        words(join(parts, seq![' '])) == parts,
    decreases parts.len(),
{
    if parts.len() == 0 {
        assert(words(join(parts, seq![' '])) =~= parts);
    } else if parts.len() == 1 {
        lemma_words_of_word(parts[0]);
        assert(seq![parts[0]] =~= parts);
    } else {
        let rest = parts.drop_last();
        let head = join(rest, seq![' ']) + seq![' '];
        assert forall|i: int| 0 <= i < rest.len() implies is_solid(#[trigger] rest[i]) by {
            assert(rest[i] == parts[i]);
        }
        lemma_words_of_join(rest);
        assert(head.drop_last() =~= join(rest, seq![' ']));
        assert(head.last() == ' ');
        assert(words(head) == rest);
        lemma_words_seam(head, parts.last());
        lemma_words_of_word(parts.last());
        assert(rest + seq![parts.last()] =~= parts);
    }
}

/// A text without the separator is one piece.
pub proof fn lemma_split_of_plain(x: Seq<char>, sep: char)
    requires
        !x.contains(sep),
    ensures
        split(x, sep) == seq![x],
    decreases x.len(),
{
    if x.len() == 0 {
        assert(split(x, sep) =~~= seq![x]);
    } else {
        let rest = x.drop_last();
        assert(x[x.len() - 1] != sep);
        if rest.contains(sep) {
            let k = choose|k: int| 0 <= k < rest.len() && rest[k] == sep;
            assert(x[k] == sep);
        }
        lemma_split_of_plain(rest, sep);
        assert(rest.push(x.last()) =~= x);
        assert(split(x, sep) =~= seq![x]);
    }
}

/// The pieces of two texts with a separator between them are the pieces of
/// the first and then the pieces of the second.
pub proof fn lemma_split_concat(a: Seq<char>, b: Seq<char>, sep: char)
    ensures
        split(a.push(sep) + b, sep) == split(a, sep) + split(b, sep),
    decreases b.len(),
{
    let whole = a.push(sep) + b;
    lemma_split_join(b, sep);
    if b.len() == 0 {
        assert(whole =~= a.push(sep));
        assert(whole.drop_last() =~= a);
        assert(split(whole, sep) =~= split(a, sep) + split(b, sep));
    } else {
        let rest = b.drop_last();
        assert(whole.drop_last() =~= a.push(sep) + rest);
        assert(whole.last() == b.last());
        lemma_split_concat(a, rest, sep);
        lemma_split_join(rest, sep);
        let front = split(a, sep) + split(rest, sep);
        if b.last() == sep {
            assert(split(whole, sep) =~= split(a, sep) + split(b, sep));
        } else {
            assert(front.last() == split(rest, sep).last());
            assert(front.drop_last() =~= split(a, sep) + split(rest, sep).drop_last());
            assert(split(whole, sep) =~= split(a, sep) + split(b, sep));
        }
    }
}

/// Every character of a word is a character of the text.
pub proof fn lemma_words_come_from_text(s: Seq<char>, i: int, j: int)
    requires
        0 <= i < words(s).len(),
        0 <= j < words(s)[i].len(),
    ensures
        s.contains(words(s)[i][j]),
    decreases s.len(),
{
    if s.len() > 0 {
        let rest = s.drop_last();
        let before = words(rest);
        let c = words(s)[i][j];
        if is_whitespace(s.last()) {
            lemma_words_come_from_text(rest, i, j);
        } else if s.len() >= 2 && !is_whitespace(s[s.len() - 2]) {
            assert(rest.last() == s[s.len() - 2]);
            lemma_words_are_solid(rest);
            if i < before.len() - 1 {
                assert(words(s)[i] == before[i]);
                lemma_words_come_from_text(rest, i, j);
            } else if j < before.last().len() {
                assert(words(s)[i][j] == before.last()[j]);
                lemma_words_come_from_text(rest, before.len() - 1, j);
            } else {
                assert(c == s.last());
                assert(s[s.len() - 1] == c);
            }
        } else {
            if i < before.len() {
                assert(words(s)[i] == before[i]);
                lemma_words_come_from_text(rest, i, j);
            } else {
                assert(c == s.last());
                assert(s[s.len() - 1] == c);
            }
        }
        if rest.contains(c) {
            let k = choose|k: int| 0 <= k < rest.len() && rest[k] == c;
            assert(s[k] == c);
        }
    }
}

/// Parts that do not hold a character, joined by a separator that does not
/// hold it, give a text that does not hold it.
pub proof fn lemma_join_lacks(parts: Seq<Seq<char>>, sep: Seq<char>, c: char)
    requires
        !sep.contains(c),
        forall|i: int| 0 <= i < parts.len() ==> !(#[trigger] parts[i]).contains(c),
    ensures
        !join(parts, sep).contains(c),
    decreases parts.len(),
{
    let whole = join(parts, sep);
    if parts.len() >= 2 {
        let rest = parts.drop_last();
        assert forall|i: int| 0 <= i < rest.len() implies !(#[trigger] rest[i]).contains(c) by {
            assert(rest[i] == parts[i]);
        }
        lemma_join_lacks(rest, sep, c);
        if whole.contains(c) {
            let k = choose|k: int| 0 <= k < whole.len() && whole[k] == c;
            let head = join(rest, sep);
            if k < head.len() {
                assert(head[k] == c);
            } else if k < head.len() + sep.len() {
                assert(sep[k - head.len()] == c);
            } else {
                assert(parts.last()[k - head.len() - sep.len()] == c);
                assert(parts[parts.len() - 1].contains(c));
            }
        }
    } else if parts.len() == 1 {
        assert(parts[0] == whole);
    }
}

} // verus!
