//! Text as sequences of characters: trimming, splitting, searching, joining.

use vstd::prelude::*;
use vstd::slice::slice_subrange;

verus! {

/// `String::push` puts the character behind those that the text holds; this is taken on trust.
pub assume_specification[ String::push ](s: &mut String, c: char)
    ensures
        final(s)@ == old(s)@.push(c),
;

/// The characters that Unicode lists as white space.
pub open spec fn is_space(c: char) -> bool {
    let n: int = c as int;
    ||| 0x09 <= n <= 0x0d
    ||| n == 0x20
    ||| n == 0x85
    ||| n == 0xa0
    ||| n == 0x1680
    ||| 0x2000 <= n <= 0x200a
    ||| n == 0x2028
    ||| n == 0x2029
    ||| n == 0x202f
    ||| n == 0x205f
    ||| n == 0x3000
}

/// Whether `c` is white space.
pub fn is_whitespace(c: char) -> (r: bool)
    ensures
        r == is_space(c),
{
    let n: u32 = c as u32;
    (0x09 <= n && n <= 0x0d) || n == 0x20 || n == 0x85 || n == 0xa0 || n == 0x1680 || (0x2000 <= n
        && n <= 0x200a) || n == 0x2028 || n == 0x2029 || n == 0x202f || n == 0x205f || n == 0x3000
}

/// The characters of `s`, in order.
pub fn chars_of(s: &str) -> (r: Vec<char>)
    ensures
        r@ == s@,
{
    let mut r: Vec<char> = Vec::new();
    for c in it: s.chars()
        invariant
            r@ == it.seq().take(it.index() as int),
            it.seq() == s@,
    {
        r.push(c);
    }
    r
}

/// The `String` made of the characters of `s`.
pub fn string_of(s: &[char]) -> (r: String)
    ensures
        r@ == s@,
{
    let mut r = String::new();
    let mut i: usize = 0;
    while i < s.len()
        invariant
            i <= s.len(),
            r@ == s@.take(i as int),
        decreases s.len() - i,
    {
        r.push(s[i]);
        i += 1;
    }
    r
}

/// The text of each string.
pub open spec fn texts(v: Seq<String>) -> Seq<Seq<char>> {
    v.map_values(|t: String| t@)
}

/// The text of each slice.
pub open spec fn views(v: Seq<&[char]>) -> Seq<Seq<char>> {
    v.map_values(|t: &[char]| t@)
}

/// `s` without the white space at its start.
pub open spec fn trimmed_start(s: Seq<char>) -> Seq<char>
    decreases s.len(),
{
    if s.len() > 0 && is_space(s[0]) {
        trimmed_start(s.skip(1))
    } else {
        s
    }
}

/// `s` without the white space at its end.
pub open spec fn trimmed_end(s: Seq<char>) -> Seq<char>
    decreases s.len(),
{
    if s.len() > 0 && is_space(s.last()) {
        trimmed_end(s.drop_last())
    } else {
        s
    }
}

/// `s` without the white space at either end.
pub open spec fn trimmed(s: Seq<char>) -> Seq<char> {
    trimmed_end(trimmed_start(s))
}

/// The part of `s` between the white space at its ends.
pub fn trim<'a>(s: &'a [char]) -> (r: &'a [char])
    ensures
        r@ == trimmed(s@),
{
    let mut start: usize = 0;
    assert(s@.skip(0) =~= s@);
    while start < s.len() && is_whitespace(s[start])
        invariant
            start <= s.len(),
            trimmed_start(s@) == trimmed_start(s@.skip(start as int)),
        decreases s.len() - start,
    {
        assert(s@.skip(start as int).skip(1) =~= s@.skip(start + 1));
        start += 1;
    }
    let mut end: usize = s.len();
    let ghost body = s@.skip(start as int);
    assert(body =~= s@.subrange(start as int, end as int));
    while start < end && is_whitespace(s[end - 1])
        invariant
            start <= end <= s.len(),
            trimmed_end(body) == trimmed_end(s@.subrange(start as int, end as int)),
        decreases end - start,
    {
        assert(s@.subrange(start as int, end as int).drop_last() =~= s@.subrange(
            start as int,
            end - 1,
        ));
        end -= 1;
    }
    slice_subrange(s, start, end)
}

/// What a text is cut at.
#[derive(Clone, Copy)]
pub enum Separator {
    /// One given character.
    Symbol(char),
    /// Any character that is white space.
    Whitespace,
}

impl Separator {
    /// The characters that cut.
    pub open spec fn cuts(self) -> Set<char> {
        match self {
            Separator::Symbol(c) => set![c],
            Separator::Whitespace => Set::new(|c: char| is_space(c)),
        }
    }

    fn is_cut(self, c: char) -> (r: bool)
        ensures
            r == self.cuts().contains(c),
    {
        match self {
            Separator::Symbol(d) => c == d,
            Separator::Whitespace => is_whitespace(c),
        }
    }
}

/// The pieces of `s` between its members of `cuts`: each further symbol either starts a new piece
/// or lengthens the last one.
pub open spec fn pieces<T>(s: Seq<T>, cuts: Set<T>) -> Seq<Seq<T>>
    decreases s.len(),
{
    if s.len() == 0 {
        seq![Seq::empty()]
    } else {
        let before = pieces(s.drop_last(), cuts);
        if cuts.contains(s.last()) {
            before.push(Seq::empty())
        } else {
            before.drop_last().push(before.last().push(s.last()))
        }
    }
}

/// There is always at least one piece.
pub proof fn lemma_pieces_nonempty<T>(s: Seq<T>, cuts: Set<T>)
    ensures
        pieces(s, cuts).len() >= 1,
    decreases s.len(),
{
    if s.len() > 0 {
        lemma_pieces_nonempty(s.drop_last(), cuts);
    }
}

/// The pieces of `s` between its separators.
pub fn split<'a>(s: &'a [char], sep: Separator) -> (r: Vec<&'a [char]>)
    ensures
        views(r@) == pieces(s@, sep.cuts()),
        r@.len() >= 1,
{
    let mut r: Vec<&'a [char]> = Vec::new();
    let mut start: usize = 0;
    let mut i: usize = 0;
    assert(s@.take(0) =~= Seq::empty());
    assert(views(r@).push(s@.subrange(0, 0)) =~= seq![Seq::empty()]);
    while i < s.len()
        invariant
            start <= i <= s.len(),
            views(r@).push(s@.subrange(start as int, i as int)) == pieces(
                s@.take(i as int),
                sep.cuts(),
            ),
        decreases s.len() - i,
    {
        let ghost before = views(r@);
        let ghost part = s@.subrange(start as int, i as int);
        assert(s@.take(i + 1).drop_last() =~= s@.take(i as int));
        if sep.is_cut(s[i]) {
            r.push(slice_subrange(s, start, i));
            start = i + 1;
            assert(views(r@) =~= before.push(part));
            assert(s@.subrange(start as int, i + 1) =~= Seq::empty());
        } else {
            assert(s@.subrange(start as int, i + 1) =~= part.push(s@[i as int]));
            assert(before.push(part).drop_last() =~= before);
        }
        i += 1;
    }
    let ghost before = views(r@);
    r.push(slice_subrange(s, start, s.len()));
    assert(views(r@) =~= before.push(s@.subrange(start as int, s@.len() as int)));
    assert(s@.take(s@.len() as int) =~= s@);
    r
}

/// `s` without a carriage return at its end.
pub open spec fn without_return(s: Seq<char>) -> Seq<char> {
    if s.len() > 0 && s.last() == '\r' {
        s.drop_last()
    } else {
        s
    }
}

/// The lines of `s`: a line ends in a line feed, with or without a carriage return before it, and
/// a last line may go without.
pub open spec fn lines_of(s: Seq<char>) -> Seq<Seq<char>> {
    let parts = pieces(s, set!['\n']);
    let ended = parts.drop_last().map_values(|l: Seq<char>| without_return(l));
    if parts.last().len() == 0 {
        ended
    } else {
        ended.push(parts.last())
    }
}

/// The lines of `s`, without their line endings.
pub fn lines<'a>(s: &'a [char]) -> (r: Vec<&'a [char]>)
    ensures
        views(r@) == lines_of(s@),
{
    let parts = split(s, Separator::Symbol('\n'));
    let ghost all = views(parts@);
    let mut r: Vec<&'a [char]> = Vec::new();
    let mut i: usize = 0;
    let ghost ended = all.drop_last().map_values(|l: Seq<char>| without_return(l));
    assert(views(r@) =~= ended.take(0));
    while i < parts.len() - 1
        invariant
            i <= parts.len() - 1,
            all == views(parts@),
            ended == all.drop_last().map_values(|l: Seq<char>| without_return(l)),
            views(r@) == ended.take(i as int),
        decreases parts.len() - i,
    {
        let ghost before = views(r@);
        let line = parts[i];
        assert(all[i as int] == line@);
        let n: usize = line.len();
        if n > 0 && line[n - 1] == '\r' {
            let short = slice_subrange(line, 0, n - 1);
            assert(short@ =~= line@.drop_last());
            r.push(short);
        } else {
            r.push(line);
        }
        assert(views(r@) =~= before.push(ended[i as int]));
        assert(ended.take(i + 1) =~= ended.take(i as int).push(ended[i as int]));
        i += 1;
    }
    let last = parts[parts.len() - 1];
    assert(all.last() == last@);
    assert(ended.take(i as int) =~= ended);
    if last.len() > 0 {
        r.push(last);
        assert(views(r@) =~= ended.push(last@));
    }
    r
}

/// The pieces of `s` between its members of `cuts`, without the empty ones.
pub open spec fn filled_pieces(s: Seq<char>, cuts: Set<char>) -> Seq<Seq<char>> {
    pieces(s, cuts).filter(|w: Seq<char>| w.len() > 0)
}

/// The pieces of `s` between its separators, without the empty ones.
pub fn split_filled<'a>(s: &'a [char], sep: Separator) -> (r: Vec<&'a [char]>)
    ensures
        views(r@) == filled_pieces(s@, sep.cuts()),
{
    let parts = split(s, sep);
    let ghost all = views(parts@);
    let ghost keep = |w: Seq<char>| w.len() > 0;
    let mut r: Vec<&'a [char]> = Vec::new();
    let mut i: usize = 0;
    proof {
        reveal(Seq::filter);
        assert(views(r@) =~= all.take(0).filter(keep));
    }
    while i < parts.len()
        invariant
            i <= parts.len(),
            all == views(parts@),
            keep == (|w: Seq<char>| w.len() > 0),
            views(r@) == all.take(i as int).filter(keep),
        decreases parts.len() - i,
    {
        let ghost before = views(r@);
        let word = parts[i];
        assert(all[i as int] == word@);
        assert(all.take(i + 1).drop_last() =~= all.take(i as int));
        proof {
            reveal(Seq::filter);
        }
        if word.len() > 0 {
            r.push(word);
            assert(views(r@) =~= before.push(word@));
        }
        i += 1;
    }
    assert(all.take(i as int) =~= all);
    r
}

/// The words of `s`: its longest stretches without white space.
pub open spec fn words_of(s: Seq<char>) -> Seq<Seq<char>> {
    filled_pieces(s, Separator::Whitespace.cuts())
}

/// The words of `s`.
pub fn words<'a>(s: &'a [char]) -> (r: Vec<&'a [char]>)
    ensures
        views(r@) == words_of(s@),
{
    split_filled(s, Separator::Whitespace)
}

/// Whether `pat` stands in `s` at position `i`.
pub open spec fn occurs_at(s: Seq<char>, pat: Seq<char>, i: int) -> bool {
    0 <= i && i + pat.len() <= s.len() && s.subrange(i, i + pat.len()) == pat
}

/// The first position of `pat` in `s`, from `from` on.
pub open spec fn first_occurrence(s: Seq<char>, pat: Seq<char>, from: int) -> Option<int>
    decreases s.len() - from + 1,
{
    if from + pat.len() > s.len() {
        None
    } else if occurs_at(s, pat, from) {
        Some(from)
    } else {
        first_occurrence(s, pat, from + 1)
    }
}

/// Whether `pat` stands in `s` at position `i`.
fn stands_at(s: &[char], pat: &[char], i: usize) -> (r: bool)
    requires
        i + pat@.len() <= s@.len(),
    ensures
        r == occurs_at(s@, pat@, i as int),
{
    let mut k: usize = 0;
    while k < pat.len()
        invariant
            k <= pat.len(),
            i + pat.len() <= s.len(),
            s@.subrange(i as int, i + k) == pat@.take(k as int),
        decreases pat.len() - k,
    {
        if s[i + k] != pat[k] {
            assert(s@.subrange(i as int, i + pat@.len())[k as int] != pat@[k as int]);
            return false;
        }
        assert(s@.subrange(i as int, i + k + 1) =~= s@.subrange(i as int, i + k).push(
            s@[i + k],
        ));
        assert(pat@.take(k + 1) =~= pat@.take(k as int).push(pat@[k as int]));
        k += 1;
    }
    assert(pat@.take(k as int) =~= pat@);
    true
}

/// The first position of `pat` in `s`.
pub fn find(s: &[char], pat: &str) -> (r: Option<usize>)
    ensures
        match r {
            Some(i) => first_occurrence(s@, pat@, 0) == Some(i as int) && occurs_at(
                s@,
                pat@,
                i as int,
            ),
            None => first_occurrence(s@, pat@, 0) is None,
        },
{
    let p = chars_of(pat);
    if p.len() > s.len() {
        return None;
    }
    let last: usize = s.len() - p.len();
    let mut i: usize = 0;
    while !stands_at(s, p.as_slice(), i)
        invariant
            i <= last,
            last + p.len() == s.len(),
            p@ == pat@,
            first_occurrence(s@, pat@, 0) == first_occurrence(s@, pat@, i as int),
        decreases last - i,
    {
        if i == last {
            assert(first_occurrence(s@, pat@, i + 1) is None);
            return None;
        }
        i += 1;
    }
    Some(i)
}

/// Whether `s` begins with `pat`.
pub fn starts_with(s: &[char], pat: &str) -> (r: bool)
    ensures
        r == pat@.is_prefix_of(s@),
{
    let p = chars_of(pat);
    if p.len() > s.len() {
        return false;
    }
    assert(s@.subrange(0, pat@.len() as int) == pat@ <==> pat@ == s@.subrange(
        0,
        pat@.len() as int,
    ));
    stands_at(s, p.as_slice(), 0)
}

/// Whether the two texts are the same.
pub fn same(a: &[char], b: &[char]) -> (r: bool)
    ensures
        r == (a@ == b@),
{
    if a.len() != b.len() {
        return false;
    }
    let r = stands_at(a, b, 0);
    assert(a@.subrange(0, a@.len() as int) =~= a@);
    r
}

/// Whether `c` stands anywhere in `s`.
pub fn contains(s: &[char], c: char) -> (r: bool)
    ensures
        r == s@.contains(c),
{
    let mut i: usize = 0;
    while i < s.len()
        invariant
            i <= s.len(),
            forall|k: int| 0 <= k < i ==> s@[k] != c,
        decreases s.len() - i,
    {
        if s[i] == c {
            return true;
        }
        i += 1;
    }
    false
}

/// The parts one behind the other, with `sep` between neighbours.
pub open spec fn joined<T>(parts: Seq<Seq<T>>, sep: Seq<T>) -> Seq<T>
    decreases parts.len(),
{
    if parts.len() == 0 {
        Seq::empty()
    } else if parts.len() == 1 {
        parts[0]
    } else {
        joined(parts.drop_last(), sep) + sep + parts.last()
    }
}

/// The parts one behind the other, with `sep` between neighbours.
pub fn join(parts: &[String], sep: &str) -> (r: String)
    ensures
        r@ == joined(texts(parts@), sep@),
{
    let mut r = String::new();
    let mut i: usize = 0;
    let ghost all = texts(parts@);
    while i < parts.len()
        invariant
            i <= parts.len(),
            all == texts(parts@),
            r@ == joined(all.take(i as int), sep@),
        decreases parts.len() - i,
    {
        assert(all.take(i + 1).drop_last() =~= all.take(i as int));
        assert(all.take(i + 1).last() == parts@[i as int]@);
        if i > 0 {
            r.append(sep);
        }
        r.append(parts[i].as_str());
        i += 1;
    }
    assert(all.take(i as int) =~= all);
    r
}

/// Appends `s` to a list of strings.
pub fn push_text(list: &mut Vec<String>, s: &str)
    ensures
        texts(final(list)@) == texts(old(list)@).push(s@),
{
    let ghost before = texts(list@);
    list.push(s.to_string());
    assert(texts(list@) =~= before.push(s@));
}

/// `a` with `b` behind it.
pub fn concat(a: &str, b: &str) -> (r: String)
    ensures
        r@ == a@ + b@,
{
    let mut r = a.to_string();
    r.append(b);
    r
}

} // verus!
