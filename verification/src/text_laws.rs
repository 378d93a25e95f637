//! How cutting a text and putting it together again belong together.

use vstd::prelude::*;

use crate::text;

verus! {

/// Whether no member of `cuts` stands in `s`.
pub open spec fn free_of<T>(s: Seq<T>, cuts: Set<T>) -> bool {
    forall|i: int| 0 <= i < s.len() ==> !cuts.contains(#[trigger] s[i])
}

/// No piece holds anything at which the text is cut.
pub proof fn law_pieces_are_free_of_cuts<T>(s: Seq<T>, cuts: Set<T>)
    ensures
        forall|k: int|
            0 <= k < text::pieces(s, cuts).len() ==> free_of(
                #[trigger] text::pieces(s, cuts)[k],
                cuts,
            ),
    decreases s.len(),
{
    let all = text::pieces(s, cuts);
    if s.len() > 0 {
        let before = text::pieces(s.drop_last(), cuts);
        law_pieces_are_free_of_cuts(s.drop_last(), cuts);
        text::lemma_pieces_nonempty(s.drop_last(), cuts);
        assert forall|k: int| 0 <= k < all.len() implies free_of(#[trigger] all[k], cuts) by {
            if k < before.len() - 1 {
                assert(all[k] == before[k]);
            } else if !cuts.contains(s.last()) {
                assert(free_of(before[before.len() - 1], cuts));
            } else if k < before.len() {
                assert(all[k] == before[k]);
            }
        }
    }
}

/// Putting the pieces of a text together again, with the separator between them, gives the text.
pub proof fn law_joining_undoes_splitting<T>(s: Seq<T>, sep: T)
    ensures
        text::joined(text::pieces(s, set![sep]), seq![sep]) == s,
    decreases s.len(),
{
    let all = text::pieces(s, set![sep]);
    let glue = seq![sep];
    if s.len() == 0 {
        assert(s =~= Seq::empty());
    } else {
        let before = text::pieces(s.drop_last(), set![sep]);
        let last = s.last();
        law_joining_undoes_splitting(s.drop_last(), sep);
        text::lemma_pieces_nonempty(s.drop_last(), set![sep]);
        if last == sep {
            assert(all.drop_last() =~= before);
            assert(s =~= s.drop_last() + glue + Seq::<T>::empty());
        } else {
            let longer = before.last().push(last);
            assert(all.drop_last() =~= before.drop_last());
            assert(all.last() == longer);
            if before.len() == 1 {
                assert(s =~= before[0].push(last));
            } else {
                let init = text::joined(before.drop_last(), glue);
                assert(s.drop_last() == init + glue + before.last());
                assert(s =~= s.drop_last().push(last));
                assert((init + glue + before.last()).push(last) =~= init + glue + longer);
            }
        }
    }
}

/// Cutting what begins with text that is free of cuts.
pub proof fn lemma_pieces_of_free<T>(s: Seq<T>, cuts: Set<T>)
    requires
        free_of(s, cuts),
    ensures
        text::pieces(s, cuts) == seq![s],
    decreases s.len(),
{
    if s.len() == 0 {
        assert(s =~= Seq::empty());
        assert(text::pieces(s, cuts) =~= seq![s]);
    } else {
        assert(!cuts.contains(s[s.len() - 1]));
        assert forall|i: int| 0 <= i < s.drop_last().len() implies !cuts.contains(
            #[trigger] s.drop_last()[i],
        ) by {
            assert(!cuts.contains(s[i]));
        }
        lemma_pieces_of_free(s.drop_last(), cuts);
        assert(s.drop_last().push(s.last()) =~= s);
        assert(text::pieces(s, cuts) =~= seq![s]);
    }
}

/// Cutting a text at a separator: the pieces before it, and those behind.
pub proof fn lemma_pieces_around<T>(a: Seq<T>, sep: T, b: Seq<T>, cuts: Set<T>)
    requires
        cuts.contains(sep),
    ensures
        text::pieces(a + seq![sep] + b, cuts) == text::pieces(a, cuts) + text::pieces(b, cuts),
    decreases b.len(),
{
    let s = a + seq![sep] + b;
    let before = text::pieces(a, cuts);
    let behind = text::pieces(b, cuts);
    if b.len() == 0 {
        assert(s.drop_last() =~= a);
        assert(text::pieces(s, cuts) =~= before + behind);
    } else {
        let c = b.drop_last();
        lemma_pieces_around(a, sep, c, cuts);
        text::lemma_pieces_nonempty(c, cuts);
        assert(s.drop_last() =~= a + seq![sep] + c);
        assert(s.last() == b.last());
        assert((before + text::pieces(c, cuts)).drop_last() =~= before + text::pieces(
            c,
            cuts,
        ).drop_last());
        assert(text::pieces(s, cuts) =~= before + behind);
    }
}

/// Joining begins with the first part.
pub proof fn lemma_joined_front<T>(parts: Seq<Seq<T>>, sep: Seq<T>)
    requires
        parts.len() >= 2,
    ensures
        text::joined(parts, sep) == parts[0] + sep + text::joined(parts.skip(1), sep),
    decreases parts.len(),
{
    let rest = parts.skip(1);
    let init = parts.drop_last();
    if parts.len() == 2 {
        assert(init =~= seq![parts[0]]);
        assert(rest =~= seq![parts[1]]);
        assert(text::joined(init, sep) == parts[0]);
        assert(text::joined(rest, sep) == parts[1]);
    } else {
        lemma_joined_front(init, sep);
        assert(init.skip(1) =~= rest.drop_last());
        let middle = text::joined(rest.drop_last(), sep);
        assert(rest.last() == parts.last());
        assert(text::joined(rest, sep) == middle + sep + parts.last());
        assert(text::joined(parts, sep) == text::joined(init, sep) + sep + parts.last());
        assert((parts[0] + sep + middle) + sep + parts.last() =~= parts[0] + sep + (middle + sep
            + parts.last()));
    }
}

/// Splitting what was joined gives the parts back, where there are any and none of them holds the
/// separator.
pub proof fn law_splitting_undoes_joining<T>(parts: Seq<Seq<T>>, sep: T)
    requires
        parts.len() > 0,
        forall|k: int| 0 <= k < parts.len() ==> free_of(#[trigger] parts[k], set![sep]),
    ensures
        text::pieces(text::joined(parts, seq![sep]), set![sep]) == parts,
    decreases parts.len(),
{
    let cuts = set![sep];
    assert(free_of(parts[parts.len() - 1], cuts));
    if parts.len() == 1 {
        assert(free_of(parts[0], cuts));
        lemma_pieces_of_free(parts[0], cuts);
        assert(parts =~= seq![parts[0]]);
    } else {
        let init = parts.drop_last();
        assert forall|k: int| 0 <= k < init.len() implies free_of(#[trigger] init[k], cuts) by {
            assert(free_of(parts[k], cuts));
        }
        law_splitting_undoes_joining(init, sep);
        lemma_pieces_around(text::joined(init, seq![sep]), sep, parts.last(), cuts);
        lemma_pieces_of_free(parts.last(), cuts);
        assert(init + seq![parts.last()] =~= parts);
    }
}

/// Trimming leaves no white space at either end, and trimming again changes nothing.
pub proof fn law_trimmed_has_no_outer_space(s: Seq<char>)
    ensures
        text::trimmed(s).len() > 0 ==> !text::is_space(text::trimmed(s)[0]) && !text::is_space(
            text::trimmed(s).last(),
        ),
        text::trimmed(text::trimmed(s)) == text::trimmed(s),
{
    let t = text::trimmed_start(s);
    lemma_trimmed_start(s);
    lemma_trimmed_end(t);
    if text::trimmed(s).len() > 0 {
        assert(text::trimmed(s)[0] == t[0]);
    }
}

proof fn lemma_trimmed_start(s: Seq<char>)
    ensures
        text::trimmed_start(s).len() > 0 ==> !text::is_space(text::trimmed_start(s)[0]),
    decreases s.len(),
{
    if s.len() > 0 && text::is_space(s[0]) {
        lemma_trimmed_start(s.skip(1));
    }
}

proof fn lemma_trimmed_end(s: Seq<char>)
    ensures
        text::trimmed_end(s).len() > 0 ==> !text::is_space(text::trimmed_end(s).last()),
        text::trimmed_end(s).len() <= s.len(),
        text::trimmed_end(s).is_prefix_of(s),
    decreases s.len(),
{
    if s.len() > 0 && text::is_space(s.last()) {
        lemma_trimmed_end(s.drop_last());
        let t = text::trimmed_end(s.drop_last());
        assert(t =~= s.subrange(0, t.len() as int));
    } else {
        assert(s =~= s.subrange(0, s.len() as int));
    }
}

/// A word is not empty and holds no white space.
pub proof fn law_words_hold_no_space(s: Seq<char>, k: int)
    requires
        0 <= k < text::words_of(s).len(),
    ensures
        text::words_of(s)[k].len() > 0,
        forall|i: int|
            0 <= i < text::words_of(s)[k].len() ==> !text::is_space(
                #[trigger] text::words_of(s)[k][i],
            ),
{
    let cuts = text::Separator::Whitespace.cuts();
    let all = text::pieces(s, cuts);
    let keep = |w: Seq<char>| w.len() > 0;
    let word = text::words_of(s)[k];
    law_pieces_are_free_of_cuts(s, cuts);
    all.lemma_filter_contains_rev(keep, word);
    all.lemma_filter_pred(keep, k);
    let j = choose|j: int| 0 <= j < all.len() && all[j] == word;
    assert(free_of(all[j], cuts));
    assert forall|i: int| 0 <= i < word.len() implies !text::is_space(#[trigger] word[i]) by {
        assert(!cuts.contains(word[i]));
    }
}

/// Whether `s` is made of white space alone.
pub open spec fn blank(s: Seq<char>) -> bool {
    forall|i: int| 0 <= i < s.len() ==> text::is_space(#[trigger] s[i])
}

proof fn lemma_start_skipped(a: Seq<char>, r: Seq<char>)
    requires
        blank(a),
        r.len() == 0 || !text::is_space(r[0]),
    ensures
        text::trimmed_start(a + r) == r,
    decreases a.len(),
{
    if a.len() == 0 {
        assert(a + r =~= r);
    } else {
        assert(text::is_space(a[0]));
        assert((a + r).skip(1) =~= a.skip(1) + r);
        assert forall|i: int| 0 <= i < a.skip(1).len() implies text::is_space(
            #[trigger] a.skip(1)[i],
        ) by {
            assert(text::is_space(a[i + 1]));
        }
        lemma_start_skipped(a.skip(1), r);
    }
}

proof fn lemma_end_skipped(r: Seq<char>, b: Seq<char>)
    requires
        blank(b),
        r.len() == 0 || !text::is_space(r.last()),
    ensures
        text::trimmed_end(r + b) == r,
    decreases b.len(),
{
    if b.len() == 0 {
        assert(r + b =~= r);
    } else {
        assert(text::is_space(b[b.len() - 1]));
        assert((r + b).drop_last() =~= r + b.drop_last());
        assert forall|i: int| 0 <= i < b.drop_last().len() implies text::is_space(
            #[trigger] b.drop_last()[i],
        ) by {
            assert(text::is_space(b[i]));
        }
        lemma_end_skipped(r, b.drop_last());
    }
}

/// Whatever white space stands around a text that neither begins nor ends in any, trimming gives
/// that text.
pub proof fn law_trimming_takes_space_only(a: Seq<char>, m: Seq<char>, b: Seq<char>)
    requires
        blank(a),
        blank(b),
        m.len() > 0 ==> !text::is_space(m[0]) && !text::is_space(m.last()),
    ensures
        text::trimmed(a + m + b) == m,
{
    if m.len() == 0 {
        let s = a + m + b;
        let none = Seq::<char>::empty();
        assert forall|i: int| 0 <= i < s.len() implies text::is_space(#[trigger] s[i]) by {
            if i < a.len() {
                assert(text::is_space(a[i]));
            } else {
                assert(text::is_space(b[i - a.len()]));
            }
        }
        lemma_start_skipped(s, none);
        assert(s + none =~= s);
        assert(m =~= none);
    } else {
        assert(a + m + b =~= a + (m + b));
        lemma_start_skipped(a, m + b);
        lemma_end_skipped(m, b);
    }
}

/// Where the trimmed text stands in the whole: all around it is white space.
pub proof fn lemma_around_trimmed(s: Seq<char>) -> (r: (Seq<char>, Seq<char>))
    ensures
        s == r.0 + text::trimmed(s) + r.1,
        blank(r.0),
        blank(r.1),
{
    let t = text::trimmed_start(s);
    let a = lemma_before_start(s);
    let b = lemma_behind_end(t);
    assert(s =~= a + text::trimmed_end(t) + b);
    (a, b)
}

proof fn lemma_before_start(s: Seq<char>) -> (a: Seq<char>)
    ensures
        s == a + text::trimmed_start(s),
        blank(a),
    decreases s.len(),
{
    if s.len() > 0 && text::is_space(s[0]) {
        let a = lemma_before_start(s.skip(1));
        let r = seq![s[0]] + a;
        assert(s =~= seq![s[0]] + s.skip(1));
        assert(s =~= r + text::trimmed_start(s));
        assert forall|i: int| 0 <= i < r.len() implies text::is_space(#[trigger] r[i]) by {
            if i > 0 {
                assert(text::is_space(a[i - 1]));
            }
        }
        r
    } else {
        assert(s =~= Seq::<char>::empty() + s);
        Seq::empty()
    }
}

proof fn lemma_behind_end(s: Seq<char>) -> (b: Seq<char>)
    ensures
        s == text::trimmed_end(s) + b,
        blank(b),
    decreases s.len(),
{
    if s.len() > 0 && text::is_space(s.last()) {
        let b = lemma_behind_end(s.drop_last());
        let r = b.push(s.last());
        assert(s =~= s.drop_last().push(s.last()));
        assert(s =~= text::trimmed_end(s) + r);
        assert forall|i: int| 0 <= i < r.len() implies text::is_space(#[trigger] r[i]) by {
            if i < b.len() {
                assert(text::is_space(b[i]));
            }
        }
        r
    } else {
        assert(s =~= s + Seq::<char>::empty());
        Seq::empty()
    }
}

/// Nothing but white space is trimmed to nothing, and nothing else is.
pub proof fn law_only_blank_text_is_trimmed_away(s: Seq<char>)
    ensures
        text::trimmed(s).len() == 0 <==> blank(s),
{
    let none = Seq::<char>::empty();
    if blank(s) {
        law_trimming_takes_space_only(s, none, none);
        assert(s + none + none =~= s);
    }
    if text::trimmed(s).len() == 0 {
        let (a, b) = lemma_around_trimmed(s);
        assert forall|i: int| 0 <= i < s.len() implies text::is_space(#[trigger] s[i]) by {
            if i < a.len() {
                assert(text::is_space(a[i]));
            } else {
                assert(text::is_space(b[i - a.len()]));
            }
        }
    }
}

/// Cutting without empty pieces: the pieces before a separator, and those behind.
pub proof fn law_filled_pieces_around(a: Seq<char>, sep: char, b: Seq<char>, cuts: Set<char>)
    requires
        cuts.contains(sep),
    ensures
        text::filled_pieces(a + seq![sep] + b, cuts) == text::filled_pieces(a, cuts)
            + text::filled_pieces(b, cuts),
{
    lemma_pieces_around(a, sep, b, cuts);
    Seq::filter_distributes_over_add(
        text::pieces(a, cuts),
        text::pieces(b, cuts),
        |w: Seq<char>| w.len() > 0,
    );
}

/// A text in which nothing cuts is one piece, or none if it is empty.
pub proof fn law_filled_piece_alone(s: Seq<char>, cuts: Set<char>)
    requires
        free_of(s, cuts),
    ensures
        text::filled_pieces(s, cuts) == if s.len() == 0 {
            Seq::<Seq<char>>::empty()
        } else {
            seq![s]
        },
{
    lemma_pieces_of_free(s, cuts);
    reveal(Seq::filter);
    let keep = |w: Seq<char>| w.len() > 0;
    let none = Seq::<Seq<char>>::empty();
    assert(seq![s].drop_last() =~= none);
    assert(none.filter(keep) =~= none);
    assert(none.push(s) =~= seq![s]);
}

/// White space of any kind parts words and belongs to none.
pub proof fn law_space_parts_words(a: Seq<char>, c: char, b: Seq<char>)
    requires
        text::is_space(c),
    ensures
        text::words_of(a + seq![c] + b) == text::words_of(a) + text::words_of(b),
{
    law_filled_pieces_around(a, c, b, text::Separator::Whitespace.cuts());
}

/// A text without white space is one word, or none if it is empty.
pub proof fn law_word_alone(w: Seq<char>)
    requires
        forall|i: int| 0 <= i < w.len() ==> !text::is_space(#[trigger] w[i]),
    ensures
        text::words_of(w) == if w.len() == 0 {
            Seq::<Seq<char>>::empty()
        } else {
            seq![w]
        },
{
    law_filled_piece_alone(w, text::Separator::Whitespace.cuts());
}

/// White space around a text changes none of its words.
pub proof fn law_words_of_trimmed(s: Seq<char>)
    ensures
        text::words_of(text::trimmed(s)) == text::words_of(s),
{
    let (a, b) = lemma_around_trimmed(s);
    let m = text::trimmed(s);
    lemma_blank_before_words(a, m + b);
    lemma_blank_behind_words(m, b);
    assert(s =~= a + (m + b));
}

proof fn lemma_blank_before_words(a: Seq<char>, s: Seq<char>)
    requires
        blank(a),
    ensures
        text::words_of(a + s) == text::words_of(s),
    decreases a.len(),
{
    if a.len() == 0 {
        assert(a + s =~= s);
    } else {
        let rest = a.skip(1);
        assert(text::is_space(a[0]));
        assert forall|i: int| 0 <= i < rest.len() implies text::is_space(#[trigger] rest[i]) by {
            assert(text::is_space(a[i + 1]));
        }
        let none = Seq::<char>::empty();
        assert(a + s =~= none + seq![a[0]] + (rest + s));
        law_space_parts_words(none, a[0], rest + s);
        law_word_alone(none);
        lemma_blank_before_words(rest, s);
        assert(Seq::<Seq<char>>::empty() + text::words_of(s) =~= text::words_of(s));
    }
}

proof fn lemma_blank_behind_words(s: Seq<char>, b: Seq<char>)
    requires
        blank(b),
    ensures
        text::words_of(s + b) == text::words_of(s),
    decreases b.len(),
{
    if b.len() == 0 {
        assert(s + b =~= s);
    } else {
        let init = b.drop_last();
        assert(text::is_space(b[b.len() - 1]));
        assert forall|i: int| 0 <= i < init.len() implies text::is_space(#[trigger] init[i]) by {
            assert(text::is_space(b[i]));
        }
        let none = Seq::<char>::empty();
        assert(s + b =~= (s + init) + seq![b.last()] + none);
        law_space_parts_words(s + init, b.last(), none);
        law_word_alone(none);
        lemma_blank_behind_words(s, init);
        assert(text::words_of(s) + Seq::<Seq<char>>::empty() =~= text::words_of(s));
    }
}

/// A line feed ends a line, which is all that stands before it, but for one carriage return at the
/// end of it.
pub proof fn law_line_feed_ends_line(line: Seq<char>, rest: Seq<char>)
    requires
        !line.contains('\n'),
    ensures
        line.len() == 0 || line.last() != '\r' ==> text::lines_of(line + seq!['\n'] + rest)
            == seq![line] + text::lines_of(rest),
        text::lines_of(line + seq!['\r', '\n'] + rest) == seq![line] + text::lines_of(rest),
{
    let ended = line.push('\r');
    assert(line + seq!['\r', '\n'] + rest =~= ended + seq!['\n'] + rest);
    lemma_first_line(line, rest);
    assert forall|i: int| 0 <= i < ended.len() implies ended[i] != '\n' by {
        if i < line.len() {
            assert(line[i] == ended[i]);
        }
    }
    lemma_first_line(ended, rest);
    assert(ended.drop_last() =~= line);
}

proof fn lemma_first_line(line: Seq<char>, rest: Seq<char>)
    requires
        !line.contains('\n'),
    ensures
        text::lines_of(line + seq!['\n'] + rest) == seq![text::without_return(line)]
            + text::lines_of(rest),
{
    let cuts = set!['\n'];
    assert forall|i: int| 0 <= i < line.len() implies !cuts.contains(#[trigger] line[i]) by {
        assert(line.contains(line[i]));
    }
    lemma_pieces_of_free(line, cuts);
    lemma_pieces_around(line, '\n', rest, cuts);
    text::lemma_pieces_nonempty(rest, cuts);
    let all = text::pieces(line + seq!['\n'] + rest, cuts);
    let behind = text::pieces(rest, cuts);
    assert(all =~= seq![line] + behind);
    assert(all.last() == behind.last());
    assert(text::lines_of(line + seq!['\n'] + rest) =~= seq![text::without_return(line)]
        + text::lines_of(rest));
}

/// What stands behind the last line feed is a line as it is, unless it is nothing.
pub proof fn law_last_line_needs_no_line_feed(line: Seq<char>)
    requires
        !line.contains('\n'),
    ensures
        text::lines_of(line) == if line.len() == 0 {
            Seq::<Seq<char>>::empty()
        } else {
            seq![line]
        },
{
    let cuts = set!['\n'];
    assert forall|i: int| 0 <= i < line.len() implies !cuts.contains(#[trigger] line[i]) by {
        assert(line.contains(line[i]));
    }
    lemma_pieces_of_free(line, cuts);
    assert(text::lines_of(line) =~= if line.len() == 0 {
        Seq::<Seq<char>>::empty()
    } else {
        seq![line]
    });
}

proof fn lemma_found_from(s: Seq<char>, pat: Seq<char>, from: int)
    requires
        0 <= from,
    ensures
        match text::first_occurrence(s, pat, from) {
            Some(i) => from <= i && i + pat.len() <= s.len() && s.subrange(i, i + pat.len()) == pat
                && forall|j: int|
                from <= j < i ==> #[trigger] s.subrange(j, j + pat.len()) != pat,
            None => forall|j: int|
                from <= j && j + pat.len() <= s.len() ==> #[trigger] s.subrange(j, j + pat.len())
                    != pat,
        },
    decreases s.len() - from + 1,
{
    if from + pat.len() <= s.len() && !text::occurs_at(s, pat, from) {
        lemma_found_from(s, pat, from + 1);
    }
}

/// What is found stands there and nowhere before, and what is not found stands nowhere.
pub proof fn law_first_occurrence_is_first(s: Seq<char>, pat: Seq<char>)
    ensures
        match text::first_occurrence(s, pat, 0) {
            Some(i) => 0 <= i && i + pat.len() <= s.len() && s.subrange(i, i + pat.len()) == pat
                && forall|j: int| 0 <= j < i ==> #[trigger] s.subrange(j, j + pat.len()) != pat,
            None => forall|j: int|
                0 <= j && j + pat.len() <= s.len() ==> #[trigger] s.subrange(j, j + pat.len())
                    != pat,
        },
{
    lemma_found_from(s, pat, 0);
}

/// Joining one part more puts the separator and that part behind the others.
pub proof fn law_joining_one_part_more<T>(parts: Seq<Seq<T>>, sep: Seq<T>, part: Seq<T>)
    ensures
        text::joined(Seq::<Seq<T>>::empty(), sep) == Seq::<T>::empty(),
        parts.len() == 0 ==> text::joined(parts.push(part), sep) == part,
        parts.len() > 0 ==> text::joined(parts.push(part), sep) == text::joined(parts, sep) + sep
            + part,
{
    assert(parts.push(part).drop_last() =~= parts);
}

/// Every string and every slice is seen with its whole text, in its place.
pub proof fn law_texts_are_seen_whole(v: Seq<String>, w: Seq<&[char]>)
    ensures
        text::texts(v).len() == v.len(),
        forall|i: int| 0 <= i < v.len() ==> #[trigger] text::texts(v)[i] == v[i]@,
        text::views(w).len() == w.len(),
        forall|i: int| 0 <= i < w.len() ==> #[trigger] text::views(w)[i] == w[i]@,
{
}

} // verus!
