//! What the list of hosts holds, and what is remembered of a host.

use vstd::prelude::*;

use crate::hosts;
use crate::order;
use crate::text;
use crate::text_laws;

verus! {

/// A host is named by an ssh configuration if one of its lines names it.
pub proof fn law_named_by_some_line(lines: Seq<Seq<char>>, host: Seq<char>)
    ensures
        hosts::hosts_on_lines(lines).contains(host) <==> exists|i: int|
            0 <= i < lines.len() && hosts::hosts_on_line(#[trigger] lines[i]).contains(host),
    decreases lines.len(),
{
    if lines.len() > 0 {
        let init = lines.drop_last();
        law_named_by_some_line(init, host);
        if hosts::hosts_on_lines(init).contains(host) {
            let i = choose|i: int|
                0 <= i < init.len() && hosts::hosts_on_line(#[trigger] init[i]).contains(host);
            assert(lines[i] == init[i]);
        } else if hosts::hosts_on_line(lines.last()).contains(host) {
            assert(lines[lines.len() - 1] == lines.last());
        }
        if exists|i: int|
            0 <= i < lines.len() && hosts::hosts_on_line(#[trigger] lines[i]).contains(host) {
            let i = choose|i: int|
                0 <= i < lines.len() && hosts::hosts_on_line(#[trigger] lines[i]).contains(host);
            if i < init.len() {
                assert(init[i] == lines[i]);
            }
        }
    }
}

/// A listed host is a word, not a pattern.
pub proof fn law_hosts_are_words(lines: Seq<Seq<char>>, host: Seq<char>)
    requires
        hosts::hosts_on_lines(lines).contains(host),
    ensures
        host.len() > 0,
        forall|i: int| 0 <= i < host.len() ==> !text::is_space(#[trigger] host[i]),
        !hosts::is_pattern(host),
{
    law_named_by_some_line(lines, host);
    let i = choose|i: int|
        0 <= i < lines.len() && hosts::hosts_on_line(#[trigger] lines[i]).contains(host);
    let s = text::trimmed(lines[i]);
    let words = text::words_of(s);
    let rest = words.skip(1);
    let keep = |w: Seq<char>| !hosts::is_pattern(w);
    let found = rest.filter(keep);
    let k = choose|k: int| 0 <= k < found.len() && found[k] == host;
    rest.lemma_filter_contains_rev(keep, host);
    let j = choose|j: int| 0 <= j < rest.len() && rest[j] == host;
    text_laws::law_words_hold_no_space(s, j + 1);
    assert(words[j + 1] == host);
    rest.lemma_filter_pred(keep, k);
}

/// Configurations with the same lines, in whatever order and however often, give the same list.
pub proof fn law_order_of_lines_does_not_matter(
    a: Seq<Seq<char>>,
    b: Seq<Seq<char>>,
    listed_a: Seq<Seq<char>>,
    listed_b: Seq<Seq<char>>,
)
    requires
        forall|line: Seq<char>| a.contains(line) <==> b.contains(line),
        order::increasing(listed_a),
        listed_a.to_set() == hosts::hosts_on_lines(a),
        order::increasing(listed_b),
        listed_b.to_set() == hosts::hosts_on_lines(b),
    ensures
        listed_a == listed_b,
{
    assert forall|host: Seq<char>| listed_a.contains(host) <==> listed_b.contains(host) by {
        law_named_by_some_line(a, host);
        law_named_by_some_line(b, host);
        if listed_a.contains(host) {
            assert(listed_a.to_set().contains(host));
            let i = choose|i: int|
                0 <= i < a.len() && hosts::hosts_on_line(#[trigger] a[i]).contains(host);
            assert(a.contains(a[i]));
            let j = choose|j: int| 0 <= j < b.len() && b[j] == a[i];
            assert(hosts::hosts_on_line(b[j]).contains(host));
            assert(listed_b.to_set().contains(host));
        }
        if listed_b.contains(host) {
            assert(listed_b.to_set().contains(host));
            let i = choose|i: int|
                0 <= i < b.len() && hosts::hosts_on_line(#[trigger] b[i]).contains(host);
            assert(b.contains(b[i]));
            let j = choose|j: int| 0 <= j < a.len() && a[j] == b[i];
            assert(hosts::hosts_on_line(a[j]).contains(host));
            assert(listed_a.to_set().contains(host));
        }
    }
    order::lemma_increasing_unique(listed_a, listed_b);
}

/// No host is listed twice.
pub proof fn law_hosts_are_listed_once(listed: Seq<Seq<char>>)
    requires
        order::increasing(listed),
    ensures
        listed.no_duplicates(),
{
    assert forall|i: int, j: int| 0 <= i < j < listed.len() implies listed[i] != listed[j] by {
        order::lemma_less_asymmetric(listed[i], listed[j]);
    }
}

/// A host from the list that is saved as the last one is read back.
pub proof fn law_saved_host_is_read_back(lines: Seq<Seq<char>>, host: Seq<char>)
    requires
        hosts::hosts_on_lines(lines).contains(host),
    ensures
        text::trimmed(host) == host,
        host.len() > 0,
{
    law_hosts_are_words(lines, host);
    assert(!text::is_space(host[0]));
    assert(!text::is_space(host[host.len() - 1]));
}

/// Whether a word is the keyword for hosts, in capital or small letters.
pub open spec fn is_host_keyword(word: Seq<char>) -> bool {
    &&& word.len() == 4
    &&& word[0] == 'H' || word[0] == 'h'
    &&& word[1] == 'O' || word[1] == 'o'
    &&& word[2] == 'S' || word[2] == 's'
    &&& word[3] == 'T' || word[3] == 't'
}

proof fn lemma_keyword(word: Seq<char>)
    ensures
        hosts::same_but_case(word, "Host"@) <==> is_host_keyword(word),
{
    reveal_strlit("Host");
    let key = "Host"@;
    if hosts::same_but_case(word, key) {
        assert(hosts::lower(word[0]) == hosts::lower(key[0]));
        assert(hosts::lower(word[1]) == hosts::lower(key[1]));
        assert(hosts::lower(word[2]) == hosts::lower(key[2]));
        assert(hosts::lower(word[3]) == hosts::lower(key[3]));
    }
    if is_host_keyword(word) {
        assert forall|i: int| 0 <= i < word.len() implies hosts::lower(#[trigger] word[i])
            == hosts::lower(key[i]) by {
            assert(i == 0 || i == 1 || i == 2 || i == 3);
        }
    }
}

/// The first word of a text that does not begin with white space begins as the text does.
proof fn lemma_first_word(s: Seq<char>, i: int)
    requires
        s.len() > 0,
        !text::is_space(s[0]),
        0 < i <= s.len(),
        forall|k: int| 0 <= k < i ==> !text::is_space(#[trigger] s[k]),
    ensures
        text::words_of(s).len() > 0,
        text::words_of(s)[0].len() > 0,
        text::words_of(s)[0][0] == s[0],
    decreases s.len() - i,
{
    let word = s.take(i);
    assert forall|k: int| 0 <= k < word.len() implies !text::is_space(#[trigger] word[k]) by {
        assert(!text::is_space(s[k]));
    }
    text_laws::law_word_alone(word);
    if i == s.len() {
        assert(word =~= s);
    } else if text::is_space(s[i]) {
        assert(s =~= word + seq![s[i]] + s.skip(i + 1));
        text_laws::law_space_parts_words(word, s[i], s.skip(i + 1));
        assert(text::words_of(s)[0] == word);
    } else {
        lemma_first_word(s, i + 1);
    }
}

/// A line names a host exactly if its first word is the keyword, in whatever case, and the host is
/// one of the other words and no pattern.
pub proof fn law_which_hosts_a_line_names(line: Seq<char>, host: Seq<char>)
    ensures
        ({
            let words = text::words_of(line);
            hosts::hosts_on_line(line).contains(host) <==> {
                &&& words.len() > 0
                &&& is_host_keyword(words[0])
                &&& !host.contains('*')
                &&& !host.contains('?')
                &&& exists|i: int| 1 <= i < words.len() && #[trigger] words[i] == host
            }
        }),
{
    let s = text::trimmed(line);
    let words = text::words_of(line);
    let rest = words.skip(1);
    let keep = |w: Seq<char>| !hosts::is_pattern(w);
    text_laws::law_words_of_trimmed(line);
    text_laws::law_trimmed_has_no_outer_space(line);
    if s.len() == 0 {
        assert(s =~= Seq::empty());
        text_laws::law_word_alone(s);
        assert(words.len() == 0);
    } else {
        lemma_first_word(s, 1);
    }
    if words.len() > 0 {
        lemma_keyword(words[0]);
        if rest.filter(keep).contains(host) {
            rest.lemma_filter_contains_rev(keep, host);
            let j = choose|j: int| 0 <= j < rest.len() && rest[j] == host;
            assert(words[j + 1] == host);
            let found = rest.filter(keep);
            let k = choose|k: int| 0 <= k < found.len() && found[k] == host;
            rest.lemma_filter_pred(keep, k);
        }
        if (exists|i: int| 1 <= i < words.len() && #[trigger] words[i] == host) && !host.contains('*')
            && !host.contains('?') {
            let i = choose|i: int| 1 <= i < words.len() && #[trigger] words[i] == host;
            assert(rest[i - 1] == host);
            rest.lemma_filter_contains(keep, i - 1);
        }
    }
}

/// What is read of a saved host does not depend on white space around it.
pub proof fn law_space_around_saved_host(a: Seq<char>, host: Seq<char>, b: Seq<char>)
    requires
        text_laws::blank(a),
        text_laws::blank(b),
        host.len() > 0,
        !text::is_space(host[0]),
        !text::is_space(host.last()),
    ensures
        text::trimmed(a + host + b) == host,
{
    text_laws::law_trimming_takes_space_only(a, host, b);
}

} // verus!
