//! Which host to sync with: the given one, the last one, or one from the ssh configuration.

use vstd::prelude::*;
use vstd::slice::slice_to_vec;

use crate::error::{Failure, SyncError};
use crate::order;
use crate::text;

verus! {

/// `c`, in lower case if it is one of the letters from A to Z.
pub open spec fn lower(c: char) -> char {
    if 'A' <= c <= 'Z' {
        (c as nat + 32) as char
    } else {
        c
    }
}

/// Whether two texts differ at most in the case of letters from A to Z.
pub open spec fn same_but_case(a: Seq<char>, b: Seq<char>) -> bool {
    a.len() == b.len() && forall|i: int|
        0 <= i < a.len() ==> lower(#[trigger] a[i]) == lower(b[i])
}

/// Whether a name stands for hosts by a pattern.
pub open spec fn is_pattern(name: Seq<char>) -> bool {
    name.contains('*') || name.contains('?')
}

/// The hosts that a line of the ssh configuration names.
pub open spec fn hosts_on_line(line: Seq<char>) -> Seq<Seq<char>> {
    let s = text::trimmed(line);
    let words = text::words_of(s);
    if s.len() == 0 || s[0] == '#' || words.len() == 0 || !same_but_case(words[0], "Host"@) {
        Seq::empty()
    } else {
        words.skip(1).filter(|w: Seq<char>| !is_pattern(w))
    }
}

/// All hosts that the lines of the ssh configuration name.
pub open spec fn hosts_on_lines(lines: Seq<Seq<char>>) -> Set<Seq<char>>
    decreases lines.len(),
{
    if lines.len() == 0 {
        Set::empty()
    } else {
        hosts_on_lines(lines.drop_last()).union(hosts_on_line(lines.last()).to_set())
    }
}

fn lower_case(c: char) -> (r: char)
    ensures
        r == lower(c),
{
    if 'A' <= c && c <= 'Z' {
        (c as u8 + 32) as char
    } else {
        c
    }
}

fn eq_but_case(a: &[char], b: &[char]) -> (r: bool)
    ensures
        r == same_but_case(a@, b@),
{
    if a.len() != b.len() {
        return false;
    }
    let mut i: usize = 0;
    while i < a.len()
        invariant
            i <= a.len(),
            a.len() == b.len(),
            forall|k: int| 0 <= k < i ==> lower(#[trigger] a@[k]) == lower(b@[k]),
        decreases a.len() - i,
    {
        if lower_case(a[i]) != lower_case(b[i]) {
            return false;
        }
        i += 1;
    }
    true
}

spec fn names(v: Seq<Vec<char>>) -> Seq<Seq<char>> {
    v.map_values(|n: Vec<char>| n@)
}

/// Puts a name at its place in an increasing row, unless it stands there.
fn insert_name(row: &mut Vec<Vec<char>>, name: &[char])
    requires
        order::increasing(names(old(row)@)),
    ensures
        order::increasing(names(final(row)@)),
        names(final(row)@).to_set() == names(old(row)@).to_set().insert(name@),
{
    let ghost c = row@;
    let mut i: usize = row.len();
    while i > 0 && order::compare(name, row[i - 1].as_slice()) == order::Place::Before
        invariant
            i <= c.len(),
            row@ == c,
            forall|j: int| i <= j < c.len() ==> order::less(name@, #[trigger] names(c)[j]),
        decreases i,
    {
        assert(names(c)[i - 1] == c[i - 1]@);
        i -= 1;
    }
    if i > 0 && text::same(name, row[i - 1].as_slice()) {
        assert(names(c)[i - 1] == name@);
        assert(names(c).to_set() =~= names(c).to_set().insert(name@));
        return;
    }
    let entry = slice_to_vec(name);
    row.insert(i, entry);
    proof {
        let e = row@;
        assert(names(e) =~= names(c).insert(i as int, name@));
        assert forall|j: int| 0 <= j < i implies order::less(#[trigger] names(c)[j], name@) by {
            let last = c[i - 1]@;
            assert(names(c)[i - 1] == last);
            order::lemma_less_total(last, name@);
            if j < i - 1 {
                order::lemma_less_transitive(names(c)[j], last, name@);
            }
        }
        assert forall|a: int, b: int| 0 <= a < b < names(e).len() implies order::less(
            #[trigger] names(e)[a],
            #[trigger] names(e)[b],
        ) by {
            if a != i {
                assert(names(e)[a] == names(c)[if a < i { a } else { a - 1 }]);
            }
            if b != i {
                assert(names(e)[b] == names(c)[if b < i { b } else { b - 1 }]);
            }
        }
        assert forall|x: Seq<char>|
            names(e).to_set().contains(x) <==> names(c).to_set().insert(name@).contains(x) by {
            assert(names(e)[i as int] == name@);
            if names(c).contains(x) {
                let k = choose|k: int| 0 <= k < names(c).len() && names(c)[k] == x;
                assert(names(e)[if k < i { k } else { k + 1 }] == x);
            }
            if names(e).contains(x) && x != name@ {
                let k = choose|k: int| 0 <= k < names(e).len() && names(e)[k] == x;
                assert(names(c)[if k < i { k } else { k - 1 }] == x);
            }
        }
        assert(names(e).to_set() =~= names(c).to_set().insert(name@));
    }
}

/// Puts the hosts that a line names at their places in an increasing row.
fn insert_line(row: &mut Vec<Vec<char>>, line: &[char])
    requires
        order::increasing(names(old(row)@)),
    ensures
        order::increasing(names(final(row)@)),
        names(final(row)@).to_set() == names(old(row)@).to_set().union(
            hosts_on_line(line@).to_set(),
        ),
{
    let ghost before = names(row@).to_set();
    let s = text::trim(line);
    let words = text::words(s);
    let ghost all = text::views(words@);
    assert(all.len() == words@.len());
    let key = text::chars_of("Host");
    if s.len() == 0 || s[0] == '#' || words.len() == 0 || !eq_but_case(words[0], key.as_slice()) {
        assert(all.len() > 0 ==> all[0] == words@[0]@);
        assert(before =~= before.union(hosts_on_line(line@).to_set()));
        return;
    }
    assert(all[0] == words@[0]@);
    let ghost rest = all.skip(1);
    let ghost keep = |w: Seq<char>| !is_pattern(w);
    let mut i: usize = 1;
    proof {
        reveal(Seq::filter);
        assert(before =~= before.union(rest.take(0).filter(keep).to_set()));
    }
    while i < words.len()
        invariant
            1 <= i <= words.len(),
            all == text::views(words@),
            rest == all.skip(1),
            keep == (|w: Seq<char>| !is_pattern(w)),
            order::increasing(names(row@)),
            names(row@).to_set() == before.union(rest.take(i - 1).filter(keep).to_set()),
        decreases words.len() - i,
    {
        let word = words[i];
        assert(rest[i - 1] == word@);
        let ghost old_kept = rest.take(i - 1).filter(keep);
        let ghost new_kept = rest.take(i as int).filter(keep);
        assert(rest.take(i as int).drop_last() =~= rest.take(i - 1));
        proof {
            reveal(Seq::filter);
        }
        if !text::contains(word, '*') && !text::contains(word, '?') {
            insert_name(row, word);
            proof {
                assert(new_kept == old_kept.push(word@));
                assert forall|x: Seq<char>|
                    new_kept.to_set().contains(x) <==> old_kept.to_set().insert(word@).contains(
                        x,
                    ) by {
                    assert(new_kept[old_kept.len() as int] == word@);
                    if old_kept.contains(x) {
                        let k = choose|k: int| 0 <= k < old_kept.len() && old_kept[k] == x;
                        assert(new_kept[k] == x);
                    }
                }
                assert(names(row@).to_set() =~= before.union(new_kept.to_set()));
            }
        }
        i += 1;
    }
    assert(rest.take(i - 1) =~= rest);
}

/// Lists the hosts that an ssh configuration names, in order and each once.
pub fn ssh_hosts(contents: &str) -> (r: Vec<String>)
    ensures
        order::increasing(text::texts(r@)),
        text::texts(r@).to_set() == hosts_on_lines(text::lines_of(contents@)),
{
    let chars = text::chars_of(contents);
    let lines = text::lines(chars.as_slice());
    let ghost all = text::views(lines@);
    let mut row: Vec<Vec<char>> = Vec::new();
    let mut i: usize = 0;
    assert(names(row@).to_set() =~= hosts_on_lines(all.take(0)));
    while i < lines.len()
        invariant
            i <= lines.len(),
            all == text::views(lines@),
            order::increasing(names(row@)),
            names(row@).to_set() == hosts_on_lines(all.take(i as int)),
        decreases lines.len() - i,
    {
        assert(all.take(i + 1).drop_last() =~= all.take(i as int));
        assert(all.take(i + 1).last() == lines@[i as int]@);
        insert_line(&mut row, lines[i]);
        i += 1;
    }
    assert(all.take(i as int) =~= all);
    let mut r: Vec<String> = Vec::new();
    let mut k: usize = 0;
    assert(text::texts(r@) =~= names(row@).take(0));
    while k < row.len()
        invariant
            k <= row.len(),
            text::texts(r@) == names(row@).take(k as int),
        decreases row.len() - k,
    {
        let host = text::string_of(row[k].as_slice());
        text::push_text(&mut r, host.as_str());
        assert(names(row@)[k as int] == host@);
        k += 1;
        assert(text::texts(r@) =~= names(row@).take(k as int));
    }
    assert(names(row@).take(k as int) =~= names(row@));
    r
}

/// Checks that there are hosts to choose from.
pub fn require_hosts(hosts: Vec<String>) -> (r: Result<Vec<String>, SyncError>)
    ensures
        hosts@.len() > 0 ==> r == Ok::<Vec<String>, SyncError>(hosts),
        hosts@.len() == 0 ==> r is Err && r->Err_0@ == Failure::NoHosts,
{
    if hosts.len() == 0 {
        Err(SyncError::NoHosts)
    } else {
        Ok(hosts)
    }
}

/// Reads the last host from what was saved of it. White space around it does not count, and
/// nothing else is no host.
pub fn last_host(saved: &str) -> (r: Option<String>)
    ensures
        match r {
            Some(host) => host@ == text::trimmed(saved@) && host@.len() > 0,
            None => text::trimmed(saved@).len() == 0,
        },
{
    let chars = text::chars_of(saved);
    let host = text::trim(chars.as_slice());
    if host.len() == 0 {
        None
    } else {
        Some(text::string_of(host))
    }
}

/// Where the host of a run comes from.
#[derive(Debug)]
pub enum HostChoice {
    /// This host; where it is new, it is saved as the last one.
    Use { host: String, save: bool },
    /// The user is asked.
    Ask,
}

/// Chooses the host: the given one, else the last one, else the user is asked.
pub fn choose_host(given: Option<String>, last: Option<String>) -> (r: HostChoice)
    ensures
        match given {
            Some(h) => r == (HostChoice::Use { host: h, save: true }),
            None => match last {
                Some(h) => r == (HostChoice::Use { host: h, save: false }),
                None => r is Ask,
            },
        },
{
    match given {
        Some(host) => HostChoice::Use { host, save: true },
        None => match last {
            Some(host) => HostChoice::Use { host, save: false },
            None => HostChoice::Ask,
        },
    }
}

/// Tells path and host apart: a lone argument that is no existing path is the host, and the path
/// is then the current directory.
pub fn assign_positionals(
    path: Option<String>,
    host: Option<String>,
    path_exists: bool,
) -> (r: (String, Option<String>))
    ensures
        path is Some && (host is Some || path_exists) ==> r.0 == path->0 && r.1 == host,
        path is Some && host is None && !path_exists ==> r.0@ == "."@ && r.1 == path,
        path is None ==> r.0@ == "."@ && r.1 == host,
{
    match path {
        Some(p) => {
            if host.is_none() && !path_exists {
                (".".to_string(), Some(p))
            } else {
                (p, host)
            }
        },
        None => (".".to_string(), host),
    }
}

} // verus!
