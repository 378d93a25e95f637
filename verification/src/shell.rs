//! Quoting paths for the shell on the remote side.

use vstd::prelude::*;
use vstd::slice::slice_subrange;

use crate::text;

verus! {

/// How one character is written between single quotes.
pub open spec fn single_quoted(c: char) -> Seq<char> {
    if c == '\'' {
        seq!['\'', '\\', '\'', '\'']
    } else {
        seq![c]
    }
}

/// How a text is written between single quotes.
pub open spec fn single_quoted_text(s: Seq<char>) -> Seq<char>
    decreases s.len(),
{
    if s.len() == 0 {
        Seq::empty()
    } else {
        single_quoted_text(s.drop_last()) + single_quoted(s.last())
    }
}

/// The single-quoted shell word for `s`.
pub open spec fn single_quoted_word(s: Seq<char>) -> Seq<char> {
    seq!['\''] + single_quoted_text(s) + seq!['\'']
}

/// Writes `value` as one single-quoted shell word.
pub fn shell_escape(value: &str) -> (r: String)
    ensures
        r@ == single_quoted_word(value@),
{
    let s = text::chars_of(value);
    let mut out = String::new();
    out.push('\'');
    let mut i: usize = 0;
    assert(out@ =~= seq!['\''] + single_quoted_text(s@.take(0)));
    while i < s.len()
        invariant
            i <= s.len(),
            out@ == seq!['\''] + single_quoted_text(s@.take(i as int)),
        decreases s.len() - i,
    {
        let ghost before = out@;
        assert(s@.take(i + 1).drop_last() =~= s@.take(i as int));
        let c = s[i];
        if c == '\'' {
            out.push('\'');
            out.push('\\');
            out.push('\'');
            out.push('\'');
        } else {
            out.push(c);
        }
        assert(out@ =~= before + single_quoted(c));
        assert(out@ =~= seq!['\''] + single_quoted_text(s@.take(i + 1)));
        i += 1;
    }
    assert(s@.take(i as int) =~= s@);
    out.push('\'');
    assert(out@ =~= single_quoted_word(value@));
    out
}

/// The characters that keep a meaning of their own between double quotes.
pub open spec fn special_in_double(c: char) -> bool {
    c == '\\' || c == '"' || c == '$' || c == '`'
}

/// How one character is written between double quotes.
pub open spec fn double_quoted(c: char) -> Seq<char> {
    if special_in_double(c) {
        seq!['\\', c]
    } else {
        seq![c]
    }
}

/// How a text is written between double quotes.
pub open spec fn double_quoted_text(s: Seq<char>) -> Seq<char>
    decreases s.len(),
{
    if s.len() == 0 {
        Seq::empty()
    } else {
        double_quoted_text(s.drop_last()) + double_quoted(s.last())
    }
}

fn escape_double(s: &[char]) -> (r: String)
    ensures
        r@ == double_quoted_text(s@),
{
    let mut out = String::new();
    let mut i: usize = 0;
    while i < s.len()
        invariant
            i <= s.len(),
            out@ == double_quoted_text(s@.take(i as int)),
        decreases s.len() - i,
    {
        let ghost before = out@;
        assert(s@.take(i + 1).drop_last() =~= s@.take(i as int));
        let c = s[i];
        if c == '\\' || c == '"' || c == '$' || c == '`' {
            out.push('\\');
        }
        out.push(c);
        assert(out@ =~= before + double_quoted(c));
        i += 1;
    }
    assert(s@.take(i as int) =~= s@);
    out
}

/// Writes `value` so that it can stand between double quotes.
pub fn shell_escape_double(value: &str) -> (r: String)
    ensures
        r@ == double_quoted_text(value@),
{
    escape_double(text::chars_of(value).as_slice())
}

/// The shell word for a remote path: the home directory is left for the remote shell to fill in,
/// everything else stands for itself.
pub open spec fn remote_word(path: Seq<char>) -> Seq<char> {
    if path == seq!['~'] {
        "\"$HOME\""@
    } else if seq!['~', '/'].is_prefix_of(path) {
        "\"$HOME/"@ + double_quoted_text(path.skip(2)) + seq!['"']
    } else {
        single_quoted_word(path)
    }
}

/// Writes a remote path as one shell word.
pub fn remote_shell_path(path: &str) -> (r: String)
    ensures
        r@ == remote_word(path@),
{
    let s = text::chars_of(path);
    if s.len() == 1 && s[0] == '~' {
        assert(path@ =~= seq!['~']);
        return "\"$HOME\"".to_string();
    }
    if s.len() >= 2 && s[0] == '~' && s[1] == '/' {
        assert(seq!['~', '/'].is_prefix_of(path@)) by {
            assert(seq!['~', '/'] =~= path@.subrange(0, 2));
        }
        let mut r = "\"$HOME/".to_string();
        let rest = slice_subrange(s.as_slice(), 2, s.len());
        assert(rest@ =~= path@.skip(2));
        r.append(escape_double(rest).as_str());
        r.push('"');
        assert(r@ =~= remote_word(path@));
        return r;
    }
    assert(!seq!['~', '/'].is_prefix_of(path@)) by {
        if seq!['~', '/'].is_prefix_of(path@) {
            assert(path@.subrange(0, 2)[0] == '~');
            assert(path@.subrange(0, 2)[1] == '/');
        }
    }
    shell_escape(path)
}

/// How far a shell has read into a word.
pub enum Mode {
    /// Outside all quotes.
    Plain,
    /// Outside all quotes, behind a backslash.
    PlainEscape,
    /// Between single quotes.
    Single,
    /// Between double quotes.
    Double,
    /// Between double quotes, behind a backslash.
    DoubleEscape,
    /// Between double quotes, in the name of a variable.
    Variable(Seq<char>),
    /// At something that is not an ordinary part of one word.
    Other,
}

/// What a shell holds while it reads a word: its mode, and the word so far.
pub struct Reader {
    pub mode: Mode,
    pub word: Seq<char>,
}

/// Whether `c` may stand in the name of a variable.
pub open spec fn is_name_char(c: char) -> bool {
    ('a' <= c <= 'z') || ('A' <= c <= 'Z') || ('0' <= c <= '9') || c == '_'
}

/// One character read between double quotes.
pub open spec fn read_double(word: Seq<char>, c: char) -> Reader {
    if c == '"' {
        Reader { mode: Mode::Plain, word }
    } else if c == '\\' {
        Reader { mode: Mode::DoubleEscape, word }
    } else if c == '$' {
        Reader { mode: Mode::Variable(Seq::empty()), word }
    } else if c == '`' {
        Reader { mode: Mode::Other, word }
    } else {
        Reader { mode: Mode::Double, word: word.push(c) }
    }
}

/// One character read by a POSIX shell whose variable `HOME` is `home`.
pub open spec fn read_char(r: Reader, c: char, home: Seq<char>) -> Reader {
    match r.mode {
        Mode::Plain => if c == '\'' {
            Reader { mode: Mode::Single, word: r.word }
        } else if c == '"' {
            Reader { mode: Mode::Double, word: r.word }
        } else if c == '\\' {
            Reader { mode: Mode::PlainEscape, word: r.word }
        } else {
            Reader { mode: Mode::Other, word: r.word }
        },
        Mode::PlainEscape => if c == '\n' {
            Reader { mode: Mode::Plain, word: r.word }
        } else {
            Reader { mode: Mode::Plain, word: r.word.push(c) }
        },
        Mode::Single => if c == '\'' {
            Reader { mode: Mode::Plain, word: r.word }
        } else {
            Reader { mode: Mode::Single, word: r.word.push(c) }
        },
        Mode::Double => read_double(r.word, c),
        Mode::DoubleEscape => if special_in_double(c) {
            Reader { mode: Mode::Double, word: r.word.push(c) }
        } else if c == '\n' {
            Reader { mode: Mode::Double, word: r.word }
        } else {
            Reader { mode: Mode::Double, word: r.word.push('\\').push(c) }
        },
        Mode::Variable(name) => if is_name_char(c) {
            Reader { mode: Mode::Variable(name.push(c)), word: r.word }
        } else if name == "HOME"@ {
            read_double(r.word + home, c)
        } else {
            Reader { mode: Mode::Other, word: r.word }
        },
        Mode::Other => r,
    }
}

/// A text read by a POSIX shell, one character after the other.
pub open spec fn read_text(r: Reader, s: Seq<char>, home: Seq<char>) -> Reader
    decreases s.len(),
{
    if s.len() == 0 {
        r
    } else {
        read_char(read_text(r, s.drop_last(), home), s.last(), home)
    }
}

/// The word that a POSIX shell takes `s` for, where `s` is one whole quoted word.
pub open spec fn shell_word(s: Seq<char>, home: Seq<char>) -> Option<Seq<char>> {
    let r = read_text(Reader { mode: Mode::Plain, word: Seq::empty() }, s, home);
    if s.len() > 0 && r.mode is Plain {
        Some(r.word)
    } else {
        None
    }
}

/// The path that a remote path stands for where the home directory is `home`.
pub open spec fn home_filled_in(path: Seq<char>, home: Seq<char>) -> Seq<char> {
    if path == seq!['~'] {
        home
    } else if seq!['~', '/'].is_prefix_of(path) {
        home + path.skip(1)
    } else {
        path
    }
}

/// Reading two texts in a row.
proof fn lemma_read_concat(r: Reader, a: Seq<char>, b: Seq<char>, home: Seq<char>)
    ensures
        read_text(r, a + b, home) == read_text(read_text(r, a, home), b, home),
    decreases b.len(),
{
    if b.len() == 0 {
        assert(a + b =~= a);
    } else {
        lemma_read_concat(r, a, b.drop_last(), home);
        assert((a + b).drop_last() =~= a + b.drop_last());
    }
}

/// Text written for single quotes is read back between single quotes.
proof fn lemma_read_single(word: Seq<char>, s: Seq<char>, home: Seq<char>)
    ensures
        read_text(Reader { mode: Mode::Single, word }, single_quoted_text(s), home) == (Reader {
            mode: Mode::Single,
            word: word + s,
        }),
    decreases s.len(),
{
    let r = Reader { mode: Mode::Single, word };
    if s.len() == 0 {
        assert(word + s =~= word);
    } else {
        let c = s.last();
        lemma_read_single(word, s.drop_last(), home);
        lemma_read_concat(r, single_quoted_text(s.drop_last()), single_quoted(c), home);
        reveal_with_fuel(read_text, 5);
        assert(word + s =~= (word + s.drop_last()).push(c));
        let q = single_quoted(c);
        if c == '\'' {
            assert(q.drop_last() =~= seq!['\'', '\\', '\'']);
            assert(q.drop_last().drop_last() =~= seq!['\'', '\\']);
            assert(q.drop_last().drop_last().drop_last() =~= seq!['\'']);
            assert(q.drop_last().drop_last().drop_last().drop_last() =~= seq![]);
        } else {
            assert(q.drop_last() =~= seq![]);
        }
    }
}

/// Text written for double quotes is read back between double quotes.
proof fn lemma_read_double(word: Seq<char>, s: Seq<char>, home: Seq<char>)
    ensures
        read_text(Reader { mode: Mode::Double, word }, double_quoted_text(s), home) == (Reader {
            mode: Mode::Double,
            word: word + s,
        }),
    decreases s.len(),
{
    let r = Reader { mode: Mode::Double, word };
    if s.len() == 0 {
        assert(word + s =~= word);
    } else {
        let c = s.last();
        lemma_read_double(word, s.drop_last(), home);
        lemma_read_concat(r, double_quoted_text(s.drop_last()), double_quoted(c), home);
        reveal_with_fuel(read_text, 3);
        assert(word + s =~= (word + s.drop_last()).push(c));
        let q = double_quoted(c);
        if special_in_double(c) {
            assert(q.drop_last() =~= seq!['\\']);
            assert(q.drop_last().drop_last() =~= seq![]);
        } else {
            assert(q.drop_last() =~= seq![]);
        }
    }
}

/// A shell reads the single-quoted word for a text as that text, whatever characters it holds.
pub proof fn law_single_quotes_round_trip(s: Seq<char>, home: Seq<char>)
    ensures
        shell_word(single_quoted_word(s), home) == Some(s),
{
    let start = Reader { mode: Mode::Plain, word: Seq::empty() };
    let open = seq!['\''];
    let body = single_quoted_text(s);
    lemma_read_concat(start, open + body, seq!['\''], home);
    lemma_read_concat(start, open, body, home);
    reveal_with_fuel(read_text, 2);
    assert(open.drop_last() =~= seq![]);
    lemma_read_single(Seq::empty(), s, home);
    assert(Seq::<char>::empty() + s =~= s);
}

/// A shell reads a text that was written for double quotes, between double quotes, as that text.
pub proof fn law_double_quotes_round_trip(s: Seq<char>, home: Seq<char>)
    ensures
        shell_word(seq!['"'] + double_quoted_text(s) + seq!['"'], home) == Some(s),
{
    let start = Reader { mode: Mode::Plain, word: Seq::empty() };
    let quote = seq!['"'];
    let body = double_quoted_text(s);
    lemma_read_concat(start, quote + body, quote, home);
    lemma_read_concat(start, quote, body, home);
    reveal_with_fuel(read_text, 2);
    assert(quote.drop_last() =~= seq![]);
    lemma_read_double(Seq::empty(), s, home);
    assert(Seq::<char>::empty() + s =~= s);
}

/// Reading one character more.
proof fn lemma_read_push(r: Reader, s: Seq<char>, c: char, home: Seq<char>)
    ensures
        read_text(r, s.push(c), home) == read_char(read_text(r, s, home), c, home),
{
    assert(s.push(c).drop_last() =~= s);
}

/// Reading the start of a double-quoted word that begins with the variable `HOME`.
proof fn lemma_read_home(home: Seq<char>, c: char)
    requires
        !is_name_char(c),
    ensures
        read_text(
            Reader { mode: Mode::Plain, word: Seq::empty() },
            seq!['"', '$', 'H', 'O', 'M', 'E', c],
            home,
        ) == read_double(home, c),
{
    let start = Reader { mode: Mode::Plain, word: Seq::empty() };
    let s0 = Seq::<char>::empty();
    let s1 = s0.push('"');
    let s2 = s1.push('$');
    let s3 = s2.push('H');
    let s4 = s3.push('O');
    let s5 = s4.push('M');
    let s6 = s5.push('E');
    lemma_read_push(start, s0, '"', home);
    lemma_read_push(start, s1, '$', home);
    lemma_read_push(start, s2, 'H', home);
    lemma_read_push(start, s3, 'O', home);
    lemma_read_push(start, s4, 'M', home);
    lemma_read_push(start, s5, 'E', home);
    lemma_read_push(start, s6, c, home);
    reveal_strlit("HOME");
    assert(s0.push('H').push('O').push('M').push('E') =~= "HOME"@);
    assert(s0 + home =~= home);
    assert(s6.push(c) =~= seq!['"', '$', 'H', 'O', 'M', 'E', c]);
}

/// The remote shell reads the word for a remote path as exactly that path, with its own home
/// directory filled in for a leading `~`, whatever characters the path holds.
pub proof fn law_remote_word_is_read_as_path(path: Seq<char>, home: Seq<char>)
    ensures
        shell_word(remote_word(path), home) == Some(home_filled_in(path, home)),
{
    let start = Reader { mode: Mode::Plain, word: Seq::empty() };
    if path == seq!['~'] {
        reveal_strlit("\"$HOME\"");
        lemma_read_home(home, '"');
        assert("\"$HOME\""@ =~= seq!['"', '$', 'H', 'O', 'M', 'E', '"']);
    } else if seq!['~', '/'].is_prefix_of(path) {
        let rest = path.skip(2);
        let open = "\"$HOME/"@;
        reveal_strlit("\"$HOME/");
        lemma_read_home(home, '/');
        assert(open =~= seq!['"', '$', 'H', 'O', 'M', 'E', '/']);
        let whole = open + double_quoted_text(rest);
        assert(whole + seq!['"'] =~= whole.push('"'));
        lemma_read_push(start, whole, '"', home);
        lemma_read_concat(start, open, double_quoted_text(rest), home);
        lemma_read_double(home.push('/'), rest, home);
        assert(path.subrange(0, 2)[1] == '/');
        assert(home.push('/') + rest =~= home + path.skip(1));
    } else {
        law_single_quotes_round_trip(path, home);
    }
}

/// The remote shell reads the word for a path as the path itself; only a tilde, alone or before a
/// slash, it reads as its home directory.
pub proof fn law_remote_paths_reach_their_place(path: Seq<char>, rest: Seq<char>, home: Seq<char>)
    ensures
        shell_word(remote_word(seq!['~']), home) == Some(home),
        shell_word(remote_word(seq!['~', '/'] + rest), home) == Some(home + seq!['/'] + rest),
        !(path.len() > 0 && path[0] == '~' && (path.len() == 1 || path[1] == '/')) ==> shell_word(
            remote_word(path),
            home,
        ) == Some(path),
{
    let below = seq!['~', '/'] + rest;
    law_remote_word_is_read_as_path(seq!['~'], home);
    law_remote_word_is_read_as_path(below, home);
    law_remote_word_is_read_as_path(path, home);
    assert(below.subrange(0, 2) =~= seq!['~', '/']);
    assert(below.len() >= 2);
    assert(below.skip(1) =~= seq!['/'] + rest);
    assert(home + below.skip(1) =~= home + seq!['/'] + rest);
    if seq!['~', '/'].is_prefix_of(path) {
        assert(path.subrange(0, 2)[0] == '~');
        assert(path.subrange(0, 2)[1] == '/');
    }
}

proof fn lemma_single_quoted_concat(a: Seq<char>, b: Seq<char>)
    ensures
        single_quoted_text(a + b) == single_quoted_text(a) + single_quoted_text(b),
    decreases b.len(),
{
    if b.len() == 0 {
        assert(a + b =~= a);
        assert(single_quoted_text(a) + single_quoted_text(b) =~= single_quoted_text(a));
    } else {
        lemma_single_quoted_concat(a, b.drop_last());
        assert((a + b).drop_last() =~= a + b.drop_last());
        assert(single_quoted_text(a + b) =~= single_quoted_text(a) + single_quoted_text(b));
    }
}

proof fn lemma_double_quoted_concat(a: Seq<char>, b: Seq<char>)
    ensures
        double_quoted_text(a + b) == double_quoted_text(a) + double_quoted_text(b),
    decreases b.len(),
{
    if b.len() == 0 {
        assert(a + b =~= a);
        assert(double_quoted_text(a) + double_quoted_text(b) =~= double_quoted_text(a));
    } else {
        lemma_double_quoted_concat(a, b.drop_last());
        assert((a + b).drop_last() =~= a + b.drop_last());
        assert(double_quoted_text(a + b) =~= double_quoted_text(a) + double_quoted_text(b));
    }
}

/// Quoting goes character by character: one that means something between the quotes is written so
/// that it stands for itself, any other as it is.
pub proof fn law_quoting_goes_by_characters(a: Seq<char>, c: char, b: Seq<char>)
    ensures
        single_quoted_text(a + seq![c] + b) == single_quoted_text(a) + (if c == '\'' {
            "'\\''"@
        } else {
            seq![c]
        }) + single_quoted_text(b),
        double_quoted_text(a + seq![c] + b) == double_quoted_text(a) + (if c == '\\' || c == '"' || c
            == '$' || c == '`' {
            seq!['\\', c]
        } else {
            seq![c]
        }) + double_quoted_text(b),
        single_quoted_word(a) == seq!['\''] + single_quoted_text(a) + seq!['\''],
        single_quoted_text(Seq::empty()).len() == 0,
        double_quoted_text(Seq::empty()).len() == 0,
{
    let none = Seq::<char>::empty();
    reveal_with_fuel(single_quoted_text, 2);
    reveal_with_fuel(double_quoted_text, 2);
    reveal_strlit("'\\''");
    assert("'\\''"@ =~= seq!['\'', '\\', '\'', '\'']);
    lemma_single_quoted_concat(a + seq![c], b);
    lemma_single_quoted_concat(a, seq![c]);
    lemma_double_quoted_concat(a + seq![c], b);
    lemma_double_quoted_concat(a, seq![c]);
    assert(seq![c].drop_last() =~= none);
    assert(none + single_quoted(c) =~= single_quoted(c));
    assert(none + double_quoted(c) =~= double_quoted(c));
    assert(single_quoted_text(seq![c]) == single_quoted(c));
    assert(double_quoted_text(seq![c]) == double_quoted(c));
}

} // verus!
