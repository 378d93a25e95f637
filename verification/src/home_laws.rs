//! Going to the remote side and back: how the home directory is taken away and put in again.

use vstd::prelude::*;
use vstd::utf8;

use crate::path;
use crate::path_laws;
use crate::text_laws;

verus! {

/// The next slash, and that there is none before it.
proof fn lemma_up_to_slash(s: Seq<u8>, i: int)
    requires
        0 <= i <= s.len(),
    ensures
        i <= path::next_slash(s, i) <= s.len(),
        path::next_slash(s, i) < s.len() ==> s[path::next_slash(s, i)] == 47,
        text_laws::free_of(s.subrange(i, path::next_slash(s, i)), set![47u8]),
    decreases s.len() - i,
{
    if i < s.len() && s[i] != 47 {
        lemma_up_to_slash(s, i + 1);
        let e = path::next_slash(s, i);
        let name = s.subrange(i, e);
        let rest = s.subrange(i + 1, e);
        assert forall|k: int| 0 <= k < name.len() implies !set![47u8].contains(
            #[trigger] name[k],
        ) by {
            if k > 0 {
                assert(rest[k - 1] == name[k]);
            }
        }
    }
}

/// Passing over `m` names leaves the others, and stops at the start of one of them, behind a slash,
/// or at the end.
proof fn lemma_passed_over(s: Seq<u8>, i: int, m: nat)
    requires
        0 < i <= s.len(),
        s[i - 1] == 47,
        m <= path::real_names(s.skip(i)).len(),
    ensures
        i <= path::name_behind(s, i, m) <= s.len(),
        path::real_names(s.skip(path::name_behind(s, i, m))) == path::real_names(s.skip(i)).skip(
            m as int,
        ),
        path::name_behind(s, i, m) < s.len() ==> s[path::name_behind(s, i, m)] != 47
            && s[path::name_behind(s, i, m) - 1] == 47,
    decreases s.len() - i,
{
    let e = path::next_slash(s, i);
    let name = s.subrange(i, e);
    let gap = path::is_gap(name);
    let all = path::real_names(s.skip(i));
    lemma_up_to_slash(s, i);
    path_laws::lemma_real_names_of_free(name);
    path_laws::lemma_no_names::<u8>();
    if i < s.len() && !gap && m == 0 {
        assert(!set![47u8].contains(name[0]));
        assert(all.skip(0) =~= all);
    } else if e < s.len() {
        let rest = path::real_names(s.skip(e + 1));
        assert(s.skip(i) =~= name + seq![47u8] + s.skip(e + 1));
        path_laws::lemma_real_names_around(name, s.skip(e + 1));
        let left: nat = if gap {
            m
        } else {
            (m - 1) as nat
        };
        lemma_passed_over(s, e + 1, left);
        if gap {
            assert(all =~= rest);
        } else {
            assert(all =~= seq![name] + rest);
            assert(rest.skip(m - 1) =~= all.skip(m as int));
        }
    } else {
        assert(s.skip(i) =~= name);
        assert(s.skip(s.len() as int) =~= Seq::empty());
        assert(all.skip(m as int) =~= Seq::empty());
    }
}

/// The components of a path from the root that another path was put behind: first its own.
proof fn lemma_components_joined(base: Seq<u8>, p: Seq<u8>)
    requires
        path::is_absolute(base),
        !path::is_absolute(p),
    ensures
        path::components(path::path_joined(base, p)) == path::components(base)
            + path::real_names(p),
{
    let s = path::path_joined(base, p);
    let names = path::real_names(p);
    let root = seq![base.take(1)];
    path_laws::lemma_no_names::<u8>();
    assert(s.take(1) =~= base.take(1));
    if base.last() != 47 {
        assert(s.skip(1) =~= base.skip(1) + seq![47u8] + p);
        path_laws::lemma_real_names_around(base.skip(1), p);
    } else if base.len() == 1 {
        assert(s.skip(1) =~= p);
        assert(base.skip(1) =~= Seq::empty());
    } else {
        let body = base.subrange(1, base.len() - 1);
        assert(base.skip(1) =~= body + seq![47u8] + Seq::<u8>::empty());
        assert(s.skip(1) =~= body + seq![47u8] + p);
        path_laws::lemma_real_names_around(body, Seq::empty());
        path_laws::lemma_real_names_around(body, p);
    }
    assert(path::components(s) =~= root + path::real_names(base.skip(1)) + names);
    assert(path::components(base) =~= root + path::real_names(base.skip(1)));
}

/// What lies behind the components of the home directory: a path that does not begin at the root,
/// with the names that are left.
proof fn lemma_behind(local: Seq<u8>, home: Seq<u8>)
    requires
        path::is_absolute(local),
        path::is_absolute(home),
        path::components(home).is_prefix_of(path::components(local)),
    ensures
        ({
            let behind = path::behind_components(local, path::components(home).len());
            &&& !path::is_absolute(behind)
            &&& path::components(home) + path::real_names(behind) == path::components(local)
            &&& utf8::valid_utf8(local) ==> utf8::valid_utf8(behind)
        }),
{
    let mine = path::components(local);
    let base = path::components(home);
    let names = path::real_names(local.skip(1));
    let m = path::real_names(home.skip(1)).len();
    let len = local.len() as int;
    assert(base.len() == m + 1);
    assert(mine.len() == names.len() + 1);
    lemma_passed_over(local, 1, m);
    let from = path::name_behind(local, 1, m);
    let cut = path::names_end(local, from, len);
    path_laws::lemma_cut_behind_names(local, from, len);
    let behind = path::behind_components(local, base.len());
    assert(behind =~= local.subrange(from, cut));
    assert(local.subrange(from, len) =~= local.skip(from));
    assert(mine =~= seq![local.take(1)] + names);
    assert(mine.skip(base.len() as int) =~= names.skip(m as int));
    assert(base =~= mine.take(base.len() as int));
    assert(base + names.skip(m as int) =~= mine);
    if utf8::valid_utf8(local) {
        lemma_valid_between(local, from, cut);
    }
}

/// What stands behind a slash, up to a slash or the end, is valid UTF-8 if the whole is.
proof fn lemma_valid_between(s: Seq<u8>, from: int, cut: int)
    requires
        utf8::valid_utf8(s),
        0 < from <= cut <= s.len(),
        from < s.len() ==> s[from - 1] == 47,
        cut == from || cut == s.len() || s[cut] == 47,
    ensures
        utf8::valid_utf8(s.subrange(from, cut)),
{
    if from < cut {
        let n = s.len() as int;
        utf8::is_char_boundary_iff_not_is_continuation_byte(s, from - 1);
        utf8::valid_utf8_split(s, from - 1);
        let slash_on = s.subrange(from - 1, n);
        let rest = s.subrange(from, n);
        assert(slash_on[0] == 47);
        assert(utf8::pop_first_scalar(slash_on) =~= rest);
        assert(utf8::valid_utf8(rest));
        if cut < n {
            assert(rest[cut - from] == 47);
            utf8::is_char_boundary_iff_not_is_continuation_byte(rest, cut - from);
            utf8::valid_utf8_split(rest, cut - from);
            assert(rest.subrange(0, cut - from) =~= s.subrange(from, cut));
        }
    } else {
        assert(s.subrange(from, cut) =~= Seq::empty());
    }
}

/// A character of ASCII is encoded as one byte.
proof fn lemma_encode_ascii(c: char, rest: Seq<char>)
    requires
        c as u32 <= 0x7f,
    ensures
        utf8::encode_utf8(seq![c] + rest) == seq![c as u8] + utf8::encode_utf8(rest),
{
    let u = c as u32;
    assert(u & 0x7f == u) by (bit_vector)
        requires
            u <= 0x7f,
    ;
    assert((seq![c] + rest).drop_first() =~= rest);
}

/// Text that begins with a character of ASCII is encoded with its byte at the start.
proof fn lemma_first_char(s: Seq<char>, c: char)
    requires
        c as u32 <= 0x7f,
        s.len() > 0,
        s[0] == c,
    ensures
        utf8::encode_utf8(s).len() > 0,
        utf8::encode_utf8(s)[0] == c as u8,
{
    assert(s =~= seq![c] + s.drop_first());
    lemma_encode_ascii(c, s.drop_first());
}

/// A local path from the root, mapped to the remote side and expanded again with the same home
/// directory, is the same path: it has the same components.
pub proof fn law_expanding_undoes_mapping(local: Seq<u8>, home: Seq<u8>)
    requires
        path::is_absolute(local),
        path::is_absolute(home),
        utf8::valid_utf8(local),
    ensures
        utf8::valid_utf8(path::remote_bytes(local, home)),
        path::expanded(utf8::decode_utf8(path::remote_bytes(local, home)), Some(home)) matches Some(back)
            && path::components(back) == path::components(local),
{
    let bytes = path::remote_bytes(local, home);
    if path::components(home).is_prefix_of(path::components(local)) {
        let behind = path::behind_components(local, path::components(home).len());
        lemma_behind(local, home);
        let below = utf8::decode_utf8(behind);
        utf8::decode_utf8_encode_utf8(behind);
        let remote = seq!['~'] + (seq!['/'] + below);
        lemma_encode_ascii('~', seq!['/'] + below);
        lemma_encode_ascii('/', below);
        assert(utf8::encode_utf8(remote) =~= bytes);
        utf8::encode_utf8_valid_utf8(remote);
        utf8::encode_utf8_decode_utf8(remote);
        if below.len() > 0 && below[0] == '/' {
            lemma_first_char(below, '/');
        }
        assert(remote.skip(1) =~= seq!['/'] + below);
        assert((seq!['/'] + below).skip(1) =~= below);
        reveal_with_fuel(path::without_leading, 3);
        assert(path::below_tilde(remote) == below);
        lemma_components_joined(home, behind);
    } else {
        let remote = utf8::decode_utf8(local);
        utf8::decode_utf8_encode_utf8(local);
        if remote.len() > 0 && remote[0] == '~' {
            lemma_first_char(remote, '~');
        }
    }
}

proof fn lemma_without_leading(s: Seq<char>, c: char)
    ensures
        path::without_leading(s, c).len() > 0 ==> path::without_leading(s, c)[0] != c,
    decreases s.len(),
{
    if s.len() > 0 && s[0] == c {
        lemma_without_leading(s.skip(1), c);
    }
}

/// What a path with a leading tilde stands for lies below the home directory, however many slashes
/// follow on the tilde.
pub proof fn law_tilde_leads_below_home(raw: Seq<char>, home: Seq<u8>)
    requires
        raw.len() > 0,
        raw[0] == '~',
        path::is_absolute(home),
    ensures
        path::expanded(raw, Some(home)) matches Some(p) && path::components(p)
            == path::components(home) + path::real_names(
            utf8::encode_utf8(path::below_tilde(raw)),
        ) && path::components(home).is_prefix_of(path::components(p)),
{
    let below = path::below_tilde(raw);
    lemma_without_leading(path::without_leading(raw, '~'), '/');
    let bytes = utf8::encode_utf8(below);
    if path::is_absolute(bytes) {
        lemma_first_byte(below);
    }
    lemma_components_joined(home, bytes);
    let base = path::components(home);
    assert(base =~= (base + path::real_names(bytes)).subrange(0, base.len() as int));
}

/// Text whose encoding begins with a slash begins with a slash.
proof fn lemma_first_byte(s: Seq<char>)
    requires
        path::is_absolute(utf8::encode_utf8(s)),
    ensures
        s.len() > 0,
        s[0] == '/',
{
    let bytes = utf8::encode_utf8(s);
    utf8::encode_utf8_valid_utf8(s);
    utf8::encode_utf8_decode_utf8(s);
    assert(47u8 & 0x7f == 47) by (bit_vector);
    assert(utf8::decode_first_scalar(bytes) == 47);
}

/// A tilde cannot be expanded without a home directory, and that is all that can go wrong.
pub proof fn law_only_a_tilde_needs_home(raw: Seq<char>)
    ensures
        path::expanded(raw, None) is None <==> raw.len() > 0 && raw[0] == '~',
        !(raw.len() > 0 && raw[0] == '~') ==> forall|home: Option<Seq<u8>>| #[trigger]
            path::expanded(raw, home) == Some(utf8::encode_utf8(raw)),
{
}

/// `n` times the same character.
pub open spec fn repeated(c: char, n: nat) -> Seq<char> {
    Seq::new(n, |i: int| c)
}

proof fn lemma_leading_skipped(c: char, n: nat, rest: Seq<char>)
    requires
        rest.len() == 0 || rest[0] != c,
    ensures
        path::without_leading(repeated(c, n) + rest, c) == rest,
    decreases n,
{
    let s = repeated(c, n) + rest;
    if n == 0 {
        assert(s =~= rest);
    } else {
        assert(s[0] == c);
        assert(s.skip(1) =~= repeated(c, (n - 1) as nat) + rest);
        lemma_leading_skipped(c, (n - 1) as nat, rest);
    }
}

/// All tildes that a path begins with, and all slashes behind them, are passed over, and nothing
/// else is.
pub proof fn law_tildes_and_slashes_are_passed_over(tildes: nat, slashes: nat, rest: Seq<char>)
    requires
        rest.len() > 0 ==> rest[0] != '/',
        slashes == 0 && rest.len() > 0 ==> rest[0] != '~',
    ensures
        path::below_tilde(repeated('~', tildes) + repeated('/', slashes) + rest) == rest,
{
    let tail = repeated('/', slashes) + rest;
    assert(repeated('~', tildes) + repeated('/', slashes) + rest =~= repeated('~', tildes) + tail);
    if slashes > 0 {
        assert(tail[0] == '/');
    } else {
        assert(tail =~= rest);
    }
    lemma_leading_skipped('~', tildes, tail);
    lemma_leading_skipped('/', slashes, rest);
}

/// The components of a path: the root, or the dot that it begins with, and its names.
pub proof fn law_components(s: Seq<u8>, name: Seq<u8>)
    ensures
        path::is_gap(name) <==> name.len() == 0 || name == seq![46u8],
        s.len() > 0 && s[0] == 47 ==> path::components(s) == seq![seq![47u8]] + path::real_names(
            s.skip(1),
        ),
        s == seq![46u8] || (s.len() >= 2 && s[0] == 46 && s[1] == 47) ==> path::components(s)
            == seq![seq![46u8]] + path::real_names(s.skip(1)),
        !(s.len() > 0 && s[0] == 47) && s != seq![46u8] && !(s.len() >= 2 && s[0] == 46 && s[1]
            == 47) ==> path::components(s) == path::real_names(s),
{
    path_laws::law_lead(s);
    if path::lead(s) > 0 {
        assert(s.take(1) =~= seq![s[0]]);
    } else {
        assert(s.skip(0) =~= s);
        assert(Seq::<Seq<u8>>::empty() + path::real_names(s) =~= path::real_names(s));
    }
}

/// A path from the root lies below the home directory if its names begin with those of the home
/// directory, however either is written. It is then mapped to the names that are left, below the
/// tilde; any other path is mapped to itself.
pub proof fn law_mapping_goes_by_names(local: Seq<u8>, home: Seq<u8>)
    requires
        local.len() > 0,
        local[0] == 47,
        home.len() > 0,
        home[0] == 47,
    ensures
        ({
            let mine = path::real_names(local.skip(1));
            let base = path::real_names(home.skip(1));
            let remote = path::remote_bytes(local, home);
            &&& base.is_prefix_of(mine) ==> {
                &&& remote.len() >= 2
                &&& remote[0] == 126
                &&& remote[1] == 47
                &&& remote.len() > 2 ==> remote[2] != 47
                &&& path::real_names(remote.skip(2)) == mine.skip(base.len() as int)
            }
            &&& !base.is_prefix_of(mine) ==> remote == local
        }),
{
    let mine = path::real_names(local.skip(1));
    let base = path::real_names(home.skip(1));
    law_components(local, Seq::empty());
    law_components(home, Seq::empty());
    let root = seq![seq![47u8]];
    let all = path::components(local);
    let some = path::components(home);
    assert(some.is_prefix_of(all) <==> base.is_prefix_of(mine)) by {
        if base.is_prefix_of(mine) {
            assert forall|i: int| 0 <= i < some.len() implies some[i] == all[i] by {
                if i > 0 {
                    assert(base[i - 1] == mine.subrange(0, base.len() as int)[i - 1]);
                }
            }
            assert(some =~= all.subrange(0, some.len() as int));
        }
        if some.is_prefix_of(all) {
            assert forall|i: int| 0 <= i < base.len() implies base[i] == mine[i] by {
                assert(some[i + 1] == all.subrange(0, some.len() as int)[i + 1]);
            }
            assert(base =~= mine.subrange(0, base.len() as int));
        }
    }
    if base.is_prefix_of(mine) {
        lemma_behind(local, home);
        let behind = path::behind_components(local, some.len());
        let remote = path::remote_bytes(local, home);
        assert(remote =~= seq![126u8, 47u8] + behind);
        assert(remote.skip(2) =~= behind);
        assert(some + path::real_names(behind) == all);
        assert((some + path::real_names(behind)).skip(some.len() as int) =~= path::real_names(
            behind,
        ));
        assert(all.skip(some.len() as int) =~= mine.skip(base.len() as int));
    }
}

} // verus!
