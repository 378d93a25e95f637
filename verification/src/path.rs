//! Paths, as the bytes or characters that stand between slashes.

use vstd::prelude::*;
use vstd::slice::{slice_subrange, slice_to_vec};

use crate::error::{Failure, SyncError};
use crate::lossy;
use crate::text;

verus! {

/// What paths are made of: bytes on this side, characters where a path is text.
pub trait Unit: Copy {
    /// What separates the names on a path.
    spec fn slash_unit() -> Self;

    /// What the names of this and of the directory above are made of.
    spec fn dot_unit() -> Self;

    fn slash() -> (r: Self)
        ensures
            r == Self::slash_unit(),
    ;

    fn dot() -> (r: Self)
        ensures
            r == Self::dot_unit(),
    ;

    fn same(self, other: Self) -> (r: bool)
        ensures
            r == (self == other),
    ;
}

impl Unit for u8 {
    open spec fn slash_unit() -> u8 {
        47
    }

    open spec fn dot_unit() -> u8 {
        46
    }

    fn slash() -> u8 {
        47
    }

    fn dot() -> u8 {
        46
    }

    fn same(self, other: u8) -> bool {
        self == other
    }
}

impl Unit for char {
    open spec fn slash_unit() -> char {
        '/'
    }

    open spec fn dot_unit() -> char {
        '.'
    }

    fn slash() -> char {
        '/'
    }

    fn dot() -> char {
        '.'
    }

    fn same(self, other: char) -> bool {
        self == other
    }
}

/// Whether a path begins at the root.
pub open spec fn is_absolute<T: Unit>(s: Seq<T>) -> bool {
    s.len() > 0 && s[0] == T::slash_unit()
}

/// The length of what a path begins with before its names: the root, or a dot for the current
/// directory.
pub open spec fn lead<T: Unit>(s: Seq<T>) -> nat {
    if is_absolute(s) {
        1
    } else if s.len() > 0 && s[0] == T::dot_unit() && (s.len() == 1 || s[1] == T::slash_unit()) {
        1
    } else {
        0
    }
}

/// Whether what stands between two slashes is no name: nothing, or a dot.
pub open spec fn is_gap<T: Unit>(name: Seq<T>) -> bool {
    name.len() == 0 || name == seq![T::dot_unit()]
}

/// Where the stretch without slashes that ends at `end` begins, not before `floor`.
pub open spec fn name_start<T: Unit>(s: Seq<T>, floor: int, end: int) -> int
    decreases end,
{
    if end <= floor || end <= 0 || s[end - 1] == T::slash_unit() {
        end
    } else {
        name_start(s, floor, end - 1)
    }
}

/// The end of the last name of `s` between `floor` and `end`, or `floor` where there is none.
pub open spec fn names_end<T: Unit>(s: Seq<T>, floor: int, end: int) -> int
    decreases end,
{
    let start = name_start(s, floor, end);
    if end <= floor || end <= 0 {
        floor
    } else if !is_gap(s.subrange(start, end)) {
        end
    } else if floor < start <= end && 0 < start {
        names_end(s, floor, start - 1)
    } else {
        floor
    }
}

/// The length of the path of the directory that holds the last component of `s`. The root and the
/// empty path lie in no directory.
pub open spec fn parent_len<T: Unit>(s: Seq<T>) -> Option<int> {
    let floor = lead(s) as int;
    let end = names_end(s, floor, s.len() as int);
    let start = name_start(s, floor, end);
    if end > floor {
        Some(names_end(s, floor, if start > floor { start - 1 } else { floor }))
    } else if floor > 0 && !is_absolute(s) {
        Some(0)
    } else {
        None
    }
}

/// Whether the path begins at the root.
pub fn begins_at_root<T: Unit>(s: &[T]) -> (r: bool)
    ensures
        r == is_absolute(s@),
{
    s.len() > 0 && s[0].same(T::slash())
}

fn lead_len<T: Unit>(s: &[T]) -> (r: usize)
    ensures
        r == lead(s@),
        r <= s@.len(),
{
    if begins_at_root(s) {
        1
    } else if s.len() > 0 && s[0].same(T::dot()) && (s.len() == 1 || s[1].same(T::slash())) {
        1
    } else {
        0
    }
}

fn find_name_start<T: Unit>(s: &[T], floor: usize, end: usize) -> (r: usize)
    requires
        floor <= end <= s@.len(),
    ensures
        r == name_start(s@, floor as int, end as int),
        floor <= r <= end,
{
    let mut start: usize = end;
    while start > floor && !s[start - 1].same(T::slash())
        invariant
            floor <= start <= end <= s@.len(),
            name_start(s@, floor as int, end as int) == name_start(s@, floor as int, start as int),
        decreases start,
    {
        start -= 1;
    }
    start
}

fn find_names_end<T: Unit>(s: &[T], floor: usize, end: usize) -> (r: usize)
    requires
        floor <= end <= s@.len(),
    ensures
        r == names_end(s@, floor as int, end as int),
        floor <= r <= end,
{
    let mut e: usize = end;
    while e > floor
        invariant
            floor <= e <= end <= s@.len(),
            names_end(s@, floor as int, end as int) == names_end(s@, floor as int, e as int),
        decreases e,
    {
        let start: usize = find_name_start(s, floor, e);
        let name = slice_subrange(s, start, e);
        if !gap(name) {
            return e;
        }
        if start > floor {
            e = start - 1;
        } else {
            return floor;
        }
    }
    e
}

fn gap<T: Unit>(name: &[T]) -> (r: bool)
    ensures
        r == is_gap(name@),
{
    let r = name.len() == 0 || (name.len() == 1 && name[0].same(T::dot()));
    assert(r && name@.len() > 0 ==> name@ =~= seq![T::dot_unit()]);
    r
}

/// The length of the path of the directory that holds the last component.
fn find_parent<T: Unit>(s: &[T]) -> (r: Option<usize>)
    ensures
        match r {
            Some(n) => parent_len(s@) == Some(n as int) && n <= s@.len(),
            None => parent_len(s@) is None,
        },
{
    let floor: usize = lead_len(s);
    let end: usize = find_names_end(s, floor, s.len());
    if end > floor {
        let start: usize = find_name_start(s, floor, end);
        let cut: usize = if start > floor { start - 1 } else { floor };
        Some(find_names_end(s, floor, cut))
    } else if floor > 0 && !begins_at_root(s) {
        Some(0)
    } else {
        None
    }
}

/// Finds the directory that a remote path lies in. A path that lies in none stays as it is.
pub fn parent_of_remote(remote_path: &str) -> (r: String)
    ensures
        r@ == match parent_len(remote_path@) {
            Some(n) => remote_path@.take(n),
            None => remote_path@,
        },
{
    let s = text::chars_of(remote_path);
    match find_parent(s.as_slice()) {
        Some(n) => {
            let parent = slice_subrange(s.as_slice(), 0, n);
            assert(parent@ =~= remote_path@.take(n as int));
            text::string_of(parent)
        },
        None => remote_path.to_string(),
    }
}

/// Finds the directory that a local path lies in.
pub fn local_parent(path: &[u8]) -> (r: Option<Vec<u8>>)
    ensures
        match r {
            Some(p) => parent_len(path@) == Some(p@.len() as int) && p@ == path@.take(
                p@.len() as int,
            ),
            None => parent_len(path@) is None,
        },
{
    match find_parent(path) {
        Some(n) => {
            let parent = slice_subrange(path, 0, n);
            assert(parent@ =~= path@.take(n as int));
            Some(slice_to_vec(parent))
        },
        None => None,
    }
}

/// `p` behind `base`, with a slash between them where `base` does not end in one. An absolute `p`
/// takes the place of `base`.
pub open spec fn path_joined(base: Seq<u8>, p: Seq<u8>) -> Seq<u8> {
    if is_absolute(p) {
        p
    } else if base.len() > 0 && base.last() != 47 {
        base.push(47) + p
    } else {
        base + p
    }
}

fn append_bytes(out: &mut Vec<u8>, s: &[u8])
    ensures
        final(out)@ == old(out)@ + s@,
{
    let mut i: usize = 0;
    let ghost before = out@;
    while i < s.len()
        invariant
            i <= s.len(),
            out@ == before + s@.take(i as int),
        decreases s.len() - i,
    {
        out.push(s[i]);
        assert(s@.take(i + 1) =~= s@.take(i as int).push(s@[i as int]));
        i += 1;
        assert(out@ =~= before + s@.take(i as int));
    }
    assert(s@.take(i as int) =~= s@);
}

/// Puts `p` behind `base`.
pub fn join_path(base: &[u8], p: &[u8]) -> (r: Vec<u8>)
    ensures
        r@ == path_joined(base@, p@),
{
    if begins_at_root(p) {
        return slice_to_vec(p);
    }
    let mut r = slice_to_vec(base);
    if base.len() > 0 && base[base.len() - 1] != 47 {
        r.push(47);
    }
    append_bytes(&mut r, p);
    r
}

/// Whether `name` stands for the directory above.
pub open spec fn is_up(name: Seq<u8>) -> bool {
    name == seq![46u8, 46u8]
}

/// The names that are left when each name for the directory above has taken away the one before
/// it, if there is one.
pub open spec fn resolved(names: Seq<Seq<u8>>) -> Seq<Seq<u8>>
    decreases names.len(),
{
    if names.len() == 0 {
        Seq::empty()
    } else {
        let before = resolved(names.drop_last());
        if is_gap(names.last()) {
            before
        } else if is_up(names.last()) {
            if before.len() > 0 {
                before.drop_last()
            } else {
                before
            }
        } else {
            before.push(names.last())
        }
    }
}

/// What stands between the slashes of a path.
pub open spec fn between_slashes(s: Seq<u8>) -> Seq<Seq<u8>> {
    text::pieces(s, set![47u8])
}

/// The root, for a path that begins there.
pub open spec fn root_of(s: Seq<u8>) -> Seq<u8> {
    if is_absolute(s) {
        seq![47u8]
    } else {
        Seq::empty()
    }
}

/// The path without dots, empty names and names for the directory above.
pub open spec fn cleaned(s: Seq<u8>) -> Seq<u8> {
    root_of(s) + text::joined(resolved(between_slashes(s)), seq![47u8])
}

/// The bytes of each slice.
pub open spec fn byte_views(v: Seq<&[u8]>) -> Seq<Seq<u8>> {
    v.map_values(|t: &[u8]| t@)
}

fn split_at_slashes<'a>(s: &'a [u8]) -> (r: Vec<&'a [u8]>)
    ensures
        byte_views(r@) == between_slashes(s@),
{
    let mut r: Vec<&'a [u8]> = Vec::new();
    let mut start: usize = 0;
    let mut i: usize = 0;
    assert(s@.take(0) =~= Seq::empty());
    assert(byte_views(r@).push(s@.subrange(0, 0)) =~= seq![Seq::empty()]);
    while i < s.len()
        invariant
            start <= i <= s.len(),
            byte_views(r@).push(s@.subrange(start as int, i as int)) == between_slashes(
                s@.take(i as int),
            ),
        decreases s.len() - i,
    {
        let ghost before = byte_views(r@);
        let ghost part = s@.subrange(start as int, i as int);
        assert(s@.take(i + 1).drop_last() =~= s@.take(i as int));
        if s[i] == 47 {
            r.push(slice_subrange(s, start, i));
            start = i + 1;
            assert(byte_views(r@) =~= before.push(part));
            assert(s@.subrange(start as int, i + 1) =~= Seq::empty());
        } else {
            assert(s@.subrange(start as int, i + 1) =~= part.push(s@[i as int]));
            assert(before.push(part).drop_last() =~= before);
        }
        i += 1;
    }
    let ghost before = byte_views(r@);
    r.push(slice_subrange(s, start, s.len()));
    assert(byte_views(r@) =~= before.push(s@.subrange(start as int, s@.len() as int)));
    assert(s@.take(s@.len() as int) =~= s@);
    r
}

/// Removes dots, empty names and names for the directory above from a path.
pub fn clean_path(path: &[u8]) -> (r: Vec<u8>)
    ensures
        r@ == cleaned(path@),
{
    let names = split_at_slashes(path);
    let ghost all = byte_views(names@);
    let mut kept: Vec<&[u8]> = Vec::new();
    let mut i: usize = 0;
    assert(byte_views(kept@) =~= resolved(all.take(0)));
    while i < names.len()
        invariant
            i <= names.len(),
            all == byte_views(names@),
            byte_views(kept@) == resolved(all.take(i as int)),
        decreases names.len() - i,
    {
        let name = names[i];
        let ghost before = byte_views(kept@);
        assert(all[i as int] == name@);
        assert(all.take(i + 1).drop_last() =~= all.take(i as int));
        if gap(name) {
        } else if name.len() == 2 && name[0] == 46 && name[1] == 46 {
            assert(name@ =~= seq![46u8, 46u8]);
            if kept.len() > 0 {
                kept.pop();
                assert(byte_views(kept@) =~= before.drop_last());
            }
        } else {
            kept.push(name);
            assert(byte_views(kept@) =~= before.push(name@));
        }
        i += 1;
    }
    assert(all.take(i as int) =~= all);
    let ghost parts = byte_views(kept@);
    let mut r: Vec<u8> = Vec::new();
    if begins_at_root(path) {
        r.push(47);
    }
    assert(r@ =~= root_of(path@));
    let mut k: usize = 0;
    while k < kept.len()
        invariant
            k <= kept.len(),
            parts == byte_views(kept@),
            r@ == root_of(path@) + text::joined(parts.take(k as int), seq![47u8]),
        decreases kept.len() - k,
    {
        let ghost done = text::joined(parts.take(k as int), seq![47u8]);
        assert(parts.take(k + 1).drop_last() =~= parts.take(k as int));
        assert(parts.take(k + 1).last() == kept@[k as int]@);
        if k > 0 {
            r.push(47);
        }
        append_bytes(&mut r, kept[k]);
        k += 1;
        assert(r@ =~= root_of(path@) + text::joined(parts.take(k as int), seq![47u8]));
    }
    assert(parts.take(k as int) =~= parts);
    r
}

/// `s` without any `c` at its start.
pub open spec fn without_leading(s: Seq<char>, c: char) -> Seq<char>
    decreases s.len(),
{
    if s.len() > 0 && s[0] == c {
        without_leading(s.skip(1), c)
    } else {
        s
    }
}

fn skip_leading<'a>(s: &'a [char], c: char) -> (r: &'a [char])
    ensures
        r@ == without_leading(s@, c),
{
    let mut i: usize = 0;
    assert(s@.skip(0) =~= s@);
    while i < s.len() && s[i] == c
        invariant
            i <= s.len(),
            without_leading(s@, c) == without_leading(s@.skip(i as int), c),
        decreases s.len() - i,
    {
        assert(s@.skip(i as int).skip(1) =~= s@.skip(i + 1));
        i += 1;
    }
    let r = slice_subrange(s, i, s.len());
    assert(r@ =~= s@.skip(i as int));
    r
}

/// What stands behind the tildes and slashes that a path begins with.
pub open spec fn below_tilde(raw: Seq<char>) -> Seq<char> {
    without_leading(without_leading(raw, '~'), '/')
}

/// The path that `raw` stands for where the home directory is `home`: a leading tilde stands for the
/// home directory, and means nothing where there is none.
pub open spec fn expanded(raw: Seq<char>, home: Option<Seq<u8>>) -> Option<Seq<u8>> {
    if raw.len() > 0 && raw[0] == '~' {
        match home {
            Some(h) => Some(path_joined(h, vstd::utf8::encode_utf8(below_tilde(raw)))),
            None => None,
        }
    } else {
        Some(vstd::utf8::encode_utf8(raw))
    }
}

/// The bytes of a slice, if there is one.
pub open spec fn bytes_in(s: Option<&[u8]>) -> Option<Seq<u8>> {
    match s {
        Some(b) => Some(b@),
        None => None,
    }
}

/// Puts the home directory in the place of a leading tilde.
pub fn expand_path(raw: &str, home: Option<&[u8]>) -> (r: Result<Vec<u8>, SyncError>)
    ensures
        match r {
            Ok(path) => expanded(raw@, bytes_in(home)) == Some(path@),
            Err(error) => expanded(raw@, bytes_in(home)) is None && error@ == Failure::NoHomeDir,
        },
{
    let s = text::chars_of(raw);
    if s.len() > 0 && s[0] == '~' {
        match home {
            Some(h) => {
                let rest = skip_leading(skip_leading(s.as_slice(), '~'), '/');
                let below = text::string_of(rest);
                Ok(join_path(h, below.as_str().as_bytes()))
            },
            None => Err(SyncError::NoHomeDir),
        }
    } else {
        Ok(slice_to_vec(raw.as_bytes()))
    }
}

/// The clean path from the root for `path`, which may start from the current directory `cwd`.
pub fn normalize_path(path: &[u8], cwd: &[u8]) -> (r: Vec<u8>)
    ensures
        r@ == cleaned(
            if is_absolute(path@) {
                path@
            } else {
                path_joined(cwd@, path@)
            },
        ),
{
    if begins_at_root(path) {
        clean_path(path)
    } else {
        clean_path(join_path(cwd, path).as_slice())
    }
}

/// The names on a path, without gaps.
pub open spec fn real_names<T: Unit>(s: Seq<T>) -> Seq<Seq<T>> {
    text::pieces(s, set![T::slash_unit()]).filter(|n: Seq<T>| !is_gap(n))
}

/// The components of a path: what it begins with before its names, and its names.
pub open spec fn components(s: Seq<u8>) -> Seq<Seq<u8>> {
    let n = lead(s) as int;
    (if n > 0 {
        seq![s.take(n)]
    } else {
        Seq::empty()
    }) + real_names(s.skip(n))
}

/// The first slash of `s` from `i` on, or its end.
pub open spec fn next_slash(s: Seq<u8>, i: int) -> int
    decreases s.len() - i,
{
    if i >= s.len() || s[i] == 47 {
        i
    } else {
        next_slash(s, i + 1)
    }
}

/// Where, from `i` on, a name begins that `m` names stand before; the end of `s` where there is
/// none.
pub open spec fn name_behind(s: Seq<u8>, i: int, m: nat) -> int
    decreases s.len() - i,
{
    let e = next_slash(s, i);
    let gap = is_gap(s.subrange(i, e));
    if i < s.len() && !gap && m == 0 {
        i
    } else if i <= e < s.len() {
        name_behind(
            s,
            e + 1,
            if gap {
                m
            } else {
                (m - 1) as nat
            },
        )
    } else {
        s.len() as int
    }
}

/// What is left of a path when its first `k` components are taken away.
pub open spec fn behind_components(s: Seq<u8>, k: nat) -> Seq<u8> {
    let n = lead(s) as int;
    if k == 0 {
        s.take(names_end(s, n, s.len() as int))
    } else {
        let from = name_behind(s, n, (k - n) as nat);
        s.subrange(from, names_end(s, from, s.len() as int))
    }
}

/// The remote path for a local one: a path below the home directory lies at the same place below
/// the remote home directory, any other path is the same.
pub open spec fn remote_bytes(local: Seq<u8>, home: Seq<u8>) -> Seq<u8> {
    if components(home).is_prefix_of(components(local)) {
        path_joined(seq![126u8], behind_components(local, components(home).len()))
    } else {
        local
    }
}

fn split_components<'a>(s: &'a [u8]) -> (r: Vec<&'a [u8]>)
    ensures
        byte_views(r@) == components(s@),
{
    let n: usize = lead_len(s);
    let body = slice_subrange(s, n, s.len());
    assert(body@ =~= s@.skip(n as int));
    let names = split_at_slashes(body);
    let ghost all = byte_views(names@);
    let ghost keep = |m: Seq<u8>| !is_gap(m);
    let mut r: Vec<&'a [u8]> = Vec::new();
    if n > 0 {
        r.push(slice_subrange(s, 0, n));
    }
    let ghost first = byte_views(r@);
    assert(s@.subrange(0, n as int) =~= s@.take(n as int));
    assert(first =~= (if n > 0 {
        seq![s@.take(n as int)]
    } else {
        Seq::empty()
    }));
    let mut i: usize = 0;
    proof {
        reveal(Seq::filter);
        assert(byte_views(r@) =~= first + all.take(0).filter(keep));
    }
    while i < names.len()
        invariant
            i <= names.len(),
            all == byte_views(names@),
            keep == (|m: Seq<u8>| !is_gap(m)),
            byte_views(r@) == first + all.take(i as int).filter(keep),
        decreases names.len() - i,
    {
        let ghost before = byte_views(r@);
        let name = names[i];
        assert(all[i as int] == name@);
        assert(all.take(i + 1).drop_last() =~= all.take(i as int));
        proof {
            reveal(Seq::filter);
        }
        if !gap(name) {
            r.push(name);
            assert(byte_views(r@) =~= before.push(name@));
        }
        i += 1;
        assert(byte_views(r@) =~= first + all.take(i as int).filter(keep));
    }
    assert(all.take(i as int) =~= all);
    r
}

fn same_bytes(a: &[u8], b: &[u8]) -> (r: bool)
    ensures
        r == (a@ == b@),
{
    if a.len() != b.len() {
        return false;
    }
    let mut i: usize = 0;
    while i < a.len()
        invariant
            i <= a.len(),
            a.len() == b.len(),
            forall|k: int| 0 <= k < i ==> a@[k] == b@[k],
        decreases a.len() - i,
    {
        if a[i] != b[i] {
            return false;
        }
        i += 1;
    }
    assert(a@ =~= b@);
    true
}

fn begins_with(a: &Vec<&[u8]>, b: &Vec<&[u8]>) -> (r: bool)
    ensures
        r == byte_views(b@).is_prefix_of(byte_views(a@)),
{
    let ghost x = byte_views(a@);
    let ghost y = byte_views(b@);
    if b.len() > a.len() {
        return false;
    }
    let mut i: usize = 0;
    while i < b.len()
        invariant
            i <= b.len() <= a.len(),
            x == byte_views(a@),
            y == byte_views(b@),
            forall|k: int| 0 <= k < i ==> x[k] == y[k],
        decreases b.len() - i,
    {
        assert(x[i as int] == a@[i as int]@);
        assert(y[i as int] == b@[i as int]@);
        if !same_bytes(a[i], b[i]) {
            assert(x.subrange(0, y.len() as int)[i as int] == x[i as int]);
            return false;
        }
        i += 1;
    }
    assert(y =~= x.subrange(0, y.len() as int));
    true
}

fn find_name_behind(s: &[u8], i: usize, m: usize) -> (r: usize)
    requires
        i <= s@.len(),
    ensures
        r == name_behind(s@, i as int, m as nat),
        i <= r <= s@.len(),
{
    let mut at: usize = i;
    let mut left: usize = m;
    while at < s.len()
        invariant
            i <= at <= s.len(),
            name_behind(s@, i as int, m as nat) == name_behind(s@, at as int, left as nat),
        decreases s.len() - at,
    {
        let mut e: usize = at;
        while e < s.len() && s[e] != 47
            invariant
                at <= e <= s.len(),
                next_slash(s@, at as int) == next_slash(s@, e as int),
            decreases s.len() - e,
        {
            e += 1;
        }
        if !gap(slice_subrange(s, at, e)) {
            if left == 0 {
                return at;
            }
            left -= 1;
        }
        if e == s.len() {
            return e;
        }
        at = e + 1;
    }
    at
}

/// Maps a local path to the place where it belongs on the remote side.
pub fn map_to_remote(local: &[u8], home: &[u8]) -> (r: String)
    ensures
        r@ == lossy::lossy_text(remote_bytes(local@, home@)),
        lossy::faithful(remote_bytes(local@, home@)),
{
    let mine = split_components(local);
    let base = split_components(home);
    assert(byte_views(base@).len() == base@.len());
    if begins_with(&mine, &base) {
        let n: usize = lead_len(local);
        let k: usize = base.len();
        let rest = if k == 0 {
            let end: usize = find_names_end(local, n, local.len());
            let rest = slice_subrange(local, 0, end);
            assert(rest@ =~= local@.take(end as int));
            rest
        } else {
            let from: usize = find_name_behind(local, n, k - n);
            let end: usize = find_names_end(local, from, local.len());
            slice_subrange(local, from, end)
        };
        let mut tilde: Vec<u8> = Vec::new();
        tilde.push(126);
        assert(tilde@ =~= seq![126u8]);
        lossy::read_lossy(join_path(tilde.as_slice(), rest).as_slice())
    } else {
        lossy::read_lossy(local)
    }
}

} // verus!
