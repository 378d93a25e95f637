//! What clean paths are, and where they lead.

use vstd::prelude::*;

use crate::path;
use crate::path::Unit;
use crate::text;
use crate::text_laws;

verus! {

/// Whether `name` is a name that can stand between slashes.
pub open spec fn is_name<T: Unit>(name: Seq<T>) -> bool {
    !path::is_gap(name) && text_laws::free_of(name, set![T::slash_unit()])
}

/// Whether all are names that can stand between slashes.
pub open spec fn all_names<T: Unit>(names: Seq<Seq<T>>) -> bool {
    forall|i: int| 0 <= i < names.len() ==> is_name(#[trigger] names[i])
}

/// Whether all are names, and none stands for the directory above.
pub open spec fn all_plain(names: Seq<Seq<u8>>) -> bool {
    all_names(names) && forall|i: int| 0 <= i < names.len() ==> !path::is_up(#[trigger] names[i])
}

/// The path of the names, from the root or not.
pub open spec fn path_of<T: Unit>(rooted: bool, names: Seq<Seq<T>>) -> Seq<T> {
    (if rooted {
        seq![T::slash_unit()]
    } else {
        Seq::empty()
    }) + text::joined(names, seq![T::slash_unit()])
}

proof fn lemma_resolved_plain(names: Seq<Seq<u8>>)
    requires
        forall|i: int|
            0 <= i < names.len() ==> text_laws::free_of(#[trigger] names[i], set![47u8]),
    ensures
        all_plain(path::resolved(names)),
    decreases names.len(),
{
    if names.len() > 0 {
        let init = names.drop_last();
        assert forall|i: int| 0 <= i < init.len() implies text_laws::free_of(
            #[trigger] init[i],
            set![47u8],
        ) by {
            assert(init[i] == names[i]);
        }
        lemma_resolved_plain(init);
        assert(text_laws::free_of(names[names.len() - 1], set![47u8]));
    }
}

/// Cleaning gives the path of some names, none of which is empty, a dot, or stands for the
/// directory above; and it begins at the root if the path did.
pub proof fn law_cleaned_is_plain(s: Seq<u8>)
    ensures
        all_plain(path::resolved(path::between_slashes(s))),
        path::cleaned(s) == path_of(
            path::is_absolute(s),
            path::resolved(path::between_slashes(s)),
        ),
        path::is_absolute(path::cleaned(s)) == path::is_absolute(s),
{
    text_laws::law_pieces_are_free_of_cuts(s, set![47u8]);
    let names = path::resolved(path::between_slashes(s));
    lemma_resolved_plain(path::between_slashes(s));
    lemma_rooted(path::is_absolute(s), names);
}

/// Whether the path of some names begins at the root can be seen from it.
proof fn lemma_rooted<T: Unit>(rooted: bool, names: Seq<Seq<T>>)
    requires
        all_names(names),
    ensures
        path::is_absolute(path_of(rooted, names)) == rooted,
        names.len() > 0 ==> text::joined(names, seq![T::slash_unit()]).len() > 0,
{
    let glue = seq![T::slash_unit()];
    let body = text::joined(names, glue);
    if names.len() > 0 {
        assert(is_name(names[0]));
        if names.len() >= 2 {
            text_laws::lemma_joined_front(names, glue);
        }
        assert(body[0] == names[0][0]);
        assert(body.len() > 0);
    }
}

proof fn lemma_resolved_of_plain(names: Seq<Seq<u8>>)
    requires
        all_plain(names),
    ensures
        path::resolved(names) == names,
        path::resolved(seq![Seq::<u8>::empty()] + names) == names,
    decreases names.len(),
{
    let gap = seq![Seq::<u8>::empty()];
    if names.len() == 0 {
        assert(path::resolved(names) =~= names);
        assert((gap + names).drop_last() =~= names);
        assert((gap + names).last() =~= Seq::empty());
    } else {
        let init = names.drop_last();
        assert forall|i: int| 0 <= i < init.len() implies is_name(#[trigger] init[i])
            && !path::is_up(init[i]) by {
            assert(init[i] == names[i]);
            assert(is_name(names[i]) && !path::is_up(names[i]));
        }
        lemma_resolved_of_plain(init);
        assert(is_name(names[names.len() - 1]) && !path::is_up(names[names.len() - 1]));
        assert(init.push(names.last()) =~= names);
        assert((gap + names).drop_last() =~= gap + init);
    }
}

/// A path of plain names is clean.
pub proof fn law_plain_path_is_clean(rooted: bool, names: Seq<Seq<u8>>)
    requires
        all_plain(names),
    ensures
        path::cleaned(path_of(rooted, names)) == path_of(rooted, names),
{
    let glue = seq![47u8];
    let body = text::joined(names, glue);
    let s = path_of(rooted, names);
    lemma_rooted(rooted, names);
    lemma_resolved_of_plain(names);
    if names.len() > 0 {
        assert forall|k: int| 0 <= k < names.len() implies text_laws::free_of(
            #[trigger] names[k],
            set![47u8],
        ) by {
            assert(is_name(names[k]));
        }
        text_laws::law_splitting_undoes_joining(names, 47u8);
    }
    let none = Seq::<u8>::empty();
    if rooted {
        text_laws::lemma_pieces_around(none, 47u8, body, set![47u8]);
        assert(none + glue + body =~= s);
        if names.len() == 0 {
            let gaps = seq![none, none];
            assert(path::between_slashes(s) =~= gaps);
            assert(gaps.drop_last() =~= seq![none] + names);
        } else {
            assert(path::between_slashes(s) =~= seq![none] + names);
        }
        assert(path::resolved(path::between_slashes(s)) =~= names);
    } else {
        assert(s =~= body);
        if names.len() == 0 {
            assert(path::between_slashes(s) =~= seq![none] + names);
        }
    }
}

/// Cleaning a clean path changes nothing.
pub proof fn law_cleaning_twice_is_once(s: Seq<u8>)
    ensures
        path::cleaned(path::cleaned(s)) == path::cleaned(s),
{
    law_cleaned_is_plain(s);
    law_plain_path_is_clean(path::is_absolute(s), path::resolved(path::between_slashes(s)));
}

/// The names of a path of names are found again.
proof fn lemma_real_names(names: Seq<Seq<u8>>)
    requires
        all_names(names),
    ensures
        path::real_names(text::joined(names, seq![47u8])) == names,
{
    let keep = |n: Seq<u8>| !path::is_gap(n);
    let body = text::joined(names, seq![47u8]);
    if names.len() == 0 {
        let none = Seq::<Seq<u8>>::empty();
        reveal(Seq::filter);
        let pieces = path::between_slashes(body);
        assert(pieces.drop_last() =~= none);
        pieces.drop_last().lemma_filter_len(keep);
        assert(pieces.last().len() == 0);
        assert(path::real_names(body) =~= names);
    } else {
        assert forall|k: int| 0 <= k < names.len() implies text_laws::free_of(
            #[trigger] names[k],
            set![47u8],
        ) by {
            assert(is_name(names[k]));
        }
        text_laws::law_splitting_undoes_joining(names, 47u8);
        lemma_filter_keeps(names);
    }
}

proof fn lemma_filter_keeps(names: Seq<Seq<u8>>)
    requires
        all_names(names),
    ensures
        names.filter(|n: Seq<u8>| !path::is_gap(n)) == names,
    decreases names.len(),
{
    reveal(Seq::filter);
    if names.len() > 0 {
        let init = names.drop_last();
        assert forall|i: int| 0 <= i < init.len() implies is_name(#[trigger] init[i]) by {
            assert(init[i] == names[i]);
            assert(is_name(names[i]));
        }
        lemma_filter_keeps(init);
        assert(is_name(names[names.len() - 1]));
        assert(init.push(names.last()) =~= names);
    }
}

/// The next slash behind a name.
proof fn lemma_next_slash(s: Seq<u8>, i: int, end: int)
    requires
        0 <= i <= end <= s.len(),
        text_laws::free_of(s.subrange(i, end), set![47u8]),
        end == s.len() || s[end] == 47,
    ensures
        path::next_slash(s, i) == end,
    decreases end - i,
{
    if i < end {
        let name = s.subrange(i, end);
        assert(!set![47u8].contains(name[0]));
        let rest = s.subrange(i + 1, end);
        assert forall|k: int| 0 <= k < rest.len() implies !set![47u8].contains(
            #[trigger] rest[k],
        ) by {
            assert(!set![47u8].contains(name[k + 1]));
        }
        lemma_next_slash(s, i + 1, end);
    }
}

/// Where the first `m` of some names are passed over.
proof fn lemma_name_behind(s: Seq<u8>, i: int, names: Seq<Seq<u8>>, m: nat)
    requires
        0 <= i <= s.len(),
        all_names(names),
        m <= names.len(),
        s.skip(i) == text::joined(names, seq![47u8]),
    ensures
        i <= path::name_behind(s, i, m) <= s.len(),
        s.skip(path::name_behind(s, i, m)) == text::joined(names.skip(m as int), seq![47u8]),
    decreases names.len(),
{
    let glue = seq![47u8];
    if names.len() == 0 {
        assert(s.skip(i).len() == 0);
        assert(names.skip(0) =~= names);
    } else {
        let first = names[0];
        assert(is_name(first));
        let end = i + first.len();
        if names.len() >= 2 {
            text_laws::lemma_joined_front(names, glue);
            let body = first + glue + text::joined(names.skip(1), glue);
            assert(s.skip(i) == body);
            assert(body[first.len() as int] == 47);
            assert(s.skip(i)[first.len() as int] == s[end]);
        }
        assert(s.subrange(i, end) =~= first) by {
            assert(s.subrange(i, end) =~= s.skip(i).take(first.len() as int));
        }
        assert(names.len() == 1 ==> end == s.len());
        lemma_next_slash(s, i, end);
        if m == 0 {
            assert(names.skip(0) =~= names);
        } else if names.len() == 1 {
            assert(names.skip(1) =~= Seq::empty());
            assert(s.skip(s.len() as int) =~= Seq::empty());
        } else {
            let rest = names.skip(1);
            assert forall|k: int| 0 <= k < rest.len() implies is_name(#[trigger] rest[k]) by {
                assert(is_name(names[k + 1]));
            }
            assert(s.skip(end + 1) =~= text::joined(rest, glue)) by {
                assert(s.skip(end + 1) =~= s.skip(i).skip(first.len() as int + 1));
            }
            lemma_name_behind(s, end + 1, rest, (m - 1) as nat);
            assert(rest.skip(m - 1) =~= names.skip(m as int));
        }
    }
}

/// Where a name that ends at `end` begins.
proof fn lemma_name_start<T: Unit>(s: Seq<T>, floor: int, start: int, end: int)
    requires
        0 <= floor <= start <= end <= s.len(),
        text_laws::free_of(s.subrange(start, end), set![T::slash_unit()]),
        start == floor || s[start - 1] == T::slash_unit(),
    ensures
        path::name_start(s, floor, end) == start,
    decreases end - start,
{
    if start < end {
        let name = s.subrange(start, end);
        assert(!set![T::slash_unit()].contains(name[end - start - 1]));
        let init = s.subrange(start, end - 1);
        assert forall|k: int| 0 <= k < init.len() implies !set![T::slash_unit()].contains(
            #[trigger] init[k],
        ) by {
            assert(!set![T::slash_unit()].contains(name[k]));
        }
        lemma_name_start(s, floor, start, end - 1);
    }
}

/// The last of some names, and where it stands.
proof fn lemma_last_name<T: Unit>(s: Seq<T>, floor: int, end: int, names: Seq<Seq<T>>)
    requires
        0 <= floor <= end <= s.len(),
        all_names(names),
        names.len() > 0,
        s.subrange(floor, end) == text::joined(names, seq![T::slash_unit()]),
    ensures
        path::name_start(s, floor, end) == end - names.last().len(),
        path::names_end(s, floor, end) == end,
        end > floor,
        names.len() == 1 ==> end - names.last().len() == floor,
        names.len() > 1 ==> end - names.last().len() - 1 >= floor && s.subrange(
            floor,
            end - names.last().len() - 1,
        ) == text::joined(names.drop_last(), seq![T::slash_unit()]),
{
    let glue = seq![T::slash_unit()];
    let last = names.last();
    assert(is_name(names[names.len() - 1]));
    let start = end - last.len();
    let body = s.subrange(floor, end);
    if names.len() == 1 {
        assert(body == last);
        assert(s.subrange(start, end) =~= last);
    } else {
        let init = text::joined(names.drop_last(), glue);
        assert(body == init + glue + last);
        assert(start == floor + init.len() + 1);
        assert(s[start - 1] == body[init.len() as int]);
        assert(s.subrange(start, end) =~= last) by {
            assert(s.subrange(start, end) =~= body.skip(init.len() as int + 1));
            assert(body.skip(init.len() as int + 1) =~= last);
        }
        assert(s.subrange(floor, start - 1) =~= init) by {
            assert(s.subrange(floor, start - 1) =~= body.take(init.len() as int));
            assert(body.take(init.len() as int) =~= init);
        }
    }
    lemma_name_start(s, floor, start, end);
}

/// The components of a clean path from the root.
proof fn lemma_components(names: Seq<Seq<u8>>)
    requires
        all_names(names),
    ensures
        path::components(path_of(true, names)) == seq![seq![47u8]] + names,
{
    let s = path_of(true, names);
    lemma_rooted(true, names);
    lemma_real_names(names);
    assert(s.take(1) =~= seq![47u8]);
    assert(s.skip(1) =~= text::joined(names, seq![47u8]));
}

/// A path from the root whose names begin with those of the home directory maps to the same names
/// below the remote home directory; any other path from the root maps to itself.
pub proof fn law_paths_below_home_map_below_tilde(local: Seq<Seq<u8>>, home: Seq<Seq<u8>>)
    requires
        all_names(local),
        all_names(home),
    ensures
        home.is_prefix_of(local) ==> path::remote_bytes(path_of(true, local), path_of(true, home))
            == seq![126u8, 47u8] + text::joined(local.skip(home.len() as int), seq![47u8]),
        !home.is_prefix_of(local) ==> path::remote_bytes(
            path_of(true, local),
            path_of(true, home),
        ) == path_of(true, local),
{
    let root = seq![seq![47u8]];
    let s = path_of(true, local);
    let glue = seq![47u8];
    lemma_components(local);
    lemma_components(home);
    let mine = root + local;
    let base = root + home;
    assert(base.is_prefix_of(mine) <==> home.is_prefix_of(local)) by {
        if home.is_prefix_of(local) {
            assert(base =~= mine.subrange(0, base.len() as int)) by {
                assert forall|i: int| 0 <= i < base.len() implies base[i] == mine[i] by {
                    if i > 0 {
                        assert(home[i - 1] == local.subrange(0, home.len() as int)[i - 1]);
                    }
                }
            }
        }
        if base.is_prefix_of(mine) {
            assert forall|i: int| 0 <= i < home.len() implies home[i] == local[i] by {
                assert(base[i + 1] == mine.subrange(0, base.len() as int)[i + 1]);
            }
            assert(home =~= local.subrange(0, home.len() as int));
        }
    }
    if home.is_prefix_of(local) {
        let rest = local.skip(home.len() as int);
        assert(s.skip(1) =~= text::joined(local, glue));
        lemma_name_behind(s, 1, local, home.len());
        lemma_rooted(true, local);
        let from = path::name_behind(s, 1, home.len());
        assert forall|k: int| 0 <= k < rest.len() implies is_name(#[trigger] rest[k]) by {
            assert(is_name(local[k + home.len()]));
        }
        assert(s.subrange(from, s.len() as int) =~= s.skip(from));
        if rest.len() > 0 {
            lemma_last_name(s, from, s.len() as int, rest);
        } else {
            assert(s.skip(from).len() == 0);
        }
        let behind = path::behind_components(s, base.len());
        assert(behind =~= text::joined(rest, glue));
        lemma_rooted(false, rest);
        assert(path_of(false, rest) =~= behind);
        assert(seq![126u8].push(47) + behind =~= seq![126u8, 47u8] + behind);
    }
}

/// The directory above a clean path is the path of its names without the last.
pub proof fn law_parent_drops_the_last_name<T: Unit>(rooted: bool, names: Seq<Seq<T>>)
    requires
        all_names(names),
        names.len() > 0,
    ensures
        ({
            let s = path_of(rooted, names);
            &&& path::parent_len(s) is Some
            &&& 0 <= path::parent_len(s)->0 < s.len()
            &&& s.take(path::parent_len(s)->0) == path_of(rooted, names.drop_last())
        }),
{
    let glue = seq![T::slash_unit()];
    let s = path_of(rooted, names);
    let body = text::joined(names, glue);
    let floor: int = if rooted { 1 } else { 0 };
    lemma_rooted(rooted, names);
    assert(is_name(names[0]));
    if names.len() >= 2 {
        text_laws::lemma_joined_front(names, glue);
    }
    assert(path::lead(s) == floor) by {
        if !rooted {
            assert(s =~= body);
            if s[0] == T::dot_unit() && (s.len() == 1 || s[1] == T::slash_unit()) {
                let first = names[0];
                assert(s[0] == first[0]);
                if first.len() >= 2 {
                    assert(s[1] == first[1]);
                    assert(!set![T::slash_unit()].contains(first[1]));
                } else {
                    assert(first =~= seq![T::dot_unit()]);
                }
            }
        }
    }
    let end = s.len() as int;
    assert(s.subrange(floor, end) =~= body);
    lemma_last_name(s, floor, end, names);
    let init = names.drop_last();
    let start = end - names.last().len();
    assert forall|k: int| 0 <= k < init.len() implies is_name(#[trigger] init[k]) by {
        assert(init[k] == names[k]);
        assert(is_name(names[k]));
    }
    assert(is_name(names[names.len() - 1]));
    if names.len() == 1 {
        assert(init =~= Seq::empty());
        assert(s.take(floor) =~= path_of(rooted, init));
    } else {
        lemma_last_name(s, floor, start - 1, init);
        assert(s.take(start - 1) =~= path_of(rooted, init)) by {
            assert(s.take(start - 1) =~= s.take(floor) + s.subrange(floor, start - 1));
        }
    }
}

pub proof fn lemma_name_start_range<T: Unit>(s: Seq<T>, floor: int, end: int)
    requires
        0 <= floor <= end <= s.len(),
    ensures
        floor <= path::name_start(s, floor, end) <= end,
    decreases end,
{
    if end > floor && s[end - 1] != T::slash_unit() {
        lemma_name_start_range(s, floor, end - 1);
    }
}

pub proof fn lemma_names_end_range<T: Unit>(s: Seq<T>, floor: int, end: int)
    requires
        0 <= floor <= end <= s.len(),
    ensures
        floor <= path::names_end(s, floor, end) <= end,
    decreases end,
{
    lemma_name_start_range(s, floor, end);
    let start = path::name_start(s, floor, end);
    if floor < start <= end && start - 1 < end {
        lemma_names_end_range(s, floor, start - 1);
    }
}

/// The directory that holds the last component of a path is a beginning of that path, and a proper
/// one: going up always ends.
pub proof fn law_parent_is_shorter<T: Unit>(s: Seq<T>)
    ensures
        path::parent_len(s) matches Some(n) ==> 0 <= n < s.len(),
{
    let floor = path::lead(s) as int;
    let end = path::names_end(s, floor, s.len() as int);
    let start = path::name_start(s, floor, end);
    lemma_names_end_range(s, floor, s.len() as int);
    lemma_name_start_range(s, floor, end);
    lemma_names_end_range(
        s,
        floor,
        if start > floor {
            start - 1
        } else {
            floor
        },
    );
}

/// The root lies in no directory.
pub proof fn law_root_has_no_parent<T: Unit>()
    ensures
        path::parent_len(path_of::<T>(true, Seq::empty())) is None,
{
    let s = path_of::<T>(true, Seq::empty());
    assert(s =~= seq![T::slash_unit()]);
}

pub proof fn lemma_real_names_around<T: Unit>(a: Seq<T>, b: Seq<T>)
    ensures
        path::real_names(a + seq![T::slash_unit()] + b) == path::real_names(a) + path::real_names(b),
{
    text_laws::lemma_pieces_around(a, T::slash_unit(), b, set![T::slash_unit()]);
    Seq::filter_distributes_over_add(
        text::pieces(a, set![T::slash_unit()]),
        text::pieces(b, set![T::slash_unit()]),
        |n: Seq<T>| !path::is_gap(n),
    );
}

/// What stands between two slashes is one name or none.
pub proof fn lemma_real_names_of_free<T: Unit>(name: Seq<T>)
    requires
        text_laws::free_of(name, set![T::slash_unit()]),
    ensures
        path::real_names(name) == if path::is_gap(name) {
            Seq::<Seq<T>>::empty()
        } else {
            seq![name]
        },
{
    text_laws::lemma_pieces_of_free(name, set![T::slash_unit()]);
    reveal(Seq::filter);
    let keep = |n: Seq<T>| !path::is_gap(n);
    let none = Seq::<Seq<T>>::empty();
    assert(seq![name].drop_last() =~= none);
    assert(none.filter(keep) =~= none);
    assert(none.push(name) =~= seq![name]);
}

pub proof fn lemma_no_names<T: Unit>()
    ensures
        path::real_names(Seq::<T>::empty()) == Seq::<Seq<T>>::empty(),
{
    lemma_real_names_of_free(Seq::<T>::empty());
}

/// The stretch before `end` holds no slash, and one stands before it unless it begins at `floor`.
pub proof fn lemma_back_to_slash<T: Unit>(s: Seq<T>, floor: int, end: int)
    requires
        0 <= floor <= end <= s.len(),
    ensures
        floor <= path::name_start(s, floor, end) <= end,
        path::name_start(s, floor, end) > floor ==> s[path::name_start(s, floor, end) - 1] == T::slash_unit(),
        text_laws::free_of(s.subrange(path::name_start(s, floor, end), end), set![T::slash_unit()]),
    decreases end,
{
    if end > floor && s[end - 1] != T::slash_unit() {
        lemma_back_to_slash(s, floor, end - 1);
        let start = path::name_start(s, floor, end);
        let name = s.subrange(start, end);
        let init = s.subrange(start, end - 1);
        assert forall|k: int| 0 <= k < name.len() implies !set![T::slash_unit()].contains(
            #[trigger] name[k],
        ) by {
            if k < init.len() {
                assert(init[k] == name[k]);
            }
        }
    }
}

/// What is cut off behind the last name holds no names; the cut is at a slash or at either end.
pub proof fn lemma_cut_behind_names<T: Unit>(s: Seq<T>, floor: int, end: int)
    requires
        0 <= floor <= end <= s.len(),
    ensures
        floor <= path::names_end(s, floor, end) <= end,
        path::real_names(s.subrange(floor, path::names_end(s, floor, end))) == path::real_names(
            s.subrange(floor, end),
        ),
        ({
            let cut = path::names_end(s, floor, end);
            &&& cut == floor || cut == end || s[cut] == T::slash_unit()
            &&& cut > floor ==> !path::is_gap(s.subrange(path::name_start(s, floor, cut), cut))
        }),
    decreases end,
{
    lemma_names_end_range(s, floor, end);
    lemma_back_to_slash(s, floor, end);
    lemma_no_names::<T>();
    let start = path::name_start(s, floor, end);
    let name = s.subrange(start, end);
    lemma_real_names_of_free(name);
    if end > floor && path::is_gap(name) {
        if start > floor {
            let before = s.subrange(floor, start - 1);
            assert(s.subrange(floor, end) =~= before + seq![T::slash_unit()] + name);
            lemma_real_names_around(before, name);
            assert(path::real_names(s.subrange(floor, end)) =~= path::real_names(before));
            lemma_cut_behind_names(s, floor, start - 1);
        } else {
            assert(s.subrange(floor, floor) =~= Seq::empty());
        }
    }
}


/// What a path begins with before its names: the root, a dot that stands alone, or nothing.
pub proof fn law_lead<T: Unit>(s: Seq<T>)
    ensures
        path::is_absolute(s) <==> s.len() > 0 && s[0] == T::slash_unit(),
        path::lead(s) == (if path::is_absolute(s) || s == seq![T::dot_unit()] || (s.len() >= 2
            && s[0] == T::dot_unit() && s[1] == T::slash_unit()) {
            1nat
        } else {
            0nat
        }),
{
    if s.len() == 1 && s[0] == T::dot_unit() {
        assert(s =~= seq![T::dot_unit()]);
    }
}

/// The directory that holds a path has its names without the last, however the path is written;
/// only a path without names lies in none, unless it is a dot. What is left does not end in a slash.
pub proof fn law_parent_has_all_names_but_the_last<T: Unit>(s: Seq<T>)
    ensures
        ({
            let start = path::lead(s) as int;
            let names = path::real_names(s.skip(start));
            match path::parent_len(s) {
                Some(n) => {
                    &&& 0 <= n < s.len()
                    &&& names.len() > 0 ==> start <= n && path::real_names(s.subrange(start, n))
                        == names.drop_last() && (n > start ==> s[n - 1] != T::slash_unit())
                    &&& names.len() == 0 ==> n == 0 && start == 1 && !path::is_absolute(s)
                },
                None => names.len() == 0 && (path::is_absolute(s) || start == 0),
            }
        }),
{
    let len = s.len() as int;
    let floor = path::lead(s) as int;
    let end = path::names_end(s, floor, len);
    law_parent_is_shorter(s);
    lemma_cut_behind_names(s, floor, len);
    lemma_no_names::<T>();
    assert(s.subrange(floor, len) =~= s.skip(floor));
    if end > floor {
        let start = path::name_start(s, floor, end);
        let name = s.subrange(start, end);
        lemma_back_to_slash(s, floor, end);
        lemma_real_names_of_free(name);
        let top = if start > floor {
            start - 1
        } else {
            floor
        };
        lemma_cut_behind_names(s, floor, top);
        let n = path::names_end(s, floor, top);
        let names = path::real_names(s.skip(floor));
        if start > floor {
            let before = s.subrange(floor, start - 1);
            assert(s.subrange(floor, end) =~= before + seq![T::slash_unit()] + name);
            lemma_real_names_around(before, name);
            assert(names =~= path::real_names(before) + seq![name]);
            assert(names.drop_last() =~= path::real_names(before));
        } else {
            assert(s.subrange(floor, end) =~= name);
            assert(names.drop_last() =~= Seq::empty());
            assert(s.subrange(floor, floor) =~= Seq::empty());
        }
        if n > floor {
            let last = s.subrange(path::name_start(s, floor, n), n);
            lemma_back_to_slash(s, floor, n);
            assert(!set![T::slash_unit()].contains(last[last.len() - 1]));
        }
    } else {
        assert(s.subrange(floor, floor) =~= Seq::empty());
    }
}

/// The names that are left of `names` hold no gap and do not stand for the directory above.
pub open spec fn settled(names: Seq<Seq<u8>>) -> bool {
    forall|i: int|
        0 <= i < names.len() ==> (#[trigger] names[i]).len() > 0 && names[i] != seq![46u8]
            && names[i] != seq![46u8, 46u8]
}

/// As many names for the directory above.
pub open spec fn ups(n: nat) -> Seq<Seq<u8>> {
    Seq::new(n, |i: int| seq![46u8, 46u8])
}

proof fn lemma_resolved_settled(names: Seq<Seq<u8>>)
    ensures
        settled(path::resolved(names)),
    decreases names.len(),
{
    if names.len() > 0 {
        lemma_resolved_settled(names.drop_last());
    }
}

proof fn lemma_settled_behind(a: Seq<Seq<u8>>, ns: Seq<Seq<u8>>)
    requires
        settled(ns),
    ensures
        path::resolved(a + ns) == path::resolved(a) + ns,
    decreases ns.len(),
{
    if ns.len() == 0 {
        assert(a + ns =~= a);
        assert(path::resolved(a) + ns =~= path::resolved(a));
    } else {
        let init = ns.drop_last();
        assert forall|i: int| 0 <= i < init.len() implies (#[trigger] init[i]).len() > 0 && init[i]
            != seq![46u8] && init[i] != seq![46u8, 46u8] by {
            assert(init[i] == ns[i]);
        }
        lemma_settled_behind(a, init);
        assert(ns[ns.len() - 1].len() > 0);
        assert((a + ns).drop_last() =~= a + init);
        assert(path::resolved(a + ns) =~= path::resolved(a) + ns);
    }
}

proof fn lemma_ups_behind(a: Seq<Seq<u8>>, n: nat)
    ensures
        n <= path::resolved(a).len() ==> path::resolved(a + ups(n)) == path::resolved(a).take(
            path::resolved(a).len() - n,
        ),
        n > path::resolved(a).len() ==> path::resolved(a + ups(n)).len() == 0,
    decreases n,
{
    let all = path::resolved(a);
    if n == 0 {
        assert(a + ups(0) =~= a);
        assert(all.take(all.len() as int) =~= all);
    } else {
        lemma_ups_behind(a, (n - 1) as nat);
        assert((a + ups(n)).drop_last() =~= a + ups((n - 1) as nat));
        assert((a + ups(n)).last() == seq![46u8, 46u8]);
        assert(seq![46u8, 46u8].len() == 2);
        if n <= all.len() {
            assert(all.take(all.len() - n + 1).drop_last() =~= all.take(all.len() - n));
        }
    }
}

/// Each name for the directory above takes one name away, also when several follow on each other;
/// where nothing is left it takes nothing.
pub proof fn law_each_up_takes_one_name(a: Seq<Seq<u8>>, ns: Seq<Seq<u8>>, n: nat)
    requires
        settled(ns),
    ensures
        path::resolved(ns) == ns,
        path::resolved(a + ns + ups(ns.len())) == path::resolved(a),
        n <= ns.len() ==> path::resolved(ns + ups(n)) == ns.take(ns.len() - n),
        n > ns.len() ==> path::resolved(ns + ups(n)) == Seq::<Seq<u8>>::empty(),
{
    let none = Seq::<Seq<u8>>::empty();
    lemma_settled_behind(none, ns);
    assert(none + ns =~= ns);
    assert(path::resolved(none) =~= none);
    lemma_settled_behind(a, ns);
    lemma_ups_behind(a + ns, ns.len());
    let all = path::resolved(a) + ns;
    assert(all.take(all.len() - ns.len()) =~= path::resolved(a));
    lemma_ups_behind(ns, n);
}

/// What follows on some names sees of them only what is left.
pub proof fn law_resolving_goes_from_left_to_right(a: Seq<Seq<u8>>, b: Seq<Seq<u8>>)
    ensures
        path::resolved(a + b) == path::resolved(path::resolved(a) + b),
    decreases b.len(),
{
    let left = path::resolved(a);
    if b.len() == 0 {
        lemma_resolved_settled(a);
        let none = Seq::<Seq<u8>>::empty();
        lemma_settled_behind(none, left);
        assert(none + left =~= left);
        assert(path::resolved(none) =~= none);
        assert(a + b =~= a);
        assert(left + b =~= left);
    } else {
        law_resolving_goes_from_left_to_right(a, b.drop_last());
        assert((a + b).drop_last() =~= a + b.drop_last());
        assert((left + b).drop_last() =~= left + b.drop_last());
    }
}

/// An empty name and a dot do not count.
pub proof fn law_gaps_do_not_count(a: Seq<Seq<u8>>, gap: Seq<u8>, b: Seq<Seq<u8>>)
    requires
        gap.len() == 0 || gap == seq![46u8],
    ensures
        path::resolved(a + seq![gap] + b) == path::resolved(a + b),
{
    assert((a + seq![gap]).drop_last() =~= a);
    assert(path::is_gap(gap));
    law_resolving_goes_from_left_to_right(a + seq![gap], b);
    law_resolving_goes_from_left_to_right(a, b);
}

/// What stands between the slashes of a path that was written from some names.
proof fn lemma_resolved_path(rooted: bool, names: Seq<Seq<u8>>)
    requires
        forall|i: int|
            0 <= i < names.len() ==> text_laws::free_of(#[trigger] names[i], set![47u8]) && (rooted
                || names[i].len() > 0),
    ensures
        path::resolved(path::between_slashes(path_of(rooted, names))) == path::resolved(names),
        path::is_absolute(path_of(rooted, names)) == rooted,
{
    let glue = seq![47u8];
    let none = Seq::<u8>::empty();
    let body = text::joined(names, glue);
    let s = path_of(rooted, names);
    let empty = Seq::<Seq<u8>>::empty();
    if names.len() > 0 {
        assert forall|k: int| 0 <= k < names.len() implies text_laws::free_of(
            #[trigger] names[k],
            set![47u8],
        ) by {}
        text_laws::law_splitting_undoes_joining(names, 47u8);
        if !rooted {
            let first = names[0];
            assert(first.len() > 0);
            if names.len() >= 2 {
                text_laws::lemma_joined_front(names, glue);
            }
            assert(body[0] == first[0]);
            assert(!set![47u8].contains(first[0]));
        }
    } else {
        assert(body =~= none);
        text_laws::lemma_pieces_of_free(none, set![47u8]);
        law_gaps_do_not_count(empty, none, empty);
        assert(empty + seq![none] + empty =~= seq![none]);
        assert(empty + empty =~= names);
    }
    if rooted {
        text_laws::lemma_pieces_around(none, 47u8, body, set![47u8]);
        text_laws::lemma_pieces_of_free(none, set![47u8]);
        assert(none + glue + body =~= s);
        let behind = path::between_slashes(body);
        law_gaps_do_not_count(empty, none, behind);
        assert(empty + seq![none] + behind =~= seq![none] + behind);
        assert(empty + behind =~= behind);
    } else {
        assert(s =~= body);
    }
}

/// Names, and behind them as many names for the directory above, can be left out of a path before it
/// is cleaned, wherever they stand.
pub proof fn law_names_and_ups_cancel(
    rooted: bool,
    a: Seq<Seq<u8>>,
    ns: Seq<Seq<u8>>,
    b: Seq<Seq<u8>>,
)
    requires
        all_plain(ns),
        forall|i: int|
            0 <= i < a.len() ==> text_laws::free_of(#[trigger] a[i], set![47u8]) && (rooted
                || a[i].len() > 0),
        forall|i: int|
            0 <= i < b.len() ==> text_laws::free_of(#[trigger] b[i], set![47u8]) && (rooted
                || b[i].len() > 0),
    ensures
        path::cleaned(path_of(rooted, a + ns + ups(ns.len()) + b)) == path::cleaned(
            path_of(rooted, a + b),
        ),
{
    let long = a + ns + ups(ns.len()) + b;
    assert forall|i: int| 0 <= i < ns.len() implies (#[trigger] ns[i]).len() > 0 && ns[i]
        != seq![46u8] && ns[i] != seq![46u8, 46u8] && text_laws::free_of(ns[i], set![47u8]) by {
        assert(is_name(ns[i]) && !path::is_up(ns[i]));
    }
    let up = seq![46u8, 46u8];
    assert(text_laws::free_of(up, set![47u8]));
    assert forall|i: int| 0 <= i < long.len() implies text_laws::free_of(
        #[trigger] long[i],
        set![47u8],
    ) && (rooted || long[i].len() > 0) by {
        let (x, y, z) = (a.len() as int, ns.len() as int, ups(ns.len()).len() as int);
        if i < x {
            assert(long[i] == a[i]);
        } else if i < x + y {
            assert(long[i] == ns[i - x]);
        } else if i < x + y + z {
            assert(long[i] == up);
            assert(up.len() == 2);
        } else {
            assert(long[i] == b[i - x - y - z]);
        }
    }
    assert forall|i: int| 0 <= i < (a + b).len() implies text_laws::free_of(
        #[trigger] (a + b)[i],
        set![47u8],
    ) && (rooted || (a + b)[i].len() > 0) by {
        if i < a.len() {
            assert((a + b)[i] == a[i]);
        } else {
            assert((a + b)[i] == b[i - a.len()]);
        }
    }
    lemma_resolved_path(rooted, long);
    lemma_resolved_path(rooted, a + b);
    law_each_up_takes_one_name(a, ns, 0);
    law_resolving_goes_from_left_to_right(a + ns + ups(ns.len()), b);
    law_resolving_goes_from_left_to_right(a, b);
}

/// A path from the root takes the place of what it is put behind; any other path stands behind it
/// whole, with one slash between where there is none.
pub proof fn law_joined_paths(base: Seq<u8>, p: Seq<u8>)
    ensures
        p.len() > 0 && p[0] == 47 ==> path::path_joined(base, p) == p,
        !(p.len() > 0 && p[0] == 47) ==> {
            &&& base.len() == 0 ==> path::path_joined(base, p) == p
            &&& base.len() > 0 && base.last() == 47 ==> path::path_joined(base, p) == base + p
            &&& base.len() > 0 && base.last() != 47 ==> path::path_joined(base, p) == base
                + seq![47u8] + p
        },
{
    assert(base.push(47) =~= base + seq![47u8]);
    assert(base.len() == 0 ==> base + p =~= p);
}

} // verus!
