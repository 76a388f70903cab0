//! The directory that a path lies in.
//!
//! Some platforms split a path at a backslash too, and read a drive or a host at
//! its start. The directory therefore comes from the standard library. The
//! contracts fix it for every path that has none of these, since platforms read
//! those alike.

use crate::text::{find_char, lemma_find_char, opt_text, split};
use std::path::Path;
use vstd::prelude::*;

verus! {

/// A path that every platform reads alike: it holds no backslash and no colon,
/// and does not start with two slashes.
pub open spec fn is_portable(path: Seq<char>) -> bool {
    &&& forall|i: int| 0 <= i < path.len() ==> (#[trigger] path[i]) != '\\' && path[i] != ':'
    &&& !(path.len() >= 2 && path[0] == '/' && path[1] == '/')
}

/// A slash or a component `.` that means nothing stands at the end of the path.
pub open spec fn ends_idle(path: Seq<char>) -> bool {
    path.len() > 1 && (path.last() == '/' || (path.last() == '.' && path[path.len() - 2] == '/'))
}

/// A path without what means nothing at its end: slashes, and components `.`.
/// The root stays, and so does a `.` at the very start.
pub open spec fn tidied(path: Seq<char>) -> Seq<char>
    decreases path.len(),
{
    if ends_idle(path) {
        tidied(path.drop_last())
    } else {
        path
    }
}

/// The index of the last `/`, or -1 where there is none.
pub open spec fn last_slash(path: Seq<char>) -> int
    decreases path.len(),
{
    if path.len() == 0 || path.last() == '/' {
        path.len() - 1
    } else {
        last_slash(path.drop_last())
    }
}

/// The directory that a path lies in: the path without its last component. A
/// path of one component lies in the empty path. The root and the empty path lie
/// in none.
pub open spec fn dir_of(path: Seq<char>) -> Option<Seq<char>> {
    let t = tidied(path);
    let k = last_slash(t);
    if t.len() == 0 || t == seq!['/'] {
        None
    } else if k < 0 {
        Some(seq![])
    } else if k == 0 {
        Some(seq!['/'])
    } else {
        Some(tidied(t.take(k)))
    }
}

/// What holds of a directory of a path on every platform: it is the path's start,
/// and shorter than the path. Where platforms read the path alike, it is `dir_of`.
pub open spec fn may_be_dir(dir: Option<Seq<char>>, path: Seq<char>) -> bool {
    &&& dir matches Some(d) ==> d.is_prefix_of(path) && d.len() < path.len()
    &&& is_portable(path) ==> dir == dir_of(path)
}

/// `std::path::Path::parent`, as text: the path without its final component, `""`
/// for a relative path of one component, and nothing for the root and the empty
/// path. Slashes that repeat or trail, and components `.` other than at the
/// start, are no components. Of a path with a backslash or a colon in it, or
/// with two slashes at its start, only that the result is a shorter start of it.
#[verifier::external_body]
pub(crate) fn parent_dir(path: &str) -> (r: Option<String>)
    ensures
        may_be_dir(opt_text(r), path@),
{
    Path::new(path).parent().and_then(|dir| dir.to_str()).map(|text| text.to_string())
}

// ---------------------------------------------------------------------------
// Laws
// ---------------------------------------------------------------------------

/// A component behind the first one means something unless it is empty or `.`.
pub open spec fn is_meaningful(component: Seq<char>) -> bool {
    component.len() > 0 && component != seq!['.']
}

/// The components of a path with `/` between them. The first one of a path that
/// starts at the root is the empty text.
pub open spec fn components(path: Seq<char>) -> Seq<Seq<char>> {
    let pieces = split(path, '/');
    if path.len() == 0 {
        seq![]
    } else {
        seq![pieces[0]] + pieces.skip(1).filter(|p: Seq<char>| is_meaningful(p))
    }
}

/// The directory of a path has all components of the path but the last. A path
/// lies in a directory unless it has no component or is the root alone.
pub proof fn a_directory_has_all_components_but_the_last(path: Seq<char>)
    ensures
        match dir_of(path) {
            Some(d) => components(path).len() > 0 && components(d) == components(path).drop_last(),
            None => components(path) == Seq::<Seq<char>>::empty() || components(path) == seq![
                Seq::<char>::empty(),
            ],
        },
{
    let t = tidied(path);
    lemma_tidied(path);
    lemma_last_slash_at(t);
    let k = last_slash(t);
    if t.len() == 0 {
        assert(components(path) =~= Seq::<Seq<char>>::empty());
    } else if k < 0 {
        lemma_no_slash(t);
        assert(components(t) =~= seq![t]);
        assert(components(t).drop_last() =~= components(Seq::empty()));
    } else {
        let front = t.take(k);
        let name = t.skip(k + 1);
        assert(t =~= front + seq!['/'] + name);
        lemma_component_behind(front, name);
        if t == seq!['/'] {
            assert(name =~= Seq::<char>::empty());
            assert(components(t) =~= seq![Seq::<char>::empty()]);
        } else {
            lemma_tidied_ends(path);
            assert(is_meaningful(name)) by {
                if name.len() == 0 {
                    assert(t.last() == '/');
                    assert(t.len() == 1 ==> t =~= seq!['/']);
                }
                if name == seq!['.'] {
                    assert(t.last() == name[0]);
                    assert(t[t.len() - 2] == '/');
                }
            }
            if k == 0 {
                let root = seq!['/'];
                lemma_component_behind(Seq::empty(), Seq::empty());
                assert(root =~= Seq::<char>::empty() + seq!['/'] + Seq::<char>::empty());
                assert(front =~= Seq::<char>::empty());
                assert(components(t).drop_last() =~= components(root));
            } else {
                lemma_tidied(front);
                assert(components(t).drop_last() =~= components(front));
            }
        }
    }
}

/// A file lies in the directory that its name stands in.
pub proof fn a_file_lies_in_its_directory(dir: Seq<char>, name: Seq<char>)
    requires
        is_meaningful(name),
        !name.contains('/'),
        dir.len() > 0,
        tidied(dir) == dir,
        dir != seq!['/'],
    ensures
        dir_of(dir + seq!['/'] + name) == Some(dir),
        dir_of(seq!['/'] + name) == Some(seq!['/']),
        dir_of(name) == Some(Seq::<char>::empty()),
{
    let path = dir + seq!['/'] + name;
    lemma_named(dir + seq!['/'], name);
    assert(path.take(dir.len() as int) =~= dir);
    lemma_named(seq!['/'], name);
    lemma_named(Seq::empty(), name);
    assert(Seq::<char>::empty() + name =~= name);
    assert(name.contains(name[0]));
    assert((seq!['/'] + name).len() > 1);
}

/// A name behind a slash, or alone, stays under `tidied` and holds no slash.
proof fn lemma_named(front: Seq<char>, name: Seq<char>)
    requires
        is_meaningful(name),
        !name.contains('/'),
        front.len() == 0 || front.last() == '/',
    ensures
        tidied(front + name) == front + name,
        last_slash(front + name) == last_slash(front),
{
    let s = front + name;
    lemma_last_slash(front, name);
    assert(name.contains(name.last()));
    assert(s.last() == name.last());
    if s.len() > 1 && s.last() == '.' && s[s.len() - 2] == '/' {
        if name.len() > 1 {
            assert(s[s.len() - 2] == name[name.len() - 2]);
            assert(name.contains(name[name.len() - 2]));
        } else {
            assert(name =~= seq!['.']);
        }
    }
}

proof fn lemma_last_slash(front: Seq<char>, name: Seq<char>)
    requires
        !name.contains('/'),
    ensures
        last_slash(front + name) == last_slash(front),
    decreases name.len(),
{
    if name.len() == 0 {
        assert(front + name =~= front);
    } else {
        assert(name.contains(name.last()));
        assert((front + name).drop_last() =~= front + name.drop_last());
        assert forall|c: char| name.drop_last().contains(c) implies name.contains(c) by {
            let i = name.drop_last().index_of(c);
            assert(name[i] == c);
        }
        lemma_last_slash(front, name.drop_last());
    }
}

/// `last_slash` stands at a slash with none behind it.
proof fn lemma_last_slash_at(s: Seq<char>)
    ensures
        -1 <= last_slash(s) < s.len(),
        last_slash(s) >= 0 ==> s[last_slash(s)] == '/',
        forall|j: int| last_slash(s) < j < s.len() ==> s[j] != '/',
    decreases s.len(),
{
    if s.len() > 0 && s.last() != '/' {
        lemma_last_slash_at(s.drop_last());
        assert forall|j: int| last_slash(s) < j < s.len() implies s[j] != '/' by {
            if j < s.len() - 1 {
                assert(s.drop_last()[j] == s[j]);
            }
        }
    }
}

proof fn lemma_no_slash(s: Seq<char>)
    requires
        forall|j: int| 0 <= j < s.len() ==> s[j] != '/',
    ensures
        split(s, '/') == seq![s],
{
    lemma_find_char(s, '/');
}

/// What stands behind the last slash is the last piece.
proof fn lemma_split_behind(front: Seq<char>, name: Seq<char>)
    requires
        forall|j: int| 0 <= j < name.len() ==> name[j] != '/',
    ensures
        split(front + seq!['/'] + name, '/') == split(front, '/').push(name),
    decreases front.len(),
{
    let s = front + seq!['/'] + name;
    lemma_find_char(front, '/');
    lemma_find_char(s, '/');
    let i = find_char(front, '/');
    let n = find_char(s, '/');
    assert(s[front.len() as int] == '/');
    assert(i < front.len() ==> s[i] == '/');
    assert(n < front.len() ==> front[n] == '/');
    assert(n == i) by {
        if n < i {
            assert(front[n] != '/');
        }
        if i < n {
            assert(s[i] != '/');
        }
    }
    assert(s.take(i) =~= front.take(i));
    if i < front.len() {
        let rest = front.skip(i + 1);
        assert(s.skip(i + 1) =~= rest + seq!['/'] + name);
        lemma_split_behind(rest, name);
        assert(split(s, '/') =~= split(front, '/').push(name));
    } else {
        assert(s.skip(i + 1) =~= name);
        lemma_no_slash(name);
        assert(s.take(i) =~= front);
        assert(split(s, '/') =~= seq![front].push(name));
    }
}

/// A piece behind a slash is a component where it means something.
proof fn lemma_component_behind(front: Seq<char>, name: Seq<char>)
    requires
        forall|j: int| 0 <= j < name.len() ==> name[j] != '/',
    ensures
        ({
            let before = if front.len() == 0 {
                seq![Seq::<char>::empty()]
            } else {
                components(front)
            };
            components(front + seq!['/'] + name) == if is_meaningful(name) {
                before.push(name)
            } else {
                before
            }
        }),
{
    let s = front + seq!['/'] + name;
    let means = |p: Seq<char>| is_meaningful(p);
    lemma_split_behind(front, name);
    lemma_some_piece(front);
    let pieces = split(front, '/');
    assert(split(s, '/').skip(1) =~= pieces.skip(1).push(name));
    assert(pieces.skip(1).push(name).filter(means) =~= if is_meaningful(name) {
        pieces.skip(1).filter(means).push(name)
    } else {
        pieces.skip(1).filter(means)
    }) by {
        reveal(Seq::filter);
        assert(pieces.skip(1).push(name).drop_last() =~= pieces.skip(1));
    }
    if front.len() == 0 {
        lemma_no_slash(front);
        assert(pieces.skip(1) =~= Seq::<Seq<char>>::empty());
        assert(pieces.skip(1).filter(means) =~= Seq::<Seq<char>>::empty()) by {
            reveal(Seq::filter);
        }
        assert(pieces[0] =~= Seq::<char>::empty());
    }
    assert(components(s) =~= seq![pieces[0]] + split(s, '/').skip(1).filter(means));
}

proof fn lemma_some_piece(s: Seq<char>)
    ensures
        split(s, '/').len() > 0,
{
    lemma_find_char(s, '/');
}

/// What `tidied` takes away is no component.
proof fn lemma_tidied(path: Seq<char>)
    ensures
        components(tidied(path)) == components(path),
    decreases path.len(),
{
    if ends_idle(path) {
        lemma_tidied(path.drop_last());
        let n = path.len() as int;
        if path.last() == '/' {
            let front = path.drop_last();
            lemma_component_behind(front, Seq::empty());
            assert(path =~= front + seq!['/'] + Seq::<char>::empty());
        } else {
            let front = path.take(n - 2);
            lemma_component_behind(front, seq!['.']);
            lemma_component_behind(front, Seq::empty());
            assert(path =~= front + seq!['/'] + seq!['.']);
            assert(path.drop_last() =~= front + seq!['/'] + Seq::<char>::empty());
        }
    }
}

/// Nothing that `tidied` would take away is left at its end.
proof fn lemma_tidied_ends(path: Seq<char>)
    ensures
        !ends_idle(tidied(path)),
    decreases path.len(),
{
    if ends_idle(path) {
        lemma_tidied_ends(path.drop_last());
    }
}

proof fn lemma_tidied_is_a_start(path: Seq<char>)
    ensures
        tidied(path).is_prefix_of(path),
    decreases path.len(),
{
    if ends_idle(path) {
        lemma_tidied_is_a_start(path.drop_last());
        assert(tidied(path) =~= path.subrange(0, tidied(path).len() as int));
    } else {
        assert(path =~= path.subrange(0, path.len() as int));
    }
}

/// The directory of a path is a start of the path, and shorter.
pub proof fn a_directory_is_a_shorter_start(path: Seq<char>)
    ensures
        dir_of(path) matches Some(d) ==> d.is_prefix_of(path) && d.len() < path.len(),
{
    let t = tidied(path);
    let k = last_slash(t);
    lemma_tidied_is_a_start(path);
    lemma_last_slash_at(t);
    if let Some(d) = dir_of(path) {
        if k > 0 {
            lemma_tidied_is_a_start(t.take(k));
        } else if k == 0 {
            assert(t.len() == 1 ==> t =~= seq!['/']);
        }
        assert(d =~= path.subrange(0, d.len() as int));
    }
}

} // verus!
