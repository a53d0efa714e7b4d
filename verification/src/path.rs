//! Paths as text, by the rules of Unix: names separated by `/`, compared component by
//! component.

use vstd::prelude::*;

use crate::text::{same_text, split_text, to_chars};
use crate::text::{lemma_split_around, lemma_split_pieces, lemma_split_whole, split, texts};

verus! {

/// A component that stands for a place: not empty, and not the place itself.
pub open spec fn counts(piece: Seq<char>) -> bool {
    piece.len() > 0 && piece != seq!['.']
}

/// The path begins at the root of the file system.
pub open spec fn absolute(p: Seq<char>) -> bool {
    p.len() > 0 && p[0] == '/'
}

/// The components of a path. The root is the component `/`. Repeated separators,
/// a separator at the end and the name `.` do not count, except for a `.` at the
/// very beginning.
pub open spec fn components(p: Seq<char>) -> Seq<Seq<char>> {
    let pieces = split(p, '/');
    let start: Seq<Seq<char>> = if absolute(p) {
        seq![seq!['/']]
    } else if pieces[0] == seq!['.'] {
        seq![seq!['.']]
    } else {
        Seq::empty()
    };
    start + pieces.filter(|piece: Seq<char>| counts(piece))
}

/// The path lies at or below `base`: whole components of `base` begin it.
pub open spec fn within(p: Seq<char>, base: Seq<char>) -> bool {
    components(base).is_prefix_of(components(p))
}

/// Two texts that name the same path.
pub open spec fn same_path(a: Seq<char>, b: Seq<char>) -> bool {
    components(a) == components(b)
}

/// `name` below `base`; an absolute `name` stands for itself.
pub open spec fn join(base: Seq<char>, name: Seq<char>) -> Seq<char> {
    if absolute(name) {
        name
    } else if base.len() == 0 || base.last() == '/' {
        base + name
    } else {
        base.push('/') + name
    }
}

/// The name of the place itself, if the path ends with a name.
pub open spec fn file_name_of(p: Seq<char>) -> Option<Seq<char>> {
    let parts = components(p);
    if parts.len() > 0 && parts.last() != seq!['/'] && parts.last() != seq!['.'] && parts.last()
        != seq!['.', '.'] {
        Some(parts.last())
    } else {
        None
    }
}

/// A name that is one component of a path and leads below where it is used.
pub open spec fn plain_name(name: Seq<char>) -> bool {
    name.len() > 0 && name != seq!['.'] && name != seq!['.', '.'] && !name.contains('/')
}

fn is_dot(s: &String) -> (r: bool)
    ensures
        r == (s@ == seq!['.']),
{
    let chars = to_chars(s.as_str());
    if chars.len() == 1 && chars[0] == '.' {
        assert(s@ =~= seq!['.']);
        true
    } else {
        false
    }
}

fn is_absolute(s: &str) -> (r: bool)
    ensures
        r == absolute(s@),
{
    s.unicode_len() > 0 && s.get_char(0) == '/'
}

/// The components of a path.
pub fn path_components(p: &str) -> (r: Vec<String>)
    ensures
        texts(r@) == components(p@),
{
    let pieces = split_text(p, '/');
    let ghost all = split(p@, '/');
    let ghost keep = |piece: Seq<char>| counts(piece);
    proof {
        lemma_split_pieces(p@, '/');
    }
    assert(pieces@.len() == all.len());
    assert(pieces@[0]@ == all[0]);
    let mut r: Vec<String> = Vec::new();
    if is_absolute(p) {
        let mut root = String::new();
        root.push('/');
        assert(root@ =~= seq!['/']);
        r.push(root);
    } else if is_dot(&pieces[0]) {
        r.push(pieces[0].clone());
    }
    let ghost start = texts(r@);
    assert(start + all.filter(keep) == components(p@)) by {
        if absolute(p@) {
            assert(start =~= seq![seq!['/']]);
        } else if all[0] == seq!['.'] {
            assert(start =~= seq![seq!['.']]);
        } else {
            assert(start =~= Seq::empty());
        }
    }
    proof {
        reveal(Seq::filter);
        assert(start + all.take(0).filter(keep) =~= start);
    }
    for i in 0..pieces.len()
        invariant
            texts(pieces@) == all,
            keep == (|piece: Seq<char>| counts(piece)),
            texts(r@) == start + all.take(i as int).filter(keep),
    {
        let ghost was = r@;
        assert(pieces@[i as int]@ == all[i as int]);
        proof {
            reveal(Seq::filter);
            assert(all.take(i + 1).drop_last() =~= all.take(i as int));
        }
        if !pieces[i].as_str().is_empty() && !is_dot(&pieces[i]) {
            r.push(pieces[i].clone());
            assert(texts(r@) =~= texts(was).push(all[i as int]));
            assert(start + all.take(i + 1).filter(keep) =~= (start + all.take(i as int).filter(
                keep,
            )).push(all[i as int]));
        }
    }
    assert(all.take(pieces@.len() as int) =~= all);
    r
}

/// Whether the path lies at or below `base`.
pub fn path_within(p: &str, base: &str) -> (r: bool)
    ensures
        r == within(p@, base@),
{
    let a = path_components(p);
    let b = path_components(base);
    let ghost ca = components(p@);
    let ghost cb = components(base@);
    assert(a@.len() == ca.len() && b@.len() == cb.len());
    if b.len() > a.len() {
        return false;
    }
    for i in 0..b.len()
        invariant
            texts(a@) == ca,
            texts(b@) == cb,
            ca == components(p@),
            cb == components(base@),
            b@.len() <= a@.len(),
            forall|j: int| 0 <= j < i ==> ca[j] == cb[j],
    {
        assert(a@[i as int]@ == ca[i as int]);
        assert(b@[i as int]@ == cb[i as int]);
        if !same_text(a[i].as_str(), b[i].as_str()) {
            assert(ca.take(cb.len() as int)[i as int] != cb[i as int]);
            return false;
        }
    }
    assert(ca.take(cb.len() as int) =~= cb);
    true
}

/// Whether two texts name the same path.
pub fn is_same_path(a: &str, b: &str) -> (r: bool)
    ensures
        r == same_path(a@, b@),
{
    let r = path_within(a, b) && path_within(b, a);
    proof {
        if within(a@, b@) && within(b@, a@) {
            assert(components(a@) =~= components(b@));
        }
    }
    r
}

/// `name` below `base`.
pub fn join_path(base: &str, name: &str) -> (r: String)
    ensures
        r@ == join(base@, name@),
{
    if is_absolute(name) {
        return name.to_owned();
    }
    let n = base.unicode_len();
    let mut r = base.to_owned();
    if n > 0 && base.get_char(n - 1) != '/' {
        r.push('/');
    }
    r.append(name);
    r
}

/// The name of the place itself, if the path ends with a name.
pub fn file_name(p: &str) -> (r: Option<String>)
    ensures
        r matches Some(n) ==> file_name_of(p@) == Some(n@),
        r is None == file_name_of(p@) is None,
{
    let parts = path_components(p);
    let n = parts.len();
    assert(texts(parts@).len() == n);
    if n == 0 {
        return None;
    }
    let last = parts[n - 1].as_str();
    assert(last@ == components(p@).last());
    let chars = to_chars(last);
    let k = chars.len();
    if k == 1 && (chars[0] == '/' || chars[0] == '.') {
        assert(last@ =~= seq![chars@[0]]);
        return None;
    }
    if k == 2 && chars[0] == '.' && chars[1] == '.' {
        assert(last@ =~= seq!['.', '.']);
        return None;
    }
    Some(last.to_owned())
}

/// A name adds exactly itself to the components of the path that it is joined to.
pub proof fn law_join_adds_component(base: Seq<char>, name: Seq<char>)
    requires
        name.len() > 0,
        name != seq!['.'],
        !name.contains('/'),
    ensures
        components(join(base, name)) == components(base).push(name),
{
    let keep = |piece: Seq<char>| counts(piece);
    let whole = join(base, name);
    assert(!absolute(name)) by {
        if absolute(name) {
            assert(name.contains(name[0]));
        }
    }
    lemma_split_whole(name, '/');
    reveal(Seq::filter);
    assert(seq![name].drop_last() =~= Seq::empty());
    assert(seq![name].filter(keep) =~= seq![name]);
    if base.len() == 0 {
        assert(whole =~= name);
        assert(base =~= Seq::<char>::empty());
        let none: Seq<Seq<char>> = seq![Seq::empty()];
        assert(split(base, '/') == none);
        assert(none.drop_last() =~= Seq::empty());
        assert(none.filter(keep) =~= Seq::empty());
        assert(components(base) =~= Seq::empty());
        assert(components(whole) =~= seq![name]);
        assert(components(base).push(name) =~= seq![name]);
    } else {
        let stem = if base.last() == '/' {
            base.drop_last()
        } else {
            base
        };
        assert(whole =~= stem.push('/') + name);
        lemma_split_around(stem, name, '/');
        lemma_split_pieces(stem, '/');
        Seq::filter_distributes_over_add(split(stem, '/'), seq![name], keep);
        let pieces = split(base, '/');
        if base.last() == '/' {
            assert(pieces == split(stem, '/').push(Seq::empty()));
            assert(pieces.drop_last() =~= split(stem, '/'));
            assert(pieces.filter(keep) == split(stem, '/').filter(keep));
        }
        assert(split(whole, '/')[0] == pieces[0]);
        assert(absolute(whole) == absolute(base));
        assert(components(whole) =~= components(base).push(name));
    }
}

/// Two places below one directory, under plain names, are within each other only
/// if they are one place.
pub proof fn law_siblings_apart(base: Seq<char>, a: Seq<char>, b: Seq<char>)
    requires
        plain_name(a),
        plain_name(b),
    ensures
        within(join(base, a), join(base, b)) <==> a == b,
        within(join(base, a), base),
{
    law_join_adds_component(base, a);
    law_join_adds_component(base, b);
    let ca = components(base).push(a);
    let cb = components(base).push(b);
    assert(ca.last() == a && cb.last() == b);
    if cb.is_prefix_of(ca) {
        assert(ca.take(cb.len() as int) =~= ca);
    }
    assert(ca.take(components(base).len() as int) =~= components(base));
    assert(ca.take(ca.len() as int) =~= ca);
}

/// The place below a directory bears the plain name that it was given.
pub proof fn law_join_names_place(base: Seq<char>, name: Seq<char>)
    requires
        plain_name(name),
    ensures
        file_name_of(join(base, name)) == Some(name),
{
    law_join_adds_component(base, name);
    assert(components(join(base, name)).last() == name);
    assert(name != seq!['/']) by {
        if name == seq!['/'] {
            assert(name.contains(name[0]));
        }
    }
}

/// A path that lies within one that lies within a third lies within the third.
pub proof fn law_within_transitive(a: Seq<char>, b: Seq<char>, c: Seq<char>)
    requires
        within(a, b),
        within(b, c),
    ensures
        within(a, c),
{
    let ca = components(a);
    let cb = components(b);
    let cc = components(c);
    assert(ca.take(cc.len() as int) =~= cb.take(cc.len() as int));
}

/// Where a name comes to stand when it is joined to a path: after it, with exactly one
/// separator between them unless there is nothing before it or a separator already; a
/// name that begins at the root stands for itself.
pub proof fn law_join_text(base: Seq<char>, name: Seq<char>)
    ensures
        name.len() > 0 && name[0] == '/' ==> join(base, name) == name,
        !(name.len() > 0 && name[0] == '/') ==> {
            &&& join(Seq::empty(), name) == name
            &&& join(base.push('/'), name) == base + seq!['/'] + name
            &&& base.len() > 0 && base[base.len() - 1] != '/' ==> join(base, name) == base + seq![
                '/',
            ] + name
        },
{
    assert(base.push('/') + name =~= base + seq!['/'] + name);
    assert(Seq::<char>::empty() + name =~= name);
}

/// Where the components of a path begin: with none, with the root, or with the current
/// directory.
pub proof fn law_components_begin()
    ensures
        components(Seq::empty()) == Seq::<Seq<char>>::empty(),
        components(seq!['/']) == seq![seq!['/']],
        components(seq!['.']) == seq![seq!['.']],
{
    reveal(Seq::filter);
    let keep = |piece: Seq<char>| counts(piece);
    let none = Seq::<char>::empty();
    let dot = seq!['.'];
    lemma_split_whole(none, '/');
    lemma_split_whole(dot, '/');
    lemma_split_around(none, none, '/');
    assert(none.push('/') + none =~= seq!['/']);
    assert(!dot.contains('/'));
    let empty = Seq::<Seq<char>>::empty();
    assert(empty.filter(keep) =~= empty);
    assert(!keep(none) && !keep(dot));
    assert(seq![none].drop_last() =~= empty);
    assert(seq![none].filter(keep) =~= empty);
    assert(seq![dot].drop_last() =~= empty);
    assert(seq![dot].filter(keep) =~= empty);
    assert(seq![none] + seq![none] =~= seq![none, none]);
    assert(seq![none, none].drop_last() =~= seq![none]);
    assert(seq![none, none].filter(keep) =~= empty);
    assert(components(none) =~= empty);
    assert(components(seq!['/']) =~= seq![seq!['/']]);
    assert(components(dot) =~= seq![dot]);
}

/// A separator at the end of a path, and the name of the directory itself, add no
/// component.
pub proof fn law_components_noise(base: Seq<char>)
    requires
        base.len() > 0,
    ensures
        components(base.push('/')) == components(base),
        components(base.push('/').push('.')) == components(base),
{
    reveal(Seq::filter);
    let keep = |piece: Seq<char>| counts(piece);
    let none = Seq::<char>::empty();
    let dot = seq!['.'];
    let empty = Seq::<Seq<char>>::empty();
    lemma_split_whole(none, '/');
    lemma_split_whole(dot, '/');
    lemma_split_pieces(base, '/');
    lemma_split_around(base, none, '/');
    lemma_split_around(base, dot, '/');
    assert(base.push('/') + none =~= base.push('/'));
    assert(base.push('/') + dot =~= base.push('/').push('.'));
    assert(empty.filter(keep) =~= empty);
    assert(!keep(none) && !keep(dot));
    assert(seq![none].drop_last() =~= empty);
    assert(seq![none].filter(keep) =~= empty);
    assert(seq![dot].drop_last() =~= empty);
    assert(seq![dot].filter(keep) =~= empty);
    let pieces = split(base, '/');
    Seq::filter_distributes_over_add(pieces, seq![none], keep);
    Seq::filter_distributes_over_add(pieces, seq![dot], keep);
    assert(pieces.filter(keep) + empty =~= pieces.filter(keep));
    assert((pieces + seq![none])[0] == pieces[0]);
    assert((pieces + seq![dot])[0] == pieces[0]);
    assert(components(base.push('/')) =~= components(base));
    assert(components(base.push('/').push('.')) =~= components(base));
}

/// A path lies within another if and only if its components are those of the other
/// with others after them; two texts name the same path if each lies within the other.
pub proof fn law_within(p: Seq<char>, base: Seq<char>, rest: Seq<Seq<char>>)
    ensures
        components(p) == components(base) + rest ==> within(p, base),
        within(p, base) ==> components(p) == components(base) + components(p).skip(
            components(base).len() as int,
        ),
        same_path(p, base) <==> within(p, base) && within(base, p),
{
    let a = components(p);
    let b = components(base);
    if a == b + rest {
        assert(a.take(b.len() as int) =~= b);
    }
    if b.is_prefix_of(a) {
        assert(a =~= b + a.skip(b.len() as int));
        if a.is_prefix_of(b) {
            assert(a =~= b);
        }
    }
    if a == b {
        assert(a.take(b.len() as int) =~= b);
    }
}

/// The root, the directory itself and its parent bear no name.
pub proof fn law_nameless_places(base: Seq<char>)
    ensures
        file_name_of(Seq::empty()) is None,
        file_name_of(seq!['/']) is None,
        file_name_of(seq!['.']) is None,
        file_name_of(join(base, seq!['.', '.'])) is None,
{
    law_components_begin();
    let up = seq!['.', '.'];
    assert(!up.contains('/'));
    assert(up.len() == 2);
    law_join_adds_component(base, up);
    assert(components(join(base, up)).last() == up);
}

} // verus!
