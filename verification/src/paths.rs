//! Which paths of an archive may be written to.
use vstd::prelude::*;

use crate::text::chars_of;

verus! {

/// A path that starts at the root.
pub open spec fn is_absolute(path: Seq<char>) -> bool {
    path.len() > 0 && path[0] == '/'
}

/// The component `..` stands at position `i`.
pub open spec fn parent_at(path: Seq<char>, i: int) -> bool {
    &&& 0 <= i
    &&& i + 1 < path.len()
    &&& path[i] == '.'
    &&& path[i + 1] == '.'
    &&& i == 0 || path[i - 1] == '/'
    &&& i + 2 == path.len() || path[i + 2] == '/'
}

/// One of the components is `..`.
pub open spec fn climbs(path: Seq<char>) -> bool {
    exists|i: int| #[trigger] parent_at(path, i)
}

/// Why a path must not be written to.
#[derive(Debug, Clone, Copy, PartialEq, Eq, Structural)]
pub enum PathFault {
    Absolute,
    Climbs,
}

pub open spec fn path_fault(path: Seq<char>) -> Option<PathFault> {
    if is_absolute(path) {
        Some(PathFault::Absolute)
    } else if climbs(path) {
        Some(PathFault::Climbs)
    } else {
        None
    }
}

/// What is wrong with a path, if anything.
pub fn find_path_fault(path: &str) -> (r: Option<PathFault>)
    ensures
        r == path_fault(path@),
{
    let chars = chars_of(path);
    let n: usize = chars.len();
    if n > 0 && chars[0] == '/' {
        return Some(PathFault::Absolute);
    }
    let mut i: usize = 0;
    while i < n
        invariant
            i <= n,
            n == chars@.len(),
            chars@ == path@,
            !is_absolute(path@),
            forall|k: int| 0 <= k < i ==> !#[trigger] parent_at(path@, k),
        decreases n - i,
    {
        if n - i >= 2 && chars[i] == '.' && chars[i + 1] == '.' && (i == 0 || chars[i - 1] == '/')
            && (n - i == 2 || chars[i + 2] == '/') {
            assert(parent_at(path@, i as int));
            return Some(PathFault::Climbs);
        }
        i = i + 1;
    }
    None
}

/// The position of the first slash.
pub open spec fn first_slash(path: Seq<char>) -> int
    decreases path.len(),
{
    if path.len() == 0 || path[0] == '/' {
        0
    } else {
        1 + first_slash(path.skip(1))
    }
}

proof fn lemma_first_slash(path: Seq<char>)
    ensures
        0 <= first_slash(path) <= path.len(),
        first_slash(path) < path.len() ==> path[first_slash(path)] == '/',
    decreases path.len(),
{
    if path.len() > 0 && path[0] != '/' {
        lemma_first_slash(path.skip(1));
    }
}

/// The components of a path, empty ones and single dots among them.
pub open spec fn components(path: Seq<char>) -> Seq<Seq<char>>
    decreases path.len(),
    via components_end
{
    let i = first_slash(path);
    if i >= path.len() {
        seq![path]
    } else {
        seq![path.take(i)] + components(path.skip(i + 1))
    }
}

#[via_fn]
proof fn components_end(path: Seq<char>) {
    lemma_first_slash(path);
}

/// Where one arrives from `base` along `steps`.
pub open spec fn walk(base: Seq<Seq<char>>, steps: Seq<Seq<char>>) -> Seq<Seq<char>>
    decreases steps.len(),
{
    if steps.len() == 0 {
        base
    } else {
        let before = walk(base, steps.drop_last());
        let step = steps.last();
        if step =~= seq!['.', '.'] {
            if before.len() == 0 {
                before
            } else {
                before.drop_last()
            }
        } else if step.len() == 0 || step =~= seq!['.'] {
            before
        } else {
            before.push(step)
        }
    }
}

proof fn lemma_no_parent_component(path: Seq<char>)
    requires
        !climbs(path),
    ensures
        forall|k: int|
            0 <= k < components(path).len() ==> !(#[trigger] components(path)[k] =~= seq!['.', '.']),
    decreases path.len(),
{
    lemma_first_slash(path);
    let i = first_slash(path);
    if i >= path.len() {
        if path =~= seq!['.', '.'] {
            assert(parent_at(path, 0));
        }
    } else {
        let rest = path.skip(i + 1);
        if climbs(rest) {
            let j = choose|j: int| #[trigger] parent_at(rest, j);
            assert(path[i + 1 + j] == rest[j]);
            assert(path[i + 1 + j + 1] == rest[j + 1]);
            if j > 0 {
                assert(path[i + 1 + j - 1] == rest[j - 1]);
            }
            if j + 2 < rest.len() {
                assert(path[i + 1 + j + 2] == rest[j + 2]);
            }
            assert(parent_at(path, i + 1 + j));
        }
        lemma_no_parent_component(rest);
        let head = path.take(i);
        if head =~= seq!['.', '.'] {
            assert(path[0] == head[0] && path[1] == head[1]);
            assert(parent_at(path, 0));
        }
        assert forall|k: int| 0 <= k < components(path).len() implies !(
        #[trigger] components(path)[k] =~= seq!['.', '.']) by {
            if k > 0 {
                assert(components(path)[k] == components(rest)[k - 1]);
            }
        }
    }
}

proof fn lemma_walk_stays(base: Seq<Seq<char>>, steps: Seq<Seq<char>>)
    requires
        forall|k: int| 0 <= k < steps.len() ==> !(#[trigger] steps[k] =~= seq!['.', '.']),
    ensures
        base.is_prefix_of(walk(base, steps)),
    decreases steps.len(),
{
    if steps.len() > 0 {
        assert forall|k: int| 0 <= k < steps.drop_last().len() implies !(
        #[trigger] steps.drop_last()[k] =~= seq!['.', '.']) by {
            assert(steps.drop_last()[k] == steps[k]);
        }
        lemma_walk_stays(base, steps.drop_last());
        let before = walk(base, steps.drop_last());
        assert(steps[steps.len() - 1] == steps.last());
        assert(before.push(steps.last()).take(base.len() as int) =~= before.take(base.len() as int));
    }
}

/// A path without fault leads from any directory to a place in that directory.
pub proof fn law_safe_paths_stay_inside(base: Seq<Seq<char>>, path: Seq<char>)
    requires
        path_fault(path) is None,
    ensures
        base.is_prefix_of(walk(base, components(path))),
{
    lemma_no_parent_component(path);
    lemma_walk_stays(base, components(path));
}

/// The names along a path: its components but for empty ones and single dots.
pub open spec fn names(path: Seq<char>) -> Seq<Seq<char>>
    decreases path.len(),
    via names_end
{
    let i = first_slash(path);
    let head = path.take(i);
    let here = if head.len() == 0 || head =~= seq!['.'] {
        Seq::empty()
    } else {
        seq![head]
    };
    if i >= path.len() {
        here
    } else {
        here + names(path.skip(i + 1))
    }
}

#[via_fn]
proof fn names_end(path: Seq<char>) {
    lemma_first_slash(path);
}

/// A place is a directory or lies below it. Both are given from the root, with
/// links followed.
pub open spec fn lies_below(path: Seq<char>, dir: Seq<char>) -> bool {
    &&& is_absolute(path)
    &&& is_absolute(dir)
    &&& names(dir).is_prefix_of(names(path))
}

fn next_slash(chars: &Vec<char>, from: usize) -> (i: usize)
    requires
        from <= chars@.len(),
    ensures
        from <= i <= chars@.len(),
        i - from == first_slash(chars@.skip(from as int)),
{
    let mut i: usize = from;
    let ghost rest = chars@.skip(from as int);
    assert(rest.skip(0) =~= rest);
    while i < chars.len() && chars[i] != '/'
        invariant
            from <= i <= chars@.len(),
            rest == chars@.skip(from as int),
            first_slash(rest) == i - from + first_slash(rest.skip(i - from)),
        decreases chars@.len() - i,
    {
        assert(rest.skip(i - from)[0] == chars@[i as int]);
        assert(rest.skip(i - from).skip(1) =~= rest.skip(i + 1 - from));
        i = i + 1;
    }
    proof {
        if i < chars@.len() {
            assert(rest.skip(i - from)[0] == chars@[i as int]);
        }
    }
    i
}

/// The names as sequences.
pub open spec fn name_views(list: Seq<Vec<char>>) -> Seq<Seq<char>> {
    list.map_values(|n: Vec<char>| n@)
}

fn names_of(path: &str) -> (list: Vec<Vec<char>>)
    ensures
        name_views(list@) == names(path@),
{
    let chars = chars_of(path);
    let n: usize = chars.len();
    let mut list: Vec<Vec<char>> = Vec::new();
    let mut at: usize = 0;
    assert(chars@.skip(0) =~= chars@);
    assert(name_views(list@) + names(chars@) =~= names(chars@));
    loop
        invariant
            at <= n,
            n == chars@.len(),
            chars@ == path@,
            name_views(list@) + names(chars@.skip(at as int)) == names(path@),
        decreases n - at,
    {
        let ghost rest = chars@.skip(at as int);
        let ghost before = list@;
        let i: usize = next_slash(&chars, at);
        let mut name: Vec<char> = Vec::new();
        let mut k: usize = at;
        while k < i
            invariant
                at <= k <= i <= n,
                n == chars@.len(),
                name@ == chars@.subrange(at as int, k as int),
            decreases i - k,
        {
            name.push(chars[k]);
            assert(name@ =~= chars@.subrange(at as int, k + 1));
            k = k + 1;
        }
        assert(name@ =~= rest.take(i - at));
        let dot = name.len() == 1 && name[0] == '.';
        assert(dot == (name@ =~= seq!['.']));
        if name.len() > 0 && !dot {
            list.push(name);
            assert(name_views(list@) =~= name_views(before) + seq![rest.take(i - at)]);
        } else {
            assert(name_views(list@) =~= name_views(before) + Seq::<Seq<char>>::empty());
        }
        if i >= n {
            assert(name_views(list@) =~= names(path@));
            return list;
        }
        assert(rest.skip(i - at + 1) =~= chars@.skip(i + 1));
        assert(name_views(list@) + names(chars@.skip(i + 1)) =~= names(path@));
        at = i + 1;
    }
}

fn same_name(a: &Vec<char>, b: &Vec<char>) -> (r: bool)
    ensures
        r == (a@ == b@),
{
    if a.len() != b.len() {
        return false;
    }
    let mut i: usize = 0;
    while i < a.len()
        invariant
            i <= a@.len(),
            a@.len() == b@.len(),
            forall|k: int| 0 <= k < i ==> a@[k] == b@[k],
        decreases a@.len() - i,
    {
        if a[i] != b[i] {
            return false;
        }
        i = i + 1;
    }
    assert(a@ =~= b@);
    true
}

/// Whether a place is a directory or lies below it.
pub fn is_below(path: &str, dir: &str) -> (r: bool)
    ensures
        r == lies_below(path@, dir@),
{
    let p = chars_of(path);
    let d = chars_of(dir);
    if p.len() == 0 || p[0] != '/' || d.len() == 0 || d[0] != '/' {
        return false;
    }
    let inner = names_of(path);
    let outer = names_of(dir);
    if outer.len() > inner.len() {
        return false;
    }
    let mut i: usize = 0;
    while i < outer.len()
        invariant
            i <= outer@.len() <= inner@.len(),
            name_views(outer@) == names(dir@),
            name_views(inner@) == names(path@),
            forall|k: int| 0 <= k < i ==> outer@[k]@ == inner@[k]@,
        decreases outer@.len() - i,
    {
        if !same_name(&outer[i], &inner[i]) {
            assert(name_views(outer@)[i as int] != name_views(inner@)[i as int]);
            return false;
        }
        i = i + 1;
    }
    assert(name_views(outer@) =~= name_views(inner@).take(outer@.len() as int));
    true
}

proof fn lemma_slash_of_join(dir: Seq<char>, rel: Seq<char>)
    ensures
        first_slash(dir + seq!['/'] + rel) == first_slash(dir),
    decreases dir.len(),
{
    let all = dir + seq!['/'] + rel;
    if dir.len() == 0 {
        assert(all[0] == '/');
    } else if dir[0] == '/' {
        assert(all[0] == '/');
    } else {
        assert(all[0] == dir[0]);
        assert(all.skip(1) =~= dir.skip(1) + seq!['/'] + rel);
        lemma_slash_of_join(dir.skip(1), rel);
    }
}

proof fn lemma_names_of_join(dir: Seq<char>, rel: Seq<char>)
    ensures
        names(dir + seq!['/'] + rel) == names(dir) + names(rel),
    decreases dir.len(),
{
    let all = dir + seq!['/'] + rel;
    let i = first_slash(dir);
    lemma_first_slash(dir);
    lemma_first_slash(all);
    lemma_slash_of_join(dir, rel);
    assert(all.take(i) =~= dir.take(i));
    if i >= dir.len() {
        assert(all.skip(i + 1) =~= rel);
        assert(names(all) =~= names(dir) + names(rel));
    } else {
        assert(all.skip(i + 1) =~= dir.skip(i + 1) + seq!['/'] + rel);
        lemma_names_of_join(dir.skip(i + 1), rel);
        assert(names(all) =~= names(dir) + names(rel));
    }
}

/// Unless a link leads elsewhere, a path below a directory leads to a place
/// below it.
pub proof fn law_joined_paths_lie_below(dir: Seq<char>, rel: Seq<char>)
    requires
        is_absolute(dir),
    ensures
        lies_below(dir + seq!['/'] + rel, dir),
{
    lemma_names_of_join(dir, rel);
    assert((dir + seq!['/'] + rel)[0] == dir[0]);
    assert(names(dir) =~= (names(dir) + names(rel)).take(names(dir).len() as int));
}

/// Lying below is passed on.
pub proof fn law_below_is_transitive(a: Seq<char>, b: Seq<char>, c: Seq<char>)
    requires
        lies_below(a, b),
        lies_below(b, c),
    ensures
        lies_below(a, c),
{
    let n = names(c).len() as int;
    assert(names(a).take(n) =~= names(b).take(n));
}

proof fn lemma_parent_is_a_component(path: Seq<char>, at: int)
    requires
        parent_at(path, at),
    ensures
        components(path).contains(seq!['.', '.']),
    decreases path.len(),
{
    lemma_first_slash(path);
    lemma_before_first_slash(path);
    let i = first_slash(path);
    if at <= i {
        if at > 0 {
            assert(path[at - 1] == '/');
        }
        assert(path[0] == '.' && path[1] == '.');
        assert(i == 2);
        assert(path.take(2) =~= seq!['.', '.']);
        if i >= path.len() {
            assert(path =~= seq!['.', '.']);
        }
        assert(components(path)[0] == seq!['.', '.']);
    } else {
        let rest = path.skip(i + 1);
        assert(rest[at - i - 1] == path[at]);
        assert(rest[at - i] == path[at + 1]);
        if at - i - 1 > 0 {
            assert(rest[at - i - 2] == path[at - 1]);
        }
        if at + 2 < path.len() {
            assert(rest[at - i + 1] == path[at + 2]);
        }
        assert(parent_at(rest, at - i - 1));
        lemma_parent_is_a_component(rest, at - i - 1);
        let k = choose|k: int|
            0 <= k < components(rest).len() && components(rest)[k] == seq!['.', '.'];
        assert(components(path)[k + 1] == components(rest)[k]);
    }
}

proof fn lemma_before_first_slash(path: Seq<char>)
    ensures
        forall|k: int| 0 <= k < first_slash(path) && k < path.len() ==> #[trigger] path[k] != '/',
    decreases path.len(),
{
    if path.len() > 0 && path[0] != '/' {
        let rest = path.skip(1);
        lemma_before_first_slash(rest);
        assert forall|k: int| 0 <= k < first_slash(path) && k < path.len() implies #[trigger] path[k]
            != '/' by {
            if k > 0 {
                assert(rest[k - 1] == path[k]);
            }
        }
    }
}

/// A path is refused exactly where it starts at the root or one of its components
/// is the parent directory.
pub proof fn law_only_leading_out_is_refused(path: Seq<char>)
    ensures
        path_fault(path) is Some <==> (path.len() > 0 && path[0] == '/') || components(
            path,
        ).contains(seq!['.', '.']),
{
    if components(path).contains(seq!['.', '.']) {
        let k = choose|k: int|
            0 <= k < components(path).len() && components(path)[k] == seq!['.', '.'];
        if !climbs(path) {
            lemma_no_parent_component(path);
            assert(components(path)[k] =~= seq!['.', '.']);
            assert(false);
        }
    }
    if climbs(path) {
        let at = choose|at: int| #[trigger] parent_at(path, at);
        lemma_parent_is_a_component(path, at);
    }
}

/// Between two slashes stands one component, so that components joined by a
/// slash are the components of both.
pub proof fn law_components_of_a_joined_path(name: Seq<char>, rest: Seq<char>)
    requires
        !name.contains('/'),
    ensures
        components(name) == seq![name],
        components(name.push('/') + rest) == seq![name] + components(rest),
{
    lemma_first_slash(name);
    let whole = name.push('/') + rest;
    lemma_first_slash(whole);
    lemma_before_first_slash(whole);
    if first_slash(name) < name.len() {
        assert(name.contains(name[first_slash(name)]));
    }
    assert(whole[name.len() as int] == '/');
    if first_slash(whole) < name.len() {
        assert(name.contains(whole[first_slash(whole)]));
    }
    assert(first_slash(whole) == name.len());
    assert(whole.take(name.len() as int) =~= name);
    assert(whole.skip(name.len() as int + 1) =~= rest);
}

/// What parts from a directory at some name does not lie below it.
pub proof fn law_what_lies_elsewhere_is_not_below(path: Seq<char>, dir: Seq<char>, k: int)
    requires
        0 <= k < names(dir).len(),
        k >= names(path).len() || names(path)[k] != names(dir)[k],
    ensures
        !lies_below(path, dir),
{
    if lies_below(path, dir) {
        assert(names(path).take(names(dir).len() as int)[k] == names(dir)[k]);
    }
}

/// A path counts every name once: a name without slashes that is no single dot
/// stands for itself, and behind a slash the names go on.
pub proof fn law_names_along_a_path(name: Seq<char>, rest: Seq<char>)
    requires
        !name.contains('/'),
        name.len() > 0,
        name != seq!['.'],
    ensures
        names(name) == seq![name],
        names(name.push('/') + rest) == seq![name] + names(rest),
        names(seq!['/'] + rest) == names(rest),
{
    lemma_first_slash(name);
    let whole = name.push('/') + rest;
    lemma_first_slash(whole);
    lemma_before_first_slash(whole);
    if first_slash(name) < name.len() {
        assert(name.contains(name[first_slash(name)]));
    }
    assert(name.take(name.len() as int) =~= name);
    assert(whole[name.len() as int] == '/');
    if first_slash(whole) < name.len() {
        assert(name.contains(whole[first_slash(whole)]));
    }
    assert(first_slash(whole) == name.len());
    assert(whole.take(name.len() as int) =~= name);
    assert(whole.skip(name.len() as int + 1) =~= rest);
    let rooted = seq!['/'] + rest;
    assert(rooted[0] == '/');
    assert(first_slash(rooted) == 0);
    assert(rooted.skip(1) =~= rest);
    assert(names(rooted) =~= names(rest));
}

} // verus!
