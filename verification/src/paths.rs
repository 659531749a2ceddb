//! Slash-separated paths as text.

use vstd::prelude::*;

use crate::text::{characters, text_equal};

verus! {

/// The path of `name` inside the directory `base`. `name` is relative.
pub open spec fn joined(base: Seq<char>, name: Seq<char>) -> Seq<char> {
    if base.len() == 0 || base.last() == '/' {
        base + name
    } else {
        base + "/"@ + name
    }
}

/// The path of `name` inside the directory `base`. `name` is relative.
pub fn join(base: &str, name: &str) -> (path: String)
    ensures
        path@ == joined(base@, name@),
{
    let mut path = String::from_str(base);
    let n: usize = base.unicode_len();
    if n > 0 {
        if base.get_char(n - 1) != '/' {
            path.append("/");
        }
    }
    path.append(name);
    assert(path@ =~= joined(base@, name@));
    path
}

/// What stands between the slashes of a text.
pub open spec fn pieces(text: Seq<char>) -> Seq<Seq<char>>
    decreases text.len(),
{
    if text.len() == 0 {
        seq![Seq::empty()]
    } else {
        let before = pieces(text.drop_last());
        if text.last() == '/' {
            before.push(Seq::empty())
        } else {
            before.drop_last().push(before.last().push(text.last()))
        }
    }
}

/// Whether a piece of a path is a step: an empty one is not, nor is a single dot but for one
/// that the path begins with.
pub open spec fn is_step(piece: Seq<char>, first: bool) -> bool {
    piece.len() > 0 && (piece != "."@ || first)
}

/// The pieces that are steps.
pub open spec fn steps(list: Seq<Seq<char>>) -> Seq<Seq<char>>
    decreases list.len(),
{
    if list.len() == 0 {
        Seq::empty()
    } else if is_step(list.last(), list.len() == 1) {
        steps(list.drop_last()).push(list.last())
    } else {
        steps(list.drop_last())
    }
}

/// A path: where it starts and which way it goes.
#[verifier::ext_equal]
pub struct PathView {
    pub absolute: bool,
    pub steps: Seq<Seq<char>>,
}

/// Whether a path starts at the root.
pub open spec fn is_absolute(text: Seq<char>) -> bool {
    text.len() > 0 && text[0] == '/'
}

/// The path that a text denotes. Two texts that differ in repeated slashes or in single
/// dots denote the same path.
pub open spec fn path_of(text: Seq<char>) -> PathView {
    PathView { absolute: is_absolute(text), steps: steps(pieces(text)) }
}

/// A path, taken apart.
#[derive(Debug)]
pub struct PathParts {
    pub absolute: bool,
    pub steps: Vec<String>,
}

/// The views of a list of texts.
pub open spec fn text_views(list: Seq<String>) -> Seq<Seq<char>> {
    list.map_values(|s: String| s@)
}

impl View for PathParts {
    type V = PathView;

    open spec fn view(&self) -> PathView {
        PathView { absolute: self.absolute, steps: text_views(self.steps@) }
    }
}

proof fn pieces_are_some(text: Seq<char>)
    ensures
        pieces(text).len() > 0,
    decreases text.len(),
{
    if text.len() > 0 {
        pieces_are_some(text.drop_last());
    }
}

fn take_step(list: &mut Vec<String>, text: &str, from: usize, to: usize, first: bool)
    requires
        from <= to <= text@.len(),
    ensures
        text_views(final(list)@) == (if is_step(text@.subrange(from as int, to as int), first) {
            text_views(old(list)@).push(text@.subrange(from as int, to as int))
        } else {
            text_views(old(list)@)
        }),
{
    let ghost before = text_views(list@);
    if from == to {
        return ;
    }
    let piece = text.substring_char(from, to);
    if !text_equal(piece, ".") || first {
        list.push(String::from_str(piece));
        assert(text_views(list@) =~= before.push(piece@));
    }
}

/// Takes a path apart.
pub fn parse(text: &str) -> (path: PathParts)
    ensures
        path@ == path_of(text@),
{
    let list = characters(text);
    let n: usize = list.len();
    let mut found: Vec<String> = Vec::new();
    let mut from: usize = 0;
    let mut first = true;
    let mut i: usize = 0;
    assert(text@.take(0) =~= Seq::<char>::empty());
    assert(text@.subrange(0, 0) =~= Seq::<char>::empty());
    assert(pieces(text@.take(0)).drop_last() =~= Seq::<Seq<char>>::empty());
    assert(text_views(found@) =~= Seq::<Seq<char>>::empty());
    while i < n
        invariant
            n == text@.len(),
            list@ == text@,
            from <= i <= n,
            pieces(text@.take(i as int)).len() > 0,
            first == (pieces(text@.take(i as int)).len() == 1),
            pieces(text@.take(i as int)).last() == text@.subrange(from as int, i as int),
            text_views(found@) == steps(pieces(text@.take(i as int)).drop_last()),
        decreases n - i,
    {
        let ghost now = text@.take(i as int);
        let ghost longer = text@.take(i + 1);
        proof {
            assert(longer.drop_last() =~= now);
            assert(longer.last() == list@[i as int]);
        }
        if list[i] == '/' {
            take_step(&mut found, text, from, i, first);
            from = i + 1;
            first = false;
            proof {
                assert(pieces(longer).drop_last() =~= pieces(now));
                assert(text@.subrange(from as int, i + 1) =~= Seq::<char>::empty());
            }
        } else {
            proof {
                assert(pieces(longer).drop_last() =~= pieces(now).drop_last());
                assert(text@.subrange(from as int, i + 1) =~= text@.subrange(
                    from as int,
                    i as int,
                ).push(list@[i as int]));
            }
        }
        i = i + 1;
    }
    assert(text@.take(n as int) =~= text@);
    take_step(&mut found, text, from, n, first);
    let absolute = n > 0 && list[0] == '/';
    PathParts { absolute, steps: found }
}

/// The text of the first `n` steps of a path, with one slash between two.
pub open spec fn steps_text(list: Seq<Seq<char>>, n: nat) -> Seq<char>
    decreases n,
{
    if n == 0 {
        Seq::empty()
    } else if n == 1 {
        list[0]
    } else {
        steps_text(list, (n - 1) as nat) + "/"@ + list[n - 1]
    }
}

/// The plain text of a path up to its step number `n`.
pub open spec fn prefix_text(path: PathView, n: nat) -> Seq<char> {
    if path.absolute {
        "/"@ + steps_text(path.steps, n)
    } else {
        steps_text(path.steps, n)
    }
}

/// The plain text of a path.
pub open spec fn plain_text(path: PathView) -> Seq<char> {
    prefix_text(path, path.steps.len())
}

/// The plain text of a path up to its step number `n`.
pub fn render(path: &PathParts, n: usize) -> (text: String)
    requires
        n <= path.steps@.len(),
    ensures
        text@ == prefix_text(path@, n as nat),
{
    let mut text = if path.absolute {
        String::from_str("/")
    } else {
        String::new()
    };
    let ghost start = text@;
    let mut i: usize = 0;
    assert(text@ =~= start + steps_text(path@.steps, 0));
    while i < n
        invariant
            i <= n <= path.steps@.len(),
            start == (if path.absolute {
                "/"@
            } else {
                Seq::empty()
            }),
            text@ == start + steps_text(path@.steps, i as nat),
        decreases n - i,
    {
        assert(path@.steps[i as int] == path.steps@[i as int]@);
        if i > 0 {
            text.append("/");
        }
        text.append(path.steps[i].as_str());
        i = i + 1;
        assert(text@ =~= start + steps_text(path@.steps, i as nat));
    }
    assert(text@ =~= prefix_text(path@, n as nat));
    text
}

/// Whether a path begins with another.
pub open spec fn begins_with(path: PathView, base: PathView) -> bool {
    &&& path.absolute == base.absolute
    &&& base.steps.len() <= path.steps.len()
    &&& path.steps.take(base.steps.len() as int) == base.steps
}

/// Whether a path begins with another.
pub fn path_begins_with(path: &PathParts, base: &PathParts) -> (begins: bool)
    ensures
        begins == begins_with(path@, base@),
{
    if path.absolute != base.absolute || path.steps.len() < base.steps.len() {
        return false;
    }
    let mut i: usize = 0;
    while i < base.steps.len()
        invariant
            i <= base.steps@.len() <= path.steps@.len(),
            forall|j: int| 0 <= j < i ==> (#[trigger] base.steps@[j])@ == path.steps@[j]@,
        decreases base.steps@.len() - i,
    {
        if !text_equal(base.steps[i].as_str(), path.steps[i].as_str()) {
            proof {
                assert(path@.steps.take(base@.steps.len() as int)[i as int] == path.steps@[i as int]@);
                assert(base@.steps[i as int] == base.steps@[i as int]@);
            }
            return false;
        }
        i = i + 1;
    }
    assert(path@.steps.take(base@.steps.len() as int) =~= base@.steps);
    true
}

/// Whether two texts denote the same path.
pub fn same_path(a: &str, b: &str) -> (same: bool)
    ensures
        same == (path_of(a@) == path_of(b@)),
{
    let left = parse(a);
    let right = parse(b);
    if left.steps.len() != right.steps.len() {
        return false;
    }
    let same = path_begins_with(&left, &right);
    assert(same ==> left@ =~= right@) by {
        assert(left@.steps.take(left@.steps.len() as int) =~= left@.steps);
    }
    assert(left@.steps.take(left@.steps.len() as int) =~= left@.steps);
    same
}

/// The name that a path ends in: its last step, unless that leads nowhere new.
pub open spec fn file_name(path: PathView) -> Option<Seq<char>> {
    if path.steps.len() == 0 || path.steps.last() == "."@ || path.steps.last() == ".."@ {
        None
    } else {
        Some(path.steps.last())
    }
}

/// The name that a path ends in.
pub fn name_of(path: &PathParts) -> (name: Option<String>)
    ensures
        match name {
            Some(text) => file_name(path@) == Some(text@),
            None => file_name(path@) is None,
        },
{
    let n: usize = path.steps.len();
    if n == 0 {
        return None;
    }
    assert(path@.steps.last() == path.steps@[n - 1]@);
    let last = path.steps[n - 1].as_str();
    if text_equal(last, ".") || text_equal(last, "..") {
        None
    } else {
        Some(String::from_str(last))
    }
}

/// The path with another name at its end.
pub open spec fn renamed(path: PathView, name: Seq<char>) -> PathView {
    PathView {
        steps: if file_name(path) is Some {
            path.steps.drop_last().push(name)
        } else {
            path.steps.push(name)
        },
        ..path
    }
}

/// The path with another name at its end. The name is a single step.
pub fn with_name(path: PathParts, name: String) -> (renamed_path: PathParts)
    ensures
        renamed_path@ == renamed(path@, name@),
{
    let ghost before = path@;
    let mut path = path;
    if name_of(&path).is_some() {
        path.steps.pop();
    }
    path.steps.push(name);
    assert(path@ =~= renamed(before, name@));
    path
}

/// The path that `path` denotes as seen from `base`.
pub open spec fn resolved_from(base: Seq<char>, path: Seq<char>) -> Seq<char> {
    if is_absolute(path) {
        path
    } else {
        joined(base, path)
    }
}

/// The path that `path` denotes as seen from `base`.
pub fn resolve_from(base: &str, path: &str) -> (text: String)
    ensures
        text@ == resolved_from(base@, path@),
{
    let n: usize = path.unicode_len();
    if n > 0 && path.get_char(0) == '/' {
        String::from_str(path)
    } else {
        join(base, path)
    }
}

proof fn pieces_of_joined(a: Seq<char>, b: Seq<char>)
    ensures
        pieces(a + "/"@ + b) == pieces(a) + pieces(b),
    decreases b.len(),
{
    reveal_strlit("/");
    pieces_are_some(a);
    if b.len() == 0 {
        let whole = a + "/"@ + b;
        assert(whole.drop_last() =~= a);
        assert(whole.last() == '/');
        assert(pieces(a).push(Seq::empty()) =~= pieces(a) + pieces(b));
    } else {
        pieces_of_joined(a, b.drop_last());
        pieces_are_some(b.drop_last());
        let whole = a + "/"@ + b;
        assert(whole.drop_last() =~= a + "/"@ + b.drop_last());
        assert(whole.last() == b.last());
        assert(pieces(whole) =~= pieces(a) + pieces(b));
    }
}

proof fn pieces_of_extended(a: Seq<char>, b: Seq<char>)
    requires
        a.len() > 0,
        a.last() == '/',
    ensures
        pieces(a + b) == pieces(a).drop_last() + pieces(b),
    decreases b.len(),
{
    pieces_are_some(a.drop_last());
    if b.len() == 0 {
        assert(a + b =~= a);
        assert(pieces(a) =~= pieces(a).drop_last() + pieces(b));
    } else {
        pieces_of_extended(a, b.drop_last());
        pieces_are_some(b.drop_last());
        let whole = a + b;
        assert(whole.drop_last() =~= a + b.drop_last());
        assert(whole.last() == b.last());
        assert(pieces(whole) =~= pieces(a).drop_last() + pieces(b));
    }
}

proof fn steps_of_longer(x: Seq<Seq<char>>, y: Seq<Seq<char>>)
    requires
        x.len() > 0,
    ensures
        steps(x).len() <= steps(x + y).len(),
        steps(x + y).take(steps(x).len() as int) == steps(x),
    decreases y.len(),
{
    if y.len() == 0 {
        assert(x + y =~= x);
        assert(steps(x).take(steps(x).len() as int) =~= steps(x));
    } else {
        steps_of_longer(x, y.drop_last());
        assert((x + y).drop_last() =~= x + y.drop_last());
        assert(steps(x + y).take(steps(x).len() as int) =~= steps(x));
    }
}

/// What is joined to a directory lies in that directory.
pub proof fn joined_path_begins_with_its_base(base: Seq<char>, name: Seq<char>)
    requires
        !is_absolute(name),
    ensures
        begins_with(path_of(joined(base, name)), path_of(base)),
{
    reveal_strlit("/");
    let whole = joined(base, name);
    if base.len() == 0 {
        assert(whole =~= name);
        assert(base =~= Seq::<char>::empty());
        assert(pieces(base).drop_last() =~= Seq::<Seq<char>>::empty());
        reveal_with_fuel(steps, 3);
        assert(steps(pieces(base)) =~= Seq::<Seq<char>>::empty());
        assert(path_of(whole).steps.take(0) =~= path_of(base).steps);
    } else {
        assert(whole[0] == base[0]);
        pieces_are_some(base.drop_last());
        pieces_are_some(base);
        if base.last() == '/' {
            pieces_of_extended(base, name);
            let x = pieces(base).drop_last();
            assert(pieces(base) =~= x.push(Seq::empty()));
            assert(steps(pieces(base)) == steps(x));
            steps_of_longer(x, pieces(name));
        } else {
            pieces_of_joined(base, name);
            steps_of_longer(pieces(base), pieces(name));
        }
    }
}

proof fn last_piece_grows(list: Seq<Seq<char>>, c: char)
    requires
        list.len() > 0,
    ensures
        steps_text(list.drop_last().push(list.last().push(c)), list.len()) == steps_text(
            list,
            list.len(),
        ).push(c),
{
    let grown = list.drop_last().push(list.last().push(c));
    let n = (list.len() - 1) as nat;
    if n > 0 {
        same_steps_same_text(grown, list, n);
    }
    assert(steps_text(grown, list.len()) =~= steps_text(list, list.len()).push(c));
}

proof fn same_steps_same_text(a: Seq<Seq<char>>, b: Seq<Seq<char>>, n: nat)
    requires
        n <= a.len(),
        n <= b.len(),
        forall|i: int| 0 <= i < n ==> #[trigger] a[i] == b[i],
    ensures
        steps_text(a, n) == steps_text(b, n),
    decreases n,
{
    if n > 1 {
        same_steps_same_text(a, b, (n - 1) as nat);
    }
}

/// The pieces of a text are what stands between its slashes: put together again with a slash
/// between each two of them they give the text, and none holds a slash itself.
pub proof fn pieces_stand_between_slashes(text: Seq<char>)
    ensures
        pieces(text).len() > 0,
        steps_text(pieces(text), pieces(text).len()) == text,
        forall|i: int| 0 <= i < pieces(text).len() ==> !(#[trigger] pieces(text)[i]).contains('/'),
    decreases text.len(),
{
    reveal_strlit("/");
    if text.len() > 0 {
        let before = pieces(text.drop_last());
        let after = pieces(text);
        pieces_stand_between_slashes(text.drop_last());
        if text.last() == '/' {
            same_steps_same_text(after, before, before.len());
            assert(steps_text(after, after.len()) =~= text);
            assert forall|i: int| 0 <= i < after.len() implies !(#[trigger] after[i]).contains('/') by {
                if i < before.len() {
                    assert(after[i] == before[i]);
                }
            }
        } else {
            last_piece_grows(before, text.last());
            assert(text.drop_last().push(text.last()) =~= text);
            assert forall|i: int| 0 <= i < after.len() implies !(#[trigger] after[i]).contains('/') by {
                if i < before.len() - 1 {
                    assert(after[i] == before[i]);
                } else {
                    let whole = before.last().push(text.last());
                    assert(after[i] == whole);
                    assert(!before[before.len() - 1].contains('/'));
                    if whole.contains('/') {
                        let k = choose|k: int| 0 <= k < whole.len() && whole[k] == '/';
                        assert(k < before.last().len());
                        assert(before.last()[k] == '/');
                    }
                }
            }
        }
    } else {
        assert(steps_text(pieces(text), 1) =~= text);
    }
}

/// Empty pieces are no steps, and neither is a dot but where a path begins with it; all other
/// pieces are, in their order.
pub proof fn all_but_empty_pieces_are_steps(a: Seq<Seq<char>>, b: Seq<Seq<char>>)
    requires
        a.len() > 0,
    ensures
        steps(a + b) == steps(a) + b.filter(|p: Seq<char>| p.len() > 0 && p != "."@),
        a.len() == 1 && a[0].len() > 0 ==> steps(a) == a,
        a.len() == 1 && a[0].len() == 0 ==> steps(a).len() == 0,
    decreases b.len(),
{
    reveal(Seq::filter);
    let counts = |p: Seq<char>| p.len() > 0 && p != "."@;
    if b.len() > 0 {
        all_but_empty_pieces_are_steps(a, b.drop_last());
        assert((a + b).drop_last() =~= a + b.drop_last());
        assert(steps(a + b) =~= steps(a) + b.filter(counts));
    } else {
        assert(a + b =~= a);
        assert(steps(a) + b.filter(counts) =~= steps(a));
    }
    if a.len() == 1 {
        assert(a.drop_last() =~= Seq::empty());
        assert(steps(a.drop_last()) =~= Seq::empty());
        if a[0].len() > 0 {
            assert(steps(a) =~= a);
        }
    }
}

/// What is joined begins with the one and ends with the other, with one slash between them where
/// there was none.
pub proof fn joined_has_one_slash_between(base: Seq<char>, name: Seq<char>)
    ensures
        joined(base, name).take(base.len() as int) == base,
        joined(base, name).skip(joined(base, name).len() - name.len()) == name,
        base.len() == 0 || base.last() == '/' ==> joined(base, name).len() == base.len()
            + name.len(),
        base.len() > 0 && base.last() != '/' ==> joined(base, name).len() == base.len() + 1
            + name.len() && joined(base, name)[base.len() as int] == '/',
{
    reveal_strlit("/");
    assert(joined(base, name).take(base.len() as int) =~= base);
    assert(joined(base, name).skip(joined(base, name).len() - name.len()) =~= name);
}

/// A path that does not begin with a slash lies below the base, and any other is taken as it is.
pub proof fn only_relative_paths_are_resolved(base: Seq<char>, path: Seq<char>)
    ensures
        path.len() > 0 && path[0] == '/' ==> resolved_from(base, path) == path,
        path.len() == 0 || path[0] != '/' ==> resolved_from(base, path) == joined(base, path),
        path_of(path).absolute <==> path.len() > 0 && path[0] == '/',
{
}

/// A path begins with another where the other's steps are its first ones, and both are absolute
/// or neither is; so it begins with itself, and with what that begins with.
pub proof fn beginning_is_step_by_step(a: PathView, b: PathView, c: PathView, i: int)
    ensures
        begins_with(a, a),
        begins_with(a, b) && begins_with(b, c) ==> begins_with(a, c),
        begins_with(a, b) && begins_with(b, a) ==> a == b,
        begins_with(a, b) && 0 <= i < b.steps.len() ==> a.steps[i] == b.steps[i],
        begins_with(a, b) ==> a.steps.len() >= b.steps.len() && a.absolute == b.absolute,
{
    assert(a.steps.take(a.steps.len() as int) =~= a.steps);
    if begins_with(a, b) && begins_with(b, c) {
        assert(a.steps.take(c.steps.len() as int) =~= b.steps.take(c.steps.len() as int));
    }
    if begins_with(a, b) && begins_with(b, a) {
        assert(a.steps.take(b.steps.len() as int) =~= a.steps);
    }
    if begins_with(a, b) && 0 <= i < b.steps.len() {
        assert(a.steps.take(b.steps.len() as int)[i] == a.steps[i]);
    }
}

/// A file that is renamed has the new name, in the same place.
pub proof fn renaming_changes_the_name_alone(path: PathView, name: Seq<char>)
    requires
        name != "."@,
        name != ".."@,
    ensures
        file_name(renamed(path, name)) == Some(name),
        renamed(path, name).absolute == path.absolute,
        file_name(path) is Some ==> renamed(path, name).steps.len() == path.steps.len() && renamed(
            path,
            name,
        ).steps.drop_last() == path.steps.drop_last(),
        file_name(path) is None ==> renamed(path, name).steps.drop_last() == path.steps,
        file_name(path) matches Some(last) ==> last == path.steps.last(),
{
    assert(renamed(path, name).steps.last() == name);
    if file_name(path) is Some {
        assert(renamed(path, name).steps.drop_last() =~= path.steps.drop_last());
    } else {
        assert(renamed(path, name).steps.drop_last() =~= path.steps);
    }
}

} // verus!
