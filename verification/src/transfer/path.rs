//! Which paths may be touched: those below a base directory.

use vstd::prelude::*;

use crate::paths::{
    begins_with, is_absolute, joined, joined_path_begins_with_its_base, parse, path_begins_with,
    path_of, plain_text, prefix_text, render, resolve_from, resolved_from, PathParts,
    PathView,
};
use crate::text::text_equal;
use crate::transfer::error::{ErrorView, FileTransferError, IoKind};

verus! {

/// Whether a path goes up somewhere.
pub open spec fn goes_up(path: PathView) -> bool {
    exists|i: int| 0 <= i < path.steps.len() && #[trigger] path.steps[i] == ".."@
}

/// Whether a path goes up somewhere.
pub fn contains_parent_dir(path: &PathParts) -> (up: bool)
    ensures
        up == goes_up(path@),
{
    let mut i: usize = 0;
    while i < path.steps.len()
        invariant
            i <= path.steps@.len(),
            forall|j: int| 0 <= j < i ==> #[trigger] path@.steps[j] != ".."@,
        decreases path.steps@.len() - i,
    {
        assert(path@.steps[i as int] == path.steps@[i as int]@);
        if text_equal(path.steps[i].as_str(), "..") {
            return true;
        }
        i = i + 1;
    }
    false
}

/// What is to be kept out: everything that is not below a base directory.
#[derive(Debug)]
pub struct PathValidator {
    configured: String,
    base: String,
    follow_symlinks: bool,
}

/// A validator, seen as plain values.
pub struct ValidatorView {
    /// The base directory as it was configured.
    pub configured: Seq<char>,
    /// The base directory with its links resolved.
    pub base: Seq<char>,
    pub follow_symlinks: bool,
}

impl View for PathValidator {
    type V = ValidatorView;

    closed spec fn view(&self) -> ValidatorView {
        ValidatorView {
            configured: self.configured@,
            base: self.base@,
            follow_symlinks: self.follow_symlinks,
        }
    }
}

/// What the file system says of a path.
#[derive(Debug)]
pub struct PathFacts {
    /// For each step of the path whether the path up to there is a link.
    pub links: Vec<bool>,
    /// The path with its links resolved, or why that failed.
    pub resolved: Result<String, (IoKind, String)>,
}

/// What the file system says of a path, seen as plain values.
pub struct FactsView {
    pub links: Seq<bool>,
    pub resolved: Result<Seq<char>, (IoKind, Seq<char>)>,
}

impl View for PathFacts {
    type V = FactsView;

    open spec fn view(&self) -> FactsView {
        FactsView {
            links: self.links@,
            resolved: resolved_view(self.resolved),
        }
    }
}

/// How many steps of a path lead to something that exists. For each step `known` holds where
/// the path up to there leads, if anywhere.
pub open spec fn known_steps(known: Seq<Option<String>>) -> nat
    decreases known.len(),
{
    if known.len() == 0 {
        0
    } else if known.last() is Some {
        known.len()
    } else {
        known_steps(known.drop_last())
    }
}

/// Whether there is a link behind the first `existing` steps.
pub open spec fn link_behind(links: Seq<bool>, existing: int) -> bool {
    exists|i: int| existing <= i < links.len() && #[trigger] links[i]
}

/// The path of which the first `existing` steps lead to `canonical`.
pub open spec fn continued(canonical: Seq<char>, path: Seq<char>, existing: nat) -> Seq<char> {
    plain_text(
        PathView {
            absolute: path_of(canonical).absolute,
            steps: path_of(canonical).steps + path_of(path).steps.skip(existing as int),
        },
    )
}

/// The path with its links resolved. `whole` is what the file system makes of it. Where the path
/// does not exist, its end is kept as it is written, behind the steps that do. A link that leads
/// nowhere is no part of such an end.
pub open spec fn resolution(
    path: Seq<char>,
    whole: Result<Seq<char>, (IoKind, Seq<char>)>,
    known: Seq<Option<String>>,
    links: Seq<bool>,
) -> Result<Seq<char>, (IoKind, Seq<char>)> {
    let existing = known_steps(known);
    match whole {
        Ok(resolved) => Ok(resolved),
        Err(failure) => if failure.0 == IoKind::NotFound && 0 < existing <= path_of(path).steps.len()
            && !link_behind(links, existing as int) {
            Ok(continued(known[existing - 1]->Some_0@, path, existing))
        } else {
            Err(failure)
        },
    }
}

/// What the file system makes of a path, seen as plain values.
pub open spec fn resolved_view(r: Result<String, (IoKind, String)>) -> Result<
    Seq<char>,
    (IoKind, Seq<char>),
> {
    match r {
        Ok(path) => Ok(path@),
        Err((kind, text)) => Err((kind, text@)),
    }
}

proof fn known_steps_are_the_longest(known: Seq<Option<String>>, n: nat)
    requires
        n <= known.len(),
        forall|i: int| n <= i < known.len() ==> (#[trigger] known[i]) is None,
        n == 0 || known[n - 1] is Some,
    ensures
        known_steps(known) == n,
    decreases known.len(),
{
    if known.len() > n {
        assert(known[known.len() - 1] is None);
        assert forall|i: int| n <= i < known.drop_last().len() implies (#[trigger] known.drop_last()[i]) is None by {
            assert(known[i] is None);
        }
        known_steps_are_the_longest(known.drop_last(), n);
    }
}

/// The path with one base in place of another.
pub open spec fn rebased(path: PathView, from: PathView, to: PathView) -> PathView {
    PathView { absolute: to.absolute, steps: to.steps + path.steps.skip(from.steps.len() as int) }
}

/// The path that is meant: seen from the base directory, and with the configured name of the
/// base directory, where the path begins with that, replaced by its real one.
pub open spec fn candidate(v: ValidatorView, path: Seq<char>) -> Result<Seq<char>, ErrorView> {
    if goes_up(path_of(path)) {
        Err(ErrorView::PathTraversal(path))
    } else if is_absolute(path) && !begins_with(path_of(path), path_of(v.base)) && begins_with(
        path_of(path),
        path_of(v.configured),
    ) {
        Ok(plain_text(rebased(path_of(path), path_of(v.configured), path_of(v.base))))
    } else {
        Ok(resolved_from(v.base, path))
    }
}

/// Whether the path up to step `i` is the first link on the way.
pub open spec fn is_first_link(path: PathView, links: Seq<bool>, i: int) -> bool {
    &&& 0 <= i < path.steps.len()
    &&& i < links.len()
    &&& links[i]
    &&& forall|j: int| 0 <= j < i ==> !#[trigger] links[j]
}

/// Whether there is a link on the way.
pub open spec fn has_link(path: PathView, links: Seq<bool>) -> bool {
    exists|i: int| #[trigger] is_first_link(path, links, i)
}

/// Whether a path lies below the base directory.
pub open spec fn within(v: ValidatorView, path: Seq<char>) -> bool {
    begins_with(path_of(path), path_of(v.base))
}

/// A path that lies below the base directory.
pub open spec fn admitted(v: ValidatorView, path: Seq<char>) -> Result<Seq<char>, ErrorView> {
    if within(v, path) {
        Ok(path)
    } else {
        Err(ErrorView::PathTraversal(path))
    }
}

/// The path to touch, or why there is none.
pub open spec fn validated(v: ValidatorView, path: Seq<char>, facts: FactsView) -> Result<Seq<char>, ErrorView> {
    match candidate(v, path) {
        Err(error) => Err(error),
        Ok(text) => {
            if v.follow_symlinks {
                match facts.resolved {
                    Err((kind, why)) => Err(ErrorView::Io(kind, why)),
                    Ok(resolved) => admitted(v, resolved),
                }
            } else if has_link(path_of(text), facts.links) {
                let i = choose|i: int| #[trigger] is_first_link(path_of(text), facts.links, i);
                Err(ErrorView::PathTraversal(prefix_text(path_of(text), (i + 1) as nat)))
            } else {
                admitted(v, text)
            }
        },
    }
}

/// The view of a text or an error.
pub open spec fn text_outcome(r: Result<String, FileTransferError>) -> Result<Seq<char>, ErrorView> {
    match r {
        Ok(text) => Ok(text@),
        Err(error) => Err(error@),
    }
}

impl PathValidator {
    /// A validator for a base directory. `canonical` is the directory with its links
    /// resolved, where that succeeded.
    pub fn new(base_path: String, canonical: Option<String>, follow_symlinks: bool) -> (validator: Self)
        ensures
            validator@ == (ValidatorView {
                configured: base_path@,
                base: match canonical {
                    Some(path) => path@,
                    None => base_path@,
                },
                follow_symlinks,
            }),
    {
        let base = match canonical {
            Some(path) => path,
            None => base_path.clone(),
        };
        PathValidator { configured: base_path, base, follow_symlinks }
    }

    /// The path that is meant: what to ask the file system about.
    pub fn candidate(&self, path: &str) -> (r: Result<String, FileTransferError>)
        ensures
            text_outcome(r) == candidate(self@, path@),
    {
        let parts = parse(path);
        if contains_parent_dir(&parts) {
            return Err(FileTransferError::PathTraversal(String::from_str(path)));
        }
        let base = parse(self.base.as_str());
        let configured = parse(self.configured.as_str());
        if parts.absolute && !path_begins_with(&parts, &base) && path_begins_with(
            &parts,
            &configured,
        ) {
            let ghost from = configured.steps@.len() as int;
            let mut moved = base;
            let ghost start = moved@.steps;
            let mut i: usize = configured.steps.len();
            assert(parts@.steps.subrange(from, from) =~= Seq::<Seq<char>>::empty());
            assert(moved@.steps =~= start + parts@.steps.subrange(from, from));
            while i < parts.steps.len()
                invariant
                    0 <= from <= i <= parts.steps@.len(),
                    moved@.absolute == path_of(self.base@).absolute,
                    moved@.steps == start + parts@.steps.subrange(from, i as int),
                decreases parts.steps@.len() - i,
            {
                let ghost before = moved@.steps;
                assert(parts@.steps[i as int] == parts.steps@[i as int]@);
                moved.steps.push(parts.steps[i].clone());
                assert(moved@.steps =~= before.push(parts@.steps[i as int]));
                i = i + 1;
                assert(moved@.steps =~= start + parts@.steps.subrange(from, i as int));
            }
            assert(moved@ =~= rebased(parts@, configured@, path_of(self.base@)));
            let n: usize = moved.steps.len();
            return Ok(render(&moved, n));
        }
        Ok(resolve_from(self.base.as_str(), path))
    }

    /// The texts of a path up to each of its steps: what to look at for links.
    pub fn prefixes(path: &str) -> (texts: Vec<String>)
        ensures
            texts@.len() == path_of(path@).steps.len(),
            forall|i: int|
                0 <= i < texts@.len() ==> (#[trigger] texts@[i])@ == prefix_text(
                    path_of(path@),
                    (i + 1) as nat,
                ),
    {
        let parts = parse(path);
        let mut texts: Vec<String> = Vec::new();
        while texts.len() < parts.steps.len()
            invariant
                texts@.len() <= parts.steps@.len(),
                parts@ == path_of(path@),
                forall|i: int|
                    0 <= i < texts@.len() ==> (#[trigger] texts@[i])@ == prefix_text(
                        path_of(path@),
                        (i + 1) as nat,
                    ),
            decreases parts.steps@.len() - texts@.len(),
        {
            let n: usize = texts.len() + 1;
            texts.push(render(&parts, n));
        }
        texts
    }

    /// The path of which the first `existing` steps lead to `canonical`: what is left of
    /// `path` is joined to that.
    pub fn resolve_missing(canonical: &str, path: &str, existing: usize) -> (text: String)
        requires
            existing <= path_of(path@).steps.len(),
        ensures
            text@ == continued(canonical@, path@, existing as nat),
    {
        let parts = parse(path);
        let mut whole = parse(canonical);
        let ghost start = whole@.steps;
        let mut i: usize = existing;
        assert(parts@.steps.subrange(existing as int, existing as int) =~= Seq::<Seq<char>>::empty());
        assert(whole@.steps =~= start + parts@.steps.subrange(existing as int, existing as int));
        while i < parts.steps.len()
            invariant
                existing <= i <= parts.steps@.len(),
                parts@ == path_of(path@),
                whole@.absolute == path_of(canonical@).absolute,
                whole@.steps == start + parts@.steps.subrange(existing as int, i as int),
            decreases parts.steps@.len() - i,
        {
            let ghost before = whole@.steps;
            assert(parts@.steps[i as int] == parts.steps@[i as int]@);
            whole.steps.push(parts.steps[i].clone());
            assert(whole@.steps =~= before.push(parts@.steps[i as int]));
            i = i + 1;
            assert(whole@.steps =~= start + parts@.steps.subrange(existing as int, i as int));
        }
        let n: usize = whole.steps.len();
        assert(whole@ =~= (PathView {
            absolute: path_of(canonical@).absolute,
            steps: start + parts@.steps.skip(existing as int),
        }));
        render(&whole, n)
    }

    fn has_link_behind(links: &Vec<bool>, existing: usize) -> (found: bool)
        ensures
            found == link_behind(links@, existing as int),
    {
        let mut i: usize = existing;
        while i < links.len()
            invariant
                existing <= i,
                forall|j: int| existing <= j < i && j < links@.len() ==> !#[trigger] links@[j],
            decreases links@.len() - i,
        {
            if links[i] {
                return true;
            }
            i = i + 1;
        }
        false
    }

    /// The path with its links resolved. For each step of the path `known` holds where the path
    /// up to there leads, if anywhere, and `links` whether it is a link. `whole` is what the file
    /// system makes of the whole.
    pub fn resolve(
        path: &str,
        whole: Result<String, (IoKind, String)>,
        known: &Vec<Option<String>>,
        links: &Vec<bool>,
    ) -> (r: Result<String, (IoKind, String)>)
        ensures
            resolved_view(r) == resolution(path@, resolved_view(whole), known@, links@),
    {
        let (kind, why) = match whole {
            Ok(resolved) => {
                return Ok(resolved);
            },
            Err(failure) => failure,
        };
        if kind != IoKind::NotFound {
            return Err((kind, why));
        }
        let mut existing: usize = known.len();
        while existing > 0 && known[existing - 1].is_none()
            invariant
                existing <= known@.len(),
                forall|i: int| existing <= i < known@.len() ==> (#[trigger] known@[i]) is None,
            decreases existing,
        {
            existing = existing - 1;
        }
        proof {
            known_steps_are_the_longest(known@, existing as nat);
        }
        if existing == 0 || existing > parse(path).steps.len() {
            return Err((kind, why));
        }
        if Self::has_link_behind(links, existing) {
            return Err((kind, why));
        }
        match &known[existing - 1] {
            Some(canonical) => Ok(Self::resolve_missing(canonical.as_str(), path, existing)),
            None => Err((kind, why)),
        }
    }

    /// Whether a path lies below the base directory.
    pub fn is_within_base(&self, path: &str) -> (inside: bool)
        ensures
            inside == within(self@, path@),
    {
        path_begins_with(&parse(path), &parse(self.base.as_str()))
    }

    fn keep_inside(&self, path: String) -> (r: Result<String, FileTransferError>)
        ensures
            text_outcome(r) == admitted(self@, path@),
    {
        if self.is_within_base(path.as_str()) {
            Ok(path)
        } else {
            Err(FileTransferError::PathTraversal(path))
        }
    }

    fn reject_symlink_components(path: &str, links: &Vec<bool>) -> (r: Result<(), FileTransferError>)
        ensures
            match r {
                Ok(()) => !has_link(path_of(path@), links@),
                Err(error) => exists|i: int| #[trigger]
                    is_first_link(path_of(path@), links@, i) && error@ == ErrorView::PathTraversal(
                        prefix_text(path_of(path@), (i + 1) as nat),
                    ),
            },
    {
        let parts = parse(path);
        let mut i: usize = 0;
        while i < parts.steps.len() && i < links.len()
            invariant
                i <= parts.steps@.len(),
                i <= links@.len(),
                parts@ == path_of(path@),
                forall|j: int| 0 <= j < i ==> !#[trigger] links@[j],
            decreases parts.steps@.len() - i,
        {
            if links[i] {
                assert(is_first_link(path_of(path@), links@, i as int));
                return Err(FileTransferError::PathTraversal(render(&parts, i + 1)));
            }
            i = i + 1;
        }
        Ok(())
    }

    /// The path to touch. `facts` is what the file system says of the path that is meant.
    pub fn validate(&self, path: &str, facts: &PathFacts) -> (r: Result<String, FileTransferError>)
        ensures
            text_outcome(r) == validated(self@, path@, facts@),
    {
        let text = match self.candidate(path) {
            Ok(text) => text,
            Err(error) => {
                return Err(error);
            },
        };
        if self.follow_symlinks {
            match &facts.resolved {
                Ok(resolved) => self.keep_inside(resolved.clone()),
                Err((kind, why)) => Err(FileTransferError::Io(*kind, why.clone())),
            }
        } else {
            match Self::reject_symlink_components(text.as_str(), &facts.links) {
                Ok(()) => self.keep_inside(text),
                Err(error) => {
                    proof {
                        let p = path_of(text@);
                        let i = choose|i: int| #[trigger] is_first_link(p, facts.links@, i);
                        let k = choose|k: int| #[trigger]
                            is_first_link(p, facts.links@, k) && error@ == ErrorView::PathTraversal(
                                prefix_text(p, (k + 1) as nat),
                            );
                        assert(is_first_link(p, facts.links@, k));
                        assert(is_first_link(p, facts.links@, i));
                        assert(i == k) by {
                            assert(i < k ==> !facts.links@[i]);
                            assert(k < i ==> !facts.links@[k]);
                        }
                    }
                    Err(error)
                },
            }
        }
    }
}

/// Whatever the file system says, a path that is admitted lies below the base directory, and
/// the path that was asked for does not go up.
pub proof fn admitted_path_is_below_the_base(v: ValidatorView, path: Seq<char>, facts: FactsView)
    ensures
        match validated(v, path, facts) {
            Ok(text) => within(v, text) && !goes_up(path_of(path)),
            Err(_) => true,
        },
{
}

/// A path that goes up is refused, whatever the file system says.
pub proof fn path_that_goes_up_is_refused(v: ValidatorView, path: Seq<char>, facts: FactsView)
    requires
        goes_up(path_of(path)),
    ensures
        validated(v, path, facts) == Err::<Seq<char>, ErrorView>(ErrorView::PathTraversal(path)),
{
}

/// A relative path that does not go up, and on whose way there is no link, is admitted.
pub proof fn plain_relative_path_is_admitted(v: ValidatorView, path: Seq<char>, facts: FactsView)
    requires
        !is_absolute(path),
        !goes_up(path_of(path)),
        !v.follow_symlinks,
        !has_link(path_of(joined(v.base, path)), facts.links),
    ensures
        validated(v, path, facts) == Ok::<Seq<char>, ErrorView>(joined(v.base, path)),
{
    joined_path_begins_with_its_base(v.base, path);
}

/// A path that does not exist resolves to no place behind a link that leads nowhere: it is
/// refused where links are followed, as it is where they are not.
pub proof fn path_behind_a_dangling_link_is_refused(
    v: ValidatorView,
    path: Seq<char>,
    failure: (IoKind, Seq<char>),
    known: Seq<Option<String>>,
    links: Seq<bool>,
    i: int,
)
    requires
        known_steps(known) <= i < links.len(),
        links[i],
        candidate(v, path) is Ok,
        i < path_of(candidate(v, path)->Ok_0).steps.len(),
    ensures
        validated(
            v,
            path,
            FactsView {
                links,
                resolved: resolution(candidate(v, path)->Ok_0, Err(failure), known, links),
            },
        ) is Err,
{
    assert(link_behind(links, known_steps(known) as int));
    first_link_exists(path_of(candidate(v, path)->Ok_0), links, i);
}

proof fn first_link_exists(path: PathView, links: Seq<bool>, i: int)
    requires
        0 <= i < path.steps.len(),
        i < links.len(),
        links[i],
    ensures
        has_link(path, links),
    decreases i,
{
    if exists|j: int| 0 <= j < i && #[trigger] links[j] {
        let j = choose|j: int| 0 <= j < i && #[trigger] links[j];
        first_link_exists(path, links, j);
    } else {
        assert(is_first_link(path, links, i));
    }
}

/// Where links are not followed, none is on the way of a path that is admitted.
pub proof fn admitted_path_passes_no_link(v: ValidatorView, path: Seq<char>, facts: FactsView)
    requires
        !v.follow_symlinks,
        validated(v, path, facts) is Ok,
    ensures
        candidate(v, path) is Ok,
        !has_link(path_of(candidate(v, path)->Ok_0), facts.links),
{
}

/// The deepest part of a path that is known to exist is the last one that was found.
pub proof fn deepest_known_part_is_the_last(known: Seq<Option<String>>)
    ensures
        known_steps(known) <= known.len(),
        known_steps(known) > 0 ==> known[known_steps(known) - 1] is Some,
        forall|i: int| known_steps(known) <= i < known.len() ==> (#[trigger] known[i]) is None,
    decreases known.len(),
{
    if known.len() > 0 && known.last() is None {
        let fewer = known.drop_last();
        deepest_known_part_is_the_last(fewer);
        assert forall|i: int| known_steps(known) <= i < known.len() implies (#[trigger] known[i]) is None by {
            if i < fewer.len() {
                assert(fewer[i] is None);
            }
        }
    }
}

/// A path is looked up below the base: a relative one there, an absolute one where it is, or in
/// the resolved base where it was given below the configured one. One that goes up is refused, and
/// no other.
pub proof fn paths_are_looked_up_below_the_base(v: ValidatorView, path: Seq<char>)
    ensures
        candidate(v, path) is Err <==> exists|i: int|
            0 <= i < path_of(path).steps.len() && #[trigger] path_of(path).steps[i] == ".."@,
        candidate(v, path) is Err ==> candidate(v, path) == Err::<Seq<char>, ErrorView>(
            ErrorView::PathTraversal(path),
        ),
        candidate(v, path) is Ok && !is_absolute(path) ==> candidate(v, path)->Ok_0 == joined(
            v.base,
            path,
        ),
        candidate(v, path) is Ok && is_absolute(path) && begins_with(path_of(path), path_of(v.base))
            ==> candidate(v, path)->Ok_0 == path,
        candidate(v, path) is Ok && is_absolute(path) && !begins_with(
            path_of(path),
            path_of(v.configured),
        ) ==> candidate(v, path)->Ok_0 == path,
{
}

/// A path below one base goes to the same place below another.
pub proof fn rebasing_keeps_the_place(path: PathView, from: PathView, to: PathView)
    requires
        begins_with(path, from),
    ensures
        begins_with(rebased(path, from, to), to),
        rebased(path, from, to).steps.skip(to.steps.len() as int) == path.steps.skip(
            from.steps.len() as int,
        ),
        rebased(path, from, from) == path,
{
    let after = rebased(path, from, to);
    assert(after.steps.take(to.steps.len() as int) =~= to.steps);
    assert(after.steps.skip(to.steps.len() as int) =~= path.steps.skip(from.steps.len() as int));
    assert(rebased(path, from, from).steps =~= path.steps);
}

/// Where links are followed a path is admitted exactly where what it leads to lies below the base,
/// and that is what is admitted; where they are not, exactly where no part of it is a link and it
/// lies below the base itself.
pub proof fn path_is_admitted_where_it_leads_below(v: ValidatorView, path: Seq<char>, facts: FactsView)
    requires
        candidate(v, path) is Ok,
    ensures
        v.follow_symlinks ==> {
            &&& validated(v, path, facts) is Ok <==> facts.resolved is Ok && within(
                v,
                facts.resolved->Ok_0,
            )
            &&& validated(v, path, facts) matches Ok(text) ==> text == facts.resolved->Ok_0
            &&& facts.resolved matches Err(failure) ==> validated(v, path, facts) == Err::<
                Seq<char>,
                ErrorView,
            >(ErrorView::Io(failure.0, failure.1))
            &&& facts.resolved is Ok && !within(v, facts.resolved->Ok_0) ==> validated(v, path, facts)
                == Err::<Seq<char>, ErrorView>(ErrorView::PathTraversal(facts.resolved->Ok_0))
        },
        !v.follow_symlinks ==> {
            let text = candidate(v, path)->Ok_0;
            &&& validated(v, path, facts) is Ok <==> within(v, text) && !has_link(
                path_of(text),
                facts.links,
            )
            &&& validated(v, path, facts) matches Ok(t) ==> t == text
            &&& validated(v, path, facts) matches Err(e) ==> e is PathTraversal
        },
{
}

/// A path that exists is resolved as found; one that does not is continued from the deepest part
/// of it that does, unless a link lies behind that.
pub proof fn missing_path_is_continued(
    path: Seq<char>,
    whole: Result<Seq<char>, (IoKind, Seq<char>)>,
    known: Seq<Option<String>>,
    links: Seq<bool>,
)
    ensures
        whole is Ok ==> resolution(path, whole, known, links) == whole,
        whole matches Err(failure) ==> {
            let n = known_steps(known);
            let r = resolution(path, whole, known, links);
            &&& r is Ok <==> failure.0 is NotFound && 0 < n <= path_of(path).steps.len() && !exists|
                i: int,
            |
                n <= i < links.len() && #[trigger] links[i]
            &&& r is Err ==> r == whole
            &&& r is Ok ==> r->Ok_0 == plain_text(
                PathView {
                    absolute: path_of(known[n - 1]->Some_0@).absolute,
                    steps: path_of(known[n - 1]->Some_0@).steps + path_of(path).steps.skip(n as int),
                },
            )
        },
{
}

/// The base is the resolved one where it could be resolved, and else the configured one.
pub proof fn base_is_resolved_where_it_can_be(
    base_path: String,
    canonical: Option<String>,
    follow_symlinks: bool,
    validator: PathValidator,
)
    requires
        call_ensures(PathValidator::new, (base_path, canonical, follow_symlinks), validator),
    ensures
        validator@.configured == base_path@,
        canonical matches Some(path) ==> validator@.base == path@,
        canonical is None ==> validator@.base == base_path@,
        validator@.follow_symlinks == follow_symlinks,
{
}

/// A path passes a link exactly where one of its parts is one, and is refused at the first.
pub proof fn first_link_is_where_a_path_is_refused(v: ValidatorView, path: Seq<char>, facts: FactsView, i: int)
    requires
        candidate(v, path) is Ok,
        !v.follow_symlinks,
        0 <= i < path_of(candidate(v, path)->Ok_0).steps.len(),
        i < facts.links.len(),
        facts.links[i],
        forall|j: int| 0 <= j < i ==> !#[trigger] facts.links[j],
    ensures
        validated(v, path, facts) == Err::<Seq<char>, ErrorView>(
            ErrorView::PathTraversal(
                prefix_text(path_of(candidate(v, path)->Ok_0), (i + 1) as nat),
            ),
        ),
{
    let text = candidate(v, path)->Ok_0;
    assert(is_first_link(path_of(text), facts.links, i));
    let k = choose|k: int| #[trigger] is_first_link(path_of(text), facts.links, k);
    assert(is_first_link(path_of(text), facts.links, k));
    if k < i {
        assert(!facts.links[k]);
    }
    if i < k {
        assert(!facts.links[i]);
    }
}

} // verus!
