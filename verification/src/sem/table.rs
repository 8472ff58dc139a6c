//! Symbol tables: items declared under backslash-delimited paths and found
//! again by the shortest declared path that ends with the name asked for.

use crate::error::error;
use crate::error::CResult;
use crate::error::ErrorMessage;
use crate::error::ErrorView;
use crate::error::MessageView;
use crate::text::chars_of;
use vstd::prelude::*;
use vstd::string::StringExecFns;

verus! {

/// The segments of a path, each as a text.
pub open spec fn path_view(path: Seq<String>) -> Seq<Seq<char>> {
    Seq::new(path.len(), |i: int| path[i]@)
}

/// `done`, then the segments of `s` from index `i` on, where `current` holds
/// the segment that has been read so far. Empty segments are dropped.
pub open spec fn path_from(s: Seq<char>, i: int, current: Seq<char>, done: Seq<Seq<char>>) -> Seq<
    Seq<char>,
>
    decreases s.len() - i,
{
    let closed = if current.len() > 0 {
        done.push(current)
    } else {
        done
    };
    if !(0 <= i < s.len()) {
        closed
    } else if s[i] == '\\' {
        path_from(s, i + 1, Seq::empty(), closed)
    } else {
        path_from(s, i + 1, current.push(s[i]), done)
    }
}

/// The segments of a name: what stands between its backslashes, without the
/// empty segments.
pub open spec fn spec_path(s: Seq<char>) -> Seq<Seq<char>> {
    path_from(s, 0, Seq::empty(), Seq::empty())
}

/// Whether `path` ends with `target`.
pub open spec fn is_suffix(path: Seq<Seq<char>>, target: Seq<Seq<char>>) -> bool {
    path.len() >= target.len() && path.subrange(path.len() - target.len(), path.len() as int)
        == target
}

/// Whether `path` is longer than `prefix` and starts with it.
pub open spec fn is_inside(path: Seq<Seq<char>>, prefix: Seq<Seq<char>>) -> bool {
    path.len() > prefix.len() && path.subrange(0, prefix.len() as int) == prefix
}

/// Whether the path at `i` is preferred to the one at `j`: it is shorter, or
/// as long and declared no later.
pub open spec fn preferred(paths: Seq<Seq<Seq<char>>>, i: int, j: int) -> bool {
    paths[i].len() < paths[j].len() || (paths[i].len() == paths[j].len() && i <= j)
}

/// Whether `i` is the declaration that `target` resolves to: its path ends
/// with `target`, and it is preferred to every other such declaration.
pub open spec fn best_match(paths: Seq<Seq<Seq<char>>>, target: Seq<Seq<char>>, i: int) -> bool {
    &&& 0 <= i < paths.len()
    &&& is_suffix(paths[i], target)
    &&& forall|j: int|
        0 <= j < paths.len() && is_suffix(#[trigger] paths[j], target) ==> preferred(paths, i, j)
}

/// Whether no declared path ends with `target`.
pub open spec fn no_match(paths: Seq<Seq<Seq<char>>>, target: Seq<Seq<char>>) -> bool {
    forall|j: int| 0 <= j < paths.len() ==> !is_suffix(#[trigger] paths[j], target)
}

/// Whether `path` is among the declared paths.
pub open spec fn declared(paths: Seq<Seq<Seq<char>>>, path: Seq<Seq<char>>) -> bool {
    exists|j: int| 0 <= j < paths.len() && #[trigger] paths[j] == path
}

/// Whether the name resolves, in the scope, to the declaration `id` of the
/// paths: it is the best match of the scope's path followed by the name's;
/// or there is no such match, a scope was given, and it is the best match
/// of the name alone.
pub open spec fn resolves_in(paths: Seq<Seq<Seq<char>>>, name: Seq<char>, scope: Seq<char>, id: int)
    -> bool {
    let scoped = spec_path(scope) + spec_path(name);
    ||| best_match(paths, scoped, id)
    ||| no_match(paths, scoped) && scope.len() > 0 && best_match(paths, spec_path(name), id)
}

/// The declaration of the paths that the name resolves to in the scope, if
/// any.
pub open spec fn resolved_in(paths: Seq<Seq<Seq<char>>>, name: Seq<char>, scope: Seq<char>)
    -> Option<int> {
    if exists|id: int| resolves_in(paths, name, scope, id) {
        Some(choose|id: int| resolves_in(paths, name, scope, id))
    } else {
        None
    }
}

/// The paths of the first `upto` names, if they differ from each other;
/// else the index of the first name whose path was there before.
pub open spec fn declared_all(names: Seq<Seq<char>>, upto: int) -> Result<
    Seq<Seq<Seq<char>>>,
    int,
>
    decreases upto,
{
    if upto <= 0 {
        Ok(Seq::empty())
    } else {
        match declared_all(names, upto - 1) {
            Err(twice) => Err(twice),
            Ok(paths) => if declared(paths, spec_path(names[upto - 1])) {
                Err(upto - 1)
            } else {
                Ok(paths.push(spec_path(names[upto - 1])))
            },
        }
    }
}

/// A target resolves to at most one declaration.
pub proof fn lemma_best_match_unique(
    paths: Seq<Seq<Seq<char>>>,
    target: Seq<Seq<char>>,
    i: int,
    j: int,
)
    requires
        best_match(paths, target, i),
        best_match(paths, target, j),
    ensures
        i == j,
{
    assert(preferred(paths, i, j));
    assert(preferred(paths, j, i));
}

/// Splits a name into the segments of its path.
pub fn path(string: &str) -> (r: Vec<String>)
    ensures
        path_view(r@) == spec_path(string@),
{
    let chars = chars_of(string);
    let mut done: Vec<String> = Vec::new();
    let mut current = String::new();
    let mut current_len: usize = 0;
    let mut i: usize = 0;
    assert(path_view(done@) == Seq::<Seq<char>>::empty());
    while i < chars.len()
        invariant
            i <= chars.len(),
            chars@ == string@,
            current_len == current@.len(),
            current_len <= i,
            spec_path(string@) == path_from(chars@, i as int, current@, path_view(done@)),
        decreases chars.len() - i,
    {
        let c = chars[i];
        if c == '\\' {
            if current_len > 0 {
                let ghost before = path_view(done@);
                let ghost segment = current@;
                done.push(current);
                assert(path_view(done@) == before.push(segment));
            }
            current = String::new();
            current_len = 0;
        } else {
            current.push(c);
            current_len += 1;
        }
        i += 1;
    }
    if current_len > 0 {
        let ghost before = path_view(done@);
        let ghost segment = current@;
        done.push(current);
        assert(path_view(done@) == before.push(segment));
    }
    done
}

/// Whether two paths have the same segments.
pub fn same_path(a: &Vec<String>, b: &Vec<String>) -> (r: bool)
    ensures
        r == (path_view(a@) == path_view(b@)),
{
    if a.len() != b.len() {
        assert(path_view(a@).len() != path_view(b@).len());
        return false;
    }
    let mut i: usize = 0;
    while i < a.len()
        invariant
            i <= a.len(),
            a.len() == b.len(),
            forall|k: int| 0 <= k < i ==> path_view(a@)[k] == path_view(b@)[k],
        decreases a.len() - i,
    {
        if a[i] != b[i] {
            assert(path_view(a@)[i as int] != path_view(b@)[i as int]);
            return false;
        }
        i += 1;
    }
    assert(path_view(a@) =~= path_view(b@));
    true
}

/// Whether `path` ends with `target`.
pub fn reference_matches(path: &Vec<String>, target: &Vec<String>) -> (r: bool)
    ensures
        r == is_suffix(path_view(path@), path_view(target@)),
{
    if path.len() < target.len() {
        return false;
    }
    let start = path.len() - target.len();
    let ghost end = path_view(path@).subrange(start as int, path.len() as int);
    let mut i: usize = 0;
    while i < target.len()
        invariant
            i <= target.len(),
            start + target.len() == path.len(),
            end == path_view(path@).subrange(start as int, path.len() as int),
            forall|k: int| 0 <= k < i ==> end[k] == path_view(target@)[k],
        decreases target.len() - i,
    {
        if path[start + i] != target[i] {
            assert(end[i as int] != path_view(target@)[i as int]);
            return false;
        }
        i += 1;
    }
    assert(end =~= path_view(target@));
    true
}

/// Whether `path` is longer than `prefix` and starts with it.
pub fn reference_inside(path: &Vec<String>, prefix: &Vec<String>) -> (r: bool)
    ensures
        r == is_inside(path_view(path@), path_view(prefix@)),
{
    if path.len() <= prefix.len() {
        return false;
    }
    let ghost start = path_view(path@).subrange(0, prefix.len() as int);
    let mut i: usize = 0;
    while i < prefix.len()
        invariant
            i <= prefix.len(),
            prefix.len() < path.len(),
            start == path_view(path@).subrange(0, prefix.len() as int),
            forall|k: int| 0 <= k < i ==> start[k] == path_view(prefix@)[k],
        decreases prefix.len() - i,
    {
        if path[i] != prefix[i] {
            assert(start[i as int] != path_view(prefix@)[i as int]);
            return false;
        }
        i += 1;
    }
    assert(start =~= path_view(prefix@));
    true
}

/// A table as a mathematical value: the kind of its items, the declared
/// paths in the order of their declaration, and the item of each.
pub struct TableView<T> {
    pub name: Seq<char>,
    pub paths: Seq<Seq<Seq<char>>>,
    pub items: Seq<T>,
}

impl<T> TableView<T> {
    /// The table of the given kind that holds nothing.
    pub open spec fn empty(name: Seq<char>) -> Self {
        TableView { name, paths: Seq::empty(), items: Seq::empty() }
    }

    /// The declaration that the name resolves to in the scope, if any.
    pub open spec fn resolved(self, name: Seq<char>, scope: Seq<char>) -> Option<int> {
        resolved_in(self.paths, name, scope)
    }

    /// The error that says that the name resolves to nothing.
    pub open spec fn no_resolution(self, name: Seq<char>) -> ErrorView {
        ErrorView::of(MessageView::NoResolution(self.name, name))
    }

    /// The table after the item was declared under the path of the name; an
    /// error where that path was declared before.
    pub open spec fn declared(self, name: Seq<char>, item: T) -> Result<Self, ErrorView> {
        if declared(self.paths, spec_path(name)) {
            Err(ErrorView::of(MessageView::DoubleDeclaration(self.name, name)))
        } else {
            Ok(
                TableView {
                    name: self.name,
                    paths: self.paths.push(spec_path(name)),
                    items: self.items.push(item),
                },
            )
        }
    }

    /// What a name resolves to is one of the declared paths.
    pub proof fn lemma_resolved_bounds(self, name: Seq<char>, scope: Seq<char>)
        ensures
            self.resolved(name, scope) matches Some(id) ==> 0 <= id < self.paths.len(),
    {
        if exists|id: int| resolves_in(self.paths, name, scope, id) {
            let id = choose|id: int| resolves_in(self.paths, name, scope, id);
            assert(0 <= id < self.paths.len());
        }
    }

    /// The table with `item` in the place of the item with the given number.
    pub open spec fn replaced(self, id: int, item: T) -> Self {
        TableView { name: self.name, paths: self.paths, items: self.items.update(id, item) }
    }
}

/// A table of references to items of a kind.
pub struct Table<T> {
    pub name: &'static str,
    pub items: Vec<(Vec<String>, T)>,
    pub longest_path: usize,
}

impl<T: View> Table<T> {
    /// The declared paths, in the order of their declaration.
    pub open spec fn paths(&self) -> Seq<Seq<Seq<char>>> {
        Seq::new(self.items@.len(), |i: int| path_view(self.items@[i].0@))
    }

    /// The declared items, in the order of their declaration.
    pub open spec fn values(&self) -> Seq<T> {
        Seq::new(self.items@.len(), |i: int| self.items@[i].1)
    }

    /// What the name resolves to in the scope: the best match of the scope's
    /// path followed by the name's; where there is none and a scope was
    /// given, the best match of the name alone.
    pub open spec fn resolves_to(&self, name: Seq<char>, scope: Seq<char>, id: int) -> bool {
        resolves_in(self.paths(), name, scope, id)
    }

    /// The declaration that the name resolves to in the scope, if any.
    pub open spec fn resolved(&self, name: Seq<char>, scope: Seq<char>) -> Option<int> {
        resolved_in(self.paths(), name, scope)
    }

    /// A name resolves to at most one declaration.
    pub proof fn lemma_resolved(&self, name: Seq<char>, scope: Seq<char>, id: int)
        requires
            self.resolves_to(name, scope, id),
        ensures
            self.resolved(name, scope) == Some(id),
            0 <= id < self.items@.len(),
    {
        let other = choose|id: int| resolves_in(self.paths(), name, scope, id);
        let scoped = spec_path(scope) + spec_path(name);
        if best_match(self.paths(), scoped, id) {
            assert(is_suffix(self.paths()[id], scoped));
            if best_match(self.paths(), scoped, other) {
                lemma_best_match_unique(self.paths(), scoped, id, other);
            }
        } else {
            if best_match(self.paths(), scoped, other) {
                assert(is_suffix(self.paths()[other], scoped));
            } else {
                lemma_best_match_unique(self.paths(), spec_path(name), id, other);
            }
        }
    }

    /// What a name resolves to is a declaration of the table.
    pub proof fn lemma_resolved_bounds(&self, name: Seq<char>, scope: Seq<char>)
        ensures
            self.resolved(name, scope) matches Some(id) ==> 0 <= id < self.items@.len()
                && self.resolves_to(name, scope, id),
    {
        if exists|id: int| resolves_in(self.paths(), name, scope, id) {
            let id = choose|id: int| resolves_in(self.paths(), name, scope, id);
            self.lemma_resolved(name, scope, id);
        }
    }

    /// A name that matches no declaration resolves to nothing.
    pub proof fn lemma_unresolved(&self, name: Seq<char>, scope: Seq<char>)
        requires
            self.unresolved(name, scope),
        ensures
            self.resolved(name, scope) is None,
    {
        if exists|id: int| resolves_in(self.paths(), name, scope, id) {
            let id = choose|id: int| resolves_in(self.paths(), name, scope, id);
            let scoped = spec_path(scope) + spec_path(name);
            if best_match(self.paths(), scoped, id) {
                assert(is_suffix(self.paths()[id], scoped));
            } else {
                assert(is_suffix(self.paths()[id], spec_path(name)));
            }
        }
    }

    /// The error that says that the name resolves to nothing.
    pub open spec fn no_resolution(&self, name: Seq<char>) -> ErrorView {
        ErrorView::of(MessageView::NoResolution(self.name@, name))
    }

    /// Whether the name resolves to nothing in the scope.
    pub open spec fn unresolved(&self, name: Seq<char>, scope: Seq<char>) -> bool {
        &&& no_match(self.paths(), spec_path(scope) + spec_path(name))
        &&& scope.len() > 0 ==> no_match(self.paths(), spec_path(name))
    }

    pub fn new(name: &'static str) -> (r: Self)
        ensures
            r.name == name,
            r.items@.len() == 0,
            r.longest_path == 0,
            r@ == TableView::<T::V>::empty(name@),
    {
        let r = Self { name, items: Vec::new(), longest_path: 0 };
        assert(r@.paths =~= Seq::empty());
        assert(r@.items =~= Seq::empty());
        r
    }

    /// Number of declared items.
    pub fn len(&self) -> (r: usize)
        ensures
            r == self.items@.len(),
    {
        self.items.len()
    }

    /// The item with the given number.
    pub fn get(&self, id: usize) -> (r: &T)
        requires
            id < self.items@.len(),
        ensures
            *r == self.items@[id as int].1,
    {
        &self.items[id].1
    }

    /// Puts `item` in the place of the item with the given number, under the
    /// same path.
    pub fn replace(&mut self, id: usize, item: T)
        requires
            id < old(self).items@.len(),
        ensures
            final(self).name == old(self).name,
            final(self).longest_path == old(self).longest_path,
            final(self).paths() == old(self).paths(),
            final(self).values() == old(self).values().update(id as int, item),
            final(self).items@ == old(self).items@.update(
                id as int,
                (old(self).items@[id as int].0, item),
            ),
            final(self)@ == old(self)@.replaced(id as int, item@),
    {
        let ghost before = *self;
        let (path, _) = self.items.remove(id);
        self.items.insert(id, (path, item));
        assert(self.items@ =~= before.items@.update(id as int, (before.items@[id as int].0, item)));
        assert(self.paths() =~= before.paths());
        assert(self.values() =~= before.values().update(id as int, item));
        assert(self@.items =~= before@.items.update(id as int, item@));
    }

    /// The declaration that the target resolves to, if any.
    fn find(&self, target: &Vec<String>) -> (r: Option<usize>)
        ensures
            match r {
                Some(id) => best_match(self.paths(), path_view(target@), id as int),
                None => no_match(self.paths(), path_view(target@)),
            },
    {
        let mut best: Option<usize> = None;
        let mut i: usize = 0;
        while i < self.items.len()
            invariant
                i <= self.items.len(),
                match best {
                    Some(b) => b < i && is_suffix(self.paths()[b as int], path_view(target@))
                        && forall|j: int|
                        0 <= j < i && is_suffix(#[trigger] self.paths()[j], path_view(target@))
                            ==> preferred(self.paths(), b as int, j),
                    None => forall|j: int|
                        0 <= j < i ==> !is_suffix(#[trigger] self.paths()[j], path_view(target@)),
                },
            decreases self.items.len() - i,
        {
            if reference_matches(&self.items[i].0, target) {
                let better = match best {
                    Some(b) => self.items[i].0.len() < self.items[b].0.len(),
                    None => true,
                };
                if better {
                    best = Some(i);
                }
            }
            i += 1;
        }
        best
    }

    /// Resolves the best match of the given path.
    /// When "Add" and "Op\Add" are available, "Add" should resolve to the former.
    /// In the "Op" scope, "Add" should resolve to the latter.
    /// When only "Op\Add" is available, "Add" should resolve to that.
    /// Only when the name is not available inside the scope, global search should be tried.
    pub fn resolve(&self, name: &str, scope: &str) -> (r: CResult<usize>)
        ensures
            match r {
                Ok(id) => self.resolves_to(name@, scope@, id as int) && self.resolved(
                    name@,
                    scope@,
                ) == Some(id as int) && id < self.items@.len(),
                Err(e) => self.unresolved(name@, scope@) && self.resolved(name@, scope@) is None
                    && e.context is None && (
                e.message matches ErrorMessage::NoResolution(kind, unresolved) && kind
                    == self.name && unresolved@ == name@) && e@ == self.no_resolution(name@),
            },
    {
        let bare = path(name);
        let mut scoped = path(scope);
        let ghost scope_path = path_view(scoped@);
        let mut i: usize = 0;
        while i < bare.len()
            invariant
                i <= bare.len(),
                path_view(scoped@) == scope_path + path_view(bare@).subrange(0, i as int),
            decreases bare.len() - i,
        {
            let ghost before = path_view(scoped@);
            scoped.push(bare[i].clone());
            assert(path_view(scoped@) == before.push(bare@[i as int]@));
            assert(path_view(bare@).subrange(0, i + 1) == path_view(bare@).subrange(
                0,
                i as int,
            ).push(bare@[i as int]@));
            i += 1;
        }
        assert(path_view(bare@).subrange(0, i as int) == path_view(bare@));

        if let Some(id) = self.find(&scoped) {
            proof {
                assert(self.resolves_to(name@, scope@, id as int));
                self.lemma_resolved(name@, scope@, id as int);
            }
            return Ok(id);
        }
        if scope.unicode_len() > 0 {
            if let Some(id) = self.find(&bare) {
                proof {
                    assert(self.resolves_to(name@, scope@, id as int));
                    self.lemma_resolved(name@, scope@, id as int);
                }
                return Ok(id);
            }
        } else {
            assert(spec_path(scope@) + spec_path(name@) =~= spec_path(name@)) by {
                assert(scope@ =~= Seq::<char>::empty());
            }
        }
        proof {
            assert(self.unresolved(name@, scope@));
            self.lemma_unresolved(name@, scope@);
        }
        error(ErrorMessage::NoResolution(self.name, String::from_str(name)))
    }

    /// Resolves all matches within a given path.
    pub fn resolve_wildcard(&self, name: &str) -> (r: CResult<Vec<usize>>)
        ensures
            r matches Ok(found) && (forall|k: int|
                0 <= k < found@.len() ==> (#[trigger] found@[k]) < self.items@.len() && is_inside(
                    self.paths()[found@[k] as int],
                    spec_path(name@),
                )) && (forall|k: int, l: int|
                0 <= k < l < found@.len() ==> (#[trigger] found@[k]) < (#[trigger] found@[l])) && (
            forall|i: int|
                0 <= i < self.items@.len() && is_inside(#[trigger] self.paths()[i], spec_path(name@))
                    ==> found@.contains(i as usize)),
    {
        let prefix = path(name);
        let mut result: Vec<usize> = Vec::new();
        let mut i: usize = 0;
        while i < self.items.len()
            invariant
                i <= self.items.len(),
                path_view(prefix@) == spec_path(name@),
                forall|k: int|
                    0 <= k < result@.len() ==> (#[trigger] result@[k]) < i && is_inside(
                        self.paths()[result@[k] as int],
                        spec_path(name@),
                    ),
                forall|k: int, l: int|
                    0 <= k < l < result@.len() ==> (#[trigger] result@[k]) < (
                    #[trigger] result@[l]),
                forall|j: int|
                    0 <= j < i && is_inside(#[trigger] self.paths()[j], spec_path(name@))
                        ==> result@.contains(j as usize),
            decreases self.items.len() - i,
        {
            if reference_inside(&self.items[i].0, &prefix) {
                let ghost before = result@;
                result.push(i);
                assert forall|j: int|
                    0 <= j < i + 1 && is_inside(
                        #[trigger] self.paths()[j],
                        spec_path(name@),
                    ) implies result@.contains(j as usize) by {
                    if j < i {
                        let k = choose|k: int| 0 <= k < before.len() && before[k] == j as usize;
                        assert(result@[k] == j as usize);
                    } else {
                        assert(result@[result@.len() - 1] == i);
                    }
                }
            }
            i += 1;
        }

        Ok(result)
    }

    /// Declares an item under the path of the given name. A path can be
    /// declared once.
    pub fn declare(&mut self, name: &str, item: T) -> (r: CResult<usize>)
        ensures
            final(self).name == old(self).name,
            match r {
                Ok(id) => !declared(old(self).paths(), spec_path(name@)) && id == old(
                    self,
                ).items@.len() && final(self).paths() == old(self).paths().push(spec_path(name@))
                    && final(self).values() == old(self).values().push(item) && final(self).items@.len() == old(self).items@.len() + 1 && final(self).items@.drop_last()
                    == old(self).items@ && final(self).items@.last().1 == item && old(self)@.declared(name@, item@) == Ok::<TableView<T::V>, ErrorView>(final(self)@),
                Err(e) => declared(old(self).paths(), spec_path(name@)) && final(self).items
                    == old(self).items && e.context is None && (
                e.message matches ErrorMessage::DoubleDeclaration(kind, twice) && kind == old(
                    self,
                ).name && twice@ == name@) && e@ == ErrorView::of(
                    MessageView::DoubleDeclaration(old(self).name@, name@),
                ) && old(self)@.declared(name@, item@) == Err::<TableView<T::V>, ErrorView>(e@),
            },
    {
        let new_path = path(name);

        let mut i: usize = 0;
        while i < self.items.len()
            invariant
                i <= self.items.len(),
                *self == *old(self),
                path_view(new_path@) == spec_path(name@),
                forall|j: int| 0 <= j < i ==> #[trigger] self.paths()[j] != spec_path(name@),
            decreases self.items.len() - i,
        {
            if same_path(&self.items[i].0, &new_path) {
                assert(self.paths()[i as int] == spec_path(name@));
                return error(
                    ErrorMessage::DoubleDeclaration(self.name, String::from_str(name)),
                );
            }
            i += 1;
        }

        if new_path.len() > self.longest_path {
            self.longest_path = new_path.len();
        }
        let id = self.items.len();
        self.items.push((new_path, item));
        assert(self.items@.drop_last() =~= old(self).items@);
        assert(self.paths() =~= old(self).paths().push(spec_path(name@)));
        assert(self.values() =~= old(self).values().push(item));
        assert(self@.items =~= old(self)@.items.push(item@));

        Ok(id)
    }
}

impl<T: View> View for Table<T> {
    type V = TableView<T::V>;

    open spec fn view(&self) -> TableView<T::V> {
        TableView {
            name: self.name@,
            paths: self.paths(),
            items: Seq::new(self.items@.len(), |i: int| self.items@[i].1@),
        }
    }
}

/// Declares every name, in order, with the name itself as item.
pub fn name_table(names: &Vec<String>) -> (r: CResult<Table<String>>)
    ensures
        match declared_all(crate::text::texts(names@), names@.len() as int) {
            Ok(paths) => r matches Ok(table) && table.paths() == paths && table.name@ == "Trait"@
                && table.items@.len() == names@.len() && forall|i: int|
                0 <= i < names@.len() ==> (#[trigger] table.items@[i]).1@ == names@[i]@,
            Err(twice) => r matches Err(e) && e@ == ErrorView::of(
                MessageView::DoubleDeclaration("Trait"@, names@[twice]@),
            ) && 0 <= twice < names@.len(),
        },
{
    let ghost all = crate::text::texts(names@);
    let mut table: Table<String> = Table::new("Trait");
    let mut k: usize = 0;
    assert(table.paths() =~= Seq::<Seq<Seq<char>>>::empty());
    while k < names.len()
        invariant
            k <= names.len(),
            all == crate::text::texts(names@),
            table.name@ == "Trait"@,
            table.items@.len() == k,
            declared_all(all, k as int) == Ok::<Seq<Seq<Seq<char>>>, int>(table.paths()),
            forall|i: int| 0 <= i < k ==> (#[trigger] table.items@[i]).1@ == names@[i]@,
        decreases names.len() - k,
    {
        let ghost before = table.items@;
        assert(all[k as int] == names@[k as int]@);
        match table.declare(names[k].as_str(), names[k].clone()) {
            Ok(_) => {
                assert forall|i: int| 0 <= i < k + 1 implies (#[trigger] table.items@[i]).1@
                    == names@[i]@ by {
                    if i < k {
                        assert(table.items@[i] == table.items@.drop_last()[i]);
                    }
                }
            },
            Err(e) => {
                proof {
                    lemma_declared_twice(all, k + 1, names@.len() as int);
                }
                return Err(e);
            },
        }
        k += 1;
    }
    Ok(table)
}

/// A name that is there twice among the first names is there twice among
/// all.
pub proof fn lemma_declared_twice(names: Seq<Seq<char>>, upto: int, all: int)
    requires
        0 <= upto <= all,
        declared_all(names, upto) is Err,
    ensures
        declared_all(names, all) == declared_all(names, upto),
    decreases all - upto,
{
    if upto < all {
        lemma_declared_twice(names, upto, all - 1);
    }
}

} // verus!
