//! Paths as texts, and sets of paths.
//!
//! A path is a text in which `/` separates the components, read as `std::path::Path` reads
//! it on a system with that separator. A `PathSet` keeps its paths in the order in which
//! they were first seen and never holds one twice; its view is that ordered list of paths,
//! each a `Seq<char>`. It tells paths apart by their text.

use crate::text::{
    chars_of, contains_text, extend_texts, is_empty_text, lemma_texts_push, same_text, split,
    split_fields, starts_with, texts,
};
use vstd::prelude::*;
use vstd::string::*;

verus! {

/// The elements of `list` in the order of their first occurrence, each once.
pub open spec fn distinct(list: Seq<Seq<char>>) -> Seq<Seq<char>>
    decreases list.len(),
{
    if list.len() == 0 {
        Seq::<Seq<char>>::empty()
    } else if distinct(list.drop_last()).contains(list.last()) {
        distinct(list.drop_last())
    } else {
        distinct(list.drop_last()).push(list.last())
    }
}

/// The elements of `a` that `b` does not hold, in the order of `a`.
pub open spec fn without(a: Seq<Seq<char>>, b: Seq<Seq<char>>) -> Seq<Seq<char>>
    decreases a.len(),
{
    if a.len() == 0 {
        Seq::<Seq<char>>::empty()
    } else if b.contains(a.last()) {
        without(a.drop_last(), b)
    } else {
        without(a.drop_last(), b).push(a.last())
    }
}

/// The elements of `a` that `b` holds too, in the order of `a`.
pub open spec fn common(a: Seq<Seq<char>>, b: Seq<Seq<char>>) -> Seq<Seq<char>>
    decreases a.len(),
{
    if a.len() == 0 {
        Seq::<Seq<char>>::empty()
    } else if b.contains(a.last()) {
        common(a.drop_last(), b).push(a.last())
    } else {
        common(a.drop_last(), b)
    }
}

/// `distinct` keeps exactly the elements of the list, and none of them twice.
pub proof fn lemma_distinct(list: Seq<Seq<char>>)
    ensures
        distinct(list).no_duplicates(),
        forall|p: Seq<char>| #[trigger] distinct(list).contains(p) <==> list.contains(p),
    decreases list.len(),
{
    if list.len() > 0 {
        let rest = list.drop_last();
        let last = list.last();
        lemma_distinct(rest);
        assert forall|p: Seq<char>| distinct(list).contains(p) <==> list.contains(p) by {
            lemma_contains_last(list, p);
            lemma_contains_push(distinct(rest), last, p);
        }
        if !distinct(rest).contains(last) {
            lemma_push_fresh(distinct(rest), last);
        }
    }
}

/// `without(a, b)` holds exactly the elements of `a` that are not in `b`, and no element
/// twice if `a` holds none twice.
pub proof fn lemma_without(a: Seq<Seq<char>>, b: Seq<Seq<char>>)
    ensures
        forall|p: Seq<char>| #[trigger]
            without(a, b).contains(p) <==> a.contains(p) && !b.contains(p),
        a.no_duplicates() ==> without(a, b).no_duplicates(),
    decreases a.len(),
{
    if a.len() > 0 {
        let rest = a.drop_last();
        let last = a.last();
        lemma_without(rest, b);
        assert forall|p: Seq<char>| without(a, b).contains(p) <==> a.contains(p) && !b.contains(
            p,
        ) by {
            lemma_contains_last(a, p);
            lemma_contains_push(without(rest, b), last, p);
        }
        if a.no_duplicates() {
            lemma_drop_last_distinct(a);
            if !b.contains(last) {
                lemma_push_fresh(without(rest, b), last);
            }
        }
    }
}

/// `common(a, b)` holds exactly the elements of `a` that are in `b` too, and no element
/// twice if `a` holds none twice.
pub proof fn lemma_common(a: Seq<Seq<char>>, b: Seq<Seq<char>>)
    ensures
        forall|p: Seq<char>| #[trigger]
            common(a, b).contains(p) <==> a.contains(p) && b.contains(p),
        a.no_duplicates() ==> common(a, b).no_duplicates(),
    decreases a.len(),
{
    if a.len() > 0 {
        let rest = a.drop_last();
        let last = a.last();
        lemma_common(rest, b);
        assert forall|p: Seq<char>| common(a, b).contains(p) <==> a.contains(p) && b.contains(
            p,
        ) by {
            lemma_contains_last(a, p);
            lemma_contains_push(common(rest, b), last, p);
        }
        if a.no_duplicates() {
            lemma_drop_last_distinct(a);
            if b.contains(last) {
                lemma_push_fresh(common(rest, b), last);
            }
        }
    }
}

/// Nothing is left of a list once its own elements are taken away.
pub proof fn lemma_without_self(a: Seq<Seq<char>>)
    ensures
        without(a, a).len() == 0,
{
    lemma_without(a, a);
    if without(a, a).len() > 0 {
        let p = without(a, a)[0];
        assert(without(a, a).contains(p));
        assert(a.contains(p) && !a.contains(p));
    }
}

/// A non-empty list holds `p` if its last element is `p` or the elements before it hold `p`.
pub proof fn lemma_contains_last<A>(list: Seq<A>, p: A)
    requires
        list.len() > 0,
    ensures
        list.contains(p) <==> list.drop_last().contains(p) || list.last() == p,
{
    let rest = list.drop_last();
    if list.contains(p) {
        let i = choose|i: int| 0 <= i < list.len() && list[i] == p;
        if i < list.len() - 1 {
            assert(rest[i] == p);
        }
    }
    if rest.contains(p) {
        let i = choose|i: int| 0 <= i < rest.len() && rest[i] == p;
        assert(list[i] == p);
    }
    if list.last() == p {
        assert(list[list.len() - 1] == p);
    }
}

/// A list with `x` pushed holds `p` if `p` is `x` or the list held `p`.
pub proof fn lemma_contains_push<A>(list: Seq<A>, x: A, p: A)
    ensures
        list.push(x).contains(p) <==> list.contains(p) || x == p,
{
    let grown = list.push(x);
    assert(grown.drop_last() =~= list);
    lemma_contains_last(grown, p);
}

/// Pushing an element that a duplicate-free list does not hold keeps it duplicate-free.
pub proof fn lemma_push_fresh<A>(list: Seq<A>, x: A)
    requires
        list.no_duplicates(),
        !list.contains(x),
    ensures
        list.push(x).no_duplicates(),
{
    let grown = list.push(x);
    assert forall|i: int, j: int|
        0 <= i < grown.len() && 0 <= j < grown.len() && i != j implies grown[i] != grown[j] by {
        if i < list.len() && j < list.len() {
        } else if i < list.len() {
            assert(list.contains(list[i]));
        } else {
            assert(list.contains(list[j]));
        }
    }
}

/// Without its last element, a duplicate-free list is duplicate-free and does not hold
/// that element.
pub proof fn lemma_drop_last_distinct<A>(list: Seq<A>)
    requires
        list.len() > 0,
        list.no_duplicates(),
    ensures
        list.drop_last().no_duplicates(),
        !list.drop_last().contains(list.last()),
{
    let rest = list.drop_last();
    if rest.contains(list.last()) {
        let i = choose|i: int| 0 <= i < rest.len() && rest[i] == list.last();
        assert(list[i] == list[list.len() - 1]);
    }
}

/// The pieces that name something, in order: those that are neither empty nor a single
/// dot.
pub open spec fn named_pieces(pieces: Seq<Seq<char>>) -> Seq<Seq<char>>
    decreases pieces.len(),
{
    if pieces.len() == 0 {
        Seq::<Seq<char>>::empty()
    } else if pieces.last().len() > 0 && pieces.last() != seq!['.'] {
        named_pieces(pieces.drop_last()).push(pieces.last())
    } else {
        named_pieces(pieces.drop_last())
    }
}

/// The components of a path that name something: a file, a directory, or the directory
/// above. Repeated separators and single dots between them name nothing.
pub open spec fn components(path: Seq<char>) -> Seq<Seq<char>> {
    named_pieces(split(path, '/'))
}

/// Whether a path starts at the root.
pub open spec fn is_rooted(path: Seq<char>) -> bool {
    path.len() > 0 && path[0] == '/'
}

/// Whether a path starts with the current directory, written as a single dot.
pub open spec fn starts_here(path: Seq<char>) -> bool {
    path == seq!['.'] || seq!['.', '/'].is_prefix_of(path)
}

/// The components of a path as `std::path::Path::components` lists them: the root,
/// written `/`, where the path starts at it; the current directory, written `.`, where the
/// path starts with it; then the components that name something.
pub open spec fn all_components(path: Seq<char>) -> Seq<Seq<char>> {
    (if is_rooted(path) {
        seq![seq!['/']]
    } else if starts_here(path) {
        seq![seq!['.']]
    } else {
        Seq::<Seq<char>>::empty()
    }) + components(path)
}

/// The last component of a path, if it has any.
pub open spec fn last_component(path: Seq<char>) -> Option<Seq<char>> {
    if all_components(path).len() > 0 {
        Some(all_components(path).last())
    } else {
        None
    }
}

/// The name of the file or directory that a path ends in, as `std::path::Path::file_name`
/// gives it: the last component that names something, unless that is the directory above.
pub open spec fn file_name(path: Seq<char>) -> Option<Seq<char>> {
    if components(path).len() > 0 && components(path).last() != seq!['.', '.'] {
        Some(components(path).last())
    } else {
        None
    }
}

/// The path of `relative` below the directory `dir`, as `std::path::Path::join` gives it
/// for a relative path.
pub open spec fn joined_path(dir: Seq<char>, relative: Seq<char>) -> Seq<char> {
    if dir.len() == 0 || dir.last() == '/' {
        dir + relative
    } else {
        dir + "/"@ + relative
    }
}

/// The components of `path` that name something, in order.
pub fn path_components(path: &str) -> (named: Vec<String>)
    ensures
        texts(named@) == components(path@),
{
    let pieces = split_fields(path, '/');
    let mut named: Vec<String> = Vec::new();
    let mut i: usize = 0;
    assert(texts(pieces@).take(0) =~= Seq::<Seq<char>>::empty());
    assert(texts(named@) =~= Seq::<Seq<char>>::empty());
    while i < pieces.len()
        invariant
            i <= pieces.len(),
            texts(named@) == named_pieces(texts(pieces@).take(i as int)),
        decreases pieces.len() - i,
    {
        proof {
            let now = texts(pieces@).take(i + 1);
            assert(now.drop_last() =~= texts(pieces@).take(i as int));
            assert(now.last() == pieces@[i as int]@);
            reveal_strlit(".");
            assert("."@ =~= seq!['.']);
        }
        if !is_empty_text(pieces[i].as_str()) && !same_text(pieces[i].as_str(), ".") {
            let piece = pieces[i].clone();
            proof {
                lemma_texts_push(named@, piece);
            }
            named.push(piece);
        }
        i += 1;
    }
    assert(texts(pieces@).take(pieces.len() as int) =~= texts(pieces@));
    named
}

/// Whether `path` starts at the root.
pub fn starts_at_root(path: &str) -> (b: bool)
    ensures
        b == is_rooted(path@),
{
    proof {
        reveal_strlit("/");
    }
    let rooted = starts_with(path, "/");
    assert(rooted == is_rooted(path@)) by {
        if is_rooted(path@) {
            assert("/"@ =~= path@.subrange(0, 1));
        }
        if rooted {
            assert(path@.subrange(0, 1)[0] == path@[0]);
        }
    }
    rooted
}

/// Whether `path` starts with the current directory, written as a single dot.
pub fn starts_with_dot(path: &str) -> (b: bool)
    ensures
        b == starts_here(path@),
{
    proof {
        reveal_strlit(".");
        reveal_strlit("./");
        assert("."@ =~= seq!['.']);
        assert("./"@ =~= seq!['.', '/']);
    }
    same_text(path, ".") || starts_with(path, "./")
}

/// The components of `path`, in order: the root or the current directory where the path
/// starts with one of them, then the components that name something.
pub fn path_all_components(path: &str) -> (all: Vec<String>)
    ensures
        texts(all@) == all_components(path@),
{
    let mut all: Vec<String> = Vec::new();
    assert(texts(all@) =~= Seq::<Seq<char>>::empty());
    if starts_at_root(path) {
        proof {
            reveal_strlit("/");
            assert("/"@ =~= seq!['/']);
        }
        all.push(String::from_str("/"));
        assert(texts(all@) =~= seq![seq!['/']]);
    } else if starts_with_dot(path) {
        proof {
            reveal_strlit(".");
            assert("."@ =~= seq!['.']);
        }
        all.push(String::from_str("."));
        assert(texts(all@) =~= seq![seq!['.']]);
    }
    let named = path_components(path);
    extend_texts(&mut all, &named);
    all
}

/// The name of the file or directory that `path` ends in, if it ends in one.
pub fn path_file_name(path: &str) -> (name: Option<String>)
    ensures
        match name {
            Some(text) => file_name(path@) == Some(text@),
            None => file_name(path@) is None,
        },
{
    let named = path_components(path);
    if named.len() == 0 {
        return None;
    }
    let last = &named[named.len() - 1];
    proof {
        reveal_strlit("..");
        assert(".."@ =~= seq!['.', '.']);
        assert(texts(named@).last() == last@);
    }
    if same_text(last.as_str(), "..") {
        None
    } else {
        Some(last.clone())
    }
}

/// The path of `relative` below the directory `dir`.
pub fn join_path(dir: &str, relative: &str) -> (path: String)
    ensures
        path@ == joined_path(dir@, relative@),
{
    let chars = chars_of(dir);
    let mut path = String::from_str(dir);
    if chars.len() > 0 && chars[chars.len() - 1] != '/' {
        path.append("/");
    }
    path.append(relative);
    path
}

/// A set of paths, in the order in which they were first added.
///
/// Two paths are the same path here if they are the same text. Paths that `std::path::Path`
/// holds equal because their components agree, such as `a/./b` and `a/b`, are two paths to
/// a `PathSet`. The sets of this crate are made from listings that the version control
/// writes, which name each file in one way only, so that the two readings agree on them.
pub struct PathSet {
    paths: Vec<String>,
}

impl View for PathSet {
    type V = Seq<Seq<char>>;

    closed spec fn view(&self) -> Seq<Seq<char>> {
        texts(self.paths@)
    }
}

impl PathSet {
    #[verifier::type_invariant]
    spec fn well_formed(self) -> bool {
        texts(self.paths@).no_duplicates()
    }

    /// The set without any path.
    pub fn new() -> (set: PathSet)
        ensures
            set@ == Seq::<Seq<char>>::empty(),
    {
        let paths: Vec<String> = Vec::new();
        assert(texts(paths@) =~= Seq::<Seq<char>>::empty());
        PathSet { paths }
    }

    /// The set of the paths in `list`: each path once, in the order of first occurrence.
    pub fn from_list(list: Vec<String>) -> (set: PathSet)
        ensures
            set@ == distinct(texts(list@)),
            set@.no_duplicates(),
    {
        let mut paths: Vec<String> = Vec::new();
        let mut i: usize = 0;
        assert(texts(list@).take(0) =~= Seq::<Seq<char>>::empty());
        assert(texts(paths@) =~= Seq::<Seq<char>>::empty());
        while i < list.len()
            invariant
                i <= list.len(),
                texts(paths@) == distinct(texts(list@).take(i as int)),
            decreases list.len() - i,
        {
            proof {
                let now = texts(list@).take(i + 1);
                assert(now.drop_last() =~= texts(list@).take(i as int));
                assert(now.last() == list@[i as int]@);
            }
            if !contains_text(&paths, &list[i]) {
                let path = list[i].clone();
                proof {
                    lemma_texts_push(paths@, path);
                }
                paths.push(path);
            }
            i += 1;
        }
        proof {
            assert(texts(list@).take(list.len() as int) =~= texts(list@));
            lemma_distinct(texts(list@));
        }
        PathSet { paths }
    }

    /// The number of paths.
    pub fn len(&self) -> (n: usize)
        ensures
            n == self@.len(),
    {
        self.paths.len()
    }

    /// The path at position `i`, if there is one.
    pub fn get(&self, i: usize) -> (path: Option<&String>)
        ensures
            i < self@.len() ==> path is Some && path->0@ == self@[i as int],
            i >= self@.len() ==> path is None,
    {
        if i < self.paths.len() {
            Some(&self.paths[i])
        } else {
            None
        }
    }

    /// Whether the set holds `path`.
    pub fn contains(&self, path: &String) -> (b: bool)
        ensures
            b == self@.contains(path@),
    {
        contains_text(&self.paths, path)
    }

    /// The paths, in order.
    pub fn to_list(&self) -> (list: Vec<String>)
        ensures
            texts(list@) == self@,
            self@.no_duplicates(),
    {
        proof {
            use_type_invariant(self);
        }
        let mut list: Vec<String> = Vec::new();
        let mut i: usize = 0;
        assert(texts(list@) =~= self@.take(0));
        while i < self.paths.len()
            invariant
                i <= self.paths.len(),
                texts(list@) == self@.take(i as int),
            decreases self.paths.len() - i,
        {
            let path = self.paths[i].clone();
            proof {
                lemma_texts_push(list@, path);
                assert(self@.take(i + 1) =~= self@.take(i as int).push(path@));
            }
            list.push(path);
            i += 1;
        }
        assert(self@.take(self.paths.len() as int) =~= self@);
        list
    }

    /// The paths of this set that `other` does not hold.
    pub fn difference(&self, other: &PathSet) -> (rest: PathSet)
        ensures
            rest@ == without(self@, other@),
            rest@.no_duplicates(),
    {
        proof {
            use_type_invariant(self);
        }
        let mut paths: Vec<String> = Vec::new();
        let mut i: usize = 0;
        assert(self@.take(0) =~= Seq::<Seq<char>>::empty());
        assert(texts(paths@) =~= Seq::<Seq<char>>::empty());
        while i < self.paths.len()
            invariant
                i <= self.paths.len(),
                texts(paths@) == without(self@.take(i as int), other@),
            decreases self.paths.len() - i,
        {
            proof {
                let now = self@.take(i + 1);
                assert(now.drop_last() =~= self@.take(i as int));
                assert(now.last() == self.paths@[i as int]@);
            }
            if !other.contains(&self.paths[i]) {
                let path = self.paths[i].clone();
                proof {
                    lemma_texts_push(paths@, path);
                }
                paths.push(path);
            }
            i += 1;
        }
        proof {
            assert(self@.take(self.paths.len() as int) =~= self@);
            lemma_without(self@, other@);
        }
        PathSet { paths }
    }

    /// The paths of this set that `other` holds too.
    pub fn intersection(&self, other: &PathSet) -> (shared: PathSet)
        ensures
            shared@ == common(self@, other@),
            shared@.no_duplicates(),
    {
        proof {
            use_type_invariant(self);
        }
        let mut paths: Vec<String> = Vec::new();
        let mut i: usize = 0;
        assert(self@.take(0) =~= Seq::<Seq<char>>::empty());
        assert(texts(paths@) =~= Seq::<Seq<char>>::empty());
        while i < self.paths.len()
            invariant
                i <= self.paths.len(),
                texts(paths@) == common(self@.take(i as int), other@),
            decreases self.paths.len() - i,
        {
            proof {
                let now = self@.take(i + 1);
                assert(now.drop_last() =~= self@.take(i as int));
                assert(now.last() == self.paths@[i as int]@);
            }
            if other.contains(&self.paths[i]) {
                let path = self.paths[i].clone();
                proof {
                    lemma_texts_push(paths@, path);
                }
                paths.push(path);
            }
            i += 1;
        }
        proof {
            assert(self@.take(self.paths.len() as int) =~= self@);
            lemma_common(self@, other@);
        }
        PathSet { paths }
    }

    /// A copy of the set.
    pub fn duplicate(&self) -> (copy: PathSet)
        ensures
            copy@ == self@,
            copy@.no_duplicates(),
    {
        let paths = self.to_list();
        PathSet { paths }
    }
}

} // verus!
